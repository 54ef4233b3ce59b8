//! Facts about filtered sequences.

use vstd::prelude::*;

verus! {

/// Two predicates that agree on every element of a sequence filter it alike.
pub proof fn lemma_filter_agree<A>(s: Seq<A>, p: spec_fn(A) -> bool, q: spec_fn(A) -> bool)
    requires
        forall|i: int| 0 <= i < s.len() ==> p(#[trigger] s[i]) == q(s[i]),
    ensures
        s.filter(p) == s.filter(q),
    decreases s.len(),
{
    reveal(Seq::filter);
    if s.len() > 0 {
        assert forall|i: int| 0 <= i < s.drop_last().len() implies p(#[trigger] s.drop_last()[i])
            == q(s.drop_last()[i]) by {
            assert(s.drop_last()[i] == s[i]);
        }
        lemma_filter_agree(s.drop_last(), p, q);
        assert(p(s.last()) == q(s[s.len() - 1]));
    }
}

/// A filter keeps exactly the elements that satisfy the predicate, and keeps
/// them apart if they were apart.
pub proof fn lemma_filter_members<A>(s: Seq<A>, p: spec_fn(A) -> bool)
    ensures
        forall|x: A| #[trigger] s.filter(p).contains(x) <==> s.contains(x) && p(x),
        s.no_duplicates() ==> s.filter(p).no_duplicates(),
    decreases s.len(),
{
    reveal(Seq::filter);
    if s.len() > 0 {
        let rest = s.drop_last();
        let last = s.last();
        lemma_filter_members(rest, p);
        assert(s =~= rest.push(last));
        assert forall|x: A| #[trigger] s.filter(p).contains(x) <==> s.contains(x) && p(x) by {
            if s.filter(p).contains(x) {
                let i = choose|i: int| 0 <= i < s.filter(p).len() && s.filter(p)[i] == x;
                if p(last) && i == rest.filter(p).len() {
                    assert(s[s.len() - 1] == x);
                } else {
                    assert(rest.filter(p)[i] == x);
                    assert(rest.filter(p).contains(x));
                    let j = choose|j: int| 0 <= j < rest.len() && rest[j] == x;
                    assert(s[j] == x);
                }
            }
            if s.contains(x) && p(x) {
                let j = choose|j: int| 0 <= j < s.len() && s[j] == x;
                if j < rest.len() {
                    assert(rest[j] == x);
                    assert(rest.filter(p).contains(x));
                    let i = choose|i: int| 0 <= i < rest.filter(p).len() && rest.filter(p)[i] == x;
                    assert(s.filter(p)[i] == x);
                } else {
                    assert(s.filter(p)[rest.filter(p).len() as int] == x);
                }
            }
        }
        if s.no_duplicates() {
            assert(rest.no_duplicates());
            if p(last) {
                if rest.filter(p).contains(last) {
                    let j = choose|j: int| 0 <= j < rest.len() && rest[j] == last;
                    assert(s[j] == s[s.len() - 1]);
                }
                let kept = rest.filter(p).push(last);
                assert forall|i: int, j: int|
                    0 <= i < kept.len() && 0 <= j < kept.len() && i != j implies kept[i]
                    != kept[j] by {
                    if i < rest.filter(p).len() && j < rest.filter(p).len() {
                    } else if i < rest.filter(p).len() {
                        assert(rest.filter(p).contains(rest.filter(p)[i]));
                    } else {
                        assert(rest.filter(p).contains(rest.filter(p)[j]));
                    }
                }
            }
        }
    }
}

/// A filter that every element passes changes nothing, and one that no
/// element passes leaves nothing.
pub proof fn lemma_filter_all_or_none<A>(s: Seq<A>, p: spec_fn(A) -> bool)
    ensures
        (forall|i: int| 0 <= i < s.len() ==> p(#[trigger] s[i])) ==> s.filter(p) == s,
        (forall|i: int| 0 <= i < s.len() ==> !p(#[trigger] s[i])) ==> s.filter(p) == Seq::<
            A,
        >::empty(),
    decreases s.len(),
{
    reveal(Seq::filter);
    if s.len() > 0 {
        let rest = s.drop_last();
        lemma_filter_all_or_none(rest, p);
        assert(forall|i: int| 0 <= i < rest.len() ==> rest[i] == s[i]);
        if forall|i: int| 0 <= i < s.len() ==> p(#[trigger] s[i]) {
            assert(p(s[s.len() - 1]));
            assert(s.filter(p) =~= s);
        }
        if forall|i: int| 0 <= i < s.len() ==> !p(#[trigger] s[i]) {
            assert(!p(s[s.len() - 1]));
        }
    } else {
        assert(s.filter(p) =~= s);
    }
}

} // verus!
