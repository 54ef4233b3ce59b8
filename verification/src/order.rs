//! The order in which resolved paths are kept: lexicographic by character.

use vstd::prelude::*;
use vstd::std_specs::iter::IteratorSpec;

verus! {

/// How one path stands to another in the path order.
#[derive(Clone, Copy, Debug, PartialEq, Eq, Structural)]
pub enum Rank {
    /// The first path comes strictly before the second.
    Before,
    /// The two paths are the same.
    Same,
    /// The first path comes strictly after the second.
    After,
}

/// `a` and `b` hold the same characters at every position below `k`.
pub open spec fn agree(a: Seq<char>, b: Seq<char>, k: int) -> bool {
    forall|j: int| 0 <= j < k ==> a[j] == b[j]
}

/// `a` and `b` agree below `k`, and at `k` either `a` ends while `b` goes on
/// or `a` holds the smaller character.
pub open spec fn precedes_at(a: Seq<char>, b: Seq<char>, k: int) -> bool {
    &&& 0 <= k <= a.len()
    &&& k < b.len()
    &&& agree(a, b, k)
    &&& (k == a.len() || a[k] < b[k])
}

/// `a` comes strictly before `b`: a proper prefix comes before its extensions,
/// and otherwise the first differing character decides.
pub open spec fn precedes(a: Seq<char>, b: Seq<char>) -> bool {
    exists|k: int| precedes_at(a, b, k)
}

/// No path comes before itself.
pub proof fn lemma_precedes_irreflexive(a: Seq<char>)
    ensures
        !precedes(a, a),
{
}

/// The path order is transitive.
pub proof fn lemma_precedes_transitive(a: Seq<char>, b: Seq<char>, c: Seq<char>)
    requires
        precedes(a, b),
        precedes(b, c),
    ensures
        precedes(a, c),
{
    let k1 = choose|k: int| precedes_at(a, b, k);
    let k2 = choose|k: int| precedes_at(b, c, k);
    let k = if k1 <= k2 { k1 } else { k2 };
    assert(precedes_at(a, c, k));
}

/// Of two paths at most one comes before the other.
pub proof fn lemma_precedes_asymmetric(a: Seq<char>, b: Seq<char>)
    requires
        precedes(a, b),
    ensures
        !precedes(b, a),
        a != b,
{
    if precedes(b, a) {
        lemma_precedes_transitive(a, b, a);
    }
    lemma_precedes_irreflexive(a);
}

/// Places `a` relative to `b` in the path order.
pub fn rank(a: &str, b: &str) -> (r: Rank)
    ensures
        r is Before <==> precedes(a@, b@),
        r is Same <==> a@ == b@,
        r is After <==> precedes(b@, a@),
{
    let mut left = a.chars();
    let mut right = b.chars();
    let ghost mut k: int = 0;
    loop
        invariant
            0 <= k <= a@.len(),
            k <= b@.len(),
            agree(a@, b@, k),
            left.remaining() == a@.skip(k),
            right.remaining() == b@.skip(k),
        decreases a@.len() - k,
    {
        let x = left.next();
        let y = right.next();
        match (x, y) {
            (None, None) => {
                proof {
                    assert(a@ =~= b@);
                    lemma_precedes_irreflexive(a@);
                }
                return Rank::Same;
            },
            (None, Some(_)) => {
                proof {
                    assert(precedes_at(a@, b@, k));
                    lemma_precedes_asymmetric(a@, b@);
                }
                return Rank::Before;
            },
            (Some(_), None) => {
                proof {
                    assert(precedes_at(b@, a@, k));
                    lemma_precedes_asymmetric(b@, a@);
                }
                return Rank::After;
            },
            (Some(p), Some(q)) => {
                if p < q {
                    proof {
                        assert(precedes_at(a@, b@, k));
                        lemma_precedes_asymmetric(a@, b@);
                    }
                    return Rank::Before;
                } else if q < p {
                    proof {
                        assert(precedes_at(b@, a@, k));
                        lemma_precedes_asymmetric(b@, a@);
                    }
                    return Rank::After;
                }
                proof {
                    k = k + 1;
                }
            },
        }
    }
}

} // verus!
