//! What holds of the watch set over whole reconciliation passes.
//!
//! A pass is a call of `Notifier::reconcile` followed by an `attach` for each
//! path that it reported missing. `settled` is the watch set after such a
//! pass, and the laws below are stated over it.

use crate::notifier::{
    keys, lemma_pushed_coherent, lemma_retained_coherent, lemma_retained_keys, missing, off_target,
    on_target, retained, stale, unwatched, Notifier,
};
use crate::filters::{lemma_filter_all_or_none, lemma_filter_members};
use vstd::prelude::*;
use vstd::multiset::lemma_multiset_empty_len;
use vstd::seq_lib::to_multiset_build;

verus! {

/// A reconciliation loses no watch and doubles none: each watch of the set is
/// afterwards either still in the set or among the released, once.
pub proof fn law_reconcile_partitions<H>(entries: Seq<(Seq<char>, H)>, targets: Seq<Seq<char>>)
    ensures
        retained(entries, targets).to_multiset().add(stale(entries, targets).to_multiset())
            == entries.to_multiset(),
    decreases entries.len(),
{
    reveal(Seq::filter);
    if entries.len() == 0 {
        entries.to_multiset_ensures();
        lemma_multiset_empty_len(entries.to_multiset());
        assert(retained(entries, targets) =~= entries);
        assert(stale(entries, targets) =~= entries);
        assert(retained(entries, targets).to_multiset().add(
            stale(entries, targets).to_multiset(),
        ) =~= entries.to_multiset());
    } else {
        let rest = entries.drop_last();
        let last = entries.last();
        law_reconcile_partitions(rest, targets);
        assert(entries =~= rest.push(last));
        rest.lemma_filter_push(last, on_target(targets));
        rest.lemma_filter_push(last, off_target(targets));
        to_multiset_build(rest, last);
        to_multiset_build(retained(rest, targets), last);
        to_multiset_build(stale(rest, targets), last);
        assert(retained(entries, targets).to_multiset().add(
            stale(entries, targets).to_multiset(),
        ) =~= entries.to_multiset());
    }
}

/// The watches that `fresh` creates for the first `n` of `paths`.
pub open spec fn created<H>(paths: Seq<Seq<char>>, fresh: spec_fn(Seq<char>) -> H, n: int) -> Seq<
    (Seq<char>, H),
> {
    paths.take(n).map_values(|p: Seq<char>| (p, fresh(p)))
}

/// The watch set in the middle of a pass: `entries` were reconciled against
/// `targets`, and the first `n` missing watches have been created by `fresh`
/// and attached.
pub open spec fn settling<H>(
    entries: Seq<(Seq<char>, H)>,
    targets: Seq<Seq<char>>,
    config_path: Seq<char>,
    fresh: spec_fn(Seq<char>) -> H,
    n: int,
) -> Seq<(Seq<char>, H)> {
    retained(entries, targets) + created(missing(entries, targets, config_path), fresh, n)
}

/// The watch set after a whole pass against `targets`, in which `fresh` gave
/// the handle of each watch that had to be created.
pub open spec fn settled<H>(
    entries: Seq<(Seq<char>, H)>,
    targets: Seq<Seq<char>>,
    config_path: Seq<char>,
    fresh: spec_fn(Seq<char>) -> H,
) -> Seq<(Seq<char>, H)> {
    settling(
        entries,
        targets,
        config_path,
        fresh,
        missing(entries, targets, config_path).len() as int,
    )
}

/// Every step of a pass is admitted: when the first `n` missing watches are
/// attached, the watch set is coherent, and the next missing path is a target
/// without a watch, so that `attach` takes its watch in and the set moves on
/// to the next step.
pub proof fn law_pass_proceeds<H>(
    entries: Seq<(Seq<char>, H)>,
    earlier: Seq<Seq<char>>,
    targets: Seq<Seq<char>>,
    config_path: Seq<char>,
    fresh: spec_fn(Seq<char>) -> H,
    n: int,
)
    requires
        Notifier::<H>::coherent(entries, earlier, config_path),
        targets.no_duplicates(),
        0 <= n <= missing(entries, targets, config_path).len(),
    ensures
        Notifier::<H>::coherent(
            settling(entries, targets, config_path, fresh, n),
            targets,
            config_path,
        ),
        forall|x: Seq<char>|
            #[trigger] keys(settling(entries, targets, config_path, fresh, n)).contains(x) <==> keys(
                retained(entries, targets),
            ).contains(x) || missing(entries, targets, config_path).take(n).contains(x),
        n < missing(entries, targets, config_path).len() ==> {
            let next = missing(entries, targets, config_path)[n];
            &&& targets.contains(next)
            &&& unwatched(settling(entries, targets, config_path, fresh, n), config_path)(next)
            &&& settling(entries, targets, config_path, fresh, n + 1) == settling(
                entries,
                targets,
                config_path,
                fresh,
                n,
            ).push((next, fresh(next)))
        },
    decreases n,
{
    let lacking = missing(entries, targets, config_path);
    let now = settling(entries, targets, config_path, fresh, n);
    lemma_filter_members(targets, unwatched(entries, config_path));
    if n == 0 {
        lemma_retained_coherent(entries, earlier, targets, config_path);
        assert(created(lacking, fresh, 0) =~= Seq::<(Seq<char>, H)>::empty());
        assert(now =~= retained(entries, targets));
        assert(lacking.take(0) =~= Seq::<Seq<char>>::empty());
        assert forall|x: Seq<char>| #[trigger]
            keys(now).contains(x) <==> keys(retained(entries, targets)).contains(x)
                || lacking.take(0).contains(x) by {}
    } else {
        law_pass_proceeds(entries, earlier, targets, config_path, fresh, n - 1);
        let prev = settling(entries, targets, config_path, fresh, n - 1);
        let path = lacking[n - 1];
        assert(now == prev.push((path, fresh(path))));
        lemma_pushed_coherent(prev, targets, config_path, (path, fresh(path)));
        assert(keys(now) =~= keys(prev).push(path));
        let done = lacking.take(n - 1);
        let upto = lacking.take(n);
        assert(upto =~= done.push(path));
        assert forall|x: Seq<char>| #[trigger]
            keys(now).contains(x) <==> keys(retained(entries, targets)).contains(x)
                || upto.contains(x) by {
            if keys(now).contains(x) {
                let i = choose|i: int| 0 <= i < keys(now).len() && keys(now)[i] == x;
                if i < keys(prev).len() {
                    assert(keys(prev)[i] == x);
                    assert(keys(prev).contains(x));
                    if done.contains(x) {
                        let j = choose|j: int| 0 <= j < done.len() && done[j] == x;
                        assert(upto[j] == x);
                    }
                } else {
                    assert(upto[n - 1] == x);
                }
            }
            if keys(retained(entries, targets)).contains(x) {
                assert(keys(prev).contains(x));
                let i = choose|i: int| 0 <= i < keys(prev).len() && keys(prev)[i] == x;
                assert(keys(now)[i] == x);
            }
            if upto.contains(x) {
                let j = choose|j: int| 0 <= j < upto.len() && upto[j] == x;
                if j < n - 1 {
                    assert(done[j] == x);
                    assert(done.contains(x));
                    assert(keys(prev).contains(x));
                    let i = choose|i: int| 0 <= i < keys(prev).len() && keys(prev)[i] == x;
                    assert(keys(now)[i] == x);
                } else {
                    assert(keys(now)[keys(prev).len() as int] == x);
                }
            }
        }
    }
    if n < lacking.len() {
        let next = lacking[n];
        assert(lacking.contains(next));
        lemma_retained_keys(entries, targets, next);
        let upto = lacking.take(n);
        if upto.contains(next) {
            let j = choose|j: int| 0 <= j < upto.len() && upto[j] == next;
            assert(lacking[j] == lacking[n]);
        }
        assert(!keys(now).contains(next));
        assert(lacking.take(n + 1) =~= lacking.take(n).push(next));
        assert(created(lacking, fresh, n + 1) =~= created(lacking, fresh, n).push(
            (next, fresh(next)),
        ));
        assert(settling(entries, targets, config_path, fresh, n + 1) =~= now.push(
            (next, fresh(next)),
        ));
    }
}

/// After a pass the watch set is coherent, and the watched content paths are
/// exactly the targets other than the configuration file's path; with the
/// reload trigger, the watched paths are the targets and the configuration
/// file's path.
pub proof fn law_pass_keys<H>(
    entries: Seq<(Seq<char>, H)>,
    earlier: Seq<Seq<char>>,
    targets: Seq<Seq<char>>,
    config_path: Seq<char>,
    fresh: spec_fn(Seq<char>) -> H,
)
    requires
        Notifier::<H>::coherent(entries, earlier, config_path),
        targets.no_duplicates(),
    ensures
        Notifier::<H>::coherent(
            settled(entries, targets, config_path, fresh),
            targets,
            config_path,
        ),
        keys(settled(entries, targets, config_path, fresh)).to_set() == targets.to_set().remove(
            config_path,
        ),
        keys(settled(entries, targets, config_path, fresh)).to_set().insert(config_path)
            == targets.to_set().insert(config_path),
{
    let lacking = missing(entries, targets, config_path);
    let after = settled(entries, targets, config_path, fresh);
    law_pass_proceeds(entries, earlier, targets, config_path, fresh, lacking.len() as int);
    lemma_filter_members(targets, unwatched(entries, config_path));
    assert(lacking.take(lacking.len() as int) =~= lacking);
    assert forall|x: Seq<char>| keys(after).to_set().contains(x) <==> targets.to_set().remove(
        config_path,
    ).contains(x) by {
        lemma_retained_keys(entries, targets, x);
        if keys(entries).contains(x) {
            let i = choose|i: int| 0 <= i < keys(entries).len() && keys(entries)[i] == x;
            assert(x != config_path);
        }
    }
    assert(keys(after).to_set() =~= targets.to_set().remove(config_path));
    assert(keys(after).to_set().insert(config_path) =~= targets.to_set().insert(config_path));
}

/// Reconciling twice in a row against the same targets: the second pass
/// releases no watch, finds no watch missing, and leaves the set as the first
/// pass left it.
pub proof fn law_reconcile_idempotent<H>(
    entries: Seq<(Seq<char>, H)>,
    earlier: Seq<Seq<char>>,
    targets: Seq<Seq<char>>,
    config_path: Seq<char>,
    fresh: spec_fn(Seq<char>) -> H,
    again: spec_fn(Seq<char>) -> H,
)
    requires
        Notifier::<H>::coherent(entries, earlier, config_path),
        targets.no_duplicates(),
    ensures
        ({
            let once = settled(entries, targets, config_path, fresh);
            &&& stale(once, targets) == Seq::<(Seq<char>, H)>::empty()
            &&& missing(once, targets, config_path) == Seq::<Seq<char>>::empty()
            &&& retained(once, targets) == once
            &&& settled(once, targets, config_path, again) == once
        }),
{
    let once = settled(entries, targets, config_path, fresh);
    law_pass_keys(entries, earlier, targets, config_path, fresh);
    lemma_filter_all_or_none(once, on_target::<H>(targets));
    lemma_filter_all_or_none(once, off_target::<H>(targets));
    assert forall|i: int| 0 <= i < once.len() implies on_target::<H>(targets)(#[trigger] once[i])
        && !off_target::<H>(targets)(once[i]) by {
        assert(keys(once)[i] == once[i].0);
    }
    lemma_filter_all_or_none(targets, unwatched(once, config_path));
    assert forall|i: int| 0 <= i < targets.len() implies !unwatched(once, config_path)(
        #[trigger] targets[i],
    ) by {
        if targets[i] != config_path {
            assert(targets.contains(targets[i]));
            assert(targets.to_set().remove(config_path).contains(targets[i]));
            assert(keys(once).to_set().contains(targets[i]));
        }
    }
    assert(created(missing(once, targets, config_path), again, 0) =~= Seq::<
        (Seq<char>, H),
    >::empty());
    assert(settled(once, targets, config_path, again) =~= once);
}

/// Reconciling against `first` and then against `second`: afterwards the
/// watched paths are those of `second` and the configuration file's path. A
/// watch that the first pass left on a path of `second` is neither released
/// nor made anew in the second pass: it is still there with the handle it
/// had, the only watch on its path.
pub proof fn law_reconcile_twice<H>(
    entries: Seq<(Seq<char>, H)>,
    earlier: Seq<Seq<char>>,
    first: Seq<Seq<char>>,
    second: Seq<Seq<char>>,
    config_path: Seq<char>,
    fresh: spec_fn(Seq<char>) -> H,
    again: spec_fn(Seq<char>) -> H,
)
    requires
        Notifier::<H>::coherent(entries, earlier, config_path),
        first.no_duplicates(),
        second.no_duplicates(),
    ensures
        ({
            let once = settled(entries, first, config_path, fresh);
            let twice = settled(once, second, config_path, again);
            &&& keys(twice).to_set().insert(config_path) == second.to_set().insert(config_path)
            &&& keys(twice).no_duplicates()
            &&& forall|e: (Seq<char>, H)|
                once.contains(e) && second.contains(e.0) ==> !(#[trigger] stale(
                    once,
                    second,
                ).contains(e))
            &&& forall|e: (Seq<char>, H)|
                once.contains(e) ==> !(#[trigger] missing(once, second, config_path).contains(e.0))
            &&& forall|e: (Seq<char>, H)|
                once.contains(e) && second.contains(e.0) ==> #[trigger] twice.contains(e)
            &&& forall|e: (Seq<char>, H)|
                twice.contains(e) && first.contains(e.0) && e.0 != config_path
                    ==> #[trigger] once.contains(e)
        }),
{
    let once = settled(entries, first, config_path, fresh);
    let twice = settled(once, second, config_path, again);
    law_pass_keys(entries, earlier, first, config_path, fresh);
    law_pass_keys(once, first, second, config_path, again);
    lemma_filter_members(once, on_target::<H>(second));
    lemma_filter_members(once, off_target::<H>(second));
    lemma_filter_members(second, unwatched(once, config_path));
    assert forall|e: (Seq<char>, H)| once.contains(e) implies !(#[trigger] missing(
        once,
        second,
        config_path,
    ).contains(e.0)) by {
        let i = choose|i: int| 0 <= i < once.len() && once[i] == e;
        assert(keys(once)[i] == e.0);
    }
    let kept = retained(once, second);
    let made = created(
        missing(once, second, config_path),
        again,
        missing(once, second, config_path).len() as int,
    );
    assert forall|e: (Seq<char>, H)| once.contains(e) && second.contains(e.0) implies #[trigger] twice.contains(
        e,
    ) by {
        assert(kept.contains(e));
        let i = choose|i: int| 0 <= i < kept.len() && kept[i] == e;
        assert(twice[i] == e);
    }
    assert forall|e: (Seq<char>, H)|
        twice.contains(e) && first.contains(e.0) && e.0 != config_path implies #[trigger] once.contains(
        e,
    ) by {
        let i = choose|i: int| 0 <= i < twice.len() && twice[i] == e;
        if i < kept.len() {
            assert(kept[i] == e);
            assert(kept.contains(e));
        } else {
            // a watch made in the second pass sits on a path that had none
            let j = i - kept.len();
            let lacking = missing(once, second, config_path);
            assert(made[j] == e);
            assert(lacking[j] == e.0);
            assert(lacking.contains(e.0));
            assert(!keys(once).contains(e.0));
            assert(first.to_set().remove(config_path).contains(e.0));
            assert(keys(once).to_set().contains(e.0));
        }
    }
}

} // verus!
