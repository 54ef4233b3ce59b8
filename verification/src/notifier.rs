//! The watch set: which paths are watched, by which handles, and how the set
//! follows a freshly resolved target list.

use crate::config::{
    ascending, is_first_failure, lemma_ascending_no_duplicates, matched, Config, Expansion, PathIter,
};
use crate::filters::lemma_filter_agree;
use crate::error::SSClipError;
use vstd::prelude::*;

verus! {

/// The role a watch plays, fixed when the watch is created.
#[derive(Clone, Copy, Debug, PartialEq, Eq, Structural)]
pub enum NotifyKind {
    /// A configured content path: its events are destined for the copy sink.
    Copy,
    /// The configuration file itself: its events ask for a reload.
    Reload,
}

/// A live watch: the path it is bound to and the handle that keeps it open.
/// Dropping the handle releases the watch.
#[derive(Debug)]
pub struct Watch<H> {
    pub path: String,
    pub handle: H,
}

impl<H> View for Watch<H> {
    type V = (Seq<char>, H);

    open spec fn view(&self) -> (Seq<char>, H) {
        (self.path@, self.handle)
    }
}

/// The watches of a list, each as its path and its handle.
pub open spec fn watch_views<H>(list: Seq<Watch<H>>) -> Seq<(Seq<char>, H)> {
    list.map_values(|w: Watch<H>| w@)
}

/// The paths of the given watches, in their order.
pub open spec fn keys<H>(entries: Seq<(Seq<char>, H)>) -> Seq<Seq<char>> {
    entries.map_values(|e: (Seq<char>, H)| e.0)
}

/// Holds of a watch whose path is among `targets`.
pub open spec fn on_target<H>(targets: Seq<Seq<char>>) -> spec_fn((Seq<char>, H)) -> bool {
    |e: (Seq<char>, H)| targets.contains(e.0)
}

/// Holds of a watch whose path is not among `targets`.
pub open spec fn off_target<H>(targets: Seq<Seq<char>>) -> spec_fn((Seq<char>, H)) -> bool {
    |e: (Seq<char>, H)| !targets.contains(e.0)
}

/// Holds of a path that needs a content watch and has none among `entries`.
/// The configuration file's own path never needs one: its watch is the reload
/// trigger's.
pub open spec fn unwatched<H>(entries: Seq<(Seq<char>, H)>, config_path: Seq<char>) -> spec_fn(
    Seq<char>,
) -> bool {
    |p: Seq<char>| p != config_path && !keys(entries).contains(p)
}

/// The watches whose path is still among the targets, in their order.
pub open spec fn retained<H>(entries: Seq<(Seq<char>, H)>, targets: Seq<Seq<char>>) -> Seq<
    (Seq<char>, H),
> {
    entries.filter(on_target(targets))
}

/// The watches whose path is no longer among the targets, in their order.
pub open spec fn stale<H>(entries: Seq<(Seq<char>, H)>, targets: Seq<Seq<char>>) -> Seq<
    (Seq<char>, H),
> {
    entries.filter(off_target(targets))
}

/// The targets that have no watch yet, in the targets' order.
pub open spec fn missing<H>(
    entries: Seq<(Seq<char>, H)>,
    targets: Seq<Seq<char>>,
    config_path: Seq<char>,
) -> Seq<Seq<char>> {
    targets.filter(unwatched(entries, config_path))
}

/// Whether `path` occurs in `list`.
fn holds(list: &Vec<String>, path: &String) -> (b: bool)
    ensures
        b == list.deep_view().contains(path@),
{
    let n: usize = list.len();
    let mut i: usize = 0;
    while i < n
        invariant
            i <= n,
            n == list@.len(),
            forall|j: int| 0 <= j < i ==> list.deep_view()[j] != path@,
        decreases n - i,
    {
        if list[i] == *path {
            assert(list.deep_view()[i as int] == path@);
            return true;
        }
        i = i + 1;
    }
    false
}

/// Whether one of `watches` is bound to `path`.
fn watched<H>(watches: &Vec<Watch<H>>, path: &String) -> (b: bool)
    ensures
        b == keys(watch_views(watches@)).contains(path@),
{
    let n: usize = watches.len();
    let mut i: usize = 0;
    while i < n
        invariant
            i <= n,
            n == watches@.len(),
            forall|j: int| 0 <= j < i ==> keys(watch_views(watches@))[j] != path@,
        decreases n - i,
    {
        if watches[i].path == *path {
            assert(keys(watch_views(watches@))[i as int] == path@);
            return true;
        }
        i = i + 1;
    }
    false
}

/// The paths of `targets` that are not the configuration file's and that none
/// of `watches` is bound to.
fn lacking<H>(targets: &Vec<String>, watches: &Vec<Watch<H>>, config_path: &String) -> (r: Vec<
    String,
>)
    ensures
        r.deep_view() == missing(watch_views(watches@), targets.deep_view(), config_path@),
{
    let ghost entries = watch_views(watches@);
    let ghost wanted = targets.deep_view();
    let mut found: Vec<String> = Vec::new();
    let n: usize = targets.len();
    let mut i: usize = 0;
    proof {
        reveal(Seq::filter);
    }
    while i < n
        invariant
            i <= n,
            n == wanted.len(),
            wanted == targets.deep_view(),
            entries == watch_views(watches@),
            found.deep_view() == missing(entries, wanted.take(i as int), config_path@),
        decreases n - i,
    {
        let path = &targets[i];
        proof {
            wanted.lemma_take_succ_push(i as int);
            wanted.take(i as int).lemma_filter_push(
                wanted[i as int],
                unwatched(entries, config_path@),
            );
        }
        if !(*path == *config_path) && !watched(watches, path) {
            found.push(path.clone());
        }
        i = i + 1;
    }
    proof {
        assert(wanted.take(n as int) =~= wanted);
    }
    found
}

/// What becomes of a watch that could not be created.
#[derive(Clone, Debug, PartialEq, Eq)]
pub enum WatchFailure {
    /// A content watch: the target is skipped and the reason is logged. The
    /// other targets are not affected.
    Skipped(String),
    /// The reload trigger: without it no later change of the configuration
    /// would be noticed, so the pipeline ends.
    Fatal(SSClipError),
}

/// Rules on the failure to create a watch of role `role`, `reason` being the
/// watch facility's account of it.
pub fn watch_failed(role: NotifyKind, reason: String) -> (r: WatchFailure)
    ensures
        r == match role {
            NotifyKind::Copy => WatchFailure::Skipped(reason),
            NotifyKind::Reload => WatchFailure::Fatal(SSClipError::Notify(reason)),
        },
{
    match role {
        NotifyKind::Copy => WatchFailure::Skipped(reason),
        NotifyKind::Reload => WatchFailure::Fatal(SSClipError::Notify(reason)),
    }
}

/// Decides what the reload loop does with what its inbound channel gave.
///
/// A signal starts the next reload cycle. A receive that failed, `reason`
/// being the channel's account of it, ends the loop with `CrossBeamRecvError`.
pub fn signalled(inbound: Result<(), String>) -> (r: Result<(), SSClipError>)
    ensures
        r == match inbound {
            Ok(_) => Ok::<(), SSClipError>(()),
            Err(reason) => Err::<(), SSClipError>(SSClipError::CrossBeamRecvError(reason)),
        },
{
    match inbound {
        Ok(_) => Ok(()),
        Err(reason) => Err(SSClipError::CrossBeamRecvError(reason)),
    }
}

/// What a reconciliation asks of the caller.
#[derive(Debug)]
pub struct Reconciliation<H> {
    /// The watches that left the set. They are to be dropped.
    pub released: Vec<Watch<H>>,
    /// The targets that need a new watch, in ascending order.
    pub missing: Vec<String>,
}

/// The watch set manager. It owns one watch per watched content path and the
/// single watch on the configuration file.
#[derive(Debug)]
pub struct Notifier<H> {
    config_path: String,
    config_watch: H,
    targets: PathIter,
    watcher_map: Vec<Watch<H>>,
}

impl<H> Notifier<H> {
    /// The path of the configuration file, whose watch is the reload trigger.
    pub closed spec fn config_path(&self) -> Seq<char> {
        self.config_path@
    }

    /// The handle of the watch on the configuration file.
    pub closed spec fn config_watch(&self) -> H {
        self.config_watch
    }

    /// The target list of the most recent reconciliation.
    pub closed spec fn targets(&self) -> Seq<Seq<char>> {
        self.targets@
    }

    /// The content watches, each as its path and its handle.
    pub closed spec fn entries(&self) -> Seq<(Seq<char>, H)> {
        watch_views(self.watcher_map@)
    }

    /// The invariant of the watch set, stated over its parts.
    pub open spec fn coherent(
        entries: Seq<(Seq<char>, H)>,
        targets: Seq<Seq<char>>,
        config_path: Seq<char>,
    ) -> bool {
        &&& targets.no_duplicates()
        &&& keys(entries).no_duplicates()
        &&& forall|i: int|
            0 <= i < entries.len() ==> targets.contains(#[trigger] keys(entries)[i]) && keys(
                entries,
            )[i] != config_path
    }

    /// No path is watched twice, every watched path is a target of the most
    /// recent reconciliation, and no content watch sits on the configuration
    /// file's path. Every watch set is made so and stays so.
    pub open spec fn wf(&self) -> bool {
        Self::coherent(self.entries(), self.targets(), self.config_path())
    }

    #[verifier::type_invariant]
    pub(crate) open spec fn inv(self) -> bool {
        self.wf()
    }

    /// A watch set that holds the reload trigger and nothing else.
    pub fn new(config_path: String, config_watch: H) -> (r: Self)
        ensures
            r.wf(),
            r.config_path() == config_path@,
            r.config_watch() == config_watch,
            r.targets() == Seq::<Seq<char>>::empty(),
            r.entries() == Seq::<(Seq<char>, H)>::empty(),
    {
        let targets = PathIter::from_strs(Vec::new());
        proof {
            if targets@.len() > 0 {
                assert(targets@.to_set().contains(targets@[0]));
            }
        }
        Notifier { config_path, config_watch, targets, watcher_map: Vec::new() }
    }

    /// Brings the watch set into agreement with `targets`.
    ///
    /// Watches on paths that are no longer targets leave the set and are handed
    /// back for release. Watches on paths that still are targets stay as they
    /// are, handle and all. The targets without a watch are listed as missing:
    /// the caller creates a watch for each and hands it in through `attach`.
    /// The watch on the configuration file is not touched.
    pub fn reconcile(&mut self, targets: PathIter) -> (r: Reconciliation<H>)
        ensures
            final(self).wf(),
            final(self).config_path() == old(self).config_path(),
            final(self).config_watch() == old(self).config_watch(),
            final(self).targets() == targets@,
            final(self).entries() == retained(old(self).entries(), targets@),
            watch_views(r.released@) == stale(old(self).entries(), targets@),
            r.missing.deep_view() == missing(
                old(self).entries(),
                targets@,
                old(self).config_path(),
            ),
    {
        proof {
            use_type_invariant(&*self);
        }
        let ghost before = self.entries();
        let ghost wanted = targets@;
        let ghost reload = self.config_path();
        let wanted_paths = targets.as_vec();
        let mut current: Vec<Watch<H>> = Vec::new();
        std::mem::swap(&mut self.watcher_map, &mut current);
        let mut kept: Vec<Watch<H>> = Vec::new();
        let mut released: Vec<Watch<H>> = Vec::new();
        proof {
            reveal(Seq::filter);
        }
        for watch in it: current
            invariant
                before == watch_views(it.seq()),
                wanted == wanted_paths.deep_view(),
                watch_views(kept@) == retained(before.take(it.index() as int), wanted),
                watch_views(released@) == stale(before.take(it.index() as int), wanted),
        {
            let ghost k = it.index() as int;
            proof {
                before.lemma_take_succ_push(k);
                before.take(k).lemma_filter_push(before[k], on_target(wanted));
                before.take(k).lemma_filter_push(before[k], off_target(wanted));
            }
            if holds(wanted_paths, &watch.path) {
                proof {
                    kept@.lemma_push_map_commute(|w: Watch<H>| w@, watch);
                }
                kept.push(watch);
            } else {
                proof {
                    released@.lemma_push_map_commute(|w: Watch<H>| w@, watch);
                }
                released.push(watch);
            }
        }
        proof {
            assert(before.take(before.len() as int) =~= before);
        }
        let missing_paths = lacking(wanted_paths, &kept, &self.config_path);
        proof {
            lemma_missing_after_pruning(before, wanted, wanted, reload);
            lemma_ascending_no_duplicates(wanted);
            lemma_retained_coherent(before, old(self).targets(), wanted, reload);
        }
        self.targets = targets;
        self.watcher_map = kept;
        Reconciliation { released, missing: missing_paths }
    }

    /// Runs one reload cycle: takes the freshly loaded configuration and what
    /// expanding its patterns gave, resolves them to the new target list and
    /// reconciles the watch set against it.
    ///
    /// A configuration that failed to load ends the cycle with `ConfigError`,
    /// and a malformed pattern ends it with `PatternError`; the watch set is
    /// then left as it was, and the error is fatal to the pipeline. Otherwise
    /// the new target list is that of `Config::path_iter`, and the result is
    /// that of `reconcile` against it. The cycle is one step: the set is
    /// watching before it and watching after it.
    pub fn run(&mut self, loaded: Result<Config, String>, expansions: Vec<Expansion>) -> (r: Result<
        Reconciliation<H>,
        SSClipError,
    >)
        ensures
            final(self).wf(),
            final(self).config_path() == old(self).config_path(),
            final(self).config_watch() == old(self).config_watch(),
            loaded matches Err(reason) ==> r == Err::<Reconciliation<H>, SSClipError>(
                SSClipError::ConfigError(reason),
            ),
            loaded matches Ok(config) ==> forall|i: int|
                is_first_failure(expansions@, config.paths@.len() as int, i) ==> r == Err::<
                    Reconciliation<H>,
                    SSClipError,
                >(
                    SSClipError::PatternError {
                        index: i as usize,
                        pattern: config.paths@[i],
                        pos: expansions@[i]->Err_0.pos,
                        msg: expansions@[i]->Err_0.msg,
                    },
                ),
            loaded matches Ok(config) ==> ((forall|i: int|
                !is_first_failure(expansions@, config.paths@.len() as int, i)) ==> (r matches Ok(
                plan,
            ) && final(self).targets().to_set() == matched(
                expansions@,
                config.paths@.len() as int,
            ))),
            r is Err ==> final(self).targets() == old(self).targets() && final(self).entries()
                == old(self).entries(),
            r matches Ok(plan) ==> {
                &&& ascending(final(self).targets())
                &&& final(self).entries() == retained(old(self).entries(), final(self).targets())
                &&& watch_views(plan.released@) == stale(
                    old(self).entries(),
                    final(self).targets(),
                )
                &&& plan.missing.deep_view() == missing(
                    old(self).entries(),
                    final(self).targets(),
                    old(self).config_path(),
                )
            },
    {
        proof {
            use_type_invariant(&*self);
        }
        match loaded {
            Err(reason) => Err(SSClipError::ConfigError(reason)),
            Ok(config) => match config.path_iter(expansions) {
                Err(e) => Err(e),
                Ok(targets) => Ok(self.reconcile(targets)),
            },
        }
    }

    /// Takes in the watch that the caller created for `path`.
    ///
    /// The watch enters the set if `path` is a target that has no watch yet
    /// and is not the configuration file's path. Otherwise the set stays as it
    /// is and the watch comes back, to be dropped.
    pub fn attach(&mut self, path: String, handle: H) -> (r: Result<(), Watch<H>>)
        ensures
            final(self).wf(),
            final(self).config_path() == old(self).config_path(),
            final(self).config_watch() == old(self).config_watch(),
            final(self).targets() == old(self).targets(),
            old(self).admits(path@) ==> r is Ok && final(self).entries() == old(
                self,
            ).entries().push((path@, handle)),
            !old(self).admits(path@) ==> r == Err::<(), Watch<H>>(Watch { path, handle })
                && final(self).entries() == old(self).entries(),
    {
        proof {
            use_type_invariant(&*self);
        }
        if holds(self.targets.as_vec(), &path) && !(path == self.config_path) && !watched(
            &self.watcher_map,
            &path,
        ) {
            let ghost before = self.entries();
            let watch = Watch { path, handle };
            let mut watches: Vec<Watch<H>> = Vec::new();
            std::mem::swap(&mut self.watcher_map, &mut watches);
            proof {
                watches@.lemma_push_map_commute(|w: Watch<H>| w@, watch);
                lemma_pushed_coherent(before, self.targets(), self.config_path(), watch@);
            }
            watches.push(watch);
            self.watcher_map = watches;
            Ok(())
        } else {
            Err(Watch { path, handle })
        }
    }

    /// Whether a watch for `path` would be taken in: `path` is a target, is
    /// not the configuration file's path, and has no watch yet.
    pub open spec fn admits(&self, path: Seq<char>) -> bool {
        self.targets().contains(path) && unwatched(self.entries(), self.config_path())(path)
    }

    /// Empties the set of content watches and hands them all back for
    /// release. The targets stay, so every one of them is missing afterwards.
    pub fn reset(&mut self) -> (released: Vec<Watch<H>>)
        ensures
            final(self).wf(),
            final(self).config_path() == old(self).config_path(),
            final(self).config_watch() == old(self).config_watch(),
            final(self).targets() == old(self).targets(),
            final(self).entries() == Seq::<(Seq<char>, H)>::empty(),
            watch_views(released@) == old(self).entries(),
    {
        proof {
            use_type_invariant(&*self);
        }
        let mut released: Vec<Watch<H>> = Vec::new();
        std::mem::swap(&mut self.watcher_map, &mut released);
        released
    }

    /// The targets that have no watch, in ascending order: what is left to
    /// create after a reconciliation, a reset or a failed creation.
    pub fn missing_targets(&self) -> (r: Vec<String>)
        ensures
            r.deep_view() == missing(self.entries(), self.targets(), self.config_path()),
    {
        lacking(self.targets.as_vec(), &self.watcher_map, &self.config_path)
    }

    /// The role that the watch on `path` plays: the configuration file's path
    /// is the reload trigger, a path with a content watch is a copy source,
    /// and any other path is not watched.
    pub fn role_of(&self, path: &String) -> (r: Option<NotifyKind>)
        ensures
            r == if path@ == self.config_path() {
                Some(NotifyKind::Reload)
            } else if keys(self.entries()).contains(path@) {
                Some(NotifyKind::Copy)
            } else {
                None
            },
    {
        if *path == self.config_path {
            Some(NotifyKind::Reload)
        } else if watched(&self.watcher_map, path) {
            Some(NotifyKind::Copy)
        } else {
            None
        }
    }

    /// The handle of the content watch on `path`, if there is one.
    pub fn handle_of(&self, path: &String) -> (r: Option<&H>)
        ensures
            r is Some <==> keys(self.entries()).contains(path@),
            r matches Some(handle) ==> self.entries().contains((path@, *handle)),
    {
        let n: usize = self.watcher_map.len();
        let mut i: usize = 0;
        while i < n
            invariant
                i <= n,
                n == self.watcher_map@.len(),
                forall|j: int| 0 <= j < i ==> keys(self.entries())[j] != path@,
            decreases n - i,
        {
            if self.watcher_map[i].path == *path {
                assert(keys(self.entries())[i as int] == path@);
                return Some(&self.watcher_map[i].handle);
            }
            i = i + 1;
        }
        None
    }

    /// The number of content watches.
    pub fn len(&self) -> (n: usize)
        ensures
            n == self.entries().len(),
    {
        self.watcher_map.len()
    }
}

/// Pruning against `targets` does not change which of `paths` lack a watch,
/// as long as every one of `paths` is a target.
pub proof fn lemma_missing_after_pruning<H>(
    entries: Seq<(Seq<char>, H)>,
    targets: Seq<Seq<char>>,
    paths: Seq<Seq<char>>,
    config_path: Seq<char>,
)
    requires
        forall|i: int| 0 <= i < paths.len() ==> targets.contains(#[trigger] paths[i]),
    ensures
        missing(retained(entries, targets), paths, config_path) == missing(
            entries,
            paths,
            config_path,
        ),
{
    let p = unwatched(retained(entries, targets), config_path);
    let q = unwatched(entries, config_path);
    assert forall|i: int| 0 <= i < paths.len() implies p(#[trigger] paths[i]) == q(paths[i]) by {
        lemma_retained_keys(entries, targets, paths[i]);
    }
    lemma_filter_agree(paths, p, q);
}

/// A coherent watch set stays coherent when it takes in a watch on a target
/// that had none.
pub proof fn lemma_pushed_coherent<H>(
    entries: Seq<(Seq<char>, H)>,
    targets: Seq<Seq<char>>,
    config_path: Seq<char>,
    watch: (Seq<char>, H),
)
    requires
        Notifier::<H>::coherent(entries, targets, config_path),
        targets.contains(watch.0),
        unwatched(entries, config_path)(watch.0),
    ensures
        Notifier::<H>::coherent(entries.push(watch), targets, config_path),
{
    let all = entries.push(watch);
    assert(keys(all) =~= keys(entries).push(watch.0));
    assert forall|i: int, j: int|
        0 <= i < keys(all).len() && 0 <= j < keys(all).len() && i != j implies keys(all)[i]
        != keys(all)[j] by {
        if i < keys(entries).len() && j < keys(entries).len() {
        } else if i < keys(entries).len() {
            assert(keys(entries).contains(keys(entries)[i]));
        } else {
            assert(keys(entries).contains(keys(entries)[j]));
        }
    }
    assert forall|i: int| 0 <= i < all.len() implies targets.contains(#[trigger] keys(all)[i])
        && keys(all)[i] != config_path by {
        if i < entries.len() {
            assert(keys(all)[i] == keys(entries)[i]);
        }
    }
}

/// A path that is a target has a watch after pruning exactly if it had one
/// before.
pub proof fn lemma_retained_keys<H>(
    entries: Seq<(Seq<char>, H)>,
    targets: Seq<Seq<char>>,
    path: Seq<char>,
)
    ensures
        keys(retained(entries, targets)).contains(path) <==> keys(entries).contains(path)
            && targets.contains(path),
{
    broadcast use Seq::lemma_filter_pred, Seq::lemma_filter_contains;

    let pred = on_target::<H>(targets);
    let kept = retained(entries, targets);
    if keys(kept).contains(path) {
        let i = choose|i: int| 0 <= i < keys(kept).len() && keys(kept)[i] == path;
        assert(pred(kept[i]));
        entries.lemma_filter_contains_rev(pred, kept[i]);
        let j = choose|j: int| 0 <= j < entries.len() && entries[j] == kept[i];
        assert(keys(entries)[j] == path);
    }
    if keys(entries).contains(path) && targets.contains(path) {
        let j = choose|j: int| 0 <= j < keys(entries).len() && keys(entries)[j] == path;
        assert(pred(entries[j]));
        assert(kept.contains(entries[j]));
        let i = choose|i: int| 0 <= i < kept.len() && kept[i] == entries[j];
        assert(keys(kept)[i] == path);
    }
}

/// Pruning a coherent watch set against a new target list leaves a coherent
/// watch set.
pub proof fn lemma_retained_coherent<H>(
    entries: Seq<(Seq<char>, H)>,
    earlier: Seq<Seq<char>>,
    targets: Seq<Seq<char>>,
    config_path: Seq<char>,
)
    requires
        Notifier::<H>::coherent(entries, earlier, config_path),
        targets.no_duplicates(),
    ensures
        Notifier::<H>::coherent(retained(entries, targets), targets, config_path),
    decreases entries.len(),
{
    reveal(Seq::filter);
    if entries.len() > 0 {
        let rest = entries.drop_last();
        let last = entries.last();
        assert(keys(rest) =~= keys(entries).drop_last());
        assert forall|i: int| 0 <= i < rest.len() implies earlier.contains(
            #[trigger] keys(rest)[i],
        ) && keys(rest)[i] != config_path by {
            assert(keys(rest)[i] == keys(entries)[i]);
        }
        lemma_retained_coherent(rest, earlier, targets, config_path);
        assert(entries =~= rest.push(last));
        rest.lemma_filter_push(last, on_target(targets));
        if targets.contains(last.0) {
            lemma_retained_keys(rest, targets, last.0);
            assert(keys(entries)[entries.len() - 1] == last.0);
            if keys(rest).contains(last.0) {
                let j = choose|j: int| 0 <= j < keys(rest).len() && keys(rest)[j] == last.0;
                assert(keys(entries)[j] == last.0);
            }
            lemma_pushed_coherent(retained(rest, targets), targets, config_path, last);
        }
    } else {
        assert(retained(entries, targets) =~= entries);
    }
}

} // verus!
