//! The single-channel form of the pipeline: raw events of the content watches
//! and the reload signal arrive on one channel and are classified where they
//! are consumed, and a reload replaces every watch.

use crate::config::{ascending, is_first_failure, matched, Config, Expansion};
use crate::error::SSClipError;
use crate::notifier::{missing, watch_views, Notifier, NotifyKind, Reconciliation, Watch};
use crate::router::{route, routed, RawEvent, RoutedEvent};
use vstd::prelude::*;

verus! {

/// What arrives on the channel of a directory watcher.
#[derive(Clone, Debug, PartialEq, Eq)]
pub enum Event {
    /// A content watch delivered this raw event.
    Watch(RawEvent),
    /// The configuration changed.
    Reload,
}

/// The paths that are sent on for `events`, in their order: for each raw
/// event up to the first reload signal what a content watch makes of it.
/// Events behind the reload signal are not looked at.
pub open spec fn forwarded(events: Seq<Event>) -> Seq<String>
    decreases events.len(),
{
    if events.len() == 0 {
        Seq::empty()
    } else {
        match events.first() {
            Event::Reload => Seq::empty(),
            Event::Watch(raw) => match routed(NotifyKind::Copy, raw) {
                Some(RoutedEvent::ContentPath(path)) => seq![path] + forwarded(
                    events.drop_first(),
                ),
                _ => forwarded(events.drop_first()),
            },
        }
    }
}

/// Whether a reload signal is among `events`.
pub open spec fn asks_reload(events: Seq<Event>) -> bool {
    exists|i: int| 0 <= i < events.len() && (#[trigger] events[i]) is Reload
}

/// Every raw event among `events` is a removal.
pub open spec fn only_removals(events: Seq<Event>) -> bool {
    forall|i: int|
        0 <= i < events.len() ==> ((#[trigger] events[i]) matches Event::Watch(raw)
            ==> raw.kind is Remove)
}

/// Removals are never sent on, whatever the state of the files they name.
pub proof fn law_removals_forward_nothing(events: Seq<Event>)
    requires
        only_removals(events),
    ensures
        forwarded(events) == Seq::<String>::empty(),
    decreases events.len(),
{
    if events.len() > 0 {
        let rest = events.drop_first();
        assert forall|i: int| 0 <= i < rest.len() implies ((#[trigger] rest[i]) matches Event::Watch(
            raw,
        ) ==> raw.kind is Remove) by {
            assert(rest[i] == events[i + 1]);
        }
        law_removals_forward_nothing(rest);
        assert(events.first() == events[0]);
    }
}

/// A watch set that is rebuilt as a whole on every reload.
#[derive(Debug)]
pub struct DirectoryWatcher<H> {
    watches: Notifier<H>,
}

impl<H> DirectoryWatcher<H> {
    /// The watch set that the watcher keeps.
    pub closed spec fn watches(&self) -> Notifier<H> {
        self.watches
    }

    /// A watcher that holds the reload trigger and no content watch.
    pub fn new(config_path: String, config_watch: H) -> (r: Self)
        ensures
            r.watches().wf(),
            r.watches().config_path() == config_path@,
            r.watches().config_watch() == config_watch,
            r.watches().targets() == Seq::<Seq<char>>::empty(),
            r.watches().entries() == Seq::<(Seq<char>, H)>::empty(),
    {
        DirectoryWatcher { watches: Notifier::new(config_path, config_watch) }
    }

    /// Takes the freshly loaded configuration and what expanding its patterns
    /// gave, and replaces the watches as a whole: every content watch is
    /// handed back for release, and every target is missing afterwards.
    ///
    /// A configuration that failed to load ends the reset with `ConfigError`
    /// and a malformed pattern ends it with `PatternError`; the watches are
    /// then left as they were. The watch on the configuration file is not
    /// touched.
    pub fn reset(&mut self, loaded: Result<Config, String>, expansions: Vec<Expansion>) -> (r:
        Result<Reconciliation<H>, SSClipError>)
        ensures
            final(self).watches().wf(),
            final(self).watches().config_path() == old(self).watches().config_path(),
            final(self).watches().config_watch() == old(self).watches().config_watch(),
            loaded matches Err(reason) ==> r == Err::<Reconciliation<H>, SSClipError>(
                SSClipError::ConfigError(reason),
            ),
            loaded matches Ok(config) ==> forall|i: int|
                is_first_failure(expansions@, config.paths@.len() as int, i) ==> r == Err::<
                    Reconciliation<H>,
                    SSClipError,
                >(
                    SSClipError::PatternError {
                        index: i as usize,
                        pattern: config.paths@[i],
                        pos: expansions@[i]->Err_0.pos,
                        msg: expansions@[i]->Err_0.msg,
                    },
                ),
            loaded matches Ok(config) ==> ((forall|i: int|
                !is_first_failure(expansions@, config.paths@.len() as int, i)) ==> (r is Ok
                && final(self).watches().targets().to_set() == matched(
                expansions@,
                config.paths@.len() as int,
            ))),
            r is Err ==> final(self).watches().targets() == old(self).watches().targets()
                && final(self).watches().entries() == old(self).watches().entries(),
            r matches Ok(plan) ==> {
                &&& ascending(final(self).watches().targets())
                &&& final(self).watches().entries() == Seq::<(Seq<char>, H)>::empty()
                &&& watch_views(plan.released@) == old(self).watches().entries()
                &&& plan.missing.deep_view() == missing(
                    Seq::<(Seq<char>, H)>::empty(),
                    final(self).watches().targets(),
                    old(self).watches().config_path(),
                )
            },
    {
        proof {
            use_type_invariant(&self.watches);
        }
        match loaded {
            Err(reason) => Err(SSClipError::ConfigError(reason)),
            Ok(config) => match config.path_iter(expansions) {
                Err(e) => Err(e),
                Ok(targets) => {
                    let released = self.watches.reset();
                    let plan = self.watches.reconcile(targets);
                    proof {
                        reveal(Seq::filter);
                    }
                    Ok(Reconciliation { released, missing: plan.missing })
                },
            },
        }
    }

    /// Takes in the watch that the caller created for `path`, as
    /// `Notifier::attach` does.
    pub fn attach(&mut self, path: String, handle: H) -> (r: Result<(), Watch<H>>)
        ensures
            final(self).watches().wf(),
            final(self).watches().config_path() == old(self).watches().config_path(),
            final(self).watches().config_watch() == old(self).watches().config_watch(),
            final(self).watches().targets() == old(self).watches().targets(),
            old(self).watches().admits(path@) ==> r is Ok && final(self).watches().entries()
                == old(self).watches().entries().push((path@, handle)),
            !old(self).watches().admits(path@) ==> r == Err::<(), Watch<H>>(
                Watch { path, handle },
            ) && final(self).watches().entries() == old(self).watches().entries(),
    {
        self.watches.attach(path, handle)
    }

    /// Consumes the events that the channel delivered, in their order, until
    /// a reload signal ends the run. Gives the paths to send on to the copy
    /// sink, and whether a reload signal was met.
    ///
    /// Each raw event is classified as a content watch's: a removal sends
    /// nothing, and any other event sends its first ready path, if it has one.
    pub fn run(&self, events: Vec<Event>) -> (r: (Vec<String>, bool))
        ensures
            r.0@ == forwarded(events@),
            r.1 == asks_reload(events@),
            only_removals(events@) ==> r.0@.len() == 0,
    {
        let mut sent: Vec<String> = Vec::new();
        let mut reload: bool = false;
        let n: usize = events.len();
        let mut i: usize = 0;
        proof {
            assert(events@.skip(0) =~= events@);
            assert(sent@ + forwarded(events@) =~= forwarded(events@));
        }
        while i < n && !reload
            invariant
                i <= n,
                n == events@.len(),
                forwarded(events@) == sent@ + if reload {
                    Seq::<String>::empty()
                } else {
                    forwarded(events@.skip(i as int))
                },
                !reload ==> forall|j: int| 0 <= j < i ==> !((#[trigger] events@[j]) is Reload),
                reload ==> asks_reload(events@),
            decreases n - i + if reload { 0int } else { 1int },
        {
            proof {
                assert(events@.skip(i as int).first() == events@[i as int]);
                assert(events@.skip(i as int).drop_first() =~= events@.skip(i + 1));
            }
            match &events[i] {
                Event::Reload => {
                    reload = true;
                },
                Event::Watch(raw) => {
                    match route(NotifyKind::Copy, raw) {
                        Some(RoutedEvent::ContentPath(path)) => {
                            let ghost before = sent@;
                            sent.push(path);
                            assert(sent@ + forwarded(events@.skip(i + 1)) =~= before + (seq![path]
                                + forwarded(events@.skip(i + 1))));
                        },
                        _ => {},
                    }
                    i = i + 1;
                },
            }
        }
        proof {
            if !reload {
                assert(events@.skip(n as int) =~= Seq::<Event>::empty());
            }
            assert(sent@ + Seq::<String>::empty() =~= sent@);
            if only_removals(events@) {
                law_removals_forward_nothing(events@);
            }
        }
        (sent, reload)
    }
}

} // verus!
