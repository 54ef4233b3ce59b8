//! Classification of raw filesystem events into routed events.

use crate::notifier::NotifyKind;
use vstd::prelude::*;

verus! {

/// What happened to the paths of a raw event, as a closed set of kinds.
#[derive(Clone, Copy, Debug, PartialEq, Eq, Structural)]
pub enum EventKind {
    /// A file or directory came into being.
    Create,
    /// Content or metadata changed, or a file was renamed into place.
    Modify,
    /// A file or directory went away.
    Remove,
    /// Anything else that the watch facility reports.
    Other,
}

/// Whether a watch of the given role looks at events of the given kind at all.
///
/// A content watch looks at every kind but removal: a file that went away is
/// never worth copying. The configuration file's watch looks at modifications
/// only; that the file is created or removed asks for no reload.
pub open spec fn considered(role: NotifyKind, kind: EventKind) -> bool {
    match role {
        NotifyKind::Copy => !(kind is Remove),
        NotifyKind::Reload => kind is Modify,
    }
}

/// Decides whether a watch of role `role` looks at events of kind `kind`.
pub fn is_considered(role: NotifyKind, kind: EventKind) -> (r: bool)
    ensures
        r == considered(role, kind),
{
    match role {
        NotifyKind::Copy => match kind {
            EventKind::Remove => false,
            _ => true,
        },
        NotifyKind::Reload => match kind {
            EventKind::Modify => true,
            _ => false,
        },
    }
}

/// One path of a raw event together with what a stat of it gave: the file's
/// size in bytes, or nothing where the stat failed.
#[derive(Clone, Debug, PartialEq, Eq)]
pub struct PathStat {
    pub path: String,
    pub size: Option<u64>,
}

/// A raw filesystem event: its kind and the paths it carries, in the order
/// in which the watch facility listed them.
#[derive(Clone, Debug, PartialEq, Eq)]
pub struct RawEvent {
    pub kind: EventKind,
    pub paths: Vec<PathStat>,
}

/// A classified event on its way through the pipeline.
#[derive(Clone, Debug, PartialEq, Eq)]
pub enum RoutedEvent {
    /// The file at this path is to become clipboard content.
    ContentPath(String),
    /// The configuration changed and is to be loaded again.
    Reload,
}

/// The file could be read and is not empty. A file of size zero has been
/// created but not yet written, and a failed stat means it is gone again.
pub open spec fn ready(stat: PathStat) -> bool {
    stat.size matches Some(n) && n > 0
}

/// `i` is the position of the first ready path.
pub open spec fn is_first_ready(paths: Seq<PathStat>, i: int) -> bool {
    &&& 0 <= i < paths.len()
    &&& ready(paths[i])
    &&& forall|j: int| 0 <= j < i ==> !ready(#[trigger] paths[j])
}

/// The position of the first ready path, if any path is ready.
pub open spec fn first_ready(paths: Seq<PathStat>) -> Option<int> {
    if exists|i: int| is_first_ready(paths, i) {
        Some(choose|i: int| is_first_ready(paths, i))
    } else {
        None
    }
}

/// What a watch of role `role` makes of `event`: nothing if it does not look
/// at events of that kind or no path is ready, and otherwise one routed event,
/// which for a content watch names the first ready path.
pub open spec fn routed(role: NotifyKind, event: RawEvent) -> Option<RoutedEvent> {
    if !considered(role, event.kind) {
        None
    } else {
        match first_ready(event.paths@) {
            None => None,
            Some(i) => Some(
                match role {
                    NotifyKind::Copy => RoutedEvent::ContentPath(event.paths@[i].path),
                    NotifyKind::Reload => RoutedEvent::Reload,
                },
            ),
        }
    }
}

/// Classifies a raw event that a watch of role `role` delivered.
///
/// At most one routed event comes of a raw event. Removals give none, whatever
/// the files' state; the configuration file's watch gives `Reload` and never
/// a content path; and an event none of whose paths is ready gives nothing.
pub fn route(role: NotifyKind, event: &RawEvent) -> (r: Option<RoutedEvent>)
    ensures
        r == routed(role, *event),
        event.kind is Remove ==> r is None,
        role is Reload ==> (r is None || r == Some(RoutedEvent::Reload)),
        role is Reload && !(event.kind is Modify) ==> r is None,
        (forall|i: int| 0 <= i < event.paths@.len() ==> !ready(#[trigger] event.paths@[i])) ==> r
            is None,
        r is Some <==> considered(role, event.kind) && exists|i: int|
            0 <= i < event.paths@.len() && ready(#[trigger] event.paths@[i]),
{
    if !is_considered(role, event.kind) {
        return None;
    }
    let n: usize = event.paths.len();
    let mut i: usize = 0;
    while i < n
        invariant
            i <= n,
            n == event.paths@.len(),
            considered(role, event.kind),
            forall|j: int| 0 <= j < i ==> !ready(#[trigger] event.paths@[j]),
        decreases n - i,
    {
        let stat = &event.paths[i];
        let is_ready = match stat.size {
            Some(size) => size > 0,
            None => false,
        };
        if is_ready {
            proof {
                assert(is_first_ready(event.paths@, i as int));
                let k = choose|k: int| is_first_ready(event.paths@, k);
                assert(k == i);
            }
            return Some(
                match role {
                    NotifyKind::Copy => RoutedEvent::ContentPath(stat.path.clone()),
                    NotifyKind::Reload => RoutedEvent::Reload,
                },
            );
        }
        i = i + 1;
    }
    assert(forall|k: int| !is_first_ready(event.paths@, k));
    None
}

} // verus!
