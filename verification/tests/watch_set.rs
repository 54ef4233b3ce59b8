use ssclip::config::{Config, PathIter, PatternFault};
use ssclip::error::SSClipError;
use ssclip::watcher::DirectoryWatcher;
use ssclip::notifier::{signalled, watch_failed, Notifier, NotifyKind, Watch, WatchFailure};

const CONFIG: &str = "/home/u/.config/ssclip/ssclip.toml";

fn strings_w(items: &[&str]) -> Vec<String> {
    items.iter().map(|s| s.to_string()).collect()
}

fn matches_w(items: &[&str]) -> Vec<Option<String>> {
    items.iter().map(|s| Some(s.to_string())).collect()
}

fn targets_w(items: &[&str]) -> PathIter {
    PathIter::from_strs(strings_w(items))
}

fn paths_of_w(watches: &[Watch<u32>]) -> Vec<String> {
    watches.iter().map(|w| w.path.clone()).collect()
}

/// Reconciles and then attaches a watch for every missing path, numbering
/// the handles from `next`. Returns the released and the created paths.
fn pass_w(set: &mut Notifier<u32>, wanted: &[&str], next: &mut u32) -> (Vec<String>, Vec<String>) {
    let plan = set.reconcile(targets_w(wanted));
    for path in plan.missing.iter() {
        assert!(set.attach(path.clone(), *next).is_ok());
        *next += 1;
    }
    (paths_of_w(&plan.released), plan.missing)
}

#[test]
fn new_set_holds_only_the_reload_trigger() {
    let set: Notifier<u32> = Notifier::new(CONFIG.to_string(), 0);
    assert_eq!(set.len(), 0);
    assert_eq!(set.role_of(&CONFIG.to_string()), Some(NotifyKind::Reload));
    assert_eq!(set.role_of(&"/watch/a.png".to_string()), None);
    assert!(set.missing_targets().is_empty());
}

#[test]
fn reconcile_reports_every_new_target_as_missing() {
    let mut set: Notifier<u32> = Notifier::new(CONFIG.to_string(), 0);
    let plan = set.reconcile(targets_w(&["/w/b.png", "/w/a.png"]));
    assert!(plan.released.is_empty());
    assert_eq!(plan.missing, strings_w(&["/w/a.png", "/w/b.png"]));
    assert_eq!(set.len(), 0);
}

#[test]
fn attach_takes_in_a_missing_target() {
    let mut set: Notifier<u32> = Notifier::new(CONFIG.to_string(), 0);
    set.reconcile(targets_w(&["/w/a.png"]));
    assert!(set.attach("/w/a.png".to_string(), 7).is_ok());
    assert_eq!(set.len(), 1);
    assert_eq!(set.handle_of(&"/w/a.png".to_string()), Some(&7));
    assert_eq!(set.role_of(&"/w/a.png".to_string()), Some(NotifyKind::Copy));
    assert!(set.missing_targets().is_empty());
}

#[test]
fn attach_gives_back_a_watch_on_a_path_that_is_no_target() {
    let mut set: Notifier<u32> = Notifier::new(CONFIG.to_string(), 0);
    set.reconcile(targets_w(&["/w/a.png"]));
    let back = set.attach("/w/other.png".to_string(), 9).unwrap_err();
    assert_eq!(back.path, "/w/other.png");
    assert_eq!(back.handle, 9);
    assert_eq!(set.len(), 0);
}

#[test]
fn attach_gives_back_a_second_watch_on_the_same_path() {
    let mut set: Notifier<u32> = Notifier::new(CONFIG.to_string(), 0);
    set.reconcile(targets_w(&["/w/a.png"]));
    assert!(set.attach("/w/a.png".to_string(), 1).is_ok());
    let back = set.attach("/w/a.png".to_string(), 2).unwrap_err();
    assert_eq!(back.handle, 2);
    assert_eq!(set.len(), 1);
    assert_eq!(set.handle_of(&"/w/a.png".to_string()), Some(&1));
}

#[test]
fn attach_gives_back_a_content_watch_on_the_configuration_file() {
    let mut set: Notifier<u32> = Notifier::new(CONFIG.to_string(), 0);
    set.reconcile(targets_w(&[CONFIG, "/w/a.png"]));
    let back = set.attach(CONFIG.to_string(), 5).unwrap_err();
    assert_eq!(back.handle, 5);
    assert_eq!(set.len(), 0);
}

#[test]
fn reconcile_twice_with_same_targets_changes_nothing() {
    let mut set: Notifier<u32> = Notifier::new(CONFIG.to_string(), 0);
    let mut next = 1;
    let (released, created) = pass_w(&mut set, &["/w/a.png", "/w/b.png"], &mut next);
    assert!(released.is_empty());
    assert_eq!(created, strings_w(&["/w/a.png", "/w/b.png"]));

    let (released, created) = pass_w(&mut set, &["/w/b.png", "/w/a.png"], &mut next);
    assert!(released.is_empty());
    assert!(created.is_empty());
    assert_eq!(set.len(), 2);
    assert_eq!(set.handle_of(&"/w/a.png".to_string()), Some(&1));
    assert_eq!(set.handle_of(&"/w/b.png".to_string()), Some(&2));
    assert_eq!(next, 3);
}

#[test]
fn reconcile_follows_the_targets_and_keeps_shared_handles() {
    let mut set: Notifier<u32> = Notifier::new(CONFIG.to_string(), 0);
    let mut next = 1;
    pass_w(&mut set, &["/w/a.png", "/w/b.png", "/w/c.png"], &mut next);
    let (released, created) = pass_w(&mut set, &["/w/b.png", "/w/d.png", "/w/c.png"], &mut next);
    assert_eq!(released, strings_w(&["/w/a.png"]));
    assert_eq!(created, strings_w(&["/w/d.png"]));

    assert_eq!(set.len(), 3);
    assert_eq!(set.handle_of(&"/w/a.png".to_string()), None);
    assert_eq!(set.handle_of(&"/w/b.png".to_string()), Some(&2));
    assert_eq!(set.handle_of(&"/w/c.png".to_string()), Some(&3));
    assert_eq!(set.handle_of(&"/w/d.png".to_string()), Some(&4));
    assert_eq!(set.role_of(&CONFIG.to_string()), Some(NotifyKind::Reload));
}

#[test]
fn reconcile_hands_back_the_released_handles() {
    let mut set: Notifier<u32> = Notifier::new(CONFIG.to_string(), 0);
    let mut next = 10;
    pass_w(&mut set, &["/w/a.png", "/w/b.png"], &mut next);
    let plan = set.reconcile(targets_w(&[]));
    let gone: Vec<(String, u32)> =
        plan.released.iter().map(|w| (w.path.clone(), w.handle)).collect();
    assert_eq!(gone, vec![("/w/a.png".to_string(), 10), ("/w/b.png".to_string(), 11)]);
    assert!(plan.missing.is_empty());
    assert_eq!(set.len(), 0);
}

#[test]
fn reconcile_never_asks_for_a_content_watch_on_the_configuration_file() {
    let mut set: Notifier<u32> = Notifier::new(CONFIG.to_string(), 0);
    let plan = set.reconcile(targets_w(&["/w/a.png", CONFIG]));
    assert_eq!(plan.missing, strings_w(&["/w/a.png"]));
    assert_eq!(set.role_of(&CONFIG.to_string()), Some(NotifyKind::Reload));
}

#[test]
fn a_failed_creation_leaves_the_target_missing() {
    let mut set: Notifier<u32> = Notifier::new(CONFIG.to_string(), 0);
    let plan = set.reconcile(targets_w(&["/w/a.png", "/w/b.png"]));
    assert_eq!(plan.missing.len(), 2);
    // only the second watch could be created
    assert!(set.attach("/w/b.png".to_string(), 1).is_ok());
    assert_eq!(set.missing_targets(), strings_w(&["/w/a.png"]));
    // the next pass asks for it again and keeps the other
    let plan = set.reconcile(targets_w(&["/w/a.png", "/w/b.png"]));
    assert!(plan.released.is_empty());
    assert_eq!(plan.missing, strings_w(&["/w/a.png"]));
    assert_eq!(set.handle_of(&"/w/b.png".to_string()), Some(&1));
}

#[test]
fn reset_releases_every_content_watch() {
    let mut set: Notifier<u32> = Notifier::new(CONFIG.to_string(), 0);
    let mut next = 1;
    pass_w(&mut set, &["/w/a.png", "/w/b.png"], &mut next);
    let released = set.reset();
    assert_eq!(paths_of_w(&released), strings_w(&["/w/a.png", "/w/b.png"]));
    assert_eq!(set.len(), 0);
    assert_eq!(set.missing_targets(), strings_w(&["/w/a.png", "/w/b.png"]));
    assert_eq!(set.role_of(&CONFIG.to_string()), Some(NotifyKind::Reload));
}

#[test]
fn run_reconciles_against_the_resolved_matches() {
    let mut set: Notifier<u32> = Notifier::new(CONFIG.to_string(), 0);
    let config = Config { paths: strings_w(&["/w/*.png", "/v/*.png"]) };
    let expansions =
        vec![Ok(matches_w(&["/w/b.png", "/w/a.png"])), Ok(matches_w(&["/v/c.png", "/w/b.png"]))];
    let plan = set.run(Ok(config), expansions).unwrap();
    assert!(plan.released.is_empty());
    assert_eq!(plan.missing, strings_w(&["/v/c.png", "/w/a.png", "/w/b.png"]));
}

#[test]
fn run_fails_when_the_configuration_did_not_load() {
    let mut set: Notifier<u32> = Notifier::new(CONFIG.to_string(), 0);
    let mut next = 1;
    pass_w(&mut set, &["/w/a.png"], &mut next);
    let err = set.run(Err("bad toml".to_string()), Vec::new()).unwrap_err();
    assert_eq!(err, SSClipError::ConfigError("bad toml".to_string()));
    // the watch set is as it was
    assert_eq!(set.len(), 1);
    assert_eq!(set.handle_of(&"/w/a.png".to_string()), Some(&1));
    assert!(set.missing_targets().is_empty());
}

#[test]
fn run_fails_on_a_malformed_pattern_and_keeps_the_set() {
    let mut set: Notifier<u32> = Notifier::new(CONFIG.to_string(), 0);
    let mut next = 1;
    pass_w(&mut set, &["/w/a.png"], &mut next);
    let config = Config { paths: strings_w(&["/w/*.png", "/w/***"]) };
    let expansions = vec![
        Ok(matches_w(&["/w/z.png"])),
        Err(PatternFault { pos: 5, msg: "wildcards".to_string() }),
    ];
    let err = set.run(Ok(config), expansions).map(|plan| plan.missing).unwrap_err();
    assert_eq!(
        err,
        SSClipError::PatternError {
            index: 1,
            pattern: "/w/***".to_string(),
            pos: 5,
            msg: "wildcards".to_string(),
        }
    );
    assert_eq!(set.len(), 1);
    assert_eq!(set.handle_of(&"/w/a.png".to_string()), Some(&1));
    assert!(set.missing_targets().is_empty());
}

#[test]
fn a_failed_content_watch_is_skipped() {
    assert_eq!(
        watch_failed(NotifyKind::Copy, "permission denied".to_string()),
        WatchFailure::Skipped("permission denied".to_string())
    );
}

#[test]
fn a_failed_reload_trigger_is_fatal() {
    assert_eq!(
        watch_failed(NotifyKind::Reload, "no such file".to_string()),
        WatchFailure::Fatal(SSClipError::Notify("no such file".to_string()))
    );
}

#[test]
fn a_reload_signal_starts_the_next_cycle() {
    assert_eq!(signalled(Ok(())), Ok(()));
}

#[test]
fn a_lost_reload_channel_ends_the_loop() {
    assert_eq!(
        signalled(Err("receiving on an empty and disconnected channel".to_string())),
        Err(SSClipError::CrossBeamRecvError(
            "receiving on an empty and disconnected channel".to_string()
        ))
    );
}

#[test]
fn directory_watcher_reset_replaces_every_watch() {
    let mut watcher: DirectoryWatcher<u32> = DirectoryWatcher::new(CONFIG.to_string(), 0);
    let config = Config { paths: strings_w(&["/w/*.png"]) };
    let plan = watcher.reset(Ok(config), vec![Ok(matches_w(&["/w/b.png", "/w/a.png"]))]).unwrap();
    assert!(plan.released.is_empty());
    assert_eq!(plan.missing, strings_w(&["/w/a.png", "/w/b.png"]));
    assert!(watcher.attach("/w/a.png".to_string(), 1).is_ok());
    assert!(watcher.attach("/w/b.png".to_string(), 2).is_ok());

    // the same targets again: every watch is released and asked for anew
    let config = Config { paths: strings_w(&["/w/*.png"]) };
    let plan = watcher.reset(Ok(config), vec![Ok(matches_w(&["/w/a.png", "/w/b.png"]))]).unwrap();
    let gone: Vec<(String, u32)> =
        plan.released.iter().map(|w| (w.path.clone(), w.handle)).collect();
    assert_eq!(gone, vec![("/w/a.png".to_string(), 1), ("/w/b.png".to_string(), 2)]);
    assert_eq!(plan.missing, strings_w(&["/w/a.png", "/w/b.png"]));
}

#[test]
fn directory_watcher_reset_keeps_the_watches_when_it_fails() {
    let mut watcher: DirectoryWatcher<u32> = DirectoryWatcher::new(CONFIG.to_string(), 0);
    let config = Config { paths: strings_w(&["/w/*.png"]) };
    watcher.reset(Ok(config), vec![Ok(matches_w(&["/w/a.png"]))]).unwrap();
    assert!(watcher.attach("/w/a.png".to_string(), 1).is_ok());

    let err = watcher.reset(Err("bad toml".to_string()), Vec::new()).map(|p| p.missing).unwrap_err();
    assert_eq!(err, SSClipError::ConfigError("bad toml".to_string()));
    let config = Config { paths: strings_w(&["["]) };
    let fault = PatternFault { pos: 0, msg: "invalid range pattern".to_string() };
    let err = watcher.reset(Ok(config), vec![Err(fault)]).map(|p| p.missing).unwrap_err();
    assert_eq!(
        err,
        SSClipError::PatternError {
            index: 0,
            pattern: "[".to_string(),
            pos: 0,
            msg: "invalid range pattern".to_string(),
        }
    );
    // the watch is still there: a second watch on its path is handed back
    assert!(watcher.attach("/w/a.png".to_string(), 2).is_err());
}
