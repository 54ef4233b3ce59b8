use ssclip::config::{Config, PathIter, PatternFault};
use ssclip::error::SSClipError;
use ssclip::order::{rank, Rank};

fn strings_r(items: &[&str]) -> Vec<String> {
    items.iter().map(|s| s.to_string()).collect()
}

fn matches_r(items: &[&str]) -> Vec<Option<String>> {
    items.iter().map(|s| Some(s.to_string())).collect()
}

fn drain_r(mut iter: PathIter) -> Vec<String> {
    let mut out = Vec::new();
    while let Some(path) = iter.next() {
        out.push(path);
    }
    out
}

#[test]
fn rank_orders_by_first_difference() {
    assert_eq!(rank("/watch/a.png", "/watch/b.png"), Rank::Before);
    assert_eq!(rank("/watch/b.png", "/watch/a.png"), Rank::After);
    assert_eq!(rank("/watch/a.png", "/watch/a.png"), Rank::Same);
}

#[test]
fn rank_puts_a_prefix_first() {
    assert_eq!(rank("/watch", "/watch/a.png"), Rank::Before);
    assert_eq!(rank("/watch/a.png", "/watch"), Rank::After);
    assert_eq!(rank("", "a"), Rank::Before);
    assert_eq!(rank("", ""), Rank::Same);
}

#[test]
fn rank_compares_characters_not_components() {
    // '.' comes before '/', so "a.b" sorts before "a/b"
    assert_eq!(rank("a.b", "a/b"), Rank::Before);
    // code points decide beyond ASCII too
    assert_eq!(rank("z", "\u{e9}"), Rank::Before);
    assert_eq!(rank("\u{e9}", "\u{4e2d}"), Rank::Before);
    assert_eq!(rank("\u{1f600}", "\u{4e2d}"), Rank::After);
}

#[test]
fn from_strs_sorts_ascending() {
    let iter = PathIter::from_strs(strings_r(&["/w/c.png", "/w/a.png", "/w/b.png"]));
    assert_eq!(iter.as_vec(), &strings_r(&["/w/a.png", "/w/b.png", "/w/c.png"]));
}

#[test]
fn from_strs_drops_repetitions() {
    let iter = PathIter::from_strs(strings_r(&["/w/b.png", "/w/a.png", "/w/b.png", "/w/a.png"]));
    assert_eq!(iter.as_vec(), &strings_r(&["/w/a.png", "/w/b.png"]));
}

#[test]
fn from_strs_of_nothing_is_empty() {
    let iter = PathIter::from_strs(Vec::new());
    assert!(iter.as_vec().is_empty());
}

#[test]
fn from_strs_does_not_depend_on_input_order() {
    let one = PathIter::from_strs(strings_r(&["x", "a", "m", "a"]));
    let two = PathIter::from_strs(strings_r(&["m", "x", "a"]));
    assert_eq!(one, two);
}

#[test]
fn next_yields_the_paths_in_ascending_order() {
    let iter = PathIter::from_strs(strings_r(&["/w/b.png", "/w/a.png", "/w/c.png", "/w/a.png"]));
    assert_eq!(drain_r(iter), strings_r(&["/w/a.png", "/w/b.png", "/w/c.png"]));
}

#[test]
fn next_walks_the_resolved_list_least_first() {
    let mut iter = PathIter::from_strs(strings_r(&["/w/b.png", "/w/a.png"]));
    assert_eq!(iter.next(), Some("/w/a.png".to_string()));
    assert_eq!(iter.next(), Some("/w/b.png".to_string()));
    assert_eq!(iter.next(), None);
}

#[test]
fn next_on_empty_gives_none() {
    let mut iter = PathIter::from_strs(Vec::new());
    assert_eq!(iter.next(), None);
    assert_eq!(iter.next(), None);
}

#[test]
fn path_iter_resolves_what_the_patterns_matched() {
    let config = Config { paths: strings_r(&["/watch/*.png", "/watch2/**/*.jpg"]) };
    let expansions = vec![
        Ok(matches_r(&["/watch/b.png", "/watch/a.png"])),
        Ok(matches_r(&["/watch2/x/c.jpg", "/watch/a.png"])),
    ];
    let targets = config.path_iter(expansions).unwrap();
    assert_eq!(targets.as_vec(), &strings_r(&["/watch/a.png", "/watch/b.png", "/watch2/x/c.jpg"]));
}

#[test]
fn path_iter_accepts_patterns_without_matches() {
    let config = Config { paths: strings_r(&["/nowhere/*.png", "/w/*.png"]) };
    let targets =
        config.path_iter(vec![Ok(Vec::new()), Ok(matches_r(&["/w/a.png"]))]).unwrap();
    assert_eq!(targets.as_vec(), &strings_r(&["/w/a.png"]));
    let targets = config.path_iter(vec![Ok(Vec::new()), Ok(Vec::new())]).unwrap();
    assert!(targets.as_vec().is_empty());
}

#[test]
fn path_iter_of_empty_config_is_empty() {
    let config = Config::default();
    assert!(config.paths.is_empty());
    let targets = config.path_iter(Vec::new()).unwrap();
    assert!(targets.as_vec().is_empty());
}

#[test]
fn path_iter_fails_on_a_malformed_pattern() {
    let config = Config { paths: strings_r(&["/watch/***"]) };
    let fault = PatternFault {
        pos: 9,
        msg: "wildcards are either regular `*` or recursive `**`".to_string(),
    };
    let err = config.path_iter(vec![Err(fault)]).unwrap_err();
    assert_eq!(
        err,
        SSClipError::PatternError {
            index: 0,
            pattern: "/watch/***".to_string(),
            pos: 9,
            msg: "wildcards are either regular `*` or recursive `**`".to_string(),
        }
    );
}

#[test]
fn path_iter_fails_whatever_the_other_patterns_matched() {
    let config = Config { paths: strings_r(&["/ok/*.png", "a**b", "/also/*.png"]) };
    let fault = PatternFault { pos: 0, msg: "recursive wildcards".to_string() };
    let expansions = vec![
        Ok(matches_r(&["/ok/a.png"])),
        Err(fault),
        Ok(matches_r(&["/also/b.png"])),
    ];
    match config.path_iter(expansions) {
        Err(SSClipError::PatternError { index, pattern, .. }) => {
            assert_eq!(index, 1);
            assert_eq!(pattern, "a**b");
        }
        other => panic!("unexpected {:?}", other),
    }
}

#[test]
fn path_iter_reports_the_first_malformed_pattern() {
    let config = Config { paths: strings_r(&["/a/*", "[", "***", "/b/*"]) };
    let expansions = vec![
        Ok(Vec::new()),
        Err(PatternFault { pos: 0, msg: "invalid range pattern".to_string() }),
        Err(PatternFault { pos: 2, msg: "wildcards".to_string() }),
        Ok(Vec::new()),
    ];
    match config.path_iter(expansions) {
        Err(SSClipError::PatternError { index, pattern, pos, msg }) => {
            assert_eq!(index, 1);
            assert_eq!(pattern, "[");
            assert_eq!(pos, 0);
            assert_eq!(msg, "invalid range pattern");
        }
        other => panic!("unexpected {:?}", other),
    }
}

#[test]
fn path_iter_looks_at_one_expansion_for_each_pattern() {
    let config = Config { paths: strings_r(&["/a/*", "/b/*"]) };
    // a pattern without an expansion has matched nothing
    let targets = config.path_iter(vec![Ok(matches_r(&["/a/x"]))]).unwrap();
    assert_eq!(targets.as_vec(), &strings_r(&["/a/x"]));
    // expansions beyond the last pattern do not count, failed or not
    let expansions = vec![
        Ok(matches_r(&["/a/x"])),
        Ok(matches_r(&["/b/y"])),
        Ok(matches_r(&["/c/z"])),
        Err(PatternFault { pos: 0, msg: "invalid range pattern".to_string() }),
    ];
    let targets = config.path_iter(expansions).unwrap();
    assert_eq!(targets.as_vec(), &strings_r(&["/a/x", "/b/y"]));
}

#[test]
fn clone_holds_the_same_paths() {
    let mut iter = PathIter::from_strs(strings_r(&["/w/b.png", "/w/a.png"]));
    let copy = iter.clone();
    assert_eq!(copy, iter);
    assert_eq!(iter.next(), Some("/w/a.png".to_string()));
    assert_eq!(iter.as_vec(), &strings_r(&["/w/b.png"]));
    assert_eq!(copy.as_vec(), &strings_r(&["/w/a.png", "/w/b.png"]));
}

#[test]
fn path_iter_leaves_out_matches_that_could_not_be_read() {
    let config = Config { paths: strings_r(&["/w/*.png"]) };
    let expansions =
        vec![Ok(vec![Some("/w/b.png".to_string()), None, Some("/w/a.png".to_string()), None])];
    let targets = config.path_iter(expansions).unwrap();
    assert_eq!(targets.as_vec(), &strings_r(&["/w/a.png", "/w/b.png"]));
    let targets = config.path_iter(vec![Ok(vec![None])]).unwrap();
    assert!(targets.as_vec().is_empty());
}
