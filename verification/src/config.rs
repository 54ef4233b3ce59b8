//! The configured patterns and the ordered list of paths they resolve to.

use crate::error::SSClipError;
use crate::order::{lemma_precedes_asymmetric, lemma_precedes_transitive, precedes, rank, Rank};
use vstd::prelude::*;
use vstd::seq_lib::seq_to_set_distributes_over_add;

verus! {

/// Every element comes strictly before each later one in the path order, so
/// the sequence is sorted and holds no path twice.
pub open spec fn ascending(s: Seq<Seq<char>>) -> bool {
    forall|i: int, j: int| 0 <= i < j < s.len() ==> precedes(#[trigger] s[i], #[trigger] s[j])
}

/// An ascending sequence holds no path twice.
pub proof fn lemma_ascending_no_duplicates(s: Seq<Seq<char>>)
    requires
        ascending(s),
    ensures
        s.no_duplicates(),
{
    assert forall|i: int, j: int| 0 <= i < s.len() && 0 <= j < s.len() && i != j implies s[i]
        != s[j] by {
        if i < j {
            lemma_precedes_asymmetric(s[i], s[j]);
        } else {
            lemma_precedes_asymmetric(s[j], s[i]);
        }
    }
}

/// An ascending sequence is determined by the set of its elements.
pub proof fn law_ascending_unique(a: Seq<Seq<char>>, b: Seq<Seq<char>>)
    requires
        ascending(a),
        ascending(b),
        a.to_set() == b.to_set(),
    ensures
        a == b,
    decreases a.len(),
{
    if a.len() == 0 {
        if b.len() > 0 {
            assert(b.contains(b[0]));
            assert(a.to_set().contains(b[0]));
        }
        assert(a =~= b);
    } else if b.len() == 0 {
        assert(a.contains(a[0]));
        assert(b.to_set().contains(a[0]));
    } else {
        let x = a.last();
        let y = b.last();
        assert(a.contains(x));
        assert(b.to_set().contains(x));
        assert(b.contains(y));
        assert(a.to_set().contains(y));
        let i = choose|i: int| 0 <= i < b.len() && b[i] == x;
        let j = choose|j: int| 0 <= j < a.len() && a[j] == y;
        if i < b.len() - 1 {
            // x comes before y in b, so y cannot come before x in a
            assert(precedes(b[i], b[b.len() - 1]));
            lemma_precedes_asymmetric(x, y);
            if j < a.len() - 1 {
                assert(precedes(a[j], a[a.len() - 1]));
            }
        }
        assert(x == y);
        let a0 = a.drop_last();
        let b0 = b.drop_last();
        assert forall|p: Seq<char>| a0.to_set().contains(p) <==> b0.to_set().contains(p) by {
            if a0.contains(p) {
                let m = choose|m: int| 0 <= m < a0.len() && a0[m] == p;
                assert(precedes(a[m], a[a.len() - 1]));
                lemma_precedes_asymmetric(p, x);
                assert(a.contains(p));
                assert(b.to_set().contains(p));
                let n = choose|n: int| 0 <= n < b.len() && b[n] == p;
                assert(b0[n] == p);
            }
            if b0.contains(p) {
                let m = choose|m: int| 0 <= m < b0.len() && b0[m] == p;
                assert(precedes(b[m], b[b.len() - 1]));
                lemma_precedes_asymmetric(p, y);
                assert(b.contains(p));
                assert(a.to_set().contains(p));
                let n = choose|n: int| 0 <= n < a.len() && a[n] == p;
                assert(a0[n] == p);
            }
        }
        assert(a0.to_set() =~= b0.to_set());
        law_ascending_unique(a0, b0);
        assert(a =~= a0.push(x));
        assert(b =~= b0.push(y));
    }
}

/// Putting `x` into an ascending sequence at the place where everything
/// before comes before `x` and `x` comes before everything after keeps the
/// sequence ascending and adds `x` to its elements.
proof fn lemma_insert_ascending(s: Seq<Seq<char>>, i: int, x: Seq<char>)
    requires
        ascending(s),
        0 <= i <= s.len(),
        forall|j: int| 0 <= j < i ==> precedes(#[trigger] s[j], x),
        forall|j: int| i <= j < s.len() ==> precedes(x, #[trigger] s[j]),
    ensures
        ascending(s.insert(i, x)),
        s.insert(i, x).to_set() == s.to_set().insert(x),
{
    let after = s.insert(i, x);
    assert forall|p: Seq<char>| after.to_set().contains(p) <==> s.to_set().insert(x).contains(
        p,
    ) by {
        if after.contains(p) {
            let m = choose|m: int| 0 <= m < after.len() && after[m] == p;
            if m < i {
                assert(s[m] == p);
            } else if m > i {
                assert(s[m - 1] == p);
            }
        }
        if s.contains(p) {
            let m = choose|m: int| 0 <= m < s.len() && s[m] == p;
            if m < i {
                assert(after[m] == p);
            } else {
                assert(after[m + 1] == p);
            }
        }
        if p == x {
            assert(after[i] == p);
        }
    }
    assert(after.to_set() =~= s.to_set().insert(x));
    assert forall|a: int, b: int| 0 <= a < b < after.len() implies precedes(
        #[trigger] after[a],
        #[trigger] after[b],
    ) by {
        if b < i {
            assert(precedes(s[a], s[b]));
        } else if b == i {
            assert(precedes(s[a], x));
        } else if a < i {
            assert(precedes(s[a], s[b - 1]));
        } else if a == i {
            assert(precedes(x, s[b - 1]));
        } else {
            assert(precedes(s[a - 1], s[b - 1]));
        }
    }
}

/// Puts `path` into the ascending list `sorted` unless it is there already.
fn insert_ascending(sorted: &mut Vec<String>, path: String)
    requires
        ascending(old(sorted).deep_view()),
    ensures
        ascending(final(sorted).deep_view()),
        final(sorted).deep_view().to_set() == old(sorted).deep_view().to_set().insert(path@),
{
    let ghost before = sorted.deep_view();
    let mut i: usize = sorted.len();
    let mut found: bool = false;
    let mut placed: bool = false;
    while i > 0 && !found && !placed
        invariant
            i <= sorted.len(),
            sorted.deep_view() == before,
            ascending(before),
            forall|j: int|
                i <= j < before.len() && !(found && j == i) ==> precedes(
                    path@,
                    #[trigger] before[j],
                ),
            found ==> i < before.len() && before[i as int] == path@,
            placed ==> !found && i > 0 && precedes(before[i - 1], path@),
        decreases i + (if found || placed { 0int } else { 1int }),
    {
        match rank(sorted[i - 1].as_str(), path.as_str()) {
            Rank::After => {
                i = i - 1;
            },
            Rank::Same => {
                i = i - 1;
                found = true;
            },
            Rank::Before => {
                placed = true;
            },
        }
    }
    if !found {
        proof {
            assert forall|j: int| 0 <= j < i implies precedes(#[trigger] before[j], path@) by {
                if j < i - 1 {
                    lemma_precedes_transitive(before[j], before[i - 1], path@);
                }
            }
            lemma_insert_ascending(before, i as int, path@);
        }
        sorted.insert(i, path);
        assert(sorted.deep_view() =~= before.insert(i as int, path@));
    } else {
        assert(before.to_set().insert(path@) =~= before.to_set());
    }
}

/// The paths that a configuration resolves to, in ascending path order and
/// without repetition.
#[derive(Debug, PartialEq, Eq)]
pub struct PathIter {
    paths: Vec<String>,
}

impl Clone for PathIter {
    fn clone(&self) -> (r: Self)
        ensures
            r@ == self@,
    {
        proof {
            use_type_invariant(self);
        }
        let paths = self.paths.clone();
        assert(paths.deep_view() =~= self.paths.deep_view());
        PathIter { paths }
    }
}

impl View for PathIter {
    type V = Seq<Seq<char>>;

    closed spec fn view(&self) -> Seq<Seq<char>> {
        self.paths.deep_view()
    }
}

impl PathIter {
    #[verifier::type_invariant]
    spec fn inv(self) -> bool {
        ascending(self.paths.deep_view())
    }

    /// The list is ascending. Every `PathIter` is made so and stays so.
    pub open spec fn wf(&self) -> bool {
        ascending(self@)
    }

    /// Orders the given path strings and drops repetitions.
    ///
    /// The result holds exactly the paths that occur in `paths`, each once,
    /// in ascending order; by `law_ascending_unique` there is one such list.
    pub fn from_strs(paths: Vec<String>) -> (r: PathIter)
        ensures
            r.wf(),
            r@.to_set() == paths.deep_view().to_set(),
    {
        let mut sorted: Vec<String> = Vec::new();
        let ghost given = paths.deep_view();
        for path in it: paths
            invariant
                given.len() == it.seq().len(),
                forall|k: int| 0 <= k < given.len() ==> given[k] == (#[trigger] it.seq()[k])@,
                ascending(sorted.deep_view()),
                sorted.deep_view().to_set() == given.take(it.index() as int).to_set(),
        {
            let ghost i = it.index() as int;
            insert_ascending(&mut sorted, path);
            proof {
                assert(given.take(i + 1) =~= given.take(i).push(given[i]));
                given.take(i).lemma_push_to_set_commute(given[i]);
            }
        }
        proof {
            assert(given.take(given.len() as int) =~= given);
        }
        PathIter { paths: sorted }
    }

    /// The paths that are left, in ascending order.
    pub fn as_vec(&self) -> (v: &Vec<String>)
        ensures
            v.deep_view() == self@,
            self.wf(),
    {
        proof {
            use_type_invariant(self);
        }
        &self.paths
    }

    /// Takes the least remaining path off the list, so that walking the list
    /// gives the paths in ascending order, each once.
    pub fn next(&mut self) -> (r: Option<String>)
        ensures
            old(self)@.len() == 0 ==> r is None && final(self)@ == old(self)@,
            old(self)@.len() > 0 ==> r is Some && r->0@ == old(self)@.first() && final(self)@
                == old(self)@.drop_first(),
            final(self).wf(),
    {
        proof {
            use_type_invariant(&*self);
        }
        if self.paths.len() == 0 {
            return None;
        }
        let mut paths: Vec<String> = Vec::new();
        std::mem::swap(&mut self.paths, &mut paths);
        let ghost before = paths.deep_view();
        let first = paths.remove(0);
        assert(paths.deep_view() =~= before.drop_first());
        self.paths = paths;
        Some(first)
    }
}

/// What the pattern parser objects to in a pattern.
#[derive(Clone, Debug, PartialEq, Eq)]
pub struct PatternFault {
    /// The approximate character position of the fault.
    pub pos: usize,
    /// The parser's description of the fault.
    pub msg: String,
}

/// What expanding one pattern against the filesystem gave: its matches at
/// this moment, or the parser's objection to the pattern. A match is the
/// path that matched, or nothing where the entry matched but could not be
/// read.
pub type Expansion = Result<Vec<Option<String>>, PatternFault>;

/// The paths among `matches`, in their order. A match that could not be read
/// is left out: it is no error, and it is no target.
pub open spec fn read(matches: Seq<Option<String>>) -> Seq<Seq<char>>
    decreases matches.len(),
{
    if matches.len() == 0 {
        Seq::empty()
    } else {
        let rest = read(matches.drop_last());
        match matches.last() {
            Some(path) => rest.push(path@),
            None => rest,
        }
    }
}

/// Takes the paths out of `matches` and leaves out what could not be read.
fn readable(matches: Vec<Option<String>>) -> (r: Vec<String>)
    ensures
        r.deep_view() == read(matches@),
{
    let ghost given = matches@;
    let mut paths: Vec<String> = Vec::new();
    for entry in it: matches
        invariant
            it.seq() == given,
            paths.deep_view() == read(given.take(it.index() as int)),
    {
        let ghost i = it.index() as int;
        let ghost sofar = paths.deep_view();
        proof {
            assert(given.take(i + 1).drop_last() =~= given.take(i));
            assert(given.take(i + 1).last() == entry);
        }
        match entry {
            Some(path) => {
                paths.push(path);
                assert(paths.deep_view() =~= sofar.push(path@));
            },
            None => {},
        }
    }
    assert(given.take(given.len() as int) =~= given);
    paths
}

/// The expansion found `path`.
pub open spec fn found_by(expansion: Expansion, path: Seq<char>) -> bool {
    expansion matches Ok(matches) && read(matches@).contains(path)
}

/// The number of expansions that count when `patterns` patterns are
/// configured: one for each pattern, as far as they were handed in.
pub open spec fn counted(patterns: int, expansions: Seq<Expansion>) -> int {
    if patterns <= expansions.len() {
        patterns
    } else {
        expansions.len() as int
    }
}

/// The paths that the first `n` expansions found.
pub open spec fn matched(expansions: Seq<Expansion>, n: int) -> Set<Seq<char>> {
    Set::new(
        |path: Seq<char>|
            exists|i: int| 0 <= i < n && i < expansions.len() && found_by(#[trigger] expansions[i], path),
    )
}

/// The paths found by the first `i + 1` expansions are those found by the
/// first `i` and those of the expansion at `i`.
proof fn lemma_matched_step(expansions: Seq<Expansion>, i: int, sofar: Seq<Seq<char>>)
    requires
        0 <= i < expansions.len(),
        expansions[i] is Ok,
        sofar.to_set() == matched(expansions, i),
    ensures
        (sofar + read(expansions[i]->Ok_0@)).to_set() == matched(expansions, i + 1),
{
    let found = read(expansions[i]->Ok_0@);
    seq_to_set_distributes_over_add(sofar, found);
    assert forall|p: Seq<char>| (sofar.to_set() + found.to_set()).contains(p) <==> matched(
        expansions,
        i + 1,
    ).contains(p) by {
        if found.to_set().contains(p) {
            assert(found_by(expansions[i], p));
        }
        if matched(expansions, i + 1).contains(p) {
            let k = choose|k: int|
                0 <= k < i + 1 && k < expansions.len() && found_by(#[trigger] expansions[k], p);
            if k < i {
                assert(matched(expansions, i).contains(p));
            }
        }
    }
    assert((sofar + found).to_set() =~= matched(expansions, i + 1));
}

/// `i` is the position of the first of the first `n` expansions that failed.
pub open spec fn is_first_failure(expansions: Seq<Expansion>, n: int, i: int) -> bool {
    &&& 0 <= i < n
    &&& i < expansions.len()
    &&& expansions[i] is Err
    &&& forall|j: int| 0 <= j < i ==> (#[trigger] expansions[j]) is Ok
}

/// The configuration: the patterns whose matches are to be watched, in the
/// order in which they were written.
#[derive(Debug, Clone, PartialEq, Eq)]
pub struct Config {
    pub paths: Vec<String>,
}

impl Default for Config {
    fn default() -> (r: Config)
        ensures
            r.paths@.len() == 0,
    {
        Config { paths: Vec::new() }
    }
}

impl Config {
    /// Resolves the configuration to its ordered target list, given what
    /// expanding each of its patterns gave.
    ///
    /// The expansion at position `i` is that of the pattern at position `i`;
    /// a pattern without an expansion has matched nothing, and expansions
    /// beyond the last pattern are not looked at. The first malformed pattern
    /// ends the resolution with a `PatternError` that names it, whatever the
    /// other patterns matched. With every pattern well formed the result holds
    /// exactly the paths that the expansions found, each once and in ascending
    /// order. A pattern that matched nothing is no error, and a match that
    /// could not be read is left out.
    pub fn path_iter(&self, expansions: Vec<Expansion>) -> (r: Result<PathIter, SSClipError>)
        ensures
            forall|i: int|
                is_first_failure(expansions@, self.paths@.len() as int, i) ==> r == Err::<
                    PathIter,
                    SSClipError,
                >(
                    SSClipError::PatternError {
                        index: i as usize,
                        pattern: self.paths@[i],
                        pos: expansions@[i]->Err_0.pos,
                        msg: expansions@[i]->Err_0.msg,
                    },
                ),
            (forall|i: int| !is_first_failure(expansions@, self.paths@.len() as int, i)) ==> (r matches Ok(
                targets,
            ) && targets.wf() && targets@.to_set() == matched(
                expansions@,
                self.paths@.len() as int,
            )),
    {
        let ghost patterns = self.paths@.len() as int;
        let ghost given = expansions@;
        let mut counted_expansions = expansions;
        counted_expansions.truncate(self.paths.len());
        let ghost n = counted(patterns, given);
        let mut all: Vec<String> = Vec::new();
        let mut index: usize = 0;
        for expansion in it: counted_expansions
            invariant
                patterns == self.paths@.len(),
                given == expansions@,
                n == counted(patterns, given),
                n <= usize::MAX,
                it.seq() == given.take(n),
                index == it.index(),
                forall|j: int| 0 <= j < index ==> (#[trigger] given[j]) is Ok,
                all.deep_view().to_set() == matched(given, index as int),
        {
            match expansion {
                Err(fault) => {
                    assert(is_first_failure(given, patterns, index as int));
                    return Err(
                        SSClipError::PatternError {
                            index,
                            pattern: self.paths[index].clone(),
                            pos: fault.pos,
                            msg: fault.msg,
                        },
                    );
                },
                Ok(matches) => {
                    let ghost sofar = all.deep_view();
                    let ghost found = read(matches@);
                    let mut paths = readable(matches);
                    all.append(&mut paths);
                    proof {
                        assert(all.deep_view() =~= sofar + found);
                        lemma_matched_step(given, index as int, sofar);
                    }
                },
            }
            index = index + 1;
        }
        assert(matched(given, n) =~= matched(given, patterns));
        Ok(PathIter::from_strs(all))
    }
}

} // verus!
