//! Which lines does the test suite actually run?
//!
//! A mutant in a line that no test executes can't be caught by any test: the answer is known before it is built, so
//! with `--skip-uncovered` it is reported without spending a build and a test run on it.

use vstd::prelude::*;
use crate::cargo;
use crate::mutant;
use crate::paths;
use crate::paths::{file_extension, join_path, parent_directory, same_path, strip_prefix};
use crate::text;
use crate::text::same_text;

verus! {

/// A coverage segment of an `llvm-cov export` document: `[line, column, count, has_count, is_region_entry, is_gap]`.
#[derive(Clone, Copy, Debug, PartialEq, Eq, Structural)]
pub struct Segment {
    pub line: usize,
    pub count: u64,
    pub has_count: bool,
}

impl Segment {
    /// That this segment was counted and was executed.
    pub open spec fn ran(self) -> bool {
        self.has_count && self.count > 0
    }

    /// The segment whose array holds the given line, count and flag at their positions. A field that is missing or has
    /// another type counts as zero or false, and a line that is too large as the largest line.
    pub fn from_fields(line: Option<u64>, count: Option<u64>, has_count: Option<bool>) -> (r: Segment)
        ensures
            r.line == match line {
                Some(line) if line <= usize::MAX => line as usize,
                Some(_) => usize::MAX,
                None => 0,
            },
            r.count == match count {
                Some(count) => count,
                None => 0,
            },
            r.has_count == (has_count == Some(true)),
    {
        let line: u64 = match line {
            Some(line) => line,
            None => 0,
        };
        let largest: u64 = usize::MAX as u64;
        Segment {
            line: if line <= largest { line as usize } else { usize::MAX },
            count: match count {
                Some(count) => count,
                None => 0,
            },
            has_count: match has_count {
                Some(has_count) => has_count,
                None => false,
            },
        }
    }
}

/// What an `llvm-cov export` document says of one source file.
pub struct ExportFile {
    /// The path of the file, as `rustc` saw it while compiling.
    pub filename: String,
    pub segments: Vec<Segment>,
}

/// That a line of a path ran, according to an export whose files have the given paths relative to the tree.
pub open spec fn export_ran(
    files: Seq<ExportFile>,
    relatives: Seq<Option<Seq<char>>>,
    path: Seq<char>,
    line: usize,
) -> bool {
    exists|i: int, j: int|
        0 <= i < files.len() && 0 <= j < files[i].segments@.len() && relatives[i] == Some(path) && (#[trigger] files[i].segments@[j]).ran()
            && files[i].segments@[j].line == line
}

/// What one entry of a coverage record says: a path, and the lines of it that ran.
pub open spec fn entry_covers(entry: (String, Vec<usize>), path: Seq<char>, line: usize) -> bool {
    entry.0@ == path && entry.1@.contains(line)
}

/// The lines of each source file that the test suite executed at least once.
pub struct LineCoverage {
    /// Paths relative to the workspace root, with the lines that ran.
    covered: Vec<(String, Vec<usize>)>,
}

impl View for LineCoverage {
    type V = Set<(Seq<char>, usize)>;

    /// The pairs of a path, as it was recorded, and a line of it that ran.
    closed spec fn view(&self) -> Set<(Seq<char>, usize)> {
        Set::new(
            |p: (Seq<char>, usize)|
                exists|i: int| 0 <= i < self.covered@.len() && entry_covers(#[trigger] self.covered@[i], p.0, p.1),
        )
    }
}

/// That `covered` can be whether a line of a path was recorded: it was recorded of a path that is the same, or of none that
/// is the same, as the machine compares paths.
pub open spec fn fits_coverage(pairs: Set<(Seq<char>, usize)>, path: Seq<char>, line: usize, covered: bool) -> bool {
    if covered {
        exists|recorded: Seq<char>| #[trigger] pairs.contains((recorded, line)) && paths::fits_same(recorded, path, true)
    } else {
        forall|recorded: Seq<char>| #[trigger] pairs.contains((recorded, line)) ==> paths::fits_same(recorded, path, false)
    }
}

/// The paths of a coverage record, as they were recorded.
pub open spec fn recorded_paths(pairs: Set<(Seq<char>, usize)>) -> Set<Seq<char>> {
    Set::new(|path: Seq<char>| exists|line: usize| pairs.contains((path, line)))
}

/// The files that some paths lead to, each given by its components.
pub open spec fn files_at(paths: Set<Seq<char>>) -> Set<Seq<Seq<char>>> {
    paths.map(|path: Seq<char>| paths::components(path))
}

/// That one of some paths can be the same as another, as the machine compares paths.
pub open spec fn has_same(candidates: Seq<Seq<char>>, path: Seq<char>) -> bool {
    exists|i: int| 0 <= i < candidates.len() && paths::fits_same(#[trigger] candidates[i], path, true)
}

/// That some of a set of paths can be one for each file that the paths lead to, as the machine compares paths.
pub open spec fn one_for_each(paths: Set<Seq<char>>, firsts: Seq<Seq<char>>) -> bool {
    &&& forall|i: int| 0 <= i < firsts.len() ==> paths.contains(#[trigger] firsts[i])
    &&& forall|i: int, j: int|
        0 <= i < j < firsts.len() ==> paths::fits_same(#[trigger] firsts[i], #[trigger] firsts[j], false)
    &&& forall|path: Seq<char>| #[trigger] paths.contains(path) ==> has_same(firsts, path)
}

/// Where paths have slashes only, as many paths are one for each file as there are files.
proof fn lemma_one_for_each(paths: Set<Seq<char>>, firsts: Seq<Seq<char>>)
    requires
        one_for_each(paths, firsts),
        forall|path: Seq<char>| #[trigger] paths.contains(path) ==> paths::slashes_only(path),
    ensures
        files_at(paths).finite(),
        files_at(paths).len() == firsts.len(),
{
    let files = Seq::new(firsts.len(), |i: int| paths::components(firsts[i]));
    assert forall|i: int, j: int| 0 <= i < files.len() && 0 <= j < files.len() && i != j implies files[i] != files[j] by {
        assert(paths.contains(firsts[i]) && paths.contains(firsts[j]));
        if i < j {
            paths::lemma_same_with_slashes(firsts[i], firsts[j], false);
        } else {
            paths::lemma_same_with_slashes(firsts[j], firsts[i], false);
        }
    }
    files.unique_seq_to_set();
    vstd::seq_lib::seq_to_set_is_finite(files);
    assert forall|file: Seq<Seq<char>>| files.to_set().contains(file) == files_at(paths).contains(file) by {
        if files.to_set().contains(file) {
            let i = choose|i: int| 0 <= i < files.len() && files[i] == file;
            assert(paths.contains(firsts[i]));
        }
        if files_at(paths).contains(file) {
            let path = choose|path: Seq<char>| #[trigger] paths.contains(path) && file == paths::components(path);
            let i = choose|i: int| 0 <= i < firsts.len() && paths::fits_same(#[trigger] firsts[i], path, true);
            assert(paths.contains(firsts[i]));
            paths::lemma_same_with_slashes(firsts[i], path, true);
            assert(files[i] == file);
        }
    }
    assert(files.to_set() =~= files_at(paths));
}

impl LineCoverage {
    #[verifier::type_invariant]
    spec fn entries_have_lines(self) -> bool {
        forall|i: int| 0 <= i < self.covered@.len() ==> (#[trigger] self.covered@[i]).1@.len() > 0
    }

    /// Coverage of which nothing is known.
    pub fn new() -> (r: LineCoverage)
        ensures
            r@ == Set::<(Seq<char>, usize)>::empty(),
    {
        let r = LineCoverage { covered: Vec::new() };
        assert(r@ =~= Set::<(Seq<char>, usize)>::empty());
        r
    }

    /// True if any test executed this line of this file.
    ///
    /// Files that coverage said nothing about are treated as uncovered: they were either not built or not reached. Paths are
    /// compared as the machine compares them.
    pub fn covers(&self, tree_relative_path: &str, line: usize) -> (r: bool)
        ensures
            fits_coverage(self@, tree_relative_path@, line, r),
    {
        for i in 0..self.covered.len()
            invariant
                forall|k: int|
                    0 <= k < i && (#[trigger] self.covered@[k]).1@.contains(line) ==> paths::fits_same(
                        self.covered@[k].0@,
                        tree_relative_path@,
                        false,
                    ),
        {
            if contains_line(&self.covered[i].1, line) && same_path(self.covered[i].0.as_str(), tree_relative_path) {
                proof {
                    let recorded = self.covered@[i as int].0@;
                    assert(entry_covers(self.covered@[i as int], recorded, line));
                    assert(self@.contains((recorded, line)));
                }
                return true;
            }
        }
        false
    }

    /// How many files had at least one covered line.
    ///
    /// That is as many as there are recorded paths of which no two are the same, as the machine compares paths: the number of
    /// different lists of components, where the paths have slashes only.
    pub fn covered_files(&self) -> (r: usize)
        ensures
            exists|firsts: Seq<Seq<char>>| #[trigger]
                one_for_each(recorded_paths(self@), firsts) && r == firsts.len(),
            (forall|path: Seq<char>| #[trigger] recorded_paths(self@).contains(path) ==> paths::slashes_only(path))
                ==> files_at(recorded_paths(self@)).finite() && r == files_at(recorded_paths(self@)).len(),
    {
        let ghost all = recorded_paths(self@);
        let mut firsts: Vec<String> = Vec::new();
        for i in 0..self.covered.len()
            invariant
                all == recorded_paths(self@),
                forall|k: int| 0 <= k < firsts@.len() ==> all.contains(#[trigger] text::texts(firsts@)[k]),
                forall|a: int, b: int|
                    0 <= a < b < firsts@.len() ==> paths::fits_same(
                        #[trigger] text::texts(firsts@)[a],
                        #[trigger] text::texts(firsts@)[b],
                        false,
                    ),
                forall|k: int| 0 <= k < i ==> has_same(text::texts(firsts@), (#[trigger] self.covered@[k]).0@),
        {
            let path = self.covered[i].0.as_str();
            proof {
                use_type_invariant(self);
                self.lemma_entry_is_recorded(i as int);
            }
            let ghost before = text::texts(firsts@);
            if !among_paths(&firsts, path) {
                firsts.push(path.to_owned());
                proof {
                    assert(text::texts(firsts@) =~= before.push(path@));
                    assert forall|k: int| 0 <= k < i + 1 implies has_same(
                        text::texts(firsts@),
                        (#[trigger] self.covered@[k]).0@,
                    ) by {
                        lemma_has_same_more(before, path@, self.covered@[k].0@);
                    }
                }
            }
        }
        proof {
            let models = text::texts(firsts@);
            assert forall|p: Seq<char>| #[trigger] all.contains(p) implies has_same(models, p) by {
                let line = choose|line: usize| self@.contains((p, line));
                let k = choose|k: int| 0 <= k < self.covered@.len() && entry_covers(#[trigger] self.covered@[k], p, line);
                assert(has_same(models, self.covered@[k].0@));
            }
            assert(one_for_each(all, models));
            if forall|path: Seq<char>| #[trigger] all.contains(path) ==> paths::slashes_only(path) {
                lemma_one_for_each(all, models);
            }
        }
        firsts.len()
    }

    /// The path of an entry is recorded.
    proof fn lemma_entry_is_recorded(&self, i: int)
        requires
            0 <= i < self.covered@.len(),
            self.entries_have_lines(),
        ensures
            recorded_paths(self@).contains(self.covered@[i].0@),
    {
        let entry = self.covered@[i];
        let line = entry.1@[0];
        assert(entry_covers(entry, entry.0@, line));
        assert(self@.contains((entry.0@, line)));
    }
}

/// A path that is the same as one of some paths is the same as one of more, and as itself.
proof fn lemma_has_same_more(candidates: Seq<Seq<char>>, next: Seq<char>, path: Seq<char>)
    ensures
        has_same(candidates, path) || next == path ==> has_same(candidates.push(next), path),
{
    let more = candidates.push(next);
    if has_same(candidates, path) {
        let i = choose|i: int| 0 <= i < candidates.len() && paths::fits_same(#[trigger] candidates[i], path, true);
        assert(more[i] == candidates[i]);
    }
    if next == path {
        paths::lemma_path_is_itself(path);
        assert(more[candidates.len() as int] == path);
    }
}

/// Whether one of some paths is the same as another.
fn among_paths(candidates: &Vec<String>, path: &str) -> (r: bool)
    ensures
        r ==> has_same(text::texts(candidates@), path@),
        !r ==> forall|n: int|
            0 <= n < candidates@.len() ==> paths::fits_same(#[trigger] text::texts(candidates@)[n], path@, false),
{
    let ghost models = text::texts(candidates@);
    for i in 0..candidates.len()
        invariant
            models == text::texts(candidates@),
            forall|n: int| 0 <= n < i ==> paths::fits_same(#[trigger] models[n], path@, false),
    {
        assert(models[i as int] == candidates@[i as int]@);
        if same_path(candidates[i].as_str(), path) {
            return true;
        }
    }
    false
}

/// Whether `lines` holds `line`.
fn contains_line(lines: &Vec<usize>, line: usize) -> (r: bool)
    ensures
        r == lines@.contains(line),
{
    for i in 0..lines.len()
        invariant
            forall|k: int| 0 <= k < i ==> lines@[k] != line,
    {
        if lines[i] == line {
            return true;
        }
    }
    false
}

/// That one of some entries covers a line.
spec fn entries_cover(entries: Seq<(String, Vec<usize>)>, path: Seq<char>, line: usize) -> bool {
    exists|i: int| 0 <= i < entries.len() && entry_covers(#[trigger] entries[i], path, line)
}

/// One more entry covers what it says.
proof fn lemma_one_more_entry(entries: Seq<(String, Vec<usize>)>, entry: (String, Vec<usize>), path: Seq<char>, line: usize)
    ensures
        entries_cover(entries.push(entry), path, line) <==> entries_cover(entries, path, line) || entry_covers(
            entry,
            path,
            line,
        ),
{
    let more = entries.push(entry);
    if entries_cover(more, path, line) {
        let k = choose|k: int| 0 <= k < more.len() && entry_covers(#[trigger] more[k], path, line);
        if k < entries.len() {
            assert(entry_covers(entries[k], path, line));
        }
    }
    if entries_cover(entries, path, line) {
        let k = choose|k: int| 0 <= k < entries.len() && entry_covers(#[trigger] entries[k], path, line);
        assert(entry_covers(more[k], path, line));
    }
    if entry_covers(entry, path, line) {
        assert(entry_covers(more[entries.len() as int], path, line));
    }
}

/// The lines of the segments that were executed.
fn lines_that_ran(segments: &Vec<Segment>) -> (r: Vec<usize>)
    ensures
        forall|line: usize|
            r@.contains(line) <==> exists|j: int|
                0 <= j < segments@.len() && (#[trigger] segments@[j]).ran() && segments@[j].line == line,
{
    let mut r: Vec<usize> = Vec::new();
    for i in 0..segments.len()
        invariant
            forall|line: usize|
                r@.contains(line) <==> exists|j: int|
                    0 <= j < i && (#[trigger] segments@[j]).ran() && segments@[j].line == line,
    {
        let ghost before = r@;
        if segments[i].has_count && segments[i].count > 0 {
            r.push(segments[i].line);
        }
        proof {
            let now = r@;
            assert forall|line: usize|
                now.contains(line) <==> exists|j: int|
                    0 <= j < i + 1 && (#[trigger] segments@[j]).ran() && segments@[j].line == line by {
                if now.contains(line) {
                    let k = choose|k: int| 0 <= k < now.len() && now[k] == line;
                    if k < before.len() {
                        assert(before[k] == line);
                        assert(before.contains(line));
                    } else {
                        assert(segments@[i as int].ran());
                    }
                }
                if exists|j: int| 0 <= j < i + 1 && (#[trigger] segments@[j]).ran() && segments@[j].line == line {
                    let j = choose|j: int|
                        0 <= j < i + 1 && (#[trigger] segments@[j]).ran() && segments@[j].line == line;
                    if j < i {
                        assert(before.contains(line));
                        let k = choose|k: int| 0 <= k < before.len() && before[k] == line;
                        assert(now[k] == line);
                    } else {
                        assert(now[before.len() as int] == line);
                    }
                }
            }
        }
    }
    r
}

/// The models of some optional paths.
pub open spec fn optional_texts(paths: Seq<Option<String>>) -> Seq<Option<Seq<char>>> {
    Seq::new(paths.len(), |i: int| mutant::optional_text(paths[i]))
}

impl LineCoverage {
    /// Build coverage from what an export says of some files, given the path of each relative to the tree. A file
    /// without such a path is outside the tree and can't hold mutants.
    pub fn from_relative_files(files: &Vec<ExportFile>, relatives: &Vec<Option<String>>) -> (r: LineCoverage)
        requires
            files@.len() == relatives@.len(),
        ensures
            forall|path: Seq<char>, line: usize|
                r@.contains((path, line)) <==> export_ran(files@, optional_texts(relatives@), path, line),
    {
        let mut covered: Vec<(String, Vec<usize>)> = Vec::new();
        let ghost relative_paths = optional_texts(relatives@);
        for i in 0..files.len()
            invariant
                files@.len() == relatives@.len(),
                relative_paths == optional_texts(relatives@),
                forall|k: int| 0 <= k < covered@.len() ==> (#[trigger] covered@[k]).1@.len() > 0,
                forall|path: Seq<char>, line: usize| #[trigger]
                    entries_cover(covered@, path, line) <==> export_ran(files@.take(i as int), relative_paths, path, line),
        {
            let ghost before = covered@;
            if let Some(relative) = &relatives[i] {
                let lines = lines_that_ran(&files[i].segments);
                let ghost ran = lines@;
                if lines.len() > 0 {
                    covered.push((relative.clone(), lines));
                } else {
                    assert(forall|line: usize| !ran.contains(line));
                }
                proof {
                    assert forall|path: Seq<char>, line: usize| #[trigger]
                        entries_cover(covered@, path, line) <==> export_ran(files@.take(i + 1), relative_paths, path, line) by {
                        lemma_export_ran_extends(files@, relative_paths, i as int, path, line);
                        assert(entries_cover(before, path, line) <==> export_ran(
                            files@.take(i as int),
                            relative_paths,
                            path,
                            line,
                        ));
                        assert(relative_paths[i as int] == Some(relative@));
                        assert(ran.contains(line) <==> exists|j: int|
                            0 <= j < files@[i as int].segments@.len() && (#[trigger] files@[i as int].segments@[j]).ran()
                                && files@[i as int].segments@[j].line == line);
                        if ran.len() > 0 {
                            let entry = covered@[before.len() as int];
                            assert(covered@ =~= before.push(entry));
                            lemma_one_more_entry(before, entry, path, line);
                        } else {
                            assert(!ran.contains(line));
                        }
                    }
                }
            } else {
                proof {
                    assert forall|path: Seq<char>, line: usize| #[trigger]
                        entries_cover(covered@, path, line) <==> export_ran(files@.take(i + 1), relative_paths, path, line) by {
                        lemma_export_ran_extends(files@, relative_paths, i as int, path, line);
                    }
                }
            }
        }
        assert(files@.take(files@.len() as int) =~= files@);
        let r = LineCoverage { covered };
        proof {
            assert forall|path: Seq<char>, line: usize| r@.contains((path, line)) <==> export_ran(
                files@,
                relative_paths,
                path,
                line,
            ) by {
                assert(r@.contains((path, line)) <==> entries_cover(r.covered@, path, line));
            }
        }
        r
    }
}

/// One more file adds the lines of it that ran.
proof fn lemma_export_ran_extends(
    files: Seq<ExportFile>,
    relatives: Seq<Option<Seq<char>>>,
    i: int,
    path: Seq<char>,
    line: usize,
)
    requires
        0 <= i < files.len(),
    ensures
        export_ran(files.take(i + 1), relatives, path, line) <==> export_ran(files.take(i), relatives, path, line) || (
        relatives[i] == Some(path) && exists|j: int|
            0 <= j < files[i].segments@.len() && (#[trigger] files[i].segments@[j]).ran() && files[i].segments@[j].line
                == line),
{
    let longer = files.take(i + 1);
    let shorter = files.take(i);
    if export_ran(longer, relatives, path, line) {
        let (a, b) = choose|a: int, b: int|
            0 <= a < longer.len() && 0 <= b < longer[a].segments@.len() && relatives[a] == Some(path) && (
            #[trigger] longer[a].segments@[b]).ran() && longer[a].segments@[b].line == line;
        if a < i {
            assert(shorter[a].segments@[b].ran());
        } else {
            assert(files[i].segments@[b].ran());
        }
    }
    if export_ran(shorter, relatives, path, line) {
        let (a, b) = choose|a: int, b: int|
            0 <= a < shorter.len() && 0 <= b < shorter[a].segments@.len() && relatives[a] == Some(path) && (
            #[trigger] shorter[a].segments@[b]).ran() && shorter[a].segments@[b].line == line;
        assert(longer[a].segments@[b].ran());
    }
    if relatives[i] == Some(path) && exists|j: int|
        0 <= j < files[i].segments@.len() && (#[trigger] files[i].segments@[j]).ran() && files[i].segments@[j].line
            == line {
        let j = choose|j: int|
            0 <= j < files[i].segments@.len() && (#[trigger] files[i].segments@[j]).ran() && files[i].segments@[j].line
                == line;
        assert(longer[i].segments@[j].ran());
    }
}

/// The first of some optional paths, from the `i`th on, that is there.
pub open spec fn first_relative(relatives: Seq<Option<Seq<char>>>, i: int) -> Option<Seq<char>>
    decreases relatives.len() - i,
{
    if i < 0 || i >= relatives.len() {
        None
    } else if relatives[i] is Some {
        relatives[i]
    } else {
        first_relative(relatives, i + 1)
    }
}

/// That each of some optional paths can be what is left of a path behind one of some directories.
pub open spec fn fit_prefixes(path: Seq<char>, prefixes: Seq<String>, relatives: Seq<Option<Seq<char>>>) -> bool {
    relatives.len() == prefixes.len() && forall|i: int|
        0 <= i < prefixes.len() ==> paths::strips(path, (#[trigger] prefixes[i])@, relatives[i])
}

/// That `relative` can be what is left of a path behind the first of some directories that it lies in.
pub open spec fn fits_relative(path: Seq<char>, prefixes: Seq<String>, relative: Option<Seq<char>>) -> bool {
    exists|relatives: Seq<Option<Seq<char>>>| #[trigger]
        fit_prefixes(path, prefixes, relatives) && relative == first_relative(relatives, 0)
}

/// There is no first path if none is there.
proof fn lemma_no_relative(relatives: Seq<Option<Seq<char>>>, i: int)
    requires
        0 <= i,
        forall|j: int| i <= j < relatives.len() ==> (#[trigger] relatives[j]) is None,
    ensures
        first_relative(relatives, i) is None,
    decreases relatives.len() - i,
{
    if i < relatives.len() {
        lemma_no_relative(relatives, i + 1);
    }
}

/// The path relative to the first of some directories that it lies in.
fn relative_path(path: &str, prefixes: &Vec<String>) -> (r: Option<String>)
    ensures
        fits_relative(path@, prefixes@, mutant::optional_text(r)),
{
    let mut first: Option<String> = None;
    let ghost mut relatives: Seq<Option<Seq<char>>> = Seq::empty();
    for i in 0..prefixes.len()
        invariant
            relatives.len() == i,
            forall|j: int| 0 <= j < i ==> paths::strips(path@, (#[trigger] prefixes@[j])@, relatives[j]),
            mutant::optional_text(first) == first_relative(relatives, 0),
    {
        let relative = strip_prefix(path, prefixes[i].as_str());
        let ghost before = relatives;
        proof {
            relatives = relatives.push(mutant::optional_text(relative));
            lemma_first_of_more(before, mutant::optional_text(relative), 0);
        }
        if first.is_none() {
            first = relative;
        }
    }
    proof {
        assert(fit_prefixes(path@, prefixes@, relatives));
    }
    first
}

/// One more path counts if none was there before.
proof fn lemma_first_of_more(relatives: Seq<Option<Seq<char>>>, next: Option<Seq<char>>, i: int)
    requires
        0 <= i <= relatives.len(),
    ensures
        first_relative(relatives.push(next), i) == (match first_relative(relatives, i) {
            Some(relative) => Some(relative),
            None => next,
        }),
    decreases relatives.len() - i,
{
    let more = relatives.push(next);
    if i < relatives.len() {
        assert(more[i] == relatives[i]);
        lemma_first_of_more(relatives, next, i + 1);
    } else {
        assert(first_relative(more, i + 1) is None);
    }
}

/// That a path lies in none of the first `n` of some directories, all of them with slashes only.
pub open spec fn outside_of(path: Seq<char>, prefixes: Seq<String>, n: int) -> bool {
    forall|i: int|
        0 <= i < n ==> paths::slashes_only(path) && paths::slashes_only((#[trigger] prefixes[i])@) && paths::behind(
            paths::components(path),
            paths::components(prefixes[i]@),
        ) is None
}

/// A file whose path is one of the directories with a slash and more behind it, and that lies in none of those before, has
/// what stands behind the slash as its path within the tree, and is the same file as that. A file in none of the directories
/// has no such path.
pub proof fn files_in_the_build_directory_count(
    path: Seq<char>,
    prefixes: Seq<String>,
    relative: Option<Seq<char>>,
    n: int,
    rest: Seq<char>,
)
    requires
        fits_relative(path, prefixes, relative),
    ensures
        0 <= n < prefixes.len() && outside_of(path, prefixes, n) && prefixes[n]@.len() > 0 && paths::workable(prefixes[n]@)
            && !paths::doubled(path) && paths::starts_with_name(rest) && path == prefixes[n]@ + "/"@ + rest ==> {
            &&& relative is Some
            &&& paths::is_front(relative->0, rest)
            &&& paths::components(relative->0) == paths::components(rest)
            &&& paths::slashes_only(rest) ==> !paths::fits_same(relative->0, rest, false)
        },
        outside_of(path, prefixes, prefixes.len() as int) ==> relative is None,
{
    let relatives = choose|relatives: Seq<Option<Seq<char>>>| #[trigger]
        fit_prefixes(path, prefixes, relatives) && relative == first_relative(relatives, 0);
    assert forall|j: int| 0 <= j < relatives.len() && outside_of(path, prefixes, j + 1) implies (
    #[trigger] relatives[j]) is None by {
        assert(paths::strips(path, prefixes[j]@, relatives[j]));
    }
    if outside_of(path, prefixes, prefixes.len() as int) {
        assert forall|j: int| 0 <= j < relatives.len() implies (#[trigger] relatives[j]) is None by {
            assert(outside_of(path, prefixes, j + 1));
        }
        lemma_no_relative(relatives, 0);
    }
    if 0 <= n < prefixes.len() && outside_of(path, prefixes, n) && prefixes[n]@.len() > 0 && paths::workable(prefixes[n]@)
        && !paths::doubled(path) && paths::starts_with_name(rest) && path == prefixes[n]@ + "/"@ + rest {
        assert(paths::strips(path, prefixes[n]@, relatives[n]));
        assert forall|j: int| 0 <= j < n implies (#[trigger] relatives[j]) is None by {
            assert(outside_of(path, prefixes, j + 1));
        }
        lemma_first_relative(relatives, 0, n);
        if paths::slashes_only(rest) {
            paths::lemma_front_with_slashes(relative->0, rest);
            if paths::fits_same(relative->0, rest, false) {
                paths::lemma_same_with_slashes(relative->0, rest, false);
            }
        }
    }
}

/// The first path that is there counts.
proof fn lemma_first_relative(relatives: Seq<Option<Seq<char>>>, i: int, n: int)
    requires
        0 <= i <= n < relatives.len(),
        forall|j: int| i <= j < n ==> (#[trigger] relatives[j]) is None,
        relatives[n] is Some,
    ensures
        first_relative(relatives, i) == relatives[n],
    decreases n - i,
{
    if i < n {
        lemma_first_relative(relatives, i + 1, n);
    }
}

/// The directories that the paths of an export can lie in: the build directory and, where it is another, its real path.
///
/// Whether it is another is decided as the machine compares paths.
pub fn build_dir_prefixes(build_dir: &str, canonical: Option<&str>) -> (r: Vec<String>)
    ensures
        match canonical {
            Some(link_target) => {
                ||| text::texts(r@) == seq![build_dir@] && paths::fits_same(link_target@, build_dir@, true)
                ||| text::texts(r@) == seq![build_dir@, link_target@] && paths::fits_same(link_target@, build_dir@, false)
            },
            None => text::texts(r@) == seq![build_dir@],
        },
{
    let mut r: Vec<String> = Vec::new();
    r.push(build_dir.to_owned());
    if let Some(link_target) = canonical {
        if !same_path(link_target, build_dir) {
            r.push(link_target.to_owned());
            assert(text::texts(r@) =~= seq![build_dir@, link_target@]);
            return r;
        }
    }
    assert(text::texts(r@) =~= seq![build_dir@]);
    r
}

/// That each file of an export can have the path relative to the tree that is given for it.
pub open spec fn fit_export(files: Seq<ExportFile>, prefixes: Seq<String>, relatives: Seq<Option<Seq<char>>>) -> bool {
    relatives.len() == files.len() && forall|i: int|
        0 <= i < relatives.len() ==> fits_relative(files[i].filename@, prefixes, #[trigger] relatives[i])
}

impl LineCoverage {
    /// Build coverage from what `llvm-cov export` wrote.
    ///
    /// Paths in the export are absolute, as `rustc` saw them while compiling, so they are made relative to the build
    /// directory to match the paths mutants carry. `rustc` records the real path, which is not textually the build
    /// dir's path when a parent directory is a symlink, so the canonical form of the build dir is accepted as a prefix
    /// too: `prefixes` are both. Files under none of them are outside the tree.
    pub fn from_export(files: &Vec<ExportFile>, prefixes: &Vec<String>) -> (r: LineCoverage)
        ensures
            exists|relatives: Seq<Option<Seq<char>>>| #[trigger]
                fit_export(files@, prefixes@, relatives) && forall|path: Seq<char>, line: usize|
                    r@.contains((path, line)) <==> #[trigger] export_ran(files@, relatives, path, line),
    {
        let mut relatives: Vec<Option<String>> = Vec::new();
        for i in 0..files.len()
            invariant
                relatives@.len() == i,
                forall|j: int|
                    0 <= j < i ==> fits_relative(
                        files@[j].filename@,
                        prefixes@,
                        mutant::optional_text(#[trigger] relatives@[j]),
                    ),
        {
            relatives.push(relative_path(files[i].filename.as_str(), prefixes));
        }
        let r = LineCoverage::from_relative_files(files, &relatives);
        proof {
            let models = optional_texts(relatives@);
            assert forall|i: int| 0 <= i < models.len() implies fits_relative(
                files@[i].filename@,
                prefixes@,
                #[trigger] models[i],
            ) by {
                assert(models[i] == mutant::optional_text(relatives@[i]));
            }
            assert(fit_export(files@, prefixes@, models));
        }
        r
    }
}

/// Paths to the LLVM tools that read coverage data.
///
/// These ship with the toolchain in the `llvm-tools` component, next to `rustc`'s target libraries, so they always match the
/// compiler that generated the counters. A copy found on `$PATH` might not.
pub struct LlvmTools {
    pub profdata: String,
    pub cov: String,
}

/// The file name of a tool.
pub open spec fn tool_name(name: Seq<char>, windows: bool) -> Seq<char> {
    if windows {
        name + ".exe"@
    } else {
        name
    }
}

/// Where a tool is, given the path of the directory of `rustc`'s target libraries.
pub open spec fn tool_path(libdir: Seq<char>, name: Seq<char>, windows: bool) -> Seq<char> {
    paths::under(paths::under(paths::directory(libdir), "bin"@), tool_name(name, windows))
}

/// The path of a tool in a directory.
fn tool_in(bin: &str, name: &str, windows: bool) -> (r: String)
    ensures
        paths::workable(bin@) && paths::joinable(tool_name(name@, windows)) ==> paths::joins(
            bin@,
            tool_name(name@, windows),
            r@,
        ),
{
    let mut file = name.to_owned();
    if windows {
        file.push_str(".exe");
    }
    join_path(bin, file.as_str())
}

impl LlvmTools {
    /// The tools that belong to the directory of `rustc`'s target libraries, if that is in another directory.
    ///
    /// Where they are is stated if that directory has a plain name behind a slash, up to what does not change where a path
    /// leads.
    pub fn beside(libdir: &str, windows: bool) -> (r: Result<LlvmTools, String>)
        ensures
            r matches Err(message) ==> message@ == "target-libdir "@ + libdir@ + " has no parent"@,
            libdir@.len() == 0 || libdir@ == "/"@ ==> r is Err,
            paths::located(libdir@) ==> {
                &&& r is Ok
                &&& paths::components(r->Ok_0.profdata@) == paths::components(tool_path(libdir@, "llvm-profdata"@, windows))
                &&& paths::components(r->Ok_0.cov@) == paths::components(tool_path(libdir@, "llvm-cov"@, windows))
            },
    {
        let parent = match parent_directory(libdir) {
            Some(parent) => parent,
            None => {
                proof {
                    paths::lemma_last_separator(libdir@);
                }
                let mut message = "target-libdir ".to_owned();
                message.push_str(libdir);
                message.push_str(" has no parent");
                return Err(message);
            },
        };
        let bin = join_path(parent.as_str(), "bin");
        let profdata = tool_in(bin.as_str(), "llvm-profdata", windows);
        let cov = tool_in(bin.as_str(), "llvm-cov", windows);
        proof {
            if paths::located(libdir@) {
                paths::lemma_directory(libdir@, parent@);
                lemma_tools_beside(libdir@, parent@, bin@, profdata@, cov@, windows);
            }
        }
        Ok(LlvmTools { profdata, cov })
    }

    /// What to say if one of the tools is not there, given of each whether it is.
    pub fn missing(&self, profdata_is_file: bool, cov_is_file: bool) -> (r: Option<String>)
        ensures
            mutant::optional_text(r) == (if !profdata_is_file {
                Some(missing_tool(self.profdata@))
            } else if !cov_is_file {
                Some(missing_tool(self.cov@))
            } else {
                None
            }),
    {
        let tool = if !profdata_is_file {
            &self.profdata
        } else if !cov_is_file {
            &self.cov
        } else {
            return None;
        };
        let mut message = tool.clone();
        message.push_str(
            " not found: --skip-uncovered needs the llvm-tools component, so run `rustup component add llvm-tools`",
        );
        Some(message)
    }
}

/// What is said of a tool that is not there.
pub open spec fn missing_tool(tool: Seq<char>) -> Seq<char> {
    tool
        + " not found: --skip-uncovered needs the llvm-tools component, so run `rustup component add llvm-tools`"@
}

/// The tools are where they should be.
proof fn lemma_tools_beside(
    libdir: Seq<char>,
    parent: Seq<char>,
    bin: Seq<char>,
    profdata: Seq<char>,
    cov: Seq<char>,
    windows: bool,
)
    requires
        paths::workable(parent),
        paths::components(parent) == paths::components(paths::directory(libdir)),
        paths::joinable("bin"@) ==> paths::joins(parent, "bin"@, bin),
        paths::workable(bin) && paths::joinable(tool_name("llvm-profdata"@, windows)) ==> paths::joins(
            bin,
            tool_name("llvm-profdata"@, windows),
            profdata,
        ),
        paths::workable(bin) && paths::joinable(tool_name("llvm-cov"@, windows)) ==> paths::joins(
            bin,
            tool_name("llvm-cov"@, windows),
            cov,
        ),
    ensures
        paths::components(profdata) == paths::components(tool_path(libdir, "llvm-profdata"@, windows)),
        paths::components(cov) == paths::components(tool_path(libdir, "llvm-cov"@, windows)),
{
    reveal_strlit("bin");
    reveal_strlit("llvm-profdata");
    reveal_strlit("llvm-cov");
    reveal_strlit(".exe");
    assert(paths::joinable("bin"@));
    paths::lemma_joined_path(parent, "bin"@, bin);
    paths::lemma_under_same(parent, paths::directory(libdir), "bin"@);
    let first = tool_name("llvm-profdata"@, windows);
    let second = tool_name("llvm-cov"@, windows);
    assert(paths::joinable(first));
    assert(paths::joinable(second));
    paths::lemma_joined_path(bin, first, profdata);
    paths::lemma_joined_path(bin, second, cov);
    let there = paths::under(paths::directory(libdir), "bin"@);
    paths::lemma_under_same(bin, there, first);
    paths::lemma_under_same(bin, there, second);
}

/// The paths among the first `n` whose extension, as it is given, is `profraw`.
pub open spec fn profraw_among(files: Seq<Seq<char>>, extensions: Seq<Option<Seq<char>>>, n: int) -> Seq<Seq<char>>
    decreases n,
{
    if n <= 0 {
        Seq::empty()
    } else {
        let before = profraw_among(files, extensions, n - 1);
        if extensions[n - 1] == Some("profraw"@) {
            before.push(files[n - 1])
        } else {
            before
        }
    }
}

/// That each of some files can have the extension that is given for it.
pub open spec fn fit_extensions(files: Seq<Seq<char>>, extensions: Seq<Option<Seq<char>>>) -> bool {
    extensions.len() == files.len() && forall|i: int|
        0 <= i < files.len() ==> paths::fits_extension(#[trigger] files[i], extensions[i])
}

/// The first raw profiles depend on the first extensions.
proof fn lemma_profraw_of_known(
    files: Seq<Seq<char>>,
    known: Seq<Option<Seq<char>>>,
    more: Seq<Option<Seq<char>>>,
    n: int,
)
    requires
        n <= known.len() <= more.len(),
        known == more.take(known.len() as int),
    ensures
        profraw_among(files, known, n) == profraw_among(files, more, n),
    decreases n,
{
    if n > 0 {
        lemma_profraw_of_known(files, known, more, n - 1);
        assert(known[n - 1] == more[n - 1]);
    }
}

/// The raw profiles among the files in a directory, sorted.
///
/// Which extension a file has is stated of plain names, whatever directory they are in.
pub fn raw_profiles(files: &Vec<String>) -> (r: Vec<String>)
    ensures
        text::in_order(text::texts(r@)),
        exists|extensions: Seq<Option<Seq<char>>>| #[trigger]
            fit_extensions(text::texts(files@), extensions) && text::texts(r@).to_multiset() == profraw_among(
                text::texts(files@),
                extensions,
                files@.len() as int,
            ).to_multiset(),
{
    let ghost all = text::texts(files@);
    let mut raws: Vec<String> = Vec::new();
    let ghost mut extensions: Seq<Option<Seq<char>>> = Seq::empty();
    assert(text::texts(raws@) =~= profraw_among(all, extensions, 0));
    for i in 0..files.len()
        invariant
            all == text::texts(files@),
            extensions.len() == i,
            forall|j: int| 0 <= j < i ==> paths::fits_extension(#[trigger] all[j], extensions[j]),
            text::texts(raws@) == profraw_among(all, extensions, i as int),
    {
        let ghost before = raws@;
        let extension = file_extension(files[i].as_str());
        let is_raw = match &extension {
            Some(extension) => same_text(extension.as_str(), "profraw"),
            None => false,
        };
        if is_raw {
            raws.push(files[i].clone());
        }
        proof {
            let known = extensions;
            extensions = extensions.push(mutant::optional_text(extension));
            assert(known =~= extensions.take(known.len() as int));
            lemma_profraw_of_known(all, known, extensions, i as int);
            if is_raw {
                assert(text::texts(raws@) =~= text::texts(before).push(all[i as int]));
            }
        }
    }
    proof {
        assert(fit_extensions(all, extensions));
    }
    text::sort_texts(&raws)
}

/// The arguments with which `llvm-profdata` merges raw profiles from a directory into one file, if there are any.
pub fn merge_args(profraw_dir: &str, raws: &Vec<String>, profdata_path: &str) -> (r: Result<Vec<String>, String>)
    ensures
        match r {
            Ok(args) => raws@.len() > 0 && text::texts(args@) == seq!["merge"@, "-sparse"@] + text::texts(raws@)
                + seq!["-o"@, profdata_path@],
            Err(message) => raws@.len() == 0 && message@ == "no .profraw files were written to "@ + profraw_dir@
                + ": the baseline tests ran no instrumented binary"@,
        },
{
    if raws.len() == 0 {
        let mut message = "no .profraw files were written to ".to_owned();
        message.push_str(profraw_dir);
        message.push_str(": the baseline tests ran no instrumented binary");
        return Err(message);
    }
    let mut args: Vec<String> = Vec::new();
    args.push("merge".to_owned());
    args.push("-sparse".to_owned());
    let mut more = text::copy_texts(raws);
    let ghost copied = more@;
    args.append(&mut more);
    args.push("-o".to_owned());
    args.push(profdata_path.to_owned());
    proof {
        let expected = seq!["merge"@, "-sparse"@] + text::texts(raws@) + seq!["-o"@, profdata_path@];
        assert(text::texts(copied) == text::texts(raws@));
        assert(copied.len() == raws@.len()) by {
            assert(text::texts(copied).len() == text::texts(raws@).len());
        }
        assert forall|i: int| 0 <= i < args@.len() implies #[trigger] args@[i]@ == expected[i] by {
            if 2 <= i < 2 + copied.len() {
                assert(args@[i] == copied[i - 2]);
                assert(text::texts(copied)[i - 2] == text::texts(raws@)[i - 2]);
            }
        }
        assert(text::texts(args@) =~= expected);
    }
    Ok(args)
}

/// The arguments with which `llvm-cov` exports the counters of some test binaries.
///
/// Without any test binary, coverage can't be measured.
pub fn export_args(profdata_path: &str, binaries: &Vec<String>) -> (r: Result<Vec<String>, String>)
    ensures
        match r {
            Ok(args) => binaries@.len() > 0 && text::texts(args@) == seq![
                "export"@,
                "--instr-profile"@,
                profdata_path@,
                "--format=text"@,
            ] + text::texts(binaries@),
            Err(message) => binaries@.len() == 0 && message@
                == "no test binaries were built, so coverage can't be measured"@,
        },
{
    if binaries.len() == 0 {
        return Err("no test binaries were built, so coverage can't be measured".to_owned());
    }
    let mut args: Vec<String> = Vec::new();
    args.push("export".to_owned());
    args.push("--instr-profile".to_owned());
    args.push(profdata_path.to_owned());
    args.push("--format=text".to_owned());
    let mut more = text::copy_texts(binaries);
    let ghost copied = more@;
    args.append(&mut more);
    proof {
        let expected = seq!["export"@, "--instr-profile"@, profdata_path@, "--format=text"@] + text::texts(binaries@);
        assert(copied.len() == binaries@.len()) by {
            assert(text::texts(copied).len() == text::texts(binaries@).len());
        }
        assert forall|i: int| 0 <= i < args@.len() implies #[trigger] args@[i]@ == expected[i] by {
            if 4 <= i {
                assert(args@[i] == copied[i - 4]);
                assert(text::texts(copied)[i - 4] == text::texts(binaries@)[i - 4]);
            }
        }
        assert(text::texts(args@) =~= expected);
    }
    Ok(args)
}

/// Where the instrumented test run in a build directory writes its profiles.
///
/// Where that is is stated of build directories behind which others can be put everywhere, up to what does not change where
/// a path leads.
pub fn profile_directory(build_dir: &str) -> (r: String)
    ensures
        build_dir@.len() > 0 && paths::workable(build_dir@) ==> paths::components(r@) == paths::components(
            build_dir@ + "/target/mutants-coverage"@,
        ),
{
    let target = join_path(build_dir, "target");
    let dir = join_path(target.as_str(), "mutants-coverage");
    proof {
        if build_dir@.len() > 0 && paths::workable(build_dir@) {
            reveal_strlit("target");
            reveal_strlit("mutants-coverage");
            reveal_strlit("/");
            reveal_strlit("/target/mutants-coverage");
            assert(paths::joinable("target"@));
            assert(paths::joinable("mutants-coverage"@));
            let first = paths::under(build_dir@, "target"@);
            paths::lemma_joined_path(build_dir@, "target"@, target@);
            paths::lemma_joined_path(target@, "mutants-coverage"@, dir@);
            paths::lemma_under_same(target@, first, "mutants-coverage"@);
            assert(paths::under(first, "mutants-coverage"@) =~= build_dir@ + "/target/mutants-coverage"@);
        }
    }
    dir
}

/// The file in a directory of raw profiles that they are merged into.
pub fn merged_profile(profraw_dir: &str) -> (r: String)
    ensures
        paths::workable(profraw_dir@) ==> paths::joins(profraw_dir@, "merged.profdata"@, r@),
{
    proof {
        reveal_strlit("merged.profdata");
        assert(paths::joinable("merged.profdata"@));
    }
    join_path(profraw_dir, "merged.profdata")
}

/// The environment a cargo test run needs to write coverage profiles into a directory.
///
/// `%p` and `%m` in the template for the names of the files give each process and each binary its own file, which matters
/// because a test run starts one process per test binary.
pub fn instrumented_env(profraw_dir: &str, encoded_rustflags: Option<&str>) -> (r: Vec<(String, String)>)
    ensures
        r@.len() == 2,
        paths::workable(profraw_dir@) ==> paths::joins(profraw_dir@, "%p-%m.profraw"@, r@[0].1@),
        cargo::variable_models(r@) == seq![
            ("LLVM_PROFILE_FILE"@, r@[0].1@),
            (
                "CARGO_ENCODED_RUSTFLAGS"@,
                match encoded_rustflags {
                    Some(flags) if flags@.len() > 0 => flags@ + "\x1f"@ + "-Cinstrument-coverage"@,
                    _ => "-Cinstrument-coverage"@,
                },
            ),
        ],
{
    let mut rustflags = match encoded_rustflags {
        Some(flags) => flags.to_owned(),
        None => String::new(),
    };
    if !rustflags.as_str().is_empty() {
        rustflags.push_str("\x1f");
    }
    let ghost before = rustflags@;
    rustflags.push_str("-Cinstrument-coverage");
    assert(before.len() == 0 ==> rustflags@ =~= "-Cinstrument-coverage"@);
    proof {
        reveal_strlit("%p-%m.profraw");
        assert(paths::joinable("%p-%m.profraw"@));
    }
    let profile_file = join_path(profraw_dir, "%p-%m.profraw");
    let mut env: Vec<(String, String)> = Vec::new();
    env.push(("LLVM_PROFILE_FILE".to_owned(), profile_file));
    env.push(("CARGO_ENCODED_RUSTFLAGS".to_owned(), rustflags));
    assert(cargo::variable_models(env@) =~= seq![
        ("LLVM_PROFILE_FILE"@, profile_file@),
        ("CARGO_ENCODED_RUSTFLAGS"@, rustflags@),
    ]);
    env
}

/// The raw profiles among some files are those called `.profraw`, and no others.
pub proof fn raw_profiles_are_known_by_their_extension(
    files: Seq<Seq<char>>,
    extensions: Seq<Option<Seq<char>>>,
    n: int,
    path: Seq<char>,
)
    requires
        0 <= n <= files.len(),
        files.len() == extensions.len(),
    ensures
        profraw_among(files, extensions, n).contains(path) <==> exists|i: int|
            0 <= i < n && #[trigger] files[i] == path && extensions[i] == Some("profraw"@),
    decreases n,
{
    if n > 0 {
        raw_profiles_are_known_by_their_extension(files, extensions, n - 1, path);
        let before = profraw_among(files, extensions, n - 1);
        let after = profraw_among(files, extensions, n);
        if extensions[n - 1] == Some("profraw"@) {
            assert(after[before.len() as int] == files[n - 1]);
            if before.contains(path) {
                let i = choose|i: int| 0 <= i < before.len() && before[i] == path;
                assert(after[i] == path);
            }
            if after.contains(path) {
                let i = choose|i: int| 0 <= i < after.len() && after[i] == path;
                if i < before.len() {
                    assert(before[i] == path);
                }
            }
        }
    }
}

/// A line of a file in the tree ran exactly if a segment that starts on it was counted and executed, whichever of the files of
/// an export it belongs to; a segment without a count, or with a count of zero, says nothing.
pub proof fn lines_run_by_their_segments(
    files: Seq<ExportFile>,
    relatives: Seq<Option<Seq<char>>>,
    path: Seq<char>,
    line: usize,
)
    ensures
        export_ran(files, relatives, path, line) <==> exists|i: int, j: int|
            0 <= i < files.len() && 0 <= j < files[i].segments@.len() && relatives[i] == Some(path) && (
            #[trigger] files[i].segments@[j]).line == line && files[i].segments@[j].has_count && files[i].segments@[j].count
                > 0,
{
    if export_ran(files, relatives, path, line) {
        let (i, j) = choose|i: int, j: int|
            0 <= i < files.len() && 0 <= j < files[i].segments@.len() && relatives[i] == Some(path) && (
            #[trigger] files[i].segments@[j]).ran() && files[i].segments@[j].line == line;
        assert(files[i].segments@[j].line == line);
    }
    if exists|i: int, j: int|
        0 <= i < files.len() && 0 <= j < files[i].segments@.len() && relatives[i] == Some(path) && (
        #[trigger] files[i].segments@[j]).line == line && files[i].segments@[j].has_count && files[i].segments@[j].count > 0 {
        let (i, j) = choose|i: int, j: int|
            0 <= i < files.len() && 0 <= j < files[i].segments@.len() && relatives[i] == Some(path) && (
            #[trigger] files[i].segments@[j]).line == line && files[i].segments@[j].has_count && files[i].segments@[j].count
                > 0;
        assert(files[i].segments@[j].ran());
    }
}

/// The tools stand in the `bin` directory beside the libraries, as programs of the machine.
pub proof fn tools_stand_beside_the_libraries(parent: Seq<char>, libraries: Seq<char>, name: Seq<char>)
    requires
        parent.len() > 0,
        forall|i: int| 0 <= i < libraries.len() ==> !paths::is_separator(#[trigger] libraries[i]),
    ensures
        tool_path(parent + "/"@ + libraries, name, false) == parent + "/"@ + "bin"@ + "/"@ + name,
        tool_path(parent + "/"@ + libraries, name, true) == parent + "/"@ + "bin"@ + "/"@ + (name + ".exe"@),
{
    reveal_strlit("/");
    reveal_strlit("bin");
    let libdir = parent + "/"@ + libraries;
    assert(libdir[parent.len() as int] == '/');
    assert forall|j: int| parent.len() < j < libdir.len() implies !paths::is_separator(#[trigger] libdir[j]) by {
        assert(libdir[j] == libraries[j - parent.len() - 1]);
    }
    paths::lemma_last_separator_is(libdir, parent.len() as int);
    assert(libdir.take(parent.len() as int) =~= parent);
    assert(paths::directory(libdir) == parent);
}

/// All raw profiles are merged into one file, in order, and merging none is an error.
pub proof fn all_raw_profiles_are_merged(
    profraw_dir: &str,
    raws: &Vec<String>,
    profdata_path: &str,
    args: Result<Vec<String>, String>,
)
    requires
        call_ensures(merge_args, (profraw_dir, raws, profdata_path), args),
    ensures
        args is Ok <==> raws@.len() > 0,
        args matches Ok(args) ==> {
            &&& args@.len() == raws@.len() + 4
            &&& args@[0]@ == "merge"@ && args@[1]@ == "-sparse"@
            &&& forall|i: int| 0 <= i < raws@.len() ==> args@[2 + i]@ == (#[trigger] raws@[i])@
            &&& args@[raws@.len() as int + 2]@ == "-o"@ && args@[raws@.len() as int + 3]@ == profdata_path@
        },
{
    if args is Ok {
        let given = text::texts(args->Ok_0@);
        let all = seq!["merge"@, "-sparse"@] + text::texts(raws@) + seq!["-o"@, profdata_path@];
        assert(given.len() == all.len());
        assert(given[0] == all[0] && given[1] == all[1]);
        assert(given[raws@.len() as int + 2] == all[raws@.len() as int + 2] && given[raws@.len() as int + 3] == all[raws@.len() as int + 3]);
        assert forall|i: int| 0 <= i < raws@.len() implies args->Ok_0@[2 + i]@ == (#[trigger] raws@[i])@ by {
            assert(given[2 + i] == all[2 + i]);
            assert(all[2 + i] == text::texts(raws@)[i]);
        }
    }
}

/// The counters of all test binaries are exported from the merged profile, and exporting those of none is an error.
pub proof fn all_binaries_are_exported(profdata_path: &str, binaries: &Vec<String>, args: Result<Vec<String>, String>)
    requires
        call_ensures(export_args, (profdata_path, binaries), args),
    ensures
        args is Ok <==> binaries@.len() > 0,
        args matches Ok(args) ==> {
            &&& args@.len() == binaries@.len() + 4
            &&& args@[0]@ == "export"@ && args@[1]@ == "--instr-profile"@ && args@[2]@ == profdata_path@ && args@[3]@
                == "--format=text"@
            &&& forall|i: int| 0 <= i < binaries@.len() ==> args@[4 + i]@ == (#[trigger] binaries@[i])@
        },
{
    if args is Ok {
        let given = text::texts(args->Ok_0@);
        let all = seq!["export"@, "--instr-profile"@, profdata_path@, "--format=text"@] + text::texts(binaries@);
        assert(given.len() == all.len());
        assert(given[0] == all[0] && given[1] == all[1] && given[2] == all[2] && given[3] == all[3]);
        assert forall|i: int| 0 <= i < binaries@.len() implies args->Ok_0@[4 + i]@ == (#[trigger] binaries@[i])@ by {
            assert(given[4 + i] == all[4 + i]);
            assert(all[4 + i] == text::texts(binaries@)[i]);
        }
    }
}

/// An instrumented test run writes profiles and is compiled to count, with the flags that it would have had anyway in front.
pub proof fn instrumented_runs_keep_their_flags(profraw_dir: &str, flags: Option<&str>, env: Vec<(String, String)>)
    requires
        call_ensures(instrumented_env, (profraw_dir, flags), env),
    ensures
        env@.len() == 2,
        env@[0].0@ == "LLVM_PROFILE_FILE"@,
        env@[1].0@ == "CARGO_ENCODED_RUSTFLAGS"@,
        flags matches Some(given) && given@.len() > 0 ==> env@[1].1@ == flags->0@ + "\x1f"@ + "-Cinstrument-coverage"@,
        flags is None ==> env@[1].1@ == "-Cinstrument-coverage"@,
{
    let models = cargo::variable_models(env@);
    assert(models[0] == (env@[0].0@, env@[0].1@));
    assert(models[1] == (env@[1].0@, env@[1].1@));
}

/// A segment whose fields are missing counts for nothing: not as a line of a file, not as executed.
pub proof fn missing_fields_count_for_nothing(
    line: Option<u64>,
    count: Option<u64>,
    has_count: Option<bool>,
    segment: Segment,
)
    requires
        call_ensures(Segment::from_fields, (line, count, has_count), segment),
    ensures
        segment.ran() <==> has_count == Some(true) && (count matches Some(n) && n > 0),
        line is None ==> segment.line == 0,
        line matches Some(n) && n <= usize::MAX ==> segment.line == line->0,
{
}

/// A line that was recorded of the very path that is asked for is covered, and a line that was recorded of no path is not.
pub proof fn recorded_lines_are_covered(pairs: Set<(Seq<char>, usize)>, path: Seq<char>, line: usize, covered: bool)
    requires
        fits_coverage(pairs, path, line, covered),
    ensures
        pairs.contains((path, line)) ==> covered,
        (forall|recorded: Seq<char>| !#[trigger] pairs.contains((recorded, line))) ==> !covered,
{
    if pairs.contains((path, line)) && !covered {
        assert(paths::fits_same(path, path, false));
    }
}

} // verus!
