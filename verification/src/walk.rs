//! Walking all the files of a source tree: which files are visited, in which order, and what is kept of them.
//!
//! Walking the tree starts with some root files known to the build tool: e.g. for cargo they are identified from the
//! targets. The walk then follows `mod` statements to visit other referenced files.

use vstd::prelude::*;
use crate::list;
use crate::mutant::{Mutant, MutantModel};
use crate::source::{Package, SourceFile, SourceModel};
use crate::text;
use crate::text::same_text;

verus! {

/// The models of some files.
pub open spec fn file_models(files: Seq<SourceFile>) -> Seq<SourceModel> {
    Seq::new(files.len(), |i: int| files[i]@)
}

/// Mutants and files discovered in a source tree.
///
/// Files are listed separately so that we can represent files that were visited but that produced no mutants.
pub struct Discovered {
    pub mutants: Vec<Mutant>,
    pub files: Vec<SourceFile>,
}

/// The mutants among the first `n` whose name is not one of `caught`.
pub open spec fn not_caught(mutants: Seq<MutantModel>, caught: Seq<Seq<char>>, n: int) -> Seq<MutantModel>
    decreases n,
{
    if n <= 0 {
        Seq::empty()
    } else {
        let before = not_caught(mutants, caught, n - 1);
        if caught.contains(mutants[n - 1].name_text(true)) {
            before
        } else {
            before.push(mutants[n - 1])
        }
    }
}

/// That every mutant has a name.
pub open spec fn all_describable(mutants: Seq<Mutant>) -> bool {
    forall|i: int| 0 <= i < mutants.len() ==> (#[trigger] mutants[i])@.describable()
}

/// Whether a name is one of some names.
fn contains_name(names: &Vec<String>, name: &str) -> (r: bool)
    ensures
        r == text::texts(names@).contains(name@),
{
    for i in 0..names.len()
        invariant
            forall|j: int| 0 <= j < i ==> (#[trigger] names@[j])@ != name@,
    {
        if same_text(names[i].as_str(), name) {
            assert(text::texts(names@)[i as int] == name@);
            return true;
        }
    }
    false
}

impl Discovered {
    /// Nothing discovered yet.
    pub fn new() -> (r: Discovered)
        ensures
            r.mutants@.len() == 0,
            r.files@.len() == 0,
    {
        Discovered { mutants: Vec::new(), files: Vec::new() }
    }

    /// Add what was discovered in another package.
    pub fn add_package(&mut self, mut mutants: Vec<Mutant>, mut files: Vec<SourceFile>)
        ensures
            final(self).mutants@ == old(self).mutants@ + mutants@,
            final(self).files@ == old(self).files@ + files@,
    {
        self.mutants.append(&mut mutants);
        self.files.append(&mut files);
    }

    /// Drop the mutants that were caught before, by name.
    pub fn remove_previously_caught(&mut self, previously_caught: &Vec<String>)
        requires
            all_describable(old(self).mutants@),
        ensures
            list::mutant_models(final(self).mutants@) == not_caught(
                list::mutant_models(old(self).mutants@),
                text::texts(previously_caught@),
                old(self).mutants@.len() as int,
            ),
            all_describable(final(self).mutants@),
            final(self).files == old(self).files,
    {
        let ghost all = self.mutants@;
        let ghost caught = text::texts(previously_caught@);
        let mut mutants: Vec<Mutant> = Vec::new();
        std::mem::swap(&mut mutants, &mut self.mutants);
        let mut kept: Vec<Mutant> = Vec::new();
        for mutant in it: mutants
            invariant
                it.seq() == all,
                all_describable(all),
                all_describable(kept@),
                caught == text::texts(previously_caught@),
                list::mutant_models(kept@) == not_caught(list::mutant_models(all), caught, it.index() as int),
        {
            assert(mutant == all[it.index() as int]);
            let name = mutant.full_name();
            if !contains_name(previously_caught, name.as_str()) {
                let ghost before = kept@;
                kept.push(mutant);
                assert(list::mutant_models(kept@) =~= list::mutant_models(before).push(mutant@));
            }
        }
        self.mutants = kept;
    }
}

/// What is left of the first `n` mutants are those among them that were not caught.
proof fn lemma_not_caught(mutants: Seq<MutantModel>, caught: Seq<Seq<char>>, n: int, m: MutantModel)
    requires
        0 <= n <= mutants.len(),
    ensures
        not_caught(mutants, caught, n).contains(m) <==> !caught.contains(m.name_text(true)) && exists|i: int|
            0 <= i < n && #[trigger] mutants[i] == m,
    decreases n,
{
    if n > 0 {
        lemma_not_caught(mutants, caught, n - 1, m);
        let before = not_caught(mutants, caught, n - 1);
        let after = not_caught(mutants, caught, n);
        let last = mutants[n - 1];
        if !caught.contains(last.name_text(true)) {
            assert(after[before.len() as int] == last);
            if after.contains(m) && last != m {
                let i = choose|i: int| 0 <= i < after.len() && after[i] == m;
                assert(before[i] == m);
            }
            if before.contains(m) {
                let i = choose|i: int| 0 <= i < before.len() && before[i] == m;
                assert(after[i] == m);
            }
        }
    }
}

/// No mutant that is left was caught before, and every mutant that was not caught is left.
pub proof fn only_caught_mutants_are_removed(mutants: Seq<MutantModel>, caught: Seq<Seq<char>>, m: MutantModel)
    ensures
        not_caught(mutants, caught, mutants.len() as int).contains(m) <==> mutants.contains(m) && !caught.contains(
            m.name_text(true),
        ),
{
    lemma_not_caught(mutants, caught, mutants.len() as int, m);
}

/// What walking one file yields.
pub struct WalkedFile {
    pub source_file: SourceFile,
    pub mutants: Vec<Mutant>,
    /// The files that the `mod` statements in this file refer to, as far as they were found, in order.
    pub mod_files: Vec<String>,
    /// Whether the options allow mutants in this file.
    pub allowed: bool,
}

/// What was found in a package so far, and the files that wait to be walked, each with whether it is a top source file.
#[verifier::ext_equal]
pub ghost struct WalkModel {
    pub mutants: Seq<MutantModel>,
    pub files: Seq<SourceModel>,
    pub pending: Seq<(Seq<char>, bool)>,
}

/// Some paths, none of which is a top source file.
pub open spec fn lower_files(paths: Seq<Seq<char>>) -> Seq<(Seq<char>, bool)> {
    Seq::new(paths.len(), |i: int| (paths[i], false))
}

/// Some paths, each with whether it is a top source file.
pub open spec fn pending_models(pending: Seq<(String, bool)>) -> Seq<(Seq<char>, bool)> {
    Seq::new(pending.len(), |i: int| (pending[i].0@, pending[i].1))
}

impl WalkModel {
    /// What is known once one more file has been walked.
    ///
    /// We walk down through files that are not allowed, so that we have a chance to find modules underneath them. However, we
    /// don't keep any mutants from them, and they don't count as seen.
    pub open spec fn with_file(self, walked: Option<WalkedFile>) -> WalkModel {
        match walked {
            // The path leads out of the tree.
            None => self,
            Some(file) => WalkModel {
                mutants: if file.allowed {
                    self.mutants + list::mutant_models(file.mutants@)
                } else {
                    self.mutants
                },
                files: if file.allowed {
                    self.files.push(file.source_file@)
                } else {
                    self.files
                },
                pending: self.pending + lower_files(text::texts(file.mod_files@)),
            },
        }
    }

    /// What is known once the first `n` of some files have been walked.
    pub open spec fn with_files(self, walked: Seq<Option<WalkedFile>>, n: int) -> WalkModel
        decreases n,
    {
        if n <= 0 {
            self
        } else {
            self.with_files(walked, n - 1).with_file(walked[n - 1])
        }
    }
}

/// The walk of one package, starting from its top files.
///
/// Files whose `mod` statements have not been followed yet are handled one breadth-first level at a time, so that the files
/// in a level can be walked concurrently while preserving the discovery order a serial walk produces.
pub struct PackageWalk {
    mutants: Vec<Mutant>,
    files: Vec<SourceFile>,
    pending: Vec<(String, bool)>,
}

impl View for PackageWalk {
    type V = WalkModel;

    closed spec fn view(&self) -> WalkModel {
        WalkModel {
            mutants: list::mutant_models(self.mutants@),
            files: file_models(self.files@),
            pending: pending_models(self.pending@),
        }
    }
}

impl PackageWalk {
    /// The walk of a package before any file has been walked: all the top source files wait.
    pub fn new(package: &Package) -> (r: PackageWalk)
        ensures
            r@ == (WalkModel {
                mutants: Seq::empty(),
                files: Seq::empty(),
                pending: Seq::new(package@.top_sources.len(), |i: int| (package@.top_sources[i], true)),
            }),
    {
        let mut pending: Vec<(String, bool)> = Vec::new();
        for i in 0..package.top_sources.len()
            invariant
                pending@.len() == i,
                forall|j: int|
                    0 <= j < i ==> (#[trigger] pending@[j]).0@ == package.top_sources@[j]@ && pending@[j].1,
        {
            pending.push((package.top_sources[i].clone(), true));
        }
        let r = PackageWalk { mutants: Vec::new(), files: Vec::new(), pending };
        proof {
            let expected = WalkModel {
                mutants: Seq::empty(),
                files: Seq::empty(),
                pending: Seq::new(package@.top_sources.len(), |i: int| (package@.top_sources[i], true)),
            };
            assert(r@.pending =~= expected.pending);
            assert(r@ =~= expected);
        }
        r
    }

    /// Take the files that wait, to walk them.
    pub fn take_level(&mut self) -> (r: Vec<(String, bool)>)
        ensures
            pending_models(r@) == old(self)@.pending,
            final(self)@ == (WalkModel { pending: Seq::empty(), ..old(self)@ }),
    {
        let mut level: Vec<(String, bool)> = Vec::new();
        std::mem::swap(&mut level, &mut self.pending);
        assert(pending_models(self.pending@) =~= Seq::empty());
        level
    }

    /// Add what walking one file yielded; none if its path leads out of the tree.
    pub fn add_file(&mut self, walked: Option<WalkedFile>)
        ensures
            final(self)@ == old(self)@.with_file(walked),
    {
        let ghost before = *self;
        if let Some(mut file) = walked {
            for i in 0..file.mod_files.len()
                invariant
                    self.mutants == before.mutants,
                    self.files == before.files,
                    pending_models(self.pending@) == before@.pending + lower_files(
                        text::texts(file.mod_files@).take(i as int),
                    ),
            {
                let ghost earlier = self.pending@;
                self.pending.push((file.mod_files[i].clone(), false));
                assert(pending_models(self.pending@) =~= before@.pending + lower_files(
                    text::texts(file.mod_files@).take(i + 1),
                )) by {
                    let paths = text::texts(file.mod_files@);
                    assert(pending_models(self.pending@) =~= pending_models(earlier).push((paths[i as int], false)));
                    assert(lower_files(paths.take(i + 1)) =~= lower_files(paths.take(i as int)).push(
                        (paths[i as int], false),
                    ));
                }
            }
            let ghost mutants = file.mutants@;
            let ghost source_file = file.source_file;
            let ghost mod_files = file.mod_files@;
            proof {
                assert(text::texts(mod_files).take(mod_files.len() as int) =~= text::texts(mod_files));
            }
            if file.allowed {
                self.mutants.append(&mut file.mutants);
                self.files.push(file.source_file);
                proof {
                    assert(list::mutant_models(self.mutants@) =~= list::mutant_models(before.mutants@)
                        + list::mutant_models(mutants));
                    assert(file_models(self.files@) =~= file_models(before.files@).push(source_file@));
                }
            }
            assert(self@ =~= before@.with_file(walked));
        }
    }

    /// Add what walking a level yielded, in the order of the level.
    pub fn add_level(&mut self, walked: Vec<Option<WalkedFile>>)
        ensures
            final(self)@ == old(self)@.with_files(walked@, walked@.len() as int),
    {
        let ghost before = self@;
        let ghost all = walked@;
        for outcome in it: walked
            invariant
                it.seq() == all,
                self@ == before.with_files(all, it.index() as int),
        {
            assert(outcome == all[it.index() as int]);
            self.add_file(outcome);
        }
    }

    /// The mutants and files that were found.
    pub fn finish(self) -> (r: (Vec<Mutant>, Vec<SourceFile>))
        ensures
            list::mutant_models(r.0@) == self@.mutants,
            file_models(r.1@) == self@.files,
    {
        (self.mutants, self.files)
    }
}

/// Which of the files of a level are walked at the moment.
///
/// At most a given number of files are ever in flight: rather than finishing a whole chunk before starting the next one, a
/// replacement is started the moment any file in flight finishes, keeping the window full until the level runs out.
pub struct FileWindow {
    n_files: usize,
    concurrency: usize,
    /// The first file that was not started.
    next: usize,
    in_flight: usize,
}

/// The model of a [`FileWindow`].
pub ghost struct WindowModel {
    pub n_files: nat,
    pub concurrency: nat,
    /// How many files were started: they are started in order.
    pub started: nat,
    /// How many of them have finished.
    pub finished: nat,
}

impl WindowModel {
    /// That files finish only after they were started, that there are no others, and that no more of them than allowed are
    /// in flight.
    pub open spec fn within_limits(self) -> bool {
        self.finished <= self.started <= self.n_files && self.started - self.finished <= self.concurrency
    }
}

impl View for FileWindow {
    type V = WindowModel;

    closed spec fn view(&self) -> WindowModel {
        WindowModel {
            n_files: self.n_files as nat,
            concurrency: self.concurrency as nat,
            started: self.next as nat,
            finished: (self.next - self.in_flight) as nat,
        }
    }
}

impl FileWindow {
    #[verifier::type_invariant]
    spec fn window_fits(self) -> bool {
        self.in_flight <= self.next <= self.n_files && self.in_flight <= self.concurrency
    }

    /// Nothing started yet.
    pub fn new(n_files: usize, concurrency: usize) -> (r: FileWindow)
        ensures
            r@ == (WindowModel { n_files: n_files as nat, concurrency: concurrency as nat, started: 0, finished: 0 }),
            r@.within_limits(),
    {
        FileWindow { n_files, concurrency, next: 0, in_flight: 0 }
    }

    /// The next file to start, if there is one and there is room for it.
    pub fn start(&mut self) -> (r: Option<usize>)
        ensures
            final(self)@.within_limits(),
            match r {
                Some(i) => {
                    &&& i == old(self)@.started
                    &&& old(self)@.started < old(self)@.n_files
                    &&& old(self)@.started - old(self)@.finished < old(self)@.concurrency
                    &&& final(self)@ == (WindowModel { started: old(self)@.started + 1, ..old(self)@ })
                },
                None => {
                    &&& final(self)@ == old(self)@
                    &&& (old(self)@.started == old(self)@.n_files || old(self)@.started - old(self)@.finished
                        == old(self)@.concurrency)
                },
            },
    {
        proof {
            use_type_invariant(&*self);
        }
        if self.in_flight < self.concurrency && self.next < self.n_files {
            let i = self.next;
            let next = self.next + 1;
            let in_flight = self.in_flight + 1;
            *self = FileWindow { n_files: self.n_files, concurrency: self.concurrency, next, in_flight };
            Some(i)
        } else {
            None
        }
    }

    /// Whether any file is in flight.
    pub fn is_busy(&self) -> (r: bool)
        ensures
            r == (self@.started > self@.finished),
    {
        proof {
            use_type_invariant(self);
        }
        self.in_flight > 0
    }

    /// One of the files in flight has finished.
    pub fn finish_one(&mut self)
        requires
            old(self)@.started > old(self)@.finished,
        ensures
            final(self)@ == (WindowModel { finished: old(self)@.finished + 1, ..old(self)@ }),
            final(self)@.within_limits(),
    {
        proof {
            use_type_invariant(&*self);
        }
        self.in_flight = self.in_flight - 1;
    }
}

/// Where files may be in flight at all, nothing is left of a level once there is no file to start and none in flight.
pub proof fn an_idle_window_has_finished(window: WindowModel)
    requires
        window.within_limits(),
        window.concurrency > 0,
        window.started == window.n_files || window.started - window.finished == window.concurrency,
        window.started == window.finished,
    ensures
        window.finished == window.n_files,
{
}

/// Caught mutants are removed one by one: what is left keeps its order, a mutant that was not caught stays as often as it was
/// there, and where none was caught nothing changes.
pub proof fn caught_mutants_are_removed_one_by_one(a: Seq<MutantModel>, b: Seq<MutantModel>, caught: Seq<Seq<char>>)
    ensures
        not_caught(a + b, caught, (a + b).len() as int) == not_caught(a, caught, a.len() as int) + not_caught(
            b,
            caught,
            b.len() as int,
        ),
        (forall|i: int| 0 <= i < a.len() ==> !caught.contains((#[trigger] a[i]).name_text(true))) ==> not_caught(
            a,
            caught,
            a.len() as int,
        ) == a,
{
    lemma_not_caught_parts(a, b, caught, b.len() as int);
    if forall|i: int| 0 <= i < a.len() ==> !caught.contains((#[trigger] a[i]).name_text(true)) {
        lemma_none_caught(a, caught, a.len() as int);
        assert(a.take(a.len() as int) =~= a);
    }
}

proof fn lemma_not_caught_parts(a: Seq<MutantModel>, b: Seq<MutantModel>, caught: Seq<Seq<char>>, n: int)
    requires
        0 <= n <= b.len(),
    ensures
        not_caught(a + b, caught, a.len() + n) == not_caught(a, caught, a.len() as int) + not_caught(b, caught, n),
    decreases n,
{
    if n > 0 {
        lemma_not_caught_parts(a, b, caught, n - 1);
        assert((a + b)[a.len() + n - 1] == b[n - 1]);
        assert(not_caught(a + b, caught, a.len() + n) =~= not_caught(a, caught, a.len() as int) + not_caught(b, caught, n));
    } else {
        lemma_not_caught_front(a, a + b, caught, a.len() as int);
        assert(not_caught(a + b, caught, a.len() as int) =~= not_caught(a, caught, a.len() as int) + not_caught(b, caught, 0));
    }
}

proof fn lemma_not_caught_front(a: Seq<MutantModel>, all: Seq<MutantModel>, caught: Seq<Seq<char>>, n: int)
    requires
        0 <= n <= a.len() <= all.len(),
        forall|i: int| 0 <= i < a.len() ==> a[i] == all[i],
    ensures
        not_caught(a, caught, n) == not_caught(all, caught, n),
    decreases n,
{
    if n > 0 {
        lemma_not_caught_front(a, all, caught, n - 1);
    }
}

proof fn lemma_none_caught(a: Seq<MutantModel>, caught: Seq<Seq<char>>, n: int)
    requires
        0 <= n <= a.len(),
        forall|i: int| 0 <= i < a.len() ==> !caught.contains((#[trigger] a[i]).name_text(true)),
    ensures
        not_caught(a, caught, n) == a.take(n),
    decreases n,
{
    if n > 0 {
        lemma_none_caught(a, caught, n - 1);
        assert(!caught.contains(a[n - 1].name_text(true)));
        assert(a.take(n) =~= a.take(n - 1).push(a[n - 1]));
    } else {
        assert(a.take(0) =~= Seq::empty());
    }
}

/// What a level of files adds: the mutants of each file that the options allow, and the file itself, and nothing of the
/// others; but the modules of every file are followed, allowed or not, and none of them counts as a top source file. What was
/// known before stays.
pub proof fn every_file_of_a_level_is_followed(
    before: WalkModel,
    walked: Seq<Option<WalkedFile>>,
    n: int,
    m: MutantModel,
    file: SourceModel,
    waits: (Seq<char>, bool),
)
    requires
        0 <= n <= walked.len(),
    ensures
        ({
            let after = before.with_files(walked, n);
            &&& after.mutants.contains(m) <==> before.mutants.contains(m) || exists|i: int|
                0 <= i < n && (#[trigger] walked[i] matches Some(found) && found.allowed && list::mutant_models(
                    found.mutants@,
                ).contains(m))
            &&& after.files.contains(file) <==> before.files.contains(file) || exists|i: int|
                0 <= i < n && (#[trigger] walked[i] matches Some(found) && found.allowed && found.source_file@ == file)
            &&& after.pending.contains(waits) <==> before.pending.contains(waits) || exists|i: int|
                0 <= i < n && (#[trigger] walked[i] matches Some(found) && !waits.1 && text::texts(
                    found.mod_files@,
                ).contains(waits.0))
            &&& before.mutants.len() <= after.mutants.len() && after.mutants.take(before.mutants.len() as int)
                == before.mutants
            &&& before.files.len() <= after.files.len() && after.files.take(before.files.len() as int) == before.files
            &&& before.pending.len() <= after.pending.len() && after.pending.take(before.pending.len() as int)
                == before.pending
        }),
    decreases n,
{
    if n > 0 {
        every_file_of_a_level_is_followed(before, walked, n - 1, m, file, waits);
        let so_far = before.with_files(walked, n - 1);
        let after = before.with_files(walked, n);
        match walked[n - 1] {
            Some(found) => {
                let mutants = list::mutant_models(found.mutants@);
                let paths = text::texts(found.mod_files@);
                lemma_joined_contains(so_far.mutants, mutants, m);
                lemma_joined_contains(so_far.files, seq![found.source_file@], file);
                assert(so_far.files.push(found.source_file@) =~= so_far.files + seq![found.source_file@]);
                assert(seq![found.source_file@].contains(file) <==> found.source_file@ == file) by {
                    assert(seq![found.source_file@][0] == found.source_file@);
                }
                lemma_joined_contains(so_far.pending, lower_files(paths), waits);
                assert(lower_files(paths).contains(waits) <==> !waits.1 && paths.contains(waits.0)) by {
                    if lower_files(paths).contains(waits) {
                        let i = choose|i: int| 0 <= i < lower_files(paths).len() && lower_files(paths)[i] == waits;
                        assert(paths[i] == waits.0);
                    }
                    if !waits.1 && paths.contains(waits.0) {
                        let i = choose|i: int| 0 <= i < paths.len() && paths[i] == waits.0;
                        assert(lower_files(paths)[i] == waits);
                    }
                }
            },
            None => {},
        }
        assert(after.mutants.take(before.mutants.len() as int) =~= before.mutants) by {
            assert(so_far.mutants.take(before.mutants.len() as int) == before.mutants);
            assert forall|i: int| 0 <= i < before.mutants.len() implies after.mutants[i] == before.mutants[i] by {
                assert(so_far.mutants.take(before.mutants.len() as int)[i] == before.mutants[i]);
            }
        }
        assert(after.files.take(before.files.len() as int) =~= before.files) by {
            assert forall|i: int| 0 <= i < before.files.len() implies after.files[i] == before.files[i] by {
                assert(so_far.files.take(before.files.len() as int)[i] == before.files[i]);
            }
        }
        assert(after.pending.take(before.pending.len() as int) =~= before.pending) by {
            assert forall|i: int| 0 <= i < before.pending.len() implies after.pending[i] == before.pending[i] by {
                assert(so_far.pending.take(before.pending.len() as int)[i] == before.pending[i]);
            }
        }
    } else {
        assert(before.mutants.take(before.mutants.len() as int) =~= before.mutants);
        assert(before.files.take(before.files.len() as int) =~= before.files);
        assert(before.pending.take(before.pending.len() as int) =~= before.pending);
    }
}

proof fn lemma_joined_contains<A>(a: Seq<A>, b: Seq<A>, x: A)
    ensures
        (a + b).contains(x) <==> a.contains(x) || b.contains(x),
{
    let both = a + b;
    if both.contains(x) {
        let i = choose|i: int| 0 <= i < both.len() && both[i] == x;
        if i < a.len() {
            assert(a[i] == x);
        } else {
            assert(b[i - a.len()] == x);
        }
    }
    if a.contains(x) {
        let i = choose|i: int| 0 <= i < a.len() && a[i] == x;
        assert(both[i] == x);
    }
    if b.contains(x) {
        let i = choose|i: int| 0 <= i < b.len() && b[i] == x;
        assert(both[a.len() + i] == x);
    }
}

/// A walk starts with all the top source files of the package, in order, each as a top source file, and with nothing found.
pub proof fn walks_start_at_the_top(package: &Package, walk: PackageWalk, i: int)
    requires
        call_ensures(PackageWalk::new, (package,), walk),
        0 <= i < package.top_sources@.len(),
    ensures
        walk@.mutants.len() == 0,
        walk@.files.len() == 0,
        walk@.pending.len() == package.top_sources@.len(),
        walk@.pending[i] == (package.top_sources@[i]@, true),
{
    assert(package@.top_sources[i] == package.top_sources@[i]@);
}

/// A file that the options allow adds its mutants behind those found before, in order, and itself behind the files seen
/// before; its modules wait behind what waited before. A path out of the tree adds nothing.
pub proof fn files_are_added_in_order(before: WalkModel, file: WalkedFile, i: int, j: int)
    ensures
        ({
            let after = before.with_file(Some(file));
            &&& after.mutants.len() == before.mutants.len() + (if file.allowed {
                file.mutants@.len()
            } else {
                0
            })
            &&& file.allowed && 0 <= i < file.mutants@.len() ==> after.mutants[before.mutants.len() + i] == file.mutants@[i]@
            &&& file.allowed ==> after.files.len() == before.files.len() + 1 && after.files.last() == file.source_file@
            &&& !file.allowed ==> after.files == before.files
            &&& after.pending.len() == before.pending.len() + file.mod_files@.len()
            &&& 0 <= j < file.mod_files@.len() ==> after.pending[before.pending.len() + j] == (file.mod_files@[j]@, false)
        }),
        before.with_file(None) == before,
{
    let after = before.with_file(Some(file));
    if file.allowed && 0 <= i < file.mutants@.len() {
        assert(after.mutants[before.mutants.len() + i] == list::mutant_models(file.mutants@)[i]);
    }
    if 0 <= j < file.mod_files@.len() {
        assert(after.pending[before.pending.len() + j] == lower_files(text::texts(file.mod_files@))[j]);
    }
}

} // verus!
