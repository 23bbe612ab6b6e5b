//! List mutants and files as text or json.

use vstd::prelude::*;
use crate::json;
use crate::json::{json_array, json_object, json_string, push_field, render_json, Json, JsonModel};
use crate::mutant;
use crate::mutant::{Mutant, MutantModel};
use crate::options::Options;
use crate::source::{SourceFile, SourceModel};

verus! {

/// The models of some mutants.
pub open spec fn mutant_models(mutants: Seq<Mutant>) -> Seq<MutantModel> {
    Seq::new(mutants.len(), |i: int| mutants[i]@)
}

/// That every mutant can be listed.
pub open spec fn all_listable(mutants: Seq<Mutant>) -> bool {
    forall|i: int| 0 <= i < mutants.len() ==> (#[trigger] mutants[i])@.listable()
}

/// That every mutant has a diff.
pub open spec fn all_have_diffs(mutants: Seq<Mutant>) -> bool {
    forall|i: int| 0 <= i < mutants.len() ==> (#[trigger] mutants[i])@.has_diff()
}

/// Some mutants as a JSON array.
pub open spec fn mutants_json(mutants: Seq<Mutant>) -> JsonModel {
    JsonModel::Array(Seq::new(mutants.len(), |i: int| mutants[i]@.json()))
}

/// That `shown` is the name of a mutant, in colour or not.
pub open spec fn shows_name(m: MutantModel, show_line_col: bool, colors: bool, shown: Seq<char>) -> bool {
    if colors {
        exists|parts: Seq<Seq<char>>| #[trigger]
            mutant::shows_parts(m.parts(), parts) && shown == m.name_start(show_line_col) + mutant::concatenated(
                parts,
            )
    } else {
        shown == m.name_text(show_line_col)
    }
}

/// That `names` are the names of some mutants, in colour or not.
pub open spec fn shows_names(
    mutants: Seq<Mutant>,
    show_line_col: bool,
    colors: bool,
    names: Seq<Seq<char>>,
) -> bool {
    &&& names.len() == mutants.len()
    &&& forall|i: int|
        0 <= i < mutants.len() ==> shows_name(mutants[i]@, show_line_col, colors, #[trigger] names[i])
}

/// The lines of the first `n` mutants: each name, and perhaps each diff followed by an empty line.
pub open spec fn listing(mutants: Seq<Mutant>, names: Seq<Seq<char>>, diffs: bool, n: int) -> Seq<char>
    decreases n,
{
    if n <= 0 {
        Seq::<char>::empty()
    } else {
        listing(mutants, names, diffs, n - 1) + names[n - 1] + seq!['\n'] + (if diffs {
            mutants[n - 1]@.diff_text() + seq!['\n']
        } else {
            Seq::<char>::empty()
        })
    }
}

/// A slice of mutants, as the array that `--list --json` prints and that `mutants.out/mutants.json` contains.
///
/// Each mutant's keys are sorted when the array is printed, and the sorted order is part of the published
/// format.
pub struct MutantsJson<'a>(pub &'a Vec<Mutant>);

impl MutantsJson<'_> {
    /// The array of all the mutants, each with its diff, if each has one.
    pub fn to_json(&self) -> (r: Option<Json>)
        requires
            all_listable(self.0@),
        ensures
            match r {
                Some(value) => all_have_diffs(self.0@) && json::json_model(value) == mutants_json(self.0@),
                None => !all_have_diffs(self.0@),
            },
    {
        let mutants = self.0;
        let mut items: Vec<Json> = Vec::new();
        for i in 0..mutants.len()
            invariant
                mutants == self.0,
                all_listable(mutants@),
                items@.len() == i,
                forall|j: int| 0 <= j < i ==> (#[trigger] mutants@[j])@.has_diff(),
                forall|j: int| 0 <= j < i ==> json::json_model(#[trigger] items@[j]) == mutants@[j]@.json(),
        {
            match mutants[i].to_json() {
                Some(item) => items.push(item),
                None => return None,
            }
        }
        assert(json::item_models(items@) =~= mutants_json(mutants@)->Array_0);
        Some(json_array(items))
    }
}

/// The lines of some mutants under the given names: each name, and perhaps each diff followed by an empty line.
pub fn list_named(mutants: &Vec<Mutant>, names: &Vec<String>, diffs: bool) -> (r: Option<String>)
    requires
        all_listable(mutants@),
        names@.len() == mutants@.len(),
    ensures
        match r {
            Some(s) => (diffs ==> all_have_diffs(mutants@)) && s@ == listing(
                mutants@,
                crate::text::texts(names@),
                diffs,
                mutants@.len() as int,
            ),
            None => diffs && !all_have_diffs(mutants@),
        },
{
    let ghost shown = crate::text::texts(names@);
    let mut out = String::new();
    for i in 0..mutants.len()
        invariant
            all_listable(mutants@),
            names@.len() == mutants@.len(),
            shown == crate::text::texts(names@),
            diffs ==> forall|j: int| 0 <= j < i ==> (#[trigger] mutants@[j])@.has_diff(),
            out@ == listing(mutants@, shown, diffs, i as int),
    {
        let ghost before = out@;
        out.push_str(names[i].as_str());
        out.push('\n');
        if diffs {
            match mutants[i].cached_diff() {
                Some(diff) => {
                    out.push_str(diff.as_str());
                    out.push('\n');
                },
                None => return None,
            }
        }
        assert(out@ =~= listing(mutants@, shown, diffs, i + 1));
    }
    Some(out)
}

/// Write a list of mutants to `out`, and say whether that was possible: a diff that is asked for can be missing,
/// and then nothing is written.
///
/// The format is controlled by the `emit_json`, `emit_diffs` and `show_line_col` options, and by whether the
/// output shows colors.
pub fn write_mutants(out: &mut String, mutants: &Vec<Mutant>, options: &Options, colors: bool) -> (done: bool)
    requires
        all_listable(mutants@),
    ensures
        done <==> (options.emit_json || options.emit_diffs ==> all_have_diffs(mutants@)),
        !done ==> final(out)@ == old(out)@,
        done && options.emit_json ==> final(out)@ == old(out)@ + json::json_text(mutants_json(mutants@)),
        done && !options.emit_json ==> exists|names: Seq<Seq<char>>| #[trigger]
            shows_names(mutants@, options.show_line_col, colors, names) && final(out)@ == old(out)@ + listing(
                mutants@,
                names,
                options.emit_diffs,
                mutants@.len() as int,
            ),
{
    if options.emit_json {
        match MutantsJson(mutants).to_json() {
            Some(value) => {
                out.push_str(render_json(&value).as_str());
                true
            },
            None => false,
        }
    } else {
        let mut names: Vec<String> = Vec::new();
        for i in 0..mutants.len()
            invariant
                all_listable(mutants@),
                names@.len() == i,
                forall|j: int|
                    0 <= j < i ==> shows_name(mutants@[j]@, options.show_line_col, colors, (#[trigger] names@[j])@),
        {
            if colors {
                names.push(mutants[i].to_styled_string(options.show_line_col));
            } else {
                names.push(mutants[i].name(options.show_line_col));
            }
        }
        proof {
            assert(shows_names(mutants@, options.show_line_col, colors, crate::text::texts(names@)));
        }
        match list_named(mutants, &names, options.emit_diffs) {
            Some(s) => {
                out.push_str(s.as_str());
                true
            },
            None => false,
        }
    }
}

/// A source file in a JSON list.
pub open spec fn file_json(file: SourceModel) -> JsonModel {
    json::object(seq![("path"@, JsonModel::Text(file.path)), ("package"@, JsonModel::Text(file.package.name))])
}

/// Some source files as a JSON array.
pub open spec fn files_json(files: Seq<SourceFile>) -> JsonModel {
    JsonModel::Array(Seq::new(files.len(), |i: int| file_json(files[i]@)))
}

/// The paths of the first `n` files, one to a line.
pub open spec fn file_lines(files: Seq<SourceFile>, n: int) -> Seq<char>
    decreases n,
{
    if n <= 0 {
        Seq::<char>::empty()
    } else {
        (file_lines(files, n - 1) + files[n - 1]@.path).push('\n')
    }
}

/// List the source files as json or text.
pub fn list_files(source_files: &Vec<SourceFile>, options: &Options) -> (r: String)
    ensures
        options.emit_json ==> r@ == json::json_text(files_json(source_files@)),
        !options.emit_json ==> r@ == file_lines(source_files@, source_files@.len() as int),
{
    if options.emit_json {
        let mut items: Vec<Json> = Vec::new();
        for i in 0..source_files.len()
            invariant
                items@.len() == i,
                forall|j: int| 0 <= j < i ==> json::json_model(#[trigger] items@[j]) == file_json(source_files@[j]@),
        {
            let mut fields: Vec<(String, Json)> = Vec::new();
            push_field(&mut fields, "path", json_string(source_files[i].tree_relative_slashes()));
            push_field(&mut fields, "package", json_string(source_files[i].package().name.as_str()));
            assert(json::field_models(fields@) =~= seq![
                ("path"@, JsonModel::Text(source_files@[i as int]@.path)),
                ("package"@, JsonModel::Text(source_files@[i as int]@.package.name)),
            ]);
            items.push(json_object(fields));
        }
        assert(json::item_models(items@) =~= files_json(source_files@)->Array_0);
        render_json(&json_array(items))
    } else {
        let mut r = String::new();
        for i in 0..source_files.len()
            invariant
                r@ == file_lines(source_files@, i as int),
        {
            r.push_str(source_files[i].tree_relative_slashes());
            r.push('\n');
        }
        r
    }
}

/// Mutants are listed one by one: the list of some and then some others is the list of the first and then that of the others.
pub proof fn mutants_are_listed_one_by_one(
    a: Seq<Mutant>,
    b: Seq<Mutant>,
    a_names: Seq<Seq<char>>,
    b_names: Seq<Seq<char>>,
    diffs: bool,
)
    requires
        a.len() == a_names.len(),
        b.len() == b_names.len(),
    ensures
        listing(a + b, a_names + b_names, diffs, (a + b).len() as int) == listing(a, a_names, diffs, a.len() as int) + listing(
            b,
            b_names,
            diffs,
            b.len() as int,
        ),
{
    lemma_listing_parts(a, b, a_names, b_names, diffs, b.len() as int);
}

proof fn lemma_listing_parts(
    a: Seq<Mutant>,
    b: Seq<Mutant>,
    a_names: Seq<Seq<char>>,
    b_names: Seq<Seq<char>>,
    diffs: bool,
    n: int,
)
    requires
        a.len() == a_names.len(),
        b.len() == b_names.len(),
        0 <= n <= b.len(),
    ensures
        listing(a + b, a_names + b_names, diffs, a.len() + n) == listing(a, a_names, diffs, a.len() as int) + listing(
            b,
            b_names,
            diffs,
            n,
        ),
    decreases n,
{
    if n > 0 {
        lemma_listing_parts(a, b, a_names, b_names, diffs, n - 1);
        assert((a + b)[a.len() + n - 1] == b[n - 1]);
        assert((a_names + b_names)[a.len() + n - 1] == b_names[n - 1]);
        assert(listing(a + b, a_names + b_names, diffs, a.len() + n) =~= listing(a, a_names, diffs, a.len() as int) + listing(
            b,
            b_names,
            diffs,
            n,
        ));
    } else {
        lemma_listing_front(a, a + b, a_names, a_names + b_names, diffs, a.len() as int);
        assert(listing(a, a_names, diffs, a.len() as int) =~= listing(a, a_names, diffs, a.len() as int) + listing(
            b,
            b_names,
            diffs,
            0,
        ));
    }
}

proof fn lemma_listing_front(
    a: Seq<Mutant>,
    all: Seq<Mutant>,
    a_names: Seq<Seq<char>>,
    all_names: Seq<Seq<char>>,
    diffs: bool,
    n: int,
)
    requires
        0 <= n <= a.len() <= all.len(),
        a.len() == a_names.len() <= all_names.len(),
        forall|i: int| 0 <= i < a.len() ==> a[i] == all[i] && a_names[i] == all_names[i],
    ensures
        listing(a, a_names, diffs, n) == listing(all, all_names, diffs, n),
    decreases n,
{
    if n > 0 {
        lemma_listing_front(a, all, a_names, all_names, diffs, n - 1);
        assert(a[n - 1] == all[n - 1]);
    }
}

/// A mutant is listed by its name on a line, with its diff and an empty line behind it if diffs are shown; without colours, the
/// name is the file, the line and column if they are shown, and the description.
pub proof fn a_mutant_is_listed_by_its_name(mutant: Mutant, name: Seq<char>, show_line_col: bool)
    ensures
        listing(seq![mutant], seq![name], false, 1) == name + "\n"@,
        listing(seq![mutant], seq![name], true, 1) == name + "\n"@ + mutant@.diff_text() + "\n"@,
        shows_name(mutant@, false, false, name) <==> name == mutant@.source_file.path + ": "@ + mutant@.description(),
        shows_name(mutant@, true, false, name) <==> name == mutant@.source_file.location(mutant@.span.start) + ": "@
            + mutant@.description(),
{
    reveal_strlit("\n");
    reveal_with_fuel(listing, 2);
    assert(listing(seq![mutant], seq![name], false, 1) =~= name + "\n"@);
    assert(listing(seq![mutant], seq![name], true, 1) =~= name + "\n"@ + mutant@.diff_text() + "\n"@);
}

/// The JSON list of mutants holds each mutant at its place, and that of files the path and the package of each file.
#[verifier::spinoff_prover]
pub proof fn json_lists_everything_in_order(mutants: Seq<Mutant>, files: Seq<SourceFile>, i: int, j: int)
    requires
        0 <= i < mutants.len(),
        0 <= j < files.len(),
    ensures
        mutants_json(mutants) matches JsonModel::Array(items) && items.len() == mutants.len() && items[i]
            == mutants[i]@.json(),
        files_json(files) matches JsonModel::Array(items) && items.len() == files.len() && (items[j]
            matches JsonModel::Object(fields) && fields.dom() == set!["path"@, "package"@] && fields["path"@]
            == JsonModel::Text(files[j]@.path) && fields["package"@] == JsonModel::Text(files[j]@.package.name)),
{
    reveal_strlit("path");
    reveal_strlit("package");
    assert("path"@.len() == 4 && "package"@.len() == 7);
    reveal_with_fuel(json::by_name, 3);
    let fields = file_json(files[j]@)->Object_0;
    assert(fields.dom() =~= set!["path"@, "package"@]);
}

/// Files are listed one by one, each by its path on a line.
pub proof fn files_are_listed_by_their_paths(files: Seq<SourceFile>, file: SourceFile)
    ensures
        file_lines(Seq::<SourceFile>::empty(), 0).len() == 0,
        file_lines(files.push(file), files.len() as int + 1) == file_lines(files, files.len() as int) + file@.path + "\n"@,
{
    reveal_strlit("\n");
    lemma_file_lines_front(files, files.push(file), files.len() as int);
    assert(file_lines(files.push(file), files.len() as int + 1) =~= file_lines(files, files.len() as int) + file@.path + "\n"@);
}

proof fn lemma_file_lines_front(a: Seq<SourceFile>, all: Seq<SourceFile>, n: int)
    requires
        0 <= n <= a.len() <= all.len(),
        forall|i: int| 0 <= i < a.len() ==> a[i] == all[i],
    ensures
        file_lines(a, n) == file_lines(all, n),
    decreases n,
{
    if n > 0 {
        lemma_file_lines_front(a, all, n - 1);
    }
}

} // verus!
