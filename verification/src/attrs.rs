//! Attributes that affect which mutants are generated.

use vstd::prelude::*;
use crate::fnvalue;
use crate::fnvalue::{path_ends_with, path_is_ident};
use crate::span::LineColumn;
use crate::metas;
use crate::parse;
use crate::metas::{
    arg_trees, mentions_name, parse_exclude_re_args, punct_at, read_only_literal, read_path, read_paths, MetaPath, NestedPath,
};
use crate::syntax::{ArgToken, Attr, NameValue};
use crate::text;
use crate::text::same_text;
use crate::tokens;
use crate::tokens::{Delimiter, Tok, TokenTree};
use crate::types::Path;

verus! {

/// That the names in a path are just `a`.
pub open spec fn path_is_one(path: Path, a: Seq<char>) -> bool {
    path.segments@.len() == 1 && path.segments@[0].ident@ == a
}

/// That the names in a path are just `a` and `b`.
pub open spec fn path_is_two(path: Path, a: Seq<char>, b: Seq<char>) -> bool {
    path.segments@.len() == 2 && path.segments@[0].ident@ == a && path.segments@[1].ident@ == b
}

/// The paths that are the arguments of an attribute, with commas between them, if they are nothing else.
pub open spec fn nested_paths(attr: Attr) -> Option<Seq<MetaPath>> {
    match attr.args {
        Ok(args) => if args@.len() == 0 {
            Some(Seq::empty())
        } else {
            metas::meta_paths(args@, 0)
        },
        Err(_) => None,
    }
}

/// That an attribute looks like `#[cfg(test)]`, or is another `#[cfg(..)]` with `test` anywhere in it.
pub open spec fn is_cfg_test(attr: Attr) -> bool {
    path_is_one(attr.path, "cfg"@) && (attr.args matches Ok(args) && metas::mentions(metas::arg_toks(args@), "test"@))
}

/// That an attribute contains `mutants::skip`: it is `#[mutants::skip]`, or `#[cfg_attr(..)]` with that among its
/// arguments, if they are nothing but paths with commas between them. What has another shape is ignored.
pub open spec fn is_mutants_skip(attr: Attr) -> bool {
    path_is_two(attr.path, "mutants"@, "skip"@) || (path_is_one(attr.path, "cfg_attr"@) && (
    nested_paths(attr) matches Some(paths) && exists|i: int|
        0 <= i < paths.len() && (#[trigger] paths[i]).names == seq!["mutants"@, "skip"@]))
}

/// That an attribute asks for the node that carries it to be skipped.
pub open spec fn attr_skips(attr: Attr) -> bool {
    is_cfg_test(attr) || fnvalue::path_ends(attr.path, "test"@) || is_mutants_skip(attr)
}

/// That one of some attributes asks for the node that carries them to be skipped.
pub open spec fn any_attr_skips(attrs: Seq<Attr>) -> bool {
    exists|i: int| 0 <= i < attrs.len() && attr_skips(#[trigger] attrs[i])
}

fn is_path_one(path: &Path, a: &str) -> (r: bool)
    ensures
        r == path_is_one(*path, a@),
{
    path.segments.len() == 1 && same_text(path.segments[0].ident.as_str(), a)
}

fn is_path_two(path: &Path, a: &str, b: &str) -> (r: bool)
    ensures
        r == path_is_two(*path, a@, b@),
{
    path.segments.len() == 2 && same_text(path.segments[0].ident.as_str(), a) && same_text(
        path.segments[1].ident.as_str(),
        b,
    )
}

/// True if a path is `mutants::exclude_re`.
fn is_exclude_re(path: &Path) -> (r: bool)
    ensures
        r == path_is_two(*path, "mutants"@, "exclude_re"@),
{
    is_path_two(path, "mutants", "exclude_re")
}

/// The paths that are the arguments of an attribute, if they are nothing else.
fn argument_paths(attr: &Attr) -> (r: Option<Vec<NestedPath>>)
    ensures
        match r {
            Some(paths) => nested_paths(*attr) == Some(metas::path_models(paths@)),
            None => nested_paths(*attr) is None,
        },
{
    match &attr.args {
        Ok(args) => if args.len() == 0 {
            let paths: Vec<NestedPath> = Vec::new();
            assert(metas::path_models(paths@) =~= Seq::<MetaPath>::empty());
            Some(paths)
        } else {
            read_paths(args)
        },
        Err(_) => None,
    }
}

/// True if the attribute looks like `#[cfg(test)]`, or has "test" anywhere in it.
fn attr_is_cfg_test(attr: &Attr) -> (r: bool)
    ensures
        r == is_cfg_test(*attr),
{
    if !is_path_one(&attr.path, "cfg") {
        return false;
    }
    match &attr.args {
        Ok(args) => mentions_name(&arg_trees(args), "test"),
        Err(_) => false,
    }
}

/// True if the attribute contains `mutants::skip`.
///
/// This for example returns true for `#[mutants::skip]` or `#[cfg_attr(test, mutants::skip)]`.
fn attr_is_mutants_skip(attr: &Attr) -> (r: bool)
    ensures
        r == is_mutants_skip(*attr),
{
    if is_path_two(&attr.path, "mutants", "skip") {
        return true;
    }
    if !is_path_one(&attr.path, "cfg_attr") {
        return false;
    }
    let paths = match argument_paths(attr) {
        Some(paths) => paths,
        None => return false,
    };
    let ghost models = metas::path_models(paths@);
    for i in 0..paths.len()
        invariant
            path_is_one(attr.path, "cfg_attr"@),
            nested_paths(*attr) == Some(models),
            models == metas::path_models(paths@),
            forall|j: int| 0 <= j < i ==> (#[trigger] models[j]).names != seq!["mutants"@, "skip"@],
    {
        assert(models[i as int] == paths@[i as int]@);
        if paths[i].is_two("mutants", "skip") {
            assert(nested_paths(*attr)->0[i as int].names == seq!["mutants"@, "skip"@]);
            return true;
        }
    }
    false
}

/// True if any of the attrs indicate that we should skip this node and everything inside it.
///
/// This checks for `#[cfg(test)]`, attributes whose path ends with `test` (like `#[test]` or `#[tokio::test]`), and
/// `#[mutants::skip]`.
pub fn attrs_excluded(attrs: &Vec<Attr>) -> (r: bool)
    ensures
        r == any_attr_skips(attrs@),
{
    for i in 0..attrs.len()
        invariant
            forall|j: int| 0 <= j < i ==> !attr_skips(#[trigger] attrs@[j]),
    {
        if attr_is_cfg_test(&attrs[i]) || path_ends_with(&attrs[i].path, "test") || attr_is_mutants_skip(&attrs[i]) {
            assert(attr_skips(attrs@[i as int]));
            return true;
        }
    }
    false
}

/// Patterns, or where a malformed attribute is and what is wrong with it.
pub ghost enum PatternsModel {
    Patterns(Seq<Seq<char>>),
    Malformed(LineColumn, Seq<char>),
}

/// A message about a malformed `mutants::exclude_re(..)` inside a `#[cfg_attr(..)]`.
pub open spec fn malformed_inside(start: LineColumn, message: Seq<char>) -> PatternsModel {
    PatternsModel::Malformed(start, "malformed #[mutants::exclude_re(...)] inside cfg_attr: "@ + message)
}

/// The patterns so far, and those of each `mutants::exclude_re("..")` from a position on among the arguments of a
/// `#[cfg_attr(..)]`, up to what is neither a path nor that.
pub open spec fn with_nested(before: Seq<Seq<char>>, args: Seq<ArgToken>, i: int) -> PatternsModel
    decreases args.len() - i,
{
    match metas::meta_path(args, i) {
        None => PatternsModel::Patterns(before),
        Some(path) => {
            proof {
                metas::lemma_path_ends(args, i);
            }
            if path.names != seq!["mutants"@, "exclude_re"@] {
                if i < path.end && path.end + 1 < args.len() && metas::is_punct(args, path.end, ',') {
                    with_nested(before, args, path.end + 1)
                } else {
                    PatternsModel::Patterns(before)
                }
            } else if path.end >= args.len() {
                malformed_inside(args[i].start, "unexpected end of input, expected parentheses"@)
            } else {
                match args[path.end].tree {
                    TokenTree::Group(Delimiter::Parenthesis, inner) => match metas::only_literal(inner@) {
                        Ok(pattern) => {
                            let after = before.push(pattern);
                            if i < path.end && path.end + 2 < args.len() && metas::is_punct(args, path.end + 1, ',') {
                                with_nested(after, args, path.end + 2)
                            } else {
                                PatternsModel::Patterns(after)
                            }
                        },
                        Err(message) => malformed_inside(args[i].start, message),
                    },
                    _ => malformed_inside(args[i].start, "expected parentheses"@),
                }
            }
        },
    }
}

/// The pattern of a direct `#[mutants::exclude_re("...")]`, or what is wrong with it.
pub open spec fn direct_pattern(attr: Attr) -> Result<Seq<char>, Seq<char>> {
    match attr.args {
        Ok(args) => metas::argument_literal(args@),
        Err(message) => Err(message@),
    }
}

/// The patterns of the `#[mutants::exclude_re("...")]` attributes among the first `n`, in order, or the first malformed
/// one.
pub open spec fn patterns_of(attrs: Seq<Attr>, n: int) -> PatternsModel
    decreases n,
{
    if n <= 0 {
        PatternsModel::Patterns(Seq::<Seq<char>>::empty())
    } else {
        let before = patterns_of(attrs, n - 1);
        let attr = attrs[n - 1];
        match before {
            PatternsModel::Patterns(patterns) => {
                if path_is_two(attr.path, "mutants"@, "exclude_re"@) {
                    match direct_pattern(attr) {
                        Ok(pattern) => PatternsModel::Patterns(patterns.push(pattern)),
                        Err(message) => PatternsModel::Malformed(
                            attr.start,
                            "malformed #[mutants::exclude_re(...)] attribute: "@ + message,
                        ),
                    }
                } else if path_is_one(attr.path, "cfg_attr"@) && attr.args is Ok {
                    with_nested(patterns, attr.args->Ok_0@, 0)
                } else {
                    before
                }
            },
            malformed => malformed,
        }
    }
}

/// The patterns of all `#[mutants::exclude_re("...")]` attributes, in order, or the first malformed one.
pub open spec fn exclude_patterns(attrs: Seq<Attr>) -> PatternsModel {
    patterns_of(attrs, attrs.len() as int)
}

/// Appends a pattern.
fn push_pattern(patterns: &mut Vec<String>, pattern: &String)
    ensures
        text::texts(final(patterns)@) == text::texts(old(patterns)@).push(pattern@),
{
    let ghost before = patterns@;
    patterns.push(pattern.clone());
    assert(text::texts(patterns@) =~= text::texts(before).push(pattern@));
}

/// What is known of a malformed attribute does not change.
proof fn lemma_malformed_stays(attrs: Seq<Attr>, n: int, m: int)
    requires
        0 <= n <= m <= attrs.len(),
        patterns_of(attrs, n) is Malformed,
    ensures
        patterns_of(attrs, m) == patterns_of(attrs, n),
    decreases m,
{
    if n < m {
        lemma_malformed_stays(attrs, n, m - 1);
    }
}

/// What is said of a malformed `mutants::exclude_re(..)` inside a `#[cfg_attr(..)]`.
fn malformed_message(message: &str) -> (r: String)
    ensures
        r@ == "malformed #[mutants::exclude_re(...)] inside cfg_attr: "@ + message@,
{
    let mut full = "malformed #[mutants::exclude_re(...)] inside cfg_attr: ".to_owned();
    full.push_str(message);
    full
}

/// Walk a `#[cfg_attr(..., mutants::exclude_re("pat"), ...)]` attribute, appending every found pattern to `patterns`.
///
/// If the `cfg_attr` itself cannot be understood, what is not understood is silently ignored. But a `mutants::exclude_re`
/// inside it whose arguments are malformed is reported as a hard error so users don't think their exclude is in effect when
/// it isn't.
fn collect_exclude_re_from_cfg_attr(args: &Vec<ArgToken>, patterns: &mut Vec<String>) -> (r: Result<
    (),
    (LineColumn, String),
>)
    ensures
        match r {
            Ok(()) => with_nested(text::texts(old(patterns)@), args@, 0) == PatternsModel::Patterns(
                text::texts(final(patterns)@),
            ),
            Err((start, message)) => with_nested(text::texts(old(patterns)@), args@, 0) == PatternsModel::Malformed(
                start,
                message@,
            ),
        },
{
    let n = args.len();
    let mut at: usize = 0;
    loop
        invariant
            n == args@.len(),
            at <= n,
            with_nested(text::texts(old(patterns)@), args@, 0) == with_nested(text::texts(patterns@), args@, at as int),
        decreases n - at,
    {
        let path = match read_path(args, at) {
            Some(path) => path,
            None => return Ok(()),
        };
        proof {
            metas::lemma_path_ends(args@, at as int);
        }
        let mut end: usize = path.end;
        if path.is_two("mutants", "exclude_re") {
            let start = args[at].start;
            if end >= n {
                return Err((start, malformed_message("unexpected end of input, expected parentheses")));
            }
            match &args[end].tree {
                TokenTree::Group(Delimiter::Parenthesis, inner) => match read_only_literal(inner) {
                    Ok(pattern) => push_pattern(patterns, &pattern),
                    Err(message) => return Err((start, malformed_message(message.as_str()))),
                },
                _ => return Err((start, malformed_message("expected parentheses"))),
            }
            end = end + 1;
        }
        if end >= n || !punct_at(args, end, ',') || end + 1 >= n {
            return Ok(());
        }
        at = end + 1;
    }
}

/// Extract regex patterns from `#[mutants::exclude_re("...")]` attributes.
///
/// This also handles `#[cfg_attr(test, mutants::exclude_re("..."))]`, where the cfg condition is ignored (we always look for
/// the attribute, matching the handling of `mutants::skip` within `cfg_attr`).
///
/// Returns the patterns in order if every relevant attribute is well formed, or the location and a message describing the
/// first malformed occurrence.
pub fn attrs_exclude_re_patterns(attrs: &Vec<Attr>) -> (r: Result<Vec<String>, (LineColumn, String)>)
    ensures
        match r {
            Ok(patterns) => exclude_patterns(attrs@) == PatternsModel::Patterns(text::texts(patterns@)),
            Err((start, message)) => exclude_patterns(attrs@) == PatternsModel::Malformed(start, message@),
        },
{
    let mut patterns: Vec<String> = Vec::new();
    assert(text::texts(patterns@) =~= Seq::<Seq<char>>::empty());
    for i in 0..attrs.len()
        invariant
            patterns_of(attrs@, i as int) == PatternsModel::Patterns(text::texts(patterns@)),
    {
        let attr = &attrs[i];
        if is_exclude_re(&attr.path) {
            let pattern = match &attr.args {
                Ok(args) => parse_exclude_re_args(args),
                Err(message) => Err(message.clone()),
            };
            match pattern {
                Ok(pattern) => push_pattern(&mut patterns, &pattern),
                Err(message) => {
                    let mut full = "malformed #[mutants::exclude_re(...)] attribute: ".to_owned();
                    full.push_str(message.as_str());
                    proof {
                        lemma_malformed_stays(attrs@, i + 1, attrs@.len() as int);
                    }
                    return Err((attr.start, full));
                },
            }
        } else if is_path_one(&attr.path, "cfg_attr") {
            if let Ok(args) = &attr.args {
                if let Err(err) = collect_exclude_re_from_cfg_attr(args, &mut patterns) {
                    proof {
                        lemma_malformed_stays(attrs@, i + 1, attrs@.len() as int);
                    }
                    return Err(err);
                }
            }
        }
    }
    Ok(patterns)
}

/// Where to point at when a pattern does not compile: the first attribute from `i` on that can hold patterns.
pub open spec fn pattern_attr_from(attrs: Seq<Attr>, i: int) -> Option<LineColumn>
    decreases attrs.len() - i,
{
    if i < 0 || i >= attrs.len() {
        None
    } else if path_is_two(attrs[i].path, "mutants"@, "exclude_re"@) || path_is_one(attrs[i].path, "cfg_attr"@) {
        Some(attrs[i].start)
    } else {
        pattern_attr_from(attrs, i + 1)
    }
}

/// Where to point at when a pattern does not compile.
pub fn pattern_location(attrs: &Vec<Attr>) -> (r: Option<LineColumn>)
    ensures
        r == pattern_attr_from(attrs@, 0),
{
    let mut i: usize = 0;
    while i < attrs.len()
        invariant
            i <= attrs@.len(),
            pattern_attr_from(attrs@, 0) == pattern_attr_from(attrs@, i as int),
        decreases attrs@.len() - i,
    {
        if is_exclude_re(&attrs[i].path) || is_path_one(&attrs[i].path, "cfg_attr") {
            return Some(attrs[i].start);
        }
        i = i + 1;
    }
    None
}

/// The value of the first `#[path = "..."]` attribute from `i` on.
pub open spec fn path_attribute_from(attrs: Seq<Attr>, i: int) -> Option<Seq<char>>
    decreases attrs.len() - i,
{
    if i < 0 || i >= attrs.len() {
        None
    } else {
        match attrs[i].value {
            NameValue::Text(path) if fnvalue::is_ident(attrs[i].path, "path"@) => Some(path@),
            _ => path_attribute_from(attrs, i + 1),
        }
    }
}

/// That a path starts at the root of the file system.
pub open spec fn is_absolute(path: Seq<char>) -> bool {
    path.len() > 0 && path[0] == '/'
}

/// Finds the first path attribute (`#[path = "..."]`)
///
/// # Errors
/// Returns an error if the path attribute contains a dubious path (leading `/`)
pub fn find_path_attribute(attrs: &Vec<Attr>) -> (r: Result<Option<String>, String>)
    ensures
        match r {
            Ok(Some(path)) => path_attribute_from(attrs@, 0) == Some(path@) && !is_absolute(path@),
            Ok(None) => path_attribute_from(attrs@, 0) is None,
            Err(path) => path_attribute_from(attrs@, 0) == Some(path@) && is_absolute(path@),
        },
{
    let mut i: usize = 0;
    while i < attrs.len()
        invariant
            i <= attrs@.len(),
            path_attribute_from(attrs@, 0) == path_attribute_from(attrs@, i as int),
        decreases attrs@.len() - i,
    {
        match &attrs[i].value {
            NameValue::Text(path) => {
                if path_is_ident(&attrs[i].path, "path") {
                    // refuse to follow absolute paths
                    let chars = text::chars_of(path.as_str());
                    if chars.len() > 0 && chars[0] == '/' {
                        return Err(path.clone());
                    } else {
                        return Ok(Some(path.clone()));
                    }
                }
            },
            _ => {},
        }
        i = i + 1;
    }
    Ok(None)
}

/// Test code is skipped: what carries an attribute whose last name is `test`, such as `#[test]` or `#[tokio::test]`, or a
/// `#[cfg(..)]` that mentions `test` at its top or in a group in it; and so is what carries `#[mutants::skip]`.
pub proof fn tests_and_marked_code_are_skipped(attr: Attr, i: int, j: int)
    ensures
        attr.path.segments@.len() > 0 && attr.path.segments@[attr.path.segments@.len() - 1].ident@ == "test"@ ==> attr_skips(
            attr,
        ),
        attr.path.segments@.len() == 2 && attr.path.segments@[0].ident@ == "mutants"@ && attr.path.segments@[1].ident@
            == "skip"@ ==> attr_skips(attr),
        attr.path.segments@.len() == 1 && attr.path.segments@[0].ident@ == "cfg"@ && (attr.args matches Ok(args) && 0 <= i
            < args@.len() && (args@[i].tree matches TokenTree::Ident(name) && name@ == "test"@)) ==> attr_skips(attr),
        attr.path.segments@.len() == 1 && attr.path.segments@[0].ident@ == "cfg"@ && (attr.args matches Ok(args) && 0 <= i
            < args@.len() && (args@[i].tree matches TokenTree::Group(_, inner) && 0 <= j < inner@.len() && (inner@[j]
            matches TokenTree::Ident(name) && name@ == "test"@))) ==> attr_skips(attr),
{
    if attr.args is Ok && attr.path.segments@.len() == 1 && attr.path.segments@[0].ident@ == "cfg"@ {
        let args = attr.args->Ok_0@;
        let ts = metas::arg_toks(args);
        if 0 <= i < args.len() {
            assert(ts[i] == tokens::tok(args[i].tree));
            match args[i].tree {
                TokenTree::Ident(name) => {
                    if name@ == "test"@ {
                        assert(metas::token_mentions(ts[i], "test"@));
                    }
                },
                TokenTree::Group(_, inner) => {
                    if 0 <= j < inner@.len() {
                        let inside = tokens::toks(inner@);
                        assert(inside[j] == tokens::tok(inner@[j]));
                        assert(ts[i] == Tok::Group(args[i].tree->Group_0, inside));
                        if inner@[j] is Ident && inner@[j]->Ident_0@ == "test"@ {
                            assert(metas::token_mentions(inside[j], "test"@));
                            assert(metas::mentions(inside, "test"@));
                            metas::names_count_however_deep(ts[i], "test"@);
                        }
                    }
                },
                _ => {},
            }
        }
    }
}

/// Nothing else is skipped: not what carries an attribute of another name, and not what carries a `#[cfg(..)]` that mentions
/// no `test` or a `#[cfg_attr(..)]` without `mutants::skip` among its paths.
pub proof fn other_attributes_do_not_skip(attr: Attr)
    requires
        attr.path.segments@.len() == 0 || attr.path.segments@[attr.path.segments@.len() - 1].ident@ != "test"@,
        !(attr.path.segments@.len() == 2 && attr.path.segments@[0].ident@ == "mutants"@ && attr.path.segments@[1].ident@
            == "skip"@),
        attr.path.segments@.len() == 1 && attr.path.segments@[0].ident@ == "cfg"@ ==> (attr.args matches Ok(args)
            ==> !metas::mentions(metas::arg_toks(args@), "test"@)),
        attr.path.segments@.len() == 1 && attr.path.segments@[0].ident@ == "cfg_attr"@ ==> (nested_paths(attr) matches Some(
            paths,
        ) ==> forall|i: int| 0 <= i < paths.len() ==> (#[trigger] paths[i]).names != seq!["mutants"@, "skip"@]),
    ensures
        !attr_skips(attr),
{
}

/// A `#[cfg_attr(condition, mutants::skip)]` skips what carries it, whatever name the condition is, and so does one with a comma
/// behind it.
pub proof fn conditionally_marked_code_is_skipped(attr: Attr)
    requires
        attr.path.segments@.len() == 1,
        attr.path.segments@[0].ident@ == "cfg_attr"@,
        attr.args matches Ok(args) && (args@.len() == 6 || (args@.len() == 7 && metas::is_punct(args@, 6, ','))) && args@[0].tree
            is Ident && metas::is_punct(args@, 1, ',') && (args@[2].tree matches TokenTree::Ident(first) && first@ == "mutants"@)
            && metas::is_colons(args@, 3) && (args@[5].tree matches TokenTree::Ident(second) && second@ == "skip"@),
    ensures
        attr_skips(attr),
{
    let args = attr.args->Ok_0@;
    reveal_with_fuel(metas::names_from, 3);
    assert(metas::names_from(args, 0) == Some((seq![args[0].tree->Ident_0@], 1int)));
    assert(metas::names_from(args, 5) == Some((seq!["skip"@], 6int)));
    assert(seq!["mutants"@] + seq!["skip"@] =~= seq!["mutants"@, "skip"@]);
    assert(metas::names_from(args, 2) == Some((seq!["mutants"@, "skip"@], 6int)));
    assert(!metas::is_colons(args, 0));
    assert(!metas::is_colons(args, 2));
    let first = metas::meta_path(args, 0)->0;
    let second = metas::meta_path(args, 2)->0;
    assert(metas::meta_paths(args, 2) == Some(seq![second]));
    assert(metas::meta_paths(args, 0) == Some(seq![first] + seq![second]));
    let paths = nested_paths(attr)->0;
    assert(paths[1] == second);
}

/// Attributes act one by one: some of them ask to skip if one of them does.
pub proof fn attributes_skip_one_by_one(a: Seq<Attr>, b: Seq<Attr>)
    ensures
        any_attr_skips(a + b) <==> any_attr_skips(a) || any_attr_skips(b),
        !any_attr_skips(Seq::<Attr>::empty()),
{
    let both = a + b;
    if any_attr_skips(both) {
        let i = choose|i: int| 0 <= i < both.len() && attr_skips(#[trigger] both[i]);
        if i < a.len() {
            assert(attr_skips(a[i]));
        } else {
            assert(attr_skips(b[i - a.len()]));
        }
    }
    if any_attr_skips(a) {
        let i = choose|i: int| 0 <= i < a.len() && attr_skips(#[trigger] a[i]);
        assert(attr_skips(both[i]));
    }
    if any_attr_skips(b) {
        let i = choose|i: int| 0 <= i < b.len() && attr_skips(#[trigger] b[i]);
        assert(attr_skips(both[a.len() + i]));
    }
}

/// Each `#[mutants::exclude_re("..")]` adds its pattern behind those of the attributes before it; one that holds anything but
/// one string literal is malformed, and is reported with its place; and an attribute of another name adds nothing.
pub proof fn patterns_are_collected_in_order(attrs: Seq<Attr>, attr: Attr)
    ensures
        exclude_patterns(Seq::<Attr>::empty()) == PatternsModel::Patterns(Seq::<Seq<char>>::empty()),
        exclude_patterns(attrs) is Malformed ==> exclude_patterns(attrs.push(attr)) == exclude_patterns(attrs),
        exclude_patterns(attrs) matches PatternsModel::Patterns(before) ==> {
            let is_direct = attr.path.segments@.len() == 2 && attr.path.segments@[0].ident@ == "mutants"@
                && attr.path.segments@[1].ident@ == "exclude_re"@;
            &&& is_direct && (attr.args matches Ok(args) && args@.len() == 1 && (args@[0].tree matches TokenTree::Literal(
                literal,
            ) && parse::literal_value(literal@) is Some)) ==> exclude_patterns(attrs.push(attr)) == PatternsModel::Patterns(
                before.push(parse::literal_value(attr.args->Ok_0@[0].tree->Literal_0@)->0),
            )
            &&& is_direct && !(attr.args matches Ok(args) && args@.len() == 1 && (args@[0].tree matches TokenTree::Literal(
                literal,
            ) && parse::literal_value(literal@) is Some)) ==> (exclude_patterns(attrs.push(attr))
                matches PatternsModel::Malformed(start, _) && start == attr.start)
            &&& !is_direct && !(attr.path.segments@.len() == 1 && attr.path.segments@[0].ident@ == "cfg_attr"@)
                ==> exclude_patterns(attrs.push(attr)) == exclude_patterns(attrs)
        },
{
    let more = attrs.push(attr);
    lemma_patterns_of_front(attrs, more, attrs.len() as int);
    assert(more[attrs.len() as int] == attr);
    if attr.args is Ok && attr.args->Ok_0@.len() > 0 {
        let first = attr.args->Ok_0@[0].tree;
        assert(first is Literal ==> tokens::tok(first) == Tok::Literal(first->Literal_0@));
    }
}

proof fn lemma_patterns_of_front(a: Seq<Attr>, b: Seq<Attr>, n: int)
    requires
        0 <= n <= a.len() <= b.len(),
        forall|i: int| 0 <= i < a.len() ==> a[i] == b[i],
    ensures
        patterns_of(a, n) == patterns_of(b, n),
    decreases n,
{
    if n > 0 {
        lemma_patterns_of_front(a, b, n - 1);
    }
}

/// A `#[cfg_attr(condition, mutants::exclude_re(".."))]` adds its pattern as if it stood there alone.
pub proof fn conditional_patterns_count(attrs: Seq<Attr>, attr: Attr, before: Seq<Seq<char>>, pattern: Seq<char>)
    requires
        exclude_patterns(attrs) == PatternsModel::Patterns(before),
        attr.path.segments@.len() == 1,
        attr.path.segments@[0].ident@ == "cfg_attr"@,
        attr.args matches Ok(args) && args@.len() == 7 && args@[0].tree is Ident && metas::is_punct(args@, 1, ',') && (
        args@[2].tree matches TokenTree::Ident(first) && first@ == "mutants"@) && metas::is_colons(args@, 3) && (args@[5].tree
            matches TokenTree::Ident(second) && second@ == "exclude_re"@) && (args@[6].tree matches TokenTree::Group(
            Delimiter::Parenthesis,
            inner,
        ) && inner@.len() == 1 && (inner@[0] matches TokenTree::Literal(literal) && parse::literal_value(literal@) == Some(
            pattern,
        ))),
    ensures
        exclude_patterns(attrs.push(attr)) == PatternsModel::Patterns(before.push(pattern)),
{
    let more = attrs.push(attr);
    lemma_patterns_of_front(attrs, more, attrs.len() as int);
    assert(more[attrs.len() as int] == attr);
    let args = attr.args->Ok_0@;
    reveal_with_fuel(metas::names_from, 3);
    assert(metas::names_from(args, 0) == Some((seq![args[0].tree->Ident_0@], 1int)));
    assert(metas::names_from(args, 5) == Some((seq!["exclude_re"@], 6int)));
    assert(seq!["mutants"@] + seq!["exclude_re"@] =~= seq!["mutants"@, "exclude_re"@]);
    assert(metas::names_from(args, 2) == Some((seq!["mutants"@, "exclude_re"@], 6int)));
    assert(!metas::is_colons(args, 0));
    assert(!metas::is_colons(args, 2));
    assert(seq![args[0].tree->Ident_0@].len() != seq!["mutants"@, "exclude_re"@].len());
    let inner = args[6].tree->Group_1;
    assert(tokens::tok(inner@[0]) == Tok::Literal(inner@[0]->Literal_0@));
    assert(metas::only_literal(inner@) == Ok::<Seq<char>, Seq<char>>(pattern));
    assert(with_nested(before, args, 2) == PatternsModel::Patterns(before.push(pattern)));
    assert(with_nested(before, args, 0) == with_nested(before, args, 2));
}

/// The path of a module is the value of its first `#[path = ".."]`; there is none without such an attribute.
pub proof fn the_first_path_counts(attrs: Seq<Attr>, k: int)
    ensures
        0 <= k < attrs.len() && fnvalue::is_ident(attrs[k].path, "path"@) && attrs[k].value is Text && (forall|j: int|
            0 <= j < k ==> !(fnvalue::is_ident((#[trigger] attrs[j]).path, "path"@) && attrs[j].value is Text))
            ==> path_attribute_from(attrs, 0) == Some(attrs[k].value->Text_0@),
        (forall|j: int|
            0 <= j < attrs.len() ==> !(fnvalue::is_ident((#[trigger] attrs[j]).path, "path"@) && attrs[j].value is Text))
            ==> path_attribute_from(attrs, 0) is None,
{
    if 0 <= k < attrs.len() && fnvalue::is_ident(attrs[k].path, "path"@) && attrs[k].value is Text && (forall|j: int|
        0 <= j < k ==> !(fnvalue::is_ident((#[trigger] attrs[j]).path, "path"@) && attrs[j].value is Text)) {
        lemma_first_path(attrs, 0, k);
    }
    if forall|j: int|
        0 <= j < attrs.len() ==> !(fnvalue::is_ident((#[trigger] attrs[j]).path, "path"@) && attrs[j].value is Text) {
        lemma_no_path(attrs, 0);
    }
}

proof fn lemma_first_path(attrs: Seq<Attr>, i: int, k: int)
    requires
        0 <= i <= k < attrs.len(),
        fnvalue::is_ident(attrs[k].path, "path"@),
        attrs[k].value is Text,
        forall|j: int| 0 <= j < k ==> !(fnvalue::is_ident((#[trigger] attrs[j]).path, "path"@) && attrs[j].value is Text),
    ensures
        path_attribute_from(attrs, i) == Some(attrs[k].value->Text_0@),
    decreases k - i,
{
    if i < k {
        lemma_first_path(attrs, i + 1, k);
    }
}

proof fn lemma_no_path(attrs: Seq<Attr>, i: int)
    requires
        0 <= i <= attrs.len(),
        forall|j: int|
            0 <= j < attrs.len() ==> !(fnvalue::is_ident((#[trigger] attrs[j]).path, "path"@) && attrs[j].value is Text),
    ensures
        path_attribute_from(attrs, i) is None,
    decreases attrs.len() - i,
{
    if i < attrs.len() {
        lemma_no_path(attrs, i + 1);
    }
}

/// A path is absolute if it starts with a slash, and only such a path of a module is refused.
pub proof fn only_absolute_paths_are_refused(attrs: &Vec<Attr>, found: Result<Option<String>, String>)
    requires
        call_ensures(find_path_attribute, (attrs,), found),
    ensures
        found is Err <==> (path_attribute_from(attrs@, 0) matches Some(path) && path.len() > 0 && path[0] == '/'),
        found matches Ok(Some(path)) ==> path_attribute_from(attrs@, 0) == Some(path@),
        found == Ok::<Option<String>, String>(None) ==> path_attribute_from(attrs@, 0) is None,
{
}

} // verus!
