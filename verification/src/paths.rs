//! Paths, and what `camino` does with them.
//!
//! What a path means depends on the machine: on some, a backslash separates its components, and a colon stands behind the
//! name of a drive. So what is said here of the functions of `camino` is said of paths that mean the same everywhere, up to
//! what does not change where a path leads: which separator is used, and whether it is repeated or followed by a `.`.

use camino::Utf8Path;
use vstd::prelude::*;
use crate::mutant;

verus! {

/// That a character separates the components of a path, where a backslash does or where it does not.
pub open spec fn separates(c: char, backslash: bool) -> bool {
    c == '/' || (backslash && c == '\\')
}

/// That a character separates the components of a path, on some machine.
#[verifier::inline]
pub open spec fn is_separator(c: char) -> bool {
    separates(c, true)
}

/// Where the last separator of a path stands, or -1 if there is none.
pub open spec fn last_separator_on(path: Seq<char>, backslash: bool) -> int
    decreases path.len(),
{
    if path.len() == 0 {
        -1
    } else if separates(path.last(), backslash) {
        path.len() - 1
    } else {
        last_separator_on(path.drop_last(), backslash)
    }
}

/// Where the last separator of a path stands, whichever it is, or -1 if there is none.
#[verifier::inline]
pub open spec fn last_separator(path: Seq<char>) -> int {
    last_separator_on(path, true)
}

/// What stands behind the last separator of a path, whichever it is.
pub open spec fn base(path: Seq<char>) -> Seq<char> {
    path.skip(last_separator(path) + 1)
}

/// The components of a directory with one more behind them, unless it is empty or `.`.
pub open spec fn with_name(dir: Seq<Seq<char>>, name: Seq<char>) -> Seq<Seq<char>> {
    if name.len() == 0 || name == "."@ {
        dir
    } else {
        dir.push(name)
    }
}

/// The components of a path without a drive, where a backslash separates them or where it does not. An empty one at the front
/// stands for the root, and a `.` is left out unless the path starts with it.
pub open spec fn components_on(path: Seq<char>, backslash: bool) -> Seq<Seq<char>>
    decreases path.len(),
{
    let k = last_separator_on(path, backslash);
    proof {
        lemma_last_separator_on(path, backslash);
    }
    if path.len() == 0 {
        Seq::empty()
    } else if k < 0 {
        seq![path]
    } else if k == 0 {
        with_name(seq![Seq::<char>::empty()], path.skip(k + 1))
    } else {
        with_name(components_on(path.take(k), backslash), path.skip(k + 1))
    }
}

/// The components of a path, whichever separators it has.
#[verifier::inline]
pub open spec fn components(path: Seq<char>) -> Seq<Seq<char>> {
    components_on(path, true)
}

/// The components of a directory with those of a path behind them.
pub open spec fn extended(dir: Seq<Seq<char>>, path: Seq<char>) -> Seq<Seq<char>>
    decreases path.len(),
{
    let k = last_separator(path);
    proof {
        lemma_last_separator_on(path, true);
    }
    if k < 0 {
        with_name(dir, path)
    } else {
        with_name(extended(dir, path.take(k)), base(path))
    }
}

/// That a name can stand between the separators of a path and mean nothing else anywhere.
pub open spec fn plain_component(name: Seq<char>) -> bool {
    &&& name.len() > 0
    &&& name != "."@ && name != ".."@
    &&& !name.contains('/') && !name.contains('\\') && !name.contains(':')
}

/// That a path starts with two separators, behind which a server or something else can be named, or the rest be taken
/// literally.
pub open spec fn doubled(path: Seq<char>) -> bool {
    path.len() >= 2 && is_separator(path[0]) && is_separator(path[1])
}

/// That the last component of a path could be the name of a drive.
pub open spec fn ends_in_drive(path: Seq<char>) -> bool {
    let parts = components(path);
    parts.len() > 0 && parts.last().len() > 0 && parts.last().last() == ':'
}

/// That another path can be put behind a directory, and is then within it.
pub open spec fn workable(dir: Seq<char>) -> bool {
    dir.len() == 0 || (dir[0] != '\\' && !doubled(dir) && !ends_in_drive(dir))
}

/// That a path can be put behind a directory: it is relative, without the name of a drive.
pub open spec fn joinable(path: Seq<char>) -> bool {
    path.len() > 0 && !is_separator(path[0]) && !path.contains(':')
}

/// A path within a directory, with a slash between them.
pub open spec fn under(dir: Seq<char>, path: Seq<char>) -> Seq<char> {
    if dir.len() == 0 {
        path
    } else {
        dir + "/"@ + path
    }
}

/// That a path is another put behind a directory, with one of the separators between them.
pub open spec fn joins(dir: Seq<char>, path: Seq<char>, whole: Seq<char>) -> bool {
    if dir.len() == 0 {
        whole == path
    } else if dir.last() == '/' {
        whole == dir + path
    } else if dir.last() == '\\' {
        whole == dir + path || whole == dir + "/"@ + path
    } else {
        whole == dir + "/"@ + path || whole == dir + "\\"@ + path
    }
}

/// That a path leads to a file with a plain name, behind a slash if there is a separator before it.
pub open spec fn named(path: Seq<char>) -> bool {
    let k = last_separator(path);
    plain_component(base(path)) && !doubled(path) && (k < 0 || path[k] == '/')
}

/// The directory that a file is in: what stands before the last separator, or the root, or nothing.
pub open spec fn directory(path: Seq<char>) -> Seq<char> {
    let k = last_separator(path);
    if k < 0 {
        Seq::empty()
    } else if k == 0 {
        path.take(1)
    } else {
        path.take(k)
    }
}

/// That the directory of a file can be found from its path everywhere.
pub open spec fn located(path: Seq<char>) -> bool {
    named(path) && path[0] != '\\' && !ends_in_drive(directory(path))
}

/// A file name without its extension: what stands before its last dot, unless that is its first character.
pub open spec fn stem(name: Seq<char>) -> Seq<char> {
    if exists|k: int| is_last_dot(name, k) {
        name.take(choose|k: int| is_last_dot(name, k))
    } else {
        name
    }
}

/// That the last dot in a name stands at `k`, behind something else.
pub open spec fn is_last_dot(name: Seq<char>, k: int) -> bool {
    &&& 0 < k < name.len()
    &&& name[k] == '.'
    &&& forall|j: int| k < j < name.len() ==> name[j] != '.'
}

/// The extension of a file name: what stands behind its last dot, unless that is its first character.
pub open spec fn extension(name: Seq<char>) -> Option<Seq<char>> {
    if exists|k: int| is_last_dot(name, k) {
        Some(name.skip(1 + choose|k: int| is_last_dot(name, k)))
    } else {
        None
    }
}

/// That `r` can be the directory of a file: there is none of an empty path and of the root; of a file with a plain name it is
/// a part of the path that leads to where [`directory`] does.
pub open spec fn fits_directory(path: Seq<char>, r: Option<Seq<char>>) -> bool {
    let k = last_separator(path);
    &&& path.len() == 0 || path == "/"@ ==> r is None
    &&& named(path) && k <= 0 ==> r == Some(directory(path))
    &&& named(path) && k > 0 && !ends_in_drive(directory(path)) ==> {
        &&& r is Some
        &&& 0 < r->0.len() <= path.len() && r->0 == path.take(r->0.len() as int)
        &&& components(r->0) == components(directory(path))
    }
}

/// That `r` can be the extension of a file: of a plain name it is that of the name. Where a backslash stands before the name,
/// which can be a part of it, that is said of a name with an extension; of a name without a dot, `r` is none that a file
/// without separators could have.
pub open spec fn fits_extension(path: Seq<char>, r: Option<Seq<char>>) -> bool {
    let k = last_separator(path);
    let name = base(path);
    plain_component(name) && !doubled(path) ==> {
        &&& k < 0 || path[k] == '/' || extension(name) is Some ==> r == extension(name)
        &&& !name.contains('.') ==> (r matches Some(e) ==> e.contains('\\'))
    }
}

/// That a path starts with neither two separators nor a drive.
pub open spec fn unprefixed(path: Seq<char>) -> bool {
    !doubled(path) && (path.len() >= 2 ==> path[1] != ':')
}

/// That a path has only slashes to separate its components, and starts with neither two of them nor a drive.
pub open spec fn slashes_only(path: Seq<char>) -> bool {
    !path.contains('\\') && unprefixed(path)
}

/// That `same` can be whether two paths are the same: they are if they are the same text, and they are, of those without a
/// prefix, if and only if they have the same components, where a backslash separates them or where it does not.
pub open spec fn fits_same(a: Seq<char>, b: Seq<char>, same: bool) -> bool {
    &&& a == b ==> same
    &&& unprefixed(a) && unprefixed(b) ==> exists|backslash: bool|
        same == (#[trigger] components_on(a, backslash) == components_on(b, backslash))
}

/// The components behind those of a directory, if the path lies in it.
pub open spec fn behind(parts: Seq<Seq<char>>, dir: Seq<Seq<char>>) -> Option<Seq<Seq<char>>> {
    if dir.len() <= parts.len() && parts.take(dir.len() as int) == dir {
        Some(parts.skip(dir.len() as int))
    } else {
        None
    }
}

/// That a path starts with the name of a file or a directory.
pub open spec fn starts_with_name(path: Seq<char>) -> bool {
    let parts = components(path);
    parts.len() > 0 && parts[0].len() > 0 && parts[0] != "."@
}

/// That a text starts with another.
pub open spec fn is_front(front: Seq<char>, whole: Seq<char>) -> bool {
    front.len() <= whole.len() && front == whole.take(front.len() as int)
}

/// That `r` can be what is left of a path behind a directory.
///
/// - Of paths with nothing but slashes to separate their components, it is what is left of the components.
/// - Of a directory with a slash and more behind it, it is what stands behind the slash, whatever the directory is called and
///   whatever stands behind it, but for separators and `.` components at the end.
/// - With a backslash in place of the slash, it is that or, where a backslash is a part of a name, nothing.
pub open spec fn strips(path: Seq<char>, dir: Seq<char>, r: Option<Seq<char>>) -> bool {
    &&& slashes_only(path) && slashes_only(dir) ==> match behind(components(path), components(dir)) {
        Some(rest) => r is Some && !r->0.contains('\\') && components(r->0) == rest,
        None => r is None,
    }
    &&& forall|rest: Seq<char>|
        #![trigger starts_with_name(rest)]
        dir.len() > 0 && workable(dir) && !doubled(path) && starts_with_name(rest) && path == dir + "/"@ + rest ==> r is Some
            && is_front(r->0, rest) && components(r->0) == components(rest)
    &&& forall|rest: Seq<char>|
        #![trigger starts_with_name(rest)]
        plain_component(base(dir)) && workable(dir) && starts_with_name(rest) && path == dir + "\\"@ + rest ==> (r is Some
            ==> is_front(r->0, rest) && components(r->0) == components(rest))
}

/// The directory of a file, by `camino::Utf8Path::parent`: the path without its final component, with nothing left of a path
/// of one component, and none where there is no component to take away. What is left is a part of the path.
///
/// Nothing is said of paths whose final component is not a plain name behind a slash, nor of those with a drive before it.
#[verifier::external_body]
pub(crate) fn parent_directory(path: &str) -> (r: Option<String>)
    ensures
        fits_directory(path@, mutant::optional_text(r)),
{
    match Utf8Path::new(path).parent() {
        Some(parent) => Some(parent.as_str().to_owned()),
        None => None,
    }
}

/// A path without the extension of its final component, by `camino::Utf8Path::with_extension` with an empty extension.
///
/// Nothing is said of paths whose final component is not a plain name behind a slash, nor of those where a single dot would
/// be left of it.
#[verifier::external_body]
pub(crate) fn without_extension(path: &str) -> (r: String)
    ensures
        named(path@) && stem(base(path@)) != "."@ ==> r@ == path@.take(last_separator(path@) + 1) + stem(base(path@)),
{
    Utf8Path::new(path).with_extension("").into_string()
}

/// Whether the final component of a path is `name`, by `camino::Utf8Path::ends_with`.
///
/// Nothing is said of paths whose final component is not a plain name behind a slash.
#[verifier::external_body]
pub(crate) fn ends_with_component(path: &str, name: &str) -> (r: bool)
    ensures
        named(path@) && plain_component(name@) ==> r == (base(path@) == name@),
{
    Utf8Path::new(path).ends_with(name)
}

/// A path within a directory, by `camino::Utf8Path::join`, which puts the separator of the machine between them, if there is
/// none at the end of the directory.
///
/// Nothing is said of paths that cannot be put one behind the other everywhere.
#[verifier::external_body]
pub(crate) fn join_path(dir: &str, path: &str) -> (r: String)
    ensures
        workable(dir@) && joinable(path@) ==> joins(dir@, path@, r@),
{
    Utf8Path::new(dir).join(path).into_string()
}

/// The extension of the final component of a path, by `camino::Utf8Path::extension`: what stands behind the last dot of it,
/// if something stands before that dot.
///
/// Nothing is said of paths whose final component is not a plain name, nor of those that start with two separators.
#[verifier::external_body]
pub(crate) fn file_extension(path: &str) -> (r: Option<String>)
    ensures
        fits_extension(path@, mutant::optional_text(r)),
{
    match Utf8Path::new(path).extension() {
        Some(extension) => Some(extension.to_owned()),
        None => None,
    }
}

/// What is left of a path behind a directory that it lies in, by `camino::Utf8Path::strip_prefix`, which compares them
/// component by component and keeps the others as they are.
///
/// Nothing is said of paths with a drive or backslashes that do not start with the directory.
#[verifier::external_body]
pub(crate) fn strip_prefix(path: &str, prefix: &str) -> (r: Option<String>)
    ensures
        strips(path@, prefix@, mutant::optional_text(r)),
{
    match Utf8Path::new(path).strip_prefix(prefix) {
        Ok(relative) => Some(relative.as_str().to_owned()),
        Err(_) => None,
    }
}

/// Whether two paths are the same, by the equality of `camino::Utf8Path`, which compares them component by component.
///
/// Of paths with a drive, and of those that start with two separators, nothing is said but that a path is the same as itself.
#[verifier::external_body]
pub(crate) fn same_path(a: &str, b: &str) -> (r: bool)
    ensures
        fits_same(a@, b@, r),
{
    Utf8Path::new(a) == Utf8Path::new(b)
}

/// Where the last separator is.
pub proof fn lemma_last_separator_on(path: Seq<char>, backslash: bool)
    ensures
        -1 <= last_separator_on(path, backslash) < path.len(),
        last_separator_on(path, backslash) >= 0 ==> separates(path[last_separator_on(path, backslash)], backslash),
        forall|j: int| last_separator_on(path, backslash) < j < path.len() ==> !separates(#[trigger] path[j], backslash),
    decreases path.len(),
{
    if path.len() > 0 && !separates(path.last(), backslash) {
        lemma_last_separator_on(path.drop_last(), backslash);
        let k = last_separator_on(path, backslash);
        assert forall|j: int| k < j < path.len() implies !separates(#[trigger] path[j], backslash) by {
            if j < path.len() - 1 {
                assert(path.drop_last()[j] == path[j]);
            }
        }
    }
}

/// Where the last separator is, whichever it is.
pub(crate) proof fn lemma_last_separator(path: Seq<char>)
    ensures
        -1 <= last_separator(path) < path.len(),
        last_separator(path) >= 0 ==> is_separator(path[last_separator(path)]),
        forall|j: int| last_separator(path) < j < path.len() ==> !is_separator(#[trigger] path[j]),
{
    lemma_last_separator_on(path, true);
}

/// A path without backslashes has the same components everywhere.
pub proof fn paths_with_slashes_are_the_same_everywhere(path: Seq<char>)
    requires
        !path.contains('\\'),
    ensures
        components_on(path, false) == components_on(path, true),
    decreases path.len(),
{
    lemma_last_slash(path);
    lemma_last_separator_on(path, true);
    let k = last_separator_on(path, true);
    if k > 0 {
        let front = path.take(k);
        assert(!front.contains('\\')) by {
            if front.contains('\\') {
                let i = choose|i: int| 0 <= i < front.len() && front[i] == '\\';
                assert(path[i] == '\\');
            }
        }
        paths_with_slashes_are_the_same_everywhere(front);
    }
}

/// The last separator of a path without backslashes is its last slash.
proof fn lemma_last_slash(path: Seq<char>)
    requires
        !path.contains('\\'),
    ensures
        last_separator_on(path, false) == last_separator_on(path, true),
    decreases path.len(),
{
    if path.len() > 0 {
        assert(path.contains(path.last()));
        if path.last() != '/' {
            let front = path.drop_last();
            assert(!front.contains('\\')) by {
                if front.contains('\\') {
                    let i = choose|i: int| 0 <= i < front.len() && front[i] == '\\';
                    assert(path[i] == '\\');
                }
            }
            lemma_last_slash(front);
        }
    }
}

/// A path is the same as itself.
pub(crate) proof fn lemma_path_is_itself(path: Seq<char>)
    ensures
        fits_same(path, path, true),
{
    assert(components_on(path, true) == components_on(path, true));
}

/// The front of a path with slashes only has slashes only.
pub(crate) proof fn lemma_front_with_slashes(front: Seq<char>, path: Seq<char>)
    requires
        is_front(front, path),
        slashes_only(path),
    ensures
        slashes_only(front),
{
    if front.contains('\\') {
        let i = choose|i: int| 0 <= i < front.len() && front[i] == '\\';
        assert(path[i] == '\\');
    }
    assert(front.len() >= 2 ==> front[0] == path[0] && front[1] == path[1]);
}

/// Two paths with slashes only are the same if and only if their components are.
pub(crate) proof fn lemma_same_with_slashes(a: Seq<char>, b: Seq<char>, same: bool)
    requires
        slashes_only(a),
        slashes_only(b),
        fits_same(a, b, same),
    ensures
        same == (components(a) == components(b)),
{
    paths_with_slashes_are_the_same_everywhere(a);
    paths_with_slashes_are_the_same_everywhere(b);
    let backslash = choose|backslash: bool|
        same == (#[trigger] components_on(a, backslash) == components_on(b, backslash));
    assert(components_on(a, backslash) == components(a));
    assert(components_on(b, backslash) == components(b));
}

/// A separator with none behind it is the last.
pub(crate) proof fn lemma_last_separator_is(path: Seq<char>, k: int)
    requires
        -1 <= k < path.len(),
        k >= 0 ==> is_separator(path[k]),
        forall|j: int| k < j < path.len() ==> !is_separator(#[trigger] path[j]),
    ensures
        last_separator(path) == k,
{
    lemma_last_separator(path);
    let n = last_separator(path);
    if n > k {
        assert(!is_separator(path[n]));
    }
    if n < k {
        assert(!is_separator(path[k]));
    }
}

/// Only an empty path has no components.
pub(crate) proof fn lemma_some_component(path: Seq<char>)
    ensures
        components(path).len() == 0 <==> path.len() == 0,
    decreases path.len(),
{
    lemma_last_separator(path);
    if last_separator(path) > 0 {
        lemma_some_component(path.take(last_separator(path)));
    }
}

/// The components of a path behind a directory and a separator.
pub(crate) proof fn lemma_extended(dir: Seq<char>, c: char, path: Seq<char>)
    requires
        dir.len() > 0,
        is_separator(c),
    ensures
        components(dir + seq![c] + path) == extended(components(dir), path),
    decreases path.len(),
{
    let whole = dir + seq![c] + path;
    let k = last_separator(path);
    lemma_last_separator(path);
    let n = dir.len() + 1 + k;
    assert forall|j: int| n < j < whole.len() implies !is_separator(#[trigger] whole[j]) by {
        assert(whole[j] == path[j - dir.len() - 1]);
    }
    assert(is_separator(whole[n]));
    lemma_last_separator_is(whole, n);
    if k < 0 {
        assert(whole.take(n) =~= dir);
        assert(base(whole) =~= path);
    } else {
        assert(whole.take(n) =~= dir + seq![c] + path.take(k));
        assert(base(whole) =~= base(path));
        lemma_extended(dir, c, path.take(k));
    }
}

/// The components of a path behind a directory that ends with a separator.
proof fn lemma_extended_at_separator(dir: Seq<char>, path: Seq<char>)
    requires
        dir.len() > 0,
        is_separator(dir.last()),
    ensures
        components(dir + path) == extended(components(dir), path),
    decreases path.len(),
{
    let whole = dir + path;
    let k = last_separator(path);
    lemma_last_separator(path);
    let n = dir.len() + k;
    assert forall|j: int| n < j < whole.len() implies !is_separator(#[trigger] whole[j]) by {
        assert(whole[j] == path[j - dir.len()]);
    }
    assert(is_separator(whole[n]));
    lemma_last_separator_is(whole, n);
    if k < 0 {
        lemma_last_separator_is(dir, n);
        assert(whole.take(n) =~= dir.take(n));
        assert(base(dir) =~= Seq::<char>::empty());
        assert(base(whole) =~= path);
    } else {
        assert(whole.take(n) =~= dir + path.take(k));
        assert(base(whole) =~= base(path));
        lemma_extended_at_separator(dir, path.take(k));
    }
}

/// A path within a directory has the components of both.
pub(crate) proof fn lemma_under(dir: Seq<char>, path: Seq<char>)
    ensures
        dir.len() > 0 ==> components(under(dir, path)) == extended(components(dir), path),
{
    reveal_strlit("/");
    if dir.len() > 0 {
        lemma_extended(dir, '/', path);
        assert(under(dir, path) =~= dir + seq!['/'] + path);
    }
}

/// Where a path within a directory leads depends on where the directory is.
pub(crate) proof fn lemma_under_same(a: Seq<char>, b: Seq<char>, path: Seq<char>)
    requires
        components(a) == components(b),
    ensures
        components(under(a, path)) == components(under(b, path)),
{
    lemma_some_component(a);
    lemma_some_component(b);
    lemma_under(a, path);
    lemma_under(b, path);
}

/// A path without colons puts none at the end of the last component.
proof fn lemma_extended_without_drive(dir: Seq<Seq<char>>, path: Seq<char>)
    requires
        !path.contains(':'),
        dir.len() > 0 ==> dir.last().len() == 0 || dir.last().last() != ':',
    ensures
        ({
            let parts = extended(dir, path);
            parts.len() > 0 ==> parts.last().len() == 0 || parts.last().last() != ':'
        }),
    decreases path.len(),
{
    let k = last_separator(path);
    lemma_last_separator(path);
    let name = base(path);
    assert(name.len() > 0 ==> name.last() == path.last());
    assert(path.len() > 0 ==> path.contains(path.last()));
    if k >= 0 {
        let front = path.take(k);
        assert(!front.contains(':')) by {
            if front.contains(':') {
                let i = choose|i: int| 0 <= i < front.len() && front[i] == ':';
                assert(path[i] == ':');
            }
        }
        lemma_extended_without_drive(dir, front);
    }
}

/// What was put behind a directory can have more put behind it, and leads to where it should.
pub(crate) proof fn lemma_joined_path(dir: Seq<char>, path: Seq<char>, whole: Seq<char>)
    requires
        workable(dir),
        joinable(path),
        joins(dir, path, whole),
    ensures
        whole.len() > 0,
        workable(whole),
        components(whole) == components(under(dir, path)),
{
    reveal_strlit("/");
    reveal_strlit("\\");
    if dir.len() == 0 {
        lemma_no_drive(path);
    } else {
        lemma_some_component(dir);
        lemma_under(dir, path);
        lemma_extended_without_drive(components(dir), path);
        if is_separator(dir.last()) && whole == dir + path {
            lemma_extended_at_separator(dir, path);
        } else if whole == dir + "/"@ + path {
            lemma_extended(dir, '/', path);
            assert(whole =~= dir + seq!['/'] + path);
        } else {
            lemma_extended(dir, '\\', path);
            assert(whole =~= dir + seq!['\\'] + path);
        }
        assert(whole[0] == dir[0]);
    }
}

/// A path without colons has no drive at its end.
proof fn lemma_no_drive(path: Seq<char>)
    requires
        !path.contains(':'),
    ensures
        !ends_in_drive(path),
    decreases path.len(),
{
    let k = last_separator(path);
    lemma_last_separator(path);
    let name = base(path);
    assert(name.len() > 0 ==> name.last() == path.last());
    assert(path.len() > 0 ==> path.contains(path.last()));
    if k > 0 {
        let front = path.take(k);
        assert(!front.contains(':')) by {
            if front.contains(':') {
                let i = choose|i: int| 0 <= i < front.len() && front[i] == ':';
                assert(path[i] == ':');
            }
        }
        lemma_no_drive(front);
    }
}

/// The directory of a file can have a path put behind it.
pub(crate) proof fn lemma_directory(path: Seq<char>, dir: Seq<char>)
    requires
        located(path),
        fits_directory(path, Some(dir)),
    ensures
        workable(dir),
        components(dir) == components(directory(path)),
{
    lemma_last_separator(path);
    let k = last_separator(path);
    if k > 0 {
        assert(dir[0] == path[0]);
        assert(dir.len() >= 2 ==> dir[1] == path[1]);
    }
}

/// The stem of a plain name is a name without separators.
proof fn lemma_stem(name: Seq<char>)
    requires
        plain_component(name),
    ensures
        stem(name).len() > 0,
        forall|i: int| 0 <= i < stem(name).len() ==> !is_separator(#[trigger] stem(name)[i]) && stem(name)[i] != ':',
{
    let s = stem(name);
    assert forall|i: int| 0 <= i < s.len() implies !is_separator(#[trigger] s[i]) && s[i] != ':' by {
        assert(s[i] == name[i]);
        assert(name.contains(name[i]));
    }
}

/// The directory that is named after a file can have a path put behind it.
pub(crate) proof fn lemma_directory_of_stem(path: Seq<char>, dir: Seq<char>)
    requires
        located(path),
        stem(base(path)) != "."@,
        dir == path.take(last_separator(path) + 1) + stem(base(path)),
    ensures
        workable(dir),
        components(dir) == components(under(directory(path), stem(base(path)))),
{
    reveal_strlit("/");
    lemma_last_separator(path);
    lemma_stem(base(path));
    let k = last_separator(path);
    let s = stem(base(path));
    lemma_last_separator_is(s, -1);
    if k < 0 {
        assert(dir =~= s);
        assert(components(dir) == seq![s]);
    } else {
        let front = directory(path);
        lemma_under(front, s);
        assert(extended(components(front), s) == components(front).push(s));
        if k == 0 {
            assert(front =~= path.take(k + 1));
            lemma_extended_at_separator(front, s);
        } else {
            assert(dir =~= front + seq!['/'] + s);
            lemma_extended(front, '/', s);
        }
        assert(dir[0] == path[0]);
    }
}

/// The extension of a file name is what stands behind its last dot, and the stem what stands before it; a name without a dot,
/// or with none but at its start, has no extension and is its own stem.
pub proof fn names_are_parted_at_the_last_dot(front: Seq<char>, back: Seq<char>)
    requires
        front.len() > 0,
        !back.contains('.'),
    ensures
        extension(front + seq!['.'] + back) == Some(back),
        stem(front + seq!['.'] + back) == front,
        extension(back) is None,
        stem(back) == back,
        extension(seq!['.'] + back) is None,
        stem(seq!['.'] + back) == seq!['.'] + back,
{
    let name = front + seq!['.'] + back;
    let k = front.len() as int;
    assert forall|j: int| k < j < name.len() implies name[j] != '.' by {
        assert(name[j] == back[j - k - 1]);
    }
    assert(is_last_dot(name, k));
    let chosen = choose|k: int| is_last_dot(name, k);
    assert(is_last_dot(name, chosen));
    assert(chosen == k) by {
        if chosen < k {
            assert(name[k] == '.');
        }
    }
    assert(name.skip(k + 1) =~= back);
    assert(name.take(k) =~= front);
    assert forall|k: int| !is_last_dot(back, k) by {
        if is_last_dot(back, k) {
            assert(back[k] == '.');
        }
    }
    let hidden = seq!['.'] + back;
    assert forall|k: int| !is_last_dot(hidden, k) by {
        if is_last_dot(hidden, k) {
            assert(hidden[k] == back[k - 1]);
        }
    }
}

} // verus!
