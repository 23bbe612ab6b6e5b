//! Modules in other files, and where to look for them.

use vstd::prelude::*;
use crate::mutant;
use crate::paths;
use crate::paths::{ends_with_component, join_path, parent_directory, without_extension};
use crate::source::SourceFile;
use crate::span::Span;
use crate::text;

verus! {

/// Namespace for a module defined in a `mod foo { ... }` block or `mod foo;` statement
///
/// In the context of resolving modules, a module "path" (and to some extent "name") is ambiguous: paths may describe a
/// sequence of identifiers in code (e.g. `crate::foo::bar`) or sequence of folder and file names on the filesystem (e.g.
/// `src/foo/bar.rs`).
///
/// The field names in this struct distinguish between the uses of path elements.
pub struct ModNamespace {
    /// Identifier of the module (e.g. `foo` for `mod foo;`)
    pub name: String,
    /// File location override for the module, if specified by `#[path="file"]`
    ///
    /// Note that `mod foo { ... }` blocks can also have a file location specified, which affects the filesystem location of
    /// all child `mod bar;` statements.
    pub path_attribute: Option<String>,
    /// Location of the module definition in the source file
    pub source_location: Span,
}

/// The model of a [`ModNamespace`].
pub ghost struct ModModel {
    pub name: Seq<char>,
    pub path_attribute: Option<Seq<char>>,
    pub source_location: Span,
}

impl View for ModNamespace {
    type V = ModModel;

    open spec fn view(&self) -> ModModel {
        ModModel {
            name: self.name@,
            path_attribute: mutant::optional_text(self.path_attribute),
            source_location: self.source_location,
        }
    }
}

/// The models of some modules.
pub open spec fn mod_models(mods: Seq<ModNamespace>) -> Seq<ModModel> {
    Seq::new(mods.len(), |i: int| mods[i]@)
}

/// Reference to an external module from a source file.
///
/// This is approximately a list of namespace components like `["foo", "bar"]` for `foo::bar`, but each may also be decorated
/// with a `#[path="..."]` attribute, and they're attributed to a location in the source.
pub struct ExternalModRef {
    /// Namespace components of the module path
    pub parts: Vec<ModNamespace>,
}

impl View for ExternalModRef {
    type V = Seq<ModModel>;

    open spec fn view(&self) -> Seq<ModModel> {
        mod_models(self.parts@)
    }
}

/// The models of some references.
pub open spec fn mod_ref_models(mods: Seq<ExternalModRef>) -> Seq<Seq<ModModel>> {
    Seq::new(mods.len(), |i: int| mods[i]@)
}

/// A copy of some modules.
pub(crate) fn copy_mods(mods: &Vec<ModNamespace>) -> (r: Vec<ModNamespace>)
    ensures
        mod_models(r@) == mod_models(mods@),
{
    let mut r: Vec<ModNamespace> = Vec::new();
    for i in 0..mods.len()
        invariant
            r@.len() == i,
            forall|j: int| 0 <= j < i ==> (#[trigger] r@[j])@ == mods@[j]@,
    {
        let path_attribute = match &mods[i].path_attribute {
            Some(path) => Some(path.clone()),
            None => None,
        };
        r.push(ModNamespace { name: mods[i].name.clone(), path_attribute, source_location: mods[i].source_location });
    }
    assert(mod_models(r@) =~= mod_models(mods@));
    r
}

impl ModModel {
    /// The name of the module for filesystem purposes.
    pub open spec fn filesystem_name(self) -> Seq<char> {
        match self.path_attribute {
            Some(path) => path,
            None => self.name,
        }
    }
}

impl ModNamespace {
    /// The name of the module for filesystem purposes.
    pub fn get_filesystem_name(&self) -> (r: &str)
        ensures
            r@ == self@.filesystem_name(),
    {
        match &self.path_attribute {
            Some(path) => path.as_str(),
            None => self.name.as_str(),
        }
    }
}

/// That modules in a file are looked for in the directory that the file is in, rather than in one named after the file.
///
/// 1. In "src/foo.rs", `mod bar` means "src/foo/bar.rs".
///
/// 2. In "src/lib.rs" (a target top file), `mod bar` means "src/bar.rs".
///
/// 3. In "src/foo/mod.rs", `mod bar` means "src/foo/bar.rs".
///
/// 4. A path attribute on a `mod` statement with no enclosing `mod` block is relative to the directory where the source file
///    is located; within a `mod` block it is relative to the directory of that block.
pub open spec fn searches_own_directory(is_top: bool, is_mod_file: bool, mods: Seq<ModModel>) -> bool {
    is_top || is_mod_file || (mods.last().path_attribute is Some && mods.len() == 1)
}

/// The directory where modules in a file are looked for, apart from the `mod` blocks around them.
pub open spec fn search_start(path: Seq<char>, is_top: bool, mods: Seq<ModModel>) -> Seq<char> {
    if searches_own_directory(is_top, paths::base(path) == "mod.rs"@, mods) {
        paths::directory(path)
    } else {
        paths::under(paths::directory(path), paths::stem(paths::base(path)))
    }
}

/// That the directory where modules in a file are looked for can be found from its path everywhere.
pub open spec fn searchable(path: Seq<char>, is_top: bool, mods: Seq<ModModel>) -> bool {
    paths::located(path) && (searches_own_directory(is_top, paths::base(path) == "mod.rs"@, mods) || paths::stem(
        paths::base(path),
    ) != "."@)
}

/// A directory within the first `n` of some `mod` blocks.
pub open spec fn within_mods(dir: Seq<char>, mods: Seq<ModModel>, n: int) -> Seq<char>
    decreases n,
{
    if n <= 0 {
        dir
    } else {
        paths::under(within_mods(dir, mods, n - 1), mods[n - 1].filesystem_name())
    }
}

/// The files that a `mod foo;` in a directory can refer to: the one that its path attribute names or, if there is none,
/// `foo.rs` or `foo/mod.rs`.
pub open spec fn child_files(dir: Seq<char>, child: ModModel) -> Seq<Seq<char>> {
    match child.path_attribute {
        Some(path) => seq![paths::under(dir, path)],
        None => seq![paths::under(dir, child.name + ".rs"@), paths::under(dir, child.name + "/mod.rs"@)],
    }
}

/// The files, in the order in which they are tried, that a module in a file at `path` can be in.
pub open spec fn mod_files(path: Seq<char>, is_top: bool, mods: Seq<ModModel>) -> Seq<Seq<char>> {
    child_files(within_mods(search_start(path, is_top, mods), mods, mods.len() - 1), mods.last())
}

/// That the names of some modules mean the same as parts of a path everywhere.
pub open spec fn mods_joinable(mods: Seq<ModModel>) -> bool {
    forall|i: int| 0 <= i < mods.len() ==> paths::joinable((#[trigger] mods[i]).filesystem_name())
}

/// Where some paths lead: the components of each.
pub open spec fn targets(files: Seq<Seq<char>>) -> Seq<Seq<Seq<char>>> {
    Seq::new(files.len(), |i: int| paths::components(files[i]))
}

/// The name of a module with something behind it can be put behind a directory.
proof fn lemma_tail_is_joinable(name: Seq<char>, tail: Seq<char>)
    requires
        paths::joinable(name),
        !tail.contains(':'),
    ensures
        paths::joinable(name + tail),
{
    let whole = name + tail;
    assert(whole[0] == name[0]);
    if whole.contains(':') {
        let i = choose|i: int| 0 <= i < whole.len() && whole[i] == ':';
        if i < name.len() {
            assert(name[i] == ':');
        } else {
            assert(tail[i - name.len()] == ':');
        }
    }
}

/// Work out in which directory to look for a module of a file, apart from the `mod` blocks around it.
fn search_directory(parent: &SourceFile, mod_namespace: &ExternalModRef) -> (r: Option<String>)
    requires
        mod_namespace@.len() > 0,
    ensures
        searchable(parent@.path, parent@.is_top, mod_namespace@) ==> {
            &&& r is Some
            &&& paths::workable(r->0@)
            &&& paths::components(r->0@) == paths::components(search_start(parent@.path, parent@.is_top, mod_namespace@))
        },
{
    let path = parent.tree_relative_slashes();
    let parts = &mod_namespace.parts;
    let child = &parts[parts.len() - 1];
    assert(child@ == mod_namespace@.last());
    proof {
        reveal_strlit("mod.rs");
        reveal_strlit(".");
        reveal_strlit("..");
        assert(paths::plain_component("mod.rs"@)) by {
            let name = "mod.rs"@;
            assert(name.len() == 6);
        }
    }
    // A path attribute on a top-level `mod foo;` (no enclosing block) ignores the parent module path.
    if parent.is_top() || ends_with_component(path, "mod.rs") || (child.path_attribute.is_some() && parts.len() == 1) {
        let dir = parent_directory(path);
        proof {
            if paths::located(path@) {
                paths::lemma_last_separator(path@);
                paths::lemma_directory(path@, dir->0@);
            }
        }
        dir
    } else {
        let dir = without_extension(path);
        proof {
            if searchable(path@, parent@.is_top, mod_namespace@) {
                paths::lemma_directory_of_stem(path@, dir@);
            }
        }
        Some(dir)
    }
}

/// List the files that a `mod` statement can refer to, in the order in which they are to be tried.
///
/// First, work out whether the mod will be a sibling in the same directory, or in a child directory. Having determined the
/// right directory, follow the path attribute, or if no path is specified, look for either `foo.rs` or `foo/mod.rs`.
///
/// Where they are is stated if the file that holds the `mod` statement has a plain name: whatever the directories before it
/// are called, and wherever they lead. It is stated up to what does not change where a path leads. There is nothing to try
/// if the file has no directory.
pub fn mod_source_candidates(parent: &SourceFile, mod_namespace: &ExternalModRef) -> (r: Vec<String>)
    requires
        mod_namespace@.len() > 0,
    ensures
        r@.len() == 0 || r@.len() == (if mod_namespace@.last().path_attribute is Some {
            1int
        } else {
            2int
        }),
        searchable(parent@.path, parent@.is_top, mod_namespace@) && mods_joinable(mod_namespace@) ==> targets(text::texts(r@))
            == targets(mod_files(parent@.path, parent@.is_top, mod_namespace@)),
{
    let ghost mods = mod_namespace@;
    let parts = &mod_namespace.parts;
    let n = parts.len();
    let start = match search_directory(parent, mod_namespace) {
        Some(dir) => dir,
        None => return Vec::new(),
    };
    let ghost start_path = search_start(parent@.path, parent@.is_top, mods);
    let mut dir = start;
    let ghost good = searchable(parent@.path, parent@.is_top, mods) && mods_joinable(mods);
    for i in 0..n - 1
        invariant
            mods == mod_models(parts@),
            n == parts@.len(),
            n > 0,
            good ==> mods_joinable(mods),
            good ==> paths::workable(dir@),
            good ==> paths::components(dir@) == paths::components(within_mods(start_path, mods, i as int)),
    {
        let name = parts[i].get_filesystem_name();
        assert(name@ == mods[i as int].filesystem_name());
        let next = join_path(dir.as_str(), name);
        proof {
            if good {
                assert(paths::joinable(mods[i as int].filesystem_name()));
                paths::lemma_joined_path(dir@, name@, next@);
                paths::lemma_under_same(dir@, within_mods(start_path, mods, i as int), name@);
            }
        }
        dir = next;
    }
    let child = &parts[n - 1];
    assert(child@ == mods.last());
    let ghost within = within_mods(start_path, mods, n - 1);
    let mut r: Vec<String> = Vec::new();
    match &child.path_attribute {
        Some(path) => {
            r.push(join_path(dir.as_str(), path.as_str()));
            proof {
                if good {
                    assert(paths::joinable(mods.last().filesystem_name()));
                    paths::lemma_joined_path(dir@, path@, r@[0]@);
                    paths::lemma_under_same(dir@, within, path@);
                }
            }
        },
        None => {
            let mut direct = child.name.clone();
            direct.push_str(".rs");
            let mut nested = child.name.clone();
            nested.push_str("/mod.rs");
            proof {
                reveal_strlit(".rs");
                reveal_strlit("/mod.rs");
                if good {
                    assert(paths::joinable(mods.last().filesystem_name()));
                    lemma_tail_is_joinable(child.name@, ".rs"@);
                    lemma_tail_is_joinable(child.name@, "/mod.rs"@);
                }
            }
            r.push(join_path(dir.as_str(), direct.as_str()));
            r.push(join_path(dir.as_str(), nested.as_str()));
            proof {
                if good {
                    paths::lemma_joined_path(dir@, direct@, r@[0]@);
                    paths::lemma_joined_path(dir@, nested@, r@[1]@);
                    paths::lemma_under_same(dir@, within, direct@);
                    paths::lemma_under_same(dir@, within, nested@);
                }
            }
        },
    }
    proof {
        if good {
            assert(targets(text::texts(r@)) =~= targets(mod_files(parent@.path, parent@.is_top, mods)));
        }
    }
    r
}

/// The first of some candidates that is a file, where `is_file` says of each whether it is one.
pub fn first_file(is_file: &Vec<bool>) -> (r: Option<usize>)
    ensures
        match r {
            Some(i) => i < is_file@.len() && is_file@[i as int] && forall|j: int| 0 <= j < i ==> !#[trigger] is_file@[j],
            None => forall|j: int| 0 <= j < is_file@.len() ==> !#[trigger] is_file@[j],
        },
{
    for i in 0..is_file.len()
        invariant
            forall|j: int| 0 <= j < i ==> !#[trigger] is_file@[j],
    {
        if is_file[i] {
            return Some(i);
        }
    }
    None
}

/// In a top source file such as `src/lib.rs`, and in a `mod.rs`, a `mod bar;` means `bar.rs` or `bar/mod.rs` in the directory of
/// the file.
pub proof fn modules_of_top_files_are_beside_them(dir: Seq<char>, file: Seq<char>, is_top: bool, child: ModModel)
    requires
        dir.len() > 0,
        forall|i: int| 0 <= i < file.len() ==> !paths::is_separator(#[trigger] file[i]),
        is_top || file == "mod.rs"@,
        child.path_attribute is None,
    ensures
        mod_files(dir + "/"@ + file, is_top, seq![child]) == seq![
            dir + "/"@ + (child.name + ".rs"@),
            dir + "/"@ + (child.name + "/mod.rs"@),
        ],
{
    lemma_file_in(dir, file);
    let path = dir + "/"@ + file;
    assert(within_mods(search_start(path, is_top, seq![child]), seq![child], 0) == dir);
}

/// In any other file such as `src/foo.rs`, a `mod bar;` means `foo/bar.rs` or `foo/bar/mod.rs` in the directory of the file.
pub proof fn modules_of_other_files_are_below_them(dir: Seq<char>, name: Seq<char>, child: ModModel)
    requires
        dir.len() > 0,
        name.len() > 0,
        forall|i: int| 0 <= i < name.len() ==> !paths::is_separator(#[trigger] name[i]),
        name != "mod"@,
        child.path_attribute is None,
    ensures
        mod_files(dir + "/"@ + (name + ".rs"@), false, seq![child]) == seq![
            dir + "/"@ + name + "/"@ + (child.name + ".rs"@),
            dir + "/"@ + name + "/"@ + (child.name + "/mod.rs"@),
        ],
{
    reveal_strlit(".rs");
    reveal_strlit("mod");
    reveal_strlit("mod.rs");
    reveal_strlit("/");
    let file = name + ".rs"@;
    assert forall|i: int| 0 <= i < file.len() implies !paths::is_separator(#[trigger] file[i]) by {
        if i < name.len() {
            assert(file[i] == name[i]);
        } else {
            assert(file[i] == ".rs"@[i - name.len()]);
        }
    }
    lemma_file_in(dir, file);
    let path = dir + "/"@ + file;
    if file == "mod.rs"@ {
        assert(name =~= "mod"@) by {
            assert(name.len() == 3);
            assert forall|i: int| 0 <= i < 3 implies name[i] == "mod"@[i] by {
                assert(file[i] == "mod.rs"@[i]);
            }
        }
    }
    assert(paths::stem(file) == name) by {
        let k = name.len() as int;
        assert(paths::is_last_dot(file, k)) by {
            assert(file[k] == '.');
            assert(file[k + 1] == 'r' && file[k + 2] == 's');
        }
        let chosen = choose|k: int| paths::is_last_dot(file, k);
        assert(paths::is_last_dot(file, chosen));
        assert(chosen == k) by {
            if chosen < k {
                assert(file[k] != '.');
            }
            if chosen > k {
                assert(file[chosen] != '.');
            }
        }
        assert(file.take(k) =~= name);
    }
    assert(!searches_own_directory(false, paths::base(path) == "mod.rs"@, seq![child]));
    assert(search_start(path, false, seq![child]) == dir + "/"@ + name);
    assert(within_mods(search_start(path, false, seq![child]), seq![child], 0) == dir + "/"@ + name);
}

/// A path attribute on a `mod` with no `mod` block around it is relative to the directory of the file, whatever the file is
/// called.
pub proof fn path_attributes_are_relative_to_the_file(
    dir: Seq<char>,
    file: Seq<char>,
    is_top: bool,
    child: ModModel,
    given: Seq<char>,
)
    requires
        dir.len() > 0,
        forall|i: int| 0 <= i < file.len() ==> !paths::is_separator(#[trigger] file[i]),
        child.path_attribute == Some(given),
    ensures
        mod_files(dir + "/"@ + file, is_top, seq![child]) == seq![dir + "/"@ + given],
{
    lemma_file_in(dir, file);
    let path = dir + "/"@ + file;
    assert(within_mods(search_start(path, is_top, seq![child]), seq![child], 0) == dir);
}

/// A `mod` block adds a directory of its name, or of its path attribute, to where the modules in it are looked for.
pub proof fn blocks_add_a_directory(path: Seq<char>, is_top: bool, block: ModModel, child: ModModel)
    requires
        child.path_attribute is None,
        search_start(path, is_top, seq![block, child]).len() > 0,
    ensures
        ({
            let dir = search_start(path, is_top, seq![block, child]);
            let name = match block.path_attribute {
                Some(given) => given,
                None => block.name,
            };
            mod_files(path, is_top, seq![block, child]) == seq![
                dir + "/"@ + name + "/"@ + (child.name + ".rs"@),
                dir + "/"@ + name + "/"@ + (child.name + "/mod.rs"@),
            ]
        }),
{
    reveal_strlit("/");
    reveal_with_fuel(within_mods, 2);
}

/// A file in a directory, apart.
proof fn lemma_file_in(dir: Seq<char>, file: Seq<char>)
    requires
        dir.len() > 0,
        forall|i: int| 0 <= i < file.len() ==> !paths::is_separator(#[trigger] file[i]),
    ensures
        paths::directory(dir + "/"@ + file) == dir,
        paths::base(dir + "/"@ + file) == file,
{
    reveal_strlit("/");
    let path = dir + "/"@ + file;
    let k = dir.len() as int;
    assert(path[k] == '/');
    assert forall|j: int| k < j < path.len() implies !paths::is_separator(#[trigger] path[j]) by {
        assert(path[j] == file[j - k - 1]);
    }
    paths::lemma_last_separator_is(path, k);
    assert(path.take(k) =~= dir);
    assert(path.skip(k + 1) =~= file);
}

} // verus!
