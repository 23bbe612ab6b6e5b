//! Source files, and the packages that they belong to.

use std::sync::Arc;
use vstd::prelude::*;
use crate::span::{LineColumn, LineIndex};
use crate::text;
use crate::text::push_decimal;

verus! {

/// A package in a workspace.
pub struct Package {
    pub name: String,
    pub version: String,
    /// The top source files of the package, such as `src/lib.rs`, relative to the tree.
    pub top_sources: Vec<String>,
}

/// The model of a [`Package`].
pub ghost struct PackageModel {
    pub name: Seq<char>,
    pub version: Seq<char>,
    pub top_sources: Seq<Seq<char>>,
}

impl View for Package {
    type V = PackageModel;

    open spec fn view(&self) -> PackageModel {
        PackageModel { name: self.name@, version: self.version@, top_sources: text::texts(self.top_sources@) }
    }
}

impl PackageModel {
    /// The name and version, in the form `name@version`.
    pub open spec fn qualified_name(self) -> Seq<char> {
        self.name + "@"@ + self.version
    }
}

impl Clone for Package {
    fn clone(&self) -> (r: Self)
        ensures
            r@ == self@,
    {
        Package {
            name: self.name.clone(),
            version: self.version.clone(),
            top_sources: text::copy_texts(&self.top_sources),
        }
    }
}

impl Package {
    /// The name and version, in the form `name@version`, which names the package without doubt to cargo.
    pub fn version_qualified_name(&self) -> (r: String)
        ensures
            r@ == self@.qualified_name(),
    {
        let mut r = self.name.clone();
        r.push_str("@");
        r.push_str(self.version.as_str());
        r
    }

    /// Whether this is the same package as `other`.
    pub fn same(&self, other: &Package) -> (r: bool)
        ensures
            r == (self@ == other@),
    {
        let r = text::same_text(self.name.as_str(), other.name.as_str()) && text::same_text(
            self.version.as_str(),
            other.version.as_str(),
        ) && text::same_texts(&self.top_sources, &other.top_sources);
        r
    }
}

/// A Rust source file within a source tree.
pub struct SourceFile {
    package: Arc<Package>,
    tree_relative_path: Arc<String>,
    /// The text of the file, shared by the copies of this value, of which there is one for every mutant in the file.
    code: Arc<String>,
    line_index: Arc<LineIndex>,
    is_top: bool,
}

/// The model of a [`SourceFile`].
pub ghost struct SourceModel {
    pub package: PackageModel,
    /// The path relative to the tree, with forward slashes.
    pub path: Seq<char>,
    /// The whole text of the file.
    pub code: Seq<char>,
    /// Whether this is one of the top source files of its package.
    pub is_top: bool,
}

impl View for SourceFile {
    type V = SourceModel;

    closed spec fn view(&self) -> SourceModel {
        SourceModel {
            package: self.package@,
            path: self.tree_relative_path@,
            code: self.code@,
            is_top: self.is_top,
        }
    }
}

impl SourceModel {
    /// A location within this file, for display: `path:line:column`.
    pub open spec fn location(self, location: LineColumn) -> Seq<char> {
        self.path + ":"@ + text::decimal(location.line as nat) + ":"@ + text::decimal(location.column as nat)
    }
}

impl SourceFile {
    #[verifier::type_invariant]
    spec fn index_fits(self) -> bool {
        self.line_index.indexes(self.code@)
    }

    /// A file of a package, at a path relative to the tree and with the given text.
    pub fn new(package: Package, tree_relative_path: &str, code: &str, is_top: bool) -> (r: SourceFile)
        ensures
            r@.package == package@,
            r@.path == tree_relative_path@,
            r@.code == code@,
            r@.is_top == is_top,
    {
        SourceFile {
            package: Arc::new(package),
            tree_relative_path: Arc::new(tree_relative_path.to_owned()),
            line_index: Arc::new(LineIndex::new(code)),
            code: Arc::new(code.to_owned()),
            is_top,
        }
    }

    /// The package that this file belongs to.
    pub fn package(&self) -> (r: &Package)
        ensures
            r@ == self@.package,
    {
        &self.package
    }

    /// The path relative to the tree, with forward slashes.
    pub fn tree_relative_slashes(&self) -> (r: &str)
        ensures
            r@ == self@.path,
    {
        self.tree_relative_path.as_str()
    }

    /// The whole text of the file.
    pub fn code(&self) -> (r: &str)
        ensures
            r@ == self@.code,
    {
        self.code.as_str()
    }

    /// Where the lines of the file start.
    pub fn line_index(&self) -> (r: &LineIndex)
        ensures
            r.indexes(self@.code),
    {
        proof {
            use_type_invariant(self);
        }
        &self.line_index
    }

    /// Whether this is one of the top source files of its package.
    pub fn is_top(&self) -> (r: bool)
        ensures
            r == self@.is_top,
    {
        self.is_top
    }

    /// Format a location within this source file for display to the user.
    pub fn format_source_location(&self, location: LineColumn) -> (r: String)
        ensures
            r@ == self@.location(location),
    {
        let mut r = self.tree_relative_path.as_str().to_owned();
        r.push_str(":");
        push_decimal(&mut r, location.line);
        r.push_str(":");
        push_decimal(&mut r, location.column);
        r
    }

    /// Whether this is the same file, with the same text, as `other`.
    pub fn same(&self, other: &SourceFile) -> (r: bool)
        ensures
            r == (self@ == other@),
    {
        self.package.same(&other.package) && text::same_text(
            self.tree_relative_path.as_str(),
            other.tree_relative_path.as_str(),
        ) && text::same_text(self.code.as_str(), other.code.as_str()) && self.is_top == other.is_top
    }
}

impl Clone for SourceFile {
    fn clone(&self) -> (r: Self)
        ensures
            r@ == self@,
    {
        proof {
            use_type_invariant(self);
        }
        SourceFile {
            package: Arc::clone(&self.package),
            tree_relative_path: Arc::clone(&self.tree_relative_path),
            code: Arc::clone(&self.code),
            line_index: Arc::clone(&self.line_index),
            is_top: self.is_top,
        }
    }
}

} // verus!
