//! Types as they are written in source code, as far as choosing replacement values depends on them.

use vstd::prelude::*;
use crate::tokens::TokenTree;

verus! {

/// A type as written in source code.
#[derive(Debug, PartialEq, Eq)]
pub enum Type {
    /// A named type such as `std::vec::Vec<T>`.
    Path(Path),
    /// `[T; N]`, with the tokens of its length.
    Array(Box<Type>, Vec<TokenTree>),
    /// `[T]`.
    Slice(Box<Type>),
    /// `&T` or `&mut T`.
    Reference {
        mutable: bool,
        elem: Box<Type>,
    },
    /// `(A, B)`, and `()`.
    Tuple(Vec<Type>),
    /// `impl A + B`.
    ImplTrait(Vec<Bound>),
    /// `dyn A + B`.
    TraitObject,
    /// `!`.
    Never,
    /// Any other form, such as a function pointer.
    Other,
}

/// A path such as `std::vec::Vec<T>`.
#[derive(Debug, PartialEq, Eq)]
pub struct Path {
    /// Whether the path starts with `::`.
    pub leading_colon: bool,
    /// The parts between the `::`.
    pub segments: Vec<PathSegment>,
}

/// A part of a path: a name, perhaps with arguments.
#[derive(Debug, PartialEq, Eq)]
pub struct PathSegment {
    pub ident: String,
    pub arguments: PathArguments,
}

/// The arguments of a part of a path.
#[derive(Debug, PartialEq, Eq)]
pub enum PathArguments {
    /// No arguments.
    Bare,
    /// `<'a, T, N, Item = U>`.
    AngleBracketed(Vec<GenericArgument>),
    /// `(A, B) -> C`.
    Parenthesized,
}

/// One of the arguments between angle brackets.
#[derive(Debug, PartialEq, Eq)]
pub enum GenericArgument {
    Lifetime,
    Type(Type),
    /// A binding such as `Item = T`.
    AssocType(String, Type),
    /// A constant, a constraint, or anything else.
    Other,
}

/// One of the bounds of an `impl Trait` type.
#[derive(Debug, PartialEq, Eq)]
pub enum Bound {
    /// A trait.
    Trait(Path),
    /// A lifetime, or anything else.
    Other,
}

/// What a function is declared to return.
#[derive(Debug, PartialEq, Eq)]
pub enum ReturnType {
    /// Nothing is written.
    Unit,
    /// `-> T`.
    Type(Type),
}

/// A variant of an enum: its name, and whether it holds no data.
#[derive(Debug, PartialEq, Eq)]
pub struct Variant {
    pub name: String,
    pub is_unit: bool,
}

/// A declaration in a file, as far as it declares enums.
#[derive(Debug, PartialEq, Eq)]
pub enum Declaration {
    Enum {
        name: String,
        variants: Vec<Variant>,
    },
    /// An inline `mod` block.
    Mod(Vec<Declaration>),
    /// Anything else, such as a `mod` that refers to another file.
    Other,
}

/// The arguments between the angle brackets of the last segment of a path, if it has any.
pub open spec fn angle_args(path: Path) -> Option<Seq<GenericArgument>> {
    if path.segments@.len() == 0 {
        None
    } else {
        match path.segments@.last().arguments {
            PathArguments::AngleBracketed(args) => Some(args@),
            _ => None,
        }
    }
}

/// The type that is the `k`th argument of the last segment of a path.
pub open spec fn arg_type(path: Path, k: int) -> Type {
    angle_args(path)->0[k]->Type_0
}

/// An argument of a path is smaller than the path.
pub proof fn lemma_arg_type_decreases(path: Path, k: int)
    requires
        angle_args(path) is Some,
        0 <= k < angle_args(path)->0.len(),
        angle_args(path)->0[k] is Type,
    ensures
        decreases_to!(path => arg_type(path, k)),
{
    let segment = path.segments@[path.segments@.len() - 1];
    assert(decreases_to!(path => path.segments));
    assert(decreases_to!(path.segments => path.segments@));
    assert(decreases_to!(path.segments@ => segment));
    assert(decreases_to!(segment => segment.arguments));
    let args = segment.arguments->AngleBracketed_0;
    assert(decreases_to!(segment.arguments => args));
    assert(decreases_to!(args => args@));
    assert(decreases_to!(args@ => args@[k]));
    assert(decreases_to!(args@[k] => args@[k]->Type_0));
}

} // verus!
