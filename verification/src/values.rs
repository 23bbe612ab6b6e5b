//! Which values stand in for those of a type: how the values of a compound type are made of those of its parts.

use vstd::prelude::*;
use crate::fnvalue;
use crate::pretty;
use crate::tokens;
use crate::tokens::{Delimiter, Tok};
use crate::types;
use crate::types::{Bound, Declaration, GenericArgument, Path, PathArguments, ReturnType, Type, Variant};

verus! {

/// `owner::function(arguments)`, as tokens.
pub open spec fn path_call(owner: Seq<char>, function: Seq<char>, arguments: Seq<Tok>) -> Seq<Tok> {
    seq![
        Tok::Ident(owner),
        Tok::Punct(':'),
        Tok::Punct(':'),
        Tok::Ident(function),
        Tok::Group(Delimiter::Parenthesis, arguments),
    ]
}

/// `function(arguments)`, as tokens.
pub open spec fn plain_call(function: Seq<char>, arguments: Seq<Tok>) -> Seq<Tok> {
    seq![Tok::Ident(function), Tok::Group(Delimiter::Parenthesis, arguments)]
}

/// `vec![elements]`, as tokens.
pub open spec fn vec_macro(elements: Seq<Tok>) -> Seq<Tok> {
    seq![Tok::Ident("vec"@), Tok::Punct('!'), Tok::Group(Delimiter::Bracket, elements)]
}

/// `owner::from_iter([element])`, as tokens.
pub open spec fn collected_from(owner: Seq<char>, element: Seq<Tok>) -> Seq<Tok> {
    path_call(owner, "from_iter"@, seq![Tok::Group(Delimiter::Bracket, element)])
}

/// `receiver.method()`, as tokens.
pub open spec fn method_of(receiver: Seq<Tok>, method: Seq<char>) -> Seq<Tok> {
    receiver + seq![Tok::Punct('.'), Tok::Ident(method), Tok::Group(Delimiter::Parenthesis, Seq::<Tok>::empty())]
}

/// That the last name in a path is `name`.
pub open spec fn is_named(path: Path, name: Seq<char>) -> bool {
    path.segments@.len() > 0 && path.segments@[path.segments@.len() - 1].ident@ == name
}

/// That a path is a bare name.
pub open spec fn is_bare(path: Path, name: Seq<char>) -> bool {
    !path.leading_colon && path.segments@.len() == 1 && path.segments@[0].ident@ == name && path.segments@[0].arguments
        is Bare
}

/// That the arguments of the last name in a path are `args`.
pub open spec fn has_args(path: Path, args: Seq<GenericArgument>) -> bool {
    path.segments@.len() > 0 && (path.segments@[path.segments@.len() - 1].arguments matches PathArguments::AngleBracketed(
        given,
    ) && given@ == args)
}

/// That the argument at position `k` is the first that is not a lifetime, and is a type.
pub open spec fn first_type_at(args: Seq<GenericArgument>, k: int) -> bool {
    0 <= k < args.len() && args[k] is Type && forall|j: int| 0 <= j < k ==> (#[trigger] args[j]) is Lifetime
}

/// That the argument at position `k` is the only type among the arguments.
pub open spec fn only_type_at(args: Seq<GenericArgument>, k: int) -> bool {
    0 <= k < args.len() && args[k] is Type && forall|j: int| 0 <= j < args.len() && j != k ==> !((#[trigger] args[j]) is Type)
}

/// How long the names of the types with values of their own are, and characters by which those of one length differ.
proof fn lemma_type_names()
    ensures
        "bool"@.len() == 4 && "bool"@[0] == 'b',
        "String"@.len() == 6 && "String"@[0] == 'S',
        "str"@.len() == 3 && "str"@[0] == 's' && "str"@[1] == 't',
        "char"@.len() == 4 && "char"@[0] == 'c',
        "u8"@.len() == 2 && "u8"@[0] == 'u',
        "u16"@.len() == 3 && "u16"@[0] == 'u' && "u16"@[1] == '1',
        "u32"@.len() == 3 && "u32"@[0] == 'u' && "u32"@[1] == '3',
        "u64"@.len() == 3 && "u64"@[0] == 'u' && "u64"@[1] == '6',
        "u128"@.len() == 4 && "u128"@[0] == 'u',
        "usize"@.len() == 5 && "usize"@[0] == 'u',
        "i8"@.len() == 2 && "i8"@[0] == 'i',
        "i16"@.len() == 3 && "i16"@[0] == 'i' && "i16"@[1] == '1',
        "i32"@.len() == 3 && "i32"@[0] == 'i' && "i32"@[1] == '3',
        "i64"@.len() == 3 && "i64"@[0] == 'i' && "i64"@[1] == '6',
        "i128"@.len() == 4 && "i128"@[0] == 'i',
        "isize"@.len() == 5 && "isize"@[0] == 'i',
        "f32"@.len() == 3 && "f32"@[0] == 'f' && "f32"@[1] == '3',
        "f64"@.len() == 3 && "f64"@[0] == 'f' && "f64"@[1] == '6',
        "PathBuf"@.len() == 7 && "PathBuf"@[0] == 'P' && "PathBuf"@[4] == 'B',
        "Utf8PathBuf"@.len() == 11 && "Utf8PathBuf"@[7] == 'h',
        "OsString"@.len() == 8 && "OsString"@[1] == 's' && "OsString"@[5] == 'i',
        "Duration"@.len() == 8 && "Duration"@[1] == 'u' && "Duration"@[5] == 'i',
        "NonZeroIsize"@.len() == 12 && "NonZeroIsize"@[7] == 'I',
        "NonZeroI8"@.len() == 9 && "NonZeroI8"@[7] == 'I',
        "NonZeroI16"@.len() == 10 && "NonZeroI16"@[7] == 'I' && "NonZeroI16"@[8] == '1',
        "NonZeroI32"@.len() == 10 && "NonZeroI32"@[7] == 'I' && "NonZeroI32"@[8] == '3',
        "NonZeroI64"@.len() == 10 && "NonZeroI64"@[7] == 'I' && "NonZeroI64"@[8] == '6',
        "NonZeroI128"@.len() == 11 && "NonZeroI128"@[7] == 'I',
        "NonZeroUsize"@.len() == 12 && "NonZeroUsize"@[7] == 'U',
        "NonZeroU8"@.len() == 9 && "NonZeroU8"@[7] == 'U',
        "NonZeroU16"@.len() == 10 && "NonZeroU16"@[7] == 'U' && "NonZeroU16"@[8] == '1',
        "NonZeroU32"@.len() == 10 && "NonZeroU32"@[7] == 'U' && "NonZeroU32"@[8] == '3',
        "NonZeroU64"@.len() == 10 && "NonZeroU64"@[7] == 'U' && "NonZeroU64"@[8] == '6',
        "NonZeroU128"@.len() == 11 && "NonZeroU128"@[7] == 'U',
        "NonZero"@.len() == 7 && "NonZero"@[0] == 'N' && "NonZero"@[4] == 'e',
        "Ordering"@.len() == 8 && "Ordering"@[1] == 'r' && "Ordering"@[5] == 'i',
        "Result"@.len() == 6 && "Result"@[0] == 'R',
        "HttpResponse"@.len() == 12 && "HttpResponse"@[7] == 'p',
        "Option"@.len() == 6 && "Option"@[0] == 'O',
        "Vec"@.len() == 3 && "Vec"@[0] == 'V' && "Vec"@[1] == 'e',
        "Cow"@.len() == 3 && "Cow"@[0] == 'C' && "Cow"@[1] == 'o',
        "Pin"@.len() == 3 && "Pin"@[0] == 'P' && "Pin"@[1] == 'i',
        "NonNull"@.len() == 7 && "NonNull"@[0] == 'N' && "NonNull"@[4] == 'u',
        "Instant"@.len() == 7 && "Instant"@[0] == 'I' && "Instant"@[4] == 'a',
        "SystemTime"@.len() == 10 && "SystemTime"@[7] == 'i' && "SystemTime"@[8] == 'm',
        "Range"@.len() == 5 && "Range"@[0] == 'R',
        "Box"@.len() == 3 && "Box"@[0] == 'B' && "Box"@[1] == 'o',
        "Cell"@.len() == 4 && "Cell"@[0] == 'C',
        "RefCell"@.len() == 7 && "RefCell"@[0] == 'R' && "RefCell"@[4] == 'e',
        "Arc"@.len() == 3 && "Arc"@[0] == 'A' && "Arc"@[1] == 'r',
        "Rc"@.len() == 2 && "Rc"@[0] == 'R',
        "Mutex"@.len() == 5 && "Mutex"@[0] == 'M',
        "BinaryHeap"@.len() == 10 && "BinaryHeap"@[7] == 'e' && "BinaryHeap"@[8] == 'a',
        "BTreeSet"@.len() == 8 && "BTreeSet"@[1] == 'T' && "BTreeSet"@[5] == 'S',
        "HashSet"@.len() == 7 && "HashSet"@[0] == 'H' && "HashSet"@[4] == 'S',
        "LinkedList"@.len() == 10 && "LinkedList"@[7] == 'i' && "LinkedList"@[8] == 's',
        "VecDeque"@.len() == 8 && "VecDeque"@[1] == 'e' && "VecDeque"@[5] == 'q',
        "BTreeMap"@.len() == 8 && "BTreeMap"@[1] == 'T' && "BTreeMap"@[5] == 'M',
        "HashMap"@.len() == 7 && "HashMap"@[0] == 'H' && "HashMap"@[4] == 'M',
{
    reveal_strlit("bool");
    reveal_strlit("String");
    reveal_strlit("str");
    reveal_strlit("char");
    reveal_strlit("u8");
    reveal_strlit("u16");
    reveal_strlit("u32");
    reveal_strlit("u64");
    reveal_strlit("u128");
    reveal_strlit("usize");
    reveal_strlit("i8");
    reveal_strlit("i16");
    reveal_strlit("i32");
    reveal_strlit("i64");
    reveal_strlit("i128");
    reveal_strlit("isize");
    reveal_strlit("f32");
    reveal_strlit("f64");
    reveal_strlit("PathBuf");
    reveal_strlit("Utf8PathBuf");
    reveal_strlit("OsString");
    reveal_strlit("Duration");
    reveal_strlit("NonZeroIsize");
    reveal_strlit("NonZeroI8");
    reveal_strlit("NonZeroI16");
    reveal_strlit("NonZeroI32");
    reveal_strlit("NonZeroI64");
    reveal_strlit("NonZeroI128");
    reveal_strlit("NonZeroUsize");
    reveal_strlit("NonZeroU8");
    reveal_strlit("NonZeroU16");
    reveal_strlit("NonZeroU32");
    reveal_strlit("NonZeroU64");
    reveal_strlit("NonZeroU128");
    reveal_strlit("NonZero");
    reveal_strlit("Ordering");
    reveal_strlit("Result");
    reveal_strlit("HttpResponse");
    reveal_strlit("Option");
    reveal_strlit("Vec");
    reveal_strlit("Cow");
    reveal_strlit("Pin");
    reveal_strlit("NonNull");
    reveal_strlit("Instant");
    reveal_strlit("SystemTime");
    reveal_strlit("Range");
    reveal_strlit("Box");
    reveal_strlit("Cell");
    reveal_strlit("RefCell");
    reveal_strlit("Arc");
    reveal_strlit("Rc");
    reveal_strlit("Mutex");
    reveal_strlit("BinaryHeap");
    reveal_strlit("BTreeSet");
    reveal_strlit("HashSet");
    reveal_strlit("LinkedList");
    reveal_strlit("VecDeque");
    reveal_strlit("BTreeMap");
    reveal_strlit("HashMap");
}

proof fn lemma_leading_type(args: Seq<GenericArgument>, i: int, k: int)
    requires
        first_type_at(args, k),
        0 <= i <= k,
    ensures
        fnvalue::leading_type(args, i) == Some(k),
    decreases k - i,
{
    if i < k {
        assert(args[i] is Lifetime);
        lemma_leading_type(args, i + 1, k);
    }
}

proof fn lemma_nth_type_among(args: Seq<GenericArgument>, i: int, k: int)
    requires
        only_type_at(args, k),
        0 <= i <= args.len(),
    ensures
        i <= k ==> fnvalue::nth_type(args, i, 0) == Some(k),
        i <= k ==> fnvalue::nth_type(args, i, 1) is None,
        i > k ==> fnvalue::nth_type(args, i, 0) is None,
    decreases args.len() - i,
{
    if i < args.len() {
        lemma_nth_type_among(args, i + 1, k);
        if i != k {
            assert(!(args[i] is Type));
        }
    }
}

/// The replacements of a slice, or of a reference to a slice, mutable or not, are `Vec::leak(Vec::new())`, and then
/// `Vec::leak(vec![r])` for each replacement `r` of the element type, in order: one more than the element type has, so there is
/// always one.
pub proof fn slices_are_leaked_vectors(
    elem: Type,
    mutable: bool,
    errors: Seq<Seq<Tok>>,
    enums: Map<Seq<char>, Seq<Seq<char>>>,
)
    ensures
        ({
            let inner = fnvalue::type_values(elem, errors, enums);
            let values = fnvalue::type_values(
                Type::Reference { mutable, elem: Box::new(Type::Slice(Box::new(elem))) },
                errors,
                enums,
            );
            &&& values.len() == inner.len() + 1
            &&& values[0] == path_call("Vec"@, "leak"@, path_call("Vec"@, "new"@, Seq::empty()))
            &&& forall|i: int|
                0 <= i < inner.len() ==> values[i + 1] == path_call("Vec"@, "leak"@, vec_macro(#[trigger] inner[i]))
            &&& values == fnvalue::type_values(Type::Slice(Box::new(elem)), errors, enums)
        }),
{
    reveal_with_fuel(fnvalue::type_values, 3);
    let inner = fnvalue::type_values(elem, errors, enums);
    let slice = Type::Slice(Box::new(elem));
    let values = fnvalue::type_values(slice, errors, enums);
    assert(values == fnvalue::slice_values(inner));
    let by_reference = fnvalue::type_values(Type::Reference { mutable, elem: Box::new(slice) }, errors, enums);
    assert(by_reference == fnvalue::slice_values(inner));
    assert(values[0] =~= path_call("Vec"@, "leak"@, path_call("Vec"@, "new"@, Seq::empty()))) by {
        assert(fnvalue::new_value("Vec"@) =~= path_call("Vec"@, "new"@, Seq::empty()));
    }
    assert forall|i: int| 0 <= i < inner.len() implies values[i + 1] == path_call(
        "Vec"@,
        "leak"@,
        vec_macro(#[trigger] inner[i]),
    ) by {
        assert(values[i + 1] =~= path_call("Vec"@, "leak"@, vec_macro(inner[i])));
    }
}

/// The replacements of a reference to anything but a slice or, immutably, a `str` are `Box::leak(Box::new(r))` for each
/// replacement `r` of what it refers to.
pub proof fn references_are_leaked_boxes(
    elem: Type,
    mutable: bool,
    errors: Seq<Seq<Tok>>,
    enums: Map<Seq<char>, Seq<Seq<char>>>,
)
    requires
        !(elem is Slice),
        mutable || !(elem matches Type::Path(path) && is_bare(path, "str"@)),
    ensures
        ({
            let inner = fnvalue::type_values(elem, errors, enums);
            let values = fnvalue::type_values(Type::Reference { mutable, elem: Box::new(elem) }, errors, enums);
            &&& values.len() == inner.len()
            &&& forall|i: int|
                0 <= i < inner.len() ==> values[i] == path_call(
                    "Box"@,
                    "leak"@,
                    path_call("Box"@, "new"@, #[trigger] inner[i]),
                )
        }),
{
    let inner = fnvalue::type_values(elem, errors, enums);
    let values = fnvalue::type_values(Type::Reference { mutable, elem: Box::new(elem) }, errors, enums);
    assert forall|i: int| 0 <= i < inner.len() implies values[i] == path_call(
        "Box"@,
        "leak"@,
        path_call("Box"@, "new"@, #[trigger] inner[i]),
    ) by {
        assert(values[i] == fnvalue::leaked_box(inner[i]));
        assert(tokens::call(tokens::assoc("Box"@, "new"@), inner[i]) =~= path_call("Box"@, "new"@, inner[i]));
        assert(values[i] =~= path_call("Box"@, "leak"@, path_call("Box"@, "new"@, inner[i])));
    }
}

/// A `&str` is replaced by an empty text and by another one.
pub proof fn borrowed_texts_are_literals(path: Path, errors: Seq<Seq<Tok>>, enums: Map<Seq<char>, Seq<Seq<char>>>)
    requires
        is_bare(path, "str"@),
    ensures
        fnvalue::type_values(Type::Reference { mutable: false, elem: Box::new(Type::Path(path)) }, errors, enums) == seq![
            seq![Tok::Literal("\"\""@)],
            seq![Tok::Literal("\"xyzzy\""@)],
        ],
{
}

/// The replacements of an array are arrays of each replacement of its elements.
pub proof fn arrays_repeat_their_elements(
    elem: Type,
    length: Vec<tokens::TokenTree>,
    errors: Seq<Seq<Tok>>,
    enums: Map<Seq<char>, Seq<Seq<char>>>,
)
    ensures
        ({
            let inner = fnvalue::type_values(elem, errors, enums);
            let values = fnvalue::type_values(Type::Array(Box::new(elem), length), errors, enums);
            &&& values.len() == inner.len()
            &&& forall|i: int|
                0 <= i < inner.len() ==> values[i] == seq![
                    Tok::Group(Delimiter::Bracket, #[trigger] inner[i] + seq![Tok::Punct(';')] + tokens::toks(length@)),
                ]
        }),
{
    let inner = fnvalue::type_values(elem, errors, enums);
    let values = fnvalue::type_values(Type::Array(Box::new(elem), length), errors, enums);
    assert forall|i: int| 0 <= i < inner.len() implies values[i] == seq![
        Tok::Group(Delimiter::Bracket, #[trigger] inner[i] + seq![Tok::Punct(';')] + tokens::toks(length@)),
    ] by {
        assert(values[i] == fnvalue::repeated(inner[i], tokens::toks(length@)));
        assert(inner[i].push(Tok::Punct(';')) + tokens::toks(length@) =~= inner[i] + seq![Tok::Punct(';')] + tokens::toks(
            length@,
        ));
    }
}

proof fn lemma_iterator_bound(bounds: Seq<Bound>, i: int, k: int)
    requires
        0 <= i <= k < bounds.len(),
        fnvalue::is_iterator(bounds[k]),
        forall|j: int| 0 <= j < k ==> !fnvalue::is_iterator(#[trigger] bounds[j]),
    ensures
        fnvalue::iterator_bound(bounds, i) == Some(k),
    decreases k - i,
{
    if i < k {
        lemma_iterator_bound(bounds, i + 1, k);
    }
}

proof fn lemma_no_iterator_bound(bounds: Seq<Bound>, i: int)
    requires
        0 <= i <= bounds.len(),
        forall|j: int| 0 <= j < bounds.len() ==> !fnvalue::is_iterator(#[trigger] bounds[j]),
    ensures
        fnvalue::iterator_bound(bounds, i) is None,
    decreases bounds.len() - i,
{
    if i < bounds.len() {
        lemma_no_iterator_bound(bounds, i + 1);
    }
}

/// The replacements of an `impl Iterator<Item = T>` are an iterator over nothing, and one over each replacement of `T`.
pub proof fn iterators_yield_nothing_or_once(
    bounds: Vec<Bound>,
    k: int,
    path: Path,
    item: Type,
    errors: Seq<Seq<Tok>>,
    enums: Map<Seq<char>, Seq<Seq<char>>>,
)
    requires
        0 <= k < bounds@.len(),
        bounds@[k] == Bound::Trait(path),
        is_named(path, "Iterator"@),
        types::angle_args(path) matches Some(args) && args.len() > 0 && (args[0] matches GenericArgument::AssocType(name, t)
            && name@ == "Item"@ && t == item),
        forall|j: int| 0 <= j < k ==> !fnvalue::is_iterator(#[trigger] bounds@[j]),
    ensures
        ({
            let inner = fnvalue::type_values(item, errors, enums);
            let values = fnvalue::type_values(Type::ImplTrait(bounds), errors, enums);
            let start = seq![
                Tok::Punct(':'),
                Tok::Punct(':'),
                Tok::Ident("std"@),
                Tok::Punct(':'),
                Tok::Punct(':'),
                Tok::Ident("iter"@),
                Tok::Punct(':'),
                Tok::Punct(':'),
            ];
            &&& values.len() == inner.len() + 1
            &&& values[0] == start + plain_call("empty"@, Seq::empty())
            &&& forall|i: int| 0 <= i < inner.len() ==> values[i + 1] == start + plain_call("once"@, #[trigger] inner[i])
        }),
{
    assert(fnvalue::is_iterator(bounds@[k]));
    lemma_iterator_bound(bounds@, 0, k);
    assert(fnvalue::item_type(bounds@[k]) == item);
    let inner = fnvalue::type_values(item, errors, enums);
    let values = fnvalue::type_values(Type::ImplTrait(bounds), errors, enums);
    let start = seq![
        Tok::Punct(':'),
        Tok::Punct(':'),
        Tok::Ident("std"@),
        Tok::Punct(':'),
        Tok::Punct(':'),
        Tok::Ident("iter"@),
        Tok::Punct(':'),
        Tok::Punct(':'),
    ];
    assert(values[0] =~= start + plain_call("empty"@, Seq::empty()));
    assert forall|i: int| 0 <= i < inner.len() implies values[i + 1] == start + plain_call("once"@, #[trigger] inner[i]) by {
        assert(values[i + 1] =~= start + plain_call("once"@, inner[i]));
    }
}

/// Nothing stands in for a trait that is not an iterator, whether behind `impl` or `dyn`, nor for a value that never comes;
/// what has no form of its own is tried with its default; and what returns nothing is replaced by `()`.
pub proof fn some_types_have_no_values(bounds: Vec<Bound>, errors: Seq<Seq<Tok>>, enums: Map<Seq<char>, Seq<Seq<char>>>)
    ensures
        fnvalue::type_values(Type::TraitObject, errors, enums).len() == 0,
        fnvalue::type_values(Type::Never, errors, enums).len() == 0,
        (forall|j: int| 0 <= j < bounds@.len() ==> !fnvalue::is_iterator(#[trigger] bounds@[j])) ==> fnvalue::type_values(
            Type::ImplTrait(bounds),
            errors,
            enums,
        ).len() == 0,
        fnvalue::type_values(Type::Other, errors, enums) == seq![path_call("Default"@, "default"@, Seq::empty())],
        fnvalue::return_values(ReturnType::Unit, errors, enums) == seq![
            seq![Tok::Group(Delimiter::Parenthesis, Seq::<Tok>::empty())],
        ],
{
    if forall|j: int| 0 <= j < bounds@.len() ==> !fnvalue::is_iterator(#[trigger] bounds@[j]) {
        lemma_no_iterator_bound(bounds@, 0);
    }
    assert(fnvalue::default_value() =~= path_call("Default"@, "default"@, Seq::empty()));
}

/// What a function is replaced by are the values of its declared return type.
pub proof fn functions_return_values_of_their_type(
    t: Type,
    errors: Seq<Seq<Tok>>,
    enums: Map<Seq<char>, Seq<Seq<char>>>,
)
    ensures
        fnvalue::return_values(ReturnType::Type(t), errors, enums) == fnvalue::type_values(t, errors, enums),
{
}

/// The values of a named type are those of its name.
proof fn lemma_named(path: Path, errors: Seq<Seq<Tok>>, enums: Map<Seq<char>, Seq<Seq<char>>>)
    ensures
        fnvalue::type_values(Type::Path(path), errors, enums) == fnvalue::path_values(path, errors, enums),
{
}

/// The simplest types have fixed values: both truth values; no text and some text; zero, one and, with a sign, minus one.
pub proof fn simple_types_have_fixed_values(path: Path, errors: Seq<Seq<Tok>>, enums: Map<Seq<char>, Seq<Seq<char>>>)
    ensures
        ({
            let values = fnvalue::type_values(Type::Path(path), errors, enums);
            let unsigned = is_bare(path, "u8"@) || is_bare(path, "u16"@) || is_bare(path, "u32"@) || is_bare(path, "u64"@)
                || is_bare(path, "u128"@) || is_bare(path, "usize"@);
            let signed = is_bare(path, "i8"@) || is_bare(path, "i16"@) || is_bare(path, "i32"@) || is_bare(path, "i64"@)
                || is_bare(path, "i128"@) || is_bare(path, "isize"@);
            &&& is_bare(path, "bool"@) ==> values == seq![seq![Tok::Ident("true"@)], seq![Tok::Ident("false"@)]]
            &&& is_bare(path, "String"@) ==> values == seq![
                path_call("String"@, "new"@, Seq::empty()),
                method_of(seq![Tok::Literal("\"xyzzy\""@)], "into"@),
            ]
            &&& is_bare(path, "str"@) ==> values == seq![seq![Tok::Literal("\"\""@)], seq![Tok::Literal("\"xyzzy\""@)]]
            &&& is_bare(path, "char"@) ==> values == seq![seq![Tok::Literal("'\\0'"@)], seq![Tok::Literal("'x'"@)]]
            &&& unsigned ==> values == seq![seq![Tok::Literal("0"@)], seq![Tok::Literal("1"@)]]
            &&& signed ==> values == seq![
                seq![Tok::Literal("0"@)],
                seq![Tok::Literal("1"@)],
                seq![Tok::Punct('-'), Tok::Literal("1"@)],
            ]
            &&& is_bare(path, "f32"@) || is_bare(path, "f64"@) ==> values == seq![
                seq![Tok::Literal("0.0"@)],
                seq![Tok::Literal("1.0"@)],
                seq![Tok::Punct('-'), Tok::Literal("1.0"@)],
            ]
        }),
{
    lemma_type_names();
    lemma_named(path, errors, enums);
    assert(fnvalue::new_value("String"@) =~= path_call("String"@, "new"@, Seq::empty()));
    assert(tokens::method_call(fnvalue::sample_text(), "into"@) =~= method_of(seq![Tok::Literal("\"xyzzy\""@)], "into"@));
}

/// Types of the standard library with fixed values, by their last name: paths, durations, nonzero numbers, and the outcomes
/// of a comparison.
pub proof fn library_types_have_fixed_values(path: Path, errors: Seq<Seq<Tok>>, enums: Map<Seq<char>, Seq<Seq<char>>>)
    ensures
        ({
            let values = fnvalue::type_values(Type::Path(path), errors, enums);
            let one = method_of(method_of(seq![Tok::Literal("1"@)], "try_into"@), "unwrap"@);
            let minus_one = method_of(
                method_of(
                    seq![Tok::Group(Delimiter::Parenthesis, seq![Tok::Punct('-'), Tok::Literal("1"@)])],
                    "try_into"@,
                ),
                "unwrap"@,
            );
            let unsigned = is_named(path, "NonZeroU8"@) || is_named(path, "NonZeroU16"@) || is_named(path, "NonZeroU32"@)
                || is_named(path, "NonZeroU64"@) || is_named(path, "NonZeroU128"@) || is_named(path, "NonZeroUsize"@);
            let signed = is_named(path, "NonZeroI8"@) || is_named(path, "NonZeroI16"@) || is_named(path, "NonZeroI32"@)
                || is_named(path, "NonZeroI64"@) || is_named(path, "NonZeroI128"@) || is_named(path, "NonZeroIsize"@);
            &&& forall|name: Seq<char>|
                #[trigger] is_named(path, name) && (name == "PathBuf"@ || name == "Utf8PathBuf"@ || name == "OsString"@)
                    ==> values == seq![
                    path_call(name, "new"@, Seq::empty()),
                    path_call(name, "from"@, seq![Tok::Literal("\"xyzzy\""@)]),
                ]
            &&& is_named(path, "Duration"@) ==> values == seq![
                seq![Tok::Ident("Duration"@), Tok::Punct(':'), Tok::Punct(':'), Tok::Ident("ZERO"@)],
                path_call("Duration"@, "from_secs"@, seq![Tok::Literal("1"@)]),
            ]
            &&& unsigned ==> values == seq![one]
            &&& signed ==> values == seq![one, minus_one]
            &&& is_named(path, "Ordering"@) && (forall|i: int|
                0 <= i < path.segments@.len() ==> (#[trigger] path.segments@[i]).ident@ != "atomic"@) ==> values == seq![
                seq![Tok::Ident("Ordering"@), Tok::Punct(':'), Tok::Punct(':'), Tok::Ident("Less"@)],
                seq![Tok::Ident("Ordering"@), Tok::Punct(':'), Tok::Punct(':'), Tok::Ident("Equal"@)],
                seq![Tok::Ident("Ordering"@), Tok::Punct(':'), Tok::Punct(':'), Tok::Ident("Greater"@)],
            ]
        }),
{
    lemma_type_names();
    lemma_named(path, errors, enums);
    let one = method_of(method_of(seq![Tok::Literal("1"@)], "try_into"@), "unwrap"@);
    assert(fnvalue::nonzero_one() =~= one) by {
        assert(tokens::method_call(tokens::literal("1"@), "try_into"@) =~= method_of(
            seq![Tok::Literal("1"@)],
            "try_into"@,
        ));
    }
    let grouped = seq![Tok::Group(Delimiter::Parenthesis, seq![Tok::Punct('-'), Tok::Literal("1"@)])];
    assert(fnvalue::nonzero_minus_one() =~= method_of(method_of(grouped, "try_into"@), "unwrap"@)) by {
        assert(tokens::group(Delimiter::Parenthesis, tokens::negative("1"@)) =~= grouped);
        assert(tokens::method_call(grouped, "try_into"@) =~= method_of(grouped, "try_into"@));
    }
    let name = path.segments@[path.segments@.len() - 1].ident@;
    assert(fnvalue::new_value(name) =~= path_call(name, "new"@, Seq::empty()));
    assert(tokens::call(tokens::assoc(name, "from"@), fnvalue::sample_text()) =~= path_call(
        name,
        "from"@,
        seq![Tok::Literal("\"xyzzy\""@)],
    ));
    assert(tokens::call(tokens::assoc("Duration"@, "from_secs"@), tokens::literal("1"@)) =~= path_call(
        "Duration"@,
        "from_secs"@,
        seq![Tok::Literal("1"@)],
    ));
    if is_named(path, "Ordering"@) && (forall|i: int|
        0 <= i < path.segments@.len() ==> (#[trigger] path.segments@[i]).ident@ != "atomic"@) {
        assert(fnvalue::names_comparison(path));
    }
}

/// An `Option` is replaced by `None`, and by `Some` of each replacement of its type; a `Vec` by an empty one, and by one of
/// each replacement of its element type.
pub proof fn options_and_vectors_hold_nothing_or_one_value(
    path: Path,
    args: Seq<GenericArgument>,
    k: int,
    errors: Seq<Seq<Tok>>,
    enums: Map<Seq<char>, Seq<Seq<char>>>,
)
    requires
        has_args(path, args),
        first_type_at(args, k),
    ensures
        ({
            let inner = fnvalue::type_values(args[k]->Type_0, errors, enums);
            let values = fnvalue::type_values(Type::Path(path), errors, enums);
            &&& is_named(path, "Option"@) ==> {
                &&& values.len() == inner.len() + 1
                &&& values[0] == seq![Tok::Ident("None"@)]
                &&& forall|i: int| 0 <= i < inner.len() ==> values[i + 1] == plain_call("Some"@, #[trigger] inner[i])
            }
            &&& is_named(path, "Vec"@) ==> {
                &&& values.len() == inner.len() + 1
                &&& values[0] == vec_macro(Seq::empty())
                &&& forall|i: int| 0 <= i < inner.len() ==> values[i + 1] == vec_macro(#[trigger] inner[i])
            }
        }),
{
    lemma_type_names();
    lemma_leading_type(args, 0, k);
    assert(types::angle_args(path) == Some(args));
    assert(types::arg_type(path, k) == args[k]->Type_0);
    let inner = fnvalue::type_values(args[k]->Type_0, errors, enums);
    let values = fnvalue::type_values(Type::Path(path), errors, enums);
    assert(values == fnvalue::path_values(path, errors, enums));
    if is_named(path, "Option"@) {
        assert(fnvalue::first_type_arg(path, "Option"@) == Some(k));
        assert(fnvalue::plain_values(path) is None);
        assert forall|i: int| 0 <= i < inner.len() implies values[i + 1] == plain_call("Some"@, #[trigger] inner[i]) by {
            assert(values[i + 1] =~= plain_call("Some"@, inner[i]));
        }
    }
    if is_named(path, "Vec"@) {
        assert(fnvalue::first_type_arg(path, "Vec"@) == Some(k));
        assert(fnvalue::plain_values(path) is None);
        assert forall|i: int| 0 <= i < inner.len() implies values[i + 1] == vec_macro(#[trigger] inner[i]) by {
            assert(values[i + 1] =~= vec_macro(inner[i]));
        }
    }
}

/// `NonZero<T>` is replaced by one, and by minus one too unless `T` is known to be unsigned.
pub proof fn nonzero_types_are_not_zero(
    path: Path,
    args: Seq<GenericArgument>,
    k: int,
    errors: Seq<Seq<Tok>>,
    enums: Map<Seq<char>, Seq<Seq<char>>>,
)
    requires
        is_named(path, "NonZero"@),
        has_args(path, args),
        first_type_at(args, k),
    ensures
        ({
            let values = fnvalue::type_values(Type::Path(path), errors, enums);
            let unsigned = args[k]->Type_0 matches Type::Path(inner) && (is_bare(inner, "u8"@) || is_bare(inner, "u16"@)
                || is_bare(inner, "u32"@) || is_bare(inner, "u64"@) || is_bare(inner, "u128"@) || is_bare(inner, "usize"@));
            let one = method_of(method_of(seq![Tok::Literal("1"@)], "try_into"@), "unwrap"@);
            let minus_one = method_of(
                method_of(
                    seq![Tok::Group(Delimiter::Parenthesis, seq![Tok::Punct('-'), Tok::Literal("1"@)])],
                    "try_into"@,
                ),
                "unwrap"@,
            );
            values == if unsigned {
                seq![one]
            } else {
                seq![one, minus_one]
            }
        }),
{
    lemma_type_names();
    lemma_named(path, errors, enums);
    lemma_leading_type(args, 0, k);
    assert(types::angle_args(path) == Some(args));
    assert(types::arg_type(path, k) == args[k]->Type_0);
    assert(fnvalue::first_type_arg(path, "NonZero"@) == Some(k));
    let literal = seq![Tok::Literal("1"@)];
    assert(tokens::method_call(literal, "try_into"@) =~= method_of(literal, "try_into"@));
    assert(fnvalue::nonzero_one() =~= method_of(method_of(literal, "try_into"@), "unwrap"@));
    let grouped = seq![Tok::Group(Delimiter::Parenthesis, seq![Tok::Punct('-'), Tok::Literal("1"@)])];
    assert(tokens::group(Delimiter::Parenthesis, tokens::negative("1"@)) =~= grouped);
    assert(tokens::method_call(grouped, "try_into"@) =~= method_of(grouped, "try_into"@));
    assert(fnvalue::nonzero_minus_one() =~= method_of(method_of(grouped, "try_into"@), "unwrap"@));
}

proof fn lemma_flat_contains(values: Seq<Seq<Tok>>, f: spec_fn(Seq<Tok>) -> Seq<Seq<Tok>>, x: Seq<Tok>)
    ensures
        fnvalue::flat(values, f).contains(x) <==> exists|i: int| 0 <= i < values.len() && f(#[trigger] values[i]).contains(x),
    decreases values.len(),
{
    if values.len() > 0 {
        let front = values.drop_last();
        lemma_flat_contains(front, f, x);
        let before = fnvalue::flat(front, f);
        let last = f(values.last());
        let all = before + last;
        if all.contains(x) {
            let p = choose|p: int| 0 <= p < all.len() && all[p] == x;
            if p < before.len() {
                assert(before[p] == x);
                let i = choose|i: int| 0 <= i < front.len() && f(#[trigger] front[i]).contains(x);
                assert(f(values[i]).contains(x));
            } else {
                assert(last[p - before.len()] == x);
                assert(f(values[values.len() - 1]).contains(x));
            }
        }
        if exists|i: int| 0 <= i < values.len() && f(#[trigger] values[i]).contains(x) {
            let i = choose|i: int| 0 <= i < values.len() && f(#[trigger] values[i]).contains(x);
            if i < front.len() {
                assert(f(front[i]).contains(x));
                let p = choose|p: int| 0 <= p < before.len() && before[p] == x;
                assert(all[p] == x);
            } else {
                let p = choose|p: int| 0 <= p < last.len() && last[p] == x;
                assert(all[before.len() + p] == x);
            }
        }
    }
}

proof fn lemma_flat_len(values: Seq<Seq<Tok>>, f: spec_fn(Seq<Tok>) -> Seq<Seq<Tok>>, n: nat)
    requires
        forall|i: int| 0 <= i < values.len() ==> f(#[trigger] values[i]).len() == n,
    ensures
        fnvalue::flat(values, f).len() == values.len() * n,
    decreases values.len(),
{
    if values.len() > 0 {
        let front = values.drop_last();
        assert forall|i: int| 0 <= i < front.len() implies f(#[trigger] front[i]).len() == n by {
            assert(f(values[i]).len() == n);
        }
        lemma_flat_len(front, f, n);
        assert(f(values[values.len() - 1]).len() == n);
        assert(values.len() * n == front.len() * n + n) by (nonlinear_arith)
            requires
                values.len() == front.len() + 1,
        ;
    } else {
        assert(values.len() * n == 0) by (nonlinear_arith)
            requires
                values.len() == 0,
        ;
    }
}

/// A `Cow` is replaced by a borrowed and an owned form of each replacement of its type.
pub proof fn cows_are_borrowed_and_owned(
    path: Path,
    args: Seq<GenericArgument>,
    k: int,
    errors: Seq<Seq<Tok>>,
    enums: Map<Seq<char>, Seq<Seq<char>>>,
    x: Seq<Tok>,
)
    requires
        is_named(path, "Cow"@),
        has_args(path, args),
        first_type_at(args, k),
    ensures
        ({
            let inner = fnvalue::type_values(args[k]->Type_0, errors, enums);
            let values = fnvalue::type_values(Type::Path(path), errors, enums);
            &&& values.len() == 2 * inner.len()
            &&& values.contains(x) <==> exists|i: int|
                0 <= i < inner.len() && (x == path_call("Cow"@, "Borrowed"@, #[trigger] inner[i]) || x == path_call(
                    "Cow"@,
                    "Owned"@,
                    method_of(inner[i], "to_owned"@),
                ))
        }),
{
    lemma_type_names();
    lemma_leading_type(args, 0, k);
    assert(types::angle_args(path) == Some(args));
    assert(types::arg_type(path, k) == args[k]->Type_0);
    assert(fnvalue::first_type_arg(path, "Cow"@) == Some(k));
    assert(fnvalue::plain_values(path) is None);
    let inner = fnvalue::type_values(args[k]->Type_0, errors, enums);
    let values = fnvalue::type_values(Type::Path(path), errors, enums);
    assert(values == fnvalue::path_values(path, errors, enums));
    let both = |r: Seq<Tok>|
        seq![
            fnvalue::assoc_call("Cow"@, "Borrowed"@, r),
            fnvalue::assoc_call("Cow"@, "Owned"@, tokens::method_call(r, "to_owned"@)),
        ];
    assert(values == fnvalue::flat(inner, both));
    lemma_flat_len(inner, both, 2);
    lemma_flat_contains(inner, both, x);
    assert forall|i: int| 0 <= i < inner.len() implies (both(#[trigger] inner[i]).contains(x) <==> x == path_call(
        "Cow"@,
        "Borrowed"@,
        inner[i],
    ) || x == path_call("Cow"@, "Owned"@, method_of(inner[i], "to_owned"@))) by {
        assert(tokens::method_call(inner[i], "to_owned"@) =~= method_of(inner[i], "to_owned"@));
        assert(both(inner[i])[0] =~= path_call("Cow"@, "Borrowed"@, inner[i]));
        assert(both(inner[i])[1] =~= path_call("Cow"@, "Owned"@, method_of(inner[i], "to_owned"@)));
    }
    assert(values.contains(x) <==> exists|i: int| 0 <= i < inner.len() && both(#[trigger] inner[i]).contains(x));
}

/// A container of one value is replaced by one made of each replacement of the type of that value; so one that holds a `dyn`
/// has no replacement. A collection is replaced by an empty one, and by one of each replacement of its element type.
pub proof fn containers_and_collections_hold_values_of_their_type(
    path: Path,
    name: Seq<char>,
    elem: Type,
    errors: Seq<Seq<Tok>>,
    enums: Map<Seq<char>, Seq<Seq<char>>>,
)
    requires
        is_named(path, name),
        has_args(path, seq![GenericArgument::Type(elem)]),
    ensures
        ({
            let inner = fnvalue::type_values(elem, errors, enums);
            let values = fnvalue::type_values(Type::Path(path), errors, enums);
            &&& name == "Box"@ || name == "Cell"@ || name == "RefCell"@ || name == "Arc"@ || name == "Rc"@ || name == "Mutex"@
                ==> {
                &&& values.len() == inner.len()
                &&& forall|i: int| 0 <= i < inner.len() ==> values[i] == path_call(name, "new"@, #[trigger] inner[i])
            }
            &&& name == "BinaryHeap"@ || name == "BTreeSet"@ || name == "HashSet"@ || name == "LinkedList"@ || name
                == "VecDeque"@ ==> {
                &&& values.len() == inner.len() + 1
                &&& values[0] == path_call(name, "new"@, Seq::empty())
                &&& forall|i: int| 0 <= i < inner.len() ==> values[i + 1] == collected_from(name, #[trigger] inner[i])
            }
        }),
{
    lemma_type_names();
    let args = seq![GenericArgument::Type(elem)];
    assert(types::angle_args(path) == Some(args));
    assert(types::arg_type(path, 0) == elem);
    assert(fnvalue::last_ident(path) == Some(name));
    let inner = fnvalue::type_values(elem, errors, enums);
    let values = fnvalue::type_values(Type::Path(path), errors, enums);
    assert(values == fnvalue::path_values(path, errors, enums));
    if name == "Box"@ || name == "Cell"@ || name == "RefCell"@ || name == "Arc"@ || name == "Rc"@ || name == "Mutex"@ {
        assert(fnvalue::plain_values(path) is None);
        assert(fnvalue::names_container(path));
        assert forall|i: int| 0 <= i < inner.len() implies values[i] == path_call(name, "new"@, #[trigger] inner[i]) by {
            assert(values[i] =~= path_call(name, "new"@, inner[i]));
        }
    }
    if name == "BinaryHeap"@ || name == "BTreeSet"@ || name == "HashSet"@ || name == "LinkedList"@ || name == "VecDeque"@ {
        assert(fnvalue::plain_values(path) is None);
        assert(fnvalue::names_collection(path));
        assert(!fnvalue::names_container(path));
        assert(values[0] =~= path_call(name, "new"@, Seq::empty()));
        assert forall|i: int| 0 <= i < inner.len() implies values[i + 1] == collected_from(name, #[trigger] inner[i]) by {
            assert(values[i + 1] =~= collected_from(name, inner[i]));
        }
    }
}

/// A map is replaced by an empty one, and by one of each pair of a replacement of its key type and one of its value type.
pub proof fn maps_hold_pairs_of_values(
    path: Path,
    name: Seq<char>,
    key: Type,
    value: Type,
    errors: Seq<Seq<Tok>>,
    enums: Map<Seq<char>, Seq<Seq<char>>>,
    x: Seq<Tok>,
)
    requires
        is_named(path, name),
        name == "BTreeMap"@ || name == "HashMap"@,
        has_args(path, seq![GenericArgument::Type(key), GenericArgument::Type(value)]),
    ensures
        ({
            let keys = fnvalue::type_values(key, errors, enums);
            let held = fnvalue::type_values(value, errors, enums);
            let values = fnvalue::type_values(Type::Path(path), errors, enums);
            &&& values.len() == 1 + keys.len() * held.len()
            &&& values[0] == path_call(name, "new"@, Seq::empty())
            &&& values.contains(x) <==> x == path_call(name, "new"@, Seq::empty()) || exists|i: int, j: int|
                0 <= i < keys.len() && 0 <= j < held.len() && x == collected_from(
                    name,
                    seq![
                        Tok::Group(
                            Delimiter::Parenthesis,
                            #[trigger] keys[i] + seq![Tok::Punct(',')] + #[trigger] held[j],
                        ),
                    ],
                )
        }),
{
    lemma_type_names();
    let args = seq![GenericArgument::Type(key), GenericArgument::Type(value)];
    assert(types::angle_args(path) == Some(args));
    assert(types::arg_type(path, 0) == key);
    assert(types::arg_type(path, 1) == value);
    assert(fnvalue::last_ident(path) == Some(name));
    assert(fnvalue::plain_values(path) is None);
    let keys = fnvalue::type_values(key, errors, enums);
    let held = fnvalue::type_values(value, errors, enums);
    let values = fnvalue::type_values(Type::Path(path), errors, enums);
    assert(values == fnvalue::path_values(path, errors, enums));
    assert(values == fnvalue::map_values(name, keys, held));
    let pairs = |k: Seq<Tok>| fnvalue::each(held, |v: Seq<Tok>| fnvalue::from_iter(name, fnvalue::pair(k, v)));
    let empty = path_call(name, "new"@, Seq::empty());
    assert(fnvalue::new_value(name) =~= empty);
    let made = fnvalue::flat(keys, pairs);
    assert(values =~= seq![empty] + made);
    lemma_flat_len(keys, pairs, held.len());
    lemma_flat_contains(keys, pairs, x);
    assert forall|i: int, j: int| 0 <= i < keys.len() && 0 <= j < held.len() implies pairs(#[trigger] keys[i])[j]
        == collected_from(
        name,
        seq![Tok::Group(Delimiter::Parenthesis, keys[i] + seq![Tok::Punct(',')] + #[trigger] held[j])],
    ) by {
        assert(keys[i].push(Tok::Punct(',')) + held[j] =~= keys[i] + seq![Tok::Punct(',')] + held[j]);
        assert(pairs(keys[i])[j] =~= collected_from(
            name,
            seq![Tok::Group(Delimiter::Parenthesis, keys[i] + seq![Tok::Punct(',')] + held[j])],
        ));
    }
    if values.contains(x) {
        let p = choose|p: int| 0 <= p < values.len() && values[p] == x;
        if p > 0 {
            assert(made[p - 1] == x);
            let i = choose|i: int| 0 <= i < keys.len() && pairs(#[trigger] keys[i]).contains(x);
            let row = pairs(keys[i]);
            let j = choose|j: int| 0 <= j < row.len() && row[j] == x;
            assert(x == collected_from(
                name,
                seq![Tok::Group(Delimiter::Parenthesis, keys[i] + seq![Tok::Punct(',')] + held[j])],
            ));
        }
    }
    if exists|i: int, j: int|
        0 <= i < keys.len() && 0 <= j < held.len() && x == collected_from(
            name,
            seq![Tok::Group(Delimiter::Parenthesis, #[trigger] keys[i] + seq![Tok::Punct(',')] + #[trigger] held[j])],
        ) {
        let (i, j) = choose|i: int, j: int|
            0 <= i < keys.len() && 0 <= j < held.len() && x == collected_from(
                name,
                seq![Tok::Group(Delimiter::Parenthesis, #[trigger] keys[i] + seq![Tok::Punct(',')] + #[trigger] held[j])],
            );
        assert(pairs(keys[i])[j] == x);
        assert(pairs(keys[i]).contains(x));
        let p = choose|p: int| 0 <= p < made.len() && made[p] == x;
        assert(values[p + 1] == x);
    }
    assert(values[0] == empty);
}

/// That the values of a type of this name have a rule of their own.
pub open spec fn has_own_rule(name: Seq<char>) -> bool {
    ||| name == "bool"@
    ||| name == "String"@
    ||| name == "str"@
    ||| name == "char"@
    ||| name == "u8"@
    ||| name == "u16"@
    ||| name == "u32"@
    ||| name == "u64"@
    ||| name == "u128"@
    ||| name == "usize"@
    ||| name == "i8"@
    ||| name == "i16"@
    ||| name == "i32"@
    ||| name == "i64"@
    ||| name == "i128"@
    ||| name == "isize"@
    ||| name == "f32"@
    ||| name == "f64"@
    ||| name == "PathBuf"@
    ||| name == "Utf8PathBuf"@
    ||| name == "OsString"@
    ||| name == "Duration"@
    ||| name == "NonZeroIsize"@
    ||| name == "NonZeroI8"@
    ||| name == "NonZeroI16"@
    ||| name == "NonZeroI32"@
    ||| name == "NonZeroI64"@
    ||| name == "NonZeroI128"@
    ||| name == "NonZeroUsize"@
    ||| name == "NonZeroU8"@
    ||| name == "NonZeroU16"@
    ||| name == "NonZeroU32"@
    ||| name == "NonZeroU64"@
    ||| name == "NonZeroU128"@
    ||| name == "NonZero"@
    ||| name == "Ordering"@
    ||| name == "Result"@
    ||| name == "HttpResponse"@
    ||| name == "Option"@
    ||| name == "Vec"@
    ||| name == "Cow"@
    ||| name == "Pin"@
    ||| name == "NonNull"@
    ||| name == "Instant"@
    ||| name == "SystemTime"@
    ||| name == "Range"@
    ||| name == "Box"@
    ||| name == "Cell"@
    ||| name == "RefCell"@
    ||| name == "Arc"@
    ||| name == "Rc"@
    ||| name == "Mutex"@
    ||| name == "BinaryHeap"@
    ||| name == "BTreeSet"@
    ||| name == "HashSet"@
    ||| name == "LinkedList"@
    ||| name == "VecDeque"@
    ||| name == "BTreeMap"@
    ||| name == "HashMap"@
}

/// A type of another name with one type argument is taken for a collection or a container: it is replaced by an empty one, and
/// by one of each replacement of the argument, made in each of three ways.
pub proof fn unknown_collections_are_guessed(
    path: Path,
    name: Seq<char>,
    args: Seq<GenericArgument>,
    k: int,
    errors: Seq<Seq<Tok>>,
    enums: Map<Seq<char>, Seq<Seq<char>>>,
    x: Seq<Tok>,
)
    requires
        is_named(path, name),
        !has_own_rule(name),
        has_args(path, args),
        only_type_at(args, k),
    ensures
        ({
            let inner = fnvalue::type_values(args[k]->Type_0, errors, enums);
            let values = fnvalue::type_values(Type::Path(path), errors, enums);
            &&& values.len() == 1 + 3 * inner.len()
            &&& values[0] == path_call(name, "new"@, Seq::empty())
            &&& values.contains(x) <==> x == path_call(name, "new"@, Seq::empty()) || exists|i: int|
                0 <= i < inner.len() && (x == collected_from(name, #[trigger] inner[i]) || x == path_call(
                    name,
                    "new"@,
                    inner[i],
                ) || x == path_call(name, "from"@, inner[i]))
        }),
{
    lemma_nth_type_among(args, 0, k);
    assert(types::angle_args(path) == Some(args));
    assert(types::arg_type(path, k) == args[k]->Type_0);
    assert(fnvalue::last_ident(path) == Some(name));
    assert(fnvalue::plain_values(path) is None);
    assert(fnvalue::only_type_arg(path) == Some(k));
    let inner = fnvalue::type_values(args[k]->Type_0, errors, enums);
    let values = fnvalue::type_values(Type::Path(path), errors, enums);
    assert(values == fnvalue::path_values(path, errors, enums));
    assert(values == fnvalue::guessed_values(name, inner));
    let ways = |r: Seq<Tok>|
        seq![
            fnvalue::from_iter(name, r),
            fnvalue::assoc_call(name, "new"@, r),
            fnvalue::assoc_call(name, "from"@, r),
        ];
    let empty = path_call(name, "new"@, Seq::empty());
    assert(fnvalue::new_value(name) =~= empty);
    let made = fnvalue::flat(inner, ways);
    assert(values =~= seq![empty] + made);
    lemma_flat_len(inner, ways, 3);
    lemma_flat_contains(inner, ways, x);
    assert forall|i: int| 0 <= i < inner.len() implies (ways(#[trigger] inner[i]).contains(x) <==> x == collected_from(
        name,
        inner[i],
    ) || x == path_call(name, "new"@, inner[i]) || x == path_call(name, "from"@, inner[i])) by {
        assert(ways(inner[i])[0] =~= collected_from(name, inner[i]));
        assert(ways(inner[i])[1] =~= path_call(name, "new"@, inner[i]));
        assert(ways(inner[i])[2] =~= path_call(name, "from"@, inner[i]));
    }
    assert(made.contains(x) <==> exists|i: int| 0 <= i < inner.len() && ways(#[trigger] inner[i]).contains(x));
    if values.contains(x) {
        let p = choose|p: int| 0 <= p < values.len() && values[p] == x;
        if p > 0 {
            assert(made[p - 1] == x);
        }
    }
    if made.contains(x) {
        let p = choose|p: int| 0 <= p < made.len() && made[p] == x;
        assert(values[p + 1] == x);
    }
    assert(values[0] == empty);
}

/// A type of another name without type arguments is replaced by each of its unit variants, if it is an enum of the same file
/// that has some, and otherwise by its default.
pub proof fn other_types_are_enums_or_have_a_default(
    path: Path,
    name: Seq<char>,
    errors: Seq<Seq<Tok>>,
    enums: Map<Seq<char>, Seq<Seq<char>>>,
)
    requires
        is_named(path, name),
        !has_own_rule(name),
        types::angle_args(path) is None,
    ensures
        ({
            let values = fnvalue::type_values(Type::Path(path), errors, enums);
            &&& enums.contains_key(name) ==> values.len() == enums[name].len() && forall|i: int|
                0 <= i < enums[name].len() ==> values[i] == seq![
                    Tok::Ident(name),
                    Tok::Punct(':'),
                    Tok::Punct(':'),
                    Tok::Ident(#[trigger] enums[name][i]),
                ]
            &&& !enums.contains_key(name) ==> values == seq![path_call("Default"@, "default"@, Seq::empty())]
        }),
{
    assert(fnvalue::last_ident(path) == Some(name));
    assert(fnvalue::plain_values(path) is None);
    let values = fnvalue::type_values(Type::Path(path), errors, enums);
    assert(values == fnvalue::path_values(path, errors, enums));
    assert(fnvalue::default_value() =~= path_call("Default"@, "default"@, Seq::empty()));
    if enums.contains_key(name) {
        assert forall|i: int| 0 <= i < enums[name].len() implies values[i] == seq![
            Tok::Ident(name),
            Tok::Punct(':'),
            Tok::Punct(':'),
            Tok::Ident(#[trigger] enums[name][i]),
        ] by {
            assert(values[i] == tokens::assoc(name, enums[name][i]));
        }
    }
}

/// Nothing stands in for a pin, a nonnull pointer or a point in time; a range has its default, and an HTTP response is an
/// empty one.
pub proof fn some_library_types_have_no_values(path: Path, errors: Seq<Seq<Tok>>, enums: Map<Seq<char>, Seq<Seq<char>>>)
    ensures
        ({
            let values = fnvalue::type_values(Type::Path(path), errors, enums);
            &&& is_named(path, "Pin"@) || is_named(path, "NonNull"@) || is_named(path, "Instant"@) || is_named(
                path,
                "SystemTime"@,
            ) ==> values.len() == 0
            &&& is_named(path, "Range"@) ==> values == seq![path_call("Default"@, "default"@, Seq::empty())]
            &&& is_named(path, "HttpResponse"@) ==> values == seq![
                method_of(path_call("HttpResponse"@, "Ok"@, Seq::empty()), "finish"@),
            ]
        }),
{
    lemma_type_names();
    let values = fnvalue::type_values(Type::Path(path), errors, enums);
    assert(values == fnvalue::path_values(path, errors, enums));
    assert(fnvalue::default_value() =~= path_call("Default"@, "default"@, Seq::empty()));
    let ok = tokens::call(tokens::assoc("HttpResponse"@, "Ok"@), Seq::<Tok>::empty());
    assert(ok =~= path_call("HttpResponse"@, "Ok"@, Seq::empty()));
    assert(tokens::method_call(ok, "finish"@) =~= method_of(ok, "finish"@));
    if is_named(path, "Pin"@) || is_named(path, "NonNull"@) || is_named(path, "Instant"@) || is_named(path, "SystemTime"@)
        || is_named(path, "Range"@) || is_named(path, "HttpResponse"@) {
        assert(fnvalue::plain_values(path) is None);
    }
}

/// That one of some values reads like `x`.
pub open spec fn has_text_of(values: Seq<Seq<Tok>>, x: Seq<Tok>) -> bool {
    exists|i: int| 0 <= i < values.len() && pretty::pretty(#[trigger] values[i]) == pretty::pretty(x)
}

proof fn lemma_unique_keeps_texts(values: Seq<Seq<Tok>>, n: int, k: int)
    requires
        0 <= k < n <= values.len(),
    ensures
        has_text_of(fnvalue::unique_prefix(values, n), values[k]),
    decreases n,
{
    let before = fnvalue::unique_prefix(values, n - 1);
    let after = fnvalue::unique_prefix(values, n);
    if k < n - 1 {
        lemma_unique_keeps_texts(values, n - 1, k);
        let i = choose|i: int| 0 <= i < before.len() && pretty::pretty(#[trigger] before[i]) == pretty::pretty(values[k]);
        assert(after[i] == before[i]);
    } else if exists|j: int| 0 <= j < n - 1 && pretty::pretty(#[trigger] values[j]) == pretty::pretty(values[n - 1]) {
        let j = choose|j: int| 0 <= j < n - 1 && pretty::pretty(#[trigger] values[j]) == pretty::pretty(values[n - 1]);
        lemma_unique_keeps_texts(values, n - 1, j);
        let i = choose|i: int| 0 <= i < before.len() && pretty::pretty(#[trigger] before[i]) == pretty::pretty(values[j]);
        assert(after[i] == before[i]);
    } else {
        assert(after[before.len() as int] == values[k]);
    }
}

/// A `Result` is replaced by `Ok` of each replacement of its first type, or of the default if it names none, and by `Err` of
/// each of the configured error values; and, where its second type is a simple one, by `Err` of each replacement of that.
pub proof fn results_are_ok_or_err(path: Path, args: Seq<GenericArgument>, errors: Seq<Seq<Tok>>, enums: Map<
    Seq<char>,
    Seq<Seq<char>>,
>)
    requires
        is_named(path, "Result"@),
        has_args(path, args),
    ensures
        ({
            let values = fnvalue::type_values(Type::Path(path), errors, enums);
            &&& forall|i: int| 0 <= i < errors.len() ==> has_text_of(values, plain_call("Err"@, #[trigger] errors[i]))
            &&& forall|k: int, i: int|
                #![trigger first_type_at(args, k), fnvalue::type_values(args[k]->Type_0, errors, enums)[i]]
                first_type_at(args, k) && 0 <= i < fnvalue::type_values(args[k]->Type_0, errors, enums).len()
                    ==> has_text_of(
                    values,
                    plain_call("Ok"@, fnvalue::type_values(args[k]->Type_0, errors, enums)[i]),
                )
            &&& args.len() == 0 ==> has_text_of(
                values,
                plain_call("Ok"@, path_call("Default"@, "default"@, Seq::empty())),
            )
            &&& args.len() == 2 && args[0] is Type && args[1] is Type && fnvalue::simply_constructible(args[1]->Type_0)
                ==> forall|i: int|
                0 <= i < fnvalue::type_values(args[1]->Type_0, errors, enums).len() ==> has_text_of(
                    values,
                    plain_call("Err"@, #[trigger] fnvalue::type_values(args[1]->Type_0, errors, enums)[i]),
                )
        }),
{
    lemma_type_names();
    assert(types::angle_args(path) == Some(args));
    assert(fnvalue::plain_values(path) is None);
    let values = fnvalue::type_values(Type::Path(path), errors, enums);
    assert(values == fnvalue::path_values(path, errors, enums));
    let ok = match fnvalue::first_type_arg(path, "Result"@) {
        Some(k) => if fnvalue::is_type_arg(path, k) {
            Some(fnvalue::type_values(types::arg_type(path, k), errors, enums))
        } else {
            None
        },
        None => None,
    };
    let err = match fnvalue::nth_type_arg(path, "Result"@, 1) {
        Some(k) => if fnvalue::is_type_arg(path, k) && fnvalue::simply_constructible(types::arg_type(path, k)) {
            Some(fnvalue::type_values(types::arg_type(path, k), errors, enums))
        } else {
            None
        },
        None => None,
    };
    assert(values == fnvalue::result_values(ok, errors, err));
    let oks = match ok {
        Some(given) => fnvalue::each(given, |r: Seq<Tok>| tokens::call(tokens::word("Ok"@), r)),
        None => seq![tokens::call(tokens::word("Ok"@), fnvalue::default_value())],
    };
    let configured = fnvalue::each(errors, |r: Seq<Tok>| tokens::call(tokens::word("Err"@), r));
    let recursed = match err {
        Some(given) => fnvalue::each(given, |r: Seq<Tok>| tokens::call(tokens::word("Err"@), r)),
        None => Seq::<Seq<Tok>>::empty(),
    };
    let all = oks + configured + recursed;
    assert(values == fnvalue::unique_prefix(all, all.len() as int));
    assert forall|i: int| 0 <= i < errors.len() implies has_text_of(values, plain_call("Err"@, #[trigger] errors[i])) by {
        lemma_unique_keeps_texts(all, all.len() as int, oks.len() + i);
        assert(all[oks.len() + i] =~= plain_call("Err"@, errors[i]));
    }
    assert forall|k: int, i: int|
        #![trigger first_type_at(args, k), fnvalue::type_values(args[k]->Type_0, errors, enums)[i]]
        first_type_at(args, k) && 0 <= i < fnvalue::type_values(
            args[k]->Type_0,
            errors,
            enums,
        ).len() implies has_text_of(
        values,
        plain_call("Ok"@, fnvalue::type_values(args[k]->Type_0, errors, enums)[i]),
    ) by {
        lemma_leading_type(args, 0, k);
        assert(types::arg_type(path, k) == args[k]->Type_0);
        lemma_unique_keeps_texts(all, all.len() as int, i);
        assert(all[i] =~= plain_call("Ok"@, fnvalue::type_values(args[k]->Type_0, errors, enums)[i]));
    }
    if args.len() == 0 {
        assert(fnvalue::default_value() =~= path_call("Default"@, "default"@, Seq::empty()));
        lemma_unique_keeps_texts(all, all.len() as int, 0);
        assert(all[0] =~= plain_call("Ok"@, path_call("Default"@, "default"@, Seq::empty())));
    }
    if args.len() == 2 && args[0] is Type && args[1] is Type && fnvalue::simply_constructible(args[1]->Type_0) {
        reveal_with_fuel(fnvalue::nth_type, 3);
        assert(fnvalue::nth_type_arg(path, "Result"@, 1) == Some(1int));
        assert(types::arg_type(path, 1) == args[1]->Type_0);
        let inner = fnvalue::type_values(args[1]->Type_0, errors, enums);
        assert(err == Some(inner));
        assert forall|i: int| 0 <= i < inner.len() implies has_text_of(values, plain_call("Err"@, #[trigger] inner[i])) by {
            let p = oks.len() + configured.len() + i;
            lemma_unique_keeps_texts(all, all.len() as int, p);
            assert(all[p] =~= plain_call("Err"@, inner[i]));
        }
    }
}

/// The types whose values are literals that need no default: truth values, texts, characters and numbers by their bare names,
/// and a reference to a `str`; no other.
pub proof fn literals_can_be_made_of_simple_types(path: Path, mutable: bool, elem: Type)
    ensures
        fnvalue::simply_constructible(Type::Path(path)) <==> is_bare(path, "bool"@) || is_bare(path, "String"@) || is_bare(
            path,
            "str"@,
        ) || is_bare(path, "char"@) || is_bare(path, "u8"@) || is_bare(path, "u16"@) || is_bare(path, "u32"@) || is_bare(
            path,
            "u64"@,
        ) || is_bare(path, "u128"@) || is_bare(path, "usize"@) || is_bare(path, "i8"@) || is_bare(path, "i16"@) || is_bare(
            path,
            "i32"@,
        ) || is_bare(path, "i64"@) || is_bare(path, "i128"@) || is_bare(path, "isize"@) || is_bare(path, "f32"@) || is_bare(
            path,
            "f64"@,
        ),
        fnvalue::simply_constructible(Type::Reference { mutable, elem: Box::new(elem) }) <==> (elem matches Type::Path(inner)
            && is_bare(inner, "str"@)),
        !(elem is Path) && !(elem is Reference) ==> !fnvalue::simply_constructible(elem),
{
}

proof fn lemma_unit_names(variants: Seq<Variant>, n: int, name: Seq<char>)
    requires
        0 <= n <= variants.len(),
    ensures
        fnvalue::unit_names(variants, n).contains(name) <==> exists|i: int|
            0 <= i < n && (#[trigger] variants[i]).is_unit && variants[i].name@ == name,
    decreases n,
{
    if n > 0 {
        lemma_unit_names(variants, n - 1, name);
        let before = fnvalue::unit_names(variants, n - 1);
        let after = fnvalue::unit_names(variants, n);
        if variants[n - 1].is_unit {
            if after.contains(name) {
                let i = choose|i: int| 0 <= i < after.len() && after[i] == name;
                if i < before.len() {
                    assert(before[i] == name);
                }
            }
            if before.contains(name) {
                let i = choose|i: int| 0 <= i < before.len() && before[i] == name;
                assert(after[i] == name);
            }
            assert(after[before.len() as int] == variants[n - 1].name@);
        }
    }
}

/// An enum that is declared in a file is known by its name, with its unit variants and no others, if it has any.
pub proof fn enums_are_known_by_their_unit_variants(
    enums: Map<Seq<char>, Seq<Seq<char>>>,
    items: Seq<Declaration>,
    variant: Seq<char>,
)
    requires
        items.len() > 0,
        items.last() is Enum,
    ensures
        ({
            let known = fnvalue::with_enums(enums, items, items.len() as int);
            let before = fnvalue::with_enums(enums, items, items.len() - 1);
            let name = items.last()->Enum_name@;
            let variants = items.last()->variants@;
            let has_units = exists|i: int| 0 <= i < variants.len() && (#[trigger] variants[i]).is_unit;
            &&& has_units ==> known.contains_key(name) && (known[name].contains(variant) <==> exists|i: int|
                0 <= i < variants.len() && (#[trigger] variants[i]).is_unit && variants[i].name@ == variant)
            &&& !has_units ==> known == before
            &&& forall|other: Seq<char>|
                other != name ==> (#[trigger] known.contains_key(other) <==> before.contains_key(other)) && (
                known.contains_key(other) ==> known[other] == before[other])
        }),
{
    let variants = items.last()->variants@;
    let n = variants.len() as int;
    let units = fnvalue::unit_names(variants, n);
    lemma_unit_names(variants, n, variant);
    if exists|i: int| 0 <= i < variants.len() && (#[trigger] variants[i]).is_unit {
        let i = choose|i: int| 0 <= i < variants.len() && (#[trigger] variants[i]).is_unit;
        lemma_unit_names(variants, n, variants[i].name@);
        assert(units.contains(variants[i].name@));
        assert(units.len() > 0);
    } else {
        if units.len() > 0 {
            lemma_unit_names(variants, n, units[0]);
            assert(units.contains(units[0]));
        }
    }
}

/// The enums of an inline module count as if they were declared at the top of the file, and other declarations add nothing.
pub proof fn enums_in_modules_count(
    enums: Map<Seq<char>, Seq<Seq<char>>>,
    items: Seq<Declaration>,
)
    requires
        items.len() > 0,
    ensures
        fnvalue::with_enums(enums, Seq::<Declaration>::empty(), 0) == enums,
        items.last() matches Declaration::Mod(inner) ==> fnvalue::with_enums(enums, items, items.len() as int)
            == fnvalue::with_enums(fnvalue::with_enums(enums, items, items.len() - 1), inner@, inner@.len() as int),
        items.last() is Other ==> fnvalue::with_enums(enums, items, items.len() as int) == fnvalue::with_enums(
            enums,
            items,
            items.len() - 1,
        ),
{
}

} // verus!
