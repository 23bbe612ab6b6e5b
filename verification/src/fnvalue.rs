//! Mutations of replacing a function body with a value of a (hopefully) appropriate type.

use vstd::prelude::*;
use crate::pretty;
use crate::pretty::to_pretty_string;
use crate::text;
use crate::text::same_text;
use crate::tokens;
use crate::tokens::{
    copy_tokens, mk_assoc, mk_call, mk_group, mk_literal, mk_method_call, mk_negative, mk_vec_of, mk_word,
    no_tokens, Delimiter, Tok, TokenLists, TokenTree, Tokens,
};
use crate::types;
use crate::types::{Bound, Declaration, GenericArgument, Path, PathArguments, ReturnType, Type, Variant};

verus! {

/// That a path is the bare name `name`.
pub open spec fn is_ident(path: Path, name: Seq<char>) -> bool {
    &&& !path.leading_colon
    &&& path.segments@.len() == 1
    &&& path.segments@[0].ident@ == name
    &&& path.segments@[0].arguments is Bare
}

/// The last name in a path, if it has any.
pub open spec fn last_ident(path: Path) -> Option<Seq<char>> {
    if path.segments@.len() == 0 {
        None
    } else {
        Some(path.segments@.last().ident@)
    }
}

/// That the last name in a path is `name`.
pub open spec fn path_ends(path: Path, name: Seq<char>) -> bool {
    last_ident(path) == Some(name)
}

/// That a path names a floating point type.
pub open spec fn names_float(path: Path) -> bool {
    is_ident(path, "f32"@) || is_ident(path, "f64"@)
}

/// That a path names an unsigned integer type.
pub open spec fn names_unsigned(path: Path) -> bool {
    ||| is_ident(path, "u8"@)
    ||| is_ident(path, "u16"@)
    ||| is_ident(path, "u32"@)
    ||| is_ident(path, "u64"@)
    ||| is_ident(path, "u128"@)
    ||| is_ident(path, "usize"@)
}

/// That a path names a signed integer type.
pub open spec fn names_signed(path: Path) -> bool {
    ||| is_ident(path, "i8"@)
    ||| is_ident(path, "i16"@)
    ||| is_ident(path, "i32"@)
    ||| is_ident(path, "i64"@)
    ||| is_ident(path, "i128"@)
    ||| is_ident(path, "isize"@)
}

/// That a path names a signed nonzero integer type.
pub open spec fn names_nonzero_signed(path: Path) -> bool {
    ||| path_ends(path, "NonZeroIsize"@)
    ||| path_ends(path, "NonZeroI8"@)
    ||| path_ends(path, "NonZeroI16"@)
    ||| path_ends(path, "NonZeroI32"@)
    ||| path_ends(path, "NonZeroI64"@)
    ||| path_ends(path, "NonZeroI128"@)
}

/// That a path names an unsigned nonzero integer type.
pub open spec fn names_nonzero_unsigned(path: Path) -> bool {
    ||| path_ends(path, "NonZeroUsize"@)
    ||| path_ends(path, "NonZeroU8"@)
    ||| path_ends(path, "NonZeroU16"@)
    ||| path_ends(path, "NonZeroU32"@)
    ||| path_ends(path, "NonZeroU64"@)
    ||| path_ends(path, "NonZeroU128"@)
}

/// That a path is the ordering of comparisons, such as `cmp::Ordering`, and not `atomic::Ordering`.
pub open spec fn names_comparison(path: Path) -> bool {
    &&& path_ends(path, "Ordering"@)
    &&& !exists|i: int| 0 <= i < path.segments@.len() && (#[trigger] path.segments@[i]).ident@ == "atomic"@
}

/// That a path names a simple container that can be constructed with `T::new(inner_val)`.
pub open spec fn names_container(path: Path) -> bool {
    ||| path_ends(path, "Box"@)
    ||| path_ends(path, "Cell"@)
    ||| path_ends(path, "RefCell"@)
    ||| path_ends(path, "Arc"@)
    ||| path_ends(path, "Rc"@)
    ||| path_ends(path, "Mutex"@)
}

/// That a path names a simple collection that can be empty or constructed from an iterator.
pub open spec fn names_collection(path: Path) -> bool {
    ||| path_ends(path, "BinaryHeap"@)
    ||| path_ends(path, "BTreeSet"@)
    ||| path_ends(path, "HashSet"@)
    ||| path_ends(path, "LinkedList"@)
    ||| path_ends(path, "VecDeque"@)
}

/// The position of the first argument from `i` on, if it is a type and only lifetimes come before it.
pub open spec fn leading_type(args: Seq<GenericArgument>, i: int) -> Option<int>
    decreases args.len() - i,
{
    if i < 0 || i >= args.len() {
        None
    } else {
        match args[i] {
            GenericArgument::Type(_) => Some(i),
            GenericArgument::Lifetime => leading_type(args, i + 1),
            _ => None,
        }
    }
}

/// The position of the `n`th type among the arguments from `i` on.
pub open spec fn nth_type(args: Seq<GenericArgument>, i: int, n: int) -> Option<int>
    decreases args.len() - i,
{
    if i < 0 || i >= args.len() {
        None
    } else if args[i] is Type {
        if n <= 0 {
            Some(i)
        } else {
            nth_type(args, i + 1, n - 1)
        }
    } else {
        nth_type(args, i + 1, n)
    }
}

/// The position of the first type argument of a path that ends in `name`, ignoring lifetimes.
pub open spec fn first_type_arg(path: Path, name: Seq<char>) -> Option<int> {
    if path_ends(path, name) && types::angle_args(path) is Some {
        leading_type(types::angle_args(path)->0, 0)
    } else {
        None
    }
}

/// The position of the `n`th type argument of a path that ends in `name`.
pub open spec fn nth_type_arg(path: Path, name: Seq<char>, n: int) -> Option<int> {
    if path_ends(path, name) && types::angle_args(path) is Some {
        nth_type(types::angle_args(path)->0, 0, n)
    } else {
        None
    }
}

/// That a path has one argument, a type.
pub open spec fn has_one_type(path: Path) -> bool {
    types::angle_args(path) matches Some(args) && args.len() == 1 && args[0] is Type
}

/// That a path is a map, with a key type and a value type.
pub open spec fn is_known_map(path: Path) -> bool {
    &&& path_ends(path, "BTreeMap"@) || path_ends(path, "HashMap"@)
    &&& types::angle_args(path) matches Some(args) && args.len() == 2 && args[0] is Type && args[1] is Type
}

/// The position of the only type among the arguments of a path.
pub open spec fn only_type_arg(path: Path) -> Option<int> {
    match types::angle_args(path) {
        Some(args) if nth_type(args, 0, 1) is None => nth_type(args, 0, 0),
        _ => None,
    }
}

/// That a bound is `Iterator<Item = T>`.
pub open spec fn is_iterator(bound: Bound) -> bool {
    match bound {
        Bound::Trait(path) => path_ends(path, "Iterator"@) && (types::angle_args(path) matches Some(args)
            && args.len() > 0 && (args[0] matches GenericArgument::AssocType(name, _) && name@ == "Item"@)),
        Bound::Other => false,
    }
}

/// The position of the first bound from `i` on that is `Iterator<Item = T>`.
pub open spec fn iterator_bound(bounds: Seq<Bound>, i: int) -> Option<int>
    decreases bounds.len() - i,
{
    if i < 0 || i >= bounds.len() {
        None
    } else if is_iterator(bounds[i]) {
        Some(i)
    } else {
        iterator_bound(bounds, i + 1)
    }
}

/// The item type of a bound that is `Iterator<Item = T>`.
pub open spec fn item_type(bound: Bound) -> Type {
    types::angle_args(bound->Trait_0)->0[0]->AssocType_1
}

/// Whether replacement values of a type are literals known to compile without relying on `Default`.
pub open spec fn simply_constructible(t: Type) -> bool {
    match t {
        Type::Path(path) => {
            ||| is_ident(path, "bool"@)
            ||| is_ident(path, "String"@)
            ||| is_ident(path, "str"@)
            ||| is_ident(path, "char"@)
            ||| names_unsigned(path)
            ||| names_signed(path)
            ||| names_float(path)
        },
        Type::Reference { elem, .. } => *elem matches Type::Path(path) && is_ident(path, "str"@),
        _ => false,
    }
}

/// Each of some values, changed by `f`.
pub open spec fn each(values: Seq<Seq<Tok>>, f: spec_fn(Seq<Tok>) -> Seq<Tok>) -> Seq<Seq<Tok>> {
    Seq::new(values.len(), |i: int| f(values[i]))
}

/// What `f` makes of each of some values, one behind the other.
pub open spec fn flat(values: Seq<Seq<Tok>>, f: spec_fn(Seq<Tok>) -> Seq<Seq<Tok>>) -> Seq<Seq<Tok>>
    decreases values.len(),
{
    if values.len() == 0 {
        Seq::<Seq<Tok>>::empty()
    } else {
        flat(values.drop_last(), f) + f(values.last())
    }
}

/// The values among the first `n` whose text is not that of an earlier one.
pub open spec fn unique_prefix(values: Seq<Seq<Tok>>, n: int) -> Seq<Seq<Tok>>
    decreases n,
{
    if n <= 0 {
        Seq::<Seq<Tok>>::empty()
    } else if exists|j: int| 0 <= j < n - 1 && pretty::pretty(#[trigger] values[j]) == pretty::pretty(values[n - 1]) {
        unique_prefix(values, n - 1)
    } else {
        unique_prefix(values, n - 1).push(values[n - 1])
    }
}

/// The values whose text is not that of an earlier one.
pub open spec fn unique(values: Seq<Seq<Tok>>) -> Seq<Seq<Tok>> {
    unique_prefix(values, values.len() as int)
}

/// All ways to take one value from each list: the last list varies fastest.
pub open spec fn choices(lists: Seq<Seq<Seq<Tok>>>) -> Seq<Seq<Seq<Tok>>>
    decreases lists.len(),
{
    if lists.len() == 0 {
        seq![Seq::<Seq<Tok>>::empty()]
    } else {
        extended_choices(choices(lists.drop_last()), lists.last())
    }
}

/// Each of some choices, extended by each of the values.
pub open spec fn extended_choices(chosen: Seq<Seq<Seq<Tok>>>, values: Seq<Seq<Tok>>) -> Seq<Seq<Seq<Tok>>>
    decreases chosen.len(),
{
    if chosen.len() == 0 {
        Seq::<Seq<Seq<Tok>>>::empty()
    } else {
        extended_choices(chosen.drop_last(), values) + Seq::new(
            values.len(),
            |i: int| chosen.last().push(values[i]),
        )
    }
}

/// `Default::default()`.
pub open spec fn default_value() -> Seq<Tok> {
    tokens::call(tokens::assoc("Default"@, "default"@), Seq::<Tok>::empty())
}

/// `name::new()`.
pub open spec fn new_value(name: Seq<char>) -> Seq<Tok> {
    tokens::call(tokens::assoc(name, "new"@), Seq::<Tok>::empty())
}

/// `1.try_into().unwrap()`, for a literal and for `(-1)`.
pub open spec fn converted(value: Seq<Tok>) -> Seq<Tok> {
    tokens::method_call(tokens::method_call(value, "try_into"@), "unwrap"@)
}

/// `"xyzzy"`.
pub open spec fn sample_text() -> Seq<Tok> {
    tokens::literal("\"xyzzy\""@)
}

/// The value `1` of a nonzero type.
pub open spec fn nonzero_one() -> Seq<Tok> {
    converted(tokens::literal("1"@))
}

/// The value `-1` of a nonzero type.
pub open spec fn nonzero_minus_one() -> Seq<Tok> {
    converted(tokens::group(Delimiter::Parenthesis, tokens::negative("1"@)))
}

/// The values of a `NonZero<T>`: positive ones only where `T` is known to be unsigned.
pub open spec fn nonzero_values(inner: Type) -> Seq<Seq<Tok>> {
    if inner is Path && names_unsigned(inner->Path_0) {
        seq![nonzero_one()]
    } else {
        seq![nonzero_one(), nonzero_minus_one()]
    }
}

/// The replacement values of a named type whose values are fixed.
pub open spec fn plain_values(path: Path) -> Option<Seq<Seq<Tok>>> {
    if is_ident(path, "bool"@) {
        Some(seq![tokens::word("true"@), tokens::word("false"@)])
    } else if is_ident(path, "String"@) {
        Some(seq![new_value("String"@), tokens::method_call(sample_text(), "into"@)])
    } else if is_ident(path, "str"@) {
        Some(seq![tokens::literal("\"\""@), sample_text()])
    } else if is_ident(path, "char"@) {
        Some(seq![tokens::literal("'\\0'"@), tokens::literal("'x'"@)])
    } else if path_ends(path, "PathBuf"@) || path_ends(path, "Utf8PathBuf"@) || path_ends(path, "OsString"@) {
        let name = last_ident(path)->0;
        Some(seq![new_value(name), tokens::call(tokens::assoc(name, "from"@), sample_text())])
    } else if path_ends(path, "Duration"@) {
        Some(
            seq![
                tokens::assoc("Duration"@, "ZERO"@),
                tokens::call(tokens::assoc("Duration"@, "from_secs"@), tokens::literal("1"@)),
            ],
        )
    } else if names_unsigned(path) {
        Some(seq![tokens::literal("0"@), tokens::literal("1"@)])
    } else if names_signed(path) {
        Some(seq![tokens::literal("0"@), tokens::literal("1"@), tokens::negative("1"@)])
    } else if names_nonzero_signed(path) {
        Some(seq![nonzero_one(), nonzero_minus_one()])
    } else if names_nonzero_unsigned(path) {
        Some(seq![nonzero_one()])
    } else if first_type_arg(path, "NonZero"@) is Some {
        Some(nonzero_values(types::arg_type(path, first_type_arg(path, "NonZero"@)->0)))
    } else if names_float(path) {
        Some(seq![tokens::literal("0.0"@), tokens::literal("1.0"@), tokens::negative("1.0"@)])
    } else if names_comparison(path) {
        Some(
            seq![
                tokens::assoc("Ordering"@, "Less"@),
                tokens::assoc("Ordering"@, "Equal"@),
                tokens::assoc("Ordering"@, "Greater"@),
            ],
        )
    } else {
        None
    }
}

/// `vec![value]`, leaked.
pub open spec fn leaked_vec(value: Seq<Tok>) -> Seq<Tok> {
    tokens::call(tokens::assoc("Vec"@, "leak"@), tokens::vec_of(value))
}

/// `Box::leak(Box::new(value))`.
pub open spec fn leaked_box(value: Seq<Tok>) -> Seq<Tok> {
    tokens::call(
        tokens::assoc("Box"@, "leak"@),
        tokens::call(tokens::assoc("Box"@, "new"@), value),
    )
}

/// The replacement values of a slice, given those of its elements.
pub open spec fn slice_values(elements: Seq<Seq<Tok>>) -> Seq<Seq<Tok>> {
    seq![tokens::call(tokens::assoc("Vec"@, "leak"@), new_value("Vec"@))] + each(
        elements,
        |r: Seq<Tok>| leaked_vec(r),
    )
}

/// `name::from_iter([value])`.
pub open spec fn from_iter(name: Seq<char>, value: Seq<Tok>) -> Seq<Tok> {
    tokens::call(tokens::assoc(name, "from_iter"@), tokens::group(Delimiter::Bracket, value))
}

/// `function(value)`, of an associated function.
pub open spec fn assoc_call(name: Seq<char>, function: Seq<char>, value: Seq<Tok>) -> Seq<Tok> {
    tokens::call(tokens::assoc(name, function), value)
}

/// `[value; length]`.
pub open spec fn repeated(value: Seq<Tok>, length: Seq<Tok>) -> Seq<Tok> {
    tokens::group(Delimiter::Bracket, value.push(Tok::Punct(';')) + length)
}

/// `(key, value)`.
pub open spec fn pair(key: Seq<Tok>, value: Seq<Tok>) -> Seq<Tok> {
    tokens::group(Delimiter::Parenthesis, key.push(Tok::Punct(',')) + value)
}

/// `::std::iter::name(value)`.
pub open spec fn std_iter(name: Seq<char>, value: Seq<Tok>) -> Seq<Tok> {
    tokens::call(
        seq![Tok::Punct(':'), Tok::Punct(':')] + tokens::assoc("std"@, "iter"@) + seq![
            Tok::Punct(':'),
            Tok::Punct(':'),
            Tok::Ident(name),
        ],
        value,
    )
}

/// The replacement values of a collection type of unknown kind, given those of its elements.
pub open spec fn guessed_values(name: Seq<char>, elements: Seq<Seq<Tok>>) -> Seq<Seq<Tok>> {
    seq![new_value(name)] + flat(
        elements,
        |r: Seq<Tok>| seq![from_iter(name, r), assoc_call(name, "new"@, r), assoc_call(name, "from"@, r)],
    )
}

/// The replacement values of a map, given those of its keys and of its values.
pub open spec fn map_values(name: Seq<char>, keys: Seq<Seq<Tok>>, values: Seq<Seq<Tok>>) -> Seq<Seq<Tok>> {
    seq![new_value(name)] + flat(keys, |k: Seq<Tok>| each(values, |v: Seq<Tok>| from_iter(name, pair(k, v))))
}

/// The replacement values of a `Result`: the `Ok` values, an `Err` of each of the configured error values,
/// and the `Err` values of an error type that is simply constructible, each once.
pub open spec fn result_values(
    ok: Option<Seq<Seq<Tok>>>,
    errors: Seq<Seq<Tok>>,
    err: Option<Seq<Seq<Tok>>>,
) -> Seq<Seq<Tok>> {
    let oks = match ok {
        Some(values) => each(values, |r: Seq<Tok>| tokens::call(tokens::word("Ok"@), r)),
        None => seq![tokens::call(tokens::word("Ok"@), default_value())],
    };
    let configured = each(errors, |r: Seq<Tok>| tokens::call(tokens::word("Err"@), r));
    let recursed = match err {
        Some(values) => each(values, |r: Seq<Tok>| tokens::call(tokens::word("Err"@), r)),
        None => Seq::<Seq<Tok>>::empty(),
    };
    unique(oks + configured + recursed)
}

/// The values that are hoped to be reasonable replacements for a named type.
pub open spec fn path_values(path: Path, errors: Seq<Seq<Tok>>, enums: Map<Seq<char>, Seq<Seq<char>>>) -> Seq<Seq<Tok>>
    decreases path,
{
    if plain_values(path) is Some {
        plain_values(path)->0
    } else if path_ends(path, "Result"@) {
        let ok = match first_type_arg(path, "Result"@) {
            Some(k) => {
                if is_type_arg(path, k) {
                    proof {
                        types::lemma_arg_type_decreases(path, k);
                    }
                    Some(type_values(types::arg_type(path, k), errors, enums))
                } else {
                    None
                }
            },
            None => None,
        };
        let err = match nth_type_arg(path, "Result"@, 1) {
            Some(k) => {
                if is_type_arg(path, k) && simply_constructible(types::arg_type(path, k)) {
                    proof {
                        types::lemma_arg_type_decreases(path, k);
                    }
                    Some(type_values(types::arg_type(path, k), errors, enums))
                } else {
                    None
                }
            },
            None => None,
        };
        result_values(ok, errors, err)
    } else if path_ends(path, "HttpResponse"@) {
        seq![
            tokens::method_call(
                tokens::call(tokens::assoc("HttpResponse"@, "Ok"@), Seq::<Tok>::empty()),
                "finish"@,
            ),
        ]
    } else if first_type_arg(path, "Option"@) is Some && is_type_arg(path, first_type_arg(path, "Option"@)->0) {
        let k = first_type_arg(path, "Option"@)->0;
        proof {
            types::lemma_arg_type_decreases(path, k);
        }
        seq![tokens::word("None"@)] + each(
            type_values(types::arg_type(path, k), errors, enums),
            |r: Seq<Tok>| tokens::call(tokens::word("Some"@), r),
        )
    } else if first_type_arg(path, "Vec"@) is Some && is_type_arg(path, first_type_arg(path, "Vec"@)->0) {
        let k = first_type_arg(path, "Vec"@)->0;
        proof {
            types::lemma_arg_type_decreases(path, k);
        }
        seq![tokens::vec_of(Seq::<Tok>::empty())] + each(
            type_values(types::arg_type(path, k), errors, enums),
            |r: Seq<Tok>| tokens::vec_of(r),
        )
    } else if first_type_arg(path, "Cow"@) is Some && is_type_arg(path, first_type_arg(path, "Cow"@)->0) {
        let k = first_type_arg(path, "Cow"@)->0;
        proof {
            types::lemma_arg_type_decreases(path, k);
        }
        flat(
            type_values(types::arg_type(path, k), errors, enums),
            |r: Seq<Tok>|
                seq![
                    assoc_call("Cow"@, "Borrowed"@, r),
                    assoc_call("Cow"@, "Owned"@, tokens::method_call(r, "to_owned"@)),
                ],
        )
    } else if path_ends(path, "Pin"@) || path_ends(path, "NonNull"@) || path_ends(path, "Instant"@) || path_ends(
        path,
        "SystemTime"@,
    ) {
        Seq::<Seq<Tok>>::empty()
    } else if path_ends(path, "Range"@) {
        seq![default_value()]
    } else if names_container(path) && has_one_type(path) {
        proof {
            types::lemma_arg_type_decreases(path, 0);
        }
        let name = last_ident(path)->0;
        each(
            type_values(types::arg_type(path, 0), errors, enums),
            |r: Seq<Tok>| assoc_call(name, "new"@, r),
        )
    } else if names_collection(path) && has_one_type(path) {
        proof {
            types::lemma_arg_type_decreases(path, 0);
        }
        let name = last_ident(path)->0;
        seq![new_value(name)] + each(
            type_values(types::arg_type(path, 0), errors, enums),
            |r: Seq<Tok>| from_iter(name, r),
        )
    } else if is_known_map(path) {
        proof {
            types::lemma_arg_type_decreases(path, 0);
            types::lemma_arg_type_decreases(path, 1);
        }
        map_values(
            last_ident(path)->0,
            type_values(types::arg_type(path, 0), errors, enums),
            type_values(types::arg_type(path, 1), errors, enums),
        )
    } else if only_type_arg(path) is Some && is_type_arg(path, only_type_arg(path)->0) {
        let k = only_type_arg(path)->0;
        proof {
            types::lemma_arg_type_decreases(path, k);
        }
        guessed_values(last_ident(path)->0, type_values(types::arg_type(path, k), errors, enums))
    } else if last_ident(path) is Some && enums.contains_key(last_ident(path)->0) {
        let name = last_ident(path)->0;
        Seq::new(enums[name].len(), |i: int| tokens::assoc(name, enums[name][i]))
    } else {
        seq![default_value()]
    }
}

/// The values that are hoped to be reasonable replacements for each of the first `n` types.
pub open spec fn tuple_values(
    elems: Seq<Type>,
    n: int,
    errors: Seq<Seq<Tok>>,
    enums: Map<Seq<char>, Seq<Seq<char>>>,
) -> Seq<Seq<Seq<Tok>>>
    decreases elems, n,
{
    if n <= 0 || n > elems.len() {
        Seq::<Seq<Seq<Tok>>>::empty()
    } else {
        tuple_values(elems, n - 1, errors, enums).push(type_values(elems[n - 1], errors, enums))
    }
}

/// The values that are hoped to be reasonable replacements for a type.
pub open spec fn type_values(t: Type, errors: Seq<Seq<Tok>>, enums: Map<Seq<char>, Seq<Seq<char>>>) -> Seq<Seq<Tok>>
    decreases t,
{
    match t {
        Type::Path(path) => path_values(path, errors, enums),
        Type::Array(elem, length) => each(
            type_values(*elem, errors, enums),
            |r: Seq<Tok>| repeated(r, tokens::toks(length@)),
        ),
        Type::Slice(elem) => slice_values(type_values(*elem, errors, enums)),
        Type::Reference { mutable, elem } => match *elem {
            Type::Path(path) if !mutable && is_ident(path, "str"@) => seq![
                tokens::literal("\"\""@),
                sample_text(),
            ],
            Type::Slice(inner) => slice_values(type_values(*inner, errors, enums)),
            _ => each(type_values(*elem, errors, enums), |r: Seq<Tok>| leaked_box(r)),
        },
        Type::Tuple(elems) => {
            let all = choices(tuple_values(elems@, elems@.len() as int, errors, enums));
            Seq::new(all.len(), |i: int| tokens::group(Delimiter::Parenthesis, pretty::with_commas(all[i])))
        },
        Type::ImplTrait(bounds) => match iterator_bound(bounds@, 0) {
            Some(i) => {
                if 0 <= i < bounds@.len() && is_iterator(bounds@[i]) {
                    proof {
                        lemma_item_type_decreases(bounds@[i]);
                    }
                    seq![std_iter("empty"@, Seq::<Tok>::empty())] + each(
                        type_values(item_type(bounds@[i]), errors, enums),
                        |r: Seq<Tok>| std_iter("once"@, r),
                    )
                } else {
                    Seq::<Seq<Tok>>::empty()
                }
            },
            None => Seq::<Seq<Tok>>::empty(),
        },
        Type::TraitObject => Seq::<Seq<Tok>>::empty(),
        Type::Never => Seq::<Seq<Tok>>::empty(),
        Type::Other => seq![default_value()],
    }
}

/// The item type of an iterator bound is smaller than the bound.
pub proof fn lemma_item_type_decreases(bound: Bound)
    requires
        is_iterator(bound),
    ensures
        decreases_to!(bound => item_type(bound)),
{
    let path = bound->Trait_0;
    let segment = path.segments@[path.segments@.len() - 1];
    let args = segment.arguments->AngleBracketed_0;
    assert(decreases_to!(bound => path));
    assert(decreases_to!(path => path.segments));
    assert(decreases_to!(path.segments => path.segments@));
    assert(decreases_to!(path.segments@ => segment));
    assert(decreases_to!(segment => segment.arguments));
    assert(decreases_to!(segment.arguments => args));
    assert(decreases_to!(args => args@));
    assert(decreases_to!(args@ => args@[0]));
    assert(decreases_to!(args@[0] => args@[0]->AssocType_1));
}

pub fn path_is_ident(path: &Path, name: &str) -> (r: bool)
    ensures
        r == is_ident(*path, name@),
{
    !path.leading_colon && path.segments.len() == 1 && same_text(path.segments[0].ident.as_str(), name) && match path.segments[0].arguments {
        PathArguments::Bare => true,
        _ => false,
    }
}

pub fn path_ends_with(path: &Path, ident: &str) -> (r: bool)
    ensures
        r == path_ends(*path, ident@),
{
    path.segments.len() > 0 && same_text(path.segments[path.segments.len() - 1].ident.as_str(), ident)
}

fn path_is_float(path: &Path) -> (r: bool)
    ensures
        r == names_float(*path),
{
    path_is_ident(path, "f32") || path_is_ident(path, "f64")
}

fn path_is_unsigned(path: &Path) -> (r: bool)
    ensures
        r == names_unsigned(*path),
{
    path_is_ident(path, "u8") || path_is_ident(path, "u16") || path_is_ident(path, "u32") || path_is_ident(
        path,
        "u64",
    ) || path_is_ident(path, "u128") || path_is_ident(path, "usize")
}

fn path_is_signed(path: &Path) -> (r: bool)
    ensures
        r == names_signed(*path),
{
    path_is_ident(path, "i8") || path_is_ident(path, "i16") || path_is_ident(path, "i32") || path_is_ident(
        path,
        "i64",
    ) || path_is_ident(path, "i128") || path_is_ident(path, "isize")
}

fn path_is_nonzero_signed(path: &Path) -> (r: bool)
    ensures
        r == names_nonzero_signed(*path),
{
    path_ends_with(path, "NonZeroIsize") || path_ends_with(path, "NonZeroI8") || path_ends_with(path, "NonZeroI16")
        || path_ends_with(path, "NonZeroI32") || path_ends_with(path, "NonZeroI64") || path_ends_with(
        path,
        "NonZeroI128",
    )
}

fn path_is_nonzero_unsigned(path: &Path) -> (r: bool)
    ensures
        r == names_nonzero_unsigned(*path),
{
    path_ends_with(path, "NonZeroUsize") || path_ends_with(path, "NonZeroU8") || path_ends_with(path, "NonZeroU16")
        || path_ends_with(path, "NonZeroU32") || path_ends_with(path, "NonZeroU64") || path_ends_with(
        path,
        "NonZeroU128",
    )
}

/// True for `Ordering` and `cmp::Ordering`, but not `atomic::Ordering`.
fn path_is_comparison(path: &Path) -> (r: bool)
    ensures
        r == names_comparison(*path),
{
    if !path_ends_with(path, "Ordering") {
        return false;
    }
    for i in 0..path.segments.len()
        invariant
            forall|j: int| 0 <= j < i ==> (#[trigger] path.segments@[j]).ident@ != "atomic"@,
    {
        if same_text(path.segments[i].ident.as_str(), "atomic") {
            return false;
        }
    }
    true
}

/// The arguments between the angle brackets of the last segment of a path.
fn last_angle_args(path: &Path) -> (r: Option<&Vec<GenericArgument>>)
    ensures
        match r {
            Some(args) => types::angle_args(*path) == Some(args@),
            None => types::angle_args(*path) is None,
        },
{
    if path.segments.len() == 0 {
        return None;
    }
    match &path.segments[path.segments.len() - 1].arguments {
        PathArguments::AngleBracketed(args) => Some(args),
        _ => None,
    }
}

/// If this is a path ending in `expected_ident`, return the first type argument, ignoring lifetimes.
fn match_first_type_arg<'p>(path: &'p Path, expected_ident: &str) -> (r: Option<&'p Type>)
    ensures
        match r {
            Some(t) => first_type_arg(*path, expected_ident@) matches Some(k) && is_type_arg(*path, k) && *t
                == types::arg_type(*path, k),
            None => first_type_arg(*path, expected_ident@) is None,
        },
{
    if !path_ends_with(path, expected_ident) {
        return None;
    }
    let args = match last_angle_args(path) {
        Some(args) => args,
        None => return None,
    };
    let mut i: usize = 0;
    while i < args.len()
        invariant
            i <= args@.len(),
            leading_type(args@, 0) == leading_type(args@, i as int),
            path_ends(*path, expected_ident@),
            types::angle_args(*path) == Some(args@),
        decreases args@.len() - i,
    {
        match &args[i] {
            GenericArgument::Type(t) => return Some(t),
            GenericArgument::Lifetime => {},
            _ => return None,
        }
        i = i + 1;
    }
    None
}

/// That the `k`th argument of the last segment of a path is a type.
pub open spec fn is_type_arg(path: Path, k: int) -> bool {
    types::angle_args(path) matches Some(args) && 0 <= k < args.len() && args[k] is Type
}

/// The `n`th type among some arguments.
fn find_nth_type(args: &Vec<GenericArgument>, n: usize) -> (r: Option<&Type>)
    ensures
        match r {
            Some(t) => nth_type(args@, 0, n as int) matches Some(k) && 0 <= k < args@.len() && args@[k]
                == GenericArgument::Type(*t),
            None => nth_type(args@, 0, n as int) is None,
        },
{
    let mut i: usize = 0;
    let mut left: usize = n;
    while i < args.len()
        invariant
            i <= args@.len(),
            nth_type(args@, 0, n as int) == nth_type(args@, i as int, left as int),
        decreases args@.len() - i,
    {
        match &args[i] {
            GenericArgument::Type(t) => {
                if left == 0 {
                    return Some(t);
                }
                left = left - 1;
            },
            _ => {},
        }
        i = i + 1;
    }
    None
}

/// If this is a path ending in `expected_ident`, return its `index`th type argument, ignoring lifetime
/// arguments.
fn match_nth_type_arg<'p>(path: &'p Path, expected_ident: &str, index: usize) -> (r: Option<&'p Type>)
    ensures
        match r {
            Some(t) => nth_type_arg(*path, expected_ident@, index as int) matches Some(k) && is_type_arg(*path, k) && *t
                == types::arg_type(*path, k),
            None => nth_type_arg(*path, expected_ident@, index as int) is None,
        },
{
    if !path_ends_with(path, expected_ident) {
        return None;
    }
    match last_angle_args(path) {
        Some(args) => find_nth_type(args, index),
        None => None,
    }
}

/// The last name in a path, which has one.
fn final_ident(path: &Path) -> (r: &String)
    requires
        last_ident(*path) is Some,
    ensures
        last_ident(*path) == Some(r@),
{
    &path.segments[path.segments.len() - 1].ident
}

/// The one argument of a path, if it has one argument and that is a type.
fn one_type(path: &Path) -> (r: Option<&Type>)
    ensures
        match r {
            Some(t) => has_one_type(*path) && *t == types::arg_type(*path, 0),
            None => !has_one_type(*path),
        },
{
    match last_angle_args(path) {
        Some(args) => {
            if args.len() == 1 {
                match &args[0] {
                    GenericArgument::Type(t) => Some(t),
                    _ => None,
                }
            } else {
                None
            }
        },
        None => None,
    }
}

/// If the type has a single type argument then, perhaps it's a simple container like Box, Cell, Mutex,
/// etc, that can be constructed with `T::new(inner_val)`.
///
/// If so, return the short name (like "Box") and the inner type.
pub fn known_container(path: &Path) -> (r: Option<(&String, &Type)>)
    ensures
        match r {
            Some((ident, t)) => names_container(*path) && has_one_type(*path) && last_ident(*path) == Some(ident@)
                && *t == types::arg_type(*path, 0),
            None => !(names_container(*path) && has_one_type(*path)),
        },
{
    if path_ends_with(path, "Box") || path_ends_with(path, "Cell") || path_ends_with(path, "RefCell")
        || path_ends_with(path, "Arc") || path_ends_with(path, "Rc") || path_ends_with(path, "Mutex") {
        match one_type(path) {
            Some(t) => Some((final_ident(path), t)),
            None => None,
        }
    } else {
        None
    }
}

/// Match known simple collections that can be empty or constructed from an iterator.
///
/// Returns the short name (like `"VecDeque"`) and the inner type.
pub fn known_collection(path: &Path) -> (r: Option<(&String, &Type)>)
    ensures
        match r {
            Some((ident, t)) => names_collection(*path) && has_one_type(*path) && last_ident(*path) == Some(ident@)
                && *t == types::arg_type(*path, 0),
            None => !(names_collection(*path) && has_one_type(*path)),
        },
{
    if path_ends_with(path, "BinaryHeap") || path_ends_with(path, "BTreeSet") || path_ends_with(path, "HashSet")
        || path_ends_with(path, "LinkedList") || path_ends_with(path, "VecDeque") {
        match one_type(path) {
            Some(t) => Some((final_ident(path), t)),
            None => None,
        }
    } else {
        None
    }
}

/// Match known key-value maps that can be empty or constructed from pair of recursively-generated
/// values.
pub fn known_map(path: &Path) -> (r: Option<(&String, &Type, &Type)>)
    ensures
        match r {
            Some((ident, key, value)) => is_known_map(*path) && last_ident(*path) == Some(ident@) && *key
                == types::arg_type(*path, 0) && *value == types::arg_type(*path, 1),
            None => !is_known_map(*path),
        },
{
    if !(path_ends_with(path, "BTreeMap") || path_ends_with(path, "HashMap")) {
        return None;
    }
    match last_angle_args(path) {
        Some(args) => {
            if args.len() != 2 {
                return None;
            }
            match (&args[0], &args[1]) {
                (GenericArgument::Type(key), GenericArgument::Type(value)) => Some(
                    (final_ident(path), key, value),
                ),
                _ => None,
            }
        },
        None => None,
    }
}

/// Match a type with one type argument, which might be a container or collection.
pub fn maybe_collection_or_container(path: &Path) -> (r: Option<(&String, &Type)>)
    ensures
        match r {
            Some((ident, t)) => only_type_arg(*path) matches Some(k) && is_type_arg(*path, k) && last_ident(*path)
                == Some(ident@) && *t == types::arg_type(*path, k),
            None => only_type_arg(*path) is None,
        },
{
    match last_angle_args(path) {
        Some(args) => {
            if find_nth_type(args, 1).is_some() {
                return None;
            }
            match find_nth_type(args, 0) {
                Some(t) => Some((final_ident(path), t)),
                None => None,
            }
        },
        None => None,
    }
}

/// The type of the items, if one of the bounds of an `impl Trait` type is an iterator over known items.
pub fn match_impl_iterator(bounds: &Vec<Bound>) -> (r: Option<&Type>)
    ensures
        match r {
            Some(t) => iterator_bound(bounds@, 0) matches Some(i) && 0 <= i < bounds@.len() && is_iterator(bounds@[i])
                && *t == item_type(bounds@[i]),
            None => iterator_bound(bounds@, 0) is None,
        },
{
    let mut i: usize = 0;
    while i < bounds.len()
        invariant
            i <= bounds@.len(),
            iterator_bound(bounds@, 0) == iterator_bound(bounds@, i as int),
        decreases bounds@.len() - i,
    {
        match &bounds[i] {
            Bound::Trait(path) => {
                if path_ends_with(path, "Iterator") {
                    match last_angle_args(path) {
                        Some(args) => {
                            if args.len() > 0 {
                                match &args[0] {
                                    GenericArgument::AssocType(name, t) => {
                                        if same_text(name.as_str(), "Item") {
                                            return Some(t);
                                        }
                                    },
                                    _ => {},
                                }
                            }
                        },
                        None => {},
                    }
                }
            },
            Bound::Other => {},
        }
        i = i + 1;
    }
    None
}

/// True for types whose replacement values are literals we know compile without relying on `Default`,
/// used to decide whether recursing is worthwhile.
fn is_simply_constructible(t: &Type) -> (r: bool)
    ensures
        r == simply_constructible(*t),
{
    match t {
        Type::Path(path) => path_is_ident(path, "bool") || path_is_ident(path, "String") || path_is_ident(path, "str")
            || path_is_ident(path, "char") || path_is_unsigned(path) || path_is_signed(path) || path_is_float(path),
        Type::Reference { elem, .. } => match &**elem {
            Type::Path(path) => path_is_ident(path, "str"),
            _ => false,
        },
        _ => false,
    }
}

/// Each of some values, changed by `f`, of which `g` is the model.
fn each_value<F: Fn(&Vec<TokenTree>) -> Vec<TokenTree>>(
    values: &Vec<Vec<TokenTree>>,
    f: F,
    Ghost(g): Ghost<spec_fn(Seq<Tok>) -> Seq<Tok>>,
) -> (r: Vec<Vec<TokenTree>>)
    requires
        forall|x: &Vec<TokenTree>| f.requires((x,)),
        forall|x: &Vec<TokenTree>, y: Vec<TokenTree>| #[trigger]
            f.ensures((x,), y) ==> tokens::toks(y@) == g(tokens::toks(x@)),
    ensures
        tokens::toks_all(r@) == each(tokens::toks_all(values@), g),
{
    let mut r: Vec<Vec<TokenTree>> = Vec::new();
    for i in 0..values.len()
        invariant
            forall|x: &Vec<TokenTree>| f.requires((x,)),
            forall|x: &Vec<TokenTree>, y: Vec<TokenTree>| #[trigger]
                f.ensures((x,), y) ==> tokens::toks(y@) == g(tokens::toks(x@)),
            r@.len() == i,
            forall|j: int| 0 <= j < i ==> tokens::toks((#[trigger] r@[j])@) == g(tokens::toks(values@[j]@)),
    {
        r.push(f(&values[i]));
    }
    assert(tokens::toks_all(r@) =~= each(tokens::toks_all(values@), g));
    r
}

/// Appends the values of `more` behind those of `all`.
fn append_values(all: &mut Vec<Vec<TokenTree>>, more: Vec<Vec<TokenTree>>)
    ensures
        tokens::toks_all(final(all)@) == tokens::toks_all(old(all)@) + tokens::toks_all(more@),
{
    let mut more = more;
    let ghost a = all@;
    let ghost b = more@;
    all.append(&mut more);
    assert(tokens::toks_all(all@) =~= tokens::toks_all(a) + tokens::toks_all(b));
}

/// Appends one value.
fn push_value(all: &mut Vec<Vec<TokenTree>>, value: Vec<TokenTree>)
    ensures
        tokens::toks_all(final(all)@) == tokens::toks_all(old(all)@).push(tokens::toks(value@)),
{
    let ghost a = all@;
    let ghost v = tokens::toks(value@);
    all.push(value);
    assert(tokens::toks_all(all@) =~= tokens::toks_all(a).push(v));
}

/// No values.
fn no_values() -> (r: Vec<Vec<TokenTree>>)
    ensures
        tokens::toks_all(r@) == Seq::<Seq<Tok>>::empty(),
{
    let r: Vec<Vec<TokenTree>> = Vec::new();
    assert(tokens::toks_all(r@) =~= Seq::<Seq<Tok>>::empty());
    r
}

/// A single value.
fn one_value(value: Vec<TokenTree>) -> (r: Vec<Vec<TokenTree>>)
    ensures
        tokens::toks_all(r@) == seq![tokens::toks(value@)],
{
    let mut r = no_values();
    push_value(&mut r, value);
    assert(tokens::toks_all(r@) =~= seq![tokens::toks(value@)]);
    r
}

/// Two values.
fn two_values(a: Vec<TokenTree>, b: Vec<TokenTree>) -> (r: Vec<Vec<TokenTree>>)
    ensures
        tokens::toks_all(r@) == seq![tokens::toks(a@), tokens::toks(b@)],
{
    let mut r = no_values();
    push_value(&mut r, a);
    push_value(&mut r, b);
    assert(tokens::toks_all(r@) =~= seq![tokens::toks(a@), tokens::toks(b@)]);
    r
}

/// Three values.
fn three_values(a: Vec<TokenTree>, b: Vec<TokenTree>, c: Vec<TokenTree>) -> (r: Vec<Vec<TokenTree>>)
    ensures
        tokens::toks_all(r@) == seq![tokens::toks(a@), tokens::toks(b@), tokens::toks(c@)],
{
    let mut r = no_values();
    push_value(&mut r, a);
    push_value(&mut r, b);
    push_value(&mut r, c);
    assert(tokens::toks_all(r@) =~= seq![tokens::toks(a@), tokens::toks(b@), tokens::toks(c@)]);
    r
}

/// What `f` makes of each of some values, one behind the other; `g` is its model.
fn flat_values<F: Fn(&Vec<TokenTree>) -> Vec<Vec<TokenTree>>>(
    values: &Vec<Vec<TokenTree>>,
    f: F,
    Ghost(g): Ghost<spec_fn(Seq<Tok>) -> Seq<Seq<Tok>>>,
) -> (r: Vec<Vec<TokenTree>>)
    requires
        forall|x: &Vec<TokenTree>| f.requires((x,)),
        forall|x: &Vec<TokenTree>, y: Vec<Vec<TokenTree>>| #[trigger]
            f.ensures((x,), y) ==> tokens::toks_all(y@) == g(tokens::toks(x@)),
    ensures
        tokens::toks_all(r@) == flat(tokens::toks_all(values@), g),
{
    let mut r = no_values();
    let ghost model = tokens::toks_all(values@);
    for i in 0..values.len()
        invariant
            model == tokens::toks_all(values@),
            forall|x: &Vec<TokenTree>| f.requires((x,)),
            forall|x: &Vec<TokenTree>, y: Vec<Vec<TokenTree>>| #[trigger]
                f.ensures((x,), y) ==> tokens::toks_all(y@) == g(tokens::toks(x@)),
            tokens::toks_all(r@) == flat(model.take(i as int), g),
    {
        append_values(&mut r, f(&values[i]));
        assert(model.take(i + 1).drop_last() =~= model.take(i as int));
    }
    assert(model.take(values@.len() as int) =~= model);
    r
}

/// The values whose text is not that of an earlier one.
fn unique_values(values: &Vec<Vec<TokenTree>>) -> (r: Vec<Vec<TokenTree>>)
    ensures
        tokens::toks_all(r@) == unique(tokens::toks_all(values@)),
{
    let mut r = no_values();
    let ghost model = tokens::toks_all(values@);
    let mut seen: Vec<String> = Vec::new();
    for i in 0..values.len()
        invariant
            model == tokens::toks_all(values@),
            seen@.len() == i,
            forall|j: int| 0 <= j < i ==> (#[trigger] seen@[j])@ == pretty::pretty(model[j]),
            tokens::toks_all(r@) == unique_prefix(model, i as int),
    {
        let text = to_pretty_string(&values[i]);
        let mut found = false;
        for j in 0..seen.len()
            invariant
                seen@.len() == i,
                forall|j: int| 0 <= j < i ==> (#[trigger] seen@[j])@ == pretty::pretty(model[j]),
                text@ == pretty::pretty(model[i as int]),
                found == exists|l: int| 0 <= l < j && pretty::pretty(#[trigger] model[l]) == pretty::pretty(model[i as int]),
        {
            if same_text(seen[j].as_str(), text.as_str()) {
                assert(pretty::pretty(model[j as int]) == pretty::pretty(model[i as int]));
                found = true;
            }
        }
        if !found {
            push_value(&mut r, copy_tokens(&values[i]));
        }
        seen.push(text);
    }
    r
}

/// `Default::default()`.
fn mk_default_value() -> (r: Vec<TokenTree>)
    ensures
        tokens::toks(r@) == default_value(),
{
    mk_call(mk_assoc("Default", "default"), no_tokens())
}

/// `name::new()`.
fn mk_new_value(name: &str) -> (r: Vec<TokenTree>)
    ensures
        tokens::toks(r@) == new_value(name@),
{
    mk_call(mk_assoc(name, "new"), no_tokens())
}

/// `"xyzzy"`.
fn mk_sample_text() -> (r: Vec<TokenTree>)
    ensures
        tokens::toks(r@) == sample_text(),
{
    mk_literal("\"xyzzy\"")
}

/// The value `1` of a nonzero type.
fn mk_nonzero_one() -> (r: Vec<TokenTree>)
    ensures
        tokens::toks(r@) == nonzero_one(),
{
    mk_method_call(mk_method_call(mk_literal("1"), "try_into"), "unwrap")
}

/// The value `-1` of a nonzero type.
fn mk_nonzero_minus_one() -> (r: Vec<TokenTree>)
    ensures
        tokens::toks(r@) == nonzero_minus_one(),
{
    mk_method_call(
        mk_method_call(mk_group(Delimiter::Parenthesis, mk_negative("1")), "try_into"),
        "unwrap",
    )
}

/// The replacement values of a named type whose values are fixed.
fn plain_replacements(path: &Path) -> (r: Option<Vec<Vec<TokenTree>>>)
    ensures
        match r {
            Some(values) => plain_values(*path) == Some(tokens::toks_all(values@)),
            None => plain_values(*path) is None,
        },
{
    if path_is_ident(path, "bool") {
        Some(two_values(mk_word("true"), mk_word("false")))
    } else if path_is_ident(path, "String") {
        Some(two_values(mk_new_value("String"), mk_method_call(mk_sample_text(), "into")))
    } else if path_is_ident(path, "str") {
        Some(two_values(mk_literal("\"\""), mk_sample_text()))
    } else if path_is_ident(path, "char") {
        Some(two_values(mk_literal("'\\0'"), mk_literal("'x'")))
    } else if path_ends_with(path, "PathBuf") || path_ends_with(path, "Utf8PathBuf") || path_ends_with(path, "OsString") {
        // Use the matched ident, not a fixed `PathBuf`: camino's `Utf8PathBuf` mirrors the std API but is a
        // different type.
        let name = final_ident(path).as_str();
        Some(two_values(mk_new_value(name), mk_call(mk_assoc(name, "from"), mk_sample_text())))
    } else if path_ends_with(path, "Duration") {
        Some(
            two_values(
                mk_assoc("Duration", "ZERO"),
                mk_call(mk_assoc("Duration", "from_secs"), mk_literal("1")),
            ),
        )
    } else if path_is_unsigned(path) {
        Some(two_values(mk_literal("0"), mk_literal("1")))
    } else if path_is_signed(path) {
        Some(three_values(mk_literal("0"), mk_literal("1"), mk_negative("1")))
    } else if path_is_nonzero_signed(path) {
        Some(two_values(mk_nonzero_one(), mk_nonzero_minus_one()))
    } else if path_is_nonzero_unsigned(path) {
        Some(one_value(mk_nonzero_one()))
    } else if let Some(inner) = match_first_type_arg(path, "NonZero") {
        let unsigned = match inner {
            Type::Path(inner_path) => path_is_unsigned(inner_path),
            _ => false,
        };
        if unsigned {
            // NonZero<T> where T is an unsigned type can only be positive.
            Some(one_value(mk_nonzero_one()))
        } else {
            // NonZero<T> where T is a signed type or an unknown type could be positive or negative.
            Some(two_values(mk_nonzero_one(), mk_nonzero_minus_one()))
        }
    } else if path_is_float(path) {
        Some(three_values(mk_literal("0.0"), mk_literal("1.0"), mk_negative("1.0")))
    } else if path_is_comparison(path) {
        Some(
            three_values(
                mk_assoc("Ordering", "Less"),
                mk_assoc("Ordering", "Equal"),
                mk_assoc("Ordering", "Greater"),
            ),
        )
    } else {
        None
    }
}

/// The names of the unit variants among the first `n`.
pub open spec fn unit_names(variants: Seq<Variant>, n: int) -> Seq<Seq<char>>
    decreases n,
{
    if n <= 0 {
        Seq::<Seq<char>>::empty()
    } else if variants[n - 1].is_unit {
        unit_names(variants, n - 1).push(variants[n - 1].name@)
    } else {
        unit_names(variants, n - 1)
    }
}

/// `enums`, with the enums that the first `n` declarations declare and that have unit variants. Of two enums
/// of one name the later one counts.
pub open spec fn with_enums(
    enums: Map<Seq<char>, Seq<Seq<char>>>,
    items: Seq<Declaration>,
    n: int,
) -> Map<Seq<char>, Seq<Seq<char>>>
    decreases items, n,
{
    if n <= 0 || n > items.len() {
        enums
    } else {
        let before = with_enums(enums, items, n - 1);
        match items[n - 1] {
            Declaration::Enum { name, variants } => {
                let units = unit_names(variants@, variants@.len() as int);
                if units.len() > 0 {
                    before.insert(name@, units)
                } else {
                    before
                }
            },
            Declaration::Mod(inner) => with_enums(before, inner@, inner@.len() as int),
            Declaration::Other => before,
        }
    }
}

/// The names as texts.
pub open spec fn name_texts(names: Seq<String>) -> Seq<Seq<char>> {
    Seq::new(names.len(), |i: int| names[i]@)
}

/// What the first `n` entries of an index say: the later of two entries of one name counts.
pub open spec fn entries_map(entries: Seq<(String, Vec<String>)>, n: int) -> Map<Seq<char>, Seq<Seq<char>>>
    decreases n,
{
    if n <= 0 {
        Map::empty()
    } else {
        entries_map(entries, n - 1).insert(entries[n - 1].0@, name_texts(entries[n - 1].1@))
    }
}

/// Unit variants of the enums declared in the file being visited, by enum name.
///
/// Only same-file enums: resolving a type to a declaration in another file or crate would need a
/// workspace-wide type index, which this crate deliberately does not have.
pub struct EnumIndex {
    entries: Vec<(String, Vec<String>)>,
}

impl View for EnumIndex {
    type V = Map<Seq<char>, Seq<Seq<char>>>;

    closed spec fn view(&self) -> Map<Seq<char>, Seq<Seq<char>>> {
        entries_map(self.entries@, self.entries@.len() as int)
    }
}

/// Only the first `n` entries decide what they say.
proof fn lemma_entries_map_prefix(a: Seq<(String, Vec<String>)>, b: Seq<(String, Vec<String>)>, n: int)
    requires
        n <= a.len(),
        n <= b.len(),
        forall|i: int| 0 <= i < n ==> a[i] == b[i],
    ensures
        entries_map(a, n) == entries_map(b, n),
    decreases n,
{
    if n > 0 {
        lemma_entries_map_prefix(a, b, n - 1);
    }
}

impl EnumIndex {
    /// An index that knows no enum.
    pub fn new() -> (r: EnumIndex)
        ensures
            r@ == Map::<Seq<char>, Seq<Seq<char>>>::empty(),
    {
        EnumIndex { entries: Vec::new() }
    }

    /// Collect every enum declared in the file, including inside inline `mod` blocks.
    pub fn from_file(items: &Vec<Declaration>) -> (r: EnumIndex)
        ensures
            r@ == with_enums(Map::empty(), items@, items@.len() as int),
    {
        let mut index = EnumIndex::new();
        index.add_items(items);
        index
    }

    fn add_items(&mut self, items: &Vec<Declaration>)
        ensures
            final(self)@ == with_enums(old(self)@, items@, items@.len() as int),
        decreases items,
    {
        let ghost before = self@;
        for i in 0..items.len()
            invariant
                self@ == with_enums(before, items@, i as int),
        {
            match &items[i] {
                Declaration::Enum { name, variants } => {
                    let mut units: Vec<String> = Vec::new();
                    for j in 0..variants.len()
                        invariant
                            name_texts(units@) == unit_names(variants@, j as int),
                    {
                        if variants[j].is_unit {
                            let ghost earlier = units@;
                            units.push(variants[j].name.clone());
                            assert(name_texts(units@) =~= name_texts(earlier).push(variants@[j as int].name@));
                        }
                    }
                    if units.len() > 0 {
                        let ghost earlier = self.entries@;
                        self.entries.push((name.clone(), units));
                        proof {
                            lemma_entries_map_prefix(earlier, self.entries@, earlier.len() as int);
                        }
                    }
                },
                Declaration::Mod(inner) => {
                    self.add_items(inner);
                },
                Declaration::Other => {},
            }
        }
    }

    /// Unit variants of the enum this path names, if it names a same-file enum that has any.
    fn unit_variants<'s, 'p>(&'s self, path: &'p Path) -> (r: Option<(&'p String, &'s Vec<String>)>)
        ensures
            match r {
                Some((name, variants)) => last_ident(*path) == Some(name@) && self@.contains_key(name@) && self@[name@]
                    == name_texts(variants@),
                None => last_ident(*path) is None || !self@.contains_key(last_ident(*path)->0),
            },
    {
        if path.segments.len() == 0 {
            return None;
        }
        let name = final_ident(path);
        let mut n: usize = self.entries.len();
        while n > 0
            invariant
                n <= self.entries@.len(),
                last_ident(*path) == Some(name@),
                self@.contains_key(name@) == entries_map(self.entries@, n as int).contains_key(name@),
                self@.contains_key(name@) ==> self@[name@] == entries_map(self.entries@, n as int)[name@],
            decreases n,
        {
            if same_text(self.entries[n - 1].0.as_str(), name.as_str()) {
                return Some((name, &self.entries[n - 1].1));
            }
            n = n - 1;
        }
        None
    }
}

/// All ways to take one value from each list: the last list varies fastest.
fn all_choices(lists: &Vec<Vec<Vec<TokenTree>>>) -> (r: Vec<Vec<Vec<TokenTree>>>)
    ensures
        choice_models(r@) == choices(choice_models(lists@)),
{
    let mut r: Vec<Vec<Vec<TokenTree>>> = Vec::new();
    r.push(no_values());
    let ghost model = choice_models(lists@);
    assert(choice_models(r@) =~= choices(model.take(0)));
    for i in 0..lists.len()
        invariant
            model == choice_models(lists@),
            choice_models(r@) == choices(model.take(i as int)),
    {
        let mut longer: Vec<Vec<Vec<TokenTree>>> = Vec::new();
        let list = &lists[i];
        let ghost chosen = choice_models(r@);
        let ghost values = model[i as int];
        assert(choice_models(longer@) =~= extended_choices(chosen.take(0), values));
        for j in 0..r.len()
            invariant
                values == tokens::toks_all(list@),
                chosen == choice_models(r@),
                choice_models(longer@) == extended_choices(chosen.take(j as int), values),
        {
            let ghost earlier = longer@;
            let start = &r[j];
            for k in 0..list.len()
                invariant
                    values == tokens::toks_all(list@),
                    j < chosen.len(),
                    chosen[j as int] == tokens::toks_all(start@),
                    choice_models(longer@) == choice_models(earlier) + Seq::new(
                        k as nat,
                        |l: int| chosen[j as int].push(values[l]),
                    ),
            {
                let mut choice = no_values();
                for l in 0..start.len()
                    invariant
                        tokens::toks_all(choice@) == tokens::toks_all(start@).take(l as int),
                {
                    push_value(&mut choice, copy_tokens(&start[l]));
                }
                push_value(&mut choice, copy_tokens(&list[k]));
                let ghost one = tokens::toks_all(choice@);
                assert(one =~= chosen[j as int].push(values[k as int]));
                let ghost old_longer = longer@;
                longer.push(choice);
                assert(choice_models(longer@) =~= choice_models(old_longer).push(one));
            }
            assert(chosen.take(j + 1).drop_last() =~= chosen.take(j as int));
            assert(choice_models(longer@) =~= extended_choices(chosen.take(j + 1), values));
        }
        assert(chosen.take(r@.len() as int) =~= chosen);
        assert(model.take(i + 1).drop_last() =~= model.take(i as int));
        r = longer;
    }
    assert(model.take(lists@.len() as int) =~= model);
    r
}

/// The models of several lists of values.
pub open spec fn choice_models(lists: Seq<Vec<Vec<TokenTree>>>) -> Seq<Seq<Seq<Tok>>> {
    Seq::new(lists.len(), |i: int| tokens::toks_all(lists[i]@))
}

/// Some values with commas between them.
fn mk_with_commas(values: &Vec<Vec<TokenTree>>) -> (r: Vec<TokenTree>)
    ensures
        tokens::toks(r@) == pretty::with_commas(tokens::toks_all(values@)),
{
    let mut r: Vec<TokenTree> = Vec::new();
    let ghost model = tokens::toks_all(values@);
    assert(tokens::toks(r@) =~= pretty::with_commas(model.take(0)));
    for i in 0..values.len()
        invariant
            model == tokens::toks_all(values@),
            tokens::toks(r@) == pretty::with_commas(model.take(i as int)),
    {
        let ghost before = r@;
        if i > 0 {
            r.push(TokenTree::Punct(','));
            assert(tokens::toks(r@) =~= tokens::toks(before).push(Tok::Punct(',')));
        }
        let mut value = copy_tokens(&values[i]);
        let ghost head = r@;
        let ghost tail = value@;
        r.append(&mut value);
        proof {
            tokens::lemma_toks_concat(head, tail);
            assert(model.take(i + 1).drop_last() =~= model.take(i as int));
            assert(tokens::toks(r@) =~= pretty::with_commas(model.take(i + 1)));
        }
    }
    assert(model.take(values@.len() as int) =~= model);
    r
}

/// `function(value)`, of an associated function.
fn mk_assoc_call(name: &str, function: &str, value: &Vec<TokenTree>) -> (r: Vec<TokenTree>)
    ensures
        tokens::toks(r@) == assoc_call(name@, function@, tokens::toks(value@)),
{
    mk_call(mk_assoc(name, function), copy_tokens(value))
}

/// `name::from_iter([value])`.
fn mk_from_iter(name: &str, value: Vec<TokenTree>) -> (r: Vec<TokenTree>)
    ensures
        tokens::toks(r@) == from_iter(name@, tokens::toks(value@)),
{
    mk_call(mk_assoc(name, "from_iter"), mk_group(Delimiter::Bracket, value))
}

/// `name(value)`.
fn mk_wrapped(name: &str, value: &Vec<TokenTree>) -> (r: Vec<TokenTree>)
    ensures
        tokens::toks(r@) == tokens::call(tokens::word(name@), tokens::toks(value@)),
{
    mk_call(mk_word(name), copy_tokens(value))
}

/// Each of some values within `name(..)`.
fn wrapped_values(name: &str, values: &Vec<Vec<TokenTree>>) -> (r: Vec<Vec<TokenTree>>)
    ensures
        tokens::toks_all(r@) == each(
            tokens::toks_all(values@),
            |r: Seq<Tok>| tokens::call(tokens::word(name@), r),
        ),
{
    let ghost g = |r: Seq<Tok>| tokens::call(tokens::word(name@), r);
    each_value(
        values,
        |r: &Tokens| -> (o: Tokens)
            ensures
                tokens::toks(o@) == tokens::call(tokens::word(name@), tokens::toks(r@))
            { mk_wrapped(name, r) },
        Ghost(g),
    )
}

/// `first` followed by `key`, the punctuation `c` and `value`.
fn mk_joined(key: &Vec<TokenTree>, c: char, value: &Vec<TokenTree>) -> (r: Vec<TokenTree>)
    ensures
        tokens::toks(r@) == tokens::toks(key@).push(Tok::Punct(c)) + tokens::toks(value@),
{
    let mut r = copy_tokens(key);
    r.push(TokenTree::Punct(c));
    let mut tail = copy_tokens(value);
    let ghost a = r@;
    let ghost b = tail@;
    r.append(&mut tail);
    proof {
        tokens::lemma_toks_concat(a, b);
        assert(tokens::toks(a) =~= tokens::toks(key@).push(Tok::Punct(c)));
    }
    r
}

/// `::std::iter::name(value)`.
fn mk_std_iter(name: &str, value: Vec<TokenTree>) -> (r: Vec<TokenTree>)
    ensures
        tokens::toks(r@) == std_iter(name@, tokens::toks(value@)),
{
    let mut f: Vec<TokenTree> = Vec::new();
    f.push(TokenTree::Punct(':'));
    f.push(TokenTree::Punct(':'));
    f.push(TokenTree::Ident("std".to_owned()));
    f.push(TokenTree::Punct(':'));
    f.push(TokenTree::Punct(':'));
    f.push(TokenTree::Ident("iter".to_owned()));
    f.push(TokenTree::Punct(':'));
    f.push(TokenTree::Punct(':'));
    f.push(TokenTree::Ident(name.to_owned()));
    assert(tokens::toks(f@) =~= seq![Tok::Punct(':'), Tok::Punct(':')] + tokens::assoc("std"@, "iter"@) + seq![
        Tok::Punct(':'),
        Tok::Punct(':'),
        Tok::Ident(name@),
    ]);
    mk_call(f, value)
}

/// The replacement values of a slice, given those of its elements.
fn slice_replacements(elements: &Vec<Vec<TokenTree>>) -> (r: Vec<Vec<TokenTree>>)
    ensures
        tokens::toks_all(r@) == slice_values(tokens::toks_all(elements@)),
{
    let mut r = one_value(mk_call(mk_assoc("Vec", "leak"), mk_new_value("Vec")));
    append_values(
        &mut r,
        each_value(
            elements,
            |r: &Tokens| -> (o: Tokens)
                ensures
                    tokens::toks(o@) == leaked_vec(tokens::toks(r@))
                { mk_call(mk_assoc("Vec", "leak"), mk_vec_of(copy_tokens(r))) },
            Ghost(|r: Seq<Tok>| leaked_vec(r)),
        ),
    );
    r
}

/// Each of some values, boxed and leaked.
fn leaked_replacements(values: &Vec<Vec<TokenTree>>) -> (r: Vec<Vec<TokenTree>>)
    ensures
        tokens::toks_all(r@) == each(tokens::toks_all(values@), |r: Seq<Tok>| leaked_box(r)),
{
    each_value(
        values,
        |r: &Tokens| -> (o: Tokens)
            ensures
                tokens::toks(o@) == leaked_box(tokens::toks(r@))
            { mk_call(mk_assoc("Box", "leak"), mk_assoc_call("Box", "new", r)) },
        Ghost(|r: Seq<Tok>| leaked_box(r)),
    )
}

/// The replacement values of a `Result`.
fn result_replacements(
    ok: Option<Vec<Vec<TokenTree>>>,
    errors: &Vec<Vec<TokenTree>>,
    err: Option<Vec<Vec<TokenTree>>>,
) -> (r: Vec<Vec<TokenTree>>)
    ensures
        tokens::toks_all(r@) == result_values(
            match ok {
                Some(values) => Some(tokens::toks_all(values@)),
                None => None,
            },
            tokens::toks_all(errors@),
            match err {
                Some(values) => Some(tokens::toks_all(values@)),
                None => None,
            },
        ),
{
    let mut all = match &ok {
        Some(values) => wrapped_values("Ok", values),
        // A result with no type arguments, like `fmt::Result`; hopefully the Ok value can be constructed
        // with Default.
        None => one_value(mk_wrapped("Ok", &mk_default_value())),
    };
    append_values(&mut all, wrapped_values("Err", errors));
    let recursed = match &err {
        Some(values) => wrapped_values("Err", values),
        None => no_values(),
    };
    append_values(&mut all, recursed);
    unique_values(&all)
}

/// The replacement values of a map, given those of its keys and of its values.
fn map_replacements(name: &str, keys: &Vec<Vec<TokenTree>>, values: &Vec<Vec<TokenTree>>) -> (r: Vec<
    Vec<TokenTree>,
>)
    ensures
        tokens::toks_all(r@) == map_values(name@, tokens::toks_all(keys@), tokens::toks_all(values@)),
{
    let ghost vs = tokens::toks_all(values@);
    let mut r = one_value(mk_new_value(name));
    append_values(
        &mut r,
        flat_values(
            keys,
            |k: &Tokens| -> (o: TokenLists)
                ensures
                    tokens::toks_all(o@) == each(vs, |v: Seq<Tok>| from_iter(name@, pair(tokens::toks(k@), v)))
                {
                    let ghost km = tokens::toks(k@);
                    each_value(
                        values,
                        |v: &Tokens| -> (o: Tokens)
                            ensures
                                tokens::toks(o@) == from_iter(name@, pair(tokens::toks(k@), tokens::toks(v@)))
                            { mk_from_iter(name, mk_group(Delimiter::Parenthesis, mk_joined(k, ',', v))) },
                        Ghost(|v: Seq<Tok>| from_iter(name@, pair(km, v))),
                    )
                },
            Ghost(|k: Seq<Tok>| each(vs, |v: Seq<Tok>| from_iter(name@, pair(k, v)))),
        ),
    );
    r
}

/// The replacement values of a collection type of unknown kind, given those of its elements.
fn guessed_replacements(name: &str, elements: &Vec<Vec<TokenTree>>) -> (r: Vec<Vec<TokenTree>>)
    ensures
        tokens::toks_all(r@) == guessed_values(name@, tokens::toks_all(elements@)),
{
    let mut r = one_value(mk_new_value(name));
    append_values(
        &mut r,
        flat_values(
            elements,
            |v: &Tokens| -> (o: TokenLists)
                ensures
                    tokens::toks_all(o@) == seq![
                        from_iter(name@, tokens::toks(v@)),
                        assoc_call(name@, "new"@, tokens::toks(v@)),
                        assoc_call(name@, "from"@, tokens::toks(v@)),
                    ]
                {
                    three_values(
                        mk_from_iter(name, copy_tokens(v)),
                        mk_assoc_call(name, "new", v),
                        mk_assoc_call(name, "from", v),
                    )
                },
            Ghost(
                |r: Seq<Tok>|
                    seq![from_iter(name@, r), assoc_call(name@, "new"@, r), assoc_call(name@, "from"@, r)],
            ),
        ),
    );
    r
}

/// The replacement values of a `Cow`, given those of what it borrows.
fn cow_replacements(values: &Vec<Vec<TokenTree>>) -> (r: Vec<Vec<TokenTree>>)
    ensures
        tokens::toks_all(r@) == flat(
            tokens::toks_all(values@),
            |r: Seq<Tok>|
                seq![
                    assoc_call("Cow"@, "Borrowed"@, r),
                    assoc_call("Cow"@, "Owned"@, tokens::method_call(r, "to_owned"@)),
                ],
        ),
{
    flat_values(
        values,
        |v: &Tokens| -> (o: TokenLists)
            ensures
                tokens::toks_all(o@) == seq![
                    assoc_call("Cow"@, "Borrowed"@, tokens::toks(v@)),
                    assoc_call("Cow"@, "Owned"@, tokens::method_call(tokens::toks(v@), "to_owned"@)),
                ]
            {
                two_values(
                    mk_assoc_call("Cow", "Borrowed", v),
                    mk_call(mk_assoc("Cow", "Owned"), mk_method_call(copy_tokens(v), "to_owned")),
                )
            },
        Ghost(
            |r: Seq<Tok>|
                seq![
                    assoc_call("Cow"@, "Borrowed"@, r),
                    assoc_call("Cow"@, "Owned"@, tokens::method_call(r, "to_owned"@)),
                ],
        ),
    )
}

/// Generate some values that we hope are reasonable replacements for a named type.
fn path_replacements(path: &Path, errors: &Vec<Vec<TokenTree>>, enums: &EnumIndex) -> (r: Vec<Vec<TokenTree>>)
    ensures
        tokens::toks_all(r@) == path_values(*path, tokens::toks_all(errors@), enums@),
    decreases path,
{
    if let Some(values) = plain_replacements(path) {
        values
    } else if path_ends_with(path, "Result") {
        let ok = match match_first_type_arg(path, "Result") {
            Some(t) => {
                proof {
                    types::lemma_arg_type_decreases(*path, first_type_arg(*path, "Result"@)->0);
                }
                Some(type_replacements(t, errors, enums))
            },
            None => None,
        };
        // Only recurse into the error type when we know how to build a value for it without relying on
        // `Default`, which errors rarely implement.
        let err = match match_nth_type_arg(path, "Result", 1) {
            Some(t) => {
                if is_simply_constructible(t) {
                    proof {
                        types::lemma_arg_type_decreases(*path, nth_type_arg(*path, "Result"@, 1)->0);
                    }
                    Some(type_replacements(t, errors, enums))
                } else {
                    None
                }
            },
            None => None,
        };
        result_replacements(ok, errors, err)
    } else if path_ends_with(path, "HttpResponse") {
        one_value(mk_method_call(mk_call(mk_assoc("HttpResponse", "Ok"), no_tokens()), "finish"))
    } else if let Some(t) = match_first_type_arg(path, "Option") {
        proof {
            types::lemma_arg_type_decreases(*path, first_type_arg(*path, "Option"@)->0);
        }
        let mut r = one_value(mk_word("None"));
        append_values(&mut r, wrapped_values("Some", &type_replacements(t, errors, enums)));
        r
    } else if let Some(t) = match_first_type_arg(path, "Vec") {
        proof {
            types::lemma_arg_type_decreases(*path, first_type_arg(*path, "Vec"@)->0);
        }
        // Generate an empty Vec, and then a one-element vec for every recursive value.
        let mut r = one_value(mk_vec_of(no_tokens()));
        append_values(
            &mut r,
            each_value(
                &type_replacements(t, errors, enums),
                |v: &Tokens| -> (o: Tokens)
                    ensures
                        tokens::toks(o@) == tokens::vec_of(tokens::toks(v@))
                    { mk_vec_of(copy_tokens(v)) },
                Ghost(|r: Seq<Tok>| tokens::vec_of(r)),
            ),
        );
        r
    } else if let Some(t) = match_first_type_arg(path, "Cow") {
        proof {
            types::lemma_arg_type_decreases(*path, first_type_arg(*path, "Cow"@)->0);
        }
        cow_replacements(&type_replacements(t, errors, enums))
    } else if path_ends_with(path, "Pin") || path_ends_with(path, "NonNull") || path_ends_with(path, "Instant")
        || path_ends_with(path, "SystemTime") {
        // Either every candidate generated for these fails to compile, so generating them only burns a
        // build, or there is no public constructor that takes a value, and no `Default`.
        no_values()
    } else if path_ends_with(path, "Range") {
        // `Range<T>` has a `Default` impl, but has one type argument and so would otherwise be turned into
        // `Range::new()` / `Range::from_iter(..)`, none of which compile.
        one_value(mk_default_value())
    } else if let Some((name, t)) = known_container(path) {
        // Something like Arc, Mutex, etc.
        proof {
            types::lemma_arg_type_decreases(*path, 0);
        }
        let name = name.as_str();
        each_value(
            &type_replacements(t, errors, enums),
            |v: &Tokens| -> (o: Tokens)
                ensures
                    tokens::toks(o@) == assoc_call(name@, "new"@, tokens::toks(v@))
                { mk_assoc_call(name, "new", v) },
            Ghost(|r: Seq<Tok>| assoc_call(name@, "new"@, r)),
        )
    } else if let Some((name, t)) = known_collection(path) {
        proof {
            types::lemma_arg_type_decreases(*path, 0);
        }
        let name = name.as_str();
        let mut r = one_value(mk_new_value(name));
        append_values(
            &mut r,
            each_value(
                &type_replacements(t, errors, enums),
                |v: &Tokens| -> (o: Tokens)
                    ensures
                        tokens::toks(o@) == from_iter(name@, tokens::toks(v@))
                    { mk_from_iter(name, copy_tokens(v)) },
                Ghost(|r: Seq<Tok>| from_iter(name@, r)),
            ),
        );
        r
    } else if let Some((name, key, value)) = known_map(path) {
        proof {
            types::lemma_arg_type_decreases(*path, 0);
            types::lemma_arg_type_decreases(*path, 1);
        }
        map_replacements(
            name.as_str(),
            &type_replacements(key, errors, enums),
            &type_replacements(value, errors, enums),
        )
    } else if let Some((name, t)) = maybe_collection_or_container(path) {
        // Something like `T<A>` or `T<'a, A>`, when we don't know exactly how to call it, but we strongly
        // suspect that you could construct it from an `A`.
        proof {
            types::lemma_arg_type_decreases(*path, only_type_arg(*path)->0);
        }
        guessed_replacements(name.as_str(), &type_replacements(t, errors, enums))
    } else if let Some((name, variants)) = enums.unit_variants(path) {
        // A same-file enum: its unit variants are values we know exist. `Default::default()` is not also
        // emitted: for an enum deriving `Default` it would duplicate one of these, and otherwise it would
        // be unviable.
        let mut r = no_values();
        for i in 0..variants.len()
            invariant
                tokens::toks_all(r@) == Seq::new(i as nat, |j: int| tokens::assoc(name@, variants@[j]@)),
        {
            push_value(&mut r, mk_assoc(name.as_str(), variants[i].as_str()));
        }
        assert(tokens::toks_all(r@) =~= Seq::new(
            enums@[name@].len(),
            |i: int| tokens::assoc(name@, enums@[name@][i]),
        ));
        r
    } else {
        one_value(mk_default_value())
    }
}

/// Generate some values that we hope are reasonable replacements for a type.
pub fn type_replacements(t: &Type, errors: &Vec<Vec<TokenTree>>, enums: &EnumIndex) -> (r: Vec<Vec<TokenTree>>)
    ensures
        tokens::toks_all(r@) == type_values(*t, tokens::toks_all(errors@), enums@),
    decreases t,
{
    match t {
        Type::Path(path) => path_replacements(path, errors, enums),
        // Generate arrays that repeat each replacement value however many times. In principle we could
        // generate combinations, but that might get very large, and values like "all zeros" and "all ones"
        // seem likely to catch lots of things.
        Type::Array(elem, length) => {
            let ghost lm = tokens::toks(length@);
            each_value(
                &type_replacements(elem, errors, enums),
                |v: &Tokens| -> (o: Tokens)
                    ensures
                        tokens::toks(o@) == repeated(tokens::toks(v@), lm)
                    { mk_group(Delimiter::Bracket, mk_joined(v, ';', length)) },
                Ghost(|r: Seq<Tok>| repeated(r, lm)),
            )
        },
        Type::Slice(elem) => slice_replacements(&type_replacements(elem, errors, enums)),
        Type::Reference { mutable, elem } => {
            // Mutate non-mutable references to static strings, and references to slices to a leaked vec, and
            // otherwise to references to values leaked on the heap.
            match &**elem {
                Type::Path(path) => {
                    if !*mutable && path_is_ident(path, "str") {
                        two_values(mk_literal("\"\""), mk_sample_text())
                    } else {
                        leaked_replacements(&type_replacements(elem, errors, enums))
                    }
                },
                Type::Slice(inner) => slice_replacements(&type_replacements(inner, errors, enums)),
                _ => leaked_replacements(&type_replacements(elem, errors, enums)),
            }
        },
        Type::Tuple(elems) => {
            // Generate the cartesian product of replacements of every type within the tuple.
            let mut lists: Vec<Vec<Vec<TokenTree>>> = Vec::new();
            let ghost em = tokens::toks_all(errors@);
            assert(choice_models(lists@) =~= tuple_values(elems@, 0, em, enums@));
            for i in 0..elems.len()
                invariant
                    em == tokens::toks_all(errors@),
                    decreases_to!(t => elems@),
                    choice_models(lists@) == tuple_values(elems@, i as int, em, enums@),
            {
                proof {
                    assert(decreases_to!(elems@ => elems@[i as int]));
                }
                let ghost before = lists@;
                let values = type_replacements(&elems[i], errors, enums);
                let ghost vm = tokens::toks_all(values@);
                lists.push(values);
                assert(choice_models(lists@) =~= choice_models(before).push(vm));
            }
            let all = all_choices(&lists);
            let mut r = no_values();
            let ghost chosen = choice_models(all@);
            for i in 0..all.len()
                invariant
                    chosen == choice_models(all@),
                    tokens::toks_all(r@) == Seq::new(
                        i as nat,
                        |j: int| tokens::group(Delimiter::Parenthesis, pretty::with_commas(chosen[j])),
                    ),
            {
                push_value(&mut r, mk_group(Delimiter::Parenthesis, mk_with_commas(&all[i])));
            }
            r
        },
        Type::ImplTrait(bounds) => match match_impl_iterator(bounds) {
            Some(item) => {
                proof {
                    let b = bounds@[iterator_bound(bounds@, 0)->0];
                    lemma_item_type_decreases(b);
                    assert(decreases_to!(t => bounds));
                    assert(decreases_to!(bounds => bounds@));
                    assert(decreases_to!(bounds@ => b));
                }
                let mut r = one_value(mk_std_iter("empty", no_tokens()));
                append_values(
                    &mut r,
                    each_value(
                        &type_replacements(item, errors, enums),
                        |v: &Tokens| -> (o: Tokens)
                            ensures
                                tokens::toks(o@) == std_iter("once"@, tokens::toks(v@))
                            { mk_std_iter("once", copy_tokens(v)) },
                        Ghost(|r: Seq<Tok>| std_iter("once"@, r)),
                    ),
                );
                r
            },
            None => no_values(),
        },
        // `dyn Trait` can't be constructed by value; via `Box<dyn Trait>` this makes the whole function
        // generate no values, which is correct: `Box::new(Default::default())` never compiles.
        Type::TraitObject => no_values(),
        Type::Never => no_values(),
        Type::Other => one_value(mk_default_value()),
    }
}

/// The values that are hoped to be reasonable replacements for what a function returns.
pub open spec fn return_values(
    return_type: ReturnType,
    errors: Seq<Seq<Tok>>,
    enums: Map<Seq<char>, Seq<Seq<char>>>,
) -> Seq<Seq<Tok>> {
    match return_type {
        ReturnType::Unit => seq![tokens::group(Delimiter::Parenthesis, Seq::<Tok>::empty())],
        ReturnType::Type(t) => type_values(t, errors, enums),
    }
}

/// Generate replacement text for a function based on its return type.
pub fn return_type_replacements(
    return_type: &ReturnType,
    error_exprs: &Vec<Vec<TokenTree>>,
    enums: &EnumIndex,
) -> (r: Vec<Vec<TokenTree>>)
    ensures
        tokens::toks_all(r@) == return_values(*return_type, tokens::toks_all(error_exprs@), enums@),
{
    match return_type {
        ReturnType::Unit => one_value(mk_group(Delimiter::Parenthesis, no_tokens())),
        ReturnType::Type(t) => type_replacements(t, error_exprs, enums),
    }
}

/// What `unique` keeps is among the values.
proof fn lemma_unique_prefix_kept(values: Seq<Seq<Tok>>, n: int)
    requires
        0 <= n <= values.len(),
    ensures
        forall|i: int|
            0 <= i < unique_prefix(values, n).len() ==> exists|j: int|
                0 <= j < n && #[trigger] values[j] == #[trigger] unique_prefix(values, n)[i],
    decreases n,
{
    if n > 0 {
        lemma_unique_prefix_kept(values, n - 1);
        let before = unique_prefix(values, n - 1);
        let after = unique_prefix(values, n);
        assert forall|i: int| 0 <= i < after.len() implies exists|j: int|
            0 <= j < n && #[trigger] values[j] == #[trigger] after[i] by {
            if i < before.len() {
                assert(after[i] == before[i]);
                let j = choose|j: int| 0 <= j < n - 1 && #[trigger] values[j] == before[i];
                assert(values[j] == after[i]);
            } else {
                assert(values[n - 1] == after[i]);
            }
        }
    }
}

/// That no two of some values read the same.
pub open spec fn texts_differ(values: Seq<Seq<Tok>>) -> bool {
    forall|i: int, j: int|
        0 <= i < j < values.len() ==> pretty::pretty(#[trigger] values[i]) != pretty::pretty(#[trigger] values[j])
}

/// No two of the values that `unique` keeps read the same.
proof fn lemma_unique_prefix_distinct(values: Seq<Seq<Tok>>, n: int)
    requires
        0 <= n <= values.len(),
    ensures
        texts_differ(unique_prefix(values, n)),
    decreases n,
{
    if n > 0 {
        lemma_unique_prefix_distinct(values, n - 1);
        lemma_unique_prefix_kept(values, n - 1);
        let before = unique_prefix(values, n - 1);
        let after = unique_prefix(values, n);
        assert forall|i: int, j: int| 0 <= i < j < after.len() implies pretty::pretty(#[trigger] after[i])
            != pretty::pretty(#[trigger] after[j]) by {
            assert(after[i] == before[i]);
            if j < before.len() {
                assert(after[j] == before[j]);
            } else {
                let k = choose|k: int| 0 <= k < n - 1 && #[trigger] values[k] == before[i];
                assert(after[j] == values[n - 1]);
                assert(pretty::pretty(values[k]) != pretty::pretty(values[n - 1]));
            }
        }
    }
}

/// No two replacements of a `Result` read the same: each would be the same mutant.
pub proof fn result_replacements_are_distinct(
    ok: Option<Seq<Seq<Tok>>>,
    errors: Seq<Seq<Tok>>,
    err: Option<Seq<Seq<Tok>>>,
)
    ensures
        texts_differ(result_values(ok, errors, err)),
{
    let oks = match ok {
        Some(values) => each(values, |r: Seq<Tok>| tokens::call(tokens::word("Ok"@), r)),
        None => seq![tokens::call(tokens::word("Ok"@), default_value())],
    };
    let configured = each(errors, |r: Seq<Tok>| tokens::call(tokens::word("Err"@), r));
    let recursed = match err {
        Some(values) => each(values, |r: Seq<Tok>| tokens::call(tokens::word("Err"@), r)),
        None => Seq::<Seq<Tok>>::empty(),
    };
    let all = oks + configured + recursed;
    lemma_unique_prefix_distinct(all, all.len() as int);
}

/// How many choices there are of one value from each list: the product of their lengths.
pub open spec fn product_of_lengths(lists: Seq<Seq<Seq<Tok>>>) -> nat
    decreases lists.len(),
{
    if lists.len() == 0 {
        1
    } else {
        product_of_lengths(lists.drop_last()) * lists.last().len()
    }
}

proof fn lemma_extended_choices_len(chosen: Seq<Seq<Seq<Tok>>>, values: Seq<Seq<Tok>>)
    ensures
        extended_choices(chosen, values).len() == chosen.len() * values.len(),
    decreases chosen.len(),
{
    if chosen.len() > 0 {
        lemma_extended_choices_len(chosen.drop_last(), values);
        assert((chosen.len() - 1) * values.len() + values.len() == chosen.len() * values.len()) by (nonlinear_arith);
    }
}

proof fn lemma_choices_len(lists: Seq<Seq<Seq<Tok>>>)
    ensures
        choices(lists).len() == product_of_lengths(lists),
    decreases lists.len(),
{
    if lists.len() > 0 {
        lemma_choices_len(lists.drop_last());
        lemma_extended_choices_len(choices(lists.drop_last()), lists.last());
    }
}

/// A choice, extended.
proof fn lemma_extended_choice(chosen: Seq<Seq<Seq<Tok>>>, values: Seq<Seq<Tok>>, i: int)
    requires
        0 <= i < extended_choices(chosen, values).len(),
    ensures
        values.len() > 0,
        0 <= i / (values.len() as int) < chosen.len(),
        0 <= i % (values.len() as int) < values.len(),
        extended_choices(chosen, values)[i] == chosen[i / (values.len() as int)].push(values[i % (values.len() as int)]),
    decreases chosen.len(),
{
    lemma_extended_choices_len(chosen, values);
    let m = values.len() as int;
    assert(m > 0) by (nonlinear_arith)
        requires
            0 <= i < chosen.len() * m,
            m >= 0,
    ;
    let init = chosen.drop_last();
    lemma_extended_choices_len(init, values);
    let done = init.len() * m;
    if i < done {
        lemma_extended_choice(init, values, i);
        assert(init[i / m] == chosen[i / m]);
    } else {
        let q = init.len() as int;
        let r = i - done;
        assert(chosen.len() * m == q * m + m) by (nonlinear_arith)
            requires
                chosen.len() == q + 1,
        ;
        vstd::arithmetic::div_mod::lemma_fundamental_div_mod_converse(i, m, q, r);
        assert(extended_choices(chosen, values)[i] == chosen.last().push(values[r]));
    }
}

/// How many combinations have the same value from the list at `k` in a row: as many as there are of values from the lists
/// behind it.
pub open spec fn run_length(lists: Seq<Seq<Seq<Tok>>>, k: int) -> nat {
    product_of_lengths(lists.skip(k + 1))
}

/// The `i`th combination of values from some lists, where the value from the first list varies slowest.
pub open spec fn combination(lists: Seq<Seq<Seq<Tok>>>, i: int) -> Seq<Seq<Tok>> {
    Seq::new(
        lists.len(),
        |k: int| lists[k][(i / (run_length(lists, k) as int)) % (lists[k].len() as int)],
    )
}

/// The choices are the combinations, in order.
proof fn lemma_choice_is_combination(lists: Seq<Seq<Seq<Tok>>>, i: int)
    requires
        0 <= i < choices(lists).len(),
    ensures
        choices(lists)[i] == combination(lists, i),
        forall|k: int| 0 <= k < lists.len() ==> lists[k].contains(#[trigger] combination(lists, i)[k]),
    decreases lists.len(),
{
    let picked = combination(lists, i);
    if lists.len() == 0 {
        assert(choices(lists)[i] =~= picked);
    } else {
        let init = lists.drop_last();
        let last = lists.last();
        let m = last.len() as int;
        lemma_extended_choice(choices(init), last, i);
        let q = i / m;
        lemma_choice_is_combination(init, q);
        let before = combination(init, q);
        assert forall|k: int| 0 <= k < lists.len() implies (#[trigger] picked[k]) == before.push(last[i % m])[k]
            && lists[k].contains(picked[k]) by {
            if k < init.len() {
                let w = run_length(init, k) as int;
                assert(lists.skip(k + 1).drop_last() =~= init.skip(k + 1));
                assert(lists.skip(k + 1).last() == last);
                assert(run_length(lists, k) == w * m);
                assert(init[k].contains(before[k]));
                lemma_run_length_positive(init, q, k);
                vstd::arithmetic::div_mod::lemma_div_denominator(i, m, w);
                assert(m * w == w * m) by (nonlinear_arith);
                assert(picked[k] == before[k]);
            } else {
                assert(lists.skip(k + 1) =~= Seq::<Seq<Seq<Tok>>>::empty());
                assert(run_length(lists, k) == 1);
                assert(i / 1 == i);
                assert(last[i % m] == picked[k]);
            }
        }
        assert(choices(lists)[i] =~= picked);
    }
}

/// Where there is a combination, each list holds something.
proof fn lemma_run_length_positive(lists: Seq<Seq<Seq<Tok>>>, i: int, k: int)
    requires
        0 <= i < choices(lists).len(),
        0 <= k < lists.len(),
    ensures
        run_length(lists, k) > 0,
    decreases lists.len(),
{
    let init = lists.drop_last();
    let last = lists.last();
    lemma_extended_choice(choices(init), last, i);
    if k == lists.len() - 1 {
        assert(lists.skip(k + 1) =~= Seq::<Seq<Seq<Tok>>>::empty());
    } else {
        lemma_run_length_positive(init, i / (last.len() as int), k);
        assert(lists.skip(k + 1).drop_last() =~= init.skip(k + 1));
        assert(lists.skip(k + 1).last() == last);
        let w = run_length(init, k);
        assert(w * last.len() > 0) by (nonlinear_arith)
            requires
                w > 0,
                last.len() > 0,
        ;
    }
}

/// What is made of values that each end in a word or a group ends so.
proof fn lemma_flat_ends_in_values(values: Seq<Seq<Tok>>)
    ensures
        forall|f: spec_fn(Seq<Tok>) -> Seq<Seq<Tok>>, i: int|
            #![trigger flat(values, f)[i]]
            (forall|r: Seq<Tok>, j: int| 0 <= j < f(r).len() ==> pretty::ends_in_value(#[trigger] f(r)[j])) && 0 <= i < flat(
                values,
                f,
            ).len() ==> pretty::ends_in_value(flat(values, f)[i]),
    decreases values.len(),
{
    if values.len() > 0 {
        let init = values.drop_last();
        lemma_flat_ends_in_values(init);
        assert forall|f: spec_fn(Seq<Tok>) -> Seq<Seq<Tok>>, i: int|
            #![trigger flat(values, f)[i]]
            (forall|r: Seq<Tok>, j: int| 0 <= j < f(r).len() ==> pretty::ends_in_value(#[trigger] f(r)[j])) && 0 <= i < flat(
                values,
                f,
            ).len() implies pretty::ends_in_value(flat(values, f)[i]) by {
            let before = flat(init, f);
            if i < before.len() {
                assert(pretty::ends_in_value(flat(init, f)[i]));
            } else {
                assert(flat(values, f)[i] == f(values.last())[i - before.len()]);
            }
        }
    }
}

/// Values that are kept once each are among the values.
proof fn lemma_unique_prefix_is_among(values: Seq<Seq<Tok>>, n: int)
    requires
        n <= values.len(),
    ensures
        forall|i: int| 0 <= i < unique_prefix(values, n).len() ==> values.contains(#[trigger] unique_prefix(values, n)[i]),
    decreases n,
{
    if n > 0 {
        lemma_unique_prefix_is_among(values, n - 1);
        let before = unique_prefix(values, n - 1);
        assert forall|i: int| 0 <= i < unique_prefix(values, n).len() implies values.contains(
            #[trigger] unique_prefix(values, n)[i],
        ) by {
            if i < before.len() {
                assert(values.contains(before[i]));
            } else {
                assert(values[n - 1] == unique_prefix(values, n)[i]);
            }
        }
    }
}

/// Every fixed value ends in a word or a group.
proof fn lemma_plain_values_end_in_values(path: Path)
    requires
        plain_values(path) is Some,
    ensures
        forall|i: int| 0 <= i < plain_values(path)->0.len() ==> pretty::ends_in_value(#[trigger] plain_values(path)->0[i]),
{
}

/// Every value of a `Result` ends in a group.
proof fn lemma_result_values_end_in_values(
    ok: Option<Seq<Seq<Tok>>>,
    errors: Seq<Seq<Tok>>,
    err: Option<Seq<Seq<Tok>>>,
)
    ensures
        forall|i: int|
            0 <= i < result_values(ok, errors, err).len() ==> pretty::ends_in_value(
                #[trigger] result_values(ok, errors, err)[i],
            ),
{
    let oks = match ok {
        Some(values) => each(values, |r: Seq<Tok>| tokens::call(tokens::word("Ok"@), r)),
        None => seq![tokens::call(tokens::word("Ok"@), default_value())],
    };
    let configured = each(errors, |r: Seq<Tok>| tokens::call(tokens::word("Err"@), r));
    let recursed = match err {
        Some(values) => each(values, |r: Seq<Tok>| tokens::call(tokens::word("Err"@), r)),
        None => Seq::<Seq<Tok>>::empty(),
    };
    let all = oks + configured + recursed;
    lemma_unique_prefix_is_among(all, all.len() as int);
    assert(result_values(ok, errors, err) == unique(all));
    assert forall|i: int| 0 <= i < all.len() implies pretty::ends_in_value(#[trigger] all[i]) by {
        if i < oks.len() {
            assert(all[i] == oks[i]);
        } else if i < oks.len() + configured.len() {
            assert(all[i] == configured[i - oks.len()]);
        } else {
            assert(all[i] == recursed[i - oks.len() - configured.len()]);
        }
    }
}

/// Every replacement of a named type ends in a word or a group.
proof fn lemma_path_values_end_in_values(path: Path, errors: Seq<Seq<Tok>>, enums: Map<Seq<char>, Seq<Seq<char>>>)
    ensures
        forall|i: int|
            0 <= i < path_values(path, errors, enums).len() ==> pretty::ends_in_value(
                #[trigger] path_values(path, errors, enums)[i],
            ),
{
    if plain_values(path) is Some {
        lemma_plain_values_end_in_values(path);
    } else if path_ends(path, "Result"@) {
        let ok = match first_type_arg(path, "Result"@) {
            Some(k) if is_type_arg(path, k) => Some(type_values(types::arg_type(path, k), errors, enums)),
            _ => None,
        };
        let err = match nth_type_arg(path, "Result"@, 1) {
            Some(k) if is_type_arg(path, k) && simply_constructible(types::arg_type(path, k)) => Some(
                type_values(types::arg_type(path, k), errors, enums),
            ),
            _ => None,
        };
        lemma_result_values_end_in_values(ok, errors, err);
    } else {
        if first_type_arg(path, "Cow"@) is Some {
            lemma_flat_ends_in_values(type_values(types::arg_type(path, first_type_arg(path, "Cow"@)->0), errors, enums));
        }
        lemma_flat_ends_in_values(type_values(types::arg_type(path, 0), errors, enums));
        if only_type_arg(path) is Some {
            lemma_flat_ends_in_values(type_values(types::arg_type(path, only_type_arg(path)->0), errors, enums));
        }
    }
}

/// Every replacement ends in a word or a group.
pub proof fn replacements_end_in_values(t: Type, errors: Seq<Seq<Tok>>, enums: Map<Seq<char>, Seq<Seq<char>>>)
    ensures
        forall|i: int|
            0 <= i < type_values(t, errors, enums).len() ==> pretty::ends_in_value(
                #[trigger] type_values(t, errors, enums)[i],
            ),
{
    match t {
        Type::Path(path) => {
            lemma_path_values_end_in_values(path, errors, enums);
            assert(type_values(t, errors, enums) == path_values(path, errors, enums));
        },
        _ => {},
    }
}

/// The replacements of the elements of a tuple.
pub open spec fn element_values(
    elems: Seq<Type>,
    errors: Seq<Seq<Tok>>,
    enums: Map<Seq<char>, Seq<Seq<char>>>,
) -> Seq<Seq<Seq<Tok>>> {
    Seq::new(elems.len(), |k: int| type_values(elems[k], errors, enums))
}

/// The values for the first elements.
proof fn lemma_tuple_values(elems: Seq<Type>, n: int, errors: Seq<Seq<Tok>>, enums: Map<Seq<char>, Seq<Seq<char>>>)
    requires
        0 <= n <= elems.len(),
    ensures
        tuple_values(elems, n, errors, enums) == element_values(elems, errors, enums).take(n),
    decreases n,
{
    let all = element_values(elems, errors, enums);
    if n > 0 {
        lemma_tuple_values(elems, n - 1, errors, enums);
        assert(all.take(n) =~= all.take(n - 1).push(type_values(elems[n - 1], errors, enums)));
    } else {
        assert(tuple_values(elems, n, errors, enums) =~= all.take(n));
    }
}

/// A tuple has one replacement for every combination of replacements of its elements, the first element varying slowest: each
/// is the combination in brackets, and is shown with a comma and a space between its parts. There is none where an element
/// has none, and the one value `()` where there are no elements.
pub proof fn tuple_replacements_are_all_combinations(
    elems: Vec<Type>,
    errors: Seq<Seq<Tok>>,
    enums: Map<Seq<char>, Seq<Seq<char>>>,
)
    ensures
        ({
            let lists = element_values(elems@, errors, enums);
            let all = type_values(Type::Tuple(elems), errors, enums);
            &&& all.len() == product_of_lengths(lists)
            &&& forall|i: int|
                0 <= i < all.len() ==> {
                    &&& #[trigger] all[i] == tokens::group(
                        Delimiter::Parenthesis,
                        pretty::with_commas(combination(lists, i)),
                    )
                    &&& pretty::pretty(all[i]) == "("@ + text::joined(
                        pretty::pretty_all(combination(lists, i)),
                        ", "@,
                    ) + ")"@
                }
        }),
{
    reveal_strlit("(");
    reveal_strlit(")");
    let lists = element_values(elems@, errors, enums);
    let all = type_values(Type::Tuple(elems), errors, enums);
    lemma_tuple_values(elems@, elems@.len() as int, errors, enums);
    assert(lists.take(elems@.len() as int) =~= lists);
    lemma_choices_len(lists);
    assert forall|i: int| 0 <= i < all.len() implies #[trigger] all[i] == tokens::group(
        Delimiter::Parenthesis,
        pretty::with_commas(combination(lists, i)),
    ) && pretty::pretty(all[i]) == "("@ + text::joined(pretty::pretty_all(combination(lists, i)), ", "@) + ")"@ by {
        let picked = combination(lists, i);
        lemma_choice_is_combination(lists, i);
        assert forall|k: int| 0 <= k < picked.len() implies pretty::ends_in_value(#[trigger] picked[k]) by {
            assert(lists[k].contains(picked[k]));
            replacements_end_in_values(elems@[k], errors, enums);
        }
        pretty::values_are_printed_one_by_one(picked);
        let inner = pretty::with_commas(picked);
        assert(pretty::pretty_prefix(all[i], 0) =~= Seq::<char>::empty());
        assert(pretty::pretty(all[i]) =~= "("@ + pretty::pretty(inner) + ")"@);
    }
}

} // verus!
