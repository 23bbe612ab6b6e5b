//! The values that functions are made to return.

use cargo_mutants::fnvalue::{
    known_collection, known_container, known_map, match_impl_iterator, maybe_collection_or_container,
    return_type_replacements, EnumIndex,
};
use cargo_mutants::parse::{parse_error_values, read_tokens};
use cargo_mutants::pretty::to_pretty_string;
use cargo_mutants::tokens::TokenTree;
use cargo_mutants::types::{
    Bound, Declaration, GenericArgument, Path, PathArguments, PathSegment, ReturnType, Type, Variant,
};
use quote::ToTokens;

fn tokens_of(item: &impl ToTokens) -> Vec<TokenTree> {
    read_tokens(item.to_token_stream())
}

fn path_of(path: &syn::Path) -> Path {
    Path {
        leading_colon: path.leading_colon.is_some(),
        segments: path
            .segments
            .iter()
            .map(|segment| PathSegment {
                ident: segment.ident.to_string(),
                arguments: match &segment.arguments {
                    syn::PathArguments::None => PathArguments::Bare,
                    syn::PathArguments::AngleBracketed(arguments) => {
                        PathArguments::AngleBracketed(arguments.args.iter().map(argument_of).collect())
                    }
                    syn::PathArguments::Parenthesized(_) => PathArguments::Parenthesized,
                },
            })
            .collect(),
    }
}

fn argument_of(argument: &syn::GenericArgument) -> GenericArgument {
    match argument {
        syn::GenericArgument::Lifetime(_) => GenericArgument::Lifetime,
        syn::GenericArgument::Type(t) => GenericArgument::Type(type_of(t)),
        syn::GenericArgument::AssocType(assoc) => {
            GenericArgument::AssocType(assoc.ident.to_string(), type_of(&assoc.ty))
        }
        _ => GenericArgument::Other,
    }
}

fn bounds_of<'a>(bounds: impl Iterator<Item = &'a syn::TypeParamBound>) -> Vec<Bound> {
    bounds
        .map(|bound| match bound {
            syn::TypeParamBound::Trait(trait_bound) => Bound::Trait(path_of(&trait_bound.path)),
            _ => Bound::Other,
        })
        .collect()
}

fn type_of(t: &syn::Type) -> Type {
    match t {
        syn::Type::Path(path) => Type::Path(path_of(&path.path)),
        syn::Type::Array(array) => Type::Array(Box::new(type_of(&array.elem)), tokens_of(&array.len)),
        syn::Type::Slice(slice) => Type::Slice(Box::new(type_of(&slice.elem))),
        syn::Type::Reference(reference) => Type::Reference {
            mutable: reference.mutability.is_some(),
            elem: Box::new(type_of(&reference.elem)),
        },
        syn::Type::Tuple(tuple) => Type::Tuple(tuple.elems.iter().map(type_of).collect()),
        syn::Type::ImplTrait(impl_trait) => Type::ImplTrait(bounds_of(impl_trait.bounds.iter())),
        syn::Type::TraitObject(_) => Type::TraitObject,
        syn::Type::Never(_) => Type::Never,
        _ => Type::Other,
    }
}

fn return_type_of(output: &syn::ReturnType) -> ReturnType {
    match output {
        syn::ReturnType::Default => ReturnType::Unit,
        syn::ReturnType::Type(_, t) => ReturnType::Type(type_of(t)),
    }
}

fn declarations_of(items: &[syn::Item]) -> Vec<Declaration> {
    items
        .iter()
        .map(|item| match item {
            syn::Item::Enum(item_enum) => Declaration::Enum {
                name: item_enum.ident.to_string(),
                variants: item_enum
                    .variants
                    .iter()
                    .map(|variant| Variant {
                        name: variant.ident.to_string(),
                        is_unit: matches!(variant.fields, syn::Fields::Unit),
                    })
                    .collect(),
            },
            syn::Item::Mod(item_mod) => match &item_mod.content {
                Some((_, items)) => Declaration::Mod(declarations_of(items)),
                None => Declaration::Other,
            },
            _ => Declaration::Other,
        })
        .collect()
}

fn path(code: &str) -> Path {
    path_of(&syn::parse_str(code).unwrap())
}

fn type_named(code: &str) -> Type {
    type_of(&syn::parse_str(code).unwrap())
}

fn impl_bounds(code: &str) -> Vec<Bound> {
    match type_named(code) {
        Type::ImplTrait(bounds) => bounds,
        _ => panic!("not an impl type: {code}"),
    }
}

#[test]
fn recurse_into_result_bool() {
    check_replacements(
        "-> std::result::Result<bool>",
        &[],
        &["Ok(true)", "Ok(false)"],
    );
}

#[test]
fn recurse_into_result_result_bool_with_error_values() {
    check_replacements(
        "-> std::result::Result<Result<bool>>",
        &[r#"anyhow!("mutated")"#],
        &[
            "Ok(Ok(true))",
            "Ok(Ok(false))",
            r#"Ok(Err(anyhow!("mutated")))"#,
            r#"Err(anyhow!("mutated"))"#,
        ],
    );
}

#[test]
fn u16_replacements() {
    check_replacements("-> u16", &[], &["0", "1"]);
}

#[test]
fn isize_replacements() {
    check_replacements("-> isize", &[], &["0", "1", "-1"]);
}

#[test]
fn nonzero_integer_replacements() {
    check_replacements(
        "-> std::num::NonZeroIsize",
        &[],
        &["1.try_into().unwrap()", "(-1).try_into().unwrap()"],
    );

    check_replacements(
        "-> std::num::NonZeroUsize",
        &[],
        &["1.try_into().unwrap()"],
    );

    check_replacements(
        "-> std::num::NonZeroU32",
        &[],
        &["1.try_into().unwrap()"],
    );
}

#[test]
fn nonzero_generic_unsigned_replacements() {
    check_replacements(
        "-> NonZero<u32>",
        &[],
        &["1.try_into().unwrap()"],
    );

    check_replacements(
        "-> NonZero<usize>",
        &[],
        &["1.try_into().unwrap()"],
    );

    check_replacements(
        "-> std::num::NonZero<u8>",
        &[],
        &["1.try_into().unwrap()"],
    );
}

#[test]
fn nonzero_generic_signed_replacements() {
    check_replacements(
        "-> NonZero<i32>",
        &[],
        &["1.try_into().unwrap()", "(-1).try_into().unwrap()"],
    );

    check_replacements(
        "-> NonZero<isize>",
        &[],
        &["1.try_into().unwrap()", "(-1).try_into().unwrap()"],
    );

    check_replacements(
        "-> std::num::NonZero<i64>",
        &[],
        &["1.try_into().unwrap()", "(-1).try_into().unwrap()"],
    );
}

#[test]
fn nonzero_generic_unknown_type_replacements() {
    // When T is not a recognized integer type, assume it could be signed.
    check_replacements(
        "-> NonZero<T>",
        &[],
        &["1.try_into().unwrap()", "(-1).try_into().unwrap()"],
    );
}

#[test]
fn unit_replacement() {
    check_replacements("-> ()", &[], &["()"]);
}

#[test]
fn result_unit_replacement() {
    check_replacements("-> Result<(), Error>", &[], &["Ok(())"]);

    check_replacements("-> Result<()>", &[], &["Ok(())"]);
}

#[test]
fn http_response_replacement() {
    check_replacements(
        "-> HttpResponse",
        &[],
        &["HttpResponse::Ok().finish()"],
    );
}

#[test]
fn option_usize_replacement() {
    check_replacements(
        "-> Option<usize>",
        &[],
        &["None", "Some(0)", "Some(1)"],
    );
}

#[test]
fn box_usize_replacement() {
    check_replacements(
        "-> Box<usize>",
        &[],
        &["Box::new(0)", "Box::new(1)"],
    );
}

#[test]
fn box_unrecognized_type_replacement() {
    check_replacements(
        "-> Box<MyObject>",
        &[],
        &["Box::new(Default::default())"],
    );
}

#[test]
fn vec_string_replacement() {
    check_replacements(
        "-> std::vec::Vec<String>",
        &[],
        &["vec![]", "vec![String::new()]", r#"vec!["xyzzy".into()]"#],
    );
}

#[test]
fn float_replacement() {
    check_replacements("-> f32", &[], &["0.0", "1.0", "-1.0"]);
}

#[test]
fn ref_replacement_leaks_values() {
    // To avoid returning references to temporary values, the mutation of references
    // leaks values onto the heap.
    check_replacements(
        "-> &'static String",
        &[],
        &[
            "Box::leak(Box::new(String::new()))",
            "Box::leak(Box::new(\"xyzzy\".into()))",
        ],
    );
}

#[test]
fn ref_replacement_recurses() {
    check_replacements(
        "-> &bool",
        &[],
        &["Box::leak(Box::new(true))", "Box::leak(Box::new(false))"],
    );
}

#[test]
fn ref_mut() {
    check_replacements(
        "-> &mut bool",
        &[],
        &["Box::leak(Box::new(true))", "Box::leak(Box::new(false))"],
    );
}

#[test]
fn array_replacement() {
    check_replacements(
        "-> [u8; 256]",
        &[],
        &["[0; 256]", "[1; 256]"],
    );
}

#[test]
fn arc_replacement() {
    // Also checks that it matches the path, even using an atypical path.
    // Ideally this would be fully qualified like `alloc::sync::Arc::new(String::new())`.
    check_replacements(
        "-> alloc::sync::Arc<String>",
        &[],
        &["Arc::new(String::new())", r#"Arc::new("xyzzy".into())"#],
    );
}

#[test]
fn rc_replacement() {
    // Also checks that it matches the path, even using an atypical path.
    // Ideally this would be fully qualified like `alloc::sync::Rc::new(String::new())`.
    check_replacements(
        "-> alloc::sync::Rc<String>",
        &[],
        &["Rc::new(String::new())", r#"Rc::new("xyzzy".into())"#],
    );
}

#[test]
fn match_known_collection() {
    assert_eq!(
        known_collection(&path("std::collections::VecDeque<String>")),
        Some((&"VecDeque".to_owned(), &type_named("String")))
    );

    assert_eq!(
        known_collection(&path("std::collections::BinaryHeap<(u32, u32)>")),
        Some((&"BinaryHeap".to_owned(), &type_named("(u32, u32)")))
    );

    assert_eq!(
        known_collection(&path("LinkedList<[u8; 256]>")),
        Some((&"LinkedList".to_owned(), &type_named("[u8; 256]")))
    );

    assert_eq!(known_collection(&path("Arc<String>")), None);

    // This might be a collection, and is handled generically, but it's not a specifically known
    // collection type. (Maybe we shouldn't bother knowing specific types?)
    assert_eq!(
        known_collection(&path("Wibble<&str>")),
        None
    );
}

#[test]
fn match_known_map() {
    assert_eq!(
        known_map(&path("std::collections::BTreeMap<String, usize>")),
        Some((&"BTreeMap".to_owned(), &type_named("String"), &type_named("usize")))
    );

    assert_eq!(
        known_map(&path("std::collections::HashMap<(usize, usize), bool>")),
        Some((&"HashMap".to_owned(), &type_named("(usize, usize)"), &type_named("bool")))
    );

    assert_eq!(
        known_map(&path("Option<(usize, usize)>")),
        None
    );

    assert_eq!(
        known_map(&path("MyMap<String, usize>")),
        None,
    );

    assert_eq!(
        known_map(&path("Pair<String, usize>")),
        None,
    );
}

#[test]
fn btreeset_replacement() {
    check_replacements(
        "-> std::collections::BTreeSet<String>",
        &[],
        &[
            "BTreeSet::new()",
            "BTreeSet::from_iter([String::new()])",
            r#"BTreeSet::from_iter(["xyzzy".into()])"#,
        ],
    );
}

#[test]
fn cow_generates_borrowed_and_owned() {
    check_replacements(
        "-> Cow<'static, str>",
        &[],
        &[
            r#"Cow::Borrowed("")"#,
            r#"Cow::Owned("".to_owned())"#,
            r#"Cow::Borrowed("xyzzy")"#,
            r#"Cow::Owned("xyzzy".to_owned())"#,
        ],
    );
}

#[test]
fn unknown_container_replacement() {
    // This looks like something that holds a &str, and maybe can be constructed
    // from a &str, but we don't know anything else about it, so we just guess.
    check_replacements(
        "-> UnknownContainer<'static, str>",
        &[],
        &[
            "UnknownContainer::new()",
            r#"UnknownContainer::from_iter([""])"#,
            r#"UnknownContainer::new("")"#,
            r#"UnknownContainer::from("")"#,
            r#"UnknownContainer::from_iter(["xyzzy"])"#,
            r#"UnknownContainer::new("xyzzy")"#,
            r#"UnknownContainer::from("xyzzy")"#,
        ],
    );
}

#[test]
fn tuple_combinations() {
    check_replacements(
        "-> (bool, usize)",
        &[],
        &["(true, 0)", "(true, 1)", "(false, 0)", "(false, 1)"],
    );
}

#[test]
fn tuple_combination_longer() {
    check_replacements(
        "-> (bool, Option<String>)",
        &[],
        &[
            "(true, None)",
            "(true, Some(String::new()))",
            r#"(true, Some("xyzzy".into()))"#,
            "(false, None)",
            "(false, Some(String::new()))",
            r#"(false, Some("xyzzy".into()))"#,
        ],
    );
}

#[test]
fn iter_replacement() {
    check_replacements(
        "-> impl Iterator<Item = String>",
        &[],
        &[
            "::std::iter::empty()",
            "::std::iter::once(String::new())",
            r#"::std::iter::once("xyzzy".into())"#,
        ],
    );
}

#[test]
fn impl_matches_iterator() {
    assert_eq!(
        match_impl_iterator(&impl_bounds("impl std::iter::Iterator<Item = String>")),
        Some(&type_named("String"))
    );
    assert_eq!(
        match_impl_iterator(&impl_bounds("impl Iterator<Item = String>")),
        Some(&type_named("String"))
    );
    // Strange, maybe it's a type defined in this crate, but we don't know what to
    // do with it.
    assert_eq!(match_impl_iterator(&impl_bounds("impl Iterator")), None);
    assert_eq!(
        match_impl_iterator(&impl_bounds("impl Borrow<String>")),
        None
    );
}

#[test]
fn slice_replacement() {
    check_replacements(
        "-> [u8]",
        &[],
        &[
            "Vec::leak(Vec::new())",
            "Vec::leak(vec![0])",
            "Vec::leak(vec![1])",
        ],
    );
}

#[test]
fn btreemap_replacement() {
    check_replacements(
        "-> BTreeMap<String, bool>",
        &[],
        &[
            "BTreeMap::new()",
            "BTreeMap::from_iter([(String::new(), true)])",
            "BTreeMap::from_iter([(String::new(), false)])",
            "BTreeMap::from_iter([(\"xyzzy\".into(), true)])",
            "BTreeMap::from_iter([(\"xyzzy\".into(), false)])",
        ],
    );
}

#[test]
fn cmp_ordering_replacements() {
    check_replacements(
        "-> std::cmp::Ordering",
        &[],
        &["Ordering::Less", "Ordering::Equal", "Ordering::Greater"],
    );
}

#[test]
fn range_replacement_is_default_not_a_guessed_constructor() {
    check_replacements(
        "-> Range<i32>",
        &[],
        &["Default::default()"],
    );
}

#[test]
fn unconstructible_types_generate_no_replacements() {
    for return_type in [
        "-> Box<dyn std::error::Error>",
        "-> Pin<Box<String>>",
        "-> NonNull<u8>",
        "-> Instant",
        "-> SystemTime",
    ] {
        check_replacements(return_type, &[], &[]);
    }
}

#[test]
fn recurse_into_result_error_type_when_simply_constructible() {
    check_replacements(
        "-> Result<bool, String>",
        &[],
        &[
            "Ok(true)",
            "Ok(false)",
            "Err(String::new())",
            "Err(\"xyzzy\".into())",
        ],
    );
}

#[test]
fn dont_recurse_into_opaque_result_error_type() {
    check_replacements(
        "-> Result<bool, anyhow::Error>",
        &[],
        &["Ok(true)", "Ok(false)"],
    );
}

#[test]
fn char_replacements() {
    check_replacements("-> char", &[], &["'\\0'", "'x'"]);
}

#[test]
fn path_buf_replacements() {
    check_replacements(
        "-> std::path::PathBuf",
        &[],
        &["PathBuf::new()", "PathBuf::from(\"xyzzy\")"],
    );
}

#[test]
fn utf8_path_buf_replacements_use_the_matched_type() {
    check_replacements(
        "-> camino::Utf8PathBuf",
        &[],
        &["Utf8PathBuf::new()", "Utf8PathBuf::from(\"xyzzy\")"],
    );
}

#[test]
fn os_string_replacements() {
    check_replacements(
        "-> std::ffi::OsString",
        &[],
        &["OsString::new()", "OsString::from(\"xyzzy\")"],
    );
}

#[test]
fn duration_replacements() {
    check_replacements(
        "-> std::time::Duration",
        &[],
        &["Duration::ZERO", "Duration::from_secs(1)"],
    );
}

fn check_replacements(return_type: &str, error_exprs: &[&str], expected: &[&str]) {
    check_replacements_with_enums(return_type, error_exprs, &EnumIndex::new(), expected);
}

fn check_replacements_with_enums(return_type: &str, error_exprs: &[&str], enums: &EnumIndex, expected: &[&str]) {
    let parsed: syn::ReturnType = syn::parse_str(return_type).unwrap();
    let error_values: Vec<String> = error_exprs.iter().map(|expr| (*expr).to_owned()).collect();
    let errors = parse_error_values(&error_values).unwrap();
    let replacements: Vec<String> =
        return_type_replacements(&return_type_of(&parsed), &errors, enums).iter().map(to_pretty_string).collect();
    assert_eq!(replacements, expected);
}

#[test]
fn same_file_enum_unit_variants_are_replacements() {
    let file: syn::File = syn::parse_str("enum Colour {
    Red,
    Green,
    Custom(u32),
}").unwrap();
    check_replacements_with_enums(
        "-> Colour",
        &[],
        &EnumIndex::from_file(&declarations_of(&file.items)),
        &["Colour::Red", "Colour::Green"],
    );
}

#[test]
fn enum_in_inline_mod_is_indexed() {
    let file: syn::File = syn::parse_str("mod inner {
    enum Flag {
        On,
        Off,
    }
}").unwrap();
    check_replacements_with_enums(
        "-> inner::Flag",
        &[],
        &EnumIndex::from_file(&declarations_of(&file.items)),
        &["Flag::On", "Flag::Off"],
    );
}

#[test]
fn enum_without_unit_variants_falls_back_to_default() {
    let file: syn::File = syn::parse_str("enum Wrapper {
    A(u32),
}").unwrap();
    check_replacements_with_enums(
        "-> Wrapper",
        &[],
        &EnumIndex::from_file(&declarations_of(&file.items)),
        &["Default::default()"],
    );
}

#[test]
fn match_map() {
    assert!(known_map(&path("BTreeMap<String, usize>")).is_some());
    assert!(known_map(&path("HashMap<(usize, usize), bool>")).is_some());
    assert!(known_map(&path("Option<(usize, usize)>")).is_none());
}

#[test]
fn containers_are_known_by_name() {
    assert_eq!(known_container(&path("std::cell::RefCell<u8>")), Some((&"RefCell".to_owned(), &type_named("u8"))));
    assert_eq!(known_container(&path("Vec<u8>")), None);
    assert_eq!(known_container(&path("Box<'a, u8>")), None);
    assert_eq!(
        maybe_collection_or_container(&path("Wibble<'static, u8>")),
        Some((&"Wibble".to_owned(), &type_named("u8")))
    );
    assert_eq!(maybe_collection_or_container(&path("Wibble<u8, u16>")), None);
}

#[test]
fn replacements_of_a_result_are_distinct() {
    check_replacements("-> Result<(), ()>", &["()"], &["Ok(())", "Err(())"]);
}

#[test]
fn tuples_are_all_combinations() {
    check_replacements(
        "-> (bool, bool, bool)",
        &[],
        &[
            "(true, true, true)",
            "(true, true, false)",
            "(true, false, true)",
            "(true, false, false)",
            "(false, true, true)",
            "(false, true, false)",
            "(false, false, true)",
            "(false, false, false)",
        ],
    );
}

#[test]
fn types_without_values() {
    check_replacements("-> !", &[], &[]);
    check_replacements("-> fn(u8) -> u8", &[], &["Default::default()"]);
}
