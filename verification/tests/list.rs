//! Lists of mutants and files.

use cargo_mutants::list::{list_files, list_named, write_mutants, MutantsJson};
use cargo_mutants::mutant::Function;
use cargo_mutants::{Genre, Mutant, Options, Package, SourceFile, Span};

fn source_file(path: &str) -> SourceFile {
    let package = Package {
        name: "p".to_owned(),
        version: "0.1.0".to_owned(),
        top_sources: vec!["src/lib.rs".to_owned()],
    };
    SourceFile::new(package, path, "fn f() {\n    1 + 2;\n}\n", true)
}

fn mutants() -> Vec<Mutant> {
    ["-", "*"]
        .iter()
        .map(|replacement| Mutant {
            source_file: source_file("src/m.rs"),
            function: Some(Function {
                function_name: "f".to_owned(),
                return_type: String::new(),
                span: Span::quad(1, 1, 3, 2),
            }),
            span: Span::quad(2, 7, 2, 8),
            short_replaced: None,
            replacement: (*replacement).to_owned(),
            genre: Genre::BinaryOperator,
            target: None,
            const_eval: false,
        })
        .collect()
}

fn listed(options: &Options, colors: bool) -> String {
    let mut out = String::new();
    assert!(write_mutants(&mut out, &mutants(), options, colors));
    out
}

#[test]
fn mutants_one_to_a_line() {
    let mut options = Options::new();
    assert_eq!(listed(&options, false), "src/m.rs: replace + with - in f\nsrc/m.rs: replace + with * in f\n");
    options.show_line_col = true;
    assert_eq!(
        listed(&options, false),
        "src/m.rs:2:7: replace + with - in f\nsrc/m.rs:2:7: replace + with * in f\n"
    );
}

#[test]
fn mutants_with_diffs() {
    let mut options = Options::new();
    options.emit_diffs = true;
    let text = listed(&options, false);
    assert!(
        text.starts_with(
            "src/m.rs: replace + with - in f\n--- src/m.rs\n+++ replace + with - in f\n@@ -1,3 +1,3 @@\n fn f() {\n-    1 + 2;\n"
        ),
        "{text}"
    );
    assert!(text.ends_with(" }\n\n"), "{text}");
    let names = vec!["one".to_owned(), "two".to_owned()];
    assert_eq!(list_named(&mutants(), &names, false).unwrap(), "one\ntwo\n");
}

#[test]
fn mutants_in_colour() {
    console::set_colors_enabled(true);
    let text = listed(&Options::new(), true);
    assert!(text.starts_with("src/m.rs: replace \x1b[33m+\x1b[0m with \x1b[38;5;11m-\x1b[0m in "), "{text:?}");
}

#[test]
fn mutants_as_json() {
    let mut options = Options::new();
    options.emit_json = true;
    let value: serde_json::Value = serde_json::from_str(&listed(&options, false)).unwrap();
    assert_eq!(value.as_array().unwrap().len(), 2);
    let first = &value[0];
    assert_eq!(first["package"], "p");
    assert_eq!(first["file"], "src/m.rs");
    assert_eq!(first["function"]["function_name"], "f");
    assert_eq!(first["function"]["return_type"], "");
    assert_eq!(first["function"]["span"]["end"]["line"], 3);
    assert_eq!(first["span"]["start"]["line"], 2);
    assert_eq!(first["span"]["start"]["column"], 7);
    assert_eq!(first["replacement"], "-");
    assert_eq!(first["genre"], "BinaryOperator");
    assert!(first["diff"].as_str().unwrap().starts_with("--- src/m.rs\n"));
    assert!(MutantsJson(&mutants()).to_json().is_some());
    assert!(mutants()[0].to_json().is_some());
}

#[test]
fn files_as_text_and_json() {
    let files = vec![source_file("src/lib.rs"), source_file("src/m.rs")];
    let mut options = Options::new();
    assert_eq!(list_files(&files, &options), "src/lib.rs\nsrc/m.rs\n");
    options.emit_json = true;
    let value: serde_json::Value = serde_json::from_str(&list_files(&files, &options)).unwrap();
    assert_eq!(value[1]["path"], "src/m.rs");
    assert_eq!(value[1]["package"], "p");
    assert_eq!(value.as_array().unwrap().len(), 2);
}

/// The options that detect equivalent mutants change what is built, not what is listed.
#[test]
fn detect_equivalent_mutants_is_inert_for_list_json() {
    let mut options = Options::new();
    options.emit_json = true;
    let without = listed(&options, false);
    options.detect_equivalent_mutants = true;
    assert_eq!(listed(&options, false), without);
}
