//! Mutants: how they are described, shown and applied.

use cargo_mutants::hunks::{hunks_can_move, renumber_hunks};
use cargo_mutants::mutant::{clean_filename, Function, PartStyle, DIFF_CONTEXT_LINES, MUTATION_MARKER_COMMENT};
use cargo_mutants::{mutant, Genre, Mutant, MutationTarget, Package, SourceFile, Span};

fn source_file(path: &str, code: &str) -> SourceFile {
    let package = Package {
        name: "p".to_owned(),
        version: "0.1.0".to_owned(),
        top_sources: vec!["src/lib.rs".to_owned()],
    };
    SourceFile::new(package, path, code, true)
}

fn function() -> Option<Function> {
    Some(Function {
        function_name: "m::f".to_owned(),
        return_type: "-> bool".to_owned(),
        span: Span::quad(1, 1, 3, 2),
    })
}

const CODE: &str = "fn f() -> bool {\n    a  + b == 3\n}\n";

fn change(genre: Genre, span: Span, replacement: &str) -> Mutant {
    Mutant {
        source_file: source_file("src/m.rs", CODE),
        function: function(),
        span,
        short_replaced: None,
        replacement: replacement.to_owned(),
        genre,
        target: None,
        const_eval: false,
    }
}

#[test]
fn squash_lines() {
    assert_eq!(mutant::squash_lines("squash_lines a b c"), "squash_lines a b c");
    assert_eq!(mutant::squash_lines("a\n    b c \n\nd  \n  e"), "a b c d  e");
}

#[test]
fn squashing_again_changes_nothing() {
    for text in ["a\n    b c \n\nd  \n  e", "\n\n", "x", "", " \n\t y\n"] {
        let once = mutant::squash_lines(text).into_owned();
        assert!(!once.contains('\n'));
        assert_eq!(mutant::squash_lines(&once), once);
    }
}

#[test]
fn descriptions_by_genre() {
    let body = Span::quad(2, 5, 2, 16);
    assert_eq!(change(Genre::FnValue, body, "true").describe_change(), "replace m::f -> bool with true");
    let mut value = change(Genre::FnValue, body, "()");
    value.function.as_mut().unwrap().return_type = String::new();
    assert_eq!(value.describe_change(), "replace m::f with ()");
    assert_eq!(
        change(Genre::BinaryOperator, Span::quad(2, 8, 2, 9), "-").describe_change(),
        "replace + with - in m::f"
    );
    assert_eq!(change(Genre::UnaryOperator, Span::quad(2, 8, 2, 9), "").describe_change(), "delete + in m::f");
    assert_eq!(
        change(Genre::MatchArmGuard, Span::quad(1, 16, 2, 6), "true").describe_change(),
        "replace match guard { a with true in m::f"
    );
    let mut arm = change(Genre::MatchArm, body, "");
    arm.short_replaced = Some("X::A\n    | X::B".to_owned());
    assert_eq!(arm.describe_change(), "delete match arm X::A | X::B in m::f");
    let mut field = change(Genre::StructField, body, "");
    assert_eq!(field.describe_change(), "delete field from struct expression in m::f");
    field.target = Some(MutationTarget::StructLiteralField {
        field_name: "a".to_owned(),
        struct_name: "S".to_owned(),
    });
    assert_eq!(field.describe_change(), "delete field a from struct S expression in m::f");
    field.function = None;
    assert_eq!(field.describe_change(), "delete field a from struct S expression");
}

#[test]
fn names_with_and_without_location() {
    let m = change(Genre::BinaryOperator, Span::quad(2, 8, 2, 9), "-");
    assert_eq!(m.name(false), "src/m.rs: replace + with - in m::f");
    assert_eq!(m.name(true), "src/m.rs:2:8: replace + with - in m::f");
    assert_eq!(m.full_name(), m.name(true));
    let mut out = "- ".to_owned();
    m.write_name(false, &mut out);
    assert_eq!(out, "- src/m.rs: replace + with - in m::f");
    assert_eq!(m.log_file_name_base(), "src__m.rs_line_2_col_8");
    assert_eq!(clean_filename("a/b c:d"), "a__b_c_d");
}

#[test]
fn styled_names_hold_the_plain_name() {
    let m = change(Genre::FnValue, Span::quad(2, 5, 2, 16), "true");
    let parts = m.describe_parts();
    let styles: Vec<PartStyle> = parts.iter().map(|(style, _)| *style).collect();
    assert_eq!(
        styles,
        [
            PartStyle::Plain,
            PartStyle::BrightMagenta,
            PartStyle::Plain,
            PartStyle::Magenta,
            PartStyle::Plain,
            PartStyle::Yellow
        ]
    );
    let shown: Vec<String> = parts.iter().map(|(_, text)| format!("[{text}]")).collect();
    assert_eq!(
        m.name_with_parts(false, &shown),
        "src/m.rs: [replace ][m::f][ ][-> bool][ with ][true]"
    );
    console::set_colors_enabled(false);
    assert_eq!(m.to_styled_string(true), m.name(true));
    console::set_colors_enabled(true);
    assert_eq!(
        m.to_styled_string(true),
        "src/m.rs:2:5: replace \x1b[38;5;13mm::f\x1b[0m \x1b[35m-> bool\x1b[0m with \x1b[33mtrue\x1b[0m"
    );
    let op = change(Genre::BinaryOperator, Span::quad(2, 8, 2, 9), "-");
    assert_eq!(
        op.to_styled_string(false),
        "src/m.rs: replace \x1b[33m+\x1b[0m with \x1b[38;5;11m-\x1b[0m in \x1b[38;5;13mm::f\x1b[0m"
    );
}

#[test]
fn code_is_changed_and_marked() {
    let m = change(Genre::BinaryOperator, Span::quad(2, 8, 2, 9), "-");
    assert_eq!(m.original_text(), "+");
    assert_eq!(m.replacement_text(), "-");
    assert_eq!(
        m.mutated_code(),
        format!("fn f() -> bool {{\n    a  - {MUTATION_MARKER_COMMENT} b == 3\n}}\n")
    );
}

#[test]
fn reverting_writes_the_original_code_back() {
    let m = change(Genre::BinaryOperator, Span::quad(2, 8, 2, 9), "-");
    let applied = m.apply(&m.mutated_code());
    assert_eq!(applied.tree_relative_path, "src/m.rs");
    assert_eq!(applied.contents, m.mutated_code());
    let reverted = m.revert();
    assert_eq!(reverted.tree_relative_path, "src/m.rs");
    assert_eq!(reverted.contents, CODE);
}

#[test]
fn a_short_file_is_compared_whole() {
    let m = change(Genre::BinaryOperator, Span::quad(2, 8, 2, 9), "-");
    assert_eq!(
        m.cached_diff().unwrap(),
        "--- src/m.rs\n+++ replace + with - in m::f\n@@ -1,3 +1,3 @@\n fn f() -> bool {\n-    a  + b == 3\n\
         +    a  - /* ~ changed by cargo-mutants ~ */ b == 3\n }\n"
    );
}

#[test]
fn a_diff_in_a_long_file_counts_lines_from_its_start() {
    let mut code = String::new();
    for i in 1..=60 {
        code.push_str(&format!("line {i}\n"));
    }
    let m = Mutant {
        source_file: source_file("src/m.rs", &code),
        function: None,
        span: Span::quad(30, 6, 30, 8),
        short_replaced: None,
        replacement: "x".to_owned(),
        genre: Genre::BinaryOperator,
        target: None,
        const_eval: false,
    };
    let diff = m.cached_diff().unwrap();
    let lines: Vec<&str> = diff.lines().collect();
    assert_eq!(lines[0], "--- src/m.rs");
    assert_eq!(lines[1], "+++ replace 30 with x");
    assert_eq!(lines[2], "@@ -22,17 +22,17 @@");
    assert_eq!(lines[3], " line 22");
    assert_eq!(lines[11], "-line 30");
    assert_eq!(lines[12], "+line x /* ~ changed by cargo-mutants ~ */");
    assert_eq!(lines[lines.len() - 1], " line 38");
    assert_eq!(DIFF_CONTEXT_LINES, 8);
}

#[test]
fn moving_hunks_twice_moves_them_by_the_sum() {
    let diff = "--- a\n+++ b\n@@ -1,2 +1,3 @@ fn f()\n x\n@@ -0,0 +007 @@\n@@ -+5 +6,x y @@\n@@ not a header @@\n end";
    let once = renumber_hunks(diff, 7);
    assert_eq!(renumber_hunks(&renumber_hunks(diff, 3), 4), once);
    assert_eq!(
        once,
        "--- a\n+++ b\n@@ -8,2 +8,3 @@ fn f()\n x\n@@ -0,0 +14 @@\n@@ -12 +13,x y @@\n@@ not a header @@\n end"
    );
    assert_eq!(renumber_hunks(diff, 0), diff);
}

#[test]
fn hunks_move_down() {
    let diff = "--- a\n+++ b\n@@ -1,3 +2,0 @@\n-x\n @@ -1 +1 @@\n@@ -7 +8 @@\n";
    assert!(hunks_can_move(diff, 10));
    assert_eq!(
        renumber_hunks(diff, 10),
        "--- a\n+++ b\n@@ -11,3 +12,0 @@\n-x\n @@ -1 +1 @@\n@@ -17 +18 @@\n"
    );
    assert_eq!(renumber_hunks(diff, 0), diff);
}

#[test]
fn mutants_are_the_same_if_they_make_the_same_change() {
    let m = change(Genre::BinaryOperator, Span::quad(2, 8, 2, 9), "-");
    let mut other = change(Genre::BinaryOperator, Span::quad(2, 8, 2, 9), "-");
    other.const_eval = true;
    assert!(m == other);
    other.replacement = "*".to_owned();
    assert!(m != other);
    let mut other = change(Genre::BinaryOperator, Span::quad(2, 8, 2, 9), "-");
    other.function = None;
    assert!(m != other);
    let mut other = change(Genre::BinaryOperator, Span::quad(2, 8, 2, 9), "-");
    other.source_file = source_file("src/other.rs", CODE);
    assert!(m != other);
}

#[test]
fn the_debug_form_names_the_fields() {
    let m = change(Genre::BinaryOperator, Span::quad(2, 8, 2, 9), "\"-\"");
    assert_eq!(
        m.to_debug_string(),
        "Mutant { source_file: SourceFile { package: Package { name: \"p\", version: \"0.1.0\" }, \
         tree_relative_path: \"src/m.rs\", is_top: true }, function: Some(Function { function_name: \"m::f\", \
         return_type: \"-> bool\", span: Span(1, 1, 3, 2) }), span: Span(2, 8, 2, 9), short_replaced: None, \
         replacement: \"\\\"-\\\"\", genre: BinaryOperator, target: None }"
    );
    let mut elsewhere = change(Genre::BinaryOperator, Span::quad(2, 8, 2, 9), "\"-\"");
    elsewhere.const_eval = true;
    assert!(m == elsewhere);
    assert_eq!(elsewhere.to_debug_string(), m.to_debug_string());
    assert_eq!(elsewhere.to_json(), m.to_json());
}

#[test]
fn locations_are_shown_with_line_and_column() {
    let file = source_file("src/m.rs", CODE);
    assert_eq!(file.format_source_location(Span::quad(2, 8, 2, 9).start), "src/m.rs:2:8");
    assert_eq!(file.package().version_qualified_name(), "p@0.1.0");
    assert!(file.same(&file.clone()));
    assert!(file.is_top());
}

/// The diff of the whole file and the whole mutated file.
fn whole_file_diff(m: &Mutant) -> String {
    similar::TextDiff::from_lines(m.source_file.code(), &m.mutated_code())
        .unified_diff()
        .context_radius(DIFF_CONTEXT_LINES)
        .header(m.source_file.tree_relative_slashes(), &m.describe_change().replace('\n', " "))
        .to_string()
}

#[test]
fn windowed_diff_matches_whole_file_diff() {
    for lines in [1, 2, 8, 9, 17, 30, 150] {
        for last_newline in ["\n", ""] {
            // Repeated lines, so that there is much that could be matched.
            let text: Vec<String> = (1..=lines).map(|line| format!("    x = y + {}", line % 3)).collect();
            let code = text.join("\n") + last_newline;
            for start in [1, 2, 7, 8, 9, 10, 16, 17, 18, 29, 75, lines] {
                for end in [start, start + 1, start + 9] {
                    if end > lines {
                        continue;
                    }
                    for replacement in ["", "z", "    x = y + 1", "a\nb\nc"] {
                        let mut m = change(Genre::FnValue, Span::quad(start, 5, end, 9), replacement);
                        m.source_file = source_file("src/m.rs", &code);
                        assert_eq!(
                            m.cached_diff().unwrap(),
                            whole_file_diff(&m),
                            "{lines} {start} {end} {replacement:?}"
                        );
                    }
                }
            }
        }
    }
}

#[test]
fn a_diff_is_one_hunk_of_removed_and_added_lines() {
    let code: String = (1..=120).map(|line| format!("line {}\n", line % 2)).collect();
    let mut m = change(Genre::FnValue, Span::quad(110, 1, 111, 7), "a\nb");
    m.source_file = source_file("src/m.rs", &code);
    let context = " line 0\n line 1\n".repeat(4);
    let expected = format!(
        "--- src/m.rs\n+++ {}\n@@ -102,18 +102,18 @@\n{context}-line 0\n-line 1\n+a\n+b {MUTATION_MARKER_COMMENT}\n{context}",
        m.describe_change().replace('\n', " "),
    );
    assert_eq!(m.cached_diff().unwrap(), expected);
    // At the end of a file without a newline, and in an empty file.
    m.source_file = source_file("src/m.rs", "a\nb");
    m.span = Span::quad(2, 1, 2, 2);
    m.replacement = "c".to_owned();
    assert_eq!(
        m.cached_diff().unwrap(),
        format!(
            "--- src/m.rs\n+++ {}\n@@ -1,2 +1,2 @@\n a\n-b\n\\ No newline at end of file\n+c {MUTATION_MARKER_COMMENT}\n\\ No newline at end of file\n",
            m.describe_change(),
        )
    );
    m.source_file = source_file("src/m.rs", "");
    m.span = Span::quad(1, 1, 1, 1);
    assert_eq!(
        m.cached_diff().unwrap(),
        format!(
            "--- src/m.rs\n+++ {}\n@@ -0,0 +1 @@\n+c {MUTATION_MARKER_COMMENT}\n\\ No newline at end of file\n",
            m.describe_change(),
        )
    );
}
