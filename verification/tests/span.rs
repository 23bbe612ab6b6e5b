//! Positions and spans in text.

use cargo_mutants::{LineColumn, LineIndex, Span};

#[test]
fn linecolumn_debug_form() {
    let lc = LineColumn { line: 1, column: 2 };
    assert_eq!(lc.to_debug_string(), "LineColumn(1, 2)");
}

#[test]
fn span_debug_form() {
    let span = Span::quad(1, 2, 3, 4);
    assert_eq!(span.to_debug_string(), "Span(1, 2, 3, 4)");
}

#[test]
fn cut_before_crlf() {
    let source = "fn foo() {\r\n    wibble();\r\n}\r\n//hey!\r\n";
    let span = Span::quad(1, 10, 3, 2);
    assert_eq!(span.extract(source), "{\r\n    wibble();\r\n}");
    assert_eq!(span.replace(source, "{}"), "fn foo() {}\r\n//hey!\r\n");
}

#[test]
fn empty_span_in_empty_string() {
    let span = Span::quad(1, 1, 1, 1);
    assert_eq!(span.extract(""), "");
    assert_eq!(span.replace("", "x"), "x");
}

#[test]
fn empty_span_at_start_of_string() {
    let span = Span::quad(1, 1, 1, 1);
    assert_eq!(span.extract("hello"), "");
    assert_eq!(span.replace("hello", "x"), "xhello");
}

#[test]
fn empty_span_at_end_of_string() {
    let span = Span::quad(1, 6, 1, 6);
    assert_eq!(span.extract("hello"), "");
    assert_eq!(span.replace("hello", "x"), "hellox");
}

#[test]
fn cut_including_crlf() {
    let source = "fn foo() {\r\n    wibble();\r\n}\r\n//hey!\r\n";
    let span = Span::quad(1, 10, 3, 3);
    assert_eq!(span.extract(source), "{\r\n    wibble();\r\n}\r\n");
    assert_eq!(span.replace(source, "{}\r\n"), "fn foo() {}\r\n//hey!\r\n");
}

#[test]
fn span_ops() {
    let source = "\nfn foo() {\n    some();\n    stuff();\n}\n\nconst BAR: u32 = 32;\n";
    // typical multi-line case
    let span = Span::quad(2, 10, 5, 2);
    assert_eq!(span.extract(source), "{\n    some();\n    stuff();\n}");
    let replaced = span.replace(source, "{ /* body deleted */ }");
    assert_eq!(replaced, "\nfn foo() { /* body deleted */ }\n\nconst BAR: u32 = 32;\n");

    // single-line case
    let span = Span::quad(7, 18, 7, 20);
    assert_eq!(span.extract(source), "32");
    let replaced = span.replace(source, "69");
    assert_eq!(replaced, "\nfn foo() {\n    some();\n    stuff();\n}\n\nconst BAR: u32 = 69;\n");
}

#[test]
fn columns_count_characters() {
    let source = "let s = \"h\u{e9}llo \u{1f980}\"; x\n";
    assert_eq!(Span::quad(1, 10, 1, 15).extract(source), "h\u{e9}llo");
    assert_eq!(Span::quad(1, 16, 1, 17).extract(source), "\u{1f980}");
    assert_eq!(Span::quad(1, 20, 1, 21).replace(source, "y"), "let s = \"h\u{e9}llo \u{1f980}\"; y\n");
}

#[test]
fn positions_outside_the_text_lie_at_its_end() {
    let source = "ab\ncd";
    let index = LineIndex::new(source);
    assert_eq!(index.byte_offset(source, LineColumn { line: 9, column: 1 }), 5);
    assert_eq!(index.byte_offset(source, LineColumn { line: 2, column: 99 }), 5);
    assert_eq!(index.byte_offset(source, LineColumn { line: 2, column: 2 }), 4);
    assert_eq!(index.line_start(2), Some(3));
    assert_eq!(index.line_start(3), None);
}

#[test]
fn replacing_a_region_by_itself_changes_nothing() {
    let source = "fn foo() {\n    wibble();\n}\n";
    for span in [Span::quad(1, 1, 2, 5), Span::quad(2, 5, 2, 13), Span::quad(1, 10, 3, 2), Span::quad(1, 1, 9, 9)] {
        assert_eq!(span.replace(source, &span.extract(source)), source);
    }
}

#[test]
fn a_reversed_span_is_empty() {
    assert_eq!(Span::quad(1, 4, 1, 2).extract("hello"), "");
}

#[test]
fn columns_from_zero_become_columns_from_one() {
    let position = LineColumn::from_line_column0(3, 0);
    assert!(position == LineColumn { line: 3, column: 1 });
}
