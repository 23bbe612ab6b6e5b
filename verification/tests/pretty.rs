//! Printing tokens.

use cargo_mutants::parse::{read_tokens, stream_to_pretty_string};
use cargo_mutants::pretty::to_pretty_string;
use cargo_mutants::tokens::{Delimiter, TokenTree};

fn pretty(code: &str) -> String {
    stream_to_pretty_string(code.parse().unwrap())
}

#[test]
fn pretty_format_examples() {
    assert_eq!(
        pretty(
            "// Nonsense rust but a big salad of syntax
            <impl Iterator for MergeTrees < AE , BE , AIT , BIT > > :: next
            -> Option < Self ::  Item >"
        ),
        "<impl Iterator for MergeTrees<AE, BE, AIT, BIT>>::next -> Option<Self::Item>"
    );
    assert_eq!(pretty("Lex < 'buf >::take"), "Lex<'buf>::take");
}

#[test]
fn format_trait_with_assoc_type() {
    assert_eq!(pretty("impl Iterator < Item = String >"), "impl Iterator<Item = String>");
}

#[test]
fn pretty_match_guard() {
    assert_eq!(pretty("\"warning\"\n            | \"error\""), r#""warning" | "error""#);
}

#[test]
fn preserve_boolean_or() {
    assert_eq!(pretty("fair || foul"), "fair || foul");
}

#[test]
fn format_thick_arrow() {
    assert_eq!(pretty("a => b"), "a => b");
}

#[test]
fn nothing_ends_with_a_space() {
    for code in ["a +", "x :", "( a , )", "{ }", "fn f ( ) -> u8 { 1 }", "a = ", "& mut", ";"] {
        let printed = pretty(code);
        assert!(!printed.ends_with(' '), "{printed:?}");
    }
}

#[test]
fn tokens_are_read_one_by_one() {
    let tokens = read_tokens("a(-1, 'x')".parse().unwrap());
    assert_eq!(tokens.len(), 2);
    assert!(tokens[0] == TokenTree::Ident("a".to_owned()));
    match &tokens[1] {
        TokenTree::Group(delimiter, inner) => {
            assert!(*delimiter == Delimiter::Parenthesis);
            assert_eq!(inner.len(), 4);
            assert!(inner[0] == TokenTree::Punct('-'));
            assert!(inner[1] == TokenTree::Literal("1".to_owned()));
            assert!(inner[2] == TokenTree::Punct(','));
            assert!(inner[3] == TokenTree::Literal("'x'".to_owned()));
        }
        _ => panic!("expected a group"),
    }
    assert_eq!(to_pretty_string(&tokens), "a(-1, 'x')");
}
