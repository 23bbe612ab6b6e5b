//! Parsing Rust source by `syn`, and the tokens that come out of it.

use quote::ToTokens;
use vstd::prelude::*;
use crate::mutant;
use crate::pretty;
use crate::pretty::to_pretty_string;
use crate::source::SourceFile;
use crate::text;
use crate::tokens;
use crate::tokens::{Delimiter, Tok, TokenTree};

verus! {

/// A stream of tokens of the `proc_macro2` crate.
#[verifier::external_type_specification]
#[verifier::external_body]
pub struct ExTokenStream(proc_macro2::TokenStream);

/// A parsed source file of the `syn` crate.
#[verifier::external_type_specification]
#[verifier::external_body]
pub struct ExFile(syn::File);

/// The tokens that a stream holds, in order, apart from where they stand.
pub uninterp spec fn stream_tokens(stream: proc_macro2::TokenStream) -> Seq<Tok>;

/// The tokens of a text that is a Rust expression, as `syn` reads it and `quote` gives it back, or what `syn` says is wrong
/// with it.
pub uninterp spec fn expr_syntax(expr: Seq<char>) -> Result<Seq<Tok>, Seq<char>>;

/// The text that a string literal stands for, as `syn` reads it; none if what is written is not a string literal.
pub uninterp spec fn literal_value(literal: Seq<char>) -> Option<Seq<char>>;

/// The tokens of a parsed source file, in order, apart from where they stand.
pub uninterp spec fn file_tokens(file: syn::File) -> Seq<Tok>;

/// The tokens of a text that is a Rust source file, as `syn` reads it, or what `syn` says is wrong with it.
pub uninterp spec fn file_syntax(code: Seq<char>) -> Result<Seq<Tok>, Seq<char>>;

/// One token, with what is in a group left as a stream.
enum TreeHead {
    Punct(char),
    Ident(String),
    Literal(String),
    Group(Delimiter, proc_macro2::TokenStream),
}

/// The token that a [`TreeHead`] stands for.
spec fn head_token(head: TreeHead) -> Tok {
    match head {
        TreeHead::Punct(c) => Tok::Punct(c),
        TreeHead::Ident(s) => Tok::Ident(s@),
        TreeHead::Literal(s) => Tok::Literal(s@),
        TreeHead::Group(delimiter, inner) => Tok::Group(delimiter, stream_tokens(inner)),
    }
}

/// The tokens that some [`TreeHead`]s stand for.
spec fn head_tokens(heads: Seq<TreeHead>) -> Seq<Tok> {
    Seq::new(heads.len(), |i: int| head_token(heads[i]))
}

/// The tokens that a `proc_macro2::TokenStream` holds, by its iterator: a punctuation by its character, a name or a literal
/// by its text as `to_string` gives it, a group by its delimiter and the stream of the tokens in it.
#[verifier::external_body]
fn stream_heads(stream: proc_macro2::TokenStream) -> (r: Vec<TreeHead>)
    ensures
        stream_tokens(stream) == head_tokens(r@),
{
    stream.into_iter().map(|tree| match tree {
        proc_macro2::TokenTree::Punct(punct) => TreeHead::Punct(punct.as_char()),
        proc_macro2::TokenTree::Ident(ident) => TreeHead::Ident(ident.to_string()),
        proc_macro2::TokenTree::Literal(literal) => TreeHead::Literal(literal.to_string()),
        proc_macro2::TokenTree::Group(group) => TreeHead::Group(
            match group.delimiter() {
                proc_macro2::Delimiter::Parenthesis => Delimiter::Parenthesis,
                proc_macro2::Delimiter::Brace => Delimiter::Brace,
                proc_macro2::Delimiter::Bracket => Delimiter::Bracket,
                proc_macro2::Delimiter::None => Delimiter::Invisible,
            }, group.stream()),
    }).collect()
}

/// A token, with all that is in it.
fn read_token(head: TreeHead) -> (r: TokenTree)
    ensures
        tokens::tok(r) == head_token(head),
    decreases head_token(head), 0int,
{
    match head {
        TreeHead::Punct(c) => TokenTree::Punct(c),
        TreeHead::Ident(s) => TokenTree::Ident(s),
        TreeHead::Literal(s) => TokenTree::Literal(s),
        TreeHead::Group(delimiter, inner) => {
            assert(decreases_to!(head_token(head) => head_token(head)->Group_1));
            TokenTree::Group(delimiter, read_tokens(inner))
        },
    }
}

/// Parses a Rust expression by `syn::parse_str`, and takes its tokens. The tokens, or the message of the error, depend on
/// the text alone.
#[verifier::external_body]
fn parse_expr(expr: &str) -> (r: Result<proc_macro2::TokenStream, String>)
    ensures
        match r {
            Ok(stream) => expr_syntax(expr@) == Ok::<Seq<Tok>, Seq<char>>(stream_tokens(stream)),
            Err(message) => expr_syntax(expr@) == Err::<Seq<Tok>, Seq<char>>(message@),
        },
{
    match syn::parse_str::<syn::Expr>(expr) {
        Ok(parsed) => Ok(parsed.to_token_stream()),
        Err(err) => Err(err.to_string()),
    }
}

/// Reads a string literal by `syn::parse_str` and `syn::LitStr::value`. Whether it is one, and what it stands for, depends on
/// what is written alone.
#[verifier::external_body]
pub(crate) fn string_literal(literal: &str) -> (r: Option<String>)
    ensures
        mutant::optional_text(r) == literal_value(literal@),
{
    match syn::parse_str::<syn::LitStr>(literal) {
        Ok(parsed) => Some(parsed.value()),
        Err(_) => None,
    }
}

/// Parses a Rust source file by `syn::parse_str`. The tokens of the file, or the message of the error, depend on the text
/// alone.
///
/// Nothing is said of where the tokens stand, which also depends on what else the thread has parsed.
#[verifier::external_body]
fn parse_file(code: &str) -> (r: Result<syn::File, String>)
    ensures
        match r {
            Ok(file) => file_syntax(code@) == Ok::<Seq<Tok>, Seq<char>>(file_tokens(file)),
            Err(message) => file_syntax(code@) == Err::<Seq<Tok>, Seq<char>>(message@),
        },
{
    match syn::parse_str::<syn::File>(code) {
        Ok(file) => Ok(file),
        Err(err) => Err(err.to_string()),
    }
}

/// The tokens in a stream.
pub fn read_tokens(stream: proc_macro2::TokenStream) -> (r: Vec<TokenTree>)
    ensures
        tokens::toks(r@) == stream_tokens(stream),
    decreases stream_tokens(stream), 1int,
{
    let mut r: Vec<TokenTree> = Vec::new();
    let heads = stream_heads(stream);
    let ghost all = heads@;
    for head in it: heads
        invariant
            it.seq() == all,
            stream_tokens(stream) == head_tokens(all),
            r@.len() == it.index(),
            forall|j: int| 0 <= j < r@.len() ==> tokens::tok(#[trigger] r@[j]) == stream_tokens(stream)[j],
    {
        assert(head_token(head) == stream_tokens(stream)[it.index() as int]);
        r.push(read_token(head));
    }
    assert(tokens::toks(r@) =~= stream_tokens(stream));
    r
}

/// Convert a stream of tokens to a string, with typical Rust spacing between tokens.
pub fn stream_to_pretty_string(stream: proc_macro2::TokenStream) -> (r: String)
    ensures
        r@ == pretty::pretty(stream_tokens(stream)),
{
    to_pretty_string(&read_tokens(stream))
}

/// A file that could not be parsed: what was tried, and what is wrong.
pub struct ParseFailure {
    pub context: String,
    pub cause: String,
}

/// Parse the text of a source file.
pub fn parse_source(source_file: &SourceFile) -> (r: Result<syn::File, ParseFailure>)
    ensures
        match r {
            Ok(file) => file_syntax(source_file@.code) == Ok::<Seq<Tok>, Seq<char>>(file_tokens(file)),
            Err(failure) => file_syntax(source_file@.code) == Err::<Seq<Tok>, Seq<char>>(failure.cause@)
                && failure.context@ == "failed to parse "@ + source_file@.path,
        },
{
    match parse_file(source_file.code()) {
        Ok(file) => Ok(file),
        Err(cause) => {
            let mut context = "failed to parse ".to_owned();
            context.push_str(source_file.tree_relative_slashes());
            Err(ParseFailure { context, cause })
        },
    }
}

/// The tokens of each of the first `n` of some expressions, or what is wrong with the first that cannot be parsed.
pub open spec fn expr_syntaxes(exprs: Seq<Seq<char>>, n: int) -> Result<Seq<Seq<Tok>>, Seq<char>>
    decreases n,
{
    if n <= 0 {
        Ok(Seq::empty())
    } else {
        match expr_syntaxes(exprs, n - 1) {
            Ok(before) => match expr_syntax(exprs[n - 1]) {
                Ok(parsed) => Ok(before.push(parsed)),
                Err(message) => Err(message),
            },
            failed => failed,
        }
    }
}

/// What is wrong with an expression stays what is reported.
proof fn lemma_failure_stays(exprs: Seq<Seq<char>>, n: int, m: int)
    requires
        0 <= n <= m,
        expr_syntaxes(exprs, n) is Err,
    ensures
        expr_syntaxes(exprs, m) == expr_syntaxes(exprs, n),
    decreases m,
{
    if n < m {
        lemma_failure_stays(exprs, n, m - 1);
    }
}

/// Parse the values that are configured to be returned as errors.
pub fn parse_error_values(error_values: &Vec<String>) -> (r: Result<Vec<Vec<TokenTree>>, String>)
    ensures
        ({
            let all = expr_syntaxes(text::texts(error_values@), error_values@.len() as int);
            match r {
                Ok(exprs) => all == Ok::<Seq<Seq<Tok>>, Seq<char>>(tokens::toks_all(exprs@)),
                Err(message) => all == Err::<Seq<Seq<Tok>>, Seq<char>>(message@),
            }
        }),
{
    let ghost texts = text::texts(error_values@);
    let mut exprs: Vec<Vec<TokenTree>> = Vec::new();
    assert(tokens::toks_all(exprs@) =~= Seq::<Seq<Tok>>::empty());
    for i in 0..error_values.len()
        invariant
            texts == text::texts(error_values@),
            expr_syntaxes(texts, i as int) == Ok::<Seq<Seq<Tok>>, Seq<char>>(tokens::toks_all(exprs@)),
    {
        assert(texts[i as int] == error_values@[i as int]@);
        match parse_expr(error_values[i].as_str()) {
            Ok(stream) => {
                let ghost before = exprs@;
                exprs.push(read_tokens(stream));
                assert(tokens::toks_all(exprs@) =~= tokens::toks_all(before).push(stream_tokens(stream)));
            },
            Err(message) => {
                proof {
                    lemma_failure_stays(texts, i + 1, error_values@.len() as int);
                }
                return Err(message);
            },
        }
    }
    Ok(exprs)
}

/// The configured error values are parsed one by one, in order; the first that is no expression is reported.
pub proof fn error_values_are_parsed_in_order(exprs: Seq<Seq<char>>, n: int, k: int)
    requires
        0 <= k < n <= exprs.len(),
    ensures
        expr_syntaxes(exprs, n) matches Ok(parsed) ==> parsed.len() == n && expr_syntax(exprs[k]) == Ok::<Seq<Tok>, Seq<char>>(
            parsed[k],
        ),
        (expr_syntax(exprs[k]) is Err && forall|j: int| 0 <= j < k ==> expr_syntax(#[trigger] exprs[j]) is Ok)
            ==> expr_syntaxes(exprs, n) == Err::<Seq<Seq<Tok>>, Seq<char>>(expr_syntax(exprs[k])->Err_0),
    decreases n,
{
    lemma_parsed_len(exprs, n);
    lemma_parsed_len(exprs, n - 1);
    if k < n - 1 {
        error_values_are_parsed_in_order(exprs, n - 1, k);
    } else if forall|j: int| 0 <= j < k ==> expr_syntax(#[trigger] exprs[j]) is Ok {
        lemma_all_parsed(exprs, k);
    }
}

proof fn lemma_parsed_len(exprs: Seq<Seq<char>>, n: int)
    requires
        0 <= n,
    ensures
        expr_syntaxes(exprs, n) matches Ok(parsed) ==> parsed.len() == n,
    decreases n,
{
    if n > 0 {
        lemma_parsed_len(exprs, n - 1);
    }
}

proof fn lemma_all_parsed(exprs: Seq<Seq<char>>, n: int)
    requires
        0 <= n <= exprs.len(),
        forall|j: int| 0 <= j < n ==> expr_syntax(#[trigger] exprs[j]) is Ok,
    ensures
        expr_syntaxes(exprs, n) is Ok,
    decreases n,
{
    if n > 0 {
        lemma_all_parsed(exprs, n - 1);
    }
}

} // verus!
