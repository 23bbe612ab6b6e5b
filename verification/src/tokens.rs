//! Token trees: the pieces that Rust code is made of, as replacement values are built from them.

use vstd::prelude::*;

verus! {

/// What encloses a group of tokens.
#[derive(Clone, Copy, Debug, PartialEq, Eq, Structural)]
pub enum Delimiter {
    Parenthesis,
    Brace,
    Bracket,
    /// A group that shows no delimiter.
    Invisible,
}

/// One token, or a delimited group of tokens.
#[derive(Debug, PartialEq, Eq)]
pub enum TokenTree {
    /// A punctuation character.
    Punct(char),
    /// A name or keyword.
    Ident(String),
    /// A literal, as it is written in source code.
    Literal(String),
    /// A sequence of tokens within delimiters.
    Group(Delimiter, Vec<TokenTree>),
}

/// A sequence of tokens.
pub type Tokens = Vec<TokenTree>;

/// Several sequences of tokens.
pub type TokenLists = Vec<Vec<TokenTree>>;

/// The model of a [`TokenTree`].
pub ghost enum Tok {
    Punct(char),
    Ident(Seq<char>),
    Literal(Seq<char>),
    Group(Delimiter, Seq<Tok>),
}

/// The model of a token tree.
pub open spec fn tok(t: TokenTree) -> Tok
    decreases t,
{
    match t {
        TokenTree::Punct(c) => Tok::Punct(c),
        TokenTree::Ident(s) => Tok::Ident(s@),
        TokenTree::Literal(s) => Tok::Literal(s@),
        TokenTree::Group(d, inner) => Tok::Group(d, toks(inner@)),
    }
}

/// The model of a sequence of token trees.
pub open spec fn toks(ts: Seq<TokenTree>) -> Seq<Tok>
    decreases ts,
{
    Seq::new(
        ts.len(),
        |i: int|
            if 0 <= i < ts.len() {
                tok(ts[i])
            } else {
                arbitrary()
            },
    )
}

/// The model of several sequences of token trees.
pub open spec fn toks_all(all: Seq<Vec<TokenTree>>) -> Seq<Seq<Tok>> {
    Seq::new(all.len(), |i: int| toks(all[i]@))
}

/// Several sequences of tokens, one behind the other.
pub proof fn lemma_toks_concat(a: Seq<TokenTree>, b: Seq<TokenTree>)
    ensures
        toks(a + b) == toks(a) + toks(b),
{
    assert(toks(a + b) =~= toks(a) + toks(b));
}

/// A copy of a token tree.
pub(crate) fn copy_token(t: &TokenTree) -> (r: TokenTree)
    ensures
        tok(r) == tok(*t),
    decreases t,
{
    match t {
        TokenTree::Punct(c) => TokenTree::Punct(*c),
        TokenTree::Ident(s) => TokenTree::Ident(s.clone()),
        TokenTree::Literal(s) => TokenTree::Literal(s.clone()),
        TokenTree::Group(d, inner) => TokenTree::Group(*d, copy_tokens(inner)),
    }
}

/// A copy of some tokens.
pub fn copy_tokens(ts: &Vec<TokenTree>) -> (r: Vec<TokenTree>)
    ensures
        toks(r@) == toks(ts@),
    decreases ts,
{
    let mut r: Vec<TokenTree> = Vec::new();
    for i in 0..ts.len()
        invariant
            r@.len() == i,
            forall|j: int| 0 <= j < i ==> tok(#[trigger] r@[j]) == tok(ts@[j]),
    {
        r.push(copy_token(&ts[i]));
    }
    assert(toks(r@) =~= toks(ts@));
    r
}

/// A single word.
pub open spec fn word(name: Seq<char>) -> Seq<Tok> {
    seq![Tok::Ident(name)]
}

/// A single literal.
pub open spec fn literal(value: Seq<char>) -> Seq<Tok> {
    seq![Tok::Literal(value)]
}

/// Tokens within delimiters.
pub open spec fn group(d: Delimiter, inner: Seq<Tok>) -> Seq<Tok> {
    seq![Tok::Group(d, inner)]
}

/// The path `a::b`.
pub open spec fn assoc(a: Seq<char>, b: Seq<char>) -> Seq<Tok> {
    seq![Tok::Ident(a), Tok::Punct(':'), Tok::Punct(':'), Tok::Ident(b)]
}

/// The call `function(arguments)`.
pub open spec fn call(function: Seq<Tok>, arguments: Seq<Tok>) -> Seq<Tok> {
    function + group(Delimiter::Parenthesis, arguments)
}

/// The method call `receiver.method()`.
pub open spec fn method_call(receiver: Seq<Tok>, method: Seq<char>) -> Seq<Tok> {
    call(receiver + seq![Tok::Punct('.'), Tok::Ident(method)], Seq::<Tok>::empty())
}

/// The expression `vec![elements]`.
pub open spec fn vec_of(elements: Seq<Tok>) -> Seq<Tok> {
    seq![Tok::Ident("vec"@), Tok::Punct('!'), Tok::Group(Delimiter::Bracket, elements)]
}

/// The value `-literal`.
pub open spec fn negative(value: Seq<char>) -> Seq<Tok> {
    seq![Tok::Punct('-'), Tok::Literal(value)]
}

/// No tokens.
pub(crate) fn no_tokens() -> (r: Vec<TokenTree>)
    ensures
        toks(r@) == Seq::<Tok>::empty(),
{
    let r: Vec<TokenTree> = Vec::new();
    assert(toks(r@) =~= Seq::<Tok>::empty());
    r
}

/// A single word.
pub(crate) fn mk_word(name: &str) -> (r: Vec<TokenTree>)
    ensures
        toks(r@) == word(name@),
{
    let mut r: Vec<TokenTree> = Vec::new();
    r.push(TokenTree::Ident(name.to_owned()));
    assert(toks(r@) =~= word(name@));
    r
}

/// A single literal.
pub(crate) fn mk_literal(value: &str) -> (r: Vec<TokenTree>)
    ensures
        toks(r@) == literal(value@),
{
    let mut r: Vec<TokenTree> = Vec::new();
    r.push(TokenTree::Literal(value.to_owned()));
    assert(toks(r@) =~= literal(value@));
    r
}

/// Tokens within delimiters.
pub(crate) fn mk_group(d: Delimiter, inner: Vec<TokenTree>) -> (r: Vec<TokenTree>)
    ensures
        toks(r@) == group(d, toks(inner@)),
{
    let mut r: Vec<TokenTree> = Vec::new();
    let ghost model = toks(inner@);
    r.push(TokenTree::Group(d, inner));
    assert(toks(r@) =~= group(d, model));
    r
}

/// The path `a::b`.
pub(crate) fn mk_assoc(a: &str, b: &str) -> (r: Vec<TokenTree>)
    ensures
        toks(r@) == assoc(a@, b@),
{
    let mut r: Vec<TokenTree> = Vec::new();
    r.push(TokenTree::Ident(a.to_owned()));
    r.push(TokenTree::Punct(':'));
    r.push(TokenTree::Punct(':'));
    r.push(TokenTree::Ident(b.to_owned()));
    assert(toks(r@) =~= assoc(a@, b@));
    r
}

/// The call `function(arguments)`.
pub(crate) fn mk_call(function: Vec<TokenTree>, arguments: Vec<TokenTree>) -> (r: Vec<TokenTree>)
    ensures
        toks(r@) == call(toks(function@), toks(arguments@)),
{
    let mut r = function;
    let ghost model = toks(arguments@);
    r.push(TokenTree::Group(Delimiter::Parenthesis, arguments));
    assert(toks(r@) =~= call(toks(function@), model));
    r
}

/// The method call `receiver.method()`.
pub(crate) fn mk_method_call(receiver: Vec<TokenTree>, method: &str) -> (r: Vec<TokenTree>)
    ensures
        toks(r@) == method_call(toks(receiver@), method@),
{
    let mut f = receiver;
    f.push(TokenTree::Punct('.'));
    f.push(TokenTree::Ident(method.to_owned()));
    assert(toks(f@) =~= toks(receiver@) + seq![Tok::Punct('.'), Tok::Ident(method@)]);
    mk_call(f, no_tokens())
}

/// The expression `vec![elements]`.
pub(crate) fn mk_vec_of(elements: Vec<TokenTree>) -> (r: Vec<TokenTree>)
    ensures
        toks(r@) == vec_of(toks(elements@)),
{
    let mut r: Vec<TokenTree> = Vec::new();
    let ghost model = toks(elements@);
    r.push(TokenTree::Ident("vec".to_owned()));
    r.push(TokenTree::Punct('!'));
    r.push(TokenTree::Group(Delimiter::Bracket, elements));
    assert(toks(r@) =~= vec_of(model));
    r
}

/// The value `-literal`.
pub(crate) fn mk_negative(value: &str) -> (r: Vec<TokenTree>)
    ensures
        toks(r@) == negative(value@),
{
    let mut r: Vec<TokenTree> = Vec::new();
    r.push(TokenTree::Punct('-'));
    r.push(TokenTree::Literal(value.to_owned()));
    assert(toks(r@) =~= negative(value@));
    r
}

/// The model of a token is the token: its kind, its text, and, of a group, its delimiter and what is in it, in order.
pub proof fn models_keep_every_token(t: TokenTree, ts: Seq<TokenTree>, i: int)
    requires
        0 <= i < ts.len(),
    ensures
        match t {
            TokenTree::Punct(c) => tok(t) == Tok::Punct(c),
            TokenTree::Ident(s) => tok(t) == Tok::Ident(s@),
            TokenTree::Literal(s) => tok(t) == Tok::Literal(s@),
            TokenTree::Group(d, inner) => tok(t) == Tok::Group(d, toks(inner@)),
        },
        toks(ts).len() == ts.len(),
        toks(ts)[i] == tok(ts[i]),
{
}

} // verus!
