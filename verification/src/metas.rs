//! The arguments of an attribute: names anywhere among them, paths with commas between them, and string literals.

use vstd::prelude::*;
use crate::mutant;
use crate::parse;
use crate::parse::string_literal;
use crate::syntax::ArgToken;
use crate::text;
use crate::text::same_text;
use crate::tokens;
use crate::tokens::{copy_token, Tok, TokenTree};

verus! {

/// That the token at a position is a punctuation character.
pub open spec fn is_punct(args: Seq<ArgToken>, i: int, c: char) -> bool {
    0 <= i < args.len() && (args[i].tree matches TokenTree::Punct(p) && p == c)
}

/// That `::` stands at a position: two colons with nothing between them.
pub open spec fn is_colons(args: Seq<ArgToken>, i: int) -> bool {
    &&& is_punct(args, i, ':')
    &&& is_punct(args, i + 1, ':')
    &&& args[i].start.line == args[i + 1].start.line
    &&& args[i].start.column + 1 == args[i + 1].start.column
}

/// The names, with `::` between them, that start at a position, and the position behind them.
pub open spec fn names_from(args: Seq<ArgToken>, i: int) -> Option<(Seq<Seq<char>>, int)>
    decreases args.len() - i,
{
    if i < 0 || i >= args.len() {
        None
    } else {
        match args[i].tree {
            TokenTree::Ident(name) => if is_colons(args, i + 1) {
                match names_from(args, i + 3) {
                    Some((names, end)) => Some((seq![name@] + names, end)),
                    None => None,
                }
            } else {
                Some((seq![name@], i + 1))
            },
            _ => None,
        }
    }
}

/// The paths from a position on, with commas between them, perhaps one behind the last, and nothing else.
pub open spec fn meta_paths(args: Seq<ArgToken>, i: int) -> Option<Seq<MetaPath>>
    decreases args.len() - i,
{
    match meta_path(args, i) {
        Some(path) => {
            proof {
                lemma_path_ends(args, i);
            }
            if path.end == args.len() || (is_punct(args, path.end, ',') && path.end + 1 == args.len()) {
                Some(seq![path])
            } else if i < path.end < args.len() && is_punct(args, path.end, ',') {
                match meta_paths(args, path.end + 1) {
                    Some(more) => Some(seq![path] + more),
                    None => None,
                }
            } else {
                None
            }
        },
        None => None,
    }
}

/// A path among the arguments of an attribute.
pub ghost struct MetaPath {
    pub leading_colon: bool,
    pub names: Seq<Seq<char>>,
    /// The position behind the path.
    pub end: int,
}

/// The path that starts at a position.
pub open spec fn meta_path(args: Seq<ArgToken>, i: int) -> Option<MetaPath> {
    let leading_colon = is_colons(args, i);
    let start = if leading_colon {
        i + 2
    } else {
        i
    };
    match names_from(args, start) {
        Some((names, end)) => Some(MetaPath { leading_colon, names, end }),
        None => None,
    }
}

proof fn lemma_names_end(args: Seq<ArgToken>, i: int)
    ensures
        names_from(args, i) matches Some((_, end)) ==> i < end <= args.len(),
    decreases args.len() - i,
{
    if 0 <= i < args.len() && is_colons(args, i + 1) {
        lemma_names_end(args, i + 3);
    }
}

/// A path ends behind its start.
pub proof fn lemma_path_ends(args: Seq<ArgToken>, i: int)
    ensures
        meta_path(args, i) matches Some(path) ==> i < path.end <= args.len(),
{
    lemma_names_end(args, i);
    lemma_names_end(args, i + 2);
}

/// A path among the arguments of an attribute.
pub struct NestedPath {
    pub leading_colon: bool,
    pub names: Vec<String>,
    /// The position behind the path.
    pub end: usize,
}

impl View for NestedPath {
    type V = MetaPath;

    open spec fn view(&self) -> MetaPath {
        MetaPath { leading_colon: self.leading_colon, names: text::texts(self.names@), end: self.end as int }
    }
}

/// The models of some paths.
pub open spec fn path_models(paths: Seq<NestedPath>) -> Seq<MetaPath> {
    Seq::new(paths.len(), |i: int| paths[i]@)
}

impl NestedPath {
    /// Whether the names in the path are just `a` and `b`.
    pub fn is_two(&self, a: &str, b: &str) -> (r: bool)
        ensures
            r == (self@.names == seq![a@, b@]),
    {
        if self.names.len() != 2 {
            assert(self@.names.len() != seq![a@, b@].len());
            return false;
        }
        let r = same_text(self.names[0].as_str(), a) && same_text(self.names[1].as_str(), b);
        proof {
            if r {
                assert(self@.names =~= seq![a@, b@]);
            } else {
                assert(self@.names[0] == self.names@[0]@ && self@.names[1] == self.names@[1]@);
                assert(seq![a@, b@][0] == a@ && seq![a@, b@][1] == b@);
            }
        }
        r
    }
}

/// Whether the token at a position is a punctuation character.
pub(crate) fn punct_at(args: &Vec<ArgToken>, i: usize, c: char) -> (r: bool)
    ensures
        r == is_punct(args@, i as int, c),
{
    if i >= args.len() {
        return false;
    }
    match &args[i].tree {
        TokenTree::Punct(p) => *p == c,
        _ => false,
    }
}

/// Whether `::` stands at a position.
fn colons_at(args: &Vec<ArgToken>, i: usize) -> (r: bool)
    ensures
        r == is_colons(args@, i as int),
{
    if i < args.len() && punct_at(args, i, ':') && punct_at(args, i + 1, ':') {
        let first = &args[i].start;
        let second = &args[i + 1].start;
        first.line == second.line && second.column > 0 && first.column == second.column - 1
    } else {
        false
    }
}

/// The path that starts at a position.
pub(crate) fn read_path(args: &Vec<ArgToken>, i: usize) -> (r: Option<NestedPath>)
    requires
        i <= args@.len(),
    ensures
        match r {
            Some(path) => meta_path(args@, i as int) == Some(path@),
            None => meta_path(args@, i as int) is None,
        },
{
    let n = args.len();
    let leading_colon = colons_at(args, i);
    let start: usize = if leading_colon {
        i + 2
    } else {
        i
    };
    let mut names: Vec<String> = Vec::new();
    let mut at: usize = start;
    assert(text::texts(names@) =~= Seq::<Seq<char>>::empty());
    assert(names_from(args@, at as int) matches Some((rest, _)) ==> Seq::<Seq<char>>::empty() + rest =~= rest);
    loop
        invariant
            n == args@.len(),
            at <= n + 1,
            leading_colon == is_colons(args@, i as int),
            start == if leading_colon {
                i + 2
            } else {
                i as int
            },
            names_from(args@, start as int) == (match names_from(args@, at as int) {
                Some((rest, end)) => Some((text::texts(names@) + rest, end)),
                None => None,
            }),
        decreases n + 1 - at,
    {
        if at >= n {
            return None;
        }
        match &args[at].tree {
            TokenTree::Ident(name) => {
                let ghost before = names@;
                names.push(name.clone());
                assert(text::texts(names@) =~= text::texts(before).push(name@));
                if !colons_at(args, at + 1) {
                    assert(text::texts(before) + seq![name@] =~= text::texts(names@));
                    return Some(NestedPath { leading_colon, names, end: at + 1 });
                }
                proof {
                    match names_from(args@, at + 3) {
                        Some((rest, _)) => {
                            assert(text::texts(before) + (seq![name@] + rest) =~= text::texts(names@) + rest);
                        },
                        None => {},
                    }
                }
                at = at + 3;
            },
            _ => {
                return None;
            },
        }
    }
}

/// The paths that are the arguments, with commas between them, if they are nothing else.
pub(crate) fn read_paths(args: &Vec<ArgToken>) -> (r: Option<Vec<NestedPath>>)
    ensures
        match r {
            Some(paths) => meta_paths(args@, 0) == Some(path_models(paths@)),
            None => meta_paths(args@, 0) is None,
        },
{
    let mut paths: Vec<NestedPath> = Vec::new();
    let mut at: usize = 0;
    let n = args.len();
    assert(path_models(paths@) =~= Seq::<MetaPath>::empty());
    assert(meta_paths(args@, 0) matches Some(rest) ==> Seq::<MetaPath>::empty() + rest =~= rest);
    loop
        invariant
            n == args@.len(),
            at <= n,
            meta_paths(args@, 0) == (match meta_paths(args@, at as int) {
                Some(rest) => Some(path_models(paths@) + rest),
                None => None,
            }),
        decreases n - at,
    {
        let path = match read_path(args, at) {
            Some(path) => path,
            None => return None,
        };
        proof {
            lemma_path_ends(args@, at as int);
        }
        let end = path.end;
        let ghost before = paths@;
        paths.push(path);
        assert(path_models(paths@) =~= path_models(before).push(path@));
        assert(path_models(before) + seq![path@] =~= path_models(paths@));
        if end >= n {
            return Some(paths);
        }
        if !punct_at(args, end, ',') {
            return None;
        }
        if end + 1 >= n {
            return Some(paths);
        }
        proof {
            match meta_paths(args@, end + 1) {
                Some(rest) => {
                    assert(path_models(before) + (seq![path@] + rest) =~= path_models(paths@) + rest);
                },
                None => {},
            }
        }
        at = end + 1;
    }
}

/// The tokens of some arguments.
pub open spec fn arg_toks(args: Seq<ArgToken>) -> Seq<Tok> {
    Seq::new(args.len(), |i: int| tokens::tok(args[i].tree))
}

/// That a token is a name, or a group with that name somewhere in it.
pub open spec fn token_mentions(t: Tok, name: Seq<char>) -> bool
    decreases t,
{
    match t {
        Tok::Ident(s) => s == name,
        Tok::Group(_, inner) => exists|i: int| 0 <= i < inner.len() && token_mentions(#[trigger] inner[i], name),
        _ => false,
    }
}

/// That a name stands somewhere among some tokens, groups included.
pub open spec fn mentions(ts: Seq<Tok>, name: Seq<char>) -> bool {
    exists|i: int| 0 <= i < ts.len() && token_mentions(#[trigger] ts[i], name)
}

/// The tokens of some arguments.
pub(crate) fn arg_trees(args: &Vec<ArgToken>) -> (r: Vec<TokenTree>)
    ensures
        tokens::toks(r@) == arg_toks(args@),
{
    let mut r: Vec<TokenTree> = Vec::new();
    for i in 0..args.len()
        invariant
            r@.len() == i,
            forall|j: int| 0 <= j < i ==> tokens::tok(#[trigger] r@[j]) == tokens::tok(args@[j].tree),
    {
        r.push(copy_token(&args[i].tree));
    }
    assert(tokens::toks(r@) =~= arg_toks(args@));
    r
}

/// Whether a name stands somewhere among some tokens, groups included.
pub(crate) fn mentions_name(ts: &Vec<TokenTree>, name: &str) -> (r: bool)
    ensures
        r == mentions(tokens::toks(ts@), name@),
    decreases ts,
{
    let ghost all = tokens::toks(ts@);
    for i in 0..ts.len()
        invariant
            all == tokens::toks(ts@),
            forall|j: int| 0 <= j < i ==> !token_mentions(#[trigger] all[j], name@),
    {
        assert(all[i as int] == tokens::tok(ts@[i as int]));
        let found = tree_mentions(&ts[i], name);
        if found {
            assert(token_mentions(all[i as int], name@));
            return true;
        }
    }
    false
}

/// Whether a token is a name, or a group with that name somewhere in it.
fn tree_mentions(t: &TokenTree, name: &str) -> (r: bool)
    ensures
        r == token_mentions(tokens::tok(*t), name@),
    decreases t,
{
    match t {
        TokenTree::Ident(s) => same_text(s.as_str(), name),
        TokenTree::Group(_, inner) => {
            let r = mentions_name(inner, name);
            assert(tokens::tok(*t)->Group_1 == tokens::toks(inner@));
            assert(token_mentions(tokens::tok(*t), name@) == mentions(tokens::toks(inner@), name@));
            r
        },
        _ => false,
    }
}

/// The string literal that some tokens consist of, given the first of them and how many they are, or what is wrong with them.
pub open spec fn literal_among(first: Tok, n: nat) -> Result<Seq<char>, Seq<char>> {
    if n == 0 {
        Err("unexpected end of input, expected string literal"@)
    } else {
        match first {
            Tok::Literal(literal) if parse::literal_value(literal) is Some => if n == 1 {
                Ok(parse::literal_value(literal)->0)
            } else {
                Err("expected exactly one string literal argument to #[mutants::exclude_re]"@)
            },
            _ => Err("expected string literal"@),
        }
    }
}

/// The string literal that some arguments consist of, or what is wrong with them.
pub open spec fn argument_literal(args: Seq<ArgToken>) -> Result<Seq<char>, Seq<char>> {
    literal_among(tokens::tok(args[0].tree), args.len())
}

/// The string literal that some tokens consist of, or what is wrong with them.
pub open spec fn only_literal(ts: Seq<TokenTree>) -> Result<Seq<char>, Seq<char>> {
    literal_among(tokens::tok(ts[0]), ts.len())
}

/// The texts of a result.
pub open spec fn result_texts(r: Result<String, String>) -> Result<Seq<char>, Seq<char>> {
    match r {
        Ok(s) => Ok(s@),
        Err(s) => Err(s@),
    }
}

/// The string literal that some tokens consist of, given the first of them and how many they are, or what is wrong with them.
fn read_literal(first: &TokenTree, n: usize) -> (r: Result<String, String>)
    requires
        n > 0,
    ensures
        result_texts(r) == literal_among(tokens::tok(*first), n as nat),
{
    match first {
        TokenTree::Literal(literal) => match string_literal(literal.as_str()) {
            Some(value) => if n == 1 {
                Ok(value)
            } else {
                Err("expected exactly one string literal argument to #[mutants::exclude_re]".to_owned())
            },
            None => Err("expected string literal".to_owned()),
        },
        _ => Err("expected string literal".to_owned()),
    }
}

/// Parse the arguments of a direct `#[mutants::exclude_re("pat")]` attribute.
///
/// Requires exactly one string literal argument; everything else is an error.
pub fn parse_exclude_re_args(args: &Vec<ArgToken>) -> (r: Result<String, String>)
    ensures
        result_texts(r) == argument_literal(args@),
{
    if args.len() == 0 {
        return Err("unexpected end of input, expected string literal".to_owned());
    }
    read_literal(&args[0].tree, args.len())
}

/// The string literal that some tokens consist of, or what is wrong with them.
pub(crate) fn read_only_literal(ts: &Vec<TokenTree>) -> (r: Result<String, String>)
    ensures
        result_texts(r) == only_literal(ts@),
{
    if ts.len() == 0 {
        return Err("unexpected end of input, expected string literal".to_owned());
    }
    read_literal(&ts[0], ts.len())
}

/// A name counts however deep it stands: a group mentions what its tokens mention, a name mentions itself, and nothing else
/// mentions anything.
pub proof fn names_count_however_deep(t: Tok, name: Seq<char>)
    ensures
        t matches Tok::Group(_, inner) ==> (token_mentions(t, name) <==> mentions(inner, name)),
        t matches Tok::Ident(s) ==> (token_mentions(t, name) <==> s == name),
        t is Punct || t is Literal ==> !token_mentions(t, name),
{
    reveal_with_fuel(token_mentions, 2);
    if t is Group {
        let inner = t->Group_1;
        if mentions(inner, name) {
            let i = choose|i: int| 0 <= i < inner.len() && token_mentions(#[trigger] inner[i], name);
            assert(token_mentions(inner[i], name));
        }
    }
}

/// A name is mentioned by some tokens if it is by some of them.
pub proof fn tokens_mention_one_by_one(a: Seq<Tok>, b: Seq<Tok>, name: Seq<char>)
    ensures
        mentions(a + b, name) <==> mentions(a, name) || mentions(b, name),
{
    let both = a + b;
    if mentions(both, name) {
        let i = choose|i: int| 0 <= i < both.len() && token_mentions(#[trigger] both[i], name);
        if i < a.len() {
            assert(token_mentions(a[i], name));
        } else {
            assert(token_mentions(b[i - a.len()], name));
        }
    }
    if mentions(a, name) {
        let i = choose|i: int| 0 <= i < a.len() && token_mentions(#[trigger] a[i], name);
        assert(token_mentions(both[i], name));
    }
    if mentions(b, name) {
        let i = choose|i: int| 0 <= i < b.len() && token_mentions(#[trigger] b[i], name);
        assert(token_mentions(both[a.len() + i], name));
    }
}

} // verus!
