//! Convert a token stream back to (reasonably) pretty Rust code in a string.

use vstd::prelude::*;
use crate::text;
use crate::text::{chars_of, string_of};
use crate::tokens;
use crate::tokens::{Delimiter, Tok, TokenTree};

verus! {

/// Whether `s` ends in the character `c`.
pub open spec fn ends_in(s: Seq<char>, c: char) -> bool {
    s.len() > 0 && s.last() == c
}

/// Whether `s` ends in the two characters `a` and `b`.
pub open spec fn ends_in_two(s: Seq<char>, a: char, b: char) -> bool {
    s.len() > 1 && s.last() == b && s[s.len() - 2] == a
}

/// A space, where one is called for.
pub open spec fn space_if(wanted: bool) -> Seq<char> {
    if wanted {
        seq![' ']
    } else {
        Seq::<char>::empty()
    }
}

/// What opens a group.
pub open spec fn opening(d: Delimiter) -> Seq<char> {
    match d {
        Delimiter::Brace => seq!['{'],
        Delimiter::Bracket => seq!['['],
        Delimiter::Parenthesis => seq!['('],
        Delimiter::Invisible => Seq::<char>::empty(),
    }
}

/// What closes a group.
pub open spec fn closing(d: Delimiter) -> Seq<char> {
    match d {
        Delimiter::Brace => seq!['}'],
        Delimiter::Bracket => seq![']'],
        Delimiter::Parenthesis => seq![')'],
        Delimiter::Invisible => Seq::<char>::empty(),
    }
}

/// Whether a word is followed by a space, when `next` comes after it: before another word and before
/// punctuation that does not cling to the word.
pub open spec fn word_needs_space(next: Option<Tok>) -> bool {
    match next {
        None => false,
        Some(Tok::Ident(_)) => true,
        Some(Tok::Literal(_)) => true,
        Some(Tok::Punct(c)) => !(c == ',' || c == ';' || c == '<' || c == '>' || c == ':' || c == '.' || c
            == '!'),
        Some(Tok::Group(_, _)) => false,
    }
}

/// The text after `emitted` is followed by the word `word`, with `next` still to come.
pub open spec fn after_word(emitted: Seq<char>, word: Seq<char>, next: Option<Tok>) -> Seq<char> {
    let lead = ends_in(emitted, '=') || ends_in_two(emitted, '=', '>') || ends_in(emitted, '|');
    emitted + space_if(lead) + word + space_if(word_needs_space(next))
}

/// The text after `emitted` is followed by the punctuation `c`, with more to come or not.
pub open spec fn after_punct(emitted: Seq<char>, c: char, more: bool) -> Seq<char> {
    let lead = c == '|' && emitted.len() > 0 && !ends_in(emitted, ' ') && !ends_in(emitted, '|');
    let body = (emitted + space_if(lead)).push(c);
    body + space_if(more && (ends_in_two(body, '-', '>') || c == ',' || c == ';'))
}

/// The token at `i`, if there is one.
pub open spec fn token_at(ts: Seq<Tok>, i: int) -> Option<Tok> {
    if 0 <= i < ts.len() {
        Some(ts[i])
    } else {
        None
    }
}

/// The pretty-printed form of the first `n` tokens of `ts`.
///
/// The spacing rules look only at the text that this token stream has produced itself.
pub open spec fn pretty_prefix(ts: Seq<Tok>, n: int) -> Seq<char>
    decreases ts, n,
{
    if n <= 0 || n > ts.len() {
        Seq::<char>::empty()
    } else {
        let emitted = pretty_prefix(ts, n - 1);
        match ts[n - 1] {
            Tok::Punct(c) => after_punct(emitted, c, n < ts.len()),
            Tok::Ident(word) => after_word(emitted, word, token_at(ts, n)),
            Tok::Literal(word) => after_word(emitted, word, token_at(ts, n)),
            Tok::Group(d, inner) => emitted + opening(d) + pretty_prefix(inner, inner.len() as int) + closing(d),
        }
    }
}

/// Whether what was written to `b` from `start` on ends in the character `c`.
fn emitted_ends_in(b: &Vec<char>, start: usize, c: char) -> (r: bool)
    requires
        start <= b@.len(),
    ensures
        r == ends_in(b@.skip(start as int), c),
{
    b.len() > start && b[b.len() - 1] == c
}

/// Whether what was written to `b` from `start` on ends in the characters `x` and `y`.
fn emitted_ends_in_two(b: &Vec<char>, start: usize, x: char, y: char) -> (r: bool)
    requires
        start <= b@.len(),
    ensures
        r == ends_in_two(b@.skip(start as int), x, y),
{
    b.len() - start > 1 && b[b.len() - 1] == y && b[b.len() - 2] == x
}

/// Appends a text, character by character.
fn push_chars(b: &mut Vec<char>, s: &str)
    ensures
        final(b)@ == old(b)@ + s@,
{
    let mut chars = chars_of(s);
    b.append(&mut chars);
}

/// Appends the word `word`, with `next` still to come, to what was written to `b` from `start` on.
fn write_word(b: &mut Vec<char>, start: usize, word: &str, next: Option<&TokenTree>)
    requires
        start <= old(b)@.len(),
    ensures
        final(b)@ == old(b)@.take(start as int) + after_word(
            old(b)@.skip(start as int),
            word@,
            match next {
                Some(t) => Some(tokens::tok(*t)),
                None => None,
            },
        ),
{
    if emitted_ends_in(b, start, '=') || emitted_ends_in_two(b, start, '=', '>') || emitted_ends_in(b, start, '|') {
        b.push(' ');
    }
    push_chars(b, word);
    match next {
        Some(TokenTree::Ident(_)) => b.push(' '),
        Some(TokenTree::Literal(_)) => b.push(' '),
        Some(TokenTree::Punct(c)) => {
            match *c {
                ',' | ';' | '<' | '>' | ':' | '.' | '!' => {},
                _ => b.push(' '),
            }
        },
        Some(TokenTree::Group(_, _)) => {},
        None => {},
    }
}

/// Appends the punctuation `c`, with more to come or not, to what was written to `b` from `start` on.
fn write_punct(b: &mut Vec<char>, start: usize, c: char, more: bool)
    requires
        start <= old(b)@.len(),
    ensures
        final(b)@ == old(b)@.take(start as int) + after_punct(old(b)@.skip(start as int), c, more),
{
    let ghost before = b@.take(start as int);
    let ghost emitted = b@.skip(start as int);
    assert(b@ =~= before + emitted);
    if c == '|' && b.len() > start && !emitted_ends_in(b, start, ' ') && !emitted_ends_in(b, start, '|') {
        // Generally have spaces around '|' in match arms (or bitwise expressions)
        b.push(' ');
    }
    b.push(c);
    let ghost body = (emitted + space_if(
        c == '|' && emitted.len() > 0 && !ends_in(emitted, ' ') && !ends_in(emitted, '|'),
    )).push(c);
    assert(b@ =~= before + body);
    assert(b@.skip(start as int) =~= body);
    if more && (emitted_ends_in_two(b, start, '-', '>') || c == ',' || c == ';') {
        b.push(' ');
    }
}

/// Append the pretty-printed form of `ts` to `b`.
///
/// Groups recurse into the same buffer. The spacing rules look only at the text this token stream has
/// produced itself, not at whatever the caller had already written, so every position test is relative
/// to `start`. That matters for a group that shows no delimiter, which emits no opening character to
/// separate it from the text before it.
pub fn write_pretty(ts: &Vec<TokenTree>, b: &mut Vec<char>)
    ensures
        final(b)@ == old(b)@ + pretty(tokens::toks(ts@)),
    decreases ts,
{
    let start = b.len();
    let ghost before = b@;
    let ghost model = tokens::toks(ts@);
    for i in 0..ts.len()
        invariant
            start == before.len(),
            model == tokens::toks(ts@),
            b@ == before + pretty_prefix(model, i as int),
    {
        let ghost emitted = pretty_prefix(model, i as int);
        let next: Option<&TokenTree> = if i + 1 < ts.len() {
            Some(&ts[i + 1])
        } else {
            None
        };
        proof {
            assert(b@.skip(start as int) =~= emitted);
            assert(b@.take(start as int) =~= before);
            assert(model[i as int] == tokens::tok(ts@[i as int]));
            if i + 1 < ts.len() {
                assert(model[i + 1] == tokens::tok(ts@[i + 1]));
            }
        }
        match &ts[i] {
            TokenTree::Punct(c) => {
                write_punct(b, start, *c, i + 1 < ts.len());
            },
            TokenTree::Ident(word) => {
                write_word(b, start, word.as_str(), next);
            },
            TokenTree::Literal(word) => {
                write_word(b, start, word.as_str(), next);
            },
            TokenTree::Group(d, inner) => {
                match *d {
                    Delimiter::Brace => b.push('{'),
                    Delimiter::Bracket => b.push('['),
                    Delimiter::Parenthesis => b.push('('),
                    Delimiter::Invisible => {},
                }
                write_pretty(inner, b);
                match *d {
                    Delimiter::Brace => b.push('}'),
                    Delimiter::Bracket => b.push(']'),
                    Delimiter::Parenthesis => b.push(')'),
                    Delimiter::Invisible => {},
                }
                assert(b@ =~= before + (emitted + opening(*d) + pretty(tokens::toks(inner@)) + closing(*d)));
            },
        }
    }
}

/// Convert tokens representing some code to a reasonably formatted string of Rust code.
///
/// This is probably not correctly formatted for all Rust syntax, and only tries to cover cases that can
/// emerge from the code we generate.
pub fn to_pretty_string(ts: &Vec<TokenTree>) -> (r: String)
    ensures
        r@ == pretty(tokens::toks(ts@)),
{
    let mut b: Vec<char> = Vec::new();
    write_pretty(ts, &mut b);
    string_of(&b)
}

/// That a token stream can be printed without leaving a gap: every word has text and does not end in a
/// space, no punctuation is a space, and no group without delimiters is empty.
pub open spec fn printable(ts: Seq<Tok>) -> bool
    decreases ts,
{
    forall|i: int|
        0 <= i < ts.len() ==> match #[trigger] ts[i] {
            Tok::Punct(c) => c != ' ',
            Tok::Ident(word) => word.len() > 0 && word.last() != ' ',
            Tok::Literal(word) => word.len() > 0 && word.last() != ' ',
            Tok::Group(d, inner) => printable(inner) && (d == Delimiter::Invisible ==> inner.len() > 0),
        }
}

/// Pretty-printed code never ends in a space.
pub proof fn pretty_has_no_trailing_space(ts: Seq<Tok>)
    requires
        printable(ts),
    ensures
        !ends_in(pretty(ts), ' '),
        ts.len() > 0 ==> pretty(ts).len() > 0,
    decreases ts,
{
    if ts.len() > 0 {
        let last = ts.len() - 1;
        let emitted = pretty_prefix(ts, last);
        match ts[last] {
            Tok::Punct(c) => {
                assert(pretty(ts) =~= after_punct(emitted, c, false));
                assert(pretty(ts).last() == c);
            },
            Tok::Ident(word) => {
                assert(pretty(ts).last() == word.last());
            },
            Tok::Literal(word) => {
                assert(pretty(ts).last() == word.last());
            },
            Tok::Group(d, inner) => {
                pretty_has_no_trailing_space(inner);
                match d {
                    Delimiter::Invisible => {
                        assert(pretty(ts).last() == pretty(inner).last());
                    },
                    _ => {
                        assert(pretty(ts).last() == closing(d)[0]);
                    },
                }
            },
        }
    }
}

/// The pretty-printed form of a token stream.
pub open spec fn pretty(ts: Seq<Tok>) -> Seq<char> {
    pretty_prefix(ts, ts.len() as int)
}

/// That a token stream ends in a word or a group, behind which a comma stands without a space before it.
pub open spec fn ends_in_value(ts: Seq<Tok>) -> bool {
    ts.len() > 0 && !(ts.last() is Punct)
}

/// Behind nothing, or behind a space, a word is printed as it would be alone.
proof fn lemma_after_word_behind(base: Seq<char>, emitted: Seq<char>, word: Seq<char>, next: Option<Tok>)
    requires
        base.len() == 0 || base.last() == ' ',
    ensures
        after_word(base + emitted, word, next) == base + after_word(emitted, word, next),
{
    let whole = base + emitted;
    assert(emitted.len() > 0 ==> whole.last() == emitted.last());
    assert(emitted.len() > 1 ==> whole[whole.len() - 2] == emitted[emitted.len() - 2]);
    assert(emitted.len() == 1 && base.len() > 0 ==> whole[whole.len() - 2] == ' ');
    assert(emitted.len() == 0 ==> whole =~= base);
    assert(after_word(whole, word, next) =~= base + after_word(emitted, word, next));
}

/// Behind nothing, or behind a space, punctuation is printed as it would be alone.
proof fn lemma_after_punct_behind(base: Seq<char>, emitted: Seq<char>, c: char, more: bool)
    requires
        base.len() == 0 || base.last() == ' ',
    ensures
        after_punct(base + emitted, c, more) == base + after_punct(emitted, c, more),
{
    let whole = base + emitted;
    assert(emitted.len() > 0 ==> whole.last() == emitted.last());
    assert(emitted.len() == 0 ==> whole =~= base);
    let lead = c == '|' && emitted.len() > 0 && !ends_in(emitted, ' ') && !ends_in(emitted, '|');
    assert(lead == (c == '|' && whole.len() > 0 && !ends_in(whole, ' ') && !ends_in(whole, '|')));
    let body = (emitted + space_if(lead)).push(c);
    let whole_body = (whole + space_if(lead)).push(c);
    assert(whole_body =~= base + body);
    assert(body.len() > 1 ==> whole_body[whole_body.len() - 2] == body[body.len() - 2]);
    assert(body.len() == 1 && base.len() > 0 ==> whole_body[whole_body.len() - 2] == ' ');
    assert(after_punct(whole, c, more) =~= base + after_punct(emitted, c, more));
}

/// A part of a token stream that stands behind nothing or behind a space, and before nothing or a comma, is printed as it
/// would be alone.
proof fn lemma_pretty_part(ts: Seq<Tok>, k: int, part: Seq<Tok>, n: int)
    requires
        0 <= k,
        k + part.len() <= ts.len(),
        ts.subrange(k, k + part.len()) == part,
        0 <= n <= part.len(),
        pretty_prefix(ts, k).len() == 0 || pretty_prefix(ts, k).last() == ' ',
        k + part.len() < ts.len() ==> ends_in_value(part) && ts[k + part.len()] == Tok::Punct(','),
    ensures
        pretty_prefix(ts, k + n) == pretty_prefix(ts, k) + pretty_prefix(part, n),
    decreases n,
{
    let base = pretty_prefix(ts, k);
    if n == 0 {
        assert(base + pretty_prefix(part, 0) =~= base);
    } else {
        lemma_pretty_part(ts, k, part, n - 1);
        let emitted = pretty_prefix(part, n - 1);
        assert(ts[k + n - 1] == part[n - 1]) by {
            assert(ts.subrange(k, k + part.len())[n - 1] == ts[k + n - 1]);
        }
        if n < part.len() {
            assert(ts[k + n] == part[n]) by {
                assert(ts.subrange(k, k + part.len())[n] == ts[k + n]);
            }
        }
        match part[n - 1] {
            Tok::Punct(c) => {
                lemma_after_punct_behind(base, emitted, c, n < part.len());
            },
            Tok::Ident(word) => {
                lemma_after_word_behind(base, emitted, word, token_at(part, n));
                lemma_after_word_before_comma(base + emitted, word, token_at(ts, k + n), token_at(part, n));
            },
            Tok::Literal(word) => {
                lemma_after_word_behind(base, emitted, word, token_at(part, n));
                lemma_after_word_before_comma(base + emitted, word, token_at(ts, k + n), token_at(part, n));
            },
            Tok::Group(d, inner) => {
                assert((base + emitted) + opening(d) + pretty_prefix(inner, inner.len() as int) + closing(d) =~= base + (
                emitted + opening(d) + pretty_prefix(inner, inner.len() as int) + closing(d)));
            },
        }
    }
}

/// A word is followed by no space before a comma, and none at the end.
proof fn lemma_after_word_before_comma(emitted: Seq<char>, word: Seq<char>, next: Option<Tok>, other: Option<Tok>)
    requires
        next == other || (next == Some(Tok::Punct(',')) && other is None),
    ensures
        after_word(emitted, word, next) == after_word(emitted, word, other),
{
}

/// Some token streams with commas between them.
pub open spec fn with_commas(values: Seq<Seq<Tok>>) -> Seq<Tok>
    decreases values.len(),
{
    if values.len() == 0 {
        Seq::<Tok>::empty()
    } else if values.len() == 1 {
        values[0]
    } else {
        with_commas(values.drop_last()).push(Tok::Punct(',')) + values.last()
    }
}

/// The pretty-printed forms of some token streams.
pub open spec fn pretty_all(values: Seq<Seq<Tok>>) -> Seq<Seq<char>> {
    Seq::new(values.len(), |i: int| pretty(values[i]))
}

/// Values with commas between them are printed one by one, with a comma and a space between them.
pub proof fn values_are_printed_one_by_one(values: Seq<Seq<Tok>>)
    requires
        forall|i: int| 0 <= i < values.len() ==> ends_in_value(#[trigger] values[i]),
    ensures
        pretty(with_commas(values)) == text::joined(pretty_all(values), ", "@),
        values.len() > 0 ==> ends_in_value(with_commas(values)),
    decreases values.len(),
{
    reveal_strlit(", ");
    let ts = with_commas(values);
    let texts = pretty_all(values);
    if values.len() == 1 {
        assert(ends_in_value(values[0]));
        assert(texts[0] == pretty(values[0]));
    } else if values.len() > 1 {
        let init = values.drop_last();
        let last = values.last();
        assert forall|i: int| 0 <= i < init.len() implies ends_in_value(#[trigger] init[i]) by {
            assert(ends_in_value(values[i]));
        }
        values_are_printed_one_by_one(init);
        assert(ends_in_value(values[values.len() - 1]));
        let front = with_commas(init);
        let n = front.len() as int;
        assert(ts.subrange(0, n) =~= front);
        assert(ts[n] == Tok::Punct(','));
        lemma_pretty_part(ts, 0, front, n);
        let emitted = pretty_prefix(ts, n);
        assert(emitted =~= pretty(front));
        assert(pretty_prefix(ts, n + 1) =~= emitted + ", "@);
        assert(ts.subrange(n + 1, n + 1 + last.len()) =~= last);
        lemma_pretty_part(ts, n + 1, last, last.len() as int);
        assert(texts.drop_last() =~= pretty_all(init));
        assert(ts.last() == last.last());
    }
}

/// The characters of a text but its spaces.
pub open spec fn unspaced(s: Seq<char>) -> Seq<char>
    decreases s.len(),
{
    if s.len() == 0 {
        s
    } else if s.last() == ' ' {
        unspaced(s.drop_last())
    } else {
        unspaced(s.drop_last()).push(s.last())
    }
}

/// The text of the first `n` of some tokens, one behind the other, with the delimiters of groups around what is in them.
pub open spec fn plain_text(ts: Seq<Tok>, n: int) -> Seq<char>
    decreases ts, n,
{
    if n <= 0 || n > ts.len() {
        Seq::<char>::empty()
    } else {
        plain_text(ts, n - 1) + match ts[n - 1] {
            Tok::Punct(c) => seq![c],
            Tok::Ident(word) => word,
            Tok::Literal(word) => word,
            Tok::Group(Delimiter::Brace, inner) => seq!['{'] + plain_text(inner, inner.len() as int) + seq!['}'],
            Tok::Group(Delimiter::Bracket, inner) => seq!['['] + plain_text(inner, inner.len() as int) + seq![']'],
            Tok::Group(Delimiter::Parenthesis, inner) => seq!['('] + plain_text(inner, inner.len() as int) + seq![')'],
            Tok::Group(Delimiter::Invisible, inner) => plain_text(inner, inner.len() as int),
        }
    }
}

proof fn lemma_unspaced_concat(a: Seq<char>, b: Seq<char>)
    ensures
        unspaced(a + b) == unspaced(a) + unspaced(b),
    decreases b.len(),
{
    if b.len() == 0 {
        assert(a + b =~= a);
        assert(unspaced(a) + unspaced(b) =~= unspaced(a));
    } else {
        lemma_unspaced_concat(a, b.drop_last());
        assert((a + b).drop_last() =~= a + b.drop_last());
        assert((a + b).last() == b.last());
        assert(unspaced(a + b) =~= unspaced(a) + unspaced(b));
    }
}

proof fn lemma_unspaced_space(wanted: bool)
    ensures
        unspaced(space_if(wanted)) == Seq::<char>::empty(),
{
    reveal_with_fuel(unspaced, 2);
    if wanted {
        assert(seq![' '].drop_last() =~= Seq::<char>::empty());
    }
}

/// Apart from spaces, code is printed token by token: nothing is lost, added or moved.
#[verifier::spinoff_prover]
#[verifier::rlimit(40)]
pub proof fn printing_keeps_every_token(ts: Seq<Tok>, n: int)
    requires
        0 <= n <= ts.len(),
    ensures
        unspaced(pretty_prefix(ts, n)) == unspaced(plain_text(ts, n)),
    decreases ts, n,
{
    if n > 0 {
        printing_keeps_every_token(ts, n - 1);
        let emitted = pretty_prefix(ts, n - 1);
        let before = plain_text(ts, n - 1);
        match ts[n - 1] {
            Tok::Punct(c) => {
                let lead = c == '|' && emitted.len() > 0 && !ends_in(emitted, ' ') && !ends_in(emitted, '|');
                let body = (emitted + space_if(lead)).push(c);
                let tail = n < ts.len() && (ends_in_two(body, '-', '>') || c == ',' || c == ';');
                assert(body =~= emitted + space_if(lead) + seq![c]);
                lemma_unspaced_concat(body, space_if(tail));
                lemma_unspaced_concat(emitted + space_if(lead), seq![c]);
                lemma_unspaced_concat(emitted, space_if(lead));
                lemma_unspaced_space(lead);
                lemma_unspaced_space(tail);
                lemma_unspaced_concat(before, seq![c]);
                assert(unspaced(pretty_prefix(ts, n)) =~= unspaced(emitted) + unspaced(seq![c]));
            },
            Tok::Ident(word) => {
                lemma_word_unspaced(emitted, word, token_at(ts, n));
                lemma_unspaced_concat(before, word);
            },
            Tok::Literal(word) => {
                lemma_word_unspaced(emitted, word, token_at(ts, n));
                lemma_unspaced_concat(before, word);
            },
            Tok::Group(d, inner) => {
                printing_keeps_every_token(inner, inner.len() as int);
                let printed = pretty_prefix(inner, inner.len() as int);
                let plain = plain_text(inner, inner.len() as int);
                lemma_unspaced_concat(emitted + opening(d) + printed, closing(d));
                lemma_unspaced_concat(emitted + opening(d), printed);
                lemma_unspaced_concat(emitted, opening(d));
                let group = opening(d) + plain + closing(d);
                lemma_unspaced_concat(opening(d) + plain, closing(d));
                lemma_unspaced_concat(opening(d), plain);
                lemma_unspaced_concat(before, group);
                assert(plain_text(ts, n) =~= before + group);
                assert(unspaced(pretty_prefix(ts, n)) =~= unspaced(before) + unspaced(group));
            },
        }
    }
}

proof fn lemma_word_unspaced(emitted: Seq<char>, word: Seq<char>, next: Option<Tok>)
    ensures
        unspaced(after_word(emitted, word, next)) == unspaced(emitted) + unspaced(word),
{
    let lead = ends_in(emitted, '=') || ends_in_two(emitted, '=', '>') || ends_in(emitted, '|');
    let tail = word_needs_space(next);
    lemma_unspaced_concat(emitted + space_if(lead) + word, space_if(tail));
    lemma_unspaced_concat(emitted + space_if(lead), word);
    lemma_unspaced_concat(emitted, space_if(lead));
    lemma_unspaced_space(lead);
    lemma_unspaced_space(tail);
    assert(unspaced(after_word(emitted, word, next)) =~= unspaced(emitted) + unspaced(word));
}

proof fn lemma_pretty_front(ts: Seq<Tok>, more: Tok, n: int)
    requires
        0 <= n < ts.len(),
    ensures
        pretty_prefix(ts.push(more), n) == pretty_prefix(ts, n),
    decreases n,
{
    if n > 0 {
        lemma_pretty_front(ts, more, n - 1);
        assert(ts.push(more)[n - 1] == ts[n - 1]);
        assert(token_at(ts.push(more), n) == token_at(ts, n));
    }
}

/// How a token is printed behind a word: another word after a space; a comma, a semicolon, a dot, a colon, an angle bracket or
/// an exclamation mark at once; and so is a group, with its delimiters around it.
pub proof fn tokens_are_printed_behind_a_word(ts: Seq<Tok>, word: Seq<char>)
    requires
        ts.len() > 0,
        ts.last() == Tok::Ident(word) || ts.last() == Tok::Literal(word),
        word.len() > 0,
        word.last() != '=' && word.last() != '|' && word.last() != '>',
    ensures
        forall|next: Seq<char>| #[trigger]
            pretty(ts.push(Tok::Ident(next))) == pretty(ts) + seq![' '] + next,
        forall|next: Seq<char>| #[trigger]
            pretty(ts.push(Tok::Literal(next))) == pretty(ts) + seq![' '] + next,
        forall|c: char|
            c == ',' || c == ';' || c == '<' || c == '>' || c == ':' || c == '.' || c == '!' ==> #[trigger] pretty(
                ts.push(Tok::Punct(c)),
            ) == pretty(ts) + seq![c],
        forall|inner: Seq<Tok>| #[trigger]
            pretty(ts.push(Tok::Group(Delimiter::Parenthesis, inner))) == pretty(ts) + seq!['('] + pretty(inner) + seq![')'],
        forall|inner: Seq<Tok>| #[trigger]
            pretty(ts.push(Tok::Group(Delimiter::Bracket, inner))) == pretty(ts) + seq!['['] + pretty(inner) + seq![']'],
        forall|inner: Seq<Tok>| #[trigger]
            pretty(ts.push(Tok::Group(Delimiter::Brace, inner))) == pretty(ts) + seq!['{'] + pretty(inner) + seq!['}'],
{
    let n = ts.len() as int;
    let emitted = pretty_prefix(ts, n - 1);
    let alone = pretty(ts);
    assert(alone =~= after_word(emitted, word, None));
    assert(alone.len() > 0 && alone.last() == word.last());
    assert forall|next: Seq<char>| #[trigger] pretty(ts.push(Tok::Ident(next))) == alone + seq![' '] + next by {
        lemma_behind_a_word(ts, word, Tok::Ident(next));
        assert(pretty(ts.push(Tok::Ident(next))) =~= alone + seq![' '] + next);
    }
    assert forall|next: Seq<char>| #[trigger] pretty(ts.push(Tok::Literal(next))) == alone + seq![' '] + next by {
        lemma_behind_a_word(ts, word, Tok::Literal(next));
        assert(pretty(ts.push(Tok::Literal(next))) =~= alone + seq![' '] + next);
    }
    assert forall|c: char|
        c == ',' || c == ';' || c == '<' || c == '>' || c == ':' || c == '.' || c == '!' implies #[trigger] pretty(
        ts.push(Tok::Punct(c)),
    ) == alone + seq![c] by {
        lemma_behind_a_word(ts, word, Tok::Punct(c));
        assert(pretty(ts.push(Tok::Punct(c))) =~= alone + seq![c]);
    }
    assert forall|inner: Seq<Tok>| #[trigger]
        pretty(ts.push(Tok::Group(Delimiter::Parenthesis, inner))) == alone + seq!['('] + pretty(inner) + seq![')'] by {
        lemma_behind_a_word(ts, word, Tok::Group(Delimiter::Parenthesis, inner));
    }
    assert forall|inner: Seq<Tok>| #[trigger]
        pretty(ts.push(Tok::Group(Delimiter::Bracket, inner))) == alone + seq!['['] + pretty(inner) + seq![']'] by {
        lemma_behind_a_word(ts, word, Tok::Group(Delimiter::Bracket, inner));
    }
    assert forall|inner: Seq<Tok>| #[trigger]
        pretty(ts.push(Tok::Group(Delimiter::Brace, inner))) == alone + seq!['{'] + pretty(inner) + seq!['}'] by {
        lemma_behind_a_word(ts, word, Tok::Group(Delimiter::Brace, inner));
    }
}

/// What is printed before one more token behind a word.
proof fn lemma_behind_a_word(ts: Seq<Tok>, word: Seq<char>, more: Tok)
    requires
        ts.len() > 0,
        ts.last() == Tok::Ident(word) || ts.last() == Tok::Literal(word),
    ensures
        pretty_prefix(ts.push(more), ts.len() as int) == pretty(ts) + space_if(word_needs_space(Some(more))),
        ts.push(more)[ts.len() as int] == more,
{
    let n = ts.len() as int;
    lemma_pretty_front(ts, more, n - 1);
    assert(ts.push(more)[n - 1] == ts[n - 1]);
    assert(token_at(ts.push(more), n) == Some(more));
    assert(token_at(ts, n) is None);
    assert(pretty_prefix(ts.push(more), n) =~= pretty(ts) + space_if(word_needs_space(Some(more))));
}

/// A comma, a semicolon or an arrow with something behind it is printed with a space.
pub proof fn commas_are_followed_by_a_space(ts: Seq<Tok>, c: char, word: Seq<char>)
    requires
        ts.len() > 0,
        ts.last() == Tok::Punct(c),
        c == ',' || c == ';',
    ensures
        pretty(ts.push(Tok::Ident(word))) == pretty(ts) + seq![' '] + word,
{
    let n = ts.len() as int;
    let more = Tok::Ident(word);
    lemma_pretty_front(ts, more, n - 1);
    assert(ts.push(more)[n - 1] == ts[n - 1]);
    assert(ts.push(more)[n] == more);
    assert(pretty_prefix(ts.push(more), n) =~= pretty(ts) + seq![' ']);
    assert(pretty(ts.push(more)) =~= pretty(ts) + seq![' '] + word);
}

/// Behind a word, any punctuation that does not cling to it is printed after a space.
pub proof fn operators_stand_off_a_word(ts: Seq<Tok>, word: Seq<char>, c: char)
    requires
        ts.len() > 0,
        ts.last() == Tok::Ident(word) || ts.last() == Tok::Literal(word),
        c != ',' && c != ';' && c != '<' && c != '>' && c != ':' && c != '.' && c != '!',
    ensures
        pretty(ts.push(Tok::Punct(c))) == pretty(ts) + seq![' ', c],
{
    let more = Tok::Punct(c);
    lemma_behind_a_word(ts, word, more);
    let emitted = pretty_prefix(ts.push(more), ts.len() as int);
    assert(emitted =~= pretty(ts) + seq![' ']);
    assert(emitted.last() == ' ');
    assert(pretty(ts.push(more)) =~= pretty(ts) + seq![' ', c]);
}

/// Behind punctuation, a word or a group is printed at once, but for an arrow, and a word behind `=`, `=>` or `|`, which have a
/// space between them.
pub proof fn tokens_are_printed_behind_punctuation(ts: Seq<Tok>, c: char, word: Seq<char>, inner: Seq<Tok>)
    requires
        ts.len() > 0,
        ts.last() == Tok::Punct(c),
        c != ',' && c != ';' && c != ' ',
    ensures
        ({
            let text = pretty(ts);
            let n = text.len() as int;
            let arrow = n > 1 && text[n - 2] == '-' && c == '>';
            let apart = arrow || c == '=' || c == '|' || (n > 1 && text[n - 2] == '=' && c == '>');
            &&& pretty(ts.push(Tok::Ident(word))) == if apart {
                text + seq![' '] + word
            } else {
                text + word
            }
            &&& pretty(ts.push(Tok::Group(Delimiter::Parenthesis, inner))) == if arrow {
                text + seq![' '] + seq!['('] + pretty(inner) + seq![')']
            } else {
                text + seq!['('] + pretty(inner) + seq![')']
            }
        }),
{
    let n = ts.len() as int;
    let text = pretty(ts);
    let before = pretty_prefix(ts, n - 1);
    let lead = c == '|' && before.len() > 0 && !ends_in(before, ' ') && !ends_in(before, '|');
    let body = (before + space_if(lead)).push(c);
    assert(text =~= body);
    assert(text.last() == c);
    let arrow = text.len() > 1 && text[text.len() - 2] == '-' && c == '>';
    let named = Tok::Ident(word);
    lemma_pretty_front(ts, named, n - 1);
    assert(ts.push(named)[n - 1] == ts[n - 1]);
    assert(ts.push(named)[n] == named);
    assert(pretty_prefix(ts.push(named), n) =~= text + space_if(arrow));
    let grouped = Tok::Group(Delimiter::Parenthesis, inner);
    lemma_pretty_front(ts, grouped, n - 1);
    assert(ts.push(grouped)[n - 1] == ts[n - 1]);
    assert(ts.push(grouped)[n] == grouped);
    assert(pretty_prefix(ts.push(grouped), n) =~= text + space_if(arrow));
    let apart = arrow || c == '=' || c == '|' || (text.len() > 1 && text[text.len() - 2] == '=' && c == '>');
    if apart {
        assert(pretty(ts.push(named)) =~= text + seq![' '] + word);
    } else {
        assert(pretty(ts.push(named)) =~= text + word);
    }
    if arrow {
        assert(pretty(ts.push(grouped)) =~= text + seq![' '] + seq!['('] + pretty(inner) + seq![')']);
    } else {
        assert(pretty(ts.push(grouped)) =~= text + seq!['('] + pretty(inner) + seq![')']);
    }
}

} // verus!
