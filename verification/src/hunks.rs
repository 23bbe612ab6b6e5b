//! The line numbers in the hunk headers of a unified diff.

use vstd::prelude::*;
use crate::text;
use crate::text::{chars_of, push_decimal, string_of};

verus! {

/// The first place from `i` on where `pattern` occurs in `s`.
pub open spec fn find_from(s: Seq<char>, pattern: Seq<char>, i: int) -> Option<int>
    decreases s.len() + 1 - i,
{
    if i < 0 || i + pattern.len() > s.len() {
        None
    } else if s.subrange(i, i + pattern.len()) == pattern {
        Some(i)
    } else {
        find_from(s, pattern, i + 1)
    }
}

/// What stands before the first occurrence of `pattern` in `s`, and what stands after it.
pub open spec fn split_once(s: Seq<char>, pattern: Seq<char>) -> Option<(Seq<char>, Seq<char>)> {
    match find_from(s, pattern, 0) {
        Some(i) => Some((s.take(i), s.skip(i + pattern.len()))),
        None => None,
    }
}

/// What stands in `s` behind `prefix`, with which it starts.
pub open spec fn strip_prefix(s: Seq<char>, prefix: Seq<char>) -> Option<Seq<char>> {
    if s.len() >= prefix.len() && s.take(prefix.len() as int) == prefix {
        Some(s.skip(prefix.len() as int))
    } else {
        None
    }
}

/// Whether a character is a decimal digit.
pub open spec fn is_digit(c: char) -> bool {
    '0' <= c && c <= '9'
}

/// The value of some decimal digits.
pub open spec fn digits_value(s: Seq<char>) -> nat
    decreases s.len(),
{
    if s.len() == 0 {
        0
    } else {
        10 * digits_value(s.drop_last()) + (s.last() as nat - '0' as nat) as nat
    }
}

/// The digits of a number, which may have a plus sign before them.
pub open spec fn unsigned_digits(s: Seq<char>) -> Seq<char> {
    if s.len() > 0 && s[0] == '+' {
        s.skip(1)
    } else {
        s
    }
}

/// That `s` holds digits only.
pub open spec fn all_digits(s: Seq<char>) -> bool {
    forall|i: int| 0 <= i < s.len() ==> is_digit(#[trigger] s[i])
}

/// The number that `s` is, if it is an optional plus sign followed by decimal digits and fits in a `usize`.
pub open spec fn number(s: Seq<char>) -> Option<nat> {
    let digits = unsigned_digits(s);
    if digits.len() > 0 && all_digits(digits) && digits_value(digits) <= usize::MAX {
        Some(digits_value(digits))
    } else {
        None
    }
}

/// The start line of an `a,b` (or bare `a`) hunk range, and what follows it.
pub open spec fn range_start(range: Seq<char>) -> (Option<nat>, Seq<char>) {
    match split_once(range, ","@) {
        Some((start, count)) => (number(start), ","@ + count),
        None => (number(range), Seq::<char>::empty()),
    }
}

/// A start line, moved by `offset`. A start of 0, which unified diff uses for an empty side, is left alone:
/// there is no line 0 to move.
pub open spec fn moved(start: nat, offset: nat) -> nat {
    if start == 0 {
        0
    } else {
        start + offset
    }
}

/// A hunk range with its start line moved by `offset`, if it is a range.
pub open spec fn shifted_range(range: Seq<char>, offset: nat) -> Option<Seq<char>> {
    match range_start(range) {
        (Some(start), rest) => Some(text::decimal(moved(start, offset)) + rest),
        _ => None,
    }
}

/// The two ranges of a `@@ -a,b +c,d @@` header, and what follows them.
pub open spec fn header_parts(line: Seq<char>) -> Option<(Seq<char>, Seq<char>, Seq<char>)> {
    match strip_prefix(line, "@@ -"@) {
        Some(rest) => match split_once(rest, " +"@) {
            Some((old_range, rest)) => match split_once(rest, " @@"@) {
                Some((new_range, tail)) => Some((old_range, new_range, tail)),
                None => None,
            },
            None => None,
        },
        None => None,
    }
}

/// A header line with its line numbers moved by `offset`, if it is a header line.
pub open spec fn shifted_header(line: Seq<char>, offset: nat) -> Option<Seq<char>> {
    match header_parts(line) {
        Some((old_range, new_range, tail)) => match (
            shifted_range(old_range, offset),
            shifted_range(new_range, offset),
        ) {
            (Some(a), Some(b)) => Some("@@ -"@ + a + " +"@ + b + " @@"@ + tail),
            _ => None,
        },
        None => None,
    }
}

/// How long the first line of `s` is, with its newline.
pub open spec fn first_line_len(s: Seq<char>) -> int {
    match find_from(s, "\n"@, 0) {
        Some(i) => i + 1,
        None => s.len() as int,
    }
}

/// A pattern is found within the text.
pub proof fn lemma_find_from(s: Seq<char>, pattern: Seq<char>, i: int)
    ensures
        find_from(s, pattern, i) matches Some(k) ==> i <= k && k + pattern.len() <= s.len(),
    decreases s.len() + 1 - i,
{
    if 0 <= i && i + pattern.len() <= s.len() && s.subrange(i, i + pattern.len()) != pattern {
        lemma_find_from(s, pattern, i + 1);
    }
}

/// The first line of a text that is not empty has at least one character, and lies within the text.
pub proof fn lemma_first_line_len(s: Seq<char>)
    requires
        s.len() > 0,
    ensures
        0 < first_line_len(s) <= s.len(),
{
    reveal_strlit("\n");
    lemma_find_from(s, "\n"@, 0);
}

/// Whether moving the start line of a range by `offset` stays within a `usize`.
pub open spec fn range_fits(range: Seq<char>, offset: nat) -> bool {
    range_start(range).0 matches Some(start) ==> moved(start, offset) <= usize::MAX
}

/// Whether moving the line numbers of a line by `offset` stays within a `usize`.
pub open spec fn line_fits(line: Seq<char>, offset: nat) -> bool {
    header_parts(line) matches Some((old_range, new_range, _)) ==> {
        &&& range_fits(old_range, offset)
        &&& range_start(old_range).0 is Some ==> range_fits(new_range, offset)
    }
}

/// A line with its line numbers moved by `offset`, if it is a header.
pub open spec fn shown_line(line: Seq<char>, offset: nat) -> Seq<char> {
    match shifted_header(line, offset) {
        Some(header) => header,
        None => line,
    }
}

/// The lines of `diff` from `i` on, with the line numbers in every header moved by `offset`. Anything that is
/// not a header stays as it is.
pub open spec fn renumbered_from(diff: Seq<char>, i: int, offset: nat) -> Seq<char>
    decreases diff.len() - i,
{
    if i < 0 || i >= diff.len() {
        Seq::<char>::empty()
    } else {
        let n = first_line_len(diff.skip(i));
        proof {
            lemma_first_line_len(diff.skip(i));
        }
        shown_line(diff.subrange(i, i + n), offset) + renumbered_from(diff, i + n, offset)
    }
}

/// `diff` with the line numbers in every header moved by `offset`.
pub open spec fn renumbered(diff: Seq<char>, offset: nat) -> Seq<char> {
    if offset == 0 {
        diff
    } else {
        renumbered_from(diff, 0, offset)
    }
}

/// Whether moving the line numbers of the lines of `diff` from `i` on stays within a `usize`.
pub open spec fn lines_fit_from(diff: Seq<char>, i: int, offset: nat) -> bool
    decreases diff.len() - i,
{
    if i < 0 || i >= diff.len() {
        true
    } else {
        let n = first_line_len(diff.skip(i));
        proof {
            lemma_first_line_len(diff.skip(i));
        }
        line_fits(diff.subrange(i, i + n), offset) && lines_fit_from(diff, i + n, offset)
    }
}

/// Whether moving the line numbers of `diff` by `offset` stays within a `usize`.
pub open spec fn hunks_fit(diff: Seq<char>, offset: nat) -> bool {
    offset == 0 || lines_fit_from(diff, 0, offset)
}

/// The characters from `lo` to `hi`.
fn slice_chars(s: &Vec<char>, lo: usize, hi: usize) -> (r: Vec<char>)
    requires
        lo <= hi <= s@.len(),
    ensures
        r@ == s@.subrange(lo as int, hi as int),
{
    let mut r: Vec<char> = Vec::new();
    for i in lo..hi
        invariant
            lo <= hi <= s@.len(),
            r@ == s@.subrange(lo as int, i as int),
    {
        r.push(s[i]);
    }
    r
}

/// Whether `pattern` stands in `s` at `i`.
fn occurs_at(s: &Vec<char>, pattern: &Vec<char>, i: usize) -> (r: bool)
    requires
        i + pattern@.len() <= s@.len(),
    ensures
        r == (s@.subrange(i as int, i + pattern@.len()) == pattern@),
{
    let n = s.len();
    for j in 0..pattern.len()
        invariant
            n == s@.len(),
            i + pattern@.len() <= s@.len(),
            forall|k: int| 0 <= k < j ==> s@[i + k] == pattern@[k],
    {
        if s[i + j] != pattern[j] {
            assert(s@.subrange(i as int, i + pattern@.len())[j as int] != pattern@[j as int]);
            return false;
        }
    }
    assert(s@.subrange(i as int, i + pattern@.len()) =~= pattern@);
    true
}

/// The first place from `from` on where `pattern` occurs in `s`.
fn find(s: &Vec<char>, pattern: &str, from: usize) -> (r: Option<usize>)
    ensures
        match r {
            Some(i) => find_from(s@, pattern@, from as int) == Some(i as int) && from <= i && i + pattern@.len()
                <= s@.len(),
            None => find_from(s@, pattern@, from as int) is None,
        },
{
    let wanted = chars_of(pattern);
    let mut i: usize = from;
    while i <= s.len() && wanted.len() <= s.len() - i
        invariant
            from <= i,
            wanted@ == pattern@,
            find_from(s@, pattern@, from as int) == find_from(s@, pattern@, i as int),
        decreases s@.len() + 1 - i,
    {
        if occurs_at(s, &wanted, i) {
            return Some(i);
        }
        if i == s.len() {
            assert(find_from(s@, pattern@, i + 1) is None);
            return None;
        }
        i = i + 1;
    }
    None
}

/// What stands before the first occurrence of `pattern` in `s`, and what stands after it.
fn split_at_pattern(s: &Vec<char>, pattern: &str) -> (r: Option<(Vec<char>, Vec<char>)>)
    ensures
        match r {
            Some((before, after)) => split_once(s@, pattern@) == Some((before@, after@)),
            None => split_once(s@, pattern@) is None,
        },
{
    match find(s, pattern, 0) {
        Some(i) => {
            let n = chars_of(pattern).len();
            let end = s.len();
            let before = slice_chars(s, 0, i);
            let after = slice_chars(s, i + n, end);
            assert(before@ =~= s@.take(i as int));
            assert(after@ =~= s@.skip(i + n));
            Some((before, after))
        },
        None => None,
    }
}

/// More digits make a number that is at least as large.
proof fn lemma_digits_value_grows(s: Seq<char>, i: int)
    requires
        0 <= i <= s.len(),
    ensures
        digits_value(s.take(i)) <= digits_value(s),
    decreases s.len() - i,
{
    if i == s.len() {
        assert(s.take(i) =~= s);
    } else {
        lemma_digits_value_grows(s.drop_last(), i);
        assert(s.drop_last().take(i) =~= s.take(i));
    }
}

/// The number that `s` is, if it is one and fits in a `usize`.
fn parse_number(s: &Vec<char>) -> (r: Option<usize>)
    ensures
        match r {
            Some(n) => number(s@) == Some(n as nat),
            None => number(s@) is None,
        },
{
    let start: usize = if s.len() > 0 && s[0] == '+' {
        1
    } else {
        0
    };
    let digits = slice_chars(s, start, s.len());
    assert(digits@ =~= unsigned_digits(s@));
    if digits.len() == 0 {
        return None;
    }
    let mut n: usize = 0;
    for i in 0..digits.len()
        invariant
            digits@ == unsigned_digits(s@),
            n == digits_value(digits@.take(i as int)),
            forall|j: int| 0 <= j < i ==> is_digit(#[trigger] digits@[j]),
    {
        let c = digits[i];
        if !('0' <= c && c <= '9') {
            assert(!is_digit(digits@[i as int]));
            return None;
        }
        let d: usize = (c as u32 - '0' as u32) as usize;
        proof {
            assert(digits@.take(i + 1).drop_last() =~= digits@.take(i as int));
            lemma_digits_value_grows(digits@, i + 1);
        }
        if n > usize::MAX / 10 || n * 10 > usize::MAX - d {
            return None;
        }
        n = n * 10 + d;
    }
    assert(digits@.take(digits@.len() as int) =~= digits@);
    Some(n)
}

/// The start line of a range, and what follows it.
fn parse_range(range: &Vec<char>) -> (r: (Option<usize>, Vec<char>))
    ensures
        range_start(range@) == (
            match r.0 {
                Some(start) => Some(start as nat),
                None => None,
            },
            r.1@,
        ),
{
    match split_at_pattern(range, ",") {
        Some((start, count)) => {
            let mut rest = chars_of(",");
            let mut count = count;
            rest.append(&mut count);
            (parse_number(&start), rest)
        },
        None => (parse_number(range), Vec::new()),
    }
}

/// Add `offset` to the start line of an `a,b` (or bare `a`) hunk range.
///
/// A start of 0, which unified diff uses for an empty side, is left alone: there is no line 0 to move.
fn shift_hunk_range(range: &Vec<char>, offset: usize) -> (r: Option<String>)
    requires
        range_fits(range@, offset as nat),
    ensures
        match r {
            Some(s) => shifted_range(range@, offset as nat) == Some(s@),
            None => shifted_range(range@, offset as nat) is None,
        },
{
    let (start, rest) = parse_range(range);
    match start {
        Some(start) => {
            let start: usize = if start == 0 {
                0
            } else {
                start + offset
            };
            let mut s = String::new();
            push_decimal(&mut s, start);
            s.push_str(string_of(&rest).as_str());
            assert(s@ =~= text::decimal(start as nat) + rest@);
            Some(s)
        },
        None => None,
    }
}

/// The two ranges of a `@@ -a,b +c,d @@` header, and what follows them.
fn parse_header(line: &Vec<char>) -> (r: Option<(Vec<char>, Vec<char>, Vec<char>)>)
    ensures
        match r {
            Some((a, b, tail)) => header_parts(line@) == Some((a@, b@, tail@)),
            None => header_parts(line@) is None,
        },
{
    let prefix = chars_of("@@ -");
    if line.len() < prefix.len() || !occurs_at(line, &prefix, 0) {
        assert(line@.len() >= prefix@.len() ==> line@.take(prefix@.len() as int) =~= line@.subrange(
            0,
            prefix@.len() as int,
        ));
        return None;
    }
    let rest = slice_chars(line, prefix.len(), line.len());
    assert(line@.take(prefix@.len() as int) =~= line@.subrange(0, prefix@.len() as int));
    assert(rest@ =~= line@.skip(prefix@.len() as int));
    match split_at_pattern(&rest, " +") {
        Some((a, rest)) => match split_at_pattern(&rest, " @@") {
            Some((b, tail)) => Some((a, b, tail)),
            None => None,
        },
        None => None,
    }
}

/// Rewrite one `@@ -a,b +c,d @@` header, or `None` if `line` isn't one.
fn renumber_hunk_header(line: &Vec<char>, offset: usize) -> (r: Option<String>)
    requires
        line_fits(line@, offset as nat),
    ensures
        match r {
            Some(s) => shifted_header(line@, offset as nat) == Some(s@),
            None => shifted_header(line@, offset as nat) is None,
        },
{
    match parse_header(line) {
        Some((old_range, new_range, tail)) => {
            let a = match shift_hunk_range(&old_range, offset) {
                Some(a) => a,
                None => return None,
            };
            let b = match shift_hunk_range(&new_range, offset) {
                Some(b) => b,
                None => return None,
            };
            let mut s = "@@ -".to_owned();
            s.push_str(a.as_str());
            s.push_str(" +");
            s.push_str(b.as_str());
            s.push_str(" @@");
            s.push_str(string_of(&tail).as_str());
            Some(s)
        },
        None => None,
    }
}

/// The end of the line that starts at `i`, behind its newline.
fn line_end(s: &Vec<char>, i: usize) -> (r: usize)
    requires
        i < s@.len(),
    ensures
        i < r <= s@.len(),
        r == i + first_line_len(s@.skip(i as int)),
{
    proof {
        reveal_strlit("\n");
    }
    let mut j: usize = i;
    let ghost rest = s@.skip(i as int);
    while j < s.len()
        invariant
            i <= j <= s@.len(),
            i < s@.len(),
            rest == s@.skip(i as int),
            "\n"@.len() == 1,
            "\n"@[0] == '\n',
            find_from(rest, "\n"@, 0) == find_from(rest, "\n"@, j - i),
        decreases s@.len() - j,
    {
        proof {
            assert(rest.subrange(j - i, j - i + 1) =~= seq![s@[j as int]]);
            assert("\n"@ =~= seq!['\n']);
            assert(seq![s@[j as int]][0] == s@[j as int]);
            assert(seq!['\n'][0] == '\n');
        }
        if s[j] == '\n' {
            return j + 1;
        }
        j = j + 1;
    }
    j
}

/// Shift the line numbers in every `@@ -a,b +c,d @@` header by `offset`.
///
/// The diff was computed over a window of the file, so its hunks are numbered from the start of that window.
/// This restores the numbering that a whole-file diff would have produced. Anything that doesn't parse as a
/// hunk header is passed through untouched, so a body line that happens to start with `@@ -` cannot be
/// corrupted into something else.
pub fn renumber_hunks(diff: &str, offset: usize) -> (r: String)
    requires
        hunks_fit(diff@, offset as nat),
    ensures
        r@ == renumbered(diff@, offset as nat),
{
    if offset == 0 {
        return diff.to_owned();
    }
    let chars = chars_of(diff);
    let mut out = String::new();
    let mut i: usize = 0;
    while i < chars.len()
        invariant
            i <= chars@.len(),
            chars@ == diff@,
            lines_fit_from(diff@, i as int, offset as nat),
            out@ + renumbered_from(diff@, i as int, offset as nat) == renumbered_from(diff@, 0, offset as nat),
        decreases chars@.len() - i,
    {
        let end = line_end(&chars, i);
        let line = slice_chars(&chars, i, end);
        let ghost before = out@;
        match renumber_hunk_header(&line, offset) {
            Some(header) => out.push_str(header.as_str()),
            None => out.push_str(string_of(&line).as_str()),
        }
        assert(out@ + renumbered_from(diff@, end as int, offset as nat) =~= before + renumbered_from(
            diff@,
            i as int,
            offset as nat,
        ));
        i = end;
    }
    assert(out@ =~= out@ + renumbered_from(diff@, i as int, offset as nat));
    out
}

/// Whether moving the start line of a range by `offset` stays within a `usize`.
fn range_can_move(range: &Vec<char>, offset: usize) -> (r: (bool, bool))
    ensures
        r.0 == range_fits(range@, offset as nat),
        r.1 == range_start(range@).0 is Some,
{
    let (start, _) = parse_range(range);
    match start {
        Some(start) => (start == 0 || start <= usize::MAX - offset, true),
        None => (true, false),
    }
}

/// Whether moving the line numbers of `diff` by `offset` stays within a `usize`.
pub fn hunks_can_move(diff: &str, offset: usize) -> (r: bool)
    ensures
        r == hunks_fit(diff@, offset as nat),
{
    if offset == 0 {
        return true;
    }
    let chars = chars_of(diff);
    let mut i: usize = 0;
    while i < chars.len()
        invariant
            i <= chars@.len(),
            chars@ == diff@,
            lines_fit_from(diff@, i as int, offset as nat) == lines_fit_from(diff@, 0, offset as nat),
            offset != 0,
        decreases chars@.len() - i,
    {
        let end = line_end(&chars, i);
        let line = slice_chars(&chars, i, end);
        match parse_header(&line) {
            Some((a, b, _)) => {
                let (a_fits, a_parses) = range_can_move(&a, offset);
                let (b_fits, _) = range_can_move(&b, offset);
                if !a_fits || (a_parses && !b_fits) {
                    return false;
                }
            },
            None => {},
        }
        i = end;
    }
    true
}

/// A text that is put together around a pattern is split there, if the pattern does not start before.
proof fn lemma_split_at(before: Seq<char>, pattern: Seq<char>, after: Seq<char>)
    requires
        pattern.len() > 0,
        !before.contains(pattern[0]),
    ensures
        split_once(before + pattern + after, pattern) == Some((before, after)),
{
    let s = before + pattern + after;
    let at = before.len() as int;
    assert forall|k: int| 0 <= k < at implies #[trigger] s[k] != pattern[0] by {
        assert(s[k] == before[k]);
    }
    assert(s.subrange(at, at + pattern.len()) =~= pattern);
    lemma_found_at(s, pattern, at, 0);
    assert(s.take(at) =~= before);
    assert(s.skip(at + pattern.len()) =~= after);
}

/// A pattern is found at the first place where it stands.
proof fn lemma_found_at(s: Seq<char>, pattern: Seq<char>, at: int, i: int)
    requires
        pattern.len() > 0,
        0 <= i <= at,
        at + pattern.len() <= s.len(),
        s.subrange(at, at + pattern.len()) == pattern,
        forall|k: int| 0 <= k < at ==> #[trigger] s[k] != pattern[0],
    ensures
        find_from(s, pattern, i) == Some(at),
    decreases at - i,
{
    if i < at {
        let here = s.subrange(i, i + pattern.len());
        assert(here[0] == s[i]);
        lemma_found_at(s, pattern, at, i + 1);
    }
}

/// A number in decimal is made of digits, and reads as that number.
proof fn lemma_decimal_reads_back(n: nat)
    ensures
        text::decimal(n).len() > 0,
        all_digits(text::decimal(n)),
        digits_value(text::decimal(n)) == n,
    decreases n,
{
    let s = text::decimal(n);
    if n < 10 {
        assert(s.drop_last() =~= Seq::<char>::empty());
        assert(digits_value(Seq::<char>::empty()) == 0);
        assert(s.last() == text::digit(n));
    } else {
        lemma_decimal_reads_back(n / 10);
        assert(s.drop_last() =~= text::decimal(n / 10));
        assert(s.last() == text::digit(n % 10));
        assert forall|i: int| 0 <= i < s.len() implies is_digit(#[trigger] s[i]) by {
            if i < s.len() - 1 {
                assert(is_digit(text::decimal(n / 10)[i]));
            }
        }
    }
}

/// A number in decimal is read as that number, if it fits.
pub proof fn decimal_numbers_read_back(n: nat)
    requires
        n <= usize::MAX,
    ensures
        number(text::decimal(n)) == Some(n),
{
    lemma_decimal_reads_back(n);
    let s = text::decimal(n);
    assert(is_digit(s[0]));
    assert(unsigned_digits(s) == s);
}

/// A hunk range: its start line and how many lines it has.
pub open spec fn range_text(start: nat, count: nat) -> Seq<char> {
    text::decimal(start) + ","@ + text::decimal(count)
}

/// A hunk header, with what follows it.
pub open spec fn header_text(a: nat, b: nat, c: nat, d: nat, tail: Seq<char>) -> Seq<char> {
    "@@ -"@ + range_text(a, b) + " +"@ + range_text(c, d) + " @@"@ + tail
}

/// Nothing but digits and a comma is in a range.
pub(crate) proof fn lemma_range_has_no_other(start: nat, count: nat, c: char)
    requires
        !is_digit(c),
        c != ',',
    ensures
        !range_text(start, count).contains(c),
{
    reveal_strlit(",");
    lemma_decimal_reads_back(start);
    lemma_decimal_reads_back(count);
    let s = range_text(start, count);
    let first = text::decimal(start);
    if s.contains(c) {
        let i = choose|i: int| 0 <= i < s.len() && s[i] == c;
        if i < first.len() {
            assert(is_digit(first[i]));
        } else if i > first.len() {
            assert(is_digit(text::decimal(count)[i - first.len() - 1]));
        }
    }
}

proof fn lemma_range_moves(start: nat, count: nat, offset: nat)
    requires
        start <= usize::MAX,
    ensures
        shifted_range(range_text(start, count), offset) == Some(range_text(moved(start, offset), count)),
{
    reveal_strlit(",");
    lemma_decimal_reads_back(start);
    decimal_numbers_read_back(start);
    let first = text::decimal(start);
    assert(!first.contains(','));
    lemma_split_at(first, ","@, text::decimal(count));
    assert(text::decimal(moved(start, offset)) + (","@ + text::decimal(count)) =~= range_text(
        moved(start, offset),
        count,
    ));
}

/// The ranges in a header are what it was made of, and start at their line numbers.
pub(crate) proof fn lemma_header_text_parts(a: nat, b: nat, c: nat, d: nat, tail: Seq<char>)
    requires
        a <= usize::MAX,
        c <= usize::MAX,
    ensures
        header_parts(header_text(a, b, c, d, tail)) == Some((range_text(a, b), range_text(c, d), tail)),
        range_start(range_text(a, b)).0 == Some(a),
        range_start(range_text(c, d)).0 == Some(c),
{
    reveal_strlit("@@ -");
    reveal_strlit(" +");
    reveal_strlit(" @@");
    let line = header_text(a, b, c, d, tail);
    let old_range = range_text(a, b);
    let new_range = range_text(c, d);
    let rest = old_range + " +"@ + (new_range + " @@"@ + tail);
    assert(line =~= "@@ -"@ + rest);
    assert(line.take(4) =~= "@@ -"@);
    assert(line.skip(4) =~= rest);
    lemma_range_has_no_other(a, b, ' ');
    lemma_split_at(old_range, " +"@, new_range + " @@"@ + tail);
    lemma_range_has_no_other(c, d, ' ');
    lemma_split_at(new_range, " @@"@, tail);
    lemma_range_reads_back(a, b);
    lemma_range_reads_back(c, d);
}

/// A range starts at its line number.
proof fn lemma_range_reads_back(start: nat, count: nat)
    requires
        start <= usize::MAX,
    ensures
        range_start(range_text(start, count)).0 == Some(start),
{
    reveal_strlit(",");
    lemma_decimal_reads_back(start);
    decimal_numbers_read_back(start);
    lemma_decimal_has_no_other(start, ',');
    lemma_split_at(text::decimal(start), ","@, text::decimal(count));
}

/// The two line numbers in the header of a hunk move, and nothing else in it changes.
pub proof fn headers_move(a: nat, b: nat, c: nat, d: nat, tail: Seq<char>, offset: nat)
    requires
        a <= usize::MAX,
        c <= usize::MAX,
    ensures
        shifted_header(header_text(a, b, c, d, tail), offset) == Some(
            header_text(moved(a, offset), b, moved(c, offset), d, tail),
        ),
{
    lemma_header_text_parts(a, b, c, d, tail);
    lemma_range_moves(a, b, offset);
    lemma_range_moves(c, d, offset);
}

/// A pattern is found behind a text that its first character does not occur in, where it is found in what follows.
proof fn lemma_find_behind(x: Seq<char>, s: Seq<char>, pattern: Seq<char>, i: int)
    requires
        pattern.len() > 0,
        !x.contains(pattern[0]),
        0 <= i,
    ensures
        i <= x.len() ==> find_from(x + s, pattern, i) == (match find_from(s, pattern, 0) {
            Some(k) => Some(x.len() + k),
            None => None,
        }),
        i >= x.len() ==> find_from(x + s, pattern, i) == (match find_from(s, pattern, i - x.len()) {
            Some(k) => Some(x.len() + k),
            None => None,
        }),
    decreases x.len() + s.len() + 1 - i,
{
    let whole = x + s;
    if i + pattern.len() <= whole.len() {
        let here = whole.subrange(i, i + pattern.len());
        if i < x.len() {
            assert(here[0] == x[i]);
            assert(x.contains(x[i]));
            assert(here != pattern);
            lemma_find_behind(x, s, pattern, i + 1);
        } else {
            assert(here =~= s.subrange(i - x.len(), i - x.len() + pattern.len()));
            if here != pattern {
                lemma_find_behind(x, s, pattern, i + 1);
            }
        }
    } else if i < x.len() {
        assert(find_from(s, pattern, 0) is None);
    }
}

/// What a number is written with.
proof fn lemma_number_has_no_other(s: Seq<char>, c: char)
    requires
        number(s) is Some,
        !is_digit(c),
        c != '+',
    ensures
        !s.contains(c),
{
    let digits = unsigned_digits(s);
    if s.contains(c) {
        let i = choose|i: int| 0 <= i < s.len() && s[i] == c;
        if s[0] == '+' {
            assert(i > 0);
            assert(digits[i - 1] == c);
        } else {
            assert(digits[i] == c);
        }
    }
}

/// A decimal number is written with digits only.
proof fn lemma_decimal_has_no_other(n: nat, c: char)
    requires
        !is_digit(c),
    ensures
        !text::decimal(n).contains(c),
{
    lemma_decimal_reads_back(n);
    let s = text::decimal(n);
    if s.contains(c) {
        let i = choose|i: int| 0 <= i < s.len() && s[i] == c;
        assert(is_digit(s[i]));
    }
}

/// A range is its start line, as it is written, and what follows it.
proof fn lemma_range_start(range: Seq<char>) -> (start: Seq<char>)
    requires
        range_start(range).0 is Some,
    ensures
        range == start + range_start(range).1,
        number(start) == range_start(range).0,
        number(start) is Some,
{
    reveal_strlit(",");
    lemma_find_from(range, ","@, 0);
    lemma_found(range, ","@, 0);
    match find_from(range, ","@, 0) {
        Some(i) => {
            assert(range =~= range.take(i) + (","@ + range.skip(i + 1)));
            range.take(i)
        },
        None => {
            assert(range =~= range + Seq::<char>::empty());
            range
        },
    }
}

/// Where a pattern is found, it stands.
proof fn lemma_found(s: Seq<char>, pattern: Seq<char>, i: int)
    ensures
        find_from(s, pattern, i) matches Some(k) ==> s.subrange(k, k + pattern.len()) == pattern,
    decreases s.len() + 1 - i,
{
    if 0 <= i && i + pattern.len() <= s.len() && s.subrange(i, i + pattern.len()) != pattern {
        lemma_found(s, pattern, i + 1);
    }
}

/// A range whose start line moved starts at the moved line, and is followed by the same.
proof fn lemma_shifted_range_start(range: Seq<char>, offset: nat)
    requires
        range_start(range).0 is Some,
        moved(range_start(range).0->0, offset) <= usize::MAX,
    ensures
        range_start(shifted_range(range, offset)->0) == (
            Some(moved(range_start(range).0->0, offset)),
            range_start(range).1,
        ),
{
    reveal_strlit(",");
    let n = moved(range_start(range).0->0, offset);
    let rest = range_start(range).1;
    let shifted = text::decimal(n) + rest;
    decimal_numbers_read_back(n);
    lemma_decimal_has_no_other(n, ',');
    match split_once(range, ","@) {
        Some((_, count)) => {
            assert(shifted =~= text::decimal(n) + ","@ + count);
            lemma_split_at(text::decimal(n), ","@, count);
        },
        None => {
            assert(shifted =~= text::decimal(n));
            lemma_find_behind(text::decimal(n), Seq::empty(), ","@, 0);
            assert(text::decimal(n) + Seq::<char>::empty() =~= text::decimal(n));
        },
    }
}

/// What a header is made of.
proof fn lemma_header_parts(line: Seq<char>)
    requires
        header_parts(line) is Some,
    ensures
        ({
            let (old_range, new_range, tail) = header_parts(line)->0;
            &&& line == "@@ -"@ + (old_range + (" +"@ + (new_range + (" @@"@ + tail))))
            &&& find_from(old_range + (" +"@ + (new_range + (" @@"@ + tail))), " +"@, 0) == Some(old_range.len() as int)
            &&& find_from(new_range + (" @@"@ + tail), " @@"@, 0) == Some(new_range.len() as int)
        }),
{
    reveal_strlit("@@ -");
    reveal_strlit(" +");
    reveal_strlit(" @@");
    let rest = line.skip(4);
    assert(line =~= "@@ -"@ + rest);
    lemma_find_from(rest, " +"@, 0);
    lemma_found(rest, " +"@, 0);
    let i = find_from(rest, " +"@, 0)->0;
    let behind = rest.skip(i + 2);
    assert(rest =~= rest.take(i) + (" +"@ + behind)) by {
        assert(rest.subrange(i, i + 2) == " +"@);
        assert(rest =~= rest.take(i) + rest.subrange(i, i + 2) + behind);
    }
    lemma_find_from(behind, " @@"@, 0);
    lemma_found(behind, " @@"@, 0);
    let j = find_from(behind, " @@"@, 0)->0;
    assert(behind =~= behind.take(j) + (" @@"@ + behind.skip(j + 3))) by {
        assert(behind.subrange(j, j + 3) == " @@"@);
        assert(behind =~= behind.take(j) + behind.subrange(j, j + 3) + behind.skip(j + 3));
    }
}

/// Two ranges put into a header are read back from it, if the patterns around them do not come earlier.
proof fn lemma_header_of(old_range: Seq<char>, new_range: Seq<char>, tail: Seq<char>)
    requires
        find_from(old_range + (" +"@ + (new_range + (" @@"@ + tail))), " +"@, 0) == Some(old_range.len() as int),
        find_from(new_range + (" @@"@ + tail), " @@"@, 0) == Some(new_range.len() as int),
    ensures
        header_parts("@@ -"@ + (old_range + (" +"@ + (new_range + (" @@"@ + tail))))) == Some(
            (old_range, new_range, tail),
        ),
{
    reveal_strlit("@@ -");
    reveal_strlit(" +");
    reveal_strlit(" @@");
    let behind = new_range + (" @@"@ + tail);
    let rest = old_range + (" +"@ + behind);
    let line = "@@ -"@ + rest;
    assert(line.take(4) =~= "@@ -"@);
    assert(line.skip(4) =~= rest);
    assert(rest.take(old_range.len() as int) =~= old_range);
    assert(rest.skip(old_range.len() as int + 2) =~= behind);
    assert(behind.take(new_range.len() as int) =~= new_range);
    assert(behind.skip(new_range.len() as int + 3) =~= tail);
}

/// Another start line before what follows a range does not bring a pattern that starts with a space any earlier.
proof fn lemma_find_behind_start(range: Seq<char>, other: Seq<char>, behind: Seq<char>, pattern: Seq<char>)
    requires
        range_start(range).0 is Some,
        pattern.len() > 0,
        pattern[0] == ' ',
        !other.contains(' '),
        find_from(range + behind, pattern, 0) == Some(range.len() as int),
    ensures
        find_from((other + range_start(range).1) + behind, pattern, 0) == Some((other + range_start(range).1).len() as int),
{
    let start = lemma_range_start(range);
    let rest = range_start(range).1;
    lemma_number_has_no_other(start, ' ');
    assert(range + behind =~= start + (rest + behind));
    assert((other + rest) + behind =~= other + (rest + behind));
    lemma_find_behind(start, rest + behind, pattern, 0);
    lemma_find_behind(other, rest + behind, pattern, 0);
}

/// A moved header has the moved ranges, and the same behind them.
proof fn lemma_shifted_header_parts(line: Seq<char>, offset: nat)
    requires
        shifted_header(line, offset) is Some,
    ensures
        ({
            let (old_range, new_range, tail) = header_parts(line)->0;
            header_parts(shifted_header(line, offset)->0) == Some(
                (shifted_range(old_range, offset)->0, shifted_range(new_range, offset)->0, tail),
            )
        }),
{
    reveal_strlit(" +");
    reveal_strlit(" @@");
    let (old_range, new_range, tail) = header_parts(line)->0;
    lemma_header_parts(line);
    let a = shifted_range(old_range, offset)->0;
    let b = shifted_range(new_range, offset)->0;
    let old_line = moved(range_start(old_range).0->0, offset);
    let new_line = moved(range_start(new_range).0->0, offset);
    lemma_decimal_has_no_other(old_line, ' ');
    lemma_decimal_has_no_other(new_line, ' ');
    lemma_find_behind_start(new_range, text::decimal(new_line), " @@"@ + tail, " @@"@);
    lemma_find_behind_start(old_range, text::decimal(old_line), " +"@ + (new_range + (" @@"@ + tail)), " +"@);
    lemma_find_ignores_later(a, " +"@, new_range + (" @@"@ + tail), b + (" @@"@ + tail));
    lemma_header_of(a, b, tail);
    assert(shifted_header(line, offset)->0 =~= "@@ -"@ + (a + (" +"@ + (b + (" @@"@ + tail)))));
}

/// What stands behind the first occurrence of a pattern does not matter for where it is found.
proof fn lemma_find_ignores_later(x: Seq<char>, pattern: Seq<char>, after: Seq<char>, other: Seq<char>)
    requires
        pattern.len() > 0,
        find_from(x + (pattern + after), pattern, 0) == Some(x.len() as int),
    ensures
        find_from(x + (pattern + other), pattern, 0) == Some(x.len() as int),
{
    lemma_find_ignores_later_from(x, pattern, after, other, 0);
}

proof fn lemma_find_ignores_later_from(
    x: Seq<char>,
    pattern: Seq<char>,
    after: Seq<char>,
    other: Seq<char>,
    i: int,
)
    requires
        pattern.len() > 0,
        0 <= i <= x.len(),
        find_from(x + (pattern + after), pattern, i) == Some(x.len() as int),
    ensures
        find_from(x + (pattern + other), pattern, i) == Some(x.len() as int),
    decreases x.len() - i,
{
    let s = x + (pattern + after);
    let t = x + (pattern + other);
    assert(s.subrange(i, i + pattern.len()) =~= t.subrange(i, i + pattern.len()));
    if i < x.len() {
        assert(s.subrange(i, i + pattern.len()) != pattern);
        lemma_find_ignores_later_from(x, pattern, after, other, i + 1);
    } else {
        assert(t.subrange(i, i + pattern.len()) =~= pattern);
    }
}

/// Moving the line numbers of a line twice moves them by the sum.
proof fn lemma_line_moves_twice(line: Seq<char>, first: nat, second: nat)
    requires
        line_fits(line, first + second),
    ensures
        shown_line(shown_line(line, first), second) == shown_line(line, first + second),
{
    match header_parts(line) {
        Some((old_range, new_range, tail)) => {
            if shifted_header(line, first) is Some {
                lemma_shifted_header_parts(line, first);
                lemma_shifted_range_start(old_range, first);
                lemma_shifted_range_start(new_range, first);
                let a = range_start(old_range).0->0;
                let c = range_start(new_range).0->0;
                assert(moved(moved(a, first), second) == moved(a, first + second));
                assert(moved(moved(c, first), second) == moved(c, first + second));
            }
        },
        None => {},
    }
}

/// That a text is one line: a newline stands only at its end.
pub open spec fn is_one_line(s: Seq<char>) -> bool {
    s.len() > 0 && forall|i: int| 0 <= i < s.len() - 1 ==> s[i] != '\n'
}

/// A line stays one line when its line numbers move, and keeps its newline.
proof fn lemma_shown_is_one_line(line: Seq<char>, offset: nat)
    requires
        is_one_line(line),
    ensures
        is_one_line(shown_line(line, offset)),
        shown_line(line, offset).last() == line.last() || (line.last() != '\n' && shown_line(line, offset).last() != '\n'),
{
    if shifted_header(line, offset) is Some {
        reveal_strlit("@@ -");
        reveal_strlit(" +");
        reveal_strlit(" @@");
        let (old_range, new_range, tail) = header_parts(line)->0;
        lemma_header_parts(line);
        let s0 = lemma_range_start(old_range);
        let s1 = lemma_range_start(new_range);
        let rest0 = range_start(old_range).1;
        let rest1 = range_start(new_range).1;
        let d0 = text::decimal(moved(range_start(old_range).0->0, offset));
        let d1 = text::decimal(moved(range_start(new_range).0->0, offset));
        lemma_decimal_has_no_other(moved(range_start(old_range).0->0, offset), '\n');
        lemma_decimal_has_no_other(moved(range_start(new_range).0->0, offset), '\n');
        let shown = shifted_header(line, offset)->0;
        let front = "@@ -"@ + (d0 + rest0) + " +"@ + (d1 + rest1) + " @@"@;
        assert(shown =~= front + tail);
        let old_front = "@@ -"@ + (s0 + rest0) + " +"@ + (s1 + rest1) + " @@"@;
        assert(line =~= old_front + tail);
        assert forall|i: int| 0 <= i < rest0.len() implies rest0[i] != '\n' by {
            assert(line[4 + s0.len() + i] == rest0[i]);
        }
        assert forall|i: int| 0 <= i < rest1.len() implies rest1[i] != '\n' by {
            assert(line[4 + s0.len() + rest0.len() + 2 + s1.len() + i] == rest1[i]);
        }
        lemma_no_newline_in(seq!["@@ -"@, d0, rest0, " +"@, d1, rest1, " @@"@], front);
        assert forall|i: int| 0 <= i < shown.len() - 1 implies shown[i] != '\n' by {
            if i < front.len() {
                assert(shown[i] == front[i]);
            } else {
                assert(shown[i] == tail[i - front.len()]);
                assert(line[i - front.len() + old_front.len()] == shown[i]);
            }
        }
        if tail.len() > 0 {
            assert(shown.last() == tail.last());
            assert(line.last() == tail.last());
        } else {
            assert(shown.last() == '@');
            assert(line.last() == '@');
        }
    }
}

/// A text that is put together from seven texts without a newline has none.
proof fn lemma_no_newline_in(parts: Seq<Seq<char>>, whole: Seq<char>)
    requires
        parts.len() == 7,
        forall|k: int, i: int| 0 <= k < 7 && 0 <= i < parts[k].len() ==> #[trigger] parts[k][i] != '\n',
        whole == parts[0] + (parts[1] + parts[2]) + parts[3] + (parts[4] + parts[5]) + parts[6],
    ensures
        forall|i: int| 0 <= i < whole.len() ==> whole[i] != '\n',
{
}

/// The first line of a text that starts with a line.
pub(crate) proof fn lemma_first_line_of(line: Seq<char>, rest: Seq<char>)
    requires
        is_one_line(line),
        line.last() == '\n' || rest.len() == 0,
    ensures
        first_line_len(line + rest) == line.len(),
{
    reveal_strlit("\n");
    let s = line + rest;
    if line.last() == '\n' {
        let at = line.len() - 1;
        assert(s.subrange(at, at + 1) =~= "\n"@);
        assert forall|k: int| 0 <= k < at implies #[trigger] s[k] != '\n' by {
            assert(s[k] == line[k]);
        }
        lemma_found_at(s, "\n"@, at, 0);
    } else {
        assert(s =~= line);
        lemma_find_from(s, "\n"@, 0);
        lemma_found(s, "\n"@, 0);
        if find_from(s, "\n"@, 0) is Some {
            let k = find_from(s, "\n"@, 0)->0;
            assert(s.subrange(k, k + 1)[0] == s[k]);
            assert(s[k] == '\n');
        }
    }
}

/// The first line of a text is one line, and nothing follows it unless it ends with a newline.
pub(crate) proof fn lemma_first_line_is_one(s: Seq<char>)
    requires
        s.len() > 0,
    ensures
        is_one_line(s.take(first_line_len(s))),
        s.take(first_line_len(s)).last() == '\n' || first_line_len(s) == s.len(),
{
    reveal_strlit("\n");
    lemma_first_line_len(s);
    lemma_find_from(s, "\n"@, 0);
    lemma_found(s, "\n"@, 0);
    lemma_not_found_before(s, "\n"@, 0);
    let n = first_line_len(s);
    let line = s.take(n);
    match find_from(s, "\n"@, 0) {
        Some(k) => {
            assert(s.subrange(k, k + 1)[0] == s[k]);
            assert forall|i: int| 0 <= i < line.len() - 1 implies line[i] != '\n' by {
                assert(s.subrange(i, i + 1) != "\n"@);
                if s[i] == '\n' {
                    assert(s.subrange(i, i + 1) =~= "\n"@);
                }
            }
        },
        None => {
            assert forall|i: int| 0 <= i < line.len() - 1 implies line[i] != '\n' by {
                assert(s.subrange(i, i + 1) != "\n"@);
                if s[i] == '\n' {
                    assert(s.subrange(i, i + 1) =~= "\n"@);
                }
            }
        },
    }
}

/// A pattern does not stand before the place where it is found.
proof fn lemma_not_found_before(s: Seq<char>, pattern: Seq<char>, i: int)
    requires
        0 <= i,
    ensures
        forall|k: int|
            #![trigger s.subrange(k, k + pattern.len())]
            i <= k && k + pattern.len() <= s.len() && (find_from(s, pattern, i) matches Some(at) ==> k < at)
                ==> s.subrange(k, k + pattern.len()) != pattern,
    decreases s.len() + 1 - i,
{
    if i + pattern.len() <= s.len() && s.subrange(i, i + pattern.len()) != pattern {
        lemma_not_found_before(s, pattern, i + 1);
    }
}

/// Moving the lines from a position on is moving the rest of the text.
proof fn lemma_renumbered_skip(diff: Seq<char>, i: int, offset: nat)
    requires
        0 <= i <= diff.len(),
    ensures
        renumbered_from(diff, i, offset) == renumbered_from(diff.skip(i), 0, offset),
        lines_fit_from(diff, i, offset) == lines_fit_from(diff.skip(i), 0, offset),
    decreases diff.len() - i,
{
    let rest = diff.skip(i);
    if i < diff.len() {
        let n = first_line_len(rest);
        lemma_first_line_len(rest);
        assert(rest.skip(0) =~= rest);
        assert(diff.subrange(i, i + n) =~= rest.subrange(0, n));
        lemma_renumbered_skip(diff, i + n, offset);
        lemma_renumbered_skip(rest, n, offset);
        assert(diff.skip(i + n) =~= rest.skip(n));
    }
}

/// A text that starts with a line, moved.
pub(crate) proof fn lemma_renumbered_first(line: Seq<char>, rest: Seq<char>, offset: nat)
    requires
        is_one_line(line),
        line.last() == '\n' || rest.len() == 0,
    ensures
        renumbered_from(line + rest, 0, offset) == shown_line(line, offset) + renumbered_from(rest, 0, offset),
        lines_fit_from(line + rest, 0, offset) == (line_fits(line, offset) && lines_fit_from(rest, 0, offset)),
{
    let s = line + rest;
    lemma_first_line_of(line, rest);
    assert(s.skip(0) =~= s);
    assert(s.subrange(0, line.len() as int) =~= line);
    lemma_renumbered_skip(s, line.len() as int, offset);
    assert(s.skip(line.len() as int) =~= rest);
}

proof fn lemma_renumbered_twice(diff: Seq<char>, first: nat, second: nat)
    requires
        lines_fit_from(diff, 0, first + second),
    ensures
        renumbered_from(renumbered_from(diff, 0, first), 0, second) == renumbered_from(diff, 0, first + second),
    decreases diff.len(),
{
    if diff.len() > 0 {
        let n = first_line_len(diff);
        lemma_first_line_len(diff);
        lemma_first_line_is_one(diff);
        let line = diff.take(n);
        let rest = diff.skip(n);
        assert(diff =~= line + rest);
        lemma_renumbered_first(line, rest, first);
        lemma_renumbered_first(line, rest, first + second);
        lemma_renumbered_twice(rest, first, second);
        lemma_shown_is_one_line(line, first);
        lemma_line_moves_twice(line, first, second);
        lemma_renumbered_first(shown_line(line, first), renumbered_from(rest, 0, first), second);
    }
}

/// Moving the hunks of a diff by nothing changes nothing, and moving them twice moves them by the sum.
pub proof fn moving_a_diff_twice_adds_up(diff: Seq<char>, first: nat, second: nat)
    requires
        hunks_fit(diff, first + second),
    ensures
        renumbered(diff, 0) == diff,
        renumbered(renumbered(diff, first), second) == renumbered(diff, first + second),
{
    if first > 0 && second > 0 {
        lemma_renumbered_twice(diff, first, second);
    }
}

/// A line of a diff that does not start a hunk stays as it is, wherever the hunk is moved to.
pub proof fn other_lines_stay(line: Seq<char>, offset: nat)
    requires
        line.len() < 4 || line.take(4) != "@@ -"@,
    ensures
        shown_line(line, offset) == line,
{
    reveal_strlit("@@ -");
}

/// A diff is renumbered line by line: what is done to a line does not depend on what follows it.
pub proof fn lines_are_renumbered_one_by_one(line: Seq<char>, rest: Seq<char>, offset: nat)
    requires
        line.len() > 0,
        line.last() == '\n',
        forall|i: int| 0 <= i < line.len() - 1 ==> line[i] != '\n',
        offset > 0,
    ensures
        renumbered(line + rest, offset) == shown_line(line, offset) + renumbered(rest, offset),
{
    let diff = line + rest;
    let n = line.len() as int;
    reveal_strlit("\n");
    assert(diff.skip(0) =~= diff);
    lemma_newline_found(diff, 0, n - 1);
    assert(first_line_len(diff) == n);
    assert(diff.subrange(0, n) =~= line);
    assert(renumbered_from(diff, 0, offset) == shown_line(line, offset) + renumbered_from(diff, n, offset));
    assert(diff.skip(n) =~= rest);
    lemma_renumbered_tail(diff, rest, n, 0, offset);
}

proof fn lemma_newline_found(s: Seq<char>, i: int, k: int)
    requires
        0 <= i <= k < s.len(),
        s[k] == '\n',
        forall|j: int| 0 <= j < k ==> s[j] != '\n',
    ensures
        find_from(s, "\n"@, i) == Some(k),
    decreases k - i,
{
    reveal_strlit("\n");
    if i < k {
        assert(s.subrange(i, i + 1)[0] == s[i]);
        lemma_newline_found(s, i + 1, k);
    } else {
        assert(s.subrange(i, i + 1) =~= "\n"@);
    }
}

proof fn lemma_renumbered_tail(diff: Seq<char>, rest: Seq<char>, start: int, i: int, offset: nat)
    requires
        0 <= start,
        0 <= i <= rest.len(),
        diff.len() == start + rest.len(),
        diff.skip(start) == rest,
    ensures
        renumbered_from(diff, start + i, offset) == renumbered_from(rest, i, offset),
    decreases rest.len() - i,
{
    if i < rest.len() {
        assert(diff.skip(start + i) =~= rest.skip(i));
        let n = first_line_len(rest.skip(i));
        lemma_first_line_len(rest.skip(i));
        assert(diff.subrange(start + i, start + i + n) =~= rest.subrange(i, i + n)) by {
            assert forall|j: int| 0 <= j < n implies #[trigger] diff.subrange(start + i, start + i + n)[j] == rest.subrange(
                i,
                i + n,
            )[j] by {
                assert(diff.skip(start)[i + j] == rest[i + j]);
            }
        }
        lemma_renumbered_tail(diff, rest, start, i + n, offset);
    }
}

/// The first line of a range moves by exactly the offset, and the zero of an empty side stays.
pub proof fn first_lines_move_by_the_offset(start: nat, offset: nat)
    ensures
        start >= 1 ==> moved(start, offset) == start + offset,
        moved(0, offset) == 0,
{
}

} // verus!
