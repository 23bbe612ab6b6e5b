//! Locations (line and column) and the spans between them in source code.
//!
//! A location is given the way people read files: by line and by column. A text is edited by byte
//! offset. A [`LineIndex`] turns the one into the other.

use vstd::prelude::*;
use crate::text;
use crate::text::{push_decimal, split_text, text_bytes};

verus! {

/// A (line, column) position in a source file.
#[derive(Clone, Copy, PartialEq, Eq, Structural)]
pub struct LineColumn {
    /// 1-based line number.
    pub line: usize,
    /// 1-based column, measured in chars.
    pub column: usize,
}

/// A contiguous text span in a file.
#[derive(Clone, Copy, PartialEq, Eq, Structural)]
pub struct Span {
    /// The *inclusive* position where the span starts.
    pub start: LineColumn,
    /// The *exclusive* position where the span ends.
    pub end: LineColumn,
}

/// Byte offsets of the start of every line in a string.
///
/// Resolving a [`LineColumn`] to a byte offset otherwise requires scanning from the start of the
/// string. Callers that resolve many spans within one file build this once and share it.
pub struct LineIndex {
    /// Byte offset of the first character of each line, in order.
    line_starts: Vec<usize>,
}

/// The index, in characters, of the first character of each line of `s`, in order: the start of the
/// text, and whatever follows a newline.
pub open spec fn line_starts(s: Seq<char>) -> Seq<int>
    decreases s.len(),
{
    if s.len() == 0 {
        seq![0]
    } else if s.last() == '\n' {
        line_starts(s.drop_last()).push(s.len() as int)
    } else {
        line_starts(s.drop_last())
    }
}

/// The end, in characters, of the 0-based line `line` of `s`: the start of the next line, or the end of
/// the text.
pub open spec fn line_end(s: Seq<char>, line: int) -> int {
    if line + 1 < line_starts(s).len() {
        line_starts(s)[line + 1]
    } else {
        s.len() as int
    }
}

/// How many characters of `line` lie before `column`, which counts from 1. A `\r` shares the column of
/// the character that follows it, and a column beyond the end of the line counts as the end.
pub open spec fn chars_before_column(line: Seq<char>, column: int) -> int
    decreases line.len(),
{
    if line.len() == 0 || column <= 1 {
        0
    } else if line[0] == '\r' {
        1 + chars_before_column(line.drop_first(), column)
    } else {
        1 + chars_before_column(line.drop_first(), column - 1)
    }
}

impl LineColumn {
    /// The index, in characters, of the first character of `s` at or after this position.
    ///
    /// Line 0 is the start of the text, a position beyond the end of its line is the start of the next
    /// line, and one beyond the end of the text is that end.
    pub open spec fn char_index(self, s: Seq<char>) -> int {
        let line = self.line - 1;
        if line < 0 {
            0
        } else if line >= line_starts(s).len() {
            s.len() as int
        } else {
            let start = line_starts(s)[line];
            start + chars_before_column(s.subrange(start, line_end(s, line)), self.column as int)
        }
    }

    /// A position from a 1-based line and a 0-based column, as `proc_macro2` counts them.
    pub fn from_line_column0(line: usize, column0: usize) -> (r: LineColumn)
        requires
            column0 < usize::MAX,
        ensures
            r.line == line,
            r.column == column0 + 1,
    {
        LineColumn { line, column: column0 + 1 }
    }

    /// The concise form `LineColumn(line, column)`.
    pub fn to_debug_string(&self) -> (r: String)
        ensures
            r@ == "LineColumn("@ + text::decimal(self.line as nat) + ", "@ + text::decimal(self.column as nat) + ")"@,
    {
        let mut r = "LineColumn(".to_owned();
        push_decimal(&mut r, self.line);
        r.push_str(", ");
        push_decimal(&mut r, self.column);
        r.push_str(")");
        r
    }
}

/// That `starts` holds the byte offset of each line that starts in the first `k` characters of `s`, or
/// right behind them.
pub closed spec fn holds_line_starts(starts: Seq<usize>, s: Seq<char>, k: int) -> bool {
    let chars = line_starts(s.take(k));
    &&& starts.len() == chars.len()
    &&& forall|i: int|
        0 <= i < chars.len() ==> (#[trigger] starts[i]) == text::byte_len(s.take(chars[i]))
}

impl LineIndex {
    /// That this is the index of the text `s`: it holds the byte offset of each of its lines.
    pub closed spec fn indexes(self, s: Seq<char>) -> bool {
        holds_line_starts(self.line_starts@, s, s.len() as int)
    }

    /// The index of the text `s`.
    pub fn new(s: &str) -> (index: LineIndex)
        ensures
            index.indexes(s@),
    {
        let len = text_bytes(s);
        let mut starts: Vec<usize> = Vec::new();
        starts.push(0);
        let mut offset: usize = 0;
        proof {
            assert(s@.take(0) =~= Seq::<char>::empty());
        }
        for c in it: s.chars()
            invariant
                it.seq() == s@,
                len == text::byte_len(s@),
                offset == text::byte_len(s@.take(it.index() as int)),
                holds_line_starts(starts@, s@, it.index() as int),
        {
            let ghost k = it.index() as int;
            proof {
                assert(s@.take(k + 1).drop_last() =~= s@.take(k));
                assert(s@.take(k + 1) =~= s@.take(k).push(c));
                text::lemma_encode_push(s@.take(k), c);
                text::lemma_encode_concat(s@.take(k + 1), s@.skip(k + 1));
                assert(s@.take(k + 1) + s@.skip(k + 1) =~= s@);
            }
            offset = offset + c.len_utf8();
            if c == '\n' {
                starts.push(offset);
            }
        }
        LineIndex { line_starts: starts }
    }

    /// The byte offset at which the 1-based line `line` starts, if the text has such a line.
    pub fn line_start(&self, line: usize) -> (r: Option<usize>)
        ensures
            forall|s: Seq<char>| #[trigger]
                self.indexes(s) ==> match r {
                    Some(offset) => 1 <= line <= line_starts(s).len() && 0 <= line_starts(s)[line - 1] <= s.len()
                        && offset == text::byte_len(s.take(line_starts(s)[line - 1])),
                    None => line == 0 || line > line_starts(s).len(),
                },
    {
        proof {
            assert forall|s: Seq<char>| #[trigger] self.indexes(s) implies {
                &&& s.take(s.len() as int) == s
                &&& 1 <= line <= line_starts(s).len() ==> 0 <= line_starts(s)[line - 1] <= s.len()
            } by {
                assert(s.take(s.len() as int) =~= s);
                if 1 <= line <= line_starts(s).len() {
                    lemma_line_starts_ordered(s, line - 1);
                }
            }
        }
        if line == 0 || line > self.line_starts.len() {
            None
        } else {
            Some(self.line_starts[line - 1])
        }
    }

    /// Byte offset of the first character at or after `pos`.
    ///
    /// Columns count characters rather than bytes, and a `\r` shares the column of the character that
    /// follows it, matching how positions are counted when they are derived from `proc_macro2`. A
    /// position beyond the end of its line resolves to the start of the next line, and one beyond the
    /// end of the string resolves to its length.
    pub fn byte_offset(&self, s: &str, pos: LineColumn) -> (offset: usize)
        requires
            self.indexes(s@),
        ensures
            0 <= pos.char_index(s@) <= s@.len(),
            offset == text::byte_len(s@.take(pos.char_index(s@))),
    {
        proof {
            assert(s@.take(0) =~= Seq::<char>::empty());
            assert(s@.take(s@.len() as int) =~= s@);
        }
        if pos.line == 0 {
            return 0;
        }
        let line: usize = pos.line - 1;
        if line >= self.line_starts.len() {
            return text_bytes(s);
        }
        let line_start = self.line_starts[line];
        let end_offset: usize = if line + 1 < self.line_starts.len() {
            self.line_starts[line + 1]
        } else {
            text_bytes(s)
        };
        let ghost start = line_starts(s@)[line as int];
        let ghost end = line_end(s@, line as int);
        proof {
            lemma_line_starts_ordered(s@, line as int);
        }
        let (_, rest) = split_text(s, line_start, Ghost(start));
        let mut offset = line_start;
        let mut column: usize = pos.column;
        let mut chars = rest.chars();
        let ghost mut k: int = 0;
        let ghost goal = pos.char_index(s@);
        while offset < end_offset && column > 1
            invariant
                0 <= start <= start + k <= end <= s@.len(),
                offset == text::byte_len(s@.take(start + k)),
                end_offset == text::byte_len(s@.take(end)),
                vstd::std_specs::iter::IteratorSpec::remaining(&chars) == s@.skip(start + k),
                goal == start + k + chars_before_column(s@.subrange(start + k, end), column as int),
            decreases end - start - k,
        {
            proof {
                lemma_byte_len_monotonic(s@, start + k, end);
            }
            let next = chars.next();
            match next {
                Some(c) => {
                    proof {
                        let rest = s@.subrange(start + k, end);
                        assert(rest.drop_first() =~= s@.subrange(start + k + 1, end));
                        assert(s@.take(start + k + 1) =~= s@.take(start + k).push(c));
                        text::lemma_encode_push(s@.take(start + k), c);
                        lemma_byte_len_monotonic(s@, start + k + 1, end);
                        k = k + 1;
                    }
                    offset = offset + c.len_utf8();
                    if c != '\r' {
                        column = column - 1;
                    }
                },
                None => {
                    assert(false);
                },
            }
        }
        proof {
            lemma_byte_len_monotonic(s@, start + k, end);
        }
        offset
    }
}

impl Span {
    /// Where in `s` this span starts, in characters.
    pub open spec fn first_char(self, s: Seq<char>) -> int {
        self.start.char_index(s)
    }

    /// Where in `s` this span ends, in characters: never before its start.
    pub open spec fn last_char(self, s: Seq<char>) -> int {
        if self.end.char_index(s) < self.start.char_index(s) {
            self.start.char_index(s)
        } else {
            self.end.char_index(s)
        }
    }

    /// The region of `s` that this span covers.
    pub open spec fn region(self, s: Seq<char>) -> Seq<char> {
        s.subrange(self.first_char(s), self.last_char(s))
    }

    /// `s` with the region that this span covers replaced.
    pub open spec fn replaced(self, s: Seq<char>, replacement: Seq<char>) -> Seq<char> {
        s.take(self.first_char(s)) + replacement + s.skip(self.last_char(s))
    }

    /// The span from one (line, column) pair to another.
    pub fn quad(start_line: usize, start_column: usize, end_line: usize, end_column: usize) -> (r: Self)
        ensures
            r.start.line == start_line,
            r.start.column == start_column,
            r.end.line == end_line,
            r.end.column == end_column,
    {
        Span {
            start: LineColumn { line: start_line, column: start_column },
            end: LineColumn { line: end_line, column: end_column },
        }
    }

    /// Return the region of a multi-line string that this span covers, using a prebuilt line index.
    pub fn extract_indexed(&self, s: &str, line_index: &LineIndex) -> (r: String)
        requires
            line_index.indexes(s@),
        ensures
            r@ == self.region(s@),
    {
        let (start, end) = self.byte_range(s, line_index);
        let ghost first = self.first_char(s@);
        let ghost last = self.last_char(s@);
        let (before_end, _) = split_text(s, end, Ghost(last));
        assert(before_end@.take(first) =~= s@.take(first));
        let (_, region) = split_text(before_end, start, Ghost(first));
        assert(region@ =~= self.region(s@));
        region.to_owned()
    }

    /// Replace a subregion of text, using a prebuilt line index.
    pub fn replace_indexed(&self, s: &str, line_index: &LineIndex, replacement: &str) -> (r: String)
        requires
            line_index.indexes(s@),
        ensures
            r@ == self.replaced(s@, replacement@),
    {
        let (start, end) = self.byte_range(s, line_index);
        let mut r = String::new();
        r.push_str(split_text(s, start, Ghost(self.first_char(s@))).0);
        r.push_str(replacement);
        r.push_str(split_text(s, end, Ghost(self.last_char(s@))).1);
        assert(r@ =~= self.replaced(s@, replacement@));
        r
    }

    /// Resolve this span to a byte range within `s`.
    ///
    /// The end is clamped to the start so that a reversed or degenerate span yields an empty range.
    pub fn byte_range(&self, s: &str, line_index: &LineIndex) -> (r: (usize, usize))
        requires
            line_index.indexes(s@),
        ensures
            0 <= self.first_char(s@) <= self.last_char(s@) <= s@.len(),
            r.0 == text::byte_len(s@.take(self.first_char(s@))),
            r.1 == text::byte_len(s@.take(self.last_char(s@))),
            r.0 <= r.1,
    {
        let start = line_index.byte_offset(s, self.start);
        let end = line_index.byte_offset(s, self.end);
        proof {
            let a = self.start.char_index(s@);
            let b = self.end.char_index(s@);
            if a <= b {
                lemma_byte_len_monotonic(s@, a, b);
            } else {
                lemma_byte_len_monotonic(s@, b, a);
            }
        }
        if end < start {
            (start, start)
        } else {
            (start, end)
        }
    }

    /// Return the region of a multi-line string that this span covers.
    pub fn extract(&self, s: &str) -> (r: String)
        ensures
            r@ == self.region(s@),
    {
        self.extract_indexed(s, &LineIndex::new(s))
    }

    /// Returns a copy of `s` with the region identified by this span replaced by `replacement`.
    pub fn replace(&self, s: &str, replacement: &str) -> (r: String)
        ensures
            r@ == self.replaced(s@, replacement@),
    {
        self.replace_indexed(s, &LineIndex::new(s), replacement)
    }

    /// The concise form `Span(start line, start column, end line, end column)`.
    pub open spec fn debug_text(self) -> Seq<char> {
        "Span("@ + text::decimal(self.start.line as nat) + ", "@ + text::decimal(self.start.column as nat) + ", "@
            + text::decimal(self.end.line as nat) + ", "@ + text::decimal(self.end.column as nat) + ")"@
    }

    /// The concise form `Span(start line, start column, end line, end column)`.
    pub fn to_debug_string(&self) -> (r: String)
        ensures
            r@ == self.debug_text(),
    {
        let mut r = "Span(".to_owned();
        push_decimal(&mut r, self.start.line);
        r.push_str(", ");
        push_decimal(&mut r, self.start.column);
        r.push_str(", ");
        push_decimal(&mut r, self.end.line);
        r.push_str(", ");
        push_decimal(&mut r, self.end.column);
        r.push_str(")");
        r
    }
}

/// A position always resolves to a place within the text.
pub proof fn position_lies_within(pos: LineColumn, s: Seq<char>)
    ensures
        0 <= pos.char_index(s) <= s.len(),
{
    let line = pos.line - 1;
    if 0 <= line < line_starts(s).len() {
        lemma_line_starts_ordered(s, line);
        lemma_chars_before_column_bounded(
            s.subrange(line_starts(s)[line], line_end(s, line)),
            pos.column as int,
        );
    }
}

/// A position on a line of the text resolves to a place on that line, or to its end.
pub proof fn position_lies_within_its_line(pos: LineColumn, s: Seq<char>)
    requires
        1 <= pos.line <= line_starts(s).len(),
    ensures
        line_starts(s)[pos.line - 1] <= pos.char_index(s) <= line_end(s, pos.line - 1),
{
    let line = pos.line - 1;
    lemma_line_starts_ordered(s, line);
    lemma_chars_before_column_bounded(s.subrange(line_starts(s)[line], line_end(s, line)), pos.column as int);
}

/// Replacing a span by the text it covers changes nothing.
pub proof fn replacing_by_own_region_changes_nothing(span: Span, s: Seq<char>)
    ensures
        span.replaced(s, span.region(s)) == s,
{
    position_lies_within(span.start, s);
    position_lies_within(span.end, s);
    assert(span.replaced(s, span.region(s)) =~= s);
}

/// Replacing a span by any other text than the one it covers changes the text.
pub proof fn replacing_by_another_text_changes_something(span: Span, s: Seq<char>, replacement: Seq<char>)
    requires
        replacement != span.region(s),
    ensures
        span.replaced(s, replacement) != s,
{
    replacing_keeps_the_surroundings(span, s, replacement);
    position_lies_within(span.start, s);
    position_lies_within(span.end, s);
    if span.replaced(s, replacement) == s {
        let first = span.first_char(s);
        assert(replacement.len() == span.region(s).len());
        assert(s.subrange(first, first + replacement.len()) =~= span.region(s));
    }
}

/// Replacing a span keeps everything before it and everything after it, and puts the replacement
/// between the two.
pub proof fn replacing_keeps_the_surroundings(span: Span, s: Seq<char>, replacement: Seq<char>)
    ensures
        ({
            let r = span.replaced(s, replacement);
            let first = span.first_char(s);
            &&& r.len() == s.len() - span.region(s).len() + replacement.len()
            &&& r.take(first) == s.take(first)
            &&& r.subrange(first, first + replacement.len()) == replacement
            &&& r.skip(first + replacement.len()) == s.skip(span.last_char(s))
        }),
{
    position_lies_within(span.start, s);
    position_lies_within(span.end, s);
    let r = span.replaced(s, replacement);
    let first = span.first_char(s);
    assert(r.take(first) =~= s.take(first));
    assert(r.subrange(first, first + replacement.len()) =~= replacement);
    assert(r.skip(first + replacement.len()) =~= s.skip(span.last_char(s)));
}

/// A span whose end does not come after its start covers nothing, and replacing it inserts at its start.
pub proof fn reversed_span_is_empty(span: Span, s: Seq<char>, replacement: Seq<char>)
    requires
        span.end.char_index(s) <= span.start.char_index(s),
    ensures
        span.region(s) == Seq::<char>::empty(),
        span.replaced(s, replacement) == s.take(span.first_char(s)) + replacement + s.skip(
            span.first_char(s),
        ),
{
    position_lies_within(span.start, s);
    assert(span.region(s) =~= Seq::<char>::empty());
}

/// A column lies within its line, or at its end.
proof fn lemma_chars_before_column_bounded(line: Seq<char>, column: int)
    ensures
        0 <= chars_before_column(line, column) <= line.len(),
    decreases line.len(),
{
    if line.len() > 0 && column > 1 {
        lemma_chars_before_column_bounded(
            line.drop_first(),
            if line[0] == '\r' {
                column
            } else {
                column - 1
            },
        );
    }
}

/// The encoding of a text grows strictly with each character.
pub proof fn lemma_byte_len_monotonic(s: Seq<char>, i: int, j: int)
    requires
        0 <= i <= j <= s.len(),
    ensures
        text::byte_len(s.take(i)) <= text::byte_len(s.take(j)),
        i < j <==> text::byte_len(s.take(i)) < text::byte_len(s.take(j)),
    decreases j - i,
{
    if i < j {
        lemma_byte_len_monotonic(s, i, j - 1);
        assert(s.take(j) =~= s.take(j - 1).push(s[j - 1]));
        text::lemma_encode_push(s.take(j - 1), s[j - 1]);
    }
}

/// Lines start one behind the other, within the text.
pub proof fn lemma_line_starts_ordered(s: Seq<char>, line: int)
    requires
        0 <= line < line_starts(s).len(),
    ensures
        0 <= line_starts(s)[line] <= line_end(s, line) <= s.len(),
    decreases s.len(),
{
    if s.len() > 0 {
        let init = s.drop_last();
        if line < line_starts(init).len() {
            lemma_line_starts_ordered(init, line);
        } else {
            lemma_first_line(init);
        }
    }
}

/// The first line of a text starts at its start.
pub proof fn lemma_first_line(s: Seq<char>)
    ensures
        line_starts(s).len() >= 1,
        line_starts(s)[0] == 0,
    decreases s.len(),
{
    if s.len() > 0 {
        lemma_first_line(s.drop_last());
    }
}

/// A line that another follows ends with the only newline in it, and the next starts behind that.
pub proof fn lemma_line_with_newline(s: Seq<char>, line: int)
    requires
        0 <= line,
        line + 1 < line_starts(s).len(),
    ensures
        0 <= line_starts(s)[line] < line_starts(s)[line + 1] <= s.len(),
        s[line_starts(s)[line + 1] - 1] == '\n',
        forall|k: int| line_starts(s)[line] <= k < line_starts(s)[line + 1] - 1 ==> s[k] != '\n',
    decreases s.len(),
{
    let init = s.drop_last();
    lemma_last_line(init);
    if line + 1 < line_starts(init).len() {
        lemma_line_with_newline(init, line);
    }
    assert forall|k: int| line_starts(s)[line] <= k < line_starts(s)[line + 1] - 1 implies s[k] != '\n' by {
        assert(init[k] == s[k]);
    }
}

/// The last line has no newline.
pub proof fn lemma_last_line(s: Seq<char>)
    ensures
        line_starts(s).len() > 0,
        0 <= line_starts(s).last() <= s.len(),
        forall|k: int| line_starts(s).last() <= k < s.len() ==> s[k] != '\n',
    decreases s.len(),
{
    if s.len() > 0 {
        let init = s.drop_last();
        lemma_last_line(init);
        assert forall|k: int| line_starts(s).last() <= k < s.len() implies s[k] != '\n' by {
            if k < init.len() {
                assert(init[k] == s[k]);
            }
        }
    }
}

/// Lines start at the start of a text and behind each newline, and nowhere else, in order.
pub proof fn lines_start_behind_newlines(s: Seq<char>, k: int)
    ensures
        line_starts(s).contains(k) <==> k == 0 || (0 < k <= s.len() && s[k - 1] == '\n'),
        forall|i: int, j: int| 0 <= i < j < line_starts(s).len() ==> line_starts(s)[i] < line_starts(s)[j],
    decreases s.len(),
{
    let starts = line_starts(s);
    if s.len() == 0 {
        assert(starts[0] == 0);
    } else {
        let init = s.drop_last();
        lines_start_behind_newlines(init, k);
        let before = line_starts(init);
        lemma_last_line(init);
        if s.last() == '\n' {
            assert(starts[before.len() as int] == s.len());
            if before.contains(k) {
                let i = choose|i: int| 0 <= i < before.len() && before[i] == k;
                assert(starts[i] == k);
            }
            if starts.contains(k) {
                let i = choose|i: int| 0 <= i < starts.len() && starts[i] == k;
                if i < before.len() {
                    assert(before[i] == k);
                }
            }
        }
        assert(0 < k < s.len() ==> s[k - 1] == init[k - 1]);
    }
}

/// On a line without carriage returns, a column counts characters from one, and one beyond the end of the line is its end.
pub proof fn columns_count_characters(line: Seq<char>, column: int)
    requires
        !line.contains('\r'),
        column >= 0,
    ensures
        chars_before_column(line, column) == if column <= 1 {
            0
        } else if column - 1 < line.len() {
            column - 1
        } else {
            line.len() as int
        },
    decreases line.len(),
{
    if line.len() > 0 && column > 1 {
        let rest = line.drop_first();
        assert(line.contains(line[0]));
        assert(!rest.contains('\r')) by {
            if rest.contains('\r') {
                let i = choose|i: int| 0 <= i < rest.len() && rest[i] == '\r';
                assert(line[i + 1] == '\r');
            }
        }
        columns_count_characters(rest, column - 1);
    }
}

/// A carriage return takes no column: it shares that of the character behind it.
pub proof fn carriage_returns_take_no_column(line: Seq<char>, column: int)
    requires
        line.len() > 0,
        line[0] == '\r',
        column > 1,
    ensures
        chars_before_column(line, column) == 1 + chars_before_column(line.skip(1), column),
{
    assert(line.drop_first() =~= line.skip(1));
}

/// A position is resolved on its line: to the column there, or to the start of the text for line zero, or to its end if there is
/// no such line.
pub proof fn positions_are_resolved_on_their_lines(pos: LineColumn, s: Seq<char>)
    requires
        !s.contains('\r'),
    ensures
        ({
            let starts = line_starts(s);
            &&& pos.line == 0 ==> pos.char_index(s) == 0
            &&& pos.line > starts.len() ==> pos.char_index(s) == s.len()
            &&& 1 <= pos.line <= starts.len() ==> {
                let start = starts[pos.line - 1];
                let end = if pos.line < starts.len() {
                    starts[pos.line as int]
                } else {
                    s.len() as int
                };
                pos.char_index(s) == if pos.column <= 1 {
                    start
                } else if start + pos.column - 1 < end {
                    start + pos.column - 1
                } else {
                    end
                }
            }
        }),
{
    let starts = line_starts(s);
    if 1 <= pos.line <= starts.len() {
        let line = pos.line - 1;
        lemma_line_starts_ordered(s, line);
        let text = s.subrange(starts[line], line_end(s, line));
        assert(!text.contains('\r')) by {
            if text.contains('\r') {
                let i = choose|i: int| 0 <= i < text.len() && text[i] == '\r';
                assert(s[starts[line] + i] == '\r');
            }
        }
        columns_count_characters(text, pos.column as int);
    }
}

/// What a span covers and what replaces it, in characters of the text.
pub proof fn spans_cover_from_start_to_end(span: Span, s: Seq<char>, replacement: Seq<char>)
    ensures
        ({
            let first = span.start.char_index(s);
            let end = span.end.char_index(s);
            &&& first <= end ==> span.region(s) == s.subrange(first, end)
            &&& first <= end ==> span.replaced(s, replacement) == s.subrange(0, first) + replacement + s.subrange(
                end,
                s.len() as int,
            )
            &&& first > end ==> span.region(s).len() == 0
            &&& first > end ==> span.replaced(s, replacement) == s.subrange(0, first) + replacement + s.subrange(
                first,
                s.len() as int,
            )
        }),
{
    position_lies_within(span.start, s);
    position_lies_within(span.end, s);
    let first = span.start.char_index(s);
    let end = span.end.char_index(s);
    assert(s.take(first) =~= s.subrange(0, first));
    assert(s.skip(end) =~= s.subrange(end, s.len() as int));
    assert(s.skip(first) =~= s.subrange(first, s.len() as int));
}

} // verus!
