//! The unified diff of two texts that differ in one block of lines.

use vstd::prelude::*;
use crate::hunks;
use crate::span;
use crate::text;

verus! {

/// The lines of a text, each with its newline, if it has one.
pub open spec fn lines_of(s: Seq<char>) -> Seq<Seq<char>>
    decreases s.len(),
{
    if s.len() == 0 {
        Seq::empty()
    } else {
        let n = hunks::first_line_len(s);
        proof {
            hunks::lemma_first_line_len(s);
        }
        seq![s.take(n)] + lines_of(s.skip(n))
    }
}

/// That one text becomes the other by replacing the lines `removed`, which stand between `before` and `after`, by the lines
/// `added`, of which there is at least one, and none of which is a line of the first text. Lines end in newlines only.
pub open spec fn replaces_block(
    old_text: Seq<char>,
    new_text: Seq<char>,
    before: Seq<Seq<char>>,
    removed: Seq<Seq<char>>,
    added: Seq<Seq<char>>,
    after: Seq<Seq<char>>,
) -> bool {
    &&& lines_of(old_text) == before + removed + after
    &&& lines_of(new_text) == before + added + after
    &&& added.len() > 0
    &&& forall|i: int| 0 <= i < added.len() ==> !lines_of(old_text).contains(#[trigger] added[i])
    &&& !old_text.contains('\r') && !new_text.contains('\r')
}

/// A range of lines in the header of a hunk: the number of the first line and how many there are, unless there is one. Where
/// there is none, the number is that of the line before.
pub open spec fn line_range(lines_before: nat, count: nat) -> Seq<char> {
    if count == 1 {
        text::decimal(lines_before + 1)
    } else if count == 0 {
        hunks::range_text(lines_before, count)
    } else {
        hunks::range_text(lines_before + 1, count)
    }
}

/// A line of a diff ends in a newline, with a remark if the line in the file does not.
pub open spec fn with_newline(line: Seq<char>) -> Seq<char> {
    if line.len() > 0 && line.last() == '\n' {
        line
    } else {
        line + "\n\\ No newline at end of file\n"@
    }
}

/// Some lines, each with a character before it.
pub open spec fn tagged(tag: char, lines: Seq<Seq<char>>) -> Seq<char>
    decreases lines.len(),
{
    if lines.len() == 0 {
        Seq::empty()
    } else {
        seq![tag] + with_newline(lines[0]) + tagged(tag, lines.drop_first())
    }
}

/// How many of some lines are shown.
pub open spec fn shown(lines: Seq<Seq<char>>, radius: nat) -> nat {
    if lines.len() <= radius {
        lines.len()
    } else {
        radius
    }
}

/// The lines of a hunk that replaces a block of lines: up to `radius` lines before it, the removed lines, the added ones, and
/// up to `radius` lines after it.
pub open spec fn hunk_lines(
    before: Seq<Seq<char>>,
    removed: Seq<Seq<char>>,
    added: Seq<Seq<char>>,
    after: Seq<Seq<char>>,
    radius: nat,
) -> Seq<char> {
    tagged(' ', before.skip(before.len() - shown(before, radius))) + tagged('-', removed) + tagged('+', added) + tagged(
        ' ',
        after.take(shown(after, radius) as int),
    )
}

/// The header of that hunk.
pub open spec fn hunk_header(
    before: Seq<Seq<char>>,
    removed: Seq<Seq<char>>,
    added: Seq<Seq<char>>,
    after: Seq<Seq<char>>,
    radius: nat,
) -> Seq<char> {
    let first = (before.len() - shown(before, radius)) as nat;
    let context = shown(before, radius) + shown(after, radius);
    "@@ -"@ + line_range(first, context + removed.len()) + " +"@ + line_range(first, context + added.len()) + " @@"@ + "\n"@
}

/// The unified diff of two texts of which one becomes the other by replacing a block of lines.
pub open spec fn block_diff(
    before: Seq<Seq<char>>,
    removed: Seq<Seq<char>>,
    added: Seq<Seq<char>>,
    after: Seq<Seq<char>>,
    radius: nat,
    old_label: Seq<char>,
    new_label: Seq<char>,
) -> Seq<char> {
    "--- "@ + old_label + "\n"@ + ("+++ "@ + new_label + "\n"@) + hunk_header(before, removed, added, after, radius) + hunk_lines(
        before,
        removed,
        added,
        after,
        radius,
    )
}

/// The lines of two texts, one behind the other, where the first ends at the end of a line.
pub proof fn lines_add_up(x: Seq<char>, y: Seq<char>)
    requires
        x.len() == 0 || x.last() == '\n',
    ensures
        lines_of(x + y) == lines_of(x) + lines_of(y),
    decreases x.len(),
{
    if x.len() == 0 {
        assert(x + y =~= y);
        assert(lines_of(x) + lines_of(y) =~= lines_of(y));
    } else {
        let n = hunks::first_line_len(x);
        hunks::lemma_first_line_len(x);
        hunks::lemma_first_line_is_one(x);
        let line = x.take(n);
        let rest = x.skip(n);
        assert(n == x.len() ==> line.last() == x.last());
        assert(x + y =~= line + (rest + y));
        hunks::lemma_first_line_of(line, rest + y);
        assert((x + y).take(n) =~= line);
        assert((x + y).skip(n) =~= rest + y);
        assert(rest.len() > 0 ==> rest.last() == x.last());
        lines_add_up(rest, y);
        assert(lines_of(x + y) =~= lines_of(x) + lines_of(y));
    }
}

/// A line is the only line of itself.
pub(crate) proof fn lemma_lines_of_one(line: Seq<char>)
    requires
        hunks::is_one_line(line),
    ensures
        lines_of(line) == seq![line],
{
    hunks::lemma_first_line_of(line, Seq::empty());
    assert(line + Seq::<char>::empty() =~= line);
    assert(line.take(line.len() as int) =~= line);
    assert(lines_of(line.skip(line.len() as int)) =~= Seq::<Seq<char>>::empty());
    assert(lines_of(line) =~= seq![line]);
}

/// Every line of a text is one line.
pub(crate) proof fn lemma_lines_are_lines(s: Seq<char>)
    ensures
        forall|i: int| 0 <= i < lines_of(s).len() ==> hunks::is_one_line(#[trigger] lines_of(s)[i]),
        s.len() > 0 ==> lines_of(s).len() > 0,
    decreases s.len(),
{
    if s.len() > 0 {
        let n = hunks::first_line_len(s);
        hunks::lemma_first_line_len(s);
        hunks::lemma_first_line_is_one(s);
        lemma_lines_are_lines(s.skip(n));
        assert forall|i: int| 0 <= i < lines_of(s).len() implies hunks::is_one_line(#[trigger] lines_of(s)[i]) by {
            if i > 0 {
                assert(lines_of(s)[i] == lines_of(s.skip(n))[i - 1]);
            }
        }
    }
}

/// That a text stands somewhere in another.
pub open spec fn occurs_in(part: Seq<char>, s: Seq<char>) -> bool {
    exists|i: int| 0 <= i <= s.len() - part.len() && #[trigger] s.subrange(i, i + part.len()) == part
}

/// What stands in a line of a text stands in the text.
pub(crate) proof fn lemma_line_is_part(part: Seq<char>, s: Seq<char>, k: int)
    requires
        0 <= k < lines_of(s).len(),
        occurs_in(part, lines_of(s)[k]),
    ensures
        occurs_in(part, s),
    decreases s.len(),
{
    let n = hunks::first_line_len(s);
    hunks::lemma_first_line_len(s);
    let line = lines_of(s)[k];
    if k == 0 {
        let i = choose|i: int| 0 <= i <= line.len() - part.len() && #[trigger] line.subrange(i, i + part.len()) == part;
        assert(s.subrange(i, i + part.len()) =~= line.subrange(i, i + part.len()));
    } else {
        let rest = s.skip(n);
        assert(lines_of(rest)[k - 1] == line);
        lemma_line_is_part(part, rest, k - 1);
        let i = choose|i: int| 0 <= i <= rest.len() - part.len() && #[trigger] rest.subrange(i, i + part.len()) == part;
        assert(s.subrange(n + i, n + i + part.len()) =~= rest.subrange(i, i + part.len()));
    }
}

/// From the start of one line to that of another there are as many lines as lie between them.
pub(crate) proof fn lemma_lines_between(s: Seq<char>, i: int, j: int)
    requires
        0 <= i <= j < span::line_starts(s).len(),
    ensures
        0 <= span::line_starts(s)[i] <= span::line_starts(s)[j] <= s.len(),
        lines_of(s.subrange(span::line_starts(s)[i], span::line_starts(s)[j])).len() == j - i,
        i < j ==> span::line_starts(s)[i] < span::line_starts(s)[j] && s[span::line_starts(s)[j] - 1] == '\n',
    decreases j - i,
{
    let starts = span::line_starts(s);
    span::lemma_line_starts_ordered(s, i);
    if i == j {
        assert(s.subrange(starts[i], starts[j]) =~= Seq::<char>::empty());
    } else {
        lemma_lines_between(s, i, j - 1);
        span::lemma_line_with_newline(s, j - 1);
        let front = s.subrange(starts[i], starts[j - 1]);
        let line = s.subrange(starts[j - 1], starts[j]);
        assert(s.subrange(starts[i], starts[j]) =~= front + line);
        assert(front.len() > 0 ==> front.last() == s[starts[j - 1] - 1]);
        assert(hunks::is_one_line(line)) by {
            assert forall|k: int| 0 <= k < line.len() - 1 implies line[k] != '\n' by {
                assert(line[k] == s[starts[j - 1] + k]);
            }
        }
        lines_add_up(front, line);
        lemma_lines_of_one(line);
    }
}

/// From the start of a line to the end of the text there are no more lines than start there.
pub(crate) proof fn lemma_lines_behind(s: Seq<char>, i: int)
    requires
        0 <= i < span::line_starts(s).len(),
    ensures
        0 <= span::line_starts(s)[i] <= s.len(),
        lines_of(s.skip(span::line_starts(s)[i])).len() <= span::line_starts(s).len() - i,
{
    let starts = span::line_starts(s);
    let n = starts.len() - 1;
    lemma_lines_between(s, i, n);
    span::lemma_last_line(s);
    let front = s.subrange(starts[i], starts[n]);
    let line = s.skip(starts[n]);
    assert(s.skip(starts[i]) =~= front + line);
    assert(front.len() > 0 ==> front.last() == s[starts[n] - 1]);
    lines_add_up(front, line);
    if line.len() > 0 {
        assert(hunks::is_one_line(line)) by {
            assert forall|k: int| 0 <= k < line.len() - 1 implies line[k] != '\n' by {
                assert(line[k] == s[starts[n] + k]);
            }
        }
        lemma_lines_of_one(line);
    }
}

/// A line that does not start like the header of a hunk stays when line numbers move.
proof fn lemma_other_line_stays(line: Seq<char>, rest: Seq<char>, offset: nat)
    requires
        hunks::is_one_line(line),
        line.last() == '\n',
        line[0] != '@',
    ensures
        hunks::renumbered_from(line + rest, 0, offset) == line + hunks::renumbered_from(rest, 0, offset),
        hunks::lines_fit_from(line + rest, 0, offset) == hunks::lines_fit_from(rest, 0, offset),
{
    reveal_strlit("@@ -");
    hunks::lemma_renumbered_first(line, rest, offset);
    assert("@@ -"@[0] == '@');
    if line.len() >= 4 {
        assert(line.take(4)[0] == line[0]);
    }
    assert(hunks::header_parts(line) is None);
}

/// The lines of a hunk stay when line numbers move.
proof fn lemma_tagged_lines_stay(tag: char, lines: Seq<Seq<char>>, rest: Seq<char>, offset: nat)
    requires
        tag != '@',
        tag != '\n',
        forall|i: int| 0 <= i < lines.len() ==> hunks::is_one_line(#[trigger] lines[i]),
    ensures
        hunks::renumbered_from(tagged(tag, lines) + rest, 0, offset) == tagged(tag, lines) + hunks::renumbered_from(
            rest,
            0,
            offset,
        ),
        hunks::lines_fit_from(tagged(tag, lines) + rest, 0, offset) == hunks::lines_fit_from(rest, 0, offset),
    decreases lines.len(),
{
    if lines.len() == 0 {
        assert(tagged(tag, lines) + rest =~= rest);
        assert(tagged(tag, lines) + hunks::renumbered_from(rest, 0, offset) =~= hunks::renumbered_from(rest, 0, offset));
    } else {
        reveal_strlit("\n\\ No newline at end of file\n");
        let line = lines[0];
        let more = lines.drop_first();
        assert(hunks::is_one_line(lines[0]));
        assert forall|i: int| 0 <= i < more.len() implies hunks::is_one_line(#[trigger] more[i]) by {
            assert(more[i] == lines[i + 1]);
        }
        lemma_tagged_lines_stay(tag, more, rest, offset);
        let others = tagged(tag, more) + rest;
        if line.last() == '\n' {
            let first = seq![tag] + line;
            lemma_other_line_stays(first, others, offset);
            assert(tagged(tag, lines) + rest =~= first + others);
            assert(tagged(tag, lines) + hunks::renumbered_from(rest, 0, offset) =~= first + (tagged(tag, more)
                + hunks::renumbered_from(rest, 0, offset)));
        } else {
            let remark = "\n\\ No newline at end of file\n"@.skip(1);
            let first = (seq![tag] + line).push('\n');
            assert(hunks::is_one_line(first)) by {
                assert forall|i: int| 0 <= i < first.len() - 1 implies first[i] != '\n' by {
                    if i > 0 {
                        assert(first[i] == line[i - 1]);
                        if i - 1 == line.len() - 1 {
                            assert(line[i - 1] == line.last());
                        }
                    }
                }
            }
            lemma_other_line_stays(remark, others, offset);
            lemma_other_line_stays(first, remark + others, offset);
            assert(tagged(tag, lines) + rest =~= first + (remark + others));
            assert(tagged(tag, lines) + hunks::renumbered_from(rest, 0, offset) =~= first + (remark + (tagged(tag, more)
                + hunks::renumbered_from(rest, 0, offset))));
        }
    }
}

/// The diff of a part of a file, with its line numbers moved, is the diff of the file: where the part holds all the lines
/// that are shown, and starts with the first of them.
pub proof fn diff_of_a_part_is_the_diff_of_the_whole(
    above: Seq<Seq<char>>,
    before: Seq<Seq<char>>,
    removed: Seq<Seq<char>>,
    added: Seq<Seq<char>>,
    after: Seq<Seq<char>>,
    below: Seq<Seq<char>>,
    radius: nat,
    old_label: Seq<char>,
    new_label: Seq<char>,
)
    requires
        radius > 1,
        before.len() == radius || (before.len() < radius && above.len() == 0),
        after.len() == radius || (after.len() < radius && below.len() == 0),
        above.len() < usize::MAX,
        !old_label.contains('\n'),
        !new_label.contains('\n'),
        forall|i: int| 0 <= i < before.len() ==> hunks::is_one_line(#[trigger] before[i]),
        forall|i: int| 0 <= i < removed.len() ==> hunks::is_one_line(#[trigger] removed[i]),
        forall|i: int| 0 <= i < added.len() ==> hunks::is_one_line(#[trigger] added[i]),
        forall|i: int| 0 <= i < after.len() ==> hunks::is_one_line(#[trigger] after[i]),
    ensures
        ({
            let part = block_diff(before, removed, added, after, radius, old_label, new_label);
            let whole = block_diff(above + before, removed, added, after + below, radius, old_label, new_label);
            &&& hunks::renumbered(part, above.len()) == whole
            &&& hunks::hunks_fit(part, above.len())
        }),
{
    let part = block_diff(before, removed, added, after, radius, old_label, new_label);
    let whole = block_diff(above + before, removed, added, after + below, radius, old_label, new_label);
    let lines = hunk_lines(before, removed, added, after, radius);
    let offset = above.len();
    assert(before.skip(0) =~= before);
    assert(after.take(after.len() as int) =~= after);
    assert((above + before).skip(above.len() as int) =~= before);
    assert((after + below).take(after.len() as int) =~= after);
    assert(shown(above + before, radius) == before.len());
    assert(shown(after + below, radius) == after.len());
    assert(hunk_lines(above + before, removed, added, after + below, radius) == lines);
    if offset == 0 {
        assert(above + before =~= before);
    } else {
        let old_count = before.len() + after.len() + removed.len();
        let new_count = before.len() + after.len() + added.len();
        let header = hunk_header(before, removed, added, after, radius);
        let moved_header = hunk_header(above + before, removed, added, after + below, radius);
        assert(header == hunks::header_text(1, old_count, 1, new_count, "\n"@));
        assert(moved_header == hunks::header_text(1 + offset, old_count, 1 + offset, new_count, "\n"@));
        lemma_hunk_lines_stay(before, removed, added, after, offset);
        assert(lines == tagged(' ', before) + tagged('-', removed) + tagged('+', added) + tagged(' ', after));
        lemma_hunk_moves(old_count, new_count, lines, offset, old_label, new_label);
    }
}

/// A hunk that starts at the first line moves down.
#[verifier::spinoff_prover]
proof fn lemma_hunk_moves(
    old_count: nat,
    new_count: nat,
    lines: Seq<char>,
    offset: nat,
    old_label: Seq<char>,
    new_label: Seq<char>,
)
    requires
        0 < offset < usize::MAX,
        !old_label.contains('\n'),
        !new_label.contains('\n'),
        hunks::renumbered_from(lines, 0, offset) == lines,
        hunks::lines_fit_from(lines, 0, offset),
    ensures
        ({
            let labels = "--- "@ + old_label + "\n"@ + ("+++ "@ + new_label + "\n"@);
            let part = labels + hunks::header_text(1, old_count, 1, new_count, "\n"@) + lines;
            let whole = labels + hunks::header_text(1 + offset, old_count, 1 + offset, new_count, "\n"@) + lines;
            &&& hunks::renumbered(part, offset) == whole
            &&& hunks::hunks_fit(part, offset)
        }),
{
    reveal_strlit("--- ");
    reveal_strlit("+++ ");
    let first = "--- "@ + old_label + "\n"@;
    let second = "+++ "@ + new_label + "\n"@;
    let header = hunks::header_text(1, old_count, 1, new_count, "\n"@);
    let moved_header = hunks::header_text(1 + offset, old_count, 1 + offset, new_count, "\n"@);
    hunks::headers_move(1, old_count, 1, new_count, "\n"@, offset);
    lemma_label_is_one_line("--- "@, old_label);
    lemma_label_is_one_line("+++ "@, new_label);
    lemma_header_is_one_line(1, old_count, 1, new_count);
    lemma_header_fits(1, old_count, 1, new_count, offset);
    hunks::lemma_renumbered_first(header, lines, offset);
    lemma_other_line_stays(second, header + lines, offset);
    lemma_other_line_stays(first, second + (header + lines), offset);
    assert(first + second + header + lines =~= first + (second + (header + lines)));
    assert(first + second + moved_header + lines =~= first + (second + (moved_header + lines)));
}

/// A label with a mark before it is one line.
proof fn lemma_label_is_one_line(mark: Seq<char>, label: Seq<char>)
    requires
        mark.len() > 0,
        !mark.contains('\n'),
        !label.contains('\n'),
    ensures
        hunks::is_one_line(mark + label + "\n"@),
        (mark + label + "\n"@).last() == '\n',
        (mark + label + "\n"@)[0] == mark[0],
{
    reveal_strlit("\n");
    let line = mark + label + "\n"@;
    assert forall|i: int| 0 <= i < line.len() - 1 implies line[i] != '\n' by {
        if i < mark.len() {
            assert(mark.contains(mark[i]));
            assert(line[i] == mark[i]);
        } else {
            assert(label.contains(label[i - mark.len()]));
            assert(line[i] == label[i - mark.len()]);
        }
    }
}

/// The header of a hunk is one line.
proof fn lemma_header_is_one_line(a: nat, b: nat, c: nat, d: nat)
    ensures
        hunks::is_one_line(hunks::header_text(a, b, c, d, "\n"@)),
        hunks::header_text(a, b, c, d, "\n"@).last() == '\n',
{
    reveal_strlit("\n");
    reveal_strlit("@@ -");
    reveal_strlit(" +");
    reveal_strlit(" @@");
    hunks::lemma_range_has_no_other(a, b, '\n');
    hunks::lemma_range_has_no_other(c, d, '\n');
    let first = hunks::range_text(a, b);
    let second = hunks::range_text(c, d);
    let front = "@@ -"@ + first + " +"@ + second + " @@"@;
    let line = hunks::header_text(a, b, c, d, "\n"@);
    assert(line =~= front + "\n"@);
    assert forall|i: int| 0 <= i < line.len() - 1 implies line[i] != '\n' by {
        assert(line[i] == front[i]);
        let k = first.len() as int;
        let n = second.len() as int;
        if 4 <= i < 4 + k {
            assert(first.contains(first[i - 4]));
            assert(front[i] == first[i - 4]);
        } else if 6 + k <= i < 6 + k + n {
            assert(second.contains(second[i - 6 - k]));
            assert(front[i] == second[i - 6 - k]);
        }
    }
}

/// The line numbers of a header can move as far as they can be counted.
proof fn lemma_header_fits(a: nat, b: nat, c: nat, d: nat, offset: nat)
    requires
        a + offset <= usize::MAX,
        c + offset <= usize::MAX,
    ensures
        hunks::line_fits(hunks::header_text(a, b, c, d, "\n"@), offset),
{
    hunks::lemma_header_text_parts(a, b, c, d, "\n"@);
}

/// All the lines of a hunk stay when line numbers move.
proof fn lemma_hunk_lines_stay(
    before: Seq<Seq<char>>,
    removed: Seq<Seq<char>>,
    added: Seq<Seq<char>>,
    after: Seq<Seq<char>>,
    offset: nat,
)
    requires
        forall|i: int| 0 <= i < before.len() ==> hunks::is_one_line(#[trigger] before[i]),
        forall|i: int| 0 <= i < removed.len() ==> hunks::is_one_line(#[trigger] removed[i]),
        forall|i: int| 0 <= i < added.len() ==> hunks::is_one_line(#[trigger] added[i]),
        forall|i: int| 0 <= i < after.len() ==> hunks::is_one_line(#[trigger] after[i]),
    ensures
        ({
            let lines = tagged(' ', before) + tagged('-', removed) + tagged('+', added) + tagged(' ', after);
            hunks::renumbered_from(lines, 0, offset) == lines && hunks::lines_fit_from(lines, 0, offset)
        }),
{
    let a = tagged(' ', before);
    let b = tagged('-', removed);
    let c = tagged('+', added);
    let d = tagged(' ', after);
    let nothing = Seq::<char>::empty();
    lemma_tagged_lines_stay(' ', after, nothing, offset);
    assert(d + nothing =~= d);
    assert(hunks::renumbered_from(nothing, 0, offset) =~= nothing);
    lemma_tagged_lines_stay('+', added, d, offset);
    lemma_tagged_lines_stay('-', removed, c + d, offset);
    lemma_tagged_lines_stay(' ', before, b + (c + d), offset);
    assert(a + b + c + d =~= a + (b + (c + d)));
}

} // verus!
