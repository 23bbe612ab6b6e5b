//! Mutations to source files, and inference of interesting mutations to apply.

use std::borrow::Cow;
use vstd::prelude::*;
use crate::hunks;
use crate::hunks::{hunks_can_move, renumber_hunks};
use crate::json;
use crate::json::{json_object, json_string, push_field, Json, JsonModel};
use crate::source::{SourceFile, SourceModel};
use crate::span;
use crate::span::{LineColumn, Span};
use crate::text;
use crate::text::{chars_of, debug_string, push_decimal, same_text, split_text, string_of, text_bytes};
use crate::unified;

verus! {

/// What is written behind every change to the code, to mark it.
pub const MUTATION_MARKER_COMMENT: &'static str = "/* ~ changed by cargo-mutants ~ */";

/// Unchanged lines shown on each side of a change in the generated diffs.
pub const DIFF_CONTEXT_LINES: usize = 8;

/// Various broad categories of mutants.
#[derive(Clone, Copy, Debug, PartialEq, Eq, Structural)]
pub enum Genre {
    /// Replace the body of a function with a fixed value.
    FnValue,
    /// Replace `==` with `!=` and so on.
    BinaryOperator,
    UnaryOperator,
    /// Delete match arm.
    MatchArm,
    /// Replace the expression of a match arm guard with a fixed value.
    MatchArmGuard,
    /// Replace the condition of an `if` expression with a fixed value.
    IfCondition,
    /// Replace the condition of a `while` expression with `false`.
    WhileCondition,
    /// Replace a `true` literal with `false`, or vice versa.
    BoolLiteral,
    /// Delete a statement whose value is discarded.
    DeleteStatement,
    /// Replace the value of an explicit `return` with a fixed value.
    ReturnValue,
    /// Delete a field from a struct literal that has a base (default) expression.
    StructField,
}

/// The target of a mutation, providing additional context about what is being mutated.
pub enum MutationTarget {
    /// A field in a struct literal expression.
    StructLiteralField {
        /// The name of the field being deleted.
        field_name: String,
        /// The name/type of the struct.
        struct_name: String,
    },
}

/// The model of a [`MutationTarget`]: the field and the struct.
pub ghost struct TargetModel {
    pub field_name: Seq<char>,
    pub struct_name: Seq<char>,
}

impl View for MutationTarget {
    type V = TargetModel;

    open spec fn view(&self) -> TargetModel {
        match *self {
            MutationTarget::StructLiteralField { field_name, struct_name } => TargetModel {
                field_name: field_name@,
                struct_name: struct_name@,
            },
        }
    }
}

/// The function containing a mutant.
///
/// This is used for both mutations of the whole function, and smaller mutations within it.
pub struct Function {
    /// The function that's being mutated, including any containing namespaces.
    pub function_name: String,
    /// The return type of the function, including a leading "-> ", as a fragment of Rust syntax.
    ///
    /// Empty if the function has no return type (i.e. returns `()`).
    pub return_type: String,
    /// The span (line/column range) of the entire function.
    pub span: Span,
}

/// The model of a [`Function`].
pub ghost struct FunctionModel {
    pub function_name: Seq<char>,
    pub return_type: Seq<char>,
    pub span: Span,
}

impl View for Function {
    type V = FunctionModel;

    open spec fn view(&self) -> FunctionModel {
        FunctionModel {
            function_name: self.function_name@,
            return_type: self.return_type@,
            span: self.span,
        }
    }
}

/// How one part of a mutant's description is coloured.
#[derive(Clone, Copy, Debug, PartialEq, Eq, Structural)]
pub enum PartStyle {
    Plain,
    Yellow,
    BrightYellow,
    Magenta,
    BrightMagenta,
}

/// A mutation applied to source code.
pub struct Mutant {
    /// Which file is being mutated.
    pub source_file: SourceFile,
    /// The function that's being mutated: the nearest enclosing function, if they are nested.
    ///
    /// There may be none for mutants in e.g. top-level const expressions.
    pub function: Option<Function>,
    /// The location of the mutated textual region in the original source file.
    ///
    /// This is deleted and replaced with the replacement text.
    ///
    /// This may be long, for example when a whole function body is replaced. This is used primarily to
    /// show the line/col location of the mutation.
    pub span: Span,
    /// A shorter version of the text being replaced.
    ///
    /// For example, when a match arm is replaced, this gives only the match pattern, not the body of the
    /// arm.
    pub short_replaced: Option<String>,
    /// The replacement text.
    pub replacement: String,
    /// What general category of mutant this is.
    pub genre: Genre,
    /// Additional context about what is being mutated.
    pub target: Option<MutationTarget>,
    /// Whether this mutant lives inside a construct the compiler evaluates at compile time: a
    /// `const`/`static` initializer, a `const fn` body, an array-length expression, or a const generic
    /// argument.
    ///
    /// Such positions have no coverage counter, even though a test can still catch the mutant by asserting
    /// on the resulting value.
    ///
    /// This is derived, deterministic metadata about *where* the mutant is, not part of *what change* it
    /// makes, so it is excluded from equality, from the debug form, and from JSON: two mutants that make the
    /// same change at the same place are still the same mutant.
    pub const_eval: bool,
}

/// The model of a [`Mutant`].
pub ghost struct MutantModel {
    pub source_file: SourceModel,
    pub function: Option<FunctionModel>,
    pub span: Span,
    pub short_replaced: Option<Seq<char>>,
    pub replacement: Seq<char>,
    pub genre: Genre,
    pub target: Option<TargetModel>,
    pub const_eval: bool,
}

/// The text of an optional string.
pub open spec fn optional_text(s: Option<String>) -> Option<Seq<char>> {
    match s {
        Some(s) => Some(s@),
        None => None,
    }
}

impl View for Mutant {
    type V = MutantModel;

    open spec fn view(&self) -> MutantModel {
        MutantModel {
            source_file: self.source_file@,
            function: match self.function {
                Some(f) => Some(f@),
                None => None,
            },
            span: self.span,
            short_replaced: optional_text(self.short_replaced),
            replacement: self.replacement@,
            genre: self.genre,
            target: match self.target {
                Some(t) => Some(t@),
                None => None,
            },
            const_eval: self.const_eval,
        }
    }
}

/// What has been kept of the first `n` characters of `s`, and whether they end within the indentation that
/// follows a newline.
pub open spec fn squashed_prefix(s: Seq<char>, n: int) -> (Seq<char>, bool)
    decreases n,
{
    if n <= 0 {
        (Seq::<char>::empty(), false)
    } else {
        let (kept, in_indent) = squashed_prefix(s, n - 1);
        let c = s[n - 1];
        if in_indent && (c == ' ' || c == '\t' || c == '\n') {
            (kept, true)
        } else if c == '\n' {
            (
                if kept.len() > 0 && kept.last() == ' ' {
                    kept
                } else {
                    kept.push(' ')
                },
                true,
            )
        } else {
            (kept.push(c), false)
        }
    }
}

/// A text in one line: each newline, and the indentation that follows it, is replaced by a space, unless a
/// space comes before it. A text of one line stays as it is.
pub open spec fn squashed(s: Seq<char>) -> Seq<char> {
    if s.contains('\n') {
        squashed_prefix(s, s.len() as int).0
    } else {
        s
    }
}

/// Combine multiple lines to one, removing indentation following a newline.
///
/// Newlines are replaced by a space, only if there is not already a trailing space.
pub fn squash_lines(s: &str) -> (r: Cow<'_, str>)
    ensures
        r@ == squashed(s@),
        r is Borrowed <==> !s@.contains('\n'),
{
    let chars = chars_of(s);
    let mut multi = false;
    for i in 0..chars.len()
        invariant
            chars@ == s@,
            multi == exists|j: int| 0 <= j < i && s@[j] == '\n',
    {
        if chars[i] == '\n' {
            multi = true;
        }
    }
    if multi {
        let mut kept: Vec<char> = Vec::new();
        let mut in_indent = false;
        for i in 0..chars.len()
            invariant
                chars@ == s@,
                squashed_prefix(s@, i as int) == (kept@, in_indent),
        {
            let c = chars[i];
            if in_indent && (c == ' ' || c == '\t' || c == '\n') {
            } else if c == '\n' {
                if kept.len() == 0 || kept[kept.len() - 1] != ' ' {
                    kept.push(' ');
                }
                in_indent = true;
            } else {
                in_indent = false;
                kept.push(c);
            }
        }
        Cow::Owned(string_of(&kept))
    } else {
        Cow::Borrowed(s)
    }
}

proof fn lemma_squashed_prefix_is_one_line(s: Seq<char>, n: int)
    requires
        0 <= n <= s.len(),
    ensures
        !squashed_prefix(s, n).0.contains('\n'),
    decreases n,
{
    if n > 0 {
        lemma_squashed_prefix_is_one_line(s, n - 1);
        let before = squashed_prefix(s, n - 1).0;
        let after = squashed_prefix(s, n).0;
        if after.contains('\n') {
            let i = choose|i: int| 0 <= i < after.len() && after[i] == '\n';
            assert(i < before.len());
            assert(before[i] == '\n');
        }
    }
}

/// A squashed text is one line, and squashing it again changes nothing.
pub proof fn squashed_text_is_one_line(s: Seq<char>)
    ensures
        !squashed(s).contains('\n'),
        squashed(squashed(s)) == squashed(s),
{
    lemma_squashed_prefix_is_one_line(s, s.len() as int);
}

/// The two parts that name the function around a change.
pub open spec fn function_parts(m: MutantModel) -> Seq<(PartStyle, Seq<char>)> {
    match m.function {
        Some(function) if m.genre != Genre::FnValue => seq![
            (PartStyle::Plain, " in "@),
            (PartStyle::BrightMagenta, function.function_name),
        ],
        _ => Seq::<(PartStyle, Seq<char>)>::empty(),
    }
}

/// The parts that describe the change itself.
pub open spec fn change_parts(m: MutantModel) -> Seq<(PartStyle, Seq<char>)> {
    match m.genre {
        Genre::FnValue => {
            let function = m.function->0;
            let head = seq![
                (PartStyle::Plain, "replace "@),
                (PartStyle::BrightMagenta, function.function_name),
            ];
            let returned = if function.return_type.len() == 0 {
                Seq::<(PartStyle, Seq<char>)>::empty()
            } else {
                seq![(PartStyle::Plain, " "@), (PartStyle::Magenta, function.return_type)]
            };
            head + returned + seq![(PartStyle::Plain, " with "@), (PartStyle::Yellow, m.replacement)]
        },
        Genre::MatchArmGuard => seq![
            (PartStyle::Plain, "replace match guard "@),
            (PartStyle::Yellow, squashed(m.original())),
            (PartStyle::Plain, " with "@),
            (PartStyle::Yellow, m.replacement),
        ],
        Genre::MatchArm => seq![
            (PartStyle::Plain, "delete match arm "@),
            (PartStyle::Yellow, squashed(m.short_replaced->0)),
        ],
        Genre::StructField => match m.target {
            Some(target) => seq![
                (PartStyle::Plain, "delete field "@),
                (PartStyle::Yellow, target.field_name),
                (PartStyle::Plain, " from struct "@),
                (PartStyle::Yellow, target.struct_name),
                (PartStyle::Plain, " expression"@),
            ],
            None => seq![(PartStyle::Plain, "delete field from struct expression"@)],
        },
        _ => {
            if m.replacement.len() == 0 {
                seq![(PartStyle::Plain, "delete "@), (PartStyle::Yellow, m.original())]
            } else {
                seq![
                    (PartStyle::Plain, "replace "@),
                    (PartStyle::Yellow, m.original()),
                    (PartStyle::Plain, " with "@),
                    (PartStyle::BrightYellow, m.replacement),
                ]
            }
        },
    }
}

/// Some texts, one behind the other.
pub open spec fn concatenated(texts: Seq<Seq<char>>) -> Seq<char>
    decreases texts.len(),
{
    if texts.len() == 0 {
        Seq::<char>::empty()
    } else {
        concatenated(texts.drop_last()) + texts.last()
    }
}

/// The text of each part.
pub open spec fn part_texts(parts: Seq<(PartStyle, Seq<char>)>) -> Seq<Seq<char>> {
    Seq::new(parts.len(), |i: int| parts[i].1)
}

/// What starts a coloured text on a terminal.
pub open spec fn colour_start(style: PartStyle) -> Seq<char> {
    match style {
        PartStyle::Plain => Seq::<char>::empty(),
        PartStyle::Yellow => "\x1b[33m"@,
        PartStyle::BrightYellow => "\x1b[38;5;11m"@,
        PartStyle::Magenta => "\x1b[35m"@,
        PartStyle::BrightMagenta => "\x1b[38;5;13m"@,
    }
}

/// That `shown` is the part as a terminal shows it: the bare text, or the text between the codes of its
/// colour.
pub open spec fn shows_part(part: (PartStyle, Seq<char>), shown: Seq<char>) -> bool {
    ||| shown == part.1
    ||| part.0 != PartStyle::Plain && shown == colour_start(part.0) + part.1 + "\x1b[0m"@
}

/// That each of `shown` is one of the parts as a terminal shows it.
pub open spec fn shows_parts(parts: Seq<(PartStyle, Seq<char>)>, shown: Seq<Seq<char>>) -> bool {
    &&& shown.len() == parts.len()
    &&& forall|i: int| 0 <= i < parts.len() ==> shows_part(parts[i], #[trigger] shown[i])
}

impl MutantModel {
    /// The text that the mutation replaces.
    pub open spec fn original(self) -> Seq<char> {
        self.span.region(self.source_file.code)
    }

    /// That what the description of this genre of mutant names is there: the function whose value is
    /// replaced, the pattern of a deleted match arm.
    pub open spec fn describable(self) -> bool {
        &&& self.genre == Genre::FnValue ==> self.function is Some
        &&& self.genre == Genre::MatchArm ==> self.short_replaced is Some
    }

    /// The parts of the description, in order.
    pub open spec fn parts(self) -> Seq<(PartStyle, Seq<char>)> {
        change_parts(self) + function_parts(self)
    }

    /// The description, without the location.
    pub open spec fn description(self) -> Seq<char> {
        concatenated(part_texts(self.parts()))
    }

    /// What stands before the description in a name: the file, and perhaps the line and column.
    pub open spec fn name_start(self, show_line_col: bool) -> Seq<char> {
        if show_line_col {
            self.source_file.location(self.span.start) + ": "@
        } else {
            self.source_file.path + ": "@
        }
    }

    /// The name: file, perhaps line and column, and description.
    pub open spec fn name_text(self, show_line_col: bool) -> Seq<char> {
        self.name_start(show_line_col) + self.description()
    }

    /// The replacement as it is written into the mutated file, followed by the marker comment.
    pub open spec fn marked_replacement(self) -> Seq<char> {
        self.replacement + " "@ + MUTATION_MARKER_COMMENT@
    }

    /// The whole file with the mutation applied.
    pub open spec fn mutated(self) -> Seq<char> {
        self.span.replaced(self.source_file.code, self.marked_replacement())
    }
}

/// The code of a mutant holds what it writes, with the marker behind it, where the replaced text was, and is otherwise the
/// code of the file; it differs from that code unless the replaced text already was what is written, marker included.
pub proof fn mutated_code_differs_where_it_is_marked(m: MutantModel)
    ensures
        ({
            let first = m.span.first_char(m.source_file.code);
            let written = m.marked_replacement();
            &&& m.mutated().take(first) == m.source_file.code.take(first)
            &&& m.mutated().subrange(first, first + written.len()) == written
            &&& m.mutated().skip(first + written.len()) == m.source_file.code.skip(m.span.last_char(m.source_file.code))
        }),
        m.mutated() == m.source_file.code <==> m.original() == m.marked_replacement(),
{
    let code = m.source_file.code;
    span::replacing_keeps_the_surroundings(m.span, code, m.marked_replacement());
    span::replacing_by_own_region_changes_nothing(m.span, code);
    if m.original() != m.marked_replacement() {
        span::replacing_by_another_text_changes_something(m.span, code, m.marked_replacement());
    }
}

/// Text coloured by `console::style`.
///
/// Whether `console` colours text for the standard output depends on the terminal and on the environment, so
/// the contract names both outcomes: the text as it is, or the text between the codes for the colour. Plain
/// text is never changed.
#[verifier::external_body]
fn styled_text(style: PartStyle, text: &str) -> (r: String)
    ensures
        shows_part((style, text@), r@),
{
    let styled = console::style(text);
    match style {
        PartStyle::Plain => styled.to_string(),
        PartStyle::Yellow => styled.yellow().to_string(),
        PartStyle::BrightYellow => styled.bright().yellow().to_string(),
        PartStyle::Magenta => styled.magenta().to_string(),
        PartStyle::BrightMagenta => styled.bright().magenta().to_string(),
    }
}

/// The parts that some styled strings stand for.
pub open spec fn part_models(parts: Seq<(PartStyle, String)>) -> Seq<(PartStyle, Seq<char>)> {
    Seq::new(parts.len(), |i: int| (parts[i].0, parts[i].1@))
}

/// Appends a part.
fn push_part(parts: &mut Vec<(PartStyle, String)>, style: PartStyle, text: &str)
    ensures
        part_models(final(parts)@) == part_models(old(parts)@).push((style, text@)),
{
    let ghost before = parts@;
    parts.push((style, text.to_owned()));
    assert(part_models(parts@) =~= part_models(before).push((style, text@)));
}

/// The text that a `Cow` holds.
fn cow_text<'a>(s: &'a Cow<'_, str>) -> (r: &'a str)
    ensures
        r@ == s@,
{
    match s {
        Cow::Borrowed(t) => t,
        Cow::Owned(t) => t.as_str(),
    }
}

impl Mutant {
    /// Construct a mutant discovered while walking source code.
    pub(crate) fn new_discovered(
        source_file: SourceFile,
        function: Option<Function>,
        span: Span,
        short_replaced: Option<String>,
        replacement: String,
        genre: Genre,
        target: Option<MutationTarget>,
        const_eval: bool,
    ) -> (r: Self)
        ensures
            r.source_file == source_file,
            r.function == function,
            r.span == span,
            r.short_replaced == short_replaced,
            r.replacement == replacement,
            r.genre == genre,
            r.target == target,
            r.const_eval == const_eval,
    {
        Mutant { source_file, function, span, short_replaced, replacement, genre, target, const_eval }
    }

    /// The replacement text as it is written into the mutated file, including the marker comment.
    ///
    /// Shared by [`Self::mutated_code`] and by diff generation, so that the diff always describes exactly
    /// what would be written to disk.
    fn replacement_with_marker(&self) -> (r: String)
        ensures
            r@ == self@.marked_replacement(),
            r@ == self.replacement@ + " "@ + MUTATION_MARKER_COMMENT@,
    {
        let mut r = self.replacement.clone();
        r.push_str(" ");
        r.push_str(MUTATION_MARKER_COMMENT);
        r
    }

    /// Return text of the whole file with the mutation applied.
    ///
    /// The replacement is followed by [`MUTATION_MARKER_COMMENT`].
    pub fn mutated_code(&self) -> (r: String)
        ensures
            r@ == self@.mutated(),
    {
        self.span.replace_indexed(
            self.source_file.code(),
            self.source_file.line_index(),
            self.replacement_with_marker().as_str(),
        )
    }

    /// Return the text that this mutation replaces.
    pub fn original_text(&self) -> (r: String)
        ensures
            r@ == self@.original(),
    {
        self.span.extract_indexed(self.source_file.code(), self.source_file.line_index())
    }

    /// Return the text inserted for this mutation.
    pub fn replacement_text(&self) -> (r: &str)
        ensures
            r@ == self@.replacement,
    {
        self.replacement.as_str()
    }

    /// The parts of this mutant's description, in order.
    ///
    /// This is the single definition of the description text; the plain rendering concatenates the parts and
    /// the coloured rendering styles them according to [`PartStyle`], so the two cannot drift apart.
    pub fn describe_parts(&self) -> (r: Vec<(PartStyle, String)>)
        requires
            self@.describable(),
        ensures
            part_models(r@) == self@.parts(),
    {
        let mut v: Vec<(PartStyle, String)> = Vec::new();
        assert(part_models(v@) =~= Seq::<(PartStyle, Seq<char>)>::empty());
        match self.genre {
            Genre::FnValue => {
                push_part(&mut v, PartStyle::Plain, "replace ");
                let function = self.function.as_ref().unwrap();
                push_part(&mut v, PartStyle::BrightMagenta, function.function_name.as_str());
                if !function.return_type.as_str().is_empty() {
                    push_part(&mut v, PartStyle::Plain, " ");
                    push_part(&mut v, PartStyle::Magenta, function.return_type.as_str());
                }
                push_part(&mut v, PartStyle::Plain, " with ");
                push_part(&mut v, PartStyle::Yellow, self.replacement_text());
            },
            Genre::MatchArmGuard => {
                push_part(&mut v, PartStyle::Plain, "replace match guard ");
                let original = self.original_text();
                push_part(&mut v, PartStyle::Yellow, cow_text(&squash_lines(original.as_str())));
                push_part(&mut v, PartStyle::Plain, " with ");
                push_part(&mut v, PartStyle::Yellow, self.replacement_text());
            },
            Genre::MatchArm => {
                push_part(&mut v, PartStyle::Plain, "delete match arm ");
                let pattern = self.short_replaced.as_ref().unwrap();
                push_part(&mut v, PartStyle::Yellow, cow_text(&squash_lines(pattern.as_str())));
            },
            Genre::StructField => {
                if let Some(MutationTarget::StructLiteralField { field_name, struct_name }) = &self.target {
                    push_part(&mut v, PartStyle::Plain, "delete field ");
                    push_part(&mut v, PartStyle::Yellow, field_name.as_str());
                    push_part(&mut v, PartStyle::Plain, " from struct ");
                    push_part(&mut v, PartStyle::Yellow, struct_name.as_str());
                    push_part(&mut v, PartStyle::Plain, " expression");
                } else {
                    // Fallback: shouldn't happen with proper initialization
                    push_part(&mut v, PartStyle::Plain, "delete field from struct expression");
                }
            },
            _ => {
                if self.replacement.as_str().is_empty() {
                    push_part(&mut v, PartStyle::Plain, "delete ");
                } else {
                    push_part(&mut v, PartStyle::Plain, "replace ");
                }
                push_part(&mut v, PartStyle::Yellow, self.original_text().as_str());
                if !self.replacement.as_str().is_empty() {
                    push_part(&mut v, PartStyle::Plain, " with ");
                    push_part(&mut v, PartStyle::BrightYellow, self.replacement.as_str());
                }
            },
        }
        assert(part_models(v@) =~= change_parts(self@));
        if self.genre != Genre::FnValue {
            if let Some(function) = &self.function {
                push_part(&mut v, PartStyle::Plain, " in ");
                push_part(&mut v, PartStyle::BrightMagenta, function.function_name.as_str());
            }
        }
        assert(part_models(v@) =~= self@.parts());
        v
    }

    /// Describe the mutant briefly, not including the location.
    ///
    /// The result is like `replace factorial -> u32 with Default::default()`.
    pub fn describe_change(&self) -> (r: String)
        requires
            self@.describable(),
        ensures
            r@ == self@.description(),
    {
        let parts = self.describe_parts();
        let ghost texts = part_texts(self@.parts());
        let mut out = String::new();
        for i in 0..parts.len()
            invariant
                part_models(parts@) == self@.parts(),
                texts == part_texts(self@.parts()),
                out@ == concatenated(texts.take(i as int)),
        {
            out.push_str(parts[i].1.as_str());
            proof {
                assert(self@.parts()[i as int] == (parts@[i as int].0, parts@[i as int].1@));
                assert(texts.take(i + 1).drop_last() =~= texts.take(i as int));
            }
        }
        assert(texts.take(parts@.len() as int) =~= texts);
        out
    }

    /// Append the name of this mutant to `out`.
    pub fn write_name(&self, show_line_col: bool, out: &mut String)
        requires
            self@.describable(),
        ensures
            final(out)@ == old(out)@ + self@.name_text(show_line_col),
    {
        let ghost before = out@;
        if show_line_col {
            out.push_str(self.source_file.format_source_location(self.span.start).as_str());
        } else {
            out.push_str(self.source_file.tree_relative_slashes());
        }
        out.push_str(": ");
        out.push_str(self.describe_change().as_str());
        assert(out@ =~= before + self@.name_text(show_line_col));
    }

    /// The full name of this mutant, including the line and column.
    ///
    /// This is the name used by the name filters, by `mutants.json`, and by the caught/missed list files.
    pub fn full_name(&self) -> (r: String)
        requires
            self@.describable(),
        ensures
            r@ == self@.name_text(true),
    {
        self.name(true)
    }

    /// The name of this mutant, perhaps with the line and column.
    pub fn name(&self, show_line_col: bool) -> (r: String)
        requires
            self@.describable(),
        ensures
            r@ == self@.name_text(show_line_col),
    {
        let mut out = String::new();
        self.write_name(show_line_col, &mut out);
        assert(out@ =~= self@.name_text(show_line_col));
        out
    }

    /// The parts of this mutant's description as the terminal shows them.
    fn styled_parts(&self) -> (r: Vec<String>)
        requires
            self@.describable(),
        ensures
            shows_parts(self@.parts(), text::texts(r@)),
    {
        // The text content is the same as without colors: see `describe_parts`.
        let parts = self.describe_parts();
        let mut v: Vec<String> = Vec::new();
        for i in 0..parts.len()
            invariant
                part_models(parts@) == self@.parts(),
                v@.len() == i,
                forall|j: int| 0 <= j < i ==> shows_part(self@.parts()[j], (#[trigger] v@[j])@),
        {
            v.push(styled_text(parts[i].0, parts[i].1.as_str()));
            assert(self@.parts()[i as int] == (parts@[i as int].0, parts@[i as int].1@));
        }
        v
    }

    /// The name of this mutant, with the given texts in place of the parts of its description.
    pub fn name_with_parts(&self, show_line_col: bool, shown: &Vec<String>) -> (r: String)
        ensures
            r@ == self@.name_start(show_line_col) + concatenated(text::texts(shown@)),
    {
        let mut out = if show_line_col {
            self.source_file.format_source_location(self.span.start)
        } else {
            self.source_file.tree_relative_slashes().to_owned()
        };
        out.push_str(": ");
        let ghost start = out@;
        let ghost all = text::texts(shown@);
        assert(concatenated(all.take(0)) =~= Seq::<char>::empty());
        for i in 0..shown.len()
            invariant
                all == text::texts(shown@),
                out@ == start + concatenated(all.take(i as int)),
        {
            let ghost before = out@;
            out.push_str(shown[i].as_str());
            proof {
                assert(all.take(i + 1).drop_last() =~= all.take(i as int));
                assert(out@ =~= start + concatenated(all.take(i + 1)));
            }
        }
        assert(all.take(shown@.len() as int) =~= all);
        out
    }

    /// Return a one-line description of this mutant, with coloring, including the file names and optionally
    /// the line and column.
    pub fn to_styled_string(&self, show_line_col: bool) -> (r: String)
        requires
            self@.describable(),
        ensures
            exists|shown: Seq<Seq<char>>| #[trigger]
                shows_parts(self@.parts(), shown) && r@ == self@.name_start(show_line_col) + concatenated(shown),
    {
        let parts = self.styled_parts();
        assert(shows_parts(self@.parts(), text::texts(parts@)));
        self.name_with_parts(show_line_col, &parts)
    }
}

/// The unified diff that the `similar` crate makes of two texts, line by line: with `radius` unchanged lines
/// around each change, under a header of two labels.
pub uninterp spec fn line_diff(
    old_text: Seq<char>,
    new_text: Seq<char>,
    radius: nat,
    old_label: Seq<char>,
    new_label: Seq<char>,
) -> Seq<char>;

/// That `r` is, where the one text becomes the other by replacing a block of lines by lines that are new to it, the diff with
/// one hunk: the lines around the block, the lines removed and the lines added.
pub open spec fn fits_block_diff(
    old_text: Seq<char>,
    new_text: Seq<char>,
    radius: nat,
    old_label: Seq<char>,
    new_label: Seq<char>,
    r: Seq<char>,
) -> bool {
    forall|before: Seq<Seq<char>>, removed: Seq<Seq<char>>, added: Seq<Seq<char>>, after: Seq<Seq<char>>| #[trigger]
        unified::replaces_block(old_text, new_text, before, removed, added, after) ==> r == unified::block_diff(
            before,
            removed,
            added,
            after,
            radius,
            old_label,
            new_label,
        )
}

/// The unified diff of two texts by `similar::TextDiff::from_lines`, which is a function of the texts, the
/// context radius and the two labels alone. The radius is doubled in between.
///
/// Lines that both texts start with, and then lines that both end with, are put aside before the rest is compared. So where
/// a block of lines is replaced by lines that do not occur in the old text, nothing in the block is matched with anything:
/// the whole block is removed and all of the new lines are added. What is then shown is one hunk.
#[verifier::external_body]
fn text_diff(old_text: &str, new_text: &str, radius: usize, old_label: &str, new_label: &str) -> (r: String)
    requires
        radius <= usize::MAX / 2,
    ensures
        r@ == line_diff(old_text@, new_text@, radius as nat, old_label@, new_label@),
        fits_block_diff(old_text@, new_text@, radius as nat, old_label@, new_label@, r@),
{
    similar::TextDiff::from_lines(old_text, new_text)
        .unified_diff()
        .context_radius(radius)
        .header(old_label, new_label)
        .to_string()
}

/// A text with every newline replaced by a space.
pub open spec fn without_newlines(s: Seq<char>) -> Seq<char> {
    Seq::new(
        s.len(),
        |i: int|
            if s[i] == '\n' {
                ' '
            } else {
                s[i]
            },
    )
}

/// Replaces every newline by a space.
fn newlines_to_spaces(s: &str) -> (r: String)
    ensures
        r@ == without_newlines(s@),
{
    let mut r = String::new();
    for c in it: s.chars()
        invariant
            it.seq() == s@,
            r@ == without_newlines(s@).take(it.index() as int),
    {
        r.push(if c == '\n' { ' ' } else { c });
        assert(r@ =~= without_newlines(s@).take(it.index() + 1));
    }
    assert(without_newlines(s@).take(s@.len() as int) =~= without_newlines(s@));
    r
}

impl MutantModel {
    /// The first line, counted from 1, of the neighbourhood of the change.
    pub open spec fn first_diff_line(self) -> int {
        if self.span.start.line <= DIFF_CONTEXT_LINES {
            1
        } else {
            self.span.start.line - DIFF_CONTEXT_LINES
        }
    }

    /// The neighbourhood of the change, in characters: from the start of a line that shows enough context to
    /// the end of such a line. There is none where the file has no such line.
    pub open spec fn diff_window(self) -> Option<(int, int)> {
        let code = self.source_file.code;
        let starts = span::line_starts(code);
        let first = self.first_diff_line();
        let behind = self.span.end.line + DIFF_CONTEXT_LINES + 1;
        let end = if behind <= starts.len() {
            starts[behind - 1]
        } else {
            code.len() as int
        };
        if first <= starts.len() && starts[first - 1] <= self.span.first_char(code) {
            Some(
                (
                    starts[first - 1],
                    if end < self.span.last_char(code) {
                        self.span.last_char(code)
                    } else {
                        end
                    },
                ),
            )
        } else {
            None
        }
    }

    /// The two texts that are compared, and by how many lines they start behind the start of the file.
    pub open spec fn diff_sides(self) -> (Seq<char>, Seq<char>, nat) {
        let code = self.source_file.code;
        match self.diff_window() {
            Some((lo, hi)) => (
                code.subrange(lo, hi),
                code.subrange(lo, self.span.first_char(code)) + self.marked_replacement() + code.subrange(
                    self.span.last_char(code),
                    hi,
                ),
                (self.first_diff_line() - 1) as nat,
            ),
            None => (code, self.mutated(), 0),
        }
    }

    /// The diff of the neighbourhood of the change, with lines counted from its start.
    pub open spec fn window_diff(self) -> Seq<char> {
        line_diff(
            self.diff_sides().0,
            self.diff_sides().1,
            DIFF_CONTEXT_LINES as nat,
            self.source_file.path,
            without_newlines(self.description()),
        )
    }

    /// The unified diff of the change, with lines counted from the start of the file.
    pub open spec fn diff_text(self) -> Seq<char> {
        hunks::renumbered(self.window_diff(), self.diff_sides().2)
    }

    /// That `r` is the unified diff of two texts, labelled with the file and with the change.
    pub open spec fn fits_labelled_diff(self, old_text: Seq<char>, new_text: Seq<char>, r: Seq<char>) -> bool {
        let radius = DIFF_CONTEXT_LINES as nat;
        let new_label = without_newlines(self.description());
        &&& r == line_diff(old_text, new_text, radius, self.source_file.path, new_label)
        &&& fits_block_diff(old_text, new_text, radius, self.source_file.path, new_label, r)
    }

    /// Where the first line that is changed starts, in characters.
    pub open spec fn first_changed(self) -> int {
        span::line_starts(self.source_file.code)[self.span.start.line - 1]
    }

    /// Where the last line that is changed ends, in characters.
    pub open spec fn last_changed(self) -> int {
        span::line_end(self.source_file.code, self.span.end.line - 1)
    }

    /// That the span lies within the file: it starts and ends on lines of the file, and does not take in the end of the last
    /// of them.
    pub open spec fn lies_within_file(self) -> bool {
        let code = self.source_file.code;
        &&& 1 <= self.span.start.line <= self.span.end.line <= span::line_starts(code).len()
        &&& self.span.start.char_index(code) <= self.span.end.char_index(code)
        &&& self.span.end.char_index(code) < self.last_changed() || self.last_changed() == code.len()
    }

    /// The lines before those that are changed.
    pub open spec fn lines_before(self) -> Seq<Seq<char>> {
        unified::lines_of(self.source_file.code.take(self.first_changed()))
    }

    /// The lines that are changed, as they were.
    pub open spec fn removed_lines(self) -> Seq<Seq<char>> {
        unified::lines_of(self.source_file.code.subrange(self.first_changed(), self.last_changed()))
    }

    /// The text of the lines that are changed, as they are with the mutation applied.
    pub open spec fn added_text(self) -> Seq<char> {
        let code = self.source_file.code;
        code.subrange(self.first_changed(), self.span.first_char(code)) + self.marked_replacement() + code.subrange(
            self.span.last_char(code),
            self.last_changed(),
        )
    }

    /// The lines that are changed, as they are with the mutation applied.
    pub open spec fn added_lines(self) -> Seq<Seq<char>> {
        unified::lines_of(self.added_text())
    }

    /// The lines after those that are changed.
    pub open spec fn lines_after(self) -> Seq<Seq<char>> {
        unified::lines_of(self.source_file.code.skip(self.last_changed()))
    }

    /// That the change makes lines that are new to the file, in a file whose lines end in newlines only.
    pub open spec fn makes_new_lines(self) -> bool {
        let code = self.source_file.code;
        &&& forall|i: int|
            0 <= i < self.added_lines().len() ==> !unified::lines_of(code).contains(#[trigger] self.added_lines()[i])
        &&& !code.contains('\r') && !self.replacement.contains('\r')
    }

    /// The unified diff of the whole file, as it is and with the mutation applied, where the change makes new lines.
    pub open spec fn whole_diff(self) -> Seq<char> {
        unified::block_diff(
            self.lines_before(),
            self.removed_lines(),
            self.added_lines(),
            self.lines_after(),
            DIFF_CONTEXT_LINES as nat,
            self.source_file.path,
            without_newlines(self.description()),
        )
    }
}

/// The text of a mutant holds no carriage return that neither the file nor the replacement holds.
proof fn lemma_no_carriage_returns(m: MutantModel)
    requires
        m.makes_new_lines(),
    ensures
        !m.marked_replacement().contains('\r'),
        !m.mutated().contains('\r'),
        !m.diff_sides().0.contains('\r'),
        !m.diff_sides().1.contains('\r'),
{
    reveal_strlit(" ");
    reveal_strlit("/* ~ changed by cargo-mutants ~ */");
    let code = m.source_file.code;
    let written = m.marked_replacement();
    span::position_lies_within(m.span.start, code);
    span::position_lies_within(m.span.end, code);
    diff_sides_hold_the_whole_change(m);
    let marker = " "@ + MUTATION_MARKER_COMMENT@;
    assert(written =~= m.replacement + marker);
    assert forall|i: int| 0 <= i < marker.len() implies marker[i] != '\r' by {
        if i > 0 {
            assert(marker[i] == MUTATION_MARKER_COMMENT@[i - 1]);
        }
    }
    assert forall|i: int| 0 <= i < code.len() implies code[i] != '\r' by {
        assert(code.contains(code[i]));
    }
    assert forall|i: int| 0 <= i < written.len() implies written[i] != '\r' by {
        if i < m.replacement.len() {
            assert(m.replacement.contains(m.replacement[i]));
            assert(written[i] == m.replacement[i]);
        } else {
            assert(written[i] == marker[i - m.replacement.len()]);
        }
    }
    let mutated = m.mutated();
    let first = m.span.first_char(code);
    assert forall|i: int| 0 <= i < mutated.len() implies mutated[i] != '\r' by {
        if i < first {
            assert(mutated[i] == code[i]);
        } else if i < first + written.len() {
            assert(mutated[i] == written[i - first]);
        } else {
            assert(mutated[i] == code.skip(m.span.last_char(code))[i - first - written.len()]);
        }
    }
    let (old_side, new_side, _) = m.diff_sides();
    let (lo, hi) = match m.diff_window() {
        Some(window) => window,
        None => (0, code.len() as int),
    };
    let front = code.take(lo);
    assert forall|i: int| 0 <= i < old_side.len() implies old_side[i] != '\r' by {
        assert(code[front.len() + i] == (front + old_side + code.skip(hi))[front.len() + i]);
    }
    assert forall|i: int| 0 <= i < new_side.len() implies new_side[i] != '\r' by {
        assert(mutated[front.len() + i] == (front + new_side + code.skip(hi))[front.len() + i]);
    }
}

/// Where the changed lines lie.
proof fn lemma_changed_lines(m: MutantModel)
    requires
        m.lies_within_file(),
    ensures
        ({
            let code = m.source_file.code;
            let first = m.first_changed();
            let last = m.last_changed();
            &&& 0 <= first <= m.span.first_char(code) <= m.span.last_char(code) <= last <= code.len()
            &&& first == 0 || code[first - 1] == '\n'
            &&& last < code.len() ==> code[last - 1] == '\n' && m.span.last_char(code) < last && last
                == span::line_starts(code)[m.span.end.line as int]
        }),
{
    let code = m.source_file.code;
    let starts = span::line_starts(code);
    let s = m.span.start.line - 1;
    let e = m.span.end.line - 1;
    span::lemma_first_line(code);
    unified::lemma_lines_between(code, 0, s);
    unified::lemma_lines_between(code, s, e);
    span::position_lies_within_its_line(m.span.start, code);
    span::position_lies_within_its_line(m.span.end, code);
    if e + 1 < starts.len() {
        span::lemma_line_with_newline(code, e);
    }
}

/// The change replaces a block of lines of the file.
proof fn lemma_whole_block(m: MutantModel)
    requires
        m.lies_within_file(),
        m.makes_new_lines(),
    ensures
        unified::replaces_block(
            m.source_file.code,
            m.mutated(),
            m.lines_before(),
            m.removed_lines(),
            m.added_lines(),
            m.lines_after(),
        ),
{
    let code = m.source_file.code;
    let first = m.first_changed();
    let last = m.last_changed();
    lemma_changed_lines(m);
    lemma_no_carriage_returns(m);
    lemma_added_text(m);
    let front = code.take(first);
    let back = code.skip(last);
    lemma_lines_of_three(front, code.subrange(first, last), back);
    assert(front + code.subrange(first, last) + back =~= code);
    lemma_lines_of_three(front, m.added_text(), back);
    assert(front + m.added_text() + back =~= m.mutated());
}

/// The added lines end where the removed lines do, and there is at least one.
proof fn lemma_added_text(m: MutantModel)
    requires
        m.lies_within_file(),
    ensures
        m.added_text().len() > 0,
        m.added_lines().len() > 0,
        m.last_changed() < m.source_file.code.len() ==> m.added_text().last() == '\n' && m.source_file.code.subrange(
            m.first_changed(),
            m.last_changed(),
        ).last() == '\n',
{
    reveal_strlit(" ");
    lemma_changed_lines(m);
    let code = m.source_file.code;
    assert(m.marked_replacement().len() > 0);
    unified::lemma_lines_are_lines(m.added_text());
    if m.last_changed() < code.len() {
        let tail = code.subrange(m.span.last_char(code), m.last_changed());
        assert(tail.len() > 0);
        assert(m.added_text().last() == tail.last());
    }
}

/// The lines of three texts, one behind the other, each of which ends at the end of a line, but for the last of the file.
proof fn lemma_lines_of_three(x: Seq<char>, y: Seq<char>, z: Seq<char>)
    requires
        x.len() == 0 || x.last() == '\n',
        z.len() == 0 || y.len() == 0 || y.last() == '\n',
    ensures
        unified::lines_of(x + y + z) == unified::lines_of(x) + unified::lines_of(y) + unified::lines_of(z),
{
    assert(x + y + z =~= x + (y + z));
    unified::lines_add_up(x, y + z);
    if z.len() == 0 {
        assert(y + z =~= y);
        assert(unified::lines_of(z) =~= Seq::<Seq<char>>::empty());
        assert(unified::lines_of(x) + unified::lines_of(y) + unified::lines_of(z) =~= unified::lines_of(x)
            + unified::lines_of(y));
    } else {
        unified::lines_add_up(y, z);
        assert(unified::lines_of(x) + (unified::lines_of(y) + unified::lines_of(z)) =~= unified::lines_of(x)
            + unified::lines_of(y) + unified::lines_of(z));
    }
}

/// The lines of the window around the change, and those above and below it.
#[verifier::spinoff_prover]
proof fn lemma_window_lines(m: MutantModel) -> (r: (Seq<Seq<char>>, Seq<Seq<char>>, Seq<Seq<char>>, Seq<Seq<char>>))
    requires
        m.lies_within_file(),
    ensures
        ({
            let (above, before, after, below) = r;
            let radius = DIFF_CONTEXT_LINES as nat;
            &&& m.lines_before() == above + before
            &&& m.lines_after() == after + below
            &&& above.len() == m.diff_sides().2
            &&& before.len() == radius || (before.len() < radius && above.len() == 0)
            &&& after.len() == radius || (after.len() < radius && below.len() == 0)
            &&& unified::lines_of(m.diff_sides().0) == before + m.removed_lines() + after
            &&& unified::lines_of(m.diff_sides().1) == before + m.added_lines() + after
        }),
{
    let code = m.source_file.code;
    let starts = span::line_starts(code);
    let first = m.first_changed();
    let last = m.last_changed();
    let first_line = m.first_diff_line();
    let behind = m.span.end.line + DIFF_CONTEXT_LINES + 1;
    lemma_changed_lines(m);
    lemma_added_text(m);
    span::lemma_first_line(code);
    unified::lemma_lines_between(code, 0, first_line - 1);
    unified::lemma_lines_between(code, first_line - 1, m.span.start.line - 1);
    let lo = starts[first_line - 1];
    let hi = if behind <= starts.len() {
        starts[behind - 1]
    } else {
        code.len() as int
    };
    if behind <= starts.len() {
        unified::lemma_lines_between(code, m.span.end.line as int, behind - 1);
    } else if last < code.len() {
        unified::lemma_lines_behind(code, m.span.end.line as int);
    }
    assert(m.diff_window() == Some((lo, hi)));
    let above_text = code.take(lo);
    let before_text = code.subrange(lo, first);
    let after_text = code.subrange(last, hi);
    let below_text = code.skip(hi);
    let above = unified::lines_of(above_text);
    let before = unified::lines_of(before_text);
    let after = unified::lines_of(after_text);
    let below = unified::lines_of(below_text);
    assert(above_text =~= code.subrange(0, lo));
    assert(code.take(first) =~= above_text + before_text);
    assert(above_text.len() > 0 ==> above_text.last() == code[lo - 1]);
    unified::lines_add_up(above_text, before_text);
    assert(before_text.len() > 0 ==> before_text.last() == code[first - 1]);
    assert(code.skip(last) =~= after_text + below_text);
    if behind <= starts.len() {
        assert(after_text.last() == code[hi - 1]);
        unified::lines_add_up(after_text, below_text);
    } else {
        assert(below_text =~= Seq::<char>::empty());
        assert(after_text =~= code.skip(last));
        assert(below =~= Seq::<Seq<char>>::empty());
        assert(after + below =~= after);
        if last == code.len() {
            assert(after_text =~= Seq::<char>::empty());
        }
    }
    lemma_lines_of_three(before_text, code.subrange(first, last), after_text);
    assert(before_text + code.subrange(first, last) + after_text =~= m.diff_sides().0);
    lemma_lines_of_three(before_text, m.added_text(), after_text);
    assert(before_text + m.added_text() + after_text =~= m.diff_sides().1);
    (above, before, after, below)
}

/// The diff of the neighbourhood of a change that makes new lines, with its line numbers moved, is the diff of the whole
/// file.
proof fn lemma_window_diff(m: MutantModel, windowed: Seq<char>)
    requires
        m.lies_within_file(),
        m.makes_new_lines(),
        !m.source_file.path.contains('\n'),
        m.fits_labelled_diff(m.diff_sides().0, m.diff_sides().1, windowed),
    ensures
        hunks::renumbered(windowed, m.diff_sides().2) == m.whole_diff(),
        hunks::hunks_fit(windowed, m.diff_sides().2),
{
    let code = m.source_file.code;
    let (above, before, after, below) = lemma_window_lines(m);
    let removed = m.removed_lines();
    let added = m.added_lines();
    let (old_side, new_side, offset) = m.diff_sides();
    lemma_whole_block(m);
    lemma_no_carriage_returns(m);
    lemma_added_text(m);
    let all = unified::lines_of(code);
    assert(all =~= above + before + removed + after + below);
    let part = unified::lines_of(old_side);
    assert forall|i: int| 0 <= i < added.len() implies !part.contains(#[trigger] added[i]) by {
        if part.contains(added[i]) {
            let k = choose|k: int| 0 <= k < part.len() && part[k] == added[i];
            assert(all[above.len() + k] == part[k]);
        }
    }
    assert(unified::replaces_block(old_side, new_side, before, removed, added, after));
    unified::lemma_lines_are_lines(code.take(m.first_changed()));
    unified::lemma_lines_are_lines(code.subrange(m.first_changed(), m.last_changed()));
    unified::lemma_lines_are_lines(m.added_text());
    unified::lemma_lines_are_lines(code.skip(m.last_changed()));
    assert forall|i: int| 0 <= i < before.len() implies hunks::is_one_line(#[trigger] before[i]) by {
        assert(before[i] == m.lines_before()[above.len() + i]);
    }
    assert forall|i: int| 0 <= i < after.len() implies hunks::is_one_line(#[trigger] after[i]) by {
        assert(after[i] == m.lines_after()[i]);
    }
    let label = without_newlines(m.description());
    assert(!label.contains('\n'));
    unified::diff_of_a_part_is_the_diff_of_the_whole(
        above,
        before,
        removed,
        added,
        after,
        below,
        DIFF_CONTEXT_LINES as nat,
        m.source_file.path,
        label,
    );
}

/// A replacement of one line makes a new line, because of the marker behind it, unless the file already holds the marker.
pub proof fn marked_line_is_new(m: MutantModel)
    requires
        m.lies_within_file(),
        m.span.start.char_index(m.source_file.code) < span::line_end(m.source_file.code, m.span.start.line - 1)
            || m.span.start.line == span::line_starts(m.source_file.code).len(),
        !m.replacement.contains('\n'),
        !m.replacement.contains('\r'),
        !m.source_file.code.contains('\r'),
        !unified::occurs_in(MUTATION_MARKER_COMMENT@, m.source_file.code),
    ensures
        m.makes_new_lines(),
{
    reveal_strlit(" ");
    reveal_strlit("/* ~ changed by cargo-mutants ~ */");
    let code = m.source_file.code;
    let marker = MUTATION_MARKER_COMMENT@;
    let line = m.added_text();
    lemma_changed_lines(m);
    lemma_added_text(m);
    let front = code.subrange(m.first_changed(), m.span.first_char(code));
    let written = m.marked_replacement();
    let at = (front.len() + m.replacement.len() + 1) as int;
    assert(line.subrange(at, at + marker.len()) =~= marker);
    assert(hunks::is_one_line(line)) by {
        lemma_line_has_one_newline(code, m.span.start.line - 1);
        lemma_line_has_one_newline(code, m.span.end.line - 1);
        span::position_lies_within_its_line(m.span.end, code);
        assert forall|i: int| 0 <= i < line.len() - 1 implies line[i] != '\n' by {
            if i < front.len() {
                assert(line[i] == code[m.first_changed() + i]);
            } else if i < front.len() + m.replacement.len() {
                assert(line[i] == m.replacement[i - front.len()]);
                assert(m.replacement.contains(line[i]));
            } else if i < at {
                assert(line[i] == ' ');
            } else if i < at + marker.len() {
                assert(line[i] == marker[i - at]);
            } else {
                assert(line[i] == code[m.span.last_char(code) + (i - front.len() - written.len())]);
            }
        }
    }
    unified::lemma_lines_of_one(line);
    let all = unified::lines_of(code);
    assert forall|i: int| 0 <= i < m.added_lines().len() implies !all.contains(#[trigger] m.added_lines()[i]) by {
        if all.contains(m.added_lines()[i]) {
            let k = choose|k: int| 0 <= k < all.len() && all[k] == m.added_lines()[i];
            assert(unified::occurs_in(marker, all[k]));
            unified::lemma_line_is_part(marker, code, k);
        }
    }
}

/// Only the last character of a line is a newline.
proof fn lemma_line_has_one_newline(s: Seq<char>, line: int)
    requires
        0 <= line < span::line_starts(s).len(),
    ensures
        forall|k: int| span::line_starts(s)[line] <= k < span::line_end(s, line) - 1 ==> s[k] != '\n',
        span::line_end(s, line) == s.len() || s[span::line_end(s, line) - 1] == '\n',
        line + 1 == span::line_starts(s).len() ==> forall|k: int| span::line_starts(s)[line] <= k < s.len() ==> s[k] != '\n',
{
    if line + 1 < span::line_starts(s).len() {
        span::lemma_line_with_newline(s, line);
    } else {
        span::lemma_last_line(s);
    }
}

/// Diffing only the neighbourhood of a change that makes new lines changes nothing: with its line numbers moved, the diff is
/// that of the whole file and the whole mutated file.
pub proof fn window_diff_is_the_whole_diff(m: MutantModel, windowed: Seq<char>, whole: Seq<char>)
    requires
        m.lies_within_file(),
        m.makes_new_lines(),
        !m.source_file.path.contains('\n'),
        m.fits_labelled_diff(m.diff_sides().0, m.diff_sides().1, windowed),
        m.fits_labelled_diff(m.source_file.code, m.mutated(), whole),
    ensures
        hunks::renumbered(windowed, m.diff_sides().2) == whole,
        whole == m.whole_diff(),
        m.diff_text() == whole,
{
    lemma_whole_block(m);
    lemma_window_diff(m, windowed);
}

/// What `diff_sides` compares is the neighbourhood of the change: the file and the mutated file agree before
/// it and after it, and it starts as many lines behind the start of the file as the diff is renumbered by.
#[verifier::spinoff_prover]
#[verifier::rlimit(30)]
pub proof fn diff_sides_hold_the_whole_change(m: MutantModel)
    ensures
        ({
            let (old_side, new_side, lines_before) = m.diff_sides();
            let (lo, hi) = match m.diff_window() {
                Some(window) => window,
                None => (0, m.source_file.code.len() as int),
            };
            let code = m.source_file.code;
            &&& code == code.take(lo) + old_side + code.skip(hi)
            &&& m.mutated() == code.take(lo) + new_side + code.skip(hi)
            &&& lines_before < span::line_starts(code).len()
            &&& span::line_starts(code)[lines_before as int] == lo
        }),
{
    let code = m.source_file.code;
    span::position_lies_within(m.span.start, code);
    span::position_lies_within(m.span.end, code);
    span::lemma_first_line(code);
    let behind = m.span.end.line + DIFF_CONTEXT_LINES + 1;
    if behind <= span::line_starts(code).len() {
        span::lemma_line_starts_ordered(code, behind - 1);
    }
    match m.diff_window() {
        Some((lo, hi)) => {
            span::lemma_line_starts_ordered(code, m.first_diff_line() - 1);
            assert(code =~= code.take(lo) + m.diff_sides().0 + code.skip(hi));
            assert(m.mutated() =~= code.take(lo) + m.diff_sides().1 + code.skip(hi));
        },
        None => {
            assert(code =~= code.take(0) + code + code.skip(code.len() as int));
            assert(m.mutated() =~= code.take(0) + m.mutated() + code.skip(code.len() as int));
        },
    }
}

impl Mutant {
    /// A unified diff of two texts, labelled with the file and with the change.
    fn unified_diff(&self, old_text: &str, new_text: &str) -> (r: String)
        requires
            self@.describable(),
        ensures
            self@.fits_labelled_diff(old_text@, new_text@, r@),
    {
        // There shouldn't be any newlines, but just in case...
        let new_label = newlines_to_spaces(self.describe_change().as_str());
        text_diff(
            old_text,
            new_text,
            DIFF_CONTEXT_LINES,
            self.source_file.tree_relative_slashes(),
            new_label.as_str(),
        )
    }

    /// The diff of the neighbourhood of the change, and the number of lines before that neighbourhood.
    ///
    /// Only the neighbourhood of the mutated span is diffed. Lines further than the context radius from the
    /// span are identical on both sides and so cannot appear in the output.
    ///
    /// The mutated side is built for the window alone, so the whole mutated file is never materialised just to
    /// be diffed.
    fn windowed_diff(&self) -> (r: (String, usize))
        requires
            self@.describable(),
            self@.span.end.line + DIFF_CONTEXT_LINES < usize::MAX,
        ensures
            self@.fits_labelled_diff(self@.diff_sides().0, self@.diff_sides().1, r.0@),
            r.1 == self@.diff_sides().2,
    {
        let orig = self.source_file.code();
        let line_index = self.source_file.line_index();
        let (lo, hi) = self.span.byte_range(orig, line_index);
        let ghost first = self.span.first_char(orig@);
        let ghost last = self.span.last_char(orig@);
        let replacement = self.replacement_with_marker();
        let first_line: usize = if self.span.start.line <= DIFF_CONTEXT_LINES {
            1
        } else {
            self.span.start.line - DIFF_CONTEXT_LINES
        };
        // A window that doesn't contain the span would give a wrong diff, so fall back to the whole file
        // rather than trust inconsistent input.
        if let Some(win_lo) = line_index.line_start(first_line) {
            let ghost win_first = span::line_starts(orig@)[first_line - 1];
            proof {
                if win_first <= first {
                    span::lemma_byte_len_monotonic(orig@, win_first, first);
                } else {
                    span::lemma_byte_len_monotonic(orig@, first, win_first);
                }
            }
            if win_lo <= lo {
                let behind: usize = self.span.end.line + DIFF_CONTEXT_LINES + 1;
                let ghost mut win_last: int = orig@.len() as int;
                let end = match line_index.line_start(behind) {
                    Some(end) => {
                        proof {
                            win_last = span::line_starts(orig@)[behind - 1];
                        }
                        end
                    },
                    None => {
                        proof {
                            assert(orig@.take(orig@.len() as int) =~= orig@);
                        }
                        text_bytes(orig)
                    },
                };
                proof {
                    if win_last <= last {
                        span::lemma_byte_len_monotonic(orig@, win_last, last);
                    } else {
                        span::lemma_byte_len_monotonic(orig@, last, win_last);
                    }
                    if win_last < last {
                        win_last = last;
                    }
                }
                let win_hi: usize = if end < hi {
                    hi
                } else {
                    end
                };
                let old_window = text_between(orig, win_lo, win_hi, Ghost(win_first), Ghost(win_last));
                let mut new_window = String::new();
                new_window.push_str(text_between(orig, win_lo, lo, Ghost(win_first), Ghost(first)));
                new_window.push_str(replacement.as_str());
                new_window.push_str(text_between(orig, hi, win_hi, Ghost(last), Ghost(win_last)));
                assert(new_window@ =~= self@.diff_sides().1);
                let diff = self.unified_diff(old_window, new_window.as_str());
                return (diff, first_line - 1);
            }
        }
        (self.unified_diff(orig, self.mutated_code().as_str()), 0)
    }

    /// Return the unified diff for the mutant.
    ///
    /// The hunk headers are numbered as a whole-file diff would have numbered them. There is no diff where a
    /// line number would be too large to be counted.
    pub fn cached_diff(&self) -> (r: Option<String>)
        requires
            self@.describable(),
            self@.span.end.line + DIFF_CONTEXT_LINES < usize::MAX,
        ensures
            match r {
                Some(diff) => hunks::hunks_fit(self@.window_diff(), self@.diff_sides().2) && diff@ == self@.diff_text(),
                None => !hunks::hunks_fit(self@.window_diff(), self@.diff_sides().2),
            },
            self@.lies_within_file() && self@.makes_new_lines() && !self@.source_file.path.contains('\n') ==> r is Some
                && r->0@ == self@.whole_diff(),
    {
        let (diff, lines_before) = self.windowed_diff();
        proof {
            if self@.lies_within_file() && self@.makes_new_lines() && !self@.source_file.path.contains('\n') {
                lemma_window_diff(self@, diff@);
            }
        }
        if hunks_can_move(diff.as_str(), lines_before) {
            Some(renumber_hunks(diff.as_str(), lines_before))
        } else {
            None
        }
    }
}

/// The text between two byte offsets, which are those of the characters `first` and `last`.
fn text_between<'a>(
    s: &'a str,
    lo: usize,
    hi: usize,
    Ghost(first): Ghost<int>,
    Ghost(last): Ghost<int>,
) -> (r: &'a str)
    requires
        0 <= first <= last <= s@.len(),
        lo == text::byte_len(s@.take(first)),
        hi == text::byte_len(s@.take(last)),
    ensures
        r@ == s@.subrange(first, last),
{
    let (before_end, _) = split_text(s, hi, Ghost(last));
    assert(before_end@.take(first) =~= s@.take(first));
    let (_, between) = split_text(before_end, lo, Ghost(first));
    assert(between@ =~= s@.subrange(first, last));
    between
}

/// The name of a genre.
pub open spec fn genre_name(genre: Genre) -> Seq<char> {
    match genre {
        Genre::FnValue => "FnValue"@,
        Genre::BinaryOperator => "BinaryOperator"@,
        Genre::UnaryOperator => "UnaryOperator"@,
        Genre::MatchArm => "MatchArm"@,
        Genre::MatchArmGuard => "MatchArmGuard"@,
        Genre::IfCondition => "IfCondition"@,
        Genre::WhileCondition => "WhileCondition"@,
        Genre::BoolLiteral => "BoolLiteral"@,
        Genre::DeleteStatement => "DeleteStatement"@,
        Genre::ReturnValue => "ReturnValue"@,
        Genre::StructField => "StructField"@,
    }
}

impl Genre {
    /// The name of this genre.
    pub fn name(self) -> (r: &'static str)
        ensures
            r@ == genre_name(self),
    {
        match self {
            Genre::FnValue => "FnValue",
            Genre::BinaryOperator => "BinaryOperator",
            Genre::UnaryOperator => "UnaryOperator",
            Genre::MatchArm => "MatchArm",
            Genre::MatchArmGuard => "MatchArmGuard",
            Genre::IfCondition => "IfCondition",
            Genre::WhileCondition => "WhileCondition",
            Genre::BoolLiteral => "BoolLiteral",
            Genre::DeleteStatement => "DeleteStatement",
            Genre::ReturnValue => "ReturnValue",
            Genre::StructField => "StructField",
        }
    }
}

/// A position as JSON.
pub open spec fn position_json(pos: LineColumn) -> JsonModel {
    json::object(
        seq![
            ("line"@, JsonModel::Number(pos.line as nat)),
            ("column"@, JsonModel::Number(pos.column as nat)),
        ],
    )
}

/// A span as JSON.
pub open spec fn span_json(span: Span) -> JsonModel {
    json::object(seq![("start"@, position_json(span.start)), ("end"@, position_json(span.end))])
}

/// A function as JSON, or null.
pub open spec fn function_json(function: Option<FunctionModel>) -> JsonModel {
    match function {
        Some(f) => json::object(
            seq![
                ("function_name"@, JsonModel::Text(f.function_name)),
                ("return_type"@, JsonModel::Text(f.return_type)),
                ("span"@, span_json(f.span)),
            ],
        ),
        None => JsonModel::Null,
    }
}

impl MutantModel {
    /// What is said of the mutant in JSON, with its diff and without inessential details.
    pub open spec fn json_fields(self) -> Seq<(Seq<char>, JsonModel)> {
        seq![
            ("name"@, JsonModel::Text(self.name_text(true))),
            ("package"@, JsonModel::Text(self.source_file.package.name)),
            ("file"@, JsonModel::Text(self.source_file.path)),
            ("function"@, function_json(self.function)),
            ("span"@, span_json(self.span)),
            ("replacement"@, JsonModel::Text(self.replacement)),
            ("genre"@, JsonModel::Text(genre_name(self.genre))),
            ("diff"@, JsonModel::Text(self.diff_text())),
        ]
    }

    /// The mutant as JSON.
    pub open spec fn json(self) -> JsonModel {
        json::object(self.json_fields())
    }

    /// That the mutant has a diff: its lines can be counted.
    pub open spec fn has_diff(self) -> bool {
        hunks::hunks_fit(self.window_diff(), self.diff_sides().2)
    }

    /// That the mutant can be listed: it can be described, and the lines around it can be counted.
    pub open spec fn listable(self) -> bool {
        self.describable() && self.span.end.line + DIFF_CONTEXT_LINES < usize::MAX
    }
}

/// A position as JSON.
fn position_to_json(pos: LineColumn) -> (r: Json)
    ensures
        json::json_model(r) == position_json(pos),
{
    let mut fields: Vec<(String, Json)> = Vec::new();
    push_field(&mut fields, "line", Json::Number(pos.line));
    push_field(&mut fields, "column", Json::Number(pos.column));
    assert(json::field_models(fields@) =~= seq![
        ("line"@, JsonModel::Number(pos.line as nat)),
        ("column"@, JsonModel::Number(pos.column as nat)),
    ]);
    json_object(fields)
}

/// A span as JSON.
fn span_to_json(span: Span) -> (r: Json)
    ensures
        json::json_model(r) == span_json(span),
{
    let mut fields: Vec<(String, Json)> = Vec::new();
    push_field(&mut fields, "start", position_to_json(span.start));
    push_field(&mut fields, "end", position_to_json(span.end));
    assert(json::field_models(fields@) =~= seq![
        ("start"@, position_json(span.start)),
        ("end"@, position_json(span.end)),
    ]);
    json_object(fields)
}

/// A function as JSON, or null.
fn function_to_json(function: &Option<Function>) -> (r: Json)
    ensures
        json::json_model(r) == function_json(
            match *function {
                Some(f) => Some(f@),
                None => None,
            },
        ),
{
    match function {
        Some(f) => {
            let mut fields: Vec<(String, Json)> = Vec::new();
            push_field(&mut fields, "function_name", json_string(f.function_name.as_str()));
            push_field(&mut fields, "return_type", json_string(f.return_type.as_str()));
            push_field(&mut fields, "span", span_to_json(f.span));
            assert(json::field_models(fields@) =~= seq![
                ("function_name"@, JsonModel::Text(f@.function_name)),
                ("return_type"@, JsonModel::Text(f@.return_type)),
                ("span"@, span_json(f@.span)),
            ]);
            json_object(fields)
        },
        None => Json::Null,
    }
}

/// A change to one file of a tree: what the file is to hold.
pub struct FileUpdate {
    /// The path of the file, relative to the tree.
    pub tree_relative_path: String,
    pub contents: String,
}

/// The files of a tree, by path, after a change.
pub open spec fn updated(files: Map<Seq<char>, Seq<char>>, update: FileUpdate) -> Map<Seq<char>, Seq<char>> {
    files.insert(update.tree_relative_path@, update.contents@)
}

/// A path made fit for a file name: a slash becomes two underscores, and what some system does not allow in a
/// file name becomes one.
pub open spec fn cleaned_prefix(s: Seq<char>, n: int) -> Seq<char>
    decreases n,
{
    if n <= 0 {
        Seq::<char>::empty()
    } else {
        let c = s[n - 1];
        let before = cleaned_prefix(s, n - 1);
        if c == '/' {
            before + "__"@
        } else if c == '\\' || c == ' ' || c == ':' || c == '<' || c == '>' || c == '?' || c == '*' || c == '|' || c
            == '"' {
            before.push('_')
        } else {
            before.push(c)
        }
    }
}

/// A path made fit for a file name.
pub fn clean_filename(s: &str) -> (r: String)
    ensures
        r@ == cleaned_prefix(s@, s@.len() as int),
{
    let mut r = String::new();
    for c in it: s.chars()
        invariant
            it.seq() == s@,
            r@ == cleaned_prefix(s@, it.index() as int),
    {
        match c {
            '/' => r.push_str("__"),
            '\\' | ' ' | ':' | '<' | '>' | '?' | '*' | '|' | '"' => r.push('_'),
            _ => r.push(c),
        }
    }
    r
}

impl Mutant {
    /// What applying this mutant writes to the relevant file of a build tree.
    pub fn apply(&self, mutated_code: &str) -> (r: FileUpdate)
        ensures
            r.tree_relative_path@ == self@.source_file.path,
            r.contents@ == mutated_code@,
    {
        FileUpdate {
            tree_relative_path: self.source_file.tree_relative_slashes().to_owned(),
            contents: mutated_code.to_owned(),
        }
    }

    /// What reverting this mutant writes to the relevant file of a build tree.
    pub fn revert(&self) -> (r: FileUpdate)
        ensures
            r.tree_relative_path@ == self@.source_file.path,
            r.contents@ == self@.source_file.code,
    {
        FileUpdate {
            tree_relative_path: self.source_file.tree_relative_slashes().to_owned(),
            contents: self.source_file.code().to_owned(),
        }
    }

    /// Return a string describing this mutant that's suitable for building a log file name.
    pub fn log_file_name_base(&self) -> (r: String)
        ensures
            r@ == cleaned_prefix(self@.source_file.path, self@.source_file.path.len() as int) + "_line_"@
                + text::decimal(self@.span.start.line as nat) + "_col_"@ + text::decimal(
                self@.span.start.column as nat,
            ),
    {
        let mut r = clean_filename(self.source_file.tree_relative_slashes());
        r.push_str("_line_");
        push_decimal(&mut r, self.span.start.line);
        r.push_str("_col_");
        push_decimal(&mut r, self.span.start.column);
        r
    }

    /// Convert this mutant to a JSON value including the diff.
    ///
    /// This is used for both `--list --json` output and for writing `mutants.out/mutants.json`. There is none
    /// where there is no diff.
    pub fn to_json(&self) -> (r: Option<Json>)
        requires
            self@.listable(),
        ensures
            match r {
                Some(value) => self@.has_diff() && json::json_model(value) == self@.json(),
                None => !self@.has_diff(),
            },
    {
        match self.cached_diff() {
            Some(diff) => {
                let mut fields: Vec<(String, Json)> = Vec::new();
                push_field(&mut fields, "name", json_string(self.full_name().as_str()));
                push_field(&mut fields, "package", json_string(self.source_file.package().name.as_str()));
                push_field(&mut fields, "file", json_string(self.source_file.tree_relative_slashes()));
                push_field(&mut fields, "function", function_to_json(&self.function));
                push_field(&mut fields, "span", span_to_json(self.span));
                push_field(&mut fields, "replacement", json_string(self.replacement.as_str()));
                push_field(&mut fields, "genre", json_string(self.genre.name()));
                push_field(&mut fields, "diff", json_string(diff.as_str()));
                assert(json::field_models(fields@) =~= self@.json_fields());
                Some(json_object(fields))
            },
            None => None,
        }
    }
}

/// Applying a mutant and then reverting it leaves every file as it was, and applying it changes no file but its
/// own.
pub proof fn reverting_undoes_applying(
    m: MutantModel,
    files: Map<Seq<char>, Seq<char>>,
    applied: FileUpdate,
    reverted: FileUpdate,
)
    requires
        files.contains_key(m.source_file.path),
        files[m.source_file.path] == m.source_file.code,
        applied.tree_relative_path@ == m.source_file.path,
        reverted.tree_relative_path@ == m.source_file.path,
        reverted.contents@ == m.source_file.code,
    ensures
        updated(updated(files, applied), reverted) == files,
        forall|path: Seq<char>|
            path != m.source_file.path ==> (files.contains_key(path) <==> #[trigger] updated(files, applied).contains_key(
                path,
            )) && files[path] == updated(files, applied)[path],
{
    assert(updated(updated(files, applied), reverted) =~= files);
}

/// Whether two optional texts are the same.
fn same_optional_text(a: &Option<String>, b: &Option<String>) -> (r: bool)
    ensures
        r == (optional_text(*a) == optional_text(*b)),
{
    match (a, b) {
        (Some(a), Some(b)) => same_text(a.as_str(), b.as_str()),
        (None, None) => true,
        _ => false,
    }
}

impl MutantModel {
    /// Whether two mutants make the same change to the same place: where the place is evaluated is not part of
    /// the change.
    pub open spec fn same_change(self, other: MutantModel) -> bool {
        self == (MutantModel { const_eval: self.const_eval, ..other })
    }
}

/// Two mutants are the same if they make the same change to the same place.
impl PartialEq for Mutant {
    fn eq(&self, other: &Self) -> (r: bool) {
        let same_function = match (&self.function, &other.function) {
            (Some(a), Some(b)) => same_text(a.function_name.as_str(), b.function_name.as_str()) && same_text(
                a.return_type.as_str(),
                b.return_type.as_str(),
            ) && a.span == b.span,
            (None, None) => true,
            _ => false,
        };
        let same_target = match (&self.target, &other.target) {
            (
                Some(MutationTarget::StructLiteralField { field_name: f1, struct_name: s1 }),
                Some(MutationTarget::StructLiteralField { field_name: f2, struct_name: s2 }),
            ) => same_text(f1.as_str(), f2.as_str()) && same_text(s1.as_str(), s2.as_str()),
            (None, None) => true,
            _ => false,
        };
        self.source_file.same(&other.source_file) && same_function && self.span == other.span && same_optional_text(
            &self.short_replaced,
            &other.short_replaced,
        ) && same_text(self.replacement.as_str(), other.replacement.as_str()) && self.genre == other.genre
            && same_target
    }
}

impl vstd::std_specs::cmp::PartialEqSpecImpl for Mutant {
    open spec fn obeys_eq_spec() -> bool {
        true
    }

    open spec fn eq_spec(&self, other: &Self) -> bool {
        self@.same_change(other@)
    }
}

/// The debug form of an optional text.
pub open spec fn optional_debug(s: Option<Seq<char>>) -> Seq<char> {
    match s {
        Some(s) => "Some("@ + text::debug_form(s) + ")"@,
        None => "None"@,
    }
}

/// The debug form of a flag.
pub open spec fn bool_text(b: bool) -> Seq<char> {
    if b {
        "true"@
    } else {
        "false"@
    }
}

impl FunctionModel {
    /// The debug form.
    pub open spec fn debug_text(self) -> Seq<char> {
        "Function { function_name: "@ + text::debug_form(self.function_name) + ", return_type: "@ + text::debug_form(
            self.return_type,
        ) + ", span: "@ + self.span.debug_text() + " }"@
    }
}

impl TargetModel {
    /// The debug form.
    pub open spec fn debug_text(self) -> Seq<char> {
        "StructLiteralField { field_name: "@ + text::debug_form(self.field_name) + ", struct_name: "@
            + text::debug_form(self.struct_name) + " }"@
    }
}

impl SourceModel {
    /// The debug form, without the text of the file.
    pub open spec fn debug_text(self) -> Seq<char> {
        "SourceFile { package: Package { name: "@ + text::debug_form(self.package.name) + ", version: "@
            + text::debug_form(self.package.version) + " }, tree_relative_path: "@ + text::debug_form(self.path)
            + ", is_top: "@ + bool_text(self.is_top) + " }"@
    }
}

impl MutantModel {
    /// The debug form. It has neither the name nor the diff nor where the place is evaluated: they are derived, and the diff
    /// would drag the whole source file into the output.
    pub open spec fn debug_text(self) -> Seq<char> {
        let function = match self.function {
            Some(function) => "Some("@ + function.debug_text() + ")"@,
            None => "None"@,
        };
        let target = match self.target {
            Some(target) => "Some("@ + target.debug_text() + ")"@,
            None => "None"@,
        };
        "Mutant { source_file: "@ + self.source_file.debug_text() + ", function: "@ + function + ", span: "@
            + self.span.debug_text() + ", short_replaced: "@ + optional_debug(self.short_replaced)
            + ", replacement: "@ + text::debug_form(self.replacement) + ", genre: "@ + genre_name(self.genre)
            + ", target: "@ + target + " }"@
    }
}

fn bool_string(b: bool) -> (r: &'static str)
    ensures
        r@ == bool_text(b),
{
    if b {
        "true"
    } else {
        "false"
    }
}

fn source_file_debug(source_file: &SourceFile) -> (r: String)
    ensures
        r@ == source_file@.debug_text(),
{
    let mut r = "SourceFile { package: Package { name: ".to_owned();
    r.push_str(debug_string(source_file.package().name.as_str()).as_str());
    r.push_str(", version: ");
    r.push_str(debug_string(source_file.package().version.as_str()).as_str());
    r.push_str(" }, tree_relative_path: ");
    r.push_str(debug_string(source_file.tree_relative_slashes()).as_str());
    r.push_str(", is_top: ");
    r.push_str(bool_string(source_file.is_top()));
    r.push_str(" }");
    r
}

impl Function {
    /// The debug form.
    pub fn to_debug_string(&self) -> (r: String)
        ensures
            r@ == self@.debug_text(),
    {
        let mut r = "Function { function_name: ".to_owned();
        r.push_str(debug_string(self.function_name.as_str()).as_str());
        r.push_str(", return_type: ");
        r.push_str(debug_string(self.return_type.as_str()).as_str());
        r.push_str(", span: ");
        r.push_str(self.span.to_debug_string().as_str());
        r.push_str(" }");
        r
    }
}

impl MutationTarget {
    /// The debug form.
    pub fn to_debug_string(&self) -> (r: String)
        ensures
            r@ == self@.debug_text(),
    {
        match self {
            MutationTarget::StructLiteralField { field_name, struct_name } => {
                let mut r = "StructLiteralField { field_name: ".to_owned();
                r.push_str(debug_string(field_name.as_str()).as_str());
                r.push_str(", struct_name: ");
                r.push_str(debug_string(struct_name.as_str()).as_str());
                r.push_str(" }");
                r
            },
        }
    }
}

impl Mutant {
    /// The debug form.
    pub fn to_debug_string(&self) -> (r: String)
        ensures
            r@ == self@.debug_text(),
    {
        let mut r = "Mutant { source_file: ".to_owned();
        r.push_str(source_file_debug(&self.source_file).as_str());
        r.push_str(", function: ");
        let function = match &self.function {
            Some(function) => {
                let mut some = "Some(".to_owned();
                some.push_str(function.to_debug_string().as_str());
                some.push_str(")");
                some
            },
            None => "None".to_owned(),
        };
        r.push_str(function.as_str());
        r.push_str(", span: ");
        r.push_str(self.span.to_debug_string().as_str());
        r.push_str(", short_replaced: ");
        let short_replaced = match &self.short_replaced {
            Some(short_replaced) => {
                let mut some = "Some(".to_owned();
                some.push_str(debug_string(short_replaced.as_str()).as_str());
                some.push_str(")");
                some
            },
            None => "None".to_owned(),
        };
        r.push_str(short_replaced.as_str());
        r.push_str(", replacement: ");
        r.push_str(debug_string(self.replacement.as_str()).as_str());
        r.push_str(", genre: ");
        r.push_str(self.genre.name());
        r.push_str(", target: ");
        let target = match &self.target {
            Some(target) => {
                let mut some = "Some(".to_owned();
                some.push_str(target.to_debug_string().as_str());
                some.push_str(")");
                some
            },
            None => "None".to_owned(),
        };
        r.push_str(target.as_str());
        r.push_str(" }");
        r
    }
}

/// Two mutants that make the same change to the same place have the same debug form and the same JSON form, wherever that
/// place is evaluated.
pub proof fn same_changes_look_the_same(a: MutantModel, b: MutantModel)
    requires
        a.same_change(b),
    ensures
        a.debug_text() == b.debug_text(),
        a.json() == b.json(),
{
    assert(a.parts() =~= b.parts());
    assert(a.json_fields() =~= b.json_fields());
}

/// The mutated file is the file up to the span, then exactly the replacement of the mutant, whatever its genre, then a space
/// and the marker, and then the file from the end of the span on.
pub proof fn mutated_code_holds_the_replacement(m: MutantModel)
    ensures
        ({
            let code = m.source_file.code;
            let first = m.span.start.char_index(code);
            let end = m.span.end.char_index(code);
            let last = if end < first {
                first
            } else {
                end
            };
            let n = m.replacement.len();
            &&& m.mutated() == code.take(first) + m.replacement + " "@ + "/* ~ changed by cargo-mutants ~ */"@ + code.skip(last)
            &&& m.mutated().subrange(first, first + n) == m.replacement
            &&& m.mutated()[first + n] == ' '
            &&& m.mutated().subrange(first + n + 1, first + n + 1 + MUTATION_MARKER_COMMENT@.len())
                == MUTATION_MARKER_COMMENT@
        }),
{
    reveal_strlit(" ");
    let code = m.source_file.code;
    let first = m.span.start.char_index(code);
    let last = m.span.last_char(code);
    let n = m.replacement.len();
    span::position_lies_within(m.span.start, code);
    span::position_lies_within(m.span.end, code);
    assert(m.mutated() =~= code.take(first) + m.replacement + " "@ + "/* ~ changed by cargo-mutants ~ */"@ + code.skip(last));
    assert(m.mutated().subrange(first, first + n) =~= m.replacement);
    assert(m.mutated().subrange(first + n + 1, first + n + 1 + MUTATION_MARKER_COMMENT@.len()) =~= MUTATION_MARKER_COMMENT@);
}

/// Two mutants at the same place of the same file write the same code only if they have the same replacement.
pub proof fn different_replacements_write_different_code(a: MutantModel, b: MutantModel)
    requires
        a.source_file == b.source_file,
        a.span == b.span,
    ensures
        a.mutated() == b.mutated() <==> a.replacement == b.replacement,
{
    mutated_code_holds_the_replacement(a);
    mutated_code_holds_the_replacement(b);
    let first = a.span.start.char_index(a.source_file.code);
    span::position_lies_within(a.span.start, a.source_file.code);
    if a.mutated() == b.mutated() {
        assert(a.mutated().len() == b.mutated().len());
        assert(a.replacement.len() == b.replacement.len());
        assert(a.mutated().subrange(first, first + a.replacement.len()) == b.mutated().subrange(
            first,
            first + b.replacement.len(),
        ));
    }
}

/// What the diff adds is the changed lines with the replacement of the mutant, a space and the marker in place of what is
/// replaced; and putting the added lines in place of the removed ones makes the mutated file of the file.
pub proof fn diff_shows_the_replacement(m: MutantModel)
    requires
        m.lies_within_file(),
    ensures
        ({
            let code = m.source_file.code;
            let first = m.span.start.char_index(code);
            let last = m.span.end.char_index(code);
            &&& m.added_text() == code.subrange(m.first_changed(), first) + m.replacement + " "@ + MUTATION_MARKER_COMMENT@
                + code.subrange(last, m.last_changed())
            &&& m.mutated() == code.take(m.first_changed()) + m.added_text() + code.skip(m.last_changed())
            &&& m.makes_new_lines() ==> unified::lines_of(code) == m.lines_before() + m.removed_lines() + m.lines_after()
            &&& m.makes_new_lines() ==> unified::lines_of(m.mutated()) == m.lines_before() + m.added_lines()
                + m.lines_after()
        }),
{
    let code = m.source_file.code;
    let first = m.span.start.char_index(code);
    let last = m.span.end.char_index(code);
    lemma_changed_lines(m);
    mutated_code_holds_the_replacement(m);
    assert(m.added_text() =~= code.subrange(m.first_changed(), first) + m.replacement + " "@ + MUTATION_MARKER_COMMENT@
        + code.subrange(last, m.last_changed()));
    assert(m.mutated() =~= code.take(m.first_changed()) + m.added_text() + code.skip(m.last_changed()));
    if m.makes_new_lines() {
        lemma_whole_block(m);
    }
}

proof fn lemma_concatenated_prefix(texts: Seq<Seq<char>>, n: int)
    requires
        0 < n <= texts.len(),
    ensures
        concatenated(texts.take(n)) == concatenated(texts.take(n - 1)) + texts[n - 1],
{
    assert(texts.take(n).drop_last() =~= texts.take(n - 1));
}

/// Up to seven texts, one behind the other.
proof fn lemma_concatenated_few(texts: Seq<Seq<char>>)
    requires
        texts.len() <= 7,
    ensures
        texts.len() == 1 ==> concatenated(texts) == texts[0],
        texts.len() == 2 ==> concatenated(texts) == texts[0] + texts[1],
        texts.len() == 3 ==> concatenated(texts) == texts[0] + texts[1] + texts[2],
        texts.len() == 4 ==> concatenated(texts) == texts[0] + texts[1] + texts[2] + texts[3],
        texts.len() == 5 ==> concatenated(texts) == texts[0] + texts[1] + texts[2] + texts[3] + texts[4],
        texts.len() == 6 ==> concatenated(texts) == texts[0] + texts[1] + texts[2] + texts[3] + texts[4] + texts[5],
        texts.len() == 7 ==> concatenated(texts) == texts[0] + texts[1] + texts[2] + texts[3] + texts[4] + texts[5]
            + texts[6],
{
    assert(concatenated(texts.take(0)) =~= Seq::<char>::empty());
    if texts.len() >= 1 {
        lemma_concatenated_prefix(texts, 1);
        assert(Seq::<char>::empty() + texts[0] =~= texts[0]);
    }
    if texts.len() >= 2 {
        lemma_concatenated_prefix(texts, 2);
    }
    if texts.len() >= 3 {
        lemma_concatenated_prefix(texts, 3);
    }
    if texts.len() >= 4 {
        lemma_concatenated_prefix(texts, 4);
    }
    if texts.len() >= 5 {
        lemma_concatenated_prefix(texts, 5);
    }
    if texts.len() >= 6 {
        lemma_concatenated_prefix(texts, 6);
    }
    if texts.len() >= 7 {
        lemma_concatenated_prefix(texts, 7);
    }
    assert(texts.take(texts.len() as int) =~= texts);
}

/// What is said of the function around a change, behind the change.
pub open spec fn within_function(function: Option<FunctionModel>) -> Seq<char> {
    match function {
        Some(function) => " in "@ + function.function_name,
        None => Seq::<char>::empty(),
    }
}

/// A mutant of the value of a function is described by the function, its return type if it has one, and the value.
pub proof fn function_values_are_described(m: MutantModel)
    requires
        m.genre == Genre::FnValue,
        m.function is Some,
    ensures
        ({
            let function = m.function->0;
            m.description() == "replace "@ + function.function_name + (if function.return_type.len() == 0 {
                Seq::<char>::empty()
            } else {
                " "@ + function.return_type
            }) + " with "@ + m.replacement
        }),
{
    let function = m.function->0;
    let texts = part_texts(m.parts());
    lemma_concatenated_few(texts);
    if function.return_type.len() == 0 {
        assert(texts =~= seq!["replace "@, function.function_name, " with "@, m.replacement]);
    } else {
        assert(texts =~= seq![
            "replace "@,
            function.function_name,
            " "@,
            function.return_type,
            " with "@,
            m.replacement,
        ]);
    }
    assert(m.description() =~= "replace "@ + function.function_name + (if function.return_type.len() == 0 {
        Seq::<char>::empty()
    } else {
        " "@ + function.return_type
    }) + " with "@ + m.replacement);
}

/// Any other mutant is described by what it changes and by the function around it: a replaced guard by the old and the new
/// guard, a deleted arm by its pattern, a deleted field by the field and the struct, and the rest by the old and the new text,
/// or as the deletion of the old text if nothing takes its place.
pub proof fn changes_are_described(m: MutantModel)
    requires
        m.genre != Genre::FnValue,
        m.describable(),
    ensures
        ({
            let tail = within_function(m.function);
            let original = m.span.region(m.source_file.code);
            &&& m.genre == Genre::MatchArmGuard ==> m.description() == "replace match guard "@ + squashed(original)
                + " with "@ + m.replacement + tail
            &&& m.genre == Genre::MatchArm ==> m.description() == "delete match arm "@ + squashed(m.short_replaced->0) + tail
            &&& m.genre == Genre::StructField ==> m.description() == (match m.target {
                Some(target) => "delete field "@ + target.field_name + " from struct "@ + target.struct_name + " expression"@,
                None => "delete field from struct expression"@,
            }) + tail
            &&& m.genre != Genre::MatchArmGuard && m.genre != Genre::MatchArm && m.genre != Genre::StructField
                && m.replacement.len() == 0 ==> m.description() == "delete "@ + original + tail
            &&& m.genre != Genre::MatchArmGuard && m.genre != Genre::MatchArm && m.genre != Genre::StructField
                && m.replacement.len() > 0 ==> m.description() == "replace "@ + original + " with "@ + m.replacement + tail
        }),
{
    let tail = within_function(m.function);
    let original = m.span.region(m.source_file.code);
    let texts = part_texts(m.parts());
    lemma_concatenated_few(texts);
    match m.genre {
        Genre::MatchArmGuard => {
            assert(m.description() =~= "replace match guard "@ + squashed(original) + " with "@ + m.replacement + tail);
        },
        Genre::MatchArm => {
            assert(m.description() =~= "delete match arm "@ + squashed(m.short_replaced->0) + tail);
        },
        Genre::StructField => {
            assert(m.description() =~= (match m.target {
                Some(target) => "delete field "@ + target.field_name + " from struct "@ + target.struct_name + " expression"@,
                None => "delete field from struct expression"@,
            }) + tail);
        },
        _ => {
            if m.replacement.len() == 0 {
                assert(m.description() =~= "delete "@ + original + tail);
            } else {
                assert(m.description() =~= "replace "@ + original + " with "@ + m.replacement + tail);
            }
        },
    }
}

/// The name of a mutant is the path of its file, the line and the column where it starts if they are shown, and its
/// description.
pub proof fn names_start_with_the_place(m: MutantModel)
    ensures
        m.name_text(false) == m.source_file.path + ": "@ + m.description(),
        m.name_text(true) == m.source_file.path + ":"@ + text::decimal(m.span.start.line as nat) + ":"@ + text::decimal(
            m.span.start.column as nat,
        ) + ": "@ + m.description(),
{
}

/// The colours of a description do not change it: without them, what is shown is the description.
pub proof fn plain_parts_are_the_description(m: MutantModel, shown: Seq<Seq<char>>)
    requires
        shown.len() == m.parts().len(),
        forall|i: int| 0 <= i < shown.len() ==> #[trigger] shown[i] == m.parts()[i].1,
    ensures
        shows_parts(m.parts(), shown),
        concatenated(shown) == m.description(),
{
    assert(shown =~= part_texts(m.parts()));
}

/// The characters of a text that are not white space, as squashing understands it.
pub open spec fn visible(s: Seq<char>) -> Seq<char>
    decreases s.len(),
{
    if s.len() == 0 {
        s
    } else if s.last() == ' ' || s.last() == '\t' || s.last() == '\n' {
        visible(s.drop_last())
    } else {
        visible(s.drop_last()).push(s.last())
    }
}

proof fn lemma_squashed_prefix_is_visible(s: Seq<char>, n: int)
    requires
        0 <= n <= s.len(),
    ensures
        visible(squashed_prefix(s, n).0) == visible(s.take(n)),
    decreases n,
{
    if n > 0 {
        lemma_squashed_prefix_is_visible(s, n - 1);
        assert(s.take(n).drop_last() =~= s.take(n - 1));
        let before = squashed_prefix(s, n - 1).0;
        assert(before.push(' ').drop_last() =~= before);
        assert(before.push(s[n - 1]).drop_last() =~= before);
    }
}

/// Squashing a text changes only its white space, and a text of one line not at all.
pub proof fn squashing_keeps_what_is_visible(s: Seq<char>)
    ensures
        visible(squashed(s)) == visible(s),
        !s.contains('\n') ==> squashed(s) == s,
{
    lemma_squashed_prefix_is_visible(s, s.len() as int);
    assert(s.take(s.len() as int) =~= s);
}

/// That a character can stand in a file name on every system.
pub open spec fn fits_filename(c: char) -> bool {
    c != '/' && c != '\\' && c != ' ' && c != ':' && c != '<' && c != '>' && c != '?' && c != '*' && c != '|' && c != '"'
}

proof fn lemma_cleaned_parts(a: Seq<char>, s: Seq<char>, start: int, n: int)
    requires
        0 <= start <= s.len(),
        a == s.skip(start),
        0 <= n <= a.len(),
    ensures
        cleaned_prefix(s, start + n) == cleaned_prefix(s, start) + cleaned_prefix(a, n),
    decreases n,
{
    if n > 0 {
        lemma_cleaned_parts(a, s, start, n - 1);
        assert(a[n - 1] == s[start + n - 1]);
        assert(cleaned_prefix(s, start + n) =~= cleaned_prefix(s, start) + cleaned_prefix(a, n));
    } else {
        assert(cleaned_prefix(s, start) =~= cleaned_prefix(s, start) + cleaned_prefix(a, 0));
    }
}

proof fn lemma_cleaned_front(a: Seq<char>, s: Seq<char>, n: int)
    requires
        0 <= n <= a.len() <= s.len(),
        forall|i: int| 0 <= i < a.len() ==> a[i] == s[i],
    ensures
        cleaned_prefix(a, n) == cleaned_prefix(s, n),
    decreases n,
{
    if n > 0 {
        lemma_cleaned_front(a, s, n - 1);
    }
}

/// A path is made fit for a file name character by character: what was done to one part does not depend on the other.
pub proof fn paths_are_cleaned_character_by_character(a: Seq<char>, b: Seq<char>)
    ensures
        cleaned_prefix(a + b, (a + b).len() as int) == cleaned_prefix(a, a.len() as int) + cleaned_prefix(b, b.len() as int),
{
    let s = a + b;
    assert(s.skip(a.len() as int) =~= b);
    lemma_cleaned_parts(b, s, a.len() as int, b.len() as int);
    lemma_cleaned_front(a, s, a.len() as int);
}

/// A slash becomes two underscores, another character that does not fit a file name becomes one, and any other stays.
pub proof fn characters_are_cleaned_for_file_names(c: char)
    ensures
        c == '/' ==> cleaned_prefix(seq![c], 1) == "__"@,
        c != '/' && !fits_filename(c) ==> cleaned_prefix(seq![c], 1) == "_"@,
        fits_filename(c) ==> cleaned_prefix(seq![c], 1) == seq![c],
{
    reveal_strlit("__");
    reveal_strlit("_");
    reveal_with_fuel(cleaned_prefix, 2);
    assert(cleaned_prefix(seq![c], 0) =~= Seq::<char>::empty());
    if c == '/' {
        assert(cleaned_prefix(seq![c], 1) =~= "__"@);
    } else if !fits_filename(c) {
        assert(cleaned_prefix(seq![c], 1) =~= "_"@);
    } else {
        assert(cleaned_prefix(seq![c], 1) =~= seq![c]);
    }
}

/// All characters of a cleaned path fit a file name.
pub proof fn cleaned_paths_fit_file_names(s: Seq<char>, n: int)
    requires
        0 <= n <= s.len(),
    ensures
        forall|i: int| 0 <= i < cleaned_prefix(s, n).len() ==> fits_filename(#[trigger] cleaned_prefix(s, n)[i]),
    decreases n,
{
    reveal_strlit("__");
    if n > 0 {
        cleaned_paths_fit_file_names(s, n - 1);
        let before = cleaned_prefix(s, n - 1);
        let after = cleaned_prefix(s, n);
        assert forall|i: int| 0 <= i < after.len() implies fits_filename(#[trigger] after[i]) by {
            if i < before.len() {
                assert(after[i] == before[i]);
            } else if s[n - 1] == '/' {
                assert(after[i] == "__"@[i - before.len()]);
            }
        }
    }
}

/// What the JSON of a mutant says, by name: the full name, the package, the file, the function, the span, the replacement, the
/// genre and the diff, and nothing else.
#[verifier::spinoff_prover]
#[verifier::rlimit(40)]
pub proof fn json_tells_the_mutant(m: MutantModel)
    ensures
        m.json() matches JsonModel::Object(fields) && {
            &&& fields.dom() == set![
                "name"@,
                "package"@,
                "file"@,
                "function"@,
                "span"@,
                "replacement"@,
                "genre"@,
                "diff"@,
            ]
            &&& fields["name"@] == JsonModel::Text(m.name_text(true))
            &&& fields["package"@] == JsonModel::Text(m.source_file.package.name)
            &&& fields["file"@] == JsonModel::Text(m.source_file.path)
            &&& m.function is None ==> fields["function"@] == JsonModel::Null
            &&& m.function is Some ==> fields["function"@] is Object
            &&& fields["span"@] == span_json(m.span)
            &&& fields["replacement"@] == JsonModel::Text(m.replacement)
            &&& fields["genre"@] == JsonModel::Text(genre_name(m.genre))
            &&& fields["diff"@] == JsonModel::Text(m.diff_text())
        },
{
    reveal_strlit("name");
    reveal_strlit("package");
    reveal_strlit("file");
    reveal_strlit("function");
    reveal_strlit("span");
    reveal_strlit("replacement");
    reveal_strlit("genre");
    reveal_strlit("diff");
    assert("name"@.len() == 4 && "file"@.len() == 4 && "span"@.len() == 4 && "diff"@.len() == 4);
    assert("package"@.len() == 7 && "function"@.len() == 8 && "replacement"@.len() == 11 && "genre"@.len() == 5);
    assert("name"@[0] == 'n' && "file"@[0] == 'f' && "span"@[0] == 's' && "diff"@[0] == 'd');
    reveal_with_fuel(json::by_name, 9);
    let fields = json::by_name(m.json_fields(), 8);
    assert(m.json() == JsonModel::Object(fields));
    assert(fields.dom() =~= set![
        "name"@,
        "package"@,
        "file"@,
        "function"@,
        "span"@,
        "replacement"@,
        "genre"@,
        "diff"@,
    ]);
}

/// What the JSON of a span and of a function says: where they start and end, by line and column, and how the function is
/// called and what it returns.
#[verifier::spinoff_prover]
pub proof fn json_tells_where(span: Span, function: FunctionModel)
    ensures
        span_json(span) matches JsonModel::Object(ends) && {
            &&& ends.dom() == set!["start"@, "end"@]
            &&& ends["start"@] matches JsonModel::Object(start) && start.dom() == set!["line"@, "column"@] && start["line"@]
                == JsonModel::Number(span.start.line as nat) && start["column"@] == JsonModel::Number(
                span.start.column as nat,
            )
            &&& ends["end"@] matches JsonModel::Object(end) && end.dom() == set!["line"@, "column"@] && end["line"@]
                == JsonModel::Number(span.end.line as nat) && end["column"@] == JsonModel::Number(span.end.column as nat)
        },
        function_json(Some(function)) matches JsonModel::Object(fields) && {
            &&& fields.dom() == set!["function_name"@, "return_type"@, "span"@]
            &&& fields["function_name"@] == JsonModel::Text(function.function_name)
            &&& fields["return_type"@] == JsonModel::Text(function.return_type)
            &&& fields["span"@] == span_json(function.span)
        },
{
    reveal_strlit("start");
    reveal_strlit("end");
    reveal_strlit("line");
    reveal_strlit("column");
    reveal_strlit("function_name");
    reveal_strlit("return_type");
    reveal_strlit("span");
    reveal_with_fuel(json::by_name, 4);
    assert("start"@.len() == 5 && "end"@.len() == 3);
    assert("function_name"@.len() == 13 && "return_type"@.len() == 11 && "span"@.len() == 4);
    lemma_position_json(span.start);
    lemma_position_json(span.end);
    let ends = json::by_name(seq![("start"@, position_json(span.start)), ("end"@, position_json(span.end))], 2);
    assert(ends.dom() =~= set!["start"@, "end"@]);
    let fields = function_json(Some(function))->Object_0;
    assert(fields.dom() =~= set!["function_name"@, "return_type"@, "span"@]);
}

proof fn lemma_position_json(pos: LineColumn)
    ensures
        position_json(pos) matches JsonModel::Object(fields) && fields.dom() == set!["line"@, "column"@] && fields["line"@]
            == JsonModel::Number(pos.line as nat) && fields["column"@] == JsonModel::Number(pos.column as nat),
{
    reveal_strlit("line");
    reveal_strlit("column");
    reveal_with_fuel(json::by_name, 3);
    assert("line"@.len() == 4 && "column"@.len() == 6);
    let fields = position_json(pos)->Object_0;
    assert(fields.dom() =~= set!["line"@, "column"@]);
}

/// Two mutants make the same change exactly if they differ in nothing but whether the place is evaluated at compile time.
pub proof fn same_changes_agree_in_everything_else(a: MutantModel, b: MutantModel)
    ensures
        a.same_change(b) <==> {
            &&& a.source_file == b.source_file
            &&& a.function == b.function
            &&& a.span == b.span
            &&& a.short_replaced == b.short_replaced
            &&& a.replacement == b.replacement
            &&& a.genre == b.genre
            &&& a.target == b.target
        },
{
}

/// Applying a mutant writes its mutated code, and reverting it the code of the file, to the file of the mutant and to no
/// other; so a mutant that was applied and reverted leaves the tree as it was.
pub proof fn mutants_are_applied_to_their_own_file(
    mutant: &Mutant,
    code: String,
    mutated: &str,
    applied: FileUpdate,
    reverted: FileUpdate,
    files: Map<Seq<char>, Seq<char>>,
)
    requires
        call_ensures(Mutant::mutated_code, (mutant,), code),
        code@ == mutated@,
        call_ensures(Mutant::apply, (mutant, mutated), applied),
        call_ensures(Mutant::revert, (mutant,), reverted),
        files.contains_key(mutant@.source_file.path),
        files[mutant@.source_file.path] == mutant@.source_file.code,
    ensures
        ({
            let original = mutant@.source_file.code;
            let first = mutant.span.start.char_index(original);
            let end = mutant.span.end.char_index(original);
            first <= end ==> updated(files, applied)[mutant@.source_file.path] == original.take(first) + mutant.replacement@
                + " "@ + MUTATION_MARKER_COMMENT@ + original.skip(end)
        }),
        updated(updated(files, applied), reverted) == files,
        forall|path: Seq<char>|
            path != mutant@.source_file.path ==> (files.contains_key(path) <==> #[trigger] updated(
                files,
                applied,
            ).contains_key(path)) && files[path] == updated(files, applied)[path],
{
    mutated_code_holds_the_replacement(mutant@);
    reverting_undoes_applying(mutant@, files, applied, reverted);
}

/// The log of a mutant is named after its file, line and column.
pub proof fn logs_are_named_after_the_place(mutant: &Mutant, name: String)
    requires
        call_ensures(Mutant::log_file_name_base, (mutant,), name),
    ensures
        name@ == cleaned_prefix(mutant@.source_file.path, mutant@.source_file.path.len() as int) + "_line_"@ + text::decimal(
            mutant.span.start.line as nat,
        ) + "_col_"@ + text::decimal(mutant.span.start.column as nat),
{
}

/// How a description is coloured: the words between are plain, a function stands out and so does its return type, and what is
/// replaced and what replaces it are yellow, an ordinary replacement brightly.
pub proof fn descriptions_are_coloured(m: MutantModel)
    requires
        m.describable(),
    ensures
        ({
            let parts = m.parts();
            let n = parts.len() as int;
            &&& parts[0].0 == PartStyle::Plain
            &&& m.genre == Genre::FnValue ==> parts[1].0 == PartStyle::BrightMagenta && parts[n - 1].0 == PartStyle::Yellow
                && (m.function->0.return_type.len() > 0 ==> parts[3].0 == PartStyle::Magenta)
            &&& m.genre != Genre::FnValue && m.function is Some ==> parts[n - 2].0 == PartStyle::Plain && parts[n - 1].0
                == PartStyle::BrightMagenta
            &&& m.genre == Genre::MatchArm || m.genre == Genre::MatchArmGuard || (m.genre == Genre::StructField && m.target
                is Some) ==> parts[1].0 == PartStyle::Yellow
            &&& m.genre == Genre::MatchArmGuard || (m.genre == Genre::StructField && m.target is Some) ==> parts[2].0
                == PartStyle::Plain && parts[3].0 == PartStyle::Yellow
            &&& m.genre != Genre::FnValue && m.genre != Genre::MatchArm && m.genre != Genre::MatchArmGuard && m.genre
                != Genre::StructField ==> parts[1].0 == PartStyle::Yellow && (m.replacement.len() > 0 ==> parts[2].0
                == PartStyle::Plain && parts[3].0 == PartStyle::BrightYellow)
        }),
{
}

/// Each genre is called by its own name.
pub proof fn genres_are_called_by_name(genre: Genre)
    ensures
        match genre {
            Genre::FnValue => genre_name(genre) == "FnValue"@,
            Genre::BinaryOperator => genre_name(genre) == "BinaryOperator"@,
            Genre::UnaryOperator => genre_name(genre) == "UnaryOperator"@,
            Genre::MatchArm => genre_name(genre) == "MatchArm"@,
            Genre::MatchArmGuard => genre_name(genre) == "MatchArmGuard"@,
            Genre::IfCondition => genre_name(genre) == "IfCondition"@,
            Genre::WhileCondition => genre_name(genre) == "WhileCondition"@,
            Genre::BoolLiteral => genre_name(genre) == "BoolLiteral"@,
            Genre::DeleteStatement => genre_name(genre) == "DeleteStatement"@,
            Genre::ReturnValue => genre_name(genre) == "ReturnValue"@,
            Genre::StructField => genre_name(genre) == "StructField"@,
        },
{
}

/// A line break and the indentation behind it become one space, unless a space stands before them already.
pub proof fn line_breaks_become_spaces(a: Seq<char>, indent: Seq<char>, b: Seq<char>)
    requires
        !a.contains('\n'),
        !b.contains('\n'),
        b.len() > 0,
        b[0] != ' ' && b[0] != '\t',
        forall|i: int| 0 <= i < indent.len() ==> #[trigger] indent[i] == ' ' || indent[i] == '\t' || indent[i] == '\n',
    ensures
        squashed(a + seq!['\n'] + indent + b) == if a.len() > 0 && a.last() == ' ' {
            a + b
        } else {
            a + seq![' '] + b
        },
{
    let s = a + seq!['\n'] + indent + b;
    let start = a.len() as int;
    assert(s[start] == '\n');
    lemma_squashed_line(s, 0, start, Seq::empty());
    assert(s.subrange(0, start) =~= a);
    let joined = if a.len() > 0 && a.last() == ' ' {
        a
    } else {
        a.push(' ')
    };
    assert(squashed_prefix(s, start + 1) == (joined, true));
    lemma_squashed_indent(s, start + 1, indent.len() as int, joined);
    let body = start + 1 + indent.len();
    assert(s[body] == b[0]);
    assert(b.contains(b[0]));
    assert(squashed_prefix(s, body + 1) == (joined.push(b[0]), false));
    assert forall|i: int| body <= i < s.len() implies s[i] != '\n' by {
        assert(s[i] == b[i - body]);
    }
    lemma_squashed_line(s, body + 1, s.len() as int, joined.push(b[0]));
    assert(s.subrange(body + 1, s.len() as int) =~= b.skip(1));
    assert(joined.push(b[0]) + b.skip(1) =~= joined + b);
    assert(squashed(s) =~= (if a.len() > 0 && a.last() == ' ' {
        a + b
    } else {
        a + seq![' '] + b
    }));
}

proof fn lemma_squashed_line(s: Seq<char>, i: int, n: int, kept: Seq<char>)
    requires
        0 <= i <= n <= s.len(),
        squashed_prefix(s, i) == (kept, false),
        forall|j: int| i <= j < n ==> s[j] != '\n',
    ensures
        squashed_prefix(s, n) == (kept + s.subrange(i, n), false),
    decreases n - i,
{
    if i < n {
        lemma_squashed_line(s, i, n - 1, kept);
        assert(kept + s.subrange(i, n) =~= (kept + s.subrange(i, n - 1)).push(s[n - 1]));
    } else {
        assert(kept + s.subrange(i, n) =~= kept);
    }
}

proof fn lemma_squashed_indent(s: Seq<char>, i: int, n: int, kept: Seq<char>)
    requires
        0 <= i,
        0 <= n,
        i + n <= s.len(),
        squashed_prefix(s, i) == (kept, true),
        forall|j: int| i <= j < i + n ==> s[j] == ' ' || s[j] == '\t' || s[j] == '\n',
    ensures
        squashed_prefix(s, i + n) == (kept, true),
    decreases n,
{
    if n > 0 {
        lemma_squashed_indent(s, i, n - 1, kept);
    }
}

/// The neighbourhood that a diff is made of starts up to eight lines before the change, at a line of the file, and shows at least
/// eight lines behind it, as far as there are any.
pub proof fn diffs_show_the_neighbourhood(m: MutantModel)
    ensures
        m.first_diff_line() >= 1,
        m.span.start.line > 8 ==> m.first_diff_line() == m.span.start.line - 8,
        m.span.start.line <= 8 ==> m.first_diff_line() == 1,
        m.diff_window() matches Some((lo, hi)) ==> {
            let code = m.source_file.code;
            let starts = span::line_starts(code);
            &&& lo == starts[m.first_diff_line() - 1]
            &&& lo <= m.span.first_char(code) && m.span.last_char(code) <= hi
            &&& m.span.end.line + 9 > starts.len() ==> hi >= code.len()
            &&& m.span.end.line + 9 <= starts.len() ==> hi >= starts[m.span.end.line + 8]
        },
{
}

/// A diff is headed by the path of the file and by the description of the mutant, in one line.
pub proof fn diffs_are_headed_by_the_description(m: MutantModel, i: int)
    ensures
        ({
            let label = without_newlines(m.description());
            let head = "--- "@ + m.source_file.path + "\n"@ + ("+++ "@ + label + "\n"@);
            &&& head.len() <= m.whole_diff().len()
            &&& m.whole_diff().take(head.len() as int) == head
            &&& label.len() == m.description().len()
            &&& 0 <= i < label.len() ==> label[i] == if m.description()[i] == '\n' {
                ' '
            } else {
                m.description()[i]
            }
        }),
{
    let label = without_newlines(m.description());
    let head = "--- "@ + m.source_file.path + "\n"@ + ("+++ "@ + label + "\n"@);
    assert(m.whole_diff().take(head.len() as int) =~= head);
}

} // verus!
