//! Visit the syntax tree of a file to discover mutation opportunities.

use regex::RegexSet;
use vstd::prelude::*;
use crate::attrs;
use crate::attrs::{attrs_excluded, attrs_exclude_re_patterns, find_path_attribute, pattern_location};
use crate::fnvalue;
use crate::fnvalue::{path_ends_with, return_type_replacements, EnumIndex};
use crate::list;
use crate::modules;
use crate::modules::{copy_mods, ExternalModRef, ModNamespace};
use crate::mutant;
use crate::mutant::{Function, FunctionModel, Genre, Mutant, MutantModel, MutationTarget, TargetModel};
use crate::names;
use crate::names::{compile_patterns, set_matches, NameFilter};
use crate::opportunities;
use crate::opportunities::{ContextModel, Found, Scope, Settings};
use crate::options::Options;
use crate::parse;
use crate::parse::parse_error_values;
use crate::pretty;
use crate::pretty::to_pretty_string;
use crate::source::SourceFile;
use crate::span::Span;
use crate::syntax::{
    Arm, Attr, BinaryOp, BodyStatement, Condition, FieldNode, FileNode, FnKind, FnNode, ImplNode, ModNode, Node, NodeKind,
    Place, StatementForm, StatementKind, UnaryOp,
};
use crate::text;
use crate::text::{join, same_text};
use crate::tokens;
use crate::tokens::{copy_tokens, mk_group, Delimiter, Tok, TokenTree};
use crate::types::{Path, ReturnType};
use crate::walk;

verus! {

/// What the visitor needs to know about the function it's inside.
struct FnContext<'a> {
    /// Span of the function body excluding braces, if any.
    body_span: Option<Span>,
    /// Declared return type, for mutating `return` expressions.
    output: &'a ReturnType,
    /// Whether the body is exactly one `return expr;` statement.
    single_return: bool,
}

impl View for FnContext<'_> {
    type V = ContextModel;

    closed spec fn view(&self) -> ContextModel {
        ContextModel { body_span: self.body_span, output: *self.output, single_return: self.single_return }
    }
}

/// Whether entering a scope pushed an `exclude_re` entry that must be popped.
#[derive(Clone, Copy, Debug, PartialEq, Eq, Structural)]
enum ExcludeScope {
    /// Patterns were compiled and pushed; the caller must pop them.
    Pushed,
    /// The scope has no `exclude_re` patterns, so nothing was pushed.
    Empty,
    /// An error was stored on the visitor; children must not be visited.
    Error,
}

/// Visitor that recursively traverses the syntax tree, accumulating places that could be mutated.
///
/// As it walks the tree, it accumulates within itself a list of mutation opportunities, and other files referenced by `mod`
/// statements that should be visited later.
struct DiscoveryVisitor<'a> {
    /// All the mutants generated by visiting the file.
    mutants: Vec<Mutant>,
    /// The names from `mod foo;` statements that should be visited later, namespaced relative to the source file.
    external_mods: Vec<ExternalModRef>,
    /// If set, an error occurred during visiting (e.g. invalid regex in an attribute).
    error: Option<String>,
    /// The file being visited.
    source_file: &'a SourceFile,
    /// Parsed error expressions, from the config file or command line.
    error_exprs: &'a Vec<Vec<TokenTree>>,
    /// Unit variants of the enums declared in this file, for mutating values of those enum types.
    enums: &'a EnumIndex,
    /// Names of functions whose calls are not mutated.
    skip_calls: &'a Vec<String>,
    /// Which mutants are wanted, by name.
    names: &'a NameFilter,
    /// The stack of modules namespaces that we're currently inside, from visiting `mod foo { ... }` statements.
    mod_namespace_stack: Vec<ModNamespace>,
    /// The stack of namespaces, loosely defined, that we're inside: mods, fns, impls, etc.
    namespace_stack: Vec<String>,
    /// The functions we're inside.
    fn_stack: Vec<Function>,
    /// What is known of the functions we're inside, innermost last.
    fn_context_stack: Vec<FnContext<'a>>,
    /// Spans of the match arm guards we're inside.
    guard_spans: Vec<Span>,
    /// Whether we're inside a closure or `async` body.
    in_closure: bool,
    /// Whether we're inside something that is evaluated at compile time.
    in_const: bool,
    /// Stack of compiled `RegexSet`s from `#[mutants::exclude_re("...")]` attributes.
    ///
    /// Only scopes that actually carry patterns are pushed, so this is usually empty.
    exclude_re_stack: Vec<RegexSet>,
}

/// The models of some functions.
spec fn function_models(functions: Seq<Function>) -> Seq<FunctionModel> {
    Seq::new(functions.len(), |i: int| functions[i]@)
}

/// The models of some contexts.
spec fn context_models(contexts: Seq<FnContext<'_>>) -> Seq<ContextModel> {
    Seq::new(contexts.len(), |i: int| contexts[i]@)
}

/// The patterns of some sets.
spec fn set_models(sets: Seq<RegexSet>) -> Seq<Seq<Seq<char>>> {
    Seq::new(sets.len(), |i: int| names::set_patterns(sets[i]))
}

impl DiscoveryVisitor<'_> {
    /// What is the same for all of the file.
    spec fn settings(&self) -> Settings {
        Settings {
            source: self.source_file@,
            errors: tokens::toks_all(self.error_exprs@),
            enums: self.enums@,
            skip_calls: text::texts(self.skip_calls@),
            names: self.names@,
        }
    }

    /// Where we are.
    spec fn scope(&self) -> Scope {
        Scope {
            namespace: text::texts(self.namespace_stack@),
            mods: modules::mod_models(self.mod_namespace_stack@),
            functions: function_models(self.fn_stack@),
            contexts: context_models(self.fn_context_stack@),
            guards: self.guard_spans@,
            in_closure: self.in_closure,
            in_const: self.in_const,
            excludes: set_models(self.exclude_re_stack@),
        }
    }

    /// What was found so far.
    spec fn found(&self) -> Found {
        Found {
            mutants: list::mutant_models(self.mutants@),
            mods: modules::mod_ref_models(self.external_mods@),
            error: mutant::optional_text(self.error),
        }
    }
}

/// That nothing but some mutants were added between two states of the visitor.
spec fn adds_mutants(before: DiscoveryVisitor<'_>, after: DiscoveryVisitor<'_>, mutants: Seq<MutantModel>) -> bool {
    &&& after.settings() == before.settings()
    &&& after.scope() == before.scope()
    &&& after.found() == before.found().and(Found::of_mutants(mutants))
}

/// Mutants that are added one after the other are added together.
proof fn lemma_adds_more(
    before: DiscoveryVisitor<'_>,
    between: DiscoveryVisitor<'_>,
    after: DiscoveryVisitor<'_>,
    first: Seq<MutantModel>,
    second: Seq<MutantModel>,
)
    requires
        adds_mutants(before, between, first),
        adds_mutants(between, after, second),
    ensures
        adds_mutants(before, after, first + second),
{
    assert(after.found() =~= before.found().and(Found::of_mutants(first + second)));
}

/// Nothing was added to a state of the visitor.
proof fn lemma_adds_nothing(state: DiscoveryVisitor<'_>)
    ensures
        adds_mutants(state, state, Seq::empty()),
{
    assert(state.found() =~= state.found().and(Found::of_mutants(Seq::empty())));
}

impl<'a> DiscoveryVisitor<'a> {
    /// Whether any currently-active `#[mutants::exclude_re("...")]` attribute rejects this name.
    fn excluded_by_attr_re(&self, name: &str) -> (r: bool)
        ensures
            r == opportunities::excluded_by_attr(self.scope().excludes, name@),
    {
        for i in 0..self.exclude_re_stack.len()
            invariant
                forall|j: int| 0 <= j < i ==> !names::patterns_match(#[trigger] self.scope().excludes[j], name@),
        {
            if set_matches(&self.exclude_re_stack[i], name) {
                assert(names::patterns_match(self.scope().excludes[i as int], name@));
                return true;
            }
        }
        false
    }

    /// The innermost function.
    fn current_function(&self) -> (r: Option<Function>)
        ensures
            match r {
                Some(function) => opportunities::innermost(self.scope().functions) == Some(function@),
                None => opportunities::innermost(self.scope().functions) is None,
            },
    {
        let n = self.fn_stack.len();
        if n == 0 {
            None
        } else {
            let function = &self.fn_stack[n - 1];
            Some(
                Function {
                    function_name: function.function_name.clone(),
                    return_type: function.return_type.clone(),
                    span: function.span,
                },
            )
        }
    }

    /// Keep a mutant.
    fn push_mutant(&mut self, mutant: Mutant)
        ensures
            adds_mutants(*old(self), *final(self), seq![mutant@]),
    {
        let ghost before = *self;
        self.mutants.push(mutant);
        proof {
            assert(self.found() =~= before.found().and(Found::of_mutants(seq![mutant@])));
        }
    }

    /// Record that we generated some mutants.
    fn collect_mutant(&mut self, span: Span, short_replaced: Option<String>, replacement: &str, genre: Genre)
        requires
            genre == Genre::FnValue ==> old(self).scope().functions.len() > 0,
            genre == Genre::MatchArm ==> short_replaced is Some,
        ensures
            adds_mutants(
                *old(self),
                *final(self),
                opportunities::collected(
                    old(self).settings(),
                    old(self).scope(),
                    span,
                    mutant::optional_text(short_replaced),
                    replacement@,
                    genre,
                ),
            ),
    {
        let ghost model = opportunities::mutant_at(
            self.settings(),
            self.scope(),
            span,
            mutant::optional_text(short_replaced),
            replacement@,
            genre,
            None,
        );
        let mutant = Mutant::new_discovered(
            self.source_file.clone(),
            self.current_function(),
            span,
            short_replaced,
            replacement.to_owned(),
            genre,
            None,
            self.in_const,
        );
        assert(mutant@ == model);
        let name = mutant.full_name();
        if !self.excluded_by_attr_re(name.as_str()) && self.names.allows(name.as_str()) {
            self.push_mutant(mutant);
        } else {
            proof {
                lemma_adds_nothing(*self);
            }
        }
    }
}

/// The span of a function body excluding the braces, or none if it is empty.
fn function_body_span(statements: &Vec<BodyStatement>) -> (r: Option<Span>)
    ensures
        r == opportunities::body_span(statements@),
{
    let n = statements.len();
    if n == 0 {
        None
    } else {
        Some(Span { start: statements[0].span.start, end: statements[n - 1].span.end })
    }
}

impl<'a> DiscoveryVisitor<'a> {
    /// Generate the mutants that replace the whole body of a function.
    fn collect_fn_mutants(&mut self, function: &FnNode)
        requires
            !opportunities::fn_skipped(*function),
            old(self).scope().functions.len() > 0,
        ensures
            ({
                let settings = old(self).settings();
                let values = fnvalue::return_values(function.output, settings.errors, settings.enums);
                adds_mutants(
                    *old(self),
                    *final(self),
                    opportunities::fn_mutants(
                        settings,
                        old(self).scope(),
                        function.body->0,
                        values,
                        values.len() as int,
                    ),
                )
            }),
    {
        let ghost before = *self;
        proof {
            lemma_adds_nothing(before);
        }
        if let Some(body) = &function.body {
            if let Some(body_span) = function_body_span(&body.statements) {
                let values = return_type_replacements(&function.output, self.error_exprs, self.enums);
                let ghost all = tokens::toks_all(values@);
                let original = to_pretty_string(&body.tokens);
                for i in 0..values.len()
                    invariant
                        function.body == Some(*body),
                        opportunities::body_span(body.statements@) == Some(body_span),
                        before.scope().functions.len() > 0,
                        all == tokens::toks_all(values@),
                        original@ == pretty::pretty(tokens::toks(body.tokens@)),
                        adds_mutants(
                            before,
                            *self,
                            opportunities::fn_mutants(before.settings(), before.scope(), *body, all, i as int),
                        ),
                {
                    let value = &values[i];
                    let ghost earlier = *self;
                    // The original block has braces and the replacements don't, so put them back for the comparison.
                    let block = mk_group(Delimiter::Brace, copy_tokens(value));
                    assert(all[i as int] == tokens::toks(value@));
                    if !same_text(to_pretty_string(&block).as_str(), original.as_str()) {
                        let replacement = to_pretty_string(value);
                        self.collect_mutant(body_span, None, replacement.as_str(), Genre::FnValue);
                        proof {
                            lemma_adds_more(
                                before,
                                earlier,
                                *self,
                                opportunities::fn_mutants(before.settings(), before.scope(), *body, all, i as int),
                                opportunities::collected(
                                    before.settings(),
                                    before.scope(),
                                    body_span,
                                    None,
                                    replacement@,
                                    Genre::FnValue,
                                ),
                            );
                        }
                    }
                }
            }
        }
    }

    /// Generate a mutant for each replacement of an operator.
    fn collect_operator_mutants(&mut self, op: BinaryOp, op_span: Span)
        ensures
            ({
                let replacements = opportunities::operator_replacements(op);
                adds_mutants(
                    *old(self),
                    *final(self),
                    opportunities::text_mutants(
                        old(self).settings(),
                        old(self).scope(),
                        op_span,
                        replacements,
                        Genre::BinaryOperator,
                        replacements.len() as int,
                    ),
                )
            }),
    {
        let ghost before = *self;
        let ghost all = opportunities::operator_replacements(op);
        proof {
            lemma_adds_nothing(before);
        }
        let replacements = operator_texts(op);
        for i in 0..replacements.len()
            invariant
                all == opportunities::operator_replacements(op),
                str_texts(replacements@) == all,
                adds_mutants(
                    before,
                    *self,
                    opportunities::text_mutants(
                        before.settings(),
                        before.scope(),
                        op_span,
                        all,
                        Genre::BinaryOperator,
                        i as int,
                    ),
                ),
        {
            let ghost earlier = *self;
            let replacement = replacements[i];
            assert(all[i as int] == replacement@);
            self.collect_mutant(op_span, None, replacement, Genre::BinaryOperator);
            proof {
                lemma_adds_more(
                    before,
                    earlier,
                    *self,
                    opportunities::text_mutants(
                        before.settings(),
                        before.scope(),
                        op_span,
                        all,
                        Genre::BinaryOperator,
                        i as int,
                    ),
                    opportunities::collected(
                        before.settings(),
                        before.scope(),
                        op_span,
                        None,
                        replacement@,
                        Genre::BinaryOperator,
                    ),
                );
            }
        }
    }
}

/// Each of some string slices as a text.
spec fn str_texts(strings: Seq<&str>) -> Seq<Seq<char>> {
    Seq::new(strings.len(), |i: int| strings[i]@)
}

/// The operators that an operator is replaced with.
fn operator_texts(op: BinaryOp) -> (r: Vec<&'static str>)
    ensures
        str_texts(r@) == opportunities::operator_replacements(op),
{
    let r: Vec<&'static str> = match op {
        BinaryOp::Eq => vec!["!="],
        BinaryOp::Ne => vec!["=="],
        BinaryOp::And => vec!["||"],
        BinaryOp::Or => vec!["&&"],
        BinaryOp::Lt => vec!["==", ">", "<="],
        BinaryOp::Gt => vec!["==", "<", ">="],
        BinaryOp::Le => vec![">", "<"],
        BinaryOp::Ge => vec!["<", ">"],
        BinaryOp::Add => vec!["-", "*"],
        BinaryOp::AddAssign => vec!["-=", "*="],
        BinaryOp::Sub | BinaryOp::Mul => vec!["+", "/"],
        BinaryOp::SubAssign | BinaryOp::MulAssign => vec!["+=", "/="],
        BinaryOp::Div => vec!["%", "*"],
        BinaryOp::DivAssign => vec!["%=", "*="],
        BinaryOp::Rem => vec!["/", "+"],
        BinaryOp::RemAssign => vec!["/=", "+="],
        BinaryOp::Shl => vec![">>"],
        BinaryOp::ShlAssign => vec![">>="],
        BinaryOp::Shr => vec!["<<"],
        BinaryOp::ShrAssign => vec!["<<="],
        BinaryOp::BitAnd => vec!["|", "^"],
        BinaryOp::BitAndAssign => vec!["|="],
        BinaryOp::BitOr => vec!["&", "^"],
        BinaryOp::BitOrAssign => vec!["&="],
        BinaryOp::BitXor => vec!["|", "&"],
        BinaryOp::BitXorAssign => vec!["|=", "&="],
        BinaryOp::Other => Vec::new(),
    };
    assert(str_texts(r@) =~= opportunities::operator_replacements(op));
    r
}

/// Whether one of some arms is the catch-all `_`.
fn has_catchall_arm(arms: &Vec<Arm>) -> (r: bool)
    ensures
        r == opportunities::has_catchall(arms@),
{
    for i in 0..arms.len()
        invariant
            forall|j: int| 0 <= j < i ==> !(#[trigger] arms@[j]).is_wild,
    {
        if arms[i].is_wild {
            return true;
        }
    }
    false
}

impl<'a> DiscoveryVisitor<'a> {
    /// Successively delete each of the match arms, allowing them to hit the catch-all arm, which will often be a viable
    /// mutant.
    fn collect_arm_mutants(&mut self, arms: &Vec<Arm>)
        ensures
            adds_mutants(
                *old(self),
                *final(self),
                opportunities::arm_mutants(old(self).settings(), old(self).scope(), arms@, arms@.len() as int),
            ),
    {
        let ghost before = *self;
        proof {
            lemma_adds_nothing(before);
        }
        for i in 0..arms.len()
            invariant
                adds_mutants(
                    before,
                    *self,
                    opportunities::arm_mutants(before.settings(), before.scope(), arms@, i as int),
                ),
        {
            let ghost earlier = *self;
            let arm = &arms[i];
            // Don't delete the `_ => whatever` arm, because that will very likely fail to compile.
            //
            // Also, don't delete arms with guard expressions, because the replacement of the guard with `false` is
            // logically equivalent to removing the arm.
            if !arm.is_wild && arm.guard.is_none() {
                let pattern = Some(to_pretty_string(&arm.pattern));
                let ghost pattern_text = mutant::optional_text(pattern);
                self.collect_mutant(arm.span, pattern, "", Genre::MatchArm);
                proof {
                    reveal_strlit("");
                    assert(""@ =~= Seq::<char>::empty());
                    lemma_adds_more(
                        before,
                        earlier,
                        *self,
                        opportunities::arm_mutants(before.settings(), before.scope(), arms@, i as int),
                        opportunities::collected(
                            before.settings(),
                            before.scope(),
                            arm.span,
                            pattern_text,
                            Seq::<char>::empty(),
                            Genre::MatchArm,
                        ),
                    );
                }
            }
        }
    }

    /// Replace an expression by `true`, and by `false`.
    fn collect_bool_mutants(&mut self, span: Span, genre: Genre)
        requires
            genre != Genre::FnValue && genre != Genre::MatchArm,
        ensures
            adds_mutants(
                *old(self),
                *final(self),
                opportunities::collected(old(self).settings(), old(self).scope(), span, None, "true"@, genre)
                    + opportunities::collected(old(self).settings(), old(self).scope(), span, None, "false"@, genre),
            ),
    {
        let ghost before = *self;
        self.collect_mutant(span, None, "true", genre);
        let ghost between = *self;
        self.collect_mutant(span, None, "false", genre);
        proof {
            lemma_adds_more(
                before,
                between,
                *self,
                opportunities::collected(before.settings(), before.scope(), span, None, "true"@, genre),
                opportunities::collected(before.settings(), before.scope(), span, None, "false"@, genre),
            );
        }
    }

    /// Replace the guard of each arm that has one.
    fn collect_guard_mutants(&mut self, arms: &Vec<Arm>)
        ensures
            adds_mutants(
                *old(self),
                *final(self),
                opportunities::guard_mutants(old(self).settings(), old(self).scope(), arms@, arms@.len() as int),
            ),
    {
        let ghost before = *self;
        proof {
            lemma_adds_nothing(before);
        }
        for i in 0..arms.len()
            invariant
                adds_mutants(
                    before,
                    *self,
                    opportunities::guard_mutants(before.settings(), before.scope(), arms@, i as int),
                ),
        {
            let ghost earlier = *self;
            if let Some(span) = arms[i].guard {
                self.collect_bool_mutants(span, Genre::MatchArmGuard);
                proof {
                    let settings = before.settings();
                    let scope = before.scope();
                    let first = opportunities::guard_mutants(settings, scope, arms@, i as int);
                    let on = opportunities::collected(settings, scope, span, None, "true"@, Genre::MatchArmGuard);
                    let off = opportunities::collected(settings, scope, span, None, "false"@, Genre::MatchArmGuard);
                    lemma_adds_more(before, earlier, *self, first, on + off);
                    assert(first + (on + off) =~= first + on + off);
                }
            }
        }
    }

    /// Generate the mutants of a `match`.
    fn collect_match_mutants(&mut self, arms: &Vec<Arm>)
        ensures
            adds_mutants(
                *old(self),
                *final(self),
                opportunities::match_mutants(old(self).settings(), old(self).scope(), arms@),
            ),
    {
        let ghost before = *self;
        proof {
            lemma_adds_nothing(before);
        }
        if has_catchall_arm(arms) {
            self.collect_arm_mutants(arms);
        }
        let ghost between = *self;
        self.collect_guard_mutants(arms);
        proof {
            let settings = before.settings();
            let scope = before.scope();
            let deleted = if opportunities::has_catchall(arms@) {
                opportunities::arm_mutants(settings, scope, arms@, arms@.len() as int)
            } else {
                Seq::empty()
            };
            lemma_adds_more(
                before,
                between,
                *self,
                deleted,
                opportunities::guard_mutants(settings, scope, arms@, arms@.len() as int),
            );
        }
    }

    /// Generate the mutants of the condition of an `if`, where `exits_loop` says whether what it guards exits a loop.
    fn collect_if_mutants(&mut self, condition: Condition, span: Span, exits_loop: bool)
        ensures
            adds_mutants(
                *old(self),
                *final(self),
                opportunities::if_mutants(old(self).settings(), old(self).scope(), condition, span, exits_loop),
            ),
    {
        // `if let` conditions are not `bool` and can't be replaced by a literal. A condition that already *is* a bool literal
        // is mutated as a literal.
        if condition != Condition::Expression {
            proof {
                lemma_adds_nothing(*self);
            }
        } else if exits_loop {
            // `if cond { break }` is how a `loop` ends: replacing the condition with `false` removes the only exit and hangs.
            self.collect_mutant(span, None, "true", Genre::IfCondition);
        } else {
            self.collect_bool_mutants(span, Genre::IfCondition);
        }
    }

    /// Generate the mutant of the condition of a `while`.
    ///
    /// Only `false`: `while true` hangs any loop without an unconditional `break`.
    fn collect_while_mutants(&mut self, condition: Condition, span: Span)
        ensures
            adds_mutants(
                *old(self),
                *final(self),
                if condition == Condition::Expression {
                    opportunities::collected(
                        old(self).settings(),
                        old(self).scope(),
                        span,
                        None,
                        "false"@,
                        Genre::WhileCondition,
                    )
                } else {
                    Seq::empty()
                },
            ),
    {
        if condition == Condition::Expression {
            self.collect_mutant(span, None, "false", Genre::WhileCondition);
        } else {
            proof {
                lemma_adds_nothing(*self);
            }
        }
    }

    /// Generate the mutant that deletes a unary operator.
    fn collect_unary_mutants(&mut self, op: UnaryOp, op_span: Span)
        ensures
            adds_mutants(
                *old(self),
                *final(self),
                if op == UnaryOp::Not || op == UnaryOp::Neg {
                    opportunities::collected(
                        old(self).settings(),
                        old(self).scope(),
                        op_span,
                        None,
                        Seq::<char>::empty(),
                        Genre::UnaryOperator,
                    )
                } else {
                    Seq::empty()
                },
            ),
    {
        proof {
            reveal_strlit("");
            assert(""@ =~= Seq::<char>::empty());
        }
        if op == UnaryOp::Not || op == UnaryOp::Neg {
            self.collect_mutant(op_span, None, "", Genre::UnaryOperator);
        } else {
            proof {
                lemma_adds_nothing(*self);
            }
        }
    }

    /// Whether a literal is the whole body of a function or a whole match arm guard.
    fn is_mutated_elsewhere(&self, span: Span) -> (r: bool)
        ensures
            r == opportunities::mutated_elsewhere(self.scope(), span),
    {
        let n = self.fn_context_stack.len();
        if n > 0 {
            if let Some(body_span) = self.fn_context_stack[n - 1].body_span {
                if body_span == span {
                    return true;
                }
            }
        }
        for i in 0..self.guard_spans.len()
            invariant
                forall|j: int| 0 <= j < i ==> #[trigger] self.guard_spans@[j] != span,
        {
            if self.guard_spans[i] == span {
                return true;
            }
        }
        false
    }

    /// Generate the mutant that replaces `true` by `false`, or `false` by `true`.
    fn collect_literal_mutants(&mut self, literal: bool, span: Span)
        ensures
            adds_mutants(
                *old(self),
                *final(self),
                opportunities::literal_mutants(old(self).settings(), old(self).scope(), literal, span),
            ),
    {
        if self.is_mutated_elsewhere(span) {
            proof {
                lemma_adds_nothing(*self);
            }
        } else {
            let replacement = if literal {
                "false"
            } else {
                "true"
            };
            self.collect_mutant(span, None, replacement, Genre::BoolLiteral);
        }
    }
}

/// Whether a `return` occurs in some nodes, and whether a `break` or `continue` does.
fn control_flow(nodes: &Vec<Node>) -> (r: (bool, bool))
    ensures
        r == opportunities::flow_of(nodes@, nodes@.len() as int),
    decreases nodes,
{
    let mut has_return = false;
    let mut loop_exits = false;
    for i in 0..nodes.len()
        invariant
            (has_return, loop_exits) == opportunities::flow_of(nodes@, i as int),
    {
        let here = node_control_flow(&nodes[i]);
        has_return = has_return || here.0;
        loop_exits = loop_exits || here.1;
    }
    (has_return, loop_exits)
}

/// Whether a `return` occurs in a node, and whether a `break` or `continue` does.
///
/// `return`, `break` and `continue` are leaves for this analysis: what they return is deliberately not walked. Everything
/// else, including nested closures and loops, is.
fn node_control_flow(node: &Node) -> (r: (bool, bool))
    ensures
        r == opportunities::node_flow(*node),
    decreases node,
{
    match &node.kind {
        NodeKind::Return { .. } => (true, false),
        NodeKind::LoopExit => (false, true),
        _ => control_flow(&node.children),
    }
}

/// The base name of a place: `v` for `v`, `v.field`, `v[0]`, `*v`.
fn root_ident(place: &Place) -> (r: Option<&String>)
    ensures
        match r {
            Some(name) => opportunities::root_name(*place) == Some(name@),
            None => opportunities::root_name(*place) is None,
        },
    decreases place,
{
    match place {
        Place::Name(name) => Some(name),
        Place::Part(inner) => root_ident(inner),
        Place::Other => None,
    }
}

/// Whether one of some statements binds a name with `let` and no type annotation.
fn is_untyped_local(statements: &Vec<Node>, name: &str) -> (r: bool)
    ensures
        r == opportunities::binds_untyped(statements@, name@),
{
    for i in 0..statements.len()
        invariant
            forall|j: int|
                0 <= j < i ==> !((#[trigger] statements@[j]).kind matches NodeKind::Statement(
                    StatementKind::Local { untyped_name: Some(n) },
                ) && n@ == name@),
    {
        match &statements[i].kind {
            NodeKind::Statement(StatementKind::Local { untyped_name: Some(n) }) => {
                if same_text(n.as_str(), name) {
                    assert(statements@[i as int].kind matches NodeKind::Statement(
                        StatementKind::Local { untyped_name: Some(n) },
                    ) && n@ == name@);
                    return true;
                }
            },
            _ => {},
        }
    }
    false
}

/// Whether a statement expression can be deleted without changing the types of anything around it.
///
/// Accepts only calls, method calls, and plain assignments: a statement with a semicolon has type `()` regardless of the
/// expression's type, so removing it can't change the block's type. Deleting a statement that is the only use of a local
/// without a type can make its type uninferable or leave it uninitialized.
fn is_deletable_statement(form: &StatementForm, statements: &Vec<Node>, children: &Vec<Node>) -> (r: bool)
    ensures
        r == opportunities::is_deletable(
            *form,
            statements@,
            opportunities::flow_of(children@, children@.len() as int),
        ),
{
    let root = match form {
        StatementForm::MethodCall { receiver, .. } => root_ident(receiver),
        StatementForm::Assign { target } => root_ident(target),
        StatementForm::Call { .. } => None,
        StatementForm::Other => return false,
    };
    if let Some(name) = root {
        if is_untyped_local(statements, name.as_str()) {
            return false;
        }
    }
    let flow = control_flow(children);
    !flow.0 && !flow.1
}

impl<'a> DiscoveryVisitor<'a> {
    /// Whether a call goes to a function that the options ask to leave alone.
    fn skips_call_to(&self, callee: &Option<Path>) -> (r: bool)
        ensures
            r == opportunities::skips_call(self.settings().skip_calls, *callee),
    {
        let ghost names = self.settings().skip_calls;
        if let Some(path) = callee {
            for i in 0..self.skip_calls.len()
                invariant
                    *callee == Some(*path),
                    names == text::texts(self.skip_calls@),
                    forall|j: int| 0 <= j < i ==> !fnvalue::path_ends(*path, #[trigger] names[j]),
            {
                if path_ends_with(path, self.skip_calls[i].as_str()) {
                    assert(fnvalue::path_ends(*path, names[i as int]));
                    return true;
                }
            }
        }
        false
    }

    /// Whether a method is one that the options ask to leave alone.
    fn skips_method(&self, method: &str) -> (r: bool)
        ensures
            r == self.settings().skip_calls.contains(method@),
    {
        let ghost names = self.settings().skip_calls;
        for i in 0..self.skip_calls.len()
            invariant
                names == text::texts(self.skip_calls@),
                forall|j: int| 0 <= j < i ==> #[trigger] names[j] != method@,
        {
            if same_text(self.skip_calls[i].as_str(), method) {
                assert(names[i as int] == method@);
                return true;
            }
        }
        false
    }

    /// Whether the expression of a statement is a call that the options ask to leave alone.
    fn is_skipped_call(&self, form: &StatementForm) -> (r: bool)
        ensures
            r == opportunities::is_skipped_form(self.settings().skip_calls, *form),
    {
        match form {
            StatementForm::Call { callee } => self.skips_call_to(callee),
            StatementForm::MethodCall { method, .. } => self.skips_method(method.as_str()),
            _ => false,
        }
    }

    /// Generate a mutant that deletes each discardable statement of a block.
    fn collect_statement_mutants(&mut self, statements: &Vec<Node>)
        ensures
            adds_mutants(
                *old(self),
                *final(self),
                opportunities::statement_mutants(
                    old(self).settings(),
                    old(self).scope(),
                    statements@,
                    statements@.len() as int,
                ),
            ),
    {
        let ghost before = *self;
        proof {
            lemma_adds_nothing(before);
            reveal_strlit("");
            assert(""@ =~= Seq::<char>::empty());
        }
        for i in 0..statements.len()
            invariant
                ""@ == Seq::<char>::empty(),
                adds_mutants(
                    before,
                    *self,
                    opportunities::statement_mutants(before.settings(), before.scope(), statements@, i as int),
                ),
        {
            let ghost earlier = *self;
            match &statements[i].kind {
                NodeKind::Statement(StatementKind::Expr { form, span, semi_end: Some(end) }) => {
                    if is_deletable_statement(form, statements, &statements[i].children) && !self.is_skipped_call(form) {
                        let whole = Span { start: span.start, end: *end };
                        self.collect_mutant(whole, None, "", Genre::DeleteStatement);
                        proof {
                            lemma_adds_more(
                                before,
                                earlier,
                                *self,
                                opportunities::statement_mutants(
                                    before.settings(),
                                    before.scope(),
                                    statements@,
                                    i as int,
                                ),
                                opportunities::collected(
                                    before.settings(),
                                    before.scope(),
                                    whole,
                                    None,
                                    Seq::<char>::empty(),
                                    Genre::DeleteStatement,
                                ),
                            );
                        }
                    }
                },
                _ => {},
            }
        }
    }

    /// Generate a mutant for each field of a struct literal by deleting it, together with its trailing comma.
    fn collect_field_mutants(&mut self, struct_path: &Vec<TokenTree>, fields: &Vec<FieldNode>)
        ensures
            adds_mutants(
                *old(self),
                *final(self),
                opportunities::field_mutants(
                    old(self).settings(),
                    old(self).scope(),
                    pretty::pretty(tokens::toks(struct_path@)),
                    fields@,
                    fields@.len() as int,
                ),
            ),
    {
        let ghost before = *self;
        let ghost name = pretty::pretty(tokens::toks(struct_path@));
        proof {
            lemma_adds_nothing(before);
        }
        let struct_name = to_pretty_string(struct_path);
        for i in 0..fields.len()
            invariant
                name == struct_name@,
                adds_mutants(
                    before,
                    *self,
                    opportunities::field_mutants(before.settings(), before.scope(), name, fields@, i as int),
                ),
        {
            let ghost earlier = *self;
            let field = &fields[i];
            if let Some(field_name) = &field.name {
                let span = match field.comma_end {
                    Some(end) => Span { start: field.span.start, end },
                    None => field.span,
                };
                let mutant = Mutant::new_discovered(
                    self.source_file.clone(),
                    self.current_function(),
                    span,
                    None,
                    String::new(),
                    Genre::StructField,
                    Some(
                        MutationTarget::StructLiteralField {
                            field_name: field_name.clone(),
                            struct_name: struct_name.clone(),
                        },
                    ),
                    self.in_const,
                );
                let ghost model = opportunities::mutant_at(
                    before.settings(),
                    before.scope(),
                    span,
                    None,
                    Seq::<char>::empty(),
                    Genre::StructField,
                    Some(TargetModel { field_name: field_name@, struct_name: name }),
                );
                assert(mutant@ == model);
                let full_name = mutant.full_name();
                if !self.excluded_by_attr_re(full_name.as_str()) {
                    self.push_mutant(mutant);
                    proof {
                        let first = opportunities::field_mutants(
                            before.settings(),
                            before.scope(),
                            name,
                            fields@,
                            i as int,
                        );
                        lemma_adds_more(before, earlier, *self, first, seq![model]);
                        assert(first + seq![model] =~= first.push(model));
                    }
                }
            }
        }
    }

    /// Replace a returned value with fixed values of the enclosing function's declared return type.
    fn collect_return_mutants(&mut self, value: &Option<(Span, Vec<TokenTree>)>)
        ensures
            adds_mutants(
                *old(self),
                *final(self),
                opportunities::value_mutants(old(self).settings(), old(self).scope(), *value),
            ),
    {
        let ghost before = *self;
        let ghost settings = before.settings();
        let ghost scope = before.scope();
        proof {
            lemma_adds_nothing(before);
        }
        let n = self.fn_context_stack.len();
        if self.in_closure || n == 0 {
            return;
        }
        let context = &self.fn_context_stack[n - 1];
        assert(scope.contexts.last() == context@);
        let output = context.output;
        if context.single_return || !matches!(output, ReturnType::Type(..)) {
            return;
        }
        if let Some((span, returned)) = value {
            let original = to_pretty_string(returned);
            let values = return_type_replacements(output, self.error_exprs, self.enums);
            let ghost all = tokens::toks_all(values@);
            for i in 0..values.len()
                invariant
                    settings == before.settings(),
                    scope == before.scope(),
                    all == tokens::toks_all(values@),
                    adds_mutants(
                        before,
                        *self,
                        opportunities::return_mutants(settings, scope, *span, original@, all, i as int),
                    ),
            {
                let ghost earlier = *self;
                let replacement = to_pretty_string(&values[i]);
                assert(all[i as int] == tokens::toks(values@[i as int]@));
                if !same_text(replacement.as_str(), original.as_str()) {
                    self.collect_mutant(*span, None, replacement.as_str(), Genre::ReturnValue);
                    proof {
                        lemma_adds_more(
                            before,
                            earlier,
                            *self,
                            opportunities::return_mutants(settings, scope, *span, original@, all, i as int),
                            opportunities::collected(settings, scope, *span, None, replacement@, Genre::ReturnValue),
                        );
                    }
                }
            }
        }
    }
}

/// Each of some patterns in double quotes, with commas between them.
fn quoted_patterns(patterns: &Vec<String>) -> (r: String)
    ensures
        r@ == text::joined(opportunities::quoted(text::texts(patterns@)), ", "@),
{
    let ghost all = opportunities::quoted(text::texts(patterns@));
    let mut quoted: Vec<String> = Vec::new();
    for i in 0..patterns.len()
        invariant
            all == opportunities::quoted(text::texts(patterns@)),
            quoted@.len() == i,
            forall|j: int| 0 <= j < i ==> (#[trigger] quoted@[j])@ == all[j],
    {
        let mut one = "\"".to_owned();
        one.push_str(patterns[i].as_str());
        one.push_str("\"");
        quoted.push(one);
    }
    assert(text::texts(quoted@) =~= all);
    join(&quoted, ", ")
}

impl<'a> DiscoveryVisitor<'a> {
    /// Store an error, unless there was one before.
    fn set_error(&mut self, message: String)
        ensures
            final(self).settings() == old(self).settings(),
            final(self).scope() == old(self).scope(),
            final(self).found() == old(self).found().and(Found::of_error(message@)),
    {
        let ghost before = *self;
        if self.error.is_none() {
            self.error = Some(message);
        }
        assert(self.found() =~= before.found().and(Found::of_error(message@)));
    }

    /// What to report of patterns that do not compile.
    fn pattern_error(&self, attrs: &Vec<Attr>, patterns: &Vec<String>, error: &str) -> (r: String)
        ensures
            r@ == opportunities::pattern_message(self.settings().source, attrs@, text::texts(patterns@), error@),
    {
        let mut message = match pattern_location(attrs) {
            Some(start) => self.source_file.format_source_location(start),
            None => self.source_file.tree_relative_slashes().to_owned(),
        };
        message.push_str(": invalid regex in #[mutants::exclude_re(");
        message.push_str(quoted_patterns(patterns).as_str());
        message.push_str(")]: ");
        message.push_str(error);
        message
    }

    /// Push `#[mutants::exclude_re("...")]` patterns from the given attributes onto the stack.
    ///
    /// Most items carry no `exclude_re` attribute, so the common result is [`ExcludeScope::Empty`]: nothing is pushed and
    /// nothing must be popped.
    fn push_exclude_re(&mut self, attrs: &Vec<Attr>) -> (r: ExcludeScope)
        ensures
            final(self).settings() == old(self).settings(),
            match opportunities::excluding(
                old(self).settings().source,
                old(self).scope(),
                attrs@,
                attrs::exclude_patterns(attrs@),
            ) {
                Err(error) => {
                    &&& r == ExcludeScope::Error
                    &&& final(self).scope() == old(self).scope()
                    &&& final(self).found() == old(self).found().and(Found::of_error(error))
                },
                Ok(scope) => {
                    &&& r != ExcludeScope::Error
                    &&& final(self).scope() == scope
                    &&& final(self).found() == old(self).found()
                    &&& r == ExcludeScope::Empty ==> scope == old(self).scope()
                    &&& r == ExcludeScope::Pushed ==> {
                        &&& scope.excludes.len() > 0
                        &&& old(self).scope() == Scope { excludes: scope.excludes.drop_last(), ..scope }
                    }
                },
            },
    {
        let ghost before = *self;
        match attrs_exclude_re_patterns(attrs) {
            Err((start, message)) => {
                let mut full = self.source_file.format_source_location(start);
                full.push_str(": ");
                full.push_str(message.as_str());
                self.set_error(full);
                ExcludeScope::Error
            },
            Ok(patterns) => {
                if patterns.len() == 0 {
                    return ExcludeScope::Empty;
                }
                match compile_patterns(&patterns) {
                    Ok(set) => {
                        self.exclude_re_stack.push(set);
                        proof {
                            let list = text::texts(patterns@);
                            assert(set_models(self.exclude_re_stack@) =~= set_models(before.exclude_re_stack@).push(list));
                            assert(set_models(before.exclude_re_stack@).push(list).drop_last() =~= set_models(
                                before.exclude_re_stack@,
                            ));
                        }
                        ExcludeScope::Pushed
                    },
                    Err(error) => {
                        let message = self.pattern_error(attrs, &patterns, error.as_str());
                        self.set_error(message);
                        ExcludeScope::Error
                    },
                }
            },
        }
    }

    /// Pop the most recent `exclude_re` scope.
    fn pop_exclude_re(&mut self)
        requires
            old(self).scope().excludes.len() > 0,
        ensures
            final(self).settings() == old(self).settings(),
            final(self).scope() == (Scope { excludes: old(self).scope().excludes.drop_last(), ..old(self).scope() }),
            final(self).found() == old(self).found(),
    {
        let ghost before = *self;
        let _ = self.exclude_re_stack.pop();
        assert(set_models(self.exclude_re_stack@) =~= set_models(before.exclude_re_stack@).drop_last());
    }
}

/// The attributes of a node that can be skipped by them.
fn attrs_of(kind: &NodeKind) -> (r: Option<&Vec<Attr>>)
    ensures
        match r {
            Some(attrs) => attrs@ == opportunities::node_attrs(*kind),
            None => opportunities::node_attrs(*kind) == Seq::<Attr>::empty(),
        },
{
    match kind {
        NodeKind::Call { attrs, .. } => Some(attrs),
        NodeKind::MethodCall { attrs, .. } => Some(attrs),
        NodeKind::Fn(function) => Some(&function.attrs),
        NodeKind::Const { attrs } => Some(attrs),
        NodeKind::Impl(item) => Some(&item.attrs),
        NodeKind::Trait { attrs, .. } => Some(attrs),
        NodeKind::Mod(item) => Some(&item.attrs),
        NodeKind::Binary { attrs, .. } => Some(attrs),
        NodeKind::Unary { attrs, .. } => Some(attrs),
        NodeKind::If { attrs, .. } => Some(attrs),
        NodeKind::While { attrs, .. } => Some(attrs),
        NodeKind::Match { attrs, .. } => Some(attrs),
        NodeKind::Struct { attrs, .. } => Some(attrs),
        _ => None,
    }
}

/// True if a function should be passed over.
///
/// Constructors (called "new") are, because there's often no good alternative.
fn fn_excluded(function: &FnNode) -> (r: bool)
    ensures
        r == opportunities::fn_skipped(*function),
{
    if function.is_unsafe || (function.kind != FnKind::Free && same_text(function.name.as_str(), "new")) {
        return true;
    }
    match &function.body {
        Some(body) => body.statements.len() == 0,
        None => true,
    }
}

/// True if a node should be passed over, with everything in it.
fn node_excluded(kind: &NodeKind) -> (r: bool)
    ensures
        r == opportunities::node_skipped(*kind),
{
    let by_attrs = match attrs_of(kind) {
        Some(attrs) => attrs_excluded(attrs),
        None => false,
    };
    let by_signature = match kind {
        NodeKind::Fn(function) => fn_excluded(function),
        _ => false,
    };
    by_attrs || by_signature
}

/// True if nothing is to be looked for in a node after its attributes.
fn node_is_ignored(kind: &NodeKind) -> (r: bool)
    ensures
        r == opportunities::node_ignored(*kind),
{
    match kind {
        NodeKind::Impl(item) => match &item.trait_path {
            Some((path, _)) => path_ends_with(path, "Default"),
            None => false,
        },
        NodeKind::Mod(item) => find_path_attribute(&item.attrs).is_err(),
        _ => false,
    }
}

/// The name of an `impl` as a namespace.
fn impl_namespace(item: &ImplNode) -> (r: String)
    ensures
        r@ == opportunities::impl_name(*item),
{
    let self_type = to_pretty_string(&item.self_type);
    match &item.trait_path {
        Some((_, trait_tokens)) => {
            let mut name = "<impl ".to_owned();
            name.push_str(to_pretty_string(trait_tokens).as_str());
            name.push_str(" for ");
            name.push_str(self_type.as_str());
            name.push_str(">");
            name
        },
        None => self_type,
    }
}

/// What is put back when a node is left.
struct Saved {
    in_closure: bool,
    in_const: bool,
    /// How many guards there were.
    guards: usize,
}

impl<'a> DiscoveryVisitor<'a> {
    /// Go into a function.
    fn enter_function(&mut self, function: &'a FnNode)
        requires
            !opportunities::fn_skipped(*function),
        ensures
            final(self).settings() == old(self).settings(),
            final(self).found() == old(self).found(),
            final(self).scope() == opportunities::inner_scope(old(self).scope(), NodeKind::Fn(*function)),
    {
        let ghost before = *self;
        self.namespace_stack.push(function.name.clone());
        proof {
            assert(text::texts(self.namespace_stack@) =~= text::texts(before.namespace_stack@).push(function.name@));
        }
        self.fn_stack.push(
            Function {
                function_name: join(&self.namespace_stack, "::"),
                return_type: to_pretty_string(&function.output_tokens),
                span: function.span,
            },
        );
        if let Some(body) = &function.body {
            self.fn_context_stack.push(
                FnContext {
                    body_span: function_body_span(&body.statements),
                    output: &function.output,
                    single_return: body.statements.len() == 1 && body.statements[0].is_return,
                },
            );
        }
        self.in_const = self.in_const || function.is_const;
        proof {
            assert(function_models(self.fn_stack@) =~= function_models(before.fn_stack@).push(
                opportunities::function_model(before.scope(), *function),
            ));
            assert(context_models(self.fn_context_stack@) =~= context_models(before.fn_context_stack@).push(
                opportunities::context_model(*function),
            ));
        }
    }

    /// Go into a namespace.
    fn enter_namespace(&mut self, name: String)
        ensures
            final(self).settings() == old(self).settings(),
            final(self).found() == old(self).found(),
            final(self).scope() == (Scope { namespace: old(self).scope().namespace.push(name@), ..old(self).scope() }),
    {
        let ghost before = *self;
        self.namespace_stack.push(name);
        proof {
            assert(text::texts(self.namespace_stack@) =~= text::texts(before.namespace_stack@).push(name@));
        }
    }

    /// Go into a module.
    fn enter_mod(&mut self, item: &ModNode)
        requires
            !opportunities::node_ignored(NodeKind::Mod(*item)),
        ensures
            final(self).settings() == old(self).settings(),
            final(self).found() == old(self).found(),
            final(self).scope() == opportunities::inner_scope(old(self).scope(), NodeKind::Mod(*item)),
    {
        let ghost before = *self;
        let path_attribute = match find_path_attribute(&item.attrs) {
            Ok(path) => path,
            Err(path) => Some(path),
        };
        self.mod_namespace_stack.push(
            ModNamespace { name: item.name.clone(), path_attribute, source_location: item.span },
        );
        proof {
            assert(modules::mod_models(self.mod_namespace_stack@) =~= modules::mod_models(
                before.mod_namespace_stack@,
            ).push(opportunities::mod_model(*item)));
        }
        self.enter_namespace(item.name.clone());
    }

    /// Remember the guards of some arms.
    fn enter_match(&mut self, arms: &Vec<Arm>)
        ensures
            final(self).settings() == old(self).settings(),
            final(self).found() == old(self).found(),
            final(self).scope() == (Scope {
                guards: old(self).scope().guards + opportunities::guard_spans(arms@, arms@.len() as int),
                ..old(self).scope()
            }),
    {
        let ghost before = *self;
        assert(before.guard_spans@ + opportunities::guard_spans(arms@, 0) =~= before.guard_spans@);
        for i in 0..arms.len()
            invariant
                self.settings() == before.settings(),
                self.found() == before.found(),
                self.scope() == (Scope {
                    guards: before.scope().guards + opportunities::guard_spans(arms@, i as int),
                    ..before.scope()
                }),
        {
            if let Some(span) = arms[i].guard {
                let ghost earlier = self.guard_spans@;
                self.guard_spans.push(span);
                assert(self.guard_spans@ =~= before.scope().guards + opportunities::guard_spans(arms@, i + 1));
            }
        }
    }

    /// Go into a node.
    fn enter(&mut self, kind: &'a NodeKind) -> (r: Saved)
        requires
            !opportunities::node_skipped(*kind),
            !opportunities::node_ignored(*kind),
        ensures
            final(self).settings() == old(self).settings(),
            final(self).found() == old(self).found(),
            final(self).scope() == opportunities::inner_scope(old(self).scope(), *kind),
            r.in_closure == old(self).scope().in_closure,
            r.in_const == old(self).scope().in_const,
            r.guards == old(self).scope().guards.len(),
    {
        let saved = Saved { in_closure: self.in_closure, in_const: self.in_const, guards: self.guard_spans.len() };
        match kind {
            NodeKind::Fn(function) => self.enter_function(function),
            NodeKind::Const { .. } | NodeKind::ConstScope => {
                self.in_const = true;
            },
            NodeKind::Impl(item) => self.enter_namespace(impl_namespace(item)),
            NodeKind::Trait { name, .. } => self.enter_namespace(name.clone()),
            NodeKind::Mod(item) => self.enter_mod(item),
            NodeKind::Match { arms, .. } => self.enter_match(arms),
            NodeKind::Closure => {
                self.in_closure = true;
            },
            _ => {},
        }
        saved
    }

    /// Leave a node.
    fn leave(&mut self, kind: &NodeKind, saved: Saved, Ghost(before): Ghost<Scope>)
        requires
            old(self).scope() == opportunities::inner_scope(before, *kind),
            saved.in_closure == before.in_closure,
            saved.in_const == before.in_const,
            saved.guards == before.guards.len(),
        ensures
            final(self).settings() == old(self).settings(),
            final(self).found() == old(self).found(),
            final(self).scope() == before,
    {
        let ghost inner = *self;
        match kind {
            NodeKind::Fn(_) => {
                let _ = self.namespace_stack.pop();
                let _ = self.fn_stack.pop();
                let _ = self.fn_context_stack.pop();
                proof {
                    assert(text::texts(self.namespace_stack@) =~= text::texts(inner.namespace_stack@).drop_last());
                    assert(function_models(self.fn_stack@) =~= function_models(inner.fn_stack@).drop_last());
                    assert(context_models(self.fn_context_stack@) =~= context_models(
                        inner.fn_context_stack@,
                    ).drop_last());
                    assert(inner.scope().contexts.drop_last() =~= before.contexts);
                    assert(inner.scope().functions.drop_last() =~= before.functions);
                    assert(inner.scope().namespace.drop_last() =~= before.namespace);
                }
            },
            NodeKind::Impl(_) | NodeKind::Trait { .. } => {
                let _ = self.namespace_stack.pop();
                proof {
                    assert(text::texts(self.namespace_stack@) =~= text::texts(inner.namespace_stack@).drop_last());
                    assert(inner.scope().namespace.drop_last() =~= before.namespace);
                }
            },
            NodeKind::Mod(_) => {
                let _ = self.namespace_stack.pop();
                let _ = self.mod_namespace_stack.pop();
                proof {
                    assert(text::texts(self.namespace_stack@) =~= text::texts(inner.namespace_stack@).drop_last());
                    assert(inner.scope().namespace.drop_last() =~= before.namespace);
                    assert(modules::mod_models(self.mod_namespace_stack@) =~= modules::mod_models(
                        inner.mod_namespace_stack@,
                    ).drop_last());
                    assert(inner.scope().mods.drop_last() =~= before.mods);
                }
            },
            NodeKind::Match { .. } => {
                self.guard_spans.truncate(saved.guards);
                assert(self.guard_spans@ =~= before.guards);
            },
            _ => {},
        }
        self.in_closure = saved.in_closure;
        self.in_const = saved.in_const;
        assert(self.scope() =~= before);
    }

    /// Remember that the module that we're inside is in another file.
    fn push_external_mod(&mut self)
        ensures
            final(self).settings() == old(self).settings(),
            final(self).scope() == old(self).scope(),
            final(self).found() == old(self).found().and(Found::of_mods(seq![old(self).scope().mods])),
    {
        let ghost before = *self;
        let parts = copy_mods(&self.mod_namespace_stack);
        self.external_mods.push(ExternalModRef { parts });
        proof {
            assert(self.found() =~= before.found().and(Found::of_mods(seq![before.scope().mods])));
        }
    }

    /// Collect what a node gives by itself.
    fn collect_own(&mut self, node: &Node)
        requires
            !opportunities::node_skipped(node.kind),
            node.kind is Fn ==> old(self).scope().functions.len() > 0,
        ensures
            final(self).settings() == old(self).settings(),
            final(self).scope() == old(self).scope(),
            final(self).found() == old(self).found().and(
                opportunities::own_found(old(self).settings(), old(self).scope(), *node),
            ),
    {
        proof {
            lemma_adds_nothing(*self);
        }
        match &node.kind {
            NodeKind::Fn(function) => self.collect_fn_mutants(function),
            NodeKind::Mod(item) => {
                if !item.is_inline {
                    self.push_external_mod();
                } else {
                    assert(Found::nothing() =~= Found::of_mutants(Seq::empty()));
                }
            },
            NodeKind::Binary { op, op_span, .. } => self.collect_operator_mutants(*op, *op_span),
            NodeKind::Unary { unary_op, op_span, .. } => self.collect_unary_mutants(*unary_op, *op_span),
            NodeKind::If { condition, condition_span, then_at, .. } => {
                let exits_loop = *then_at < node.children.len() && node_control_flow(&node.children[*then_at]).1;
                self.collect_if_mutants(*condition, *condition_span, exits_loop);
            },
            NodeKind::While { condition, condition_span, .. } => {
                self.collect_while_mutants(*condition, *condition_span);
            },
            NodeKind::Match { arms, .. } => self.collect_match_mutants(arms),
            NodeKind::BoolLiteral { literal, span } => self.collect_literal_mutants(*literal, *span),
            NodeKind::Struct { struct_path, has_base, fields, .. } => {
                if *has_base {
                    self.collect_field_mutants(struct_path, fields);
                }
            },
            NodeKind::Block => self.collect_statement_mutants(&node.children),
            NodeKind::Return { value } => self.collect_return_mutants(value),
            _ => {},
        }
    }
}

impl<'a> DiscoveryVisitor<'a> {
    /// Whether the nodes within a node are to be visited.
    fn descends_into(&self, kind: &NodeKind) -> (r: bool)
        ensures
            r == opportunities::descends(self.settings(), *kind),
    {
        match kind {
            NodeKind::Call { callee, .. } => !self.skips_call_to(callee),
            NodeKind::MethodCall { method, .. } => !self.skips_method(method.as_str()),
            NodeKind::Hidden => false,
            _ => true,
        }
    }

    /// Visit a node, within the patterns of its attributes.
    fn visit_in_scope(&mut self, node: &'a Node)
        requires
            !opportunities::node_skipped(node.kind),
        ensures
            final(self).settings() == old(self).settings(),
            final(self).scope() == old(self).scope(),
            final(self).found() == old(self).found().and(
                if opportunities::node_ignored(node.kind) {
                    Found::nothing()
                } else {
                    let inner = opportunities::inner_scope(old(self).scope(), node.kind);
                    let own = opportunities::own_found(old(self).settings(), inner, *node);
                    if opportunities::descends(old(self).settings(), node.kind) {
                        own.and(
                            opportunities::found_nodes(
                                old(self).settings(),
                                inner,
                                node.children@,
                                node.children@.len() as int,
                            ),
                        )
                    } else {
                        own
                    }
                },
            ),
        decreases node, 0int,
    {
        let ghost before = *self;
        if node_is_ignored(&node.kind) {
            assert(self.found() =~= before.found().and(Found::nothing()));
            return;
        }
        let saved = self.enter(&node.kind);
        let ghost inner = self.scope();
        self.collect_own(node);
        let ghost own = opportunities::own_found(before.settings(), inner, *node);
        if self.descends_into(&node.kind) {
            self.visit_nodes(&node.children);
            proof {
                let within = opportunities::found_nodes(
                    before.settings(),
                    inner,
                    node.children@,
                    node.children@.len() as int,
                );
                assert(before.found().and(own).and(within) =~= before.found().and(own.and(within)));
            }
        }
        self.leave(&node.kind, saved, Ghost(before.scope()));
    }

    /// Visit a node.
    fn visit_node(&mut self, node: &'a Node)
        ensures
            final(self).settings() == old(self).settings(),
            final(self).scope() == old(self).scope(),
            final(self).found() == old(self).found().and(
                opportunities::found_node(old(self).settings(), old(self).scope(), *node),
            ),
        decreases node, 1int,
    {
        let ghost before = *self;
        if node_excluded(&node.kind) {
            assert(self.found() =~= before.found().and(Found::nothing()));
            return;
        }
        let scoped = match &node.kind {
            // There is no syntax that would put the attribute on a binary operator: it is taken as one of the leftmost
            // operand.
            NodeKind::Binary { .. } => ExcludeScope::Empty,
            NodeKind::Const { .. } => ExcludeScope::Empty,
            _ => match attrs_of(&node.kind) {
                Some(attrs) => self.push_exclude_re(attrs),
                None => ExcludeScope::Empty,
            },
        };
        if scoped == ExcludeScope::Error {
            return;
        }
        self.visit_in_scope(node);
        if scoped == ExcludeScope::Pushed {
            self.pop_exclude_re();
        }
    }

    /// Visit some nodes, in order.
    fn visit_nodes(&mut self, nodes: &'a Vec<Node>)
        ensures
            final(self).settings() == old(self).settings(),
            final(self).scope() == old(self).scope(),
            final(self).found() == old(self).found().and(
                opportunities::found_nodes(old(self).settings(), old(self).scope(), nodes@, nodes@.len() as int),
            ),
        decreases nodes, 0int,
    {
        let ghost before = *self;
        assert(self.found() =~= before.found().and(Found::nothing()));
        for i in 0..nodes.len()
            invariant
                self.settings() == before.settings(),
                self.scope() == before.scope(),
                self.found() == before.found().and(
                    opportunities::found_nodes(before.settings(), before.scope(), nodes@, i as int),
                ),
        {
            self.visit_node(&nodes[i]);
            proof {
                let first = opportunities::found_nodes(before.settings(), before.scope(), nodes@, i as int);
                let next = opportunities::found_node(before.settings(), before.scope(), nodes@[i as int]);
                assert(before.found().and(first).and(next) =~= before.found().and(first.and(next)));
            }
        }
    }

    /// Visit a source file.
    fn visit_file(&mut self, file: &'a FileNode)
        requires
            old(self).scope() == opportunities::top_scope(),
        ensures
            final(self).found() == old(self).found().and(opportunities::found_file(old(self).settings(), *file)),
    {
        let ghost before = *self;
        if attrs_excluded(&file.attrs) {
            assert(self.found() =~= before.found().and(Found::nothing()));
            return;
        }
        if self.push_exclude_re(&file.attrs) != ExcludeScope::Error {
            self.visit_nodes(&file.children);
        }
    }
}

/// What is the same for all of a file, from the file, the options and the values to return as errors.
pub open spec fn file_settings(
    source_file: SourceFile,
    options: Options,
    errors: Seq<Seq<Tok>>,
    file: FileNode,
) -> Settings {
    Settings {
        source: source_file@,
        errors,
        enums: fnvalue::with_enums(Map::empty(), file.declarations@, file.declarations@.len() as int),
        skip_calls: text::texts(options.skip_calls@),
        names: options.names@,
    }
}

/// Find all possible mutants in a source file, given its syntax tree and the values to return as errors.
///
/// The result holds the mutants found, and the names of modules referenced by `mod` statements that should be visited later.
pub fn discover(
    source_file: &SourceFile,
    options: &Options,
    error_exprs: &Vec<Vec<TokenTree>>,
    file: &FileNode,
) -> (r: Result<(Vec<Mutant>, Vec<ExternalModRef>), String>)
    ensures
        ({
            let found = opportunities::found_file(
                file_settings(*source_file, *options, tokens::toks_all(error_exprs@), *file),
                *file,
            );
            match r {
                Ok((mutants, mods)) => {
                    &&& found.error is None
                    &&& list::mutant_models(mutants@) == found.mutants
                    &&& modules::mod_ref_models(mods@) == found.mods
                    &&& walk::all_describable(mutants@)
                },
                Err(message) => found.error == Some(message@),
            }
        }),
{
    let enums = EnumIndex::from_file(&file.declarations);
    let mut visitor = DiscoveryVisitor {
        mutants: Vec::new(),
        external_mods: Vec::new(),
        error: None,
        source_file,
        error_exprs,
        enums: &enums,
        skip_calls: &options.skip_calls,
        names: &options.names,
        mod_namespace_stack: Vec::new(),
        namespace_stack: Vec::new(),
        fn_stack: Vec::new(),
        fn_context_stack: Vec::new(),
        guard_spans: Vec::new(),
        in_closure: false,
        in_const: false,
        exclude_re_stack: Vec::new(),
    };
    proof {
        assert(visitor.scope() =~= opportunities::top_scope());
        assert(visitor.found() =~= Found::nothing());
    }
    visitor.visit_file(file);
    proof {
        let found = opportunities::found_file(file_settings(*source_file, *options, tokens::toks_all(error_exprs@), *file), *file);
        assert(Found::nothing().and(found) =~= found);
        let settings = file_settings(*source_file, *options, tokens::toks_all(error_exprs@), *file);
        opportunities::mutants_of_a_file_belong_to_it(settings, *file);
        assert forall|i: int| 0 <= i < visitor.mutants@.len() implies (#[trigger] visitor.mutants@[i])@.describable() by {
            assert(opportunities::belongs(settings, opportunities::top_scope(), found.mutants[i]));
        }
    }
    match visitor.error {
        Some(message) => Err(message),
        None => Ok((visitor.mutants, visitor.external_mods)),
    }
}

/// Find all possible mutants in a source file, given its syntax tree.
///
/// The values to return as errors come from the options; one that is not a Rust expression is an error.
pub fn walk_file(source_file: &SourceFile, options: &Options, file: &FileNode) -> (r: Result<
    (Vec<Mutant>, Vec<ExternalModRef>),
    String,
>)
    ensures
        match parse::expr_syntaxes(text::texts(options.error_values@), options.error_values@.len() as int) {
            Err(message) => r matches Err(e) && e@ == message,
            Ok(errors) => {
                let found = opportunities::found_file(file_settings(*source_file, *options, errors, *file), *file);
                match r {
                    Ok((mutants, mods)) => {
                        &&& found.error is None
                        &&& list::mutant_models(mutants@) == found.mutants
                        &&& modules::mod_ref_models(mods@) == found.mods
                        &&& walk::all_describable(mutants@)
                    },
                    Err(message) => found.error == Some(message@),
                }
            },
        },
{
    match parse_error_values(&options.error_values) {
        Ok(error_exprs) => discover(source_file, options, &error_exprs, file),
        Err(message) => Err(message),
    }
}

/// What is looked for in a file comes from the file and the options: the file itself, the calls that are left alone, the names
/// that are wanted, the values to return as errors, and the enums that the file declares.
pub proof fn settings_come_from_the_file_and_the_options(
    source_file: SourceFile,
    options: Options,
    errors: Seq<Seq<Tok>>,
    file: FileNode,
)
    ensures
        ({
            let settings = file_settings(source_file, options, errors, file);
            &&& settings.source == source_file@
            &&& settings.errors == errors
            &&& settings.names == options.names@
            &&& settings.skip_calls.len() == options.skip_calls@.len()
            &&& forall|i: int|
                0 <= i < options.skip_calls@.len() ==> settings.skip_calls[i] == (#[trigger] options.skip_calls@[i])@
            &&& settings.enums == fnvalue::with_enums(Map::empty(), file.declarations@, file.declarations@.len() as int)
        }),
{
}

} // verus!
