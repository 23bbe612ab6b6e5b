//! What there is to mutate in a source file: which mutants, and which references to other files, a syntax tree gives.

use vstd::prelude::*;
use crate::attrs;
use crate::attrs::PatternsModel;
use crate::fnvalue;
use crate::modules::ModModel;
use crate::mutant::{FunctionModel, Genre, MutantModel, TargetModel};
use crate::names;
use crate::pretty;
use crate::source::SourceModel;
use crate::span::Span;
use crate::syntax::{
    Arm, Attr, BinaryOp, BodyStatement, Condition, FieldNode, FileNode, FnBody, FnKind, FnNode, ImplNode, ModNode, Node,
    NodeKind, Place, StatementForm, StatementKind, UnaryOp,
};
use crate::text;
use crate::tokens;
use crate::tokens::{Delimiter, Tok, TokenTree};
use crate::types::{Path, ReturnType};

verus! {

/// What the visitor needs to know about the function it's inside.
pub ghost struct ContextModel {
    /// Span of the function body excluding braces, if any.
    pub body_span: Option<Span>,
    /// Declared return type, for mutating `return` expressions.
    pub output: ReturnType,
    /// Whether the body is exactly one `return expr;` statement, in which case a mutant of the returned value would
    /// duplicate the mutant of the function's value.
    pub single_return: bool,
}

/// What surrounds the node being visited.
#[verifier::ext_equal]
pub ghost struct Scope {
    /// The names that can be concatenated with `::` to describe where we are: mods, fns, impls, etc.
    pub namespace: Seq<Seq<char>>,
    /// The modules that we're inside.
    pub mods: Seq<ModModel>,
    /// The functions that we're inside, innermost last.
    pub functions: Seq<FunctionModel>,
    /// What is known of those functions.
    pub contexts: Seq<ContextModel>,
    /// Spans of the match arm guards we're inside.
    pub guards: Seq<Span>,
    /// Whether we're inside a closure or `async` body, whose return type is usually inferred and so unknown here.
    pub in_closure: bool,
    /// Whether we're inside something that is evaluated at compile time: a `const`/`static` initializer, a `const fn` body,
    /// an array-length expression, or a const generic argument.
    pub in_const: bool,
    /// The patterns of the `#[mutants::exclude_re("...")]` attributes around us.
    pub excludes: Seq<Seq<Seq<char>>>,
}

/// What is the same for all of a file.
pub ghost struct Settings {
    pub source: SourceModel,
    /// Values to return as errors.
    pub errors: Seq<Seq<Tok>>,
    /// Unit variants of the enums declared in this file.
    pub enums: Map<Seq<char>, Seq<Seq<char>>>,
    /// Names of functions whose calls are not mutated.
    pub skip_calls: Seq<Seq<char>>,
    /// Which mutants are wanted.
    pub names: names::FilterModel,
}

/// What was found: mutants, references to other files, and the first error.
#[verifier::ext_equal]
pub ghost struct Found {
    pub mutants: Seq<MutantModel>,
    pub mods: Seq<Seq<ModModel>>,
    pub error: Option<Seq<char>>,
}

impl Found {
    /// Nothing.
    pub open spec fn nothing() -> Found {
        Found { mutants: Seq::empty(), mods: Seq::empty(), error: None }
    }

    /// Some mutants.
    pub open spec fn of_mutants(mutants: Seq<MutantModel>) -> Found {
        Found { mutants, mods: Seq::empty(), error: None }
    }

    /// Some references to other files.
    pub open spec fn of_mods(mods: Seq<Seq<ModModel>>) -> Found {
        Found { mutants: Seq::empty(), mods, error: None }
    }

    /// An error.
    pub open spec fn of_error(error: Seq<char>) -> Found {
        Found { mutants: Seq::empty(), mods: Seq::empty(), error: Some(error) }
    }

    /// This, and then `more`.
    pub open spec fn and(self, more: Found) -> Found {
        Found {
            mutants: self.mutants + more.mutants,
            mods: self.mods + more.mods,
            error: if self.error is Some {
                self.error
            } else {
                more.error
            },
        }
    }
}

/// Whether one of the attributes in scope rejects a name.
pub open spec fn excluded_by_attr(excludes: Seq<Seq<Seq<char>>>, name: Seq<char>) -> bool {
    exists|i: int| 0 <= i < excludes.len() && names::patterns_match(#[trigger] excludes[i], name)
}

/// The innermost function.
pub open spec fn innermost(functions: Seq<FunctionModel>) -> Option<FunctionModel> {
    if functions.len() == 0 {
        None
    } else {
        Some(functions.last())
    }
}

/// A mutant at a place.
pub open spec fn mutant_at(
    settings: Settings,
    scope: Scope,
    span: Span,
    short_replaced: Option<Seq<char>>,
    replacement: Seq<char>,
    genre: Genre,
    target: Option<TargetModel>,
) -> MutantModel {
    MutantModel {
        source_file: settings.source,
        function: innermost(scope.functions),
        span,
        short_replaced,
        replacement,
        genre,
        target,
        const_eval: scope.in_const,
    }
}

/// A mutant at a place, unless an attribute or the options reject it.
pub open spec fn collected(
    settings: Settings,
    scope: Scope,
    span: Span,
    short_replaced: Option<Seq<char>>,
    replacement: Seq<char>,
    genre: Genre,
) -> Seq<MutantModel> {
    let m = mutant_at(settings, scope, span, short_replaced, replacement, genre, None);
    if excluded_by_attr(scope.excludes, m.name_text(true)) || !settings.names.allows(m.name_text(true)) {
        Seq::empty()
    } else {
        seq![m]
    }
}

/// The span of a function body excluding the braces, or none if it is empty.
pub open spec fn body_span(statements: Seq<BodyStatement>) -> Option<Span> {
    if statements.len() == 0 {
        None
    } else {
        Some(Span { start: statements[0].span.start, end: statements.last().span.end })
    }
}

/// The mutants that replace a function body by one of the first `n` values, except those that change nothing.
pub open spec fn fn_mutants(
    settings: Settings,
    scope: Scope,
    body: FnBody,
    values: Seq<Seq<Tok>>,
    n: int,
) -> Seq<MutantModel>
    decreases n,
{
    if n <= 0 {
        Seq::empty()
    } else {
        let before = fn_mutants(settings, scope, body, values, n - 1);
        let value = values[n - 1];
        // The original block has braces and the replacements don't, so put them back for the comparison.
        if pretty::pretty(tokens::group(Delimiter::Brace, value)) == pretty::pretty(tokens::toks(body.tokens@)) {
            before
        } else {
            before + collected(
                settings,
                scope,
                body_span(body.statements@)->0,
                None,
                pretty::pretty(value),
                Genre::FnValue,
            )
        }
    }
}

/// The operators that an operator is replaced with.
pub open spec fn operator_replacements(op: BinaryOp) -> Seq<Seq<char>> {
    match op {
        // We don't generate `<=` from `==` because it can too easily go wrong with unsigned types compared to 0.
        BinaryOp::Eq => seq!["!="@],
        BinaryOp::Ne => seq!["=="@],
        BinaryOp::And => seq!["||"@],
        BinaryOp::Or => seq!["&&"@],
        BinaryOp::Lt => seq!["=="@, ">"@, "<="@],
        BinaryOp::Gt => seq!["=="@, "<"@, ">="@],
        BinaryOp::Le => seq![">"@, "<"@],
        BinaryOp::Ge => seq!["<"@, ">"@],
        BinaryOp::Add => seq!["-"@, "*"@],
        BinaryOp::AddAssign => seq!["-="@, "*="@],
        BinaryOp::Sub => seq!["+"@, "/"@],
        BinaryOp::Mul => seq!["+"@, "/"@],
        BinaryOp::SubAssign => seq!["+="@, "/="@],
        BinaryOp::MulAssign => seq!["+="@, "/="@],
        BinaryOp::Div => seq!["%"@, "*"@],
        BinaryOp::DivAssign => seq!["%="@, "*="@],
        BinaryOp::Rem => seq!["/"@, "+"@],
        BinaryOp::RemAssign => seq!["/="@, "+="@],
        BinaryOp::Shl => seq![">>"@],
        BinaryOp::ShlAssign => seq![">>="@],
        BinaryOp::Shr => seq!["<<"@],
        BinaryOp::ShrAssign => seq!["<<="@],
        BinaryOp::BitAnd => seq!["|"@, "^"@],
        BinaryOp::BitAndAssign => seq!["|="@],
        BinaryOp::BitOr => seq!["&"@, "^"@],
        BinaryOp::BitOrAssign => seq!["&="@],
        BinaryOp::BitXor => seq!["|"@, "&"@],
        BinaryOp::BitXorAssign => seq!["|="@, "&="@],
        BinaryOp::Other => Seq::<Seq<char>>::empty(),
    }
}

/// The mutants that replace a span by one of the first `n` texts.
pub open spec fn text_mutants(
    settings: Settings,
    scope: Scope,
    span: Span,
    replacements: Seq<Seq<char>>,
    genre: Genre,
    n: int,
) -> Seq<MutantModel>
    decreases n,
{
    if n <= 0 {
        Seq::empty()
    } else {
        text_mutants(settings, scope, span, replacements, genre, n - 1) + collected(
            settings,
            scope,
            span,
            None,
            replacements[n - 1],
            genre,
        )
    }
}

/// Whether one of some arms is the catch-all `_`.
pub open spec fn has_catchall(arms: Seq<Arm>) -> bool {
    exists|i: int| 0 <= i < arms.len() && (#[trigger] arms[i]).is_wild
}

/// The mutants that delete one of the first `n` arms: not the catch-all arm, and not one with a guard, because replacing the
/// guard with `false` is logically equivalent.
pub open spec fn arm_mutants(settings: Settings, scope: Scope, arms: Seq<Arm>, n: int) -> Seq<MutantModel>
    decreases n,
{
    if n <= 0 {
        Seq::empty()
    } else {
        let before = arm_mutants(settings, scope, arms, n - 1);
        let arm = arms[n - 1];
        if arm.is_wild || arm.guard is Some {
            before
        } else {
            before + collected(
                settings,
                scope,
                arm.span,
                Some(pretty::pretty(tokens::toks(arm.pattern@))),
                Seq::<char>::empty(),
                Genre::MatchArm,
            )
        }
    }
}

/// The mutants that replace the guard of one of the first `n` arms.
pub open spec fn guard_mutants(settings: Settings, scope: Scope, arms: Seq<Arm>, n: int) -> Seq<MutantModel>
    decreases n,
{
    if n <= 0 {
        Seq::empty()
    } else {
        let before = guard_mutants(settings, scope, arms, n - 1);
        match arms[n - 1].guard {
            Some(span) => before + collected(settings, scope, span, None, "true"@, Genre::MatchArmGuard) + collected(
                settings,
                scope,
                span,
                None,
                "false"@,
                Genre::MatchArmGuard,
            ),
            None => before,
        }
    }
}

/// The spans of the guards of the first `n` arms.
pub open spec fn guard_spans(arms: Seq<Arm>, n: int) -> Seq<Span>
    decreases n,
{
    if n <= 0 {
        Seq::empty()
    } else {
        match arms[n - 1].guard {
            Some(span) => guard_spans(arms, n - 1).push(span),
            None => guard_spans(arms, n - 1),
        }
    }
}

/// The span that is deleted with a field: the field and its trailing comma, if present.
pub open spec fn field_span(field: FieldNode) -> Span {
    match field.comma_end {
        Some(end) => Span { start: field.span.start, end },
        None => field.span,
    }
}

/// The mutants that delete one of the first `n` fields of a struct literal.
pub open spec fn field_mutants(
    settings: Settings,
    scope: Scope,
    struct_name: Seq<char>,
    fields: Seq<FieldNode>,
    n: int,
) -> Seq<MutantModel>
    decreases n,
{
    if n <= 0 {
        Seq::empty()
    } else {
        let before = field_mutants(settings, scope, struct_name, fields, n - 1);
        match fields[n - 1].name {
            Some(name) => {
                let m = mutant_at(
                    settings,
                    scope,
                    field_span(fields[n - 1]),
                    None,
                    Seq::<char>::empty(),
                    Genre::StructField,
                    Some(TargetModel { field_name: name@, struct_name }),
                );
                if excluded_by_attr(scope.excludes, m.name_text(true)) {
                    before
                } else {
                    before.push(m)
                }
            },
            None => before,
        }
    }
}

/// Whether a `return` occurs in some nodes, and whether a `break` or `continue` does. What they return is not looked into;
/// everything else is, closures and loops included.
pub open spec fn flow_of(nodes: Seq<Node>, n: int) -> (bool, bool)
    decreases nodes, n,
{
    if n <= 0 || n > nodes.len() {
        (false, false)
    } else {
        let before = flow_of(nodes, n - 1);
        let here = node_flow(nodes[n - 1]);
        (before.0 || here.0, before.1 || here.1)
    }
}

/// Whether a `return` occurs in a node, and whether a `break` or `continue` does.
pub open spec fn node_flow(node: Node) -> (bool, bool)
    decreases node, 0int,
{
    match node.kind {
        NodeKind::Return { .. } => (true, false),
        NodeKind::LoopExit => (false, true),
        _ => flow_of(node.children@, node.children@.len() as int),
    }
}

/// What is reached from a node by taking the child at each of some positions in turn.
pub open spec fn descendant(node: Node, path: Seq<int>) -> Option<Node>
    decreases path.len(),
{
    if path.len() == 0 {
        Some(node)
    } else if 0 <= path[0] < node.children@.len() {
        descendant(node.children@[path[0]], path.drop_first())
    } else {
        None
    }
}

/// That a node is a `return`, a `break` or a `continue`.
pub open spec fn leaves(node: Node) -> bool {
    node.kind is Return || node.kind is LoopExit
}

/// That a `return`, a `break` or a `continue` occurs somewhere in a node.
pub open spec fn leaves_somewhere(node: Node) -> bool {
    exists|path: Seq<int>| (#[trigger] descendant(node, path)) matches Some(inner) && leaves(inner)
}

/// Control flow in one of some nodes is control flow in them.
proof fn lemma_flow_of_member(nodes: Seq<Node>, n: int, i: int)
    requires
        0 <= i < n <= nodes.len(),
        node_flow(nodes[i]).0 || node_flow(nodes[i]).1,
    ensures
        flow_of(nodes, n).0 || flow_of(nodes, n).1,
    decreases n,
{
    if i < n - 1 {
        lemma_flow_of_member(nodes, n - 1, i);
    }
}

/// A `return`, a `break` or a `continue` is found wherever it occurs.
proof fn lemma_leaving_is_found(node: Node, path: Seq<int>)
    requires
        descendant(node, path) matches Some(inner) && leaves(inner),
    ensures
        node_flow(node).0 || node_flow(node).1,
    decreases path.len(),
{
    if path.len() > 0 {
        let i = path[0];
        lemma_leaving_is_found(node.children@[i], path.drop_first());
        if !leaves(node) {
            lemma_flow_of_member(node.children@, node.children@.len() as int, i);
        }
    }
}

/// Control flow in some nodes occurs in one of them.
proof fn lemma_flow_of_occurs(nodes: Seq<Node>, n: int)
    requires
        0 <= n <= nodes.len(),
        flow_of(nodes, n).0 || flow_of(nodes, n).1,
    ensures
        exists|i: int| 0 <= i < n && leaves_somewhere(#[trigger] nodes[i]),
    decreases nodes, n,
{
    if n > 0 {
        if node_flow(nodes[n - 1]).0 || node_flow(nodes[n - 1]).1 {
            lemma_flow_occurs(nodes[n - 1]);
            assert(leaves_somewhere(nodes[n - 1]));
        } else {
            lemma_flow_of_occurs(nodes, n - 1);
        }
    }
}

/// Control flow in a node is a `return`, a `break` or a `continue` somewhere in it.
proof fn lemma_flow_occurs(node: Node)
    requires
        node_flow(node).0 || node_flow(node).1,
    ensures
        leaves_somewhere(node),
    decreases node, 0int,
{
    if leaves(node) {
        assert(descendant(node, Seq::<int>::empty()) == Some(node));
    } else {
        lemma_flow_of_occurs(node.children@, node.children@.len() as int);
        let i = choose|i: int| 0 <= i < node.children@.len() && leaves_somewhere(#[trigger] node.children@[i]);
        let below = choose|path: Seq<int>|
            (#[trigger] descendant(node.children@[i], path)) matches Some(inner) && leaves(inner);
        let path = seq![i] + below;
        assert(path.drop_first() =~= below);
        assert(descendant(node, path) == descendant(node.children@[i], below));
    }
}

/// A node has control flow if and only if a `return`, a `break` or a `continue` occurs anywhere in it, within closures and
/// loops as well; and some nodes have if one of them does. It depends on the nodes alone: not on what was asked before.
pub proof fn control_flow_is_found_anywhere(node: Node, nodes: Seq<Node>)
    ensures
        node_flow(node).0 || node_flow(node).1 <==> leaves_somewhere(node),
        flow_of(nodes, nodes.len() as int).0 || flow_of(nodes, nodes.len() as int).1 <==> exists|i: int|
            0 <= i < nodes.len() && leaves_somewhere(#[trigger] nodes[i]),
{
    if leaves_somewhere(node) {
        let path = choose|path: Seq<int>| (#[trigger] descendant(node, path)) matches Some(inner) && leaves(inner);
        lemma_leaving_is_found(node, path);
    }
    if node_flow(node).0 || node_flow(node).1 {
        lemma_flow_occurs(node);
    }
    if flow_of(nodes, nodes.len() as int).0 || flow_of(nodes, nodes.len() as int).1 {
        lemma_flow_of_occurs(nodes, nodes.len() as int);
    }
    if exists|i: int| 0 <= i < nodes.len() && leaves_somewhere(#[trigger] nodes[i]) {
        let i = choose|i: int| 0 <= i < nodes.len() && leaves_somewhere(#[trigger] nodes[i]);
        let path = choose|path: Seq<int>| (#[trigger] descendant(nodes[i], path)) matches Some(inner) && leaves(inner);
        lemma_leaving_is_found(nodes[i], path);
        lemma_flow_of_member(nodes, nodes.len() as int, i);
    }
}

/// The base name of a place: `v` for `v`, `v.field`, `v[0]`, `*v`.
pub open spec fn root_name(place: Place) -> Option<Seq<char>>
    decreases place,
{
    match place {
        Place::Name(name) => Some(name@),
        Place::Part(inner) => root_name(*inner),
        Place::Other => None,
    }
}

/// That one of some statements binds a name without a type.
pub open spec fn binds_untyped(statements: Seq<Node>, name: Seq<char>) -> bool {
    exists|i: int|
        0 <= i < statements.len() && ((#[trigger] statements[i]).kind matches NodeKind::Statement(
            StatementKind::Local { untyped_name: Some(n) },
        ) && n@ == name)
}

/// That a call is one that the options ask to leave alone.
pub open spec fn skips_call(skip_calls: Seq<Seq<char>>, callee: Option<Path>) -> bool {
    callee matches Some(path) && exists|i: int|
        0 <= i < skip_calls.len() && fnvalue::path_ends(path, #[trigger] skip_calls[i])
}

/// Whether a statement expression can be deleted without changing the types of anything around it, and without removing
/// control flow: it is a call, a method call or a plain assignment, and what it acts on is not a local whose type is only
/// inferred.
pub open spec fn is_deletable(form: StatementForm, statements: Seq<Node>, flow: (bool, bool)) -> bool {
    let acts_on = match form {
        StatementForm::MethodCall { receiver, .. } => root_name(receiver),
        StatementForm::Assign { target } => root_name(target),
        _ => None,
    };
    &&& !(form is Other)
    &&& !(acts_on matches Some(name) && binds_untyped(statements, name))
    &&& !flow.0 && !flow.1
}

/// Whether the expression of a statement is a call that the options ask to leave alone.
pub open spec fn is_skipped_form(skip_calls: Seq<Seq<char>>, form: StatementForm) -> bool {
    match form {
        StatementForm::Call { callee } => skips_call(skip_calls, callee),
        StatementForm::MethodCall { method, .. } => skip_calls.contains(method@),
        _ => false,
    }
}

/// The mutants that delete one of the first `n` statements of a block.
pub open spec fn statement_mutants(settings: Settings, scope: Scope, statements: Seq<Node>, n: int) -> Seq<MutantModel>
    decreases n,
{
    if n <= 0 {
        Seq::empty()
    } else {
        let before = statement_mutants(settings, scope, statements, n - 1);
        let children = statements[n - 1].children@;
        match statements[n - 1].kind {
            NodeKind::Statement(StatementKind::Expr { form, span, semi_end: Some(end) }) => {
                if is_deletable(form, statements, flow_of(children, children.len() as int)) && !is_skipped_form(
                    settings.skip_calls,
                    form,
                ) {
                    before + collected(
                        settings,
                        scope,
                        Span { start: span.start, end },
                        None,
                        Seq::<char>::empty(),
                        Genre::DeleteStatement,
                    )
                } else {
                    before
                }
            },
            _ => before,
        }
    }
}

/// The mutants that return one of the first `n` values, except one that is returned anyway.
pub open spec fn return_mutants(
    settings: Settings,
    scope: Scope,
    span: Span,
    original: Seq<char>,
    values: Seq<Seq<Tok>>,
    n: int,
) -> Seq<MutantModel>
    decreases n,
{
    if n <= 0 {
        Seq::empty()
    } else {
        let before = return_mutants(settings, scope, span, original, values, n - 1);
        if pretty::pretty(values[n - 1]) == original {
            before
        } else {
            before + collected(settings, scope, span, None, pretty::pretty(values[n - 1]), Genre::ReturnValue)
        }
    }
}

/// The attributes of a node that asks to be skipped by them.
pub open spec fn node_attrs(kind: NodeKind) -> Seq<Attr> {
    match kind {
        NodeKind::Call { attrs, .. } => attrs@,
        NodeKind::MethodCall { attrs, .. } => attrs@,
        NodeKind::Fn(function) => function.attrs@,
        NodeKind::Const { attrs } => attrs@,
        NodeKind::Impl(item) => item.attrs@,
        NodeKind::Trait { attrs, .. } => attrs@,
        NodeKind::Mod(item) => item.attrs@,
        NodeKind::Binary { attrs, .. } => attrs@,
        NodeKind::Unary { attrs, .. } => attrs@,
        NodeKind::If { attrs, .. } => attrs@,
        NodeKind::While { attrs, .. } => attrs@,
        NodeKind::Match { attrs, .. } => attrs@,
        NodeKind::Struct { attrs, .. } => attrs@,
        _ => Seq::<Attr>::empty(),
    }
}

/// That a function is passed over: it is unsafe, it has no body or an empty one, or it is a constructor called `new`.
pub open spec fn fn_skipped(function: FnNode) -> bool {
    ||| function.is_unsafe
    ||| function.kind != FnKind::Free && function.name@ == "new"@
    ||| !(function.body matches Some(body) && body.statements@.len() > 0)
}

/// That a node is passed over, with everything in it.
pub open spec fn node_skipped(kind: NodeKind) -> bool {
    ||| attrs::any_attr_skips(node_attrs(kind))
    ||| kind matches NodeKind::Fn(function) && fn_skipped(function)
}

/// The patterns by which a node excludes mutants in it. A binary operator or a constant cannot have any.
pub open spec fn node_patterns(kind: NodeKind) -> PatternsModel {
    match kind {
        NodeKind::Binary { .. } => PatternsModel::Patterns(Seq::<Seq<char>>::empty()),
        NodeKind::Const { .. } => PatternsModel::Patterns(Seq::<Seq<char>>::empty()),
        _ => attrs::exclude_patterns(node_attrs(kind)),
    }
}

/// Each of some patterns in double quotes.
pub open spec fn quoted(patterns: Seq<Seq<char>>) -> Seq<Seq<char>> {
    Seq::new(patterns.len(), |i: int| "\""@ + patterns[i] + "\""@)
}

/// What is reported of patterns that do not compile.
pub open spec fn pattern_message(
    source: SourceModel,
    attributes: Seq<Attr>,
    patterns: Seq<Seq<char>>,
    error: Seq<char>,
) -> Seq<char> {
    let location = match attrs::pattern_attr_from(attributes, 0) {
        Some(start) => source.location(start),
        None => source.path,
    };
    location + ": invalid regex in #[mutants::exclude_re("@ + text::joined(quoted(patterns), ", "@) + ")]: "@ + error
}

/// The scope within something that has some attributes, of which `patterns` are the patterns; or what is wrong with them.
pub open spec fn excluding(
    source: SourceModel,
    scope: Scope,
    attributes: Seq<Attr>,
    patterns: PatternsModel,
) -> Result<Scope, Seq<char>> {
    match patterns {
        PatternsModel::Malformed(start, message) => Err(source.location(start) + ": "@ + message),
        PatternsModel::Patterns(patterns) => if patterns.len() == 0 {
            Ok(scope)
        } else {
            match names::patterns_error(patterns) {
                Some(error) => Err(pattern_message(source, attributes, patterns, error)),
                None => Ok(Scope { excludes: scope.excludes.push(patterns), ..scope }),
            }
        },
    }
}

/// That nothing is looked for in a node after its attributes: an implementation of `Default`, for which there's no good
/// other value, or a module whose path starts at the root.
pub open spec fn node_ignored(kind: NodeKind) -> bool {
    match kind {
        NodeKind::Impl(item) => item.trait_path matches Some(path) && fnvalue::path_ends(path.0, "Default"@),
        NodeKind::Mod(item) => attrs::path_attribute_from(item.attrs@, 0) matches Some(path) && attrs::is_absolute(path),
        _ => false,
    }
}

/// The name of an `impl` as a namespace.
pub open spec fn impl_name(item: ImplNode) -> Seq<char> {
    let self_type = pretty::pretty(tokens::toks(item.self_type@));
    match item.trait_path {
        Some(path) => "<impl "@ + pretty::pretty(tokens::toks(path.1@)) + " for "@ + self_type + ">"@,
        None => self_type,
    }
}

/// A function as it is named from within a scope.
pub open spec fn function_model(scope: Scope, function: FnNode) -> FunctionModel {
    FunctionModel {
        function_name: text::joined(scope.namespace.push(function.name@), "::"@),
        return_type: pretty::pretty(tokens::toks(function.output_tokens@)),
        span: function.span,
    }
}

/// What is known of a function with a body.
pub open spec fn context_model(function: FnNode) -> ContextModel {
    let statements = function.body->0.statements@;
    ContextModel {
        body_span: body_span(statements),
        output: function.output,
        single_return: statements.len() == 1 && statements[0].is_return,
    }
}

/// The module that a `mod` opens.
pub open spec fn mod_model(item: ModNode) -> ModModel {
    ModModel {
        name: item.name@,
        path_attribute: attrs::path_attribute_from(item.attrs@, 0),
        source_location: item.span,
    }
}

/// The scope within a node.
pub open spec fn inner_scope(scope: Scope, kind: NodeKind) -> Scope {
    match kind {
        NodeKind::Fn(function) => Scope {
            namespace: scope.namespace.push(function.name@),
            functions: scope.functions.push(function_model(scope, function)),
            contexts: scope.contexts.push(context_model(function)),
            in_const: scope.in_const || function.is_const,
            ..scope
        },
        NodeKind::Const { .. } => Scope { in_const: true, ..scope },
        NodeKind::ConstScope => Scope { in_const: true, ..scope },
        NodeKind::Impl(item) => Scope { namespace: scope.namespace.push(impl_name(item)), ..scope },
        NodeKind::Trait { name, .. } => Scope { namespace: scope.namespace.push(name@), ..scope },
        NodeKind::Mod(item) => Scope {
            namespace: scope.namespace.push(item.name@),
            mods: scope.mods.push(mod_model(item)),
            ..scope
        },
        NodeKind::Match { arms, .. } => Scope {
            guards: scope.guards + guard_spans(arms@, arms@.len() as int),
            ..scope
        },
        NodeKind::Closure => Scope { in_closure: true, ..scope },
        _ => scope,
    }
}

/// The mutants of a condition of an `if`. Replacing a condition by `false` where what it guards exits a loop could make the
/// loop run forever, so that is left out.
pub open spec fn if_mutants(
    settings: Settings,
    scope: Scope,
    condition: Condition,
    span: Span,
    exits_loop: bool,
) -> Seq<MutantModel> {
    if condition != Condition::Expression {
        Seq::empty()
    } else if exits_loop {
        collected(settings, scope, span, None, "true"@, Genre::IfCondition)
    } else {
        collected(settings, scope, span, None, "true"@, Genre::IfCondition) + collected(
            settings,
            scope,
            span,
            None,
            "false"@,
            Genre::IfCondition,
        )
    }
}

/// The mutants of a `match`: deleted arms, if there is an arm that catches what they leave, and replaced guards.
pub open spec fn match_mutants(settings: Settings, scope: Scope, arms: Seq<Arm>) -> Seq<MutantModel> {
    let deleted = if has_catchall(arms) {
        arm_mutants(settings, scope, arms, arms.len() as int)
    } else {
        Seq::empty()
    };
    deleted + guard_mutants(settings, scope, arms, arms.len() as int)
}

/// That a literal is the whole body of a function or a whole match arm guard, which is mutated anyway.
pub open spec fn mutated_elsewhere(scope: Scope, span: Span) -> bool {
    ||| scope.contexts.len() > 0 && scope.contexts.last().body_span == Some(span)
    ||| scope.guards.contains(span)
}

/// The mutants of a bool literal: the other one.
pub open spec fn literal_mutants(settings: Settings, scope: Scope, literal: bool, span: Span) -> Seq<MutantModel> {
    if mutated_elsewhere(scope, span) {
        Seq::empty()
    } else {
        collected(
            settings,
            scope,
            span,
            None,
            if literal {
                "false"@
            } else {
                "true"@
            },
            Genre::BoolLiteral,
        )
    }
}

/// The mutants of a `return` of a value, in a function whose return type is declared and whose whole body it is not.
pub open spec fn value_mutants(settings: Settings, scope: Scope, value: Option<(Span, Vec<TokenTree>)>) -> Seq<
    MutantModel,
> {
    match value {
        Some((span, returned)) if !scope.in_closure && scope.contexts.len() > 0 && !scope.contexts.last().single_return
            && scope.contexts.last().output is Type => {
            let values = fnvalue::return_values(scope.contexts.last().output, settings.errors, settings.enums);
            return_mutants(
                settings,
                scope,
                span,
                pretty::pretty(tokens::toks(returned@)),
                values,
                values.len() as int,
            )
        },
        _ => Seq::empty(),
    }
}

/// The mutants that a node gives by itself, where `scope` is the scope within it.
pub open spec fn own_mutants(settings: Settings, scope: Scope, node: Node) -> Seq<MutantModel> {
    match node.kind {
        NodeKind::Fn(function) => {
            let values = fnvalue::return_values(function.output, settings.errors, settings.enums);
            fn_mutants(settings, scope, function.body->0, values, values.len() as int)
        },
        NodeKind::Binary { op, op_span, .. } => {
            let replacements = operator_replacements(op);
            text_mutants(settings, scope, op_span, replacements, Genre::BinaryOperator, replacements.len() as int)
        },
        NodeKind::Unary { unary_op, op_span, .. } => if unary_op == UnaryOp::Not || unary_op == UnaryOp::Neg {
            collected(settings, scope, op_span, None, Seq::<char>::empty(), Genre::UnaryOperator)
        } else {
            Seq::empty()
        },
        NodeKind::If { condition, condition_span, then_at, .. } => if_mutants(
            settings,
            scope,
            condition,
            condition_span,
            then_at < node.children@.len() && node_flow(node.children@[then_at as int]).1,
        ),
        NodeKind::While { condition, condition_span, .. } => if condition == Condition::Expression {
            collected(settings, scope, condition_span, None, "false"@, Genre::WhileCondition)
        } else {
            Seq::empty()
        },
        NodeKind::Match { arms, .. } => match_mutants(settings, scope, arms@),
        NodeKind::BoolLiteral { literal, span } => literal_mutants(settings, scope, literal, span),
        NodeKind::Struct { struct_path, has_base, fields, .. } => if has_base {
            field_mutants(
                settings,
                scope,
                pretty::pretty(tokens::toks(struct_path@)),
                fields@,
                fields@.len() as int,
            )
        } else {
            Seq::empty()
        },
        NodeKind::Block => statement_mutants(settings, scope, node.children@, node.children@.len() as int),
        NodeKind::Return { value } => value_mutants(settings, scope, value),
        _ => Seq::empty(),
    }
}

/// What a node gives by itself, where `scope` is the scope within it. A `mod foo;` without content refers to another file.
pub open spec fn own_found(settings: Settings, scope: Scope, node: Node) -> Found {
    match node.kind {
        NodeKind::Mod(item) => if item.is_inline {
            Found::nothing()
        } else {
            Found::of_mods(seq![scope.mods])
        },
        _ => Found::of_mutants(own_mutants(settings, scope, node)),
    }
}

/// That the nodes within a node are looked at.
pub open spec fn descends(settings: Settings, kind: NodeKind) -> bool {
    match kind {
        NodeKind::Call { callee, .. } => !skips_call(settings.skip_calls, callee),
        NodeKind::MethodCall { method, .. } => !settings.skip_calls.contains(method@),
        NodeKind::Hidden => false,
        _ => true,
    }
}

/// What is found in a node.
pub open spec fn found_node(settings: Settings, scope: Scope, node: Node) -> Found
    decreases node, 0int,
{
    if node_skipped(node.kind) {
        Found::nothing()
    } else {
        match excluding(settings.source, scope, node_attrs(node.kind), node_patterns(node.kind)) {
            Err(error) => Found::of_error(error),
            Ok(scope) => if node_ignored(node.kind) {
                Found::nothing()
            } else {
                let inner = inner_scope(scope, node.kind);
                let own = own_found(settings, inner, node);
                if descends(settings, node.kind) {
                    own.and(found_nodes(settings, inner, node.children@, node.children@.len() as int))
                } else {
                    own
                }
            },
        }
    }
}

/// What is found in the first `n` of some nodes.
pub open spec fn found_nodes(settings: Settings, scope: Scope, nodes: Seq<Node>, n: int) -> Found
    decreases nodes, n,
{
    if n <= 0 || n > nodes.len() {
        Found::nothing()
    } else {
        found_nodes(settings, scope, nodes, n - 1).and(found_node(settings, scope, nodes[n - 1]))
    }
}

/// Outside of everything.
pub open spec fn top_scope() -> Scope {
    Scope {
        namespace: Seq::empty(),
        mods: Seq::empty(),
        functions: Seq::empty(),
        contexts: Seq::empty(),
        guards: Seq::empty(),
        in_closure: false,
        in_const: false,
        excludes: Seq::empty(),
    }
}

/// What is found in a file.
pub open spec fn found_file(settings: Settings, file: FileNode) -> Found {
    if attrs::any_attr_skips(file.attrs@) {
        Found::nothing()
    } else {
        match excluding(settings.source, top_scope(), file.attrs@, attrs::exclude_patterns(file.attrs@)) {
            Err(error) => Found::of_error(error),
            Ok(scope) => found_nodes(settings, scope, file.children@, file.children@.len() as int),
        }
    }
}

/// A node that asks to be skipped, or is a function that is passed over, gives nothing, whatever is in it.
pub proof fn skipped_nodes_give_nothing(settings: Settings, scope: Scope, node: Node)
    requires
        node_skipped(node.kind),
    ensures
        found_node(settings, scope, node) == Found::nothing(),
{
}

/// Nothing is mutated in a pattern or an attribute.
pub proof fn patterns_and_attributes_give_nothing(settings: Settings, scope: Scope, node: Node)
    requires
        node.kind is Hidden,
    ensures
        found_node(settings, scope, node) == Found::nothing(),
{
    let inner = inner_scope(scope, node.kind);
    assert(attrs::exclude_patterns(Seq::<Attr>::empty()) =~= PatternsModel::Patterns(Seq::<Seq<char>>::empty()));
    assert(found_node(settings, scope, node) =~= Found::nothing());
}

/// Nothing is mutated in a call that the options ask to leave alone, its arguments included.
pub proof fn calls_left_alone_give_no_mutants(settings: Settings, scope: Scope, node: Node)
    requires
        (node.kind matches NodeKind::Call { callee, .. } && skips_call(settings.skip_calls, callee)) || (
        node.kind matches NodeKind::MethodCall { method, .. } && settings.skip_calls.contains(method@)),
    ensures
        found_node(settings, scope, node).mutants.len() == 0,
        found_node(settings, scope, node).mods.len() == 0,
{
}

/// That what a mutant writes suits its genre: what can be deleted is deleted, a condition or a literal becomes `true` or
/// `false`, the condition of a `while` never `true`, and only a deleted field has a target.
pub open spec fn suits_genre(m: MutantModel) -> bool {
    &&& match m.genre {
        Genre::UnaryOperator | Genre::DeleteStatement | Genre::MatchArm | Genre::StructField => m.replacement.len() == 0,
        Genre::IfCondition | Genre::MatchArmGuard | Genre::BoolLiteral => m.replacement == "true"@ || m.replacement
            == "false"@,
        Genre::WhileCondition => m.replacement == "false"@,
        _ => true,
    }
    &&& m.target is Some <==> m.genre == Genre::StructField
}

/// What holds of every mutant that is found within a scope: it is of the file, it can be described, what it writes suits its
/// genre, no attribute around it rejects it, its name is wanted unless it deletes a field, it is marked if it is evaluated at
/// compile time, and it replaces no value that a closure returns.
pub open spec fn belongs(settings: Settings, scope: Scope, m: MutantModel) -> bool {
    &&& m.source_file == settings.source
    &&& m.describable()
    &&& suits_genre(m)
    &&& scope.in_closure ==> m.genre != Genre::ReturnValue
    &&& !excluded_by_attr(scope.excludes, m.name_text(true))
    &&& m.genre != Genre::StructField ==> settings.names.allows(m.name_text(true))
    &&& scope.in_const ==> m.const_eval
}

/// That all of some mutants belong to a scope.
pub open spec fn all_belong(settings: Settings, scope: Scope, mutants: Seq<MutantModel>) -> bool {
    forall|i: int| 0 <= i < mutants.len() ==> belongs(settings, scope, #[trigger] mutants[i])
}

proof fn lemma_both_belong(settings: Settings, scope: Scope, a: Seq<MutantModel>, b: Seq<MutantModel>)
    requires
        all_belong(settings, scope, a),
        all_belong(settings, scope, b),
    ensures
        all_belong(settings, scope, a + b),
{
    assert forall|i: int| 0 <= i < (a + b).len() implies belongs(settings, scope, #[trigger] (a + b)[i]) by {
        if i < a.len() {
            assert((a + b)[i] == a[i]);
        } else {
            assert((a + b)[i] == b[i - a.len()]);
        }
    }
}

proof fn lemma_fn_mutants_belong(settings: Settings, scope: Scope, body: FnBody, values: Seq<Seq<Tok>>, n: int)
    requires
        scope.functions.len() > 0,
    ensures
        all_belong(settings, scope, fn_mutants(settings, scope, body, values, n)),
    decreases n,
{
    if n > 0 {
        lemma_fn_mutants_belong(settings, scope, body, values, n - 1);
        lemma_both_belong(
            settings,
            scope,
            fn_mutants(settings, scope, body, values, n - 1),
            collected(
                settings,
                scope,
                body_span(body.statements@)->0,
                None,
                pretty::pretty(values[n - 1]),
                Genre::FnValue,
            ),
        );
    }
}

proof fn lemma_text_mutants_belong(
    settings: Settings,
    scope: Scope,
    span: Span,
    replacements: Seq<Seq<char>>,
    genre: Genre,
    n: int,
)
    requires
        genre == Genre::BinaryOperator,
    ensures
        all_belong(settings, scope, text_mutants(settings, scope, span, replacements, genre, n)),
    decreases n,
{
    if n > 0 {
        lemma_text_mutants_belong(settings, scope, span, replacements, genre, n - 1);
        lemma_both_belong(
            settings,
            scope,
            text_mutants(settings, scope, span, replacements, genre, n - 1),
            collected(settings, scope, span, None, replacements[n - 1], genre),
        );
    }
}

proof fn lemma_arm_mutants_belong(settings: Settings, scope: Scope, arms: Seq<Arm>, n: int)
    ensures
        all_belong(settings, scope, arm_mutants(settings, scope, arms, n)),
    decreases n,
{
    if n > 0 {
        lemma_arm_mutants_belong(settings, scope, arms, n - 1);
        lemma_both_belong(
            settings,
            scope,
            arm_mutants(settings, scope, arms, n - 1),
            collected(
                settings,
                scope,
                arms[n - 1].span,
                Some(pretty::pretty(tokens::toks(arms[n - 1].pattern@))),
                Seq::<char>::empty(),
                Genre::MatchArm,
            ),
        );
    }
}

proof fn lemma_guard_mutants_belong(settings: Settings, scope: Scope, arms: Seq<Arm>, n: int)
    ensures
        all_belong(settings, scope, guard_mutants(settings, scope, arms, n)),
    decreases n,
{
    if n > 0 {
        lemma_guard_mutants_belong(settings, scope, arms, n - 1);
        if arms[n - 1].guard is Some {
            let span = arms[n - 1].guard->0;
            let before = guard_mutants(settings, scope, arms, n - 1);
            let on = collected(settings, scope, span, None, "true"@, Genre::MatchArmGuard);
            let off = collected(settings, scope, span, None, "false"@, Genre::MatchArmGuard);
            lemma_both_belong(settings, scope, before, on);
            lemma_both_belong(settings, scope, before + on, off);
        }
    }
}

proof fn lemma_field_mutants_belong(
    settings: Settings,
    scope: Scope,
    struct_name: Seq<char>,
    fields: Seq<FieldNode>,
    n: int,
)
    ensures
        all_belong(settings, scope, field_mutants(settings, scope, struct_name, fields, n)),
    decreases n,
{
    if n > 0 {
        lemma_field_mutants_belong(settings, scope, struct_name, fields, n - 1);
    }
}

proof fn lemma_statement_mutants_belong(settings: Settings, scope: Scope, statements: Seq<Node>, n: int)
    ensures
        all_belong(settings, scope, statement_mutants(settings, scope, statements, n)),
    decreases n,
{
    if n > 0 {
        lemma_statement_mutants_belong(settings, scope, statements, n - 1);
        match statements[n - 1].kind {
            NodeKind::Statement(StatementKind::Expr { form, span, semi_end: Some(end) }) => {
                lemma_both_belong(
                    settings,
                    scope,
                    statement_mutants(settings, scope, statements, n - 1),
                    collected(
                        settings,
                        scope,
                        Span { start: span.start, end },
                        None,
                        Seq::<char>::empty(),
                        Genre::DeleteStatement,
                    ),
                );
            },
            _ => {},
        }
    }
}

proof fn lemma_return_mutants_belong(
    settings: Settings,
    scope: Scope,
    span: Span,
    original: Seq<char>,
    values: Seq<Seq<Tok>>,
    n: int,
)
    requires
        !scope.in_closure,
    ensures
        all_belong(settings, scope, return_mutants(settings, scope, span, original, values, n)),
    decreases n,
{
    if n > 0 {
        lemma_return_mutants_belong(settings, scope, span, original, values, n - 1);
        lemma_both_belong(
            settings,
            scope,
            return_mutants(settings, scope, span, original, values, n - 1),
            collected(settings, scope, span, None, pretty::pretty(values[n - 1]), Genre::ReturnValue),
        );
    }
}

proof fn lemma_own_mutants_belong(settings: Settings, scope: Scope, node: Node)
    requires
        node.kind is Fn ==> scope.functions.len() > 0,
    ensures
        all_belong(settings, scope, own_mutants(settings, scope, node)),
{
    match node.kind {
        NodeKind::Fn(function) => {
            let values = fnvalue::return_values(function.output, settings.errors, settings.enums);
            lemma_fn_mutants_belong(settings, scope, function.body->0, values, values.len() as int);
        },
        NodeKind::Binary { op, op_span, .. } => {
            let replacements = operator_replacements(op);
            lemma_text_mutants_belong(
                settings,
                scope,
                op_span,
                replacements,
                Genre::BinaryOperator,
                replacements.len() as int,
            );
        },
        NodeKind::If { condition_span, .. } => {
            lemma_both_belong(
                settings,
                scope,
                collected(settings, scope, condition_span, None, "true"@, Genre::IfCondition),
                collected(settings, scope, condition_span, None, "false"@, Genre::IfCondition),
            );
        },
        NodeKind::Match { arms, .. } => {
            let n = arms@.len() as int;
            lemma_arm_mutants_belong(settings, scope, arms@, n);
            lemma_guard_mutants_belong(settings, scope, arms@, n);
            lemma_both_belong(
                settings,
                scope,
                arm_mutants(settings, scope, arms@, n),
                guard_mutants(settings, scope, arms@, n),
            );
            lemma_both_belong(settings, scope, Seq::empty(), guard_mutants(settings, scope, arms@, n));
        },
        NodeKind::Struct { struct_path, fields, .. } => {
            lemma_field_mutants_belong(
                settings,
                scope,
                pretty::pretty(tokens::toks(struct_path@)),
                fields@,
                fields@.len() as int,
            );
        },
        NodeKind::Block => {
            lemma_statement_mutants_belong(settings, scope, node.children@, node.children@.len() as int);
        },
        NodeKind::Return { value } => {
            if value is Some && scope.contexts.len() > 0 && !scope.in_closure {
                let values = fnvalue::return_values(scope.contexts.last().output, settings.errors, settings.enums);
                lemma_return_mutants_belong(
                    settings,
                    scope,
                    (value->0).0,
                    pretty::pretty(tokens::toks((value->0).1@)),
                    values,
                    values.len() as int,
                );
            }
        },
        _ => {},
    }
}

/// What belongs to a scope within another belongs to the other too.
proof fn lemma_belongs_outside(settings: Settings, outer: Scope, inner: Scope, mutants: Seq<MutantModel>)
    requires
        all_belong(settings, inner, mutants),
        inner.excludes == outer.excludes || (inner.excludes.len() > 0 && inner.excludes.drop_last() == outer.excludes),
        outer.in_const ==> inner.in_const,
        outer.in_closure ==> inner.in_closure,
    ensures
        all_belong(settings, outer, mutants),
{
    assert forall|i: int| 0 <= i < mutants.len() implies belongs(settings, outer, #[trigger] mutants[i]) by {
        let name = mutants[i].name_text(true);
        assert(belongs(settings, inner, mutants[i]));
        if excluded_by_attr(outer.excludes, name) {
            let j = choose|j: int| 0 <= j < outer.excludes.len() && names::patterns_match(#[trigger] outer.excludes[j], name);
            assert(inner.excludes[j] == outer.excludes[j]);
            assert(names::patterns_match(inner.excludes[j], name));
        }
    }
}

proof fn lemma_node_mutants_belong(settings: Settings, scope: Scope, node: Node)
    ensures
        all_belong(settings, scope, found_node(settings, scope, node).mutants),
    decreases node, 1int,
{
    if !node_skipped(node.kind) {
        match excluding(settings.source, scope, node_attrs(node.kind), node_patterns(node.kind)) {
            Err(_) => {},
            Ok(scoped) => {
                if !node_ignored(node.kind) {
                    let inner = inner_scope(scoped, node.kind);
                    if node_patterns(node.kind) is Patterns && node_patterns(node.kind)->Patterns_0.len() > 0 {
                        assert(scoped.excludes.drop_last() =~= scope.excludes);
                    }
                    let own = own_found(settings, inner, node);
                    if !(node.kind is Mod) {
                        lemma_own_mutants_belong(settings, inner, node);
                    }
                    lemma_nodes_mutants_belong(settings, inner, node.children@, node.children@.len() as int);
                    let within = found_nodes(settings, inner, node.children@, node.children@.len() as int);
                    lemma_both_belong(settings, inner, own.mutants, within.mutants);
                    lemma_belongs_outside(settings, scope, inner, own.and(within).mutants);
                    lemma_belongs_outside(settings, scope, inner, own.mutants);
                }
            },
        }
    }
}

proof fn lemma_nodes_mutants_belong(settings: Settings, scope: Scope, nodes: Seq<Node>, n: int)
    ensures
        all_belong(settings, scope, found_nodes(settings, scope, nodes, n).mutants),
    decreases nodes, n,
{
    if 0 < n <= nodes.len() {
        lemma_nodes_mutants_belong(settings, scope, nodes, n - 1);
        lemma_node_mutants_belong(settings, scope, nodes[n - 1]);
        lemma_both_belong(
            settings,
            scope,
            found_nodes(settings, scope, nodes, n - 1).mutants,
            found_node(settings, scope, nodes[n - 1]).mutants,
        );
    }
}

/// Every mutant that is found in a node is of the file and can be described, writes what suits its genre, is rejected by no
/// attribute around it, is wanted by its name unless it deletes a field, is marked if the node is evaluated at compile time,
/// and replaces no returned value if the node is in a closure.
pub proof fn mutants_of_a_node_belong_to_it(settings: Settings, scope: Scope, node: Node)
    ensures
        all_belong(settings, scope, found_node(settings, scope, node).mutants),
{
    lemma_node_mutants_belong(settings, scope, node);
}

/// Every mutant that is found in a file is of that file and can be described, writes what suits its genre, is rejected by no
/// pattern of the file's own attributes, and is wanted by its name unless it deletes a field.
pub proof fn mutants_of_a_file_belong_to_it(settings: Settings, file: FileNode)
    ensures
        all_belong(settings, top_scope(), found_file(settings, file).mutants),
        attrs::exclude_patterns(file.attrs@) matches PatternsModel::Patterns(patterns) ==> forall|i: int|
            0 <= i < found_file(settings, file).mutants.len() ==> patterns.len() == 0 || !names::patterns_match(
                patterns,
                (#[trigger] found_file(settings, file).mutants[i]).name_text(true),
            ),
{
    let top = top_scope();
    match excluding(settings.source, top, file.attrs@, attrs::exclude_patterns(file.attrs@)) {
        Ok(scope) => {
            let n = file.children@.len() as int;
            let mutants = found_nodes(settings, scope, file.children@, n).mutants;
            lemma_nodes_mutants_belong(settings, scope, file.children@, n);
            let patterns = attrs::exclude_patterns(file.attrs@)->Patterns_0;
            if patterns.len() > 0 {
                assert(scope.excludes.drop_last() =~= top.excludes);
                assert forall|i: int| 0 <= i < mutants.len() implies !names::patterns_match(
                    patterns,
                    (#[trigger] mutants[i]).name_text(true),
                ) by {
                    assert(belongs(settings, scope, mutants[i]));
                    assert(scope.excludes[0] == patterns);
                    if names::patterns_match(patterns, mutants[i].name_text(true)) {
                        assert(names::patterns_match(scope.excludes[0], mutants[i].name_text(true)));
                    }
                }
            }
            lemma_belongs_outside(settings, top, scope, mutants);
        },
        Err(_) => {},
    }
}

/// A mutant that replaces the body of a function really changes it: it writes one of the values, and as a body that value
/// reads differently from the body that was there.
pub proof fn replaced_bodies_differ(
    settings: Settings,
    scope: Scope,
    body: FnBody,
    values: Seq<Seq<Tok>>,
    n: int,
    m: MutantModel,
)
    requires
        0 <= n <= values.len(),
        fn_mutants(settings, scope, body, values, n).contains(m),
    ensures
        exists|k: int|
            0 <= k < n && m.replacement == pretty::pretty(#[trigger] values[k]) && pretty::pretty(
                tokens::group(Delimiter::Brace, values[k]),
            ) != pretty::pretty(tokens::toks(body.tokens@)),
    decreases n,
{
    if n > 0 {
        let before = fn_mutants(settings, scope, body, values, n - 1);
        let after = fn_mutants(settings, scope, body, values, n);
        let i = choose|i: int| 0 <= i < after.len() && after[i] == m;
        if i < before.len() {
            assert(before[i] == m);
            replaced_bodies_differ(settings, scope, body, values, n - 1, m);
        } else {
            let k = n - 1;
            assert(m.replacement == pretty::pretty(values[k]));
        }
    }
}

/// The arms of a `match` without a catch-all are not deleted: what it gives by itself replaces guards only.
pub proof fn arms_stay_without_a_catchall(settings: Settings, scope: Scope, node: Node, i: int)
    requires
        node.kind matches NodeKind::Match { arms, .. } && !has_catchall(arms@),
        0 <= i < own_mutants(settings, scope, node).len(),
    ensures
        own_mutants(settings, scope, node)[i].genre == Genre::MatchArmGuard,
{
    let arms = node.kind->Match_arms@;
    lemma_guard_genres(settings, scope, arms, arms.len() as int);
    let guards = guard_mutants(settings, scope, arms, arms.len() as int);
    assert(own_mutants(settings, scope, node) =~= guards);
    assert(guards[i].genre == Genre::MatchArmGuard);
}

proof fn lemma_guard_genres(settings: Settings, scope: Scope, arms: Seq<Arm>, n: int)
    ensures
        forall|i: int|
            0 <= i < guard_mutants(settings, scope, arms, n).len() ==> (#[trigger] guard_mutants(
                settings,
                scope,
                arms,
                n,
            )[i]).genre == Genre::MatchArmGuard,
    decreases n,
{
    if n > 0 {
        lemma_guard_genres(settings, scope, arms, n - 1);
    }
}

/// The fields of a struct literal without a base expression are not deleted.
pub proof fn fields_stay_without_a_base(settings: Settings, scope: Scope, node: Node)
    requires
        node.kind matches NodeKind::Struct { has_base, .. } && !has_base,
    ensures
        own_mutants(settings, scope, node).len() == 0,
{
}

/// The condition of an `if let` or a `while let`, and one that is a literal, are not replaced as conditions.
pub proof fn only_expressions_are_replaced_as_conditions(settings: Settings, scope: Scope, node: Node)
    requires
        (node.kind matches NodeKind::If { condition, .. } && condition != Condition::Expression) || (
        node.kind matches NodeKind::While { condition, .. } && condition != Condition::Expression),
    ensures
        own_mutants(settings, scope, node).len() == 0,
{
}

/// A condition that guards a way out of a loop is not replaced by `false`.
pub proof fn ways_out_of_loops_stay_open(settings: Settings, scope: Scope, node: Node, i: int)
    requires
        node.kind matches NodeKind::If { then_at, .. } && then_at < node.children@.len() && node_flow(
            node.children@[then_at as int],
        ).1,
        0 <= i < own_mutants(settings, scope, node).len(),
    ensures
        own_mutants(settings, scope, node)[i].replacement == "true"@,
{
}

/// A literal that is the whole body of a function or a whole guard is not mutated as a literal.
pub proof fn literals_are_not_mutated_twice(settings: Settings, scope: Scope, node: Node)
    requires
        node.kind matches NodeKind::BoolLiteral { span, .. } && mutated_elsewhere(scope, span),
    ensures
        own_mutants(settings, scope, node).len() == 0,
{
}

/// A `return` is not mutated outside of a function, in a closure, in a function that declares no return type, or as the whole
/// body of a function.
pub proof fn returns_of_unknown_type_stay(settings: Settings, scope: Scope, node: Node)
    requires
        node.kind is Return,
        scope.in_closure || scope.contexts.len() == 0 || scope.contexts.last().single_return || scope.contexts.last().output
            is Unit,
    ensures
        own_mutants(settings, scope, node).len() == 0,
{
}

/// A statement is deleted only if it ends with a semicolon, is a call, a method call or a plain assignment, does not act on a
/// local of which it may be the only constraint on the type, holds no `return`, `break` or `continue`, and is no call that the
/// options ask to leave alone.
pub proof fn only_effects_are_deleted(settings: Settings, scope: Scope, statements: Seq<Node>, n: int, i: int)
    requires
        0 <= n <= statements.len(),
        0 <= i < statement_mutants(settings, scope, statements, n).len(),
    ensures
        exists|k: int|
            #![trigger statements[k]]
            0 <= k < n && (statements[k].kind matches NodeKind::Statement(
                StatementKind::Expr { form, span, semi_end: Some(end) },
            ) && is_deletable(
                form,
                statements,
                flow_of(statements[k].children@, statements[k].children@.len() as int),
            ) && !is_skipped_form(settings.skip_calls, form) && statement_mutants(settings, scope, statements, n)[i].span == (
            Span { start: span.start, end })),
    decreases n,
{
    let before = statement_mutants(settings, scope, statements, n - 1);
    if n > 0 {
        if i < before.len() {
            only_effects_are_deleted(settings, scope, statements, n - 1, i);
            assert(statement_mutants(settings, scope, statements, n)[i] == before[i]);
        } else {
            assert(statements[n - 1].kind is Statement);
        }
    }
}

/// How an operator is written.
pub open spec fn operator_text(op: BinaryOp) -> Seq<char> {
    match op {
        BinaryOp::Eq => "=="@,
        BinaryOp::Ne => "!="@,
        BinaryOp::And => "&&"@,
        BinaryOp::Or => "||"@,
        BinaryOp::Lt => "<"@,
        BinaryOp::Gt => ">"@,
        BinaryOp::Le => "<="@,
        BinaryOp::Ge => ">="@,
        BinaryOp::Add => "+"@,
        BinaryOp::AddAssign => "+="@,
        BinaryOp::Sub => "-"@,
        BinaryOp::SubAssign => "-="@,
        BinaryOp::Mul => "*"@,
        BinaryOp::MulAssign => "*="@,
        BinaryOp::Div => "/"@,
        BinaryOp::DivAssign => "/="@,
        BinaryOp::Rem => "%"@,
        BinaryOp::RemAssign => "%="@,
        BinaryOp::Shl => "<<"@,
        BinaryOp::ShlAssign => "<<="@,
        BinaryOp::Shr => ">>"@,
        BinaryOp::ShrAssign => ">>="@,
        BinaryOp::BitAnd => "&"@,
        BinaryOp::BitAndAssign => "&="@,
        BinaryOp::BitOr => "|"@,
        BinaryOp::BitOrAssign => "|="@,
        BinaryOp::BitXor => "^"@,
        BinaryOp::BitXorAssign => "^="@,
        BinaryOp::Other => Seq::<char>::empty(),
    }
}

/// No operator is replaced by itself, or twice by the same operator.
pub proof fn operators_are_replaced_by_others(op: BinaryOp, i: int, j: int)
    requires
        0 <= i < j < operator_replacements(op).len() || 0 <= i == j < operator_replacements(op).len(),
    ensures
        operator_replacements(op)[i] != operator_text(op),
        i < j ==> operator_replacements(op)[i] != operator_replacements(op)[j],
{
    reveal_strlit("==");
    reveal_strlit("!=");
    reveal_strlit("&&");
    reveal_strlit("||");
    reveal_strlit("<");
    reveal_strlit(">");
    reveal_strlit("<=");
    reveal_strlit(">=");
    reveal_strlit("+");
    reveal_strlit("+=");
    reveal_strlit("-");
    reveal_strlit("-=");
    reveal_strlit("*");
    reveal_strlit("*=");
    reveal_strlit("/");
    reveal_strlit("/=");
    reveal_strlit("%");
    reveal_strlit("%=");
    reveal_strlit("<<");
    reveal_strlit("<<=");
    reveal_strlit(">>");
    reveal_strlit(">>=");
    reveal_strlit("&");
    reveal_strlit("&=");
    reveal_strlit("|");
    reveal_strlit("|=");
    reveal_strlit("^");
    reveal_strlit("^=");
    let all = operator_replacements(op);
    let original = operator_text(op);
    lemma_short_texts_differ(all[i], original);
    lemma_short_texts_differ(all[i], all[j]);
}

/// Texts of up to three characters are the same only if they are as long and have the same characters.
proof fn lemma_short_texts_differ(a: Seq<char>, b: Seq<char>)
    ensures
        a == b ==> a.len() == b.len() && (a.len() > 0 ==> a[0] == b[0]) && (a.len() > 1 ==> a[1] == b[1]) && (a.len()
            > 2 ==> a[2] == b[2]),
{
}

} // verus!
