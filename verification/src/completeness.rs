//! What is found in a syntax tree is all that there is to find in it: which mutants each construct gives, and that nothing
//! within it is passed over.

use vstd::prelude::*;
use crate::attrs;
use crate::attrs::PatternsModel;
use crate::fnvalue;
use crate::modules::ModModel;
use crate::mutant::{FunctionModel, Genre, MutantModel, TargetModel};
use crate::names;
use crate::opportunities;
use crate::opportunities::{Found, Scope, Settings};
use crate::pretty;
use crate::span::Span;
use crate::syntax::{
    Arm, Attr, BinaryOp, Condition, FieldNode, FileNode, FnBody, FnKind, FnNode, Node, NodeKind, Place, StatementForm,
    StatementKind, UnaryOp,
};
use crate::text;
use crate::tokens;
use crate::tokens::{Delimiter, Tok, TokenTree};

verus! {

/// That a mutant is wanted: no attribute around it rejects its name, and neither do the options.
pub open spec fn is_wanted(settings: Settings, scope: Scope, m: MutantModel) -> bool {
    &&& forall|i: int|
        0 <= i < scope.excludes.len() ==> !names::patterns_match(#[trigger] scope.excludes[i], m.name_text(true))
    &&& settings.names.examine matches Some(patterns) ==> names::patterns_match(patterns, m.name_text(true))
    &&& settings.names.exclude matches Some(patterns) ==> !names::patterns_match(patterns, m.name_text(true))
}

/// The mutant that writes a text in place of a span, within a scope: it belongs to the innermost function, and is marked if it
/// is evaluated at compile time.
pub open spec fn change(settings: Settings, scope: Scope, span: Span, replacement: Seq<char>, genre: Genre) -> MutantModel {
    MutantModel {
        source_file: settings.source,
        function: if scope.functions.len() > 0 {
            Some(scope.functions.last())
        } else {
            None
        },
        span,
        short_replaced: None,
        replacement,
        genre,
        target: None,
        const_eval: scope.in_const,
    }
}

/// The attributes of a construct.
pub open spec fn attributes(kind: NodeKind) -> Seq<Attr> {
    match kind {
        NodeKind::Fn(function) => function.attrs@,
        NodeKind::Impl(item) => item.attrs@,
        NodeKind::Mod(item) => item.attrs@,
        NodeKind::Trait { attrs, .. } => attrs@,
        NodeKind::Const { attrs } => attrs@,
        NodeKind::Call { attrs, .. } => attrs@,
        NodeKind::MethodCall { attrs, .. } => attrs@,
        NodeKind::Binary { attrs, .. } => attrs@,
        NodeKind::Unary { attrs, .. } => attrs@,
        NodeKind::If { attrs, .. } => attrs@,
        NodeKind::While { attrs, .. } => attrs@,
        NodeKind::Match { attrs, .. } => attrs@,
        NodeKind::Struct { attrs, .. } => attrs@,
        NodeKind::ConstScope | NodeKind::BoolLiteral { .. } | NodeKind::Block | NodeKind::Statement(_) | NodeKind::Closure
        | NodeKind::Return { .. } | NodeKind::LoopExit | NodeKind::Hidden => Seq::<Attr>::empty(),
    }
}

/// That what is in a construct is looked at: no attribute of it asks to skip it; it is no call that the options leave alone; as
/// a function, it is not unsafe, has a body that is not empty, and is no constructor; as an `impl`, it is not one of `Default`;
/// as a module, its path is not absolute; and it is no pattern and no attribute.
pub open spec fn lies_open(settings: Settings, kind: NodeKind) -> bool {
    &&& !attrs::any_attr_skips(attributes(kind))
    &&& match kind {
        NodeKind::Call { callee: Some(path), .. } => forall|i: int|
            0 <= i < settings.skip_calls.len() ==> path.segments@.len() == 0 || path.segments@.last().ident@
                != #[trigger] settings.skip_calls[i],
        NodeKind::MethodCall { method, .. } => forall|i: int|
            0 <= i < settings.skip_calls.len() ==> method@ != #[trigger] settings.skip_calls[i],
        NodeKind::Fn(function) => {
            &&& !function.is_unsafe
            &&& function.kind == FnKind::Free || function.name@ != "new"@
            &&& function.body matches Some(body) && body.statements@.len() > 0
        },
        NodeKind::Impl(item) => item.trait_path matches Some(path) ==> path.0.segments@.len() == 0
            || path.0.segments@.last().ident@ != "Default"@,
        NodeKind::Mod(item) => attrs::path_attribute_from(item.attrs@, 0) matches Some(path) ==> !attrs::is_absolute(path),
        NodeKind::Hidden => false,
        _ => true,
    }
}

/// The patterns by which a construct excludes mutants in it; none for a binary operator or a constant.
pub open spec fn patterns(kind: NodeKind) -> PatternsModel {
    if kind is Binary || kind is Const {
        PatternsModel::Patterns(Seq::<Seq<char>>::empty())
    } else {
        attrs::exclude_patterns(attributes(kind))
    }
}

/// The scope within a construct, if its patterns are in order.
pub open spec fn scope_within(scope: Scope, kind: NodeKind) -> Option<Scope> {
    match patterns(kind) {
        PatternsModel::Patterns(given) if given.len() == 0 => Some(opportunities::inner_scope(scope, kind)),
        PatternsModel::Patterns(given) if names::patterns_error(given) is None => Some(
            opportunities::inner_scope(Scope { excludes: scope.excludes.push(given), ..scope }, kind),
        ),
        _ => None,
    }
}

proof fn lemma_contains_either<A>(a: Seq<A>, b: Seq<A>, x: A)
    ensures
        (a + b).contains(x) <==> a.contains(x) || b.contains(x),
{
    let both = a + b;
    if both.contains(x) {
        let i = choose|i: int| 0 <= i < both.len() && both[i] == x;
        if i < a.len() {
            assert(a[i] == x);
        } else {
            assert(b[i - a.len()] == x);
        }
    }
    if a.contains(x) {
        let i = choose|i: int| 0 <= i < a.len() && a[i] == x;
        assert(both[i] == x);
    }
    if b.contains(x) {
        let i = choose|i: int| 0 <= i < b.len() && b[i] == x;
        assert(both[a.len() + i] == x);
    }
}

proof fn lemma_nodes(settings: Settings, scope: Scope, nodes: Seq<Node>, n: int, m: MutantModel, r: Seq<ModModel>)
    requires
        0 <= n <= nodes.len(),
    ensures
        opportunities::found_nodes(settings, scope, nodes, n).mutants.contains(m) <==> exists|i: int|
            0 <= i < n && opportunities::found_node(settings, scope, #[trigger] nodes[i]).mutants.contains(m),
        opportunities::found_nodes(settings, scope, nodes, n).mods.contains(r) <==> exists|i: int|
            0 <= i < n && opportunities::found_node(settings, scope, #[trigger] nodes[i]).mods.contains(r),
        opportunities::found_nodes(settings, scope, nodes, n).error is None <==> forall|i: int|
            0 <= i < n ==> opportunities::found_node(settings, scope, #[trigger] nodes[i]).error is None,
    decreases n,
{
    if n > 0 {
        lemma_nodes(settings, scope, nodes, n - 1, m, r);
        let before = opportunities::found_nodes(settings, scope, nodes, n - 1);
        let last = opportunities::found_node(settings, scope, nodes[n - 1]);
        lemma_contains_either(before.mutants, last.mutants, m);
        lemma_contains_either(before.mods, last.mods, r);
    }
}

/// A construct that lies open gives what it gives by itself and what each of its children gives within it, and nothing else:
/// no child is passed over, whether it stands in a closure, a loop, a condition or anywhere else. Mutants, references to other
/// files, and errors all come through.
pub proof fn nothing_inside_is_passed_over(
    settings: Settings,
    scope: Scope,
    node: Node,
    m: MutantModel,
    r: Seq<ModModel>,
)
    requires
        lies_open(settings, node.kind),
        scope_within(scope, node.kind) is Some,
    ensures
        ({
            let within = scope_within(scope, node.kind)->0;
            let found = opportunities::found_node(settings, scope, node);
            &&& found.mutants.contains(m) <==> opportunities::own_mutants(settings, within, node).contains(m) || exists|
                i: int,
            |
                0 <= i < node.children@.len() && opportunities::found_node(
                    settings,
                    within,
                    #[trigger] node.children@[i],
                ).mutants.contains(m)
            &&& found.mods.contains(r) <==> (node.kind matches NodeKind::Mod(item) && !item.is_inline && r == within.mods)
                || exists|i: int|
                0 <= i < node.children@.len() && opportunities::found_node(
                    settings,
                    within,
                    #[trigger] node.children@[i],
                ).mods.contains(r)
            &&& found.error is None <==> forall|i: int|
                0 <= i < node.children@.len() ==> opportunities::found_node(
                    settings,
                    within,
                    #[trigger] node.children@[i],
                ).error is None
        }),
{
    let within = scope_within(scope, node.kind)->0;
    let children = node.children@;
    lemma_nodes(settings, within, children, children.len() as int, m, r);
    let own = opportunities::own_found(settings, within, node);
    let inside = opportunities::found_nodes(settings, within, children, children.len() as int);
    lemma_contains_either(own.mutants, inside.mutants, m);
    lemma_contains_either(own.mods, inside.mods, r);
    lemma_lies_open(settings, node.kind);
    assert(opportunities::found_node(settings, scope, node) == own.and(inside));
    if node.kind matches NodeKind::Mod(item) && !item.is_inline {
        assert(own.mods =~= seq![within.mods]);
        assert(own.mods[0] == within.mods);
    }
}

proof fn lemma_lies_open(settings: Settings, kind: NodeKind)
    ensures
        opportunities::node_attrs(kind) == attributes(kind),
        opportunities::node_patterns(kind) == patterns(kind),
        lies_open(settings, kind) <==> !opportunities::node_skipped(kind) && !opportunities::node_ignored(kind)
            && opportunities::descends(settings, kind),
{
    assert(opportunities::node_attrs(kind) =~= attributes(kind));
    match kind {
        NodeKind::Call { callee: Some(path), .. } => {
            if opportunities::skips_call(settings.skip_calls, Some(path)) {
                let i = choose|i: int|
                    0 <= i < settings.skip_calls.len() && fnvalue::path_ends(path, #[trigger] settings.skip_calls[i]);
                assert(path.segments@.last().ident@ == settings.skip_calls[i]);
            } else {
                assert forall|i: int| 0 <= i < settings.skip_calls.len() implies path.segments@.len() == 0
                    || path.segments@.last().ident@ != #[trigger] settings.skip_calls[i] by {
                    assert(!fnvalue::path_ends(path, settings.skip_calls[i]));
                }
            }
        },
        NodeKind::MethodCall { method, .. } => {},
        _ => {},
    }
}

/// A construct that does not lie open gives no mutants and refers to no other file, whatever is in it.
pub proof fn closed_constructs_give_nothing(settings: Settings, scope: Scope, node: Node)
    requires
        !lies_open(settings, node.kind),
    ensures
        opportunities::found_node(settings, scope, node).mutants.len() == 0,
        opportunities::found_node(settings, scope, node).mods.len() == 0,
{
    lemma_lies_open(settings, node.kind);
}

/// Patterns that cannot be read or do not compile are reported, with the place where they stand, and nothing is looked for in
/// the construct that has them; unless it is passed over anyway.
pub proof fn bad_patterns_are_reported(settings: Settings, scope: Scope, node: Node)
    requires
        !attrs::any_attr_skips(attributes(node.kind)),
        !(node.kind is Fn),
        scope_within(scope, node.kind) is None,
    ensures
        opportunities::found_node(settings, scope, node).mutants.len() == 0,
        opportunities::found_node(settings, scope, node).error is Some,
        patterns(node.kind) matches PatternsModel::Malformed(start, message) ==> opportunities::found_node(
            settings,
            scope,
            node,
        ).error == Some(settings.source.location(start) + ": "@ + message),
        patterns(node.kind) matches PatternsModel::Patterns(given) ==> opportunities::found_node(settings, scope, node).error
            == Some(
            (match attrs::pattern_attr_from(attributes(node.kind), 0) {
                Some(start) => settings.source.location(start),
                None => settings.source.path,
            }) + ": invalid regex in #[mutants::exclude_re("@ + text::joined(
                Seq::new(given.len(), |i: int| "\""@ + given[i] + "\""@),
                ", "@,
            ) + ")]: "@ + names::patterns_error(given)->0,
        ),
{
    lemma_lies_open(settings, node.kind);
    if patterns(node.kind) is Patterns {
        let given = patterns(node.kind)->Patterns_0;
        assert(opportunities::quoted(given) =~= Seq::new(given.len(), |i: int| "\""@ + given[i] + "\""@));
    }
}

/// The scope within a construct is the one around it, but for what the construct adds: a closure hides the type of what is
/// returned, a constant is evaluated at compile time, and an item adds its name.
pub proof fn constructs_add_to_the_scope(scope: Scope, kind: NodeKind)
    ensures
        ({
            let within = opportunities::inner_scope(scope, kind);
            match kind {
                NodeKind::Closure => within == (Scope { in_closure: true, ..scope }),
                NodeKind::Const { .. } => within == (Scope { in_const: true, ..scope }),
                NodeKind::ConstScope => within == (Scope { in_const: true, ..scope }),
                NodeKind::Trait { name, .. } => within == (Scope { namespace: scope.namespace.push(name@), ..scope }),
                NodeKind::Impl(item) => within == (Scope {
                    namespace: scope.namespace.push(
                        match item.trait_path {
                            Some(path) => "<impl "@ + pretty::pretty(tokens::toks(path.1@)) + " for "@ + pretty::pretty(
                                tokens::toks(item.self_type@),
                            ) + ">"@,
                            None => pretty::pretty(tokens::toks(item.self_type@)),
                        },
                    ),
                    ..scope
                }),
                NodeKind::Mod(item) => within == (Scope {
                    namespace: scope.namespace.push(item.name@),
                    mods: scope.mods.push(
                        ModModel {
                            name: item.name@,
                            path_attribute: attrs::path_attribute_from(item.attrs@, 0),
                            source_location: item.span,
                        },
                    ),
                    ..scope
                }),
                NodeKind::Fn(_) => within.excludes == scope.excludes && within.mods == scope.mods && within.guards
                    == scope.guards && within.in_closure == scope.in_closure,
                NodeKind::Match { .. } => within == (Scope { guards: within.guards, ..scope }),
                _ => within == scope,
            }
        }),
{
}

/// Within a function, its name is added to the scope, its full name and return type are known, and so is whether its body is
/// one `return`; what is in a `const fn` is evaluated at compile time.
pub proof fn functions_add_to_the_scope(scope: Scope, function: FnNode)
    requires
        function.body is Some,
    ensures
        ({
            let within = opportunities::inner_scope(scope, NodeKind::Fn(function));
            let statements = function.body->0.statements@;
            &&& within.namespace == scope.namespace.push(function.name@)
            &&& within.functions.drop_last() == scope.functions
            &&& within.functions.last() == (FunctionModel {
                function_name: text::joined(scope.namespace.push(function.name@), "::"@),
                return_type: pretty::pretty(tokens::toks(function.output_tokens@)),
                span: function.span,
            })
            &&& within.contexts.drop_last() == scope.contexts
            &&& within.contexts.last().output == function.output
            &&& within.contexts.last().single_return <==> statements.len() == 1 && statements[0].is_return
            &&& within.contexts.last().body_span == if statements.len() == 0 {
                None
            } else {
                Some(Span { start: statements[0].span.start, end: statements[statements.len() - 1].span.end })
            }
            &&& within.in_const <==> scope.in_const || function.is_const
        }),
{
    let within = opportunities::inner_scope(scope, NodeKind::Fn(function));
    assert(within.functions.drop_last() =~= scope.functions);
    assert(within.contexts.drop_last() =~= scope.contexts);
}

proof fn lemma_guard_spans(arms: Seq<Arm>, n: int, span: Span)
    requires
        0 <= n <= arms.len(),
    ensures
        opportunities::guard_spans(arms, n).contains(span) <==> exists|i: int|
            0 <= i < n && (#[trigger] arms[i]).guard == Some(span),
    decreases n,
{
    if n > 0 {
        lemma_guard_spans(arms, n - 1, span);
        let before = opportunities::guard_spans(arms, n - 1);
        if arms[n - 1].guard is Some {
            lemma_contains_either(before, seq![arms[n - 1].guard->0], span);
            assert(before.push(arms[n - 1].guard->0) =~= before + seq![arms[n - 1].guard->0]);
            assert(seq![arms[n - 1].guard->0].contains(span) <==> arms[n - 1].guard->0 == span) by {
                assert(seq![arms[n - 1].guard->0][0] == arms[n - 1].guard->0);
            }
        }
    }
}

/// Within a `match`, the spans of its guards are known.
pub proof fn matches_add_their_guards(scope: Scope, node: Node, span: Span)
    requires
        node.kind is Match,
    ensures
        opportunities::inner_scope(scope, node.kind).guards.contains(span) <==> scope.guards.contains(span) || exists|i: int|
            0 <= i < node.kind->Match_arms@.len() && (#[trigger] node.kind->Match_arms@[i]).guard == Some(span),
{
    let arms = node.kind->Match_arms@;
    lemma_guard_spans(arms, arms.len() as int, span);
    lemma_contains_either(scope.guards, opportunities::guard_spans(arms, arms.len() as int), span);
}

/// What is reached from a node by taking the child at each of some positions in turn, if all on the way lies open, and the
/// scope there.
pub open spec fn reached(settings: Settings, scope: Scope, node: Node, path: Seq<int>) -> Option<(Scope, Node)>
    decreases path.len(),
{
    if path.len() == 0 {
        Some((scope, node))
    } else if lies_open(settings, node.kind) && scope_within(scope, node.kind) is Some && 0 <= path[0]
        < node.children@.len() {
        reached(settings, scope_within(scope, node.kind)->0, node.children@[path[0]], path.drop_first())
    } else {
        None
    }
}

/// However deep a construct lies, what it gives is found, as long as everything around it lies open.
pub proof fn what_lies_deep_is_found(settings: Settings, scope: Scope, node: Node, path: Seq<int>, m: MutantModel)
    requires
        reached(settings, scope, node, path) matches Some((inner, deep)) && opportunities::found_node(
            settings,
            inner,
            deep,
        ).mutants.contains(m),
    ensures
        opportunities::found_node(settings, scope, node).mutants.contains(m),
    decreases path.len(),
{
    if path.len() > 0 {
        let within = scope_within(scope, node.kind)->0;
        what_lies_deep_is_found(settings, within, node.children@[path[0]], path.drop_first(), m);
        nothing_inside_is_passed_over(settings, scope, node, m, Seq::empty());
        assert(opportunities::found_node(settings, within, node.children@[path[0]]).mutants.contains(m));
    }
}

/// What is found in a file is what is found at its top, in a scope that holds nothing but the patterns of the file, unless the
/// file is to be skipped.
pub proof fn files_are_searched(settings: Settings, file: FileNode, m: MutantModel, r: Seq<ModModel>)
    ensures
        attrs::any_attr_skips(file.attrs@) ==> opportunities::found_file(settings, file) == Found::nothing(),
        !attrs::any_attr_skips(file.attrs@) ==> match attrs::exclude_patterns(file.attrs@) {
            PatternsModel::Malformed(start, message) => opportunities::found_file(settings, file).error == Some(
                settings.source.location(start) + ": "@ + message,
            ),
            PatternsModel::Patterns(given) => {
                let top = Scope {
                    namespace: Seq::empty(),
                    mods: Seq::empty(),
                    functions: Seq::empty(),
                    contexts: Seq::empty(),
                    guards: Seq::empty(),
                    in_closure: false,
                    in_const: false,
                    excludes: if given.len() == 0 {
                        Seq::empty()
                    } else {
                        seq![given]
                    },
                };
                &&& given.len() > 0 && names::patterns_error(given) is Some ==> opportunities::found_file(
                    settings,
                    file,
                ).error is Some
                &&& given.len() == 0 || names::patterns_error(given) is None ==> {
                    &&& opportunities::found_file(settings, file).mutants.contains(m) <==> exists|i: int|
                        0 <= i < file.children@.len() && opportunities::found_node(
                            settings,
                            top,
                            #[trigger] file.children@[i],
                        ).mutants.contains(m)
                    &&& opportunities::found_file(settings, file).mods.contains(r) <==> exists|i: int|
                        0 <= i < file.children@.len() && opportunities::found_node(
                            settings,
                            top,
                            #[trigger] file.children@[i],
                        ).mods.contains(r)
                }
            },
        },
{
    if !attrs::any_attr_skips(file.attrs@) {
        match attrs::exclude_patterns(file.attrs@) {
            PatternsModel::Patterns(given) => {
                let top = Scope {
                    namespace: Seq::empty(),
                    mods: Seq::empty(),
                    functions: Seq::empty(),
                    contexts: Seq::empty(),
                    guards: Seq::empty(),
                    in_closure: false,
                    in_const: false,
                    excludes: if given.len() == 0 {
                        Seq::empty()
                    } else {
                        seq![given]
                    },
                };
                lemma_nodes(settings, top, file.children@, file.children@.len() as int, m, r);
                assert(opportunities::top_scope().excludes.push(given) =~= seq![given]);
            },
            _ => {},
        }
    }
}

proof fn lemma_collected(
    settings: Settings,
    scope: Scope,
    span: Span,
    short_replaced: Option<Seq<char>>,
    replacement: Seq<char>,
    genre: Genre,
    m: MutantModel,
)
    ensures
        opportunities::collected(settings, scope, span, short_replaced, replacement, genre).contains(m) <==> m == (
        MutantModel { short_replaced, ..change(settings, scope, span, replacement, genre) }) && is_wanted(settings, scope, m),
{
    let made = MutantModel { short_replaced, ..change(settings, scope, span, replacement, genre) };
    let found = opportunities::collected(settings, scope, span, short_replaced, replacement, genre);
    assert(made == opportunities::mutant_at(settings, scope, span, short_replaced, replacement, genre, None));
    let name = made.name_text(true);
    if opportunities::excluded_by_attr(scope.excludes, name) {
        let i = choose|i: int| 0 <= i < scope.excludes.len() && names::patterns_match(#[trigger] scope.excludes[i], name);
        assert(names::patterns_match(scope.excludes[i], name));
    }
    assert(is_wanted(settings, scope, made) <==> !opportunities::excluded_by_attr(scope.excludes, name)
        && settings.names.allows(name));
    if is_wanted(settings, scope, made) {
        assert(found =~= seq![made]);
        assert(found[0] == made);
    } else {
        assert(found =~= Seq::empty());
    }
}

proof fn lemma_fn_mutants(settings: Settings, scope: Scope, body: FnBody, values: Seq<Seq<Tok>>, n: int, m: MutantModel)
    requires
        0 <= n <= values.len(),
    ensures
        opportunities::fn_mutants(settings, scope, body, values, n).contains(m) <==> is_wanted(settings, scope, m) && exists|
            k: int,
        |
            0 <= k < n && m == change(
                settings,
                scope,
                opportunities::body_span(body.statements@)->0,
                pretty::pretty(#[trigger] values[k]),
                Genre::FnValue,
            ) && pretty::pretty(tokens::group(Delimiter::Brace, values[k])) != pretty::pretty(tokens::toks(body.tokens@)),
    decreases n,
{
    if n > 0 {
        lemma_fn_mutants(settings, scope, body, values, n - 1, m);
        let before = opportunities::fn_mutants(settings, scope, body, values, n - 1);
        let span = opportunities::body_span(body.statements@)->0;
        let text = pretty::pretty(values[n - 1]);
        lemma_collected(settings, scope, span, None, text, Genre::FnValue, m);
        lemma_contains_either(
            before,
            opportunities::collected(settings, scope, span, None, text, Genre::FnValue),
            m,
        );
    }
}

/// The body of a function is replaced by each of the values of its return type, except one that reads like the body that is
/// there, and by nothing else.
pub proof fn bodies_are_replaced_by_every_value(settings: Settings, scope: Scope, node: Node, m: MutantModel)
    requires
        node.kind matches NodeKind::Fn(function) && function.body matches Some(body) && body.statements@.len() > 0,
    ensures
        ({
            let function = node.kind->Fn_0;
            let body = function.body->0;
            let statements = body.statements@;
            let span = Span { start: statements[0].span.start, end: statements[statements.len() - 1].span.end };
            let values = fnvalue::return_values(function.output, settings.errors, settings.enums);
            opportunities::own_mutants(settings, scope, node).contains(m) <==> is_wanted(settings, scope, m) && exists|
                k: int,
            |
                0 <= k < values.len() && m == change(
                    settings,
                    scope,
                    span,
                    pretty::pretty(#[trigger] values[k]),
                    Genre::FnValue,
                ) && pretty::pretty(tokens::group(Delimiter::Brace, values[k])) != pretty::pretty(
                    tokens::toks(body.tokens@),
                )
        }),
{
    let function = node.kind->Fn_0;
    let values = fnvalue::return_values(function.output, settings.errors, settings.enums);
    lemma_fn_mutants(settings, scope, function.body->0, values, values.len() as int, m);
}

proof fn lemma_text_mutants(
    settings: Settings,
    scope: Scope,
    span: Span,
    replacements: Seq<Seq<char>>,
    genre: Genre,
    n: int,
    m: MutantModel,
)
    requires
        0 <= n <= replacements.len(),
    ensures
        opportunities::text_mutants(settings, scope, span, replacements, genre, n).contains(m) <==> is_wanted(
            settings,
            scope,
            m,
        ) && exists|k: int| 0 <= k < n && m == change(settings, scope, span, #[trigger] replacements[k], genre),
    decreases n,
{
    if n > 0 {
        lemma_text_mutants(settings, scope, span, replacements, genre, n - 1, m);
        lemma_collected(settings, scope, span, None, replacements[n - 1], genre, m);
        lemma_contains_either(
            opportunities::text_mutants(settings, scope, span, replacements, genre, n - 1),
            opportunities::collected(settings, scope, span, None, replacements[n - 1], genre),
            m,
        );
    }
}

/// A binary operator gives one mutant for each operator that it is replaced with, and no other.
pub proof fn operators_are_replaced_by_every_other(settings: Settings, scope: Scope, node: Node, m: MutantModel)
    requires
        node.kind is Binary,
    ensures
        opportunities::own_mutants(settings, scope, node).contains(m) <==> is_wanted(settings, scope, m) && exists|k: int|
            0 <= k < opportunities::operator_replacements(node.kind->Binary_op).len() && m == change(
                settings,
                scope,
                node.kind->Binary_op_span,
                #[trigger] opportunities::operator_replacements(node.kind->Binary_op)[k],
                Genre::BinaryOperator,
            ),
{
    let replacements = opportunities::operator_replacements(node.kind->Binary_op);
    lemma_text_mutants(
        settings,
        scope,
        node.kind->Binary_op_span,
        replacements,
        Genre::BinaryOperator,
        replacements.len() as int,
        m,
    );
}

/// A binary operator in a closure or an `async` block is found: it gives a mutant for each operator that it is replaced with,
/// unless a name filter or an attribute around it rejects that mutant, or the operator itself is to be skipped.
pub proof fn operators_in_closures_are_mutated(settings: Settings, scope: Scope, node: Node, i: int, k: int)
    requires
        node.kind is Closure,
        0 <= i < node.children@.len(),
        node.children@[i].kind matches NodeKind::Binary { attrs, op, .. } && !attrs::any_attr_skips(attrs@) && 0 <= k
            < opportunities::operator_replacements(op).len(),
    ensures
        ({
            let op = node.children@[i].kind->Binary_op;
            let m = MutantModel {
                source_file: settings.source,
                function: if scope.functions.len() > 0 {
                    Some(scope.functions.last())
                } else {
                    None
                },
                span: node.children@[i].kind->Binary_op_span,
                short_replaced: None,
                replacement: opportunities::operator_replacements(op)[k],
                genre: Genre::BinaryOperator,
                target: None,
                const_eval: scope.in_const,
            };
            is_wanted(settings, scope, m) ==> opportunities::found_node(settings, scope, node).mutants.contains(m)
        }),
{
    let child = node.children@[i];
    let op = child.kind->Binary_op;
    let within = Scope { in_closure: true, ..scope };
    let m = change(
        settings,
        scope,
        child.kind->Binary_op_span,
        opportunities::operator_replacements(op)[k],
        Genre::BinaryOperator,
    );
    assert(attrs::exclude_patterns(Seq::<Attr>::empty()) =~= PatternsModel::Patterns(Seq::<Seq<char>>::empty()));
    assert(!attrs::any_attr_skips(Seq::<Attr>::empty()));
    assert(scope_within(scope, node.kind) == Some(within));
    if is_wanted(settings, scope, m) {
        assert(scope_within(within, child.kind) == Some(within));
        operators_are_replaced_by_every_other(settings, within, child, m);
        nothing_inside_is_passed_over(settings, within, child, m, Seq::empty());
        nothing_inside_is_passed_over(settings, scope, node, m, Seq::empty());
        assert(opportunities::found_node(settings, within, node.children@[i]).mutants.contains(m));
    }
}

/// Which operators an operator is replaced with. A comparison becomes another one, and a logical operator the other one; an
/// arithmetic operator becomes two others; a shift goes the other way; a bitwise operator becomes the two others. An assignment
/// is replaced as the operator in it is, but `&=` and `|=` not by `^=`.
#[verifier::spinoff_prover]
pub proof fn operators_are_replaced_as_documented(op: BinaryOp)
    ensures
        ({
            let others = opportunities::operator_replacements(op);
            match op {
                BinaryOp::Eq => others == seq!["!="@],
                BinaryOp::Ne => others == seq!["=="@],
                BinaryOp::Lt => others == seq!["=="@, ">"@, "<="@],
                BinaryOp::Gt => others == seq!["=="@, "<"@, ">="@],
                BinaryOp::Le => others == seq![">"@, "<"@],
                BinaryOp::Ge => others == seq!["<"@, ">"@],
                BinaryOp::And => others == seq!["||"@],
                BinaryOp::Or => others == seq!["&&"@],
                BinaryOp::Add => others == seq!["-"@, "*"@],
                BinaryOp::Sub => others == seq!["+"@, "/"@],
                BinaryOp::Mul => others == seq!["+"@, "/"@],
                BinaryOp::Div => others == seq!["%"@, "*"@],
                BinaryOp::Rem => others == seq!["/"@, "+"@],
                BinaryOp::Shl => others == seq![">>"@],
                BinaryOp::Shr => others == seq!["<<"@],
                BinaryOp::BitAnd => others == seq!["|"@, "^"@],
                BinaryOp::BitOr => others == seq!["&"@, "^"@],
                BinaryOp::BitXor => others == seq!["|"@, "&"@],
                BinaryOp::AddAssign => others == seq!["-="@, "*="@],
                BinaryOp::SubAssign => others == seq!["+="@, "/="@],
                BinaryOp::MulAssign => others == seq!["+="@, "/="@],
                BinaryOp::DivAssign => others == seq!["%="@, "*="@],
                BinaryOp::RemAssign => others == seq!["/="@, "+="@],
                BinaryOp::ShlAssign => others == seq![">>="@],
                BinaryOp::ShrAssign => others == seq!["<<="@],
                BinaryOp::BitAndAssign => others == seq!["|="@],
                BinaryOp::BitOrAssign => others == seq!["&="@],
                BinaryOp::BitXorAssign => others == seq!["|="@, "&="@],
                BinaryOp::Other => others.len() == 0,
            }
        }),
{
}

/// A `!` or a `-` before an expression is deleted, and no other unary operator.
pub proof fn negations_are_deleted(settings: Settings, scope: Scope, node: Node, m: MutantModel)
    requires
        node.kind is Unary,
    ensures
        opportunities::own_mutants(settings, scope, node).contains(m) <==> is_wanted(settings, scope, m) && m == change(
            settings,
            scope,
            node.kind->Unary_op_span,
            Seq::empty(),
            Genre::UnaryOperator,
        ) && (node.kind->unary_op == UnaryOp::Not || node.kind->unary_op == UnaryOp::Neg),
{
    lemma_collected(settings, scope, node.kind->Unary_op_span, None, Seq::empty(), Genre::UnaryOperator, m);
}

/// The condition of an `if` is replaced by `true`, and by `false` too unless the block that it guards leaves a loop; that of a
/// `while` is replaced by `false` only. A `let` or a literal is left alone.
pub proof fn conditions_become_constant(settings: Settings, scope: Scope, node: Node, m: MutantModel)
    ensures
        node.kind matches NodeKind::If { condition, condition_span, then_at, .. } ==> (opportunities::own_mutants(
            settings,
            scope,
            node,
        ).contains(m) <==> is_wanted(settings, scope, m) && condition == Condition::Expression && (m == change(
            settings,
            scope,
            condition_span,
            "true"@,
            Genre::IfCondition,
        ) || (m == change(settings, scope, condition_span, "false"@, Genre::IfCondition) && !(then_at
            < node.children@.len() && opportunities::node_flow(node.children@[then_at as int]).1)))),
        node.kind matches NodeKind::While { condition, condition_span, .. } ==> (opportunities::own_mutants(
            settings,
            scope,
            node,
        ).contains(m) <==> is_wanted(settings, scope, m) && condition == Condition::Expression && m == change(
            settings,
            scope,
            condition_span,
            "false"@,
            Genre::WhileCondition,
        )),
{
    match node.kind {
        NodeKind::If { condition_span, .. } => {
            lemma_collected(settings, scope, condition_span, None, "true"@, Genre::IfCondition, m);
            lemma_collected(settings, scope, condition_span, None, "false"@, Genre::IfCondition, m);
            lemma_contains_either(
                opportunities::collected(settings, scope, condition_span, None, "true"@, Genre::IfCondition),
                opportunities::collected(settings, scope, condition_span, None, "false"@, Genre::IfCondition),
                m,
            );
        },
        NodeKind::While { condition_span, .. } => {
            lemma_collected(settings, scope, condition_span, None, "false"@, Genre::WhileCondition, m);
        },
        _ => {},
    }
}

proof fn lemma_arm_mutants(settings: Settings, scope: Scope, arms: Seq<Arm>, n: int, m: MutantModel)
    requires
        0 <= n <= arms.len(),
    ensures
        opportunities::arm_mutants(settings, scope, arms, n).contains(m) <==> is_wanted(settings, scope, m) && exists|k: int|
            0 <= k < n && !(#[trigger] arms[k]).is_wild && arms[k].guard is None && m == (MutantModel {
                short_replaced: Some(pretty::pretty(tokens::toks(arms[k].pattern@))),
                ..change(settings, scope, arms[k].span, Seq::empty(), Genre::MatchArm)
            }),
        opportunities::guard_mutants(settings, scope, arms, n).contains(m) <==> is_wanted(settings, scope, m) && exists|k: int|
            0 <= k < n && (#[trigger] arms[k]).guard is Some && (m == change(
                settings,
                scope,
                arms[k].guard->0,
                "true"@,
                Genre::MatchArmGuard,
            ) || m == change(settings, scope, arms[k].guard->0, "false"@, Genre::MatchArmGuard)),
    decreases n,
{
    if n > 0 {
        lemma_arm_mutants(settings, scope, arms, n - 1, m);
        let arm = arms[n - 1];
        if arm.guard is Some {
            let span = arm.guard->0;
            let before = opportunities::guard_mutants(settings, scope, arms, n - 1);
            let on = opportunities::collected(settings, scope, span, None, "true"@, Genre::MatchArmGuard);
            let off = opportunities::collected(settings, scope, span, None, "false"@, Genre::MatchArmGuard);
            lemma_collected(settings, scope, span, None, "true"@, Genre::MatchArmGuard, m);
            lemma_collected(settings, scope, span, None, "false"@, Genre::MatchArmGuard, m);
            lemma_contains_either(before, on, m);
            lemma_contains_either(before + on, off, m);
        } else {
            let short = Some(pretty::pretty(tokens::toks(arm.pattern@)));
            lemma_collected(settings, scope, arm.span, short, Seq::empty(), Genre::MatchArm, m);
            lemma_contains_either(
                opportunities::arm_mutants(settings, scope, arms, n - 1),
                opportunities::collected(settings, scope, arm.span, short, Seq::<char>::empty(), Genre::MatchArm),
                m,
            );
        }
    }
}

/// If a `match` has an arm that catches everything, each arm without a guard that does not is deleted; and each guard is
/// replaced by `true` and by `false`.
pub proof fn arms_are_deleted_and_guards_replaced(settings: Settings, scope: Scope, node: Node, m: MutantModel)
    requires
        node.kind is Match,
    ensures
        ({
            let arms = node.kind->Match_arms@;
            opportunities::own_mutants(settings, scope, node).contains(m) <==> is_wanted(settings, scope, m) && {
                ||| (exists|c: int| 0 <= c < arms.len() && (#[trigger] arms[c]).is_wild) && exists|k: int|
                    0 <= k < arms.len() && !(#[trigger] arms[k]).is_wild && arms[k].guard is None && m == (MutantModel {
                        short_replaced: Some(pretty::pretty(tokens::toks(arms[k].pattern@))),
                        ..change(settings, scope, arms[k].span, Seq::empty(), Genre::MatchArm)
                    })
                ||| exists|k: int|
                    0 <= k < arms.len() && (#[trigger] arms[k]).guard is Some && (m == change(
                        settings,
                        scope,
                        arms[k].guard->0,
                        "true"@,
                        Genre::MatchArmGuard,
                    ) || m == change(settings, scope, arms[k].guard->0, "false"@, Genre::MatchArmGuard))
            }
        }),
{
    let arms = node.kind->Match_arms@;
    let n = arms.len() as int;
    lemma_arm_mutants(settings, scope, arms, n, m);
    lemma_contains_either(
        opportunities::arm_mutants(settings, scope, arms, n),
        opportunities::guard_mutants(settings, scope, arms, n),
        m,
    );
    lemma_contains_either(Seq::empty(), opportunities::guard_mutants(settings, scope, arms, n), m);
}

/// A `true` becomes `false` and a `false` becomes `true`, unless the literal is the whole body of the function around it or a
/// whole guard.
pub proof fn literals_become_their_opposites(settings: Settings, scope: Scope, node: Node, m: MutantModel)
    requires
        node.kind is BoolLiteral,
    ensures
        ({
            let span = node.kind->BoolLiteral_span;
            opportunities::own_mutants(settings, scope, node).contains(m) <==> is_wanted(settings, scope, m) && m == change(
                settings,
                scope,
                span,
                if node.kind->literal {
                    "false"@
                } else {
                    "true"@
                },
                Genre::BoolLiteral,
            ) && !(scope.contexts.len() > 0 && scope.contexts.last().body_span == Some(span)) && !scope.guards.contains(span)
        }),
{
    let opposite = if node.kind->literal {
        "false"@
    } else {
        "true"@
    };
    lemma_collected(settings, scope, node.kind->BoolLiteral_span, None, opposite, Genre::BoolLiteral, m);
}

/// The mutant that deletes a field of a struct literal, with the comma behind it, if there is one.
pub open spec fn field_deletion(
    settings: Settings,
    scope: Scope,
    struct_path: Seq<TokenTree>,
    field: FieldNode,
) -> MutantModel {
    MutantModel {
        target: Some(
            TargetModel { field_name: field.name->0@, struct_name: pretty::pretty(tokens::toks(struct_path)) },
        ),
        ..change(
            settings,
            scope,
            Span {
                start: field.span.start,
                end: match field.comma_end {
                    Some(end) => end,
                    None => field.span.end,
                },
            },
            Seq::empty(),
            Genre::StructField,
        )
    }
}

proof fn lemma_field_mutants(
    settings: Settings,
    scope: Scope,
    struct_path: Seq<TokenTree>,
    fields: Seq<FieldNode>,
    n: int,
    m: MutantModel,
)
    requires
        0 <= n <= fields.len(),
    ensures
        opportunities::field_mutants(
            settings,
            scope,
            pretty::pretty(tokens::toks(struct_path)),
            fields,
            n,
        ).contains(m) <==> (forall|i: int|
            0 <= i < scope.excludes.len() ==> !names::patterns_match(#[trigger] scope.excludes[i], m.name_text(true)))
            && exists|k: int|
            0 <= k < n && (#[trigger] fields[k]).name is Some && m == field_deletion(settings, scope, struct_path, fields[k]),
    decreases n,
{
    if n > 0 {
        lemma_field_mutants(settings, scope, struct_path, fields, n - 1, m);
        let name = pretty::pretty(tokens::toks(struct_path));
        let before = opportunities::field_mutants(settings, scope, name, fields, n - 1);
        if fields[n - 1].name is Some {
            let made = field_deletion(settings, scope, struct_path, fields[n - 1]);
            assert(opportunities::field_span(fields[n - 1]) == made.span);
            assert(made == opportunities::mutant_at(
                settings,
                scope,
                opportunities::field_span(fields[n - 1]),
                None,
                Seq::<char>::empty(),
                Genre::StructField,
                Some(TargetModel { field_name: fields[n - 1].name->0@, struct_name: name }),
            ));
            let called = made.name_text(true);
            if opportunities::excluded_by_attr(scope.excludes, called) {
                let i = choose|i: int|
                    0 <= i < scope.excludes.len() && names::patterns_match(#[trigger] scope.excludes[i], called);
                assert(names::patterns_match(scope.excludes[i], called));
            } else {
                lemma_contains_either(before, seq![made], m);
                assert(before.push(made) =~= before + seq![made]);
                assert(seq![made].contains(m) <==> m == made) by {
                    assert(seq![made][0] == made);
                }
            }
        }
    }
}

/// Each named field of a struct literal that has a base expression is deleted, with the comma behind it, unless an attribute
/// around it rejects that.
pub proof fn fields_are_deleted(settings: Settings, scope: Scope, node: Node, m: MutantModel)
    requires
        node.kind is Struct,
    ensures
        ({
            let fields = node.kind->fields@;
            opportunities::own_mutants(settings, scope, node).contains(m) <==> node.kind->has_base && (forall|i: int|
                0 <= i < scope.excludes.len() ==> !names::patterns_match(#[trigger] scope.excludes[i], m.name_text(true)))
                && exists|k: int|
                0 <= k < fields.len() && (#[trigger] fields[k]).name is Some && m == field_deletion(
                    settings,
                    scope,
                    node.kind->struct_path@,
                    fields[k],
                )
        }),
{
    let fields = node.kind->fields@;
    lemma_field_mutants(settings, scope, node.kind->struct_path@, fields, fields.len() as int, m);
}

/// That a statement can go: it is a call, a method call or a plain assignment with a semicolon behind it; what it acts on is
/// no name that a statement beside it binds without a type; there is no way out of it; and it is no call that the options
/// leave alone.
pub open spec fn can_go(settings: Settings, statements: Seq<Node>, k: int) -> bool {
    statements[k].kind matches NodeKind::Statement(StatementKind::Expr { form, semi_end: Some(_), .. }) && {
        &&& !opportunities::flow_of(statements[k].children@, statements[k].children@.len() as int).0
        &&& !opportunities::flow_of(statements[k].children@, statements[k].children@.len() as int).1
        &&& match form {
            StatementForm::MethodCall { receiver, method } => {
                &&& !settings.skip_calls.contains(method@)
                &&& opportunities::root_name(receiver) matches Some(name) ==> !opportunities::binds_untyped(statements, name)
            },
            StatementForm::Assign { target } => opportunities::root_name(target) matches Some(name)
                ==> !opportunities::binds_untyped(statements, name),
            StatementForm::Call { callee: Some(path) } => forall|i: int|
                0 <= i < settings.skip_calls.len() ==> path.segments@.len() == 0 || path.segments@.last().ident@
                    != #[trigger] settings.skip_calls[i],
            StatementForm::Call { callee: None } => true,
            StatementForm::Other => false,
        }
    }
}

/// The mutant that deletes a statement, with its semicolon.
pub open spec fn statement_deletion(settings: Settings, scope: Scope, statement: Node) -> MutantModel {
    match statement.kind {
        NodeKind::Statement(StatementKind::Expr { span, semi_end: Some(end), .. }) => change(
            settings,
            scope,
            Span { start: span.start, end },
            Seq::empty(),
            Genre::DeleteStatement,
        ),
        _ => arbitrary(),
    }
}

proof fn lemma_can_go(settings: Settings, statements: Seq<Node>, k: int)
    requires
        0 <= k < statements.len(),
    ensures
        can_go(settings, statements, k) <==> (statements[k].kind matches NodeKind::Statement(
            StatementKind::Expr { form, semi_end: Some(_), .. },
        ) && opportunities::is_deletable(
            form,
            statements,
            opportunities::flow_of(statements[k].children@, statements[k].children@.len() as int),
        ) && !opportunities::is_skipped_form(settings.skip_calls, form)),
{
    match statements[k].kind {
        NodeKind::Statement(
            StatementKind::Expr { form: StatementForm::Call { callee: Some(path) }, semi_end: Some(_), .. },
        ) => {
            if opportunities::skips_call(settings.skip_calls, Some(path)) {
                let i = choose|i: int|
                    0 <= i < settings.skip_calls.len() && fnvalue::path_ends(path, #[trigger] settings.skip_calls[i]);
                assert(path.segments@.last().ident@ == settings.skip_calls[i]);
            } else {
                assert forall|i: int| 0 <= i < settings.skip_calls.len() implies path.segments@.len() == 0
                    || path.segments@.last().ident@ != #[trigger] settings.skip_calls[i] by {
                    assert(!fnvalue::path_ends(path, settings.skip_calls[i]));
                }
            }
        },
        _ => {},
    }
}

proof fn lemma_statement_mutants(settings: Settings, scope: Scope, statements: Seq<Node>, n: int, m: MutantModel)
    requires
        0 <= n <= statements.len(),
    ensures
        opportunities::statement_mutants(settings, scope, statements, n).contains(m) <==> is_wanted(settings, scope, m)
            && exists|k: int|
            #![trigger statements[k]]
            0 <= k < n && can_go(settings, statements, k) && m == statement_deletion(settings, scope, statements[k]),
    decreases n,
{
    if n > 0 {
        lemma_statement_mutants(settings, scope, statements, n - 1, m);
        lemma_can_go(settings, statements, n - 1);
        let before = opportunities::statement_mutants(settings, scope, statements, n - 1);
        match statements[n - 1].kind {
            NodeKind::Statement(StatementKind::Expr { form, span, semi_end: Some(end) }) => {
                let whole = Span { start: span.start, end };
                lemma_collected(settings, scope, whole, None, Seq::empty(), Genre::DeleteStatement, m);
                lemma_contains_either(
                    before,
                    opportunities::collected(
                        settings,
                        scope,
                        whole,
                        None,
                        Seq::<char>::empty(),
                        Genre::DeleteStatement,
                    ),
                    m,
                );
            },
            _ => {},
        }
    }
}

/// Each statement of a block that can go is deleted, with its semicolon, and no other.
pub proof fn statements_that_can_go_are_deleted(settings: Settings, scope: Scope, node: Node, m: MutantModel)
    requires
        node.kind is Block,
    ensures
        opportunities::own_mutants(settings, scope, node).contains(m) <==> is_wanted(settings, scope, m) && exists|k: int|
            #![trigger node.children@[k]]
            0 <= k < node.children@.len() && can_go(settings, node.children@, k) && m == statement_deletion(
                settings,
                scope,
                node.children@[k],
            ),
{
    lemma_statement_mutants(settings, scope, node.children@, node.children@.len() as int, m);
}

proof fn lemma_return_mutants(
    settings: Settings,
    scope: Scope,
    span: Span,
    original: Seq<char>,
    values: Seq<Seq<Tok>>,
    n: int,
    m: MutantModel,
)
    requires
        0 <= n <= values.len(),
    ensures
        opportunities::return_mutants(settings, scope, span, original, values, n).contains(m) <==> is_wanted(
            settings,
            scope,
            m,
        ) && exists|k: int|
            0 <= k < n && pretty::pretty(#[trigger] values[k]) != original && m == change(
                settings,
                scope,
                span,
                pretty::pretty(values[k]),
                Genre::ReturnValue,
            ),
    decreases n,
{
    if n > 0 {
        lemma_return_mutants(settings, scope, span, original, values, n - 1, m);
        let text = pretty::pretty(values[n - 1]);
        lemma_collected(settings, scope, span, None, text, Genre::ReturnValue, m);
        lemma_contains_either(
            opportunities::return_mutants(settings, scope, span, original, values, n - 1),
            opportunities::collected(settings, scope, span, None, text, Genre::ReturnValue),
            m,
        );
    }
}

/// What a `return` gives back is replaced by each of the values of the return type of the function around it, except one that
/// reads like what is there; unless it stands in a closure, outside of a function, in one that declares no return type, or is
/// the whole body of one.
pub proof fn returned_values_are_replaced(settings: Settings, scope: Scope, node: Node, m: MutantModel)
    requires
        node.kind is Return,
    ensures
        ({
            let context = scope.contexts.last();
            let values = fnvalue::return_values(context.output, settings.errors, settings.enums);
            opportunities::own_mutants(settings, scope, node).contains(m) <==> is_wanted(settings, scope, m) && (
            node.kind->value matches Some((span, returned)) && !scope.in_closure && scope.contexts.len() > 0
                && !context.single_return && context.output is Type && exists|k: int|
                0 <= k < values.len() && pretty::pretty(#[trigger] values[k]) != pretty::pretty(tokens::toks(returned@)) && m
                    == change(settings, scope, span, pretty::pretty(values[k]), Genre::ReturnValue))
        }),
{
    if node.kind->value is Some {
        let (span, returned) = node.kind->value->0;
        let values = fnvalue::return_values(scope.contexts.last().output, settings.errors, settings.enums);
        lemma_return_mutants(
            settings,
            scope,
            span,
            pretty::pretty(tokens::toks(returned@)),
            values,
            values.len() as int,
            m,
        );
    }
}

/// Calls, items without a body of their own, closures, statements and ways out of a loop give no mutants by themselves.
pub proof fn other_constructs_give_only_what_is_inside(settings: Settings, scope: Scope, node: Node)
    requires
        node.kind is Call || node.kind is MethodCall || node.kind is Const || node.kind is ConstScope || node.kind is Impl
            || node.kind is Trait || node.kind is Mod || node.kind is Statement || node.kind is Closure || node.kind is LoopExit
            || node.kind is Hidden,
    ensures
        opportunities::own_mutants(settings, scope, node).len() == 0,
{
}

/// What some nodes give, and then some others, is what the first give and then what the others give: everything is found in
/// the order of the source.
pub proof fn nodes_are_searched_in_order(settings: Settings, scope: Scope, a: Seq<Node>, b: Seq<Node>)
    ensures
        opportunities::found_nodes(settings, scope, a + b, (a + b).len() as int) == opportunities::found_nodes(
            settings,
            scope,
            a,
            a.len() as int,
        ).and(opportunities::found_nodes(settings, scope, b, b.len() as int)),
{
    lemma_nodes_in_order(settings, scope, a, b, b.len() as int);
}

proof fn lemma_nodes_front(settings: Settings, scope: Scope, a: Seq<Node>, all: Seq<Node>, n: int)
    requires
        0 <= n <= a.len() <= all.len(),
        forall|i: int| 0 <= i < a.len() ==> a[i] == all[i],
    ensures
        opportunities::found_nodes(settings, scope, a, n) == opportunities::found_nodes(settings, scope, all, n),
    decreases n,
{
    if n > 0 {
        lemma_nodes_front(settings, scope, a, all, n - 1);
        assert(a[n - 1] == all[n - 1]);
    }
}

proof fn lemma_nodes_in_order(settings: Settings, scope: Scope, a: Seq<Node>, b: Seq<Node>, n: int)
    requires
        0 <= n <= b.len(),
    ensures
        opportunities::found_nodes(settings, scope, a + b, a.len() + n) == opportunities::found_nodes(
            settings,
            scope,
            a,
            a.len() as int,
        ).and(opportunities::found_nodes(settings, scope, b, n)),
    decreases n,
{
    let first = opportunities::found_nodes(settings, scope, a, a.len() as int);
    if n > 0 {
        lemma_nodes_in_order(settings, scope, a, b, n - 1);
        assert((a + b)[a.len() + n - 1] == b[n - 1]);
        assert(opportunities::found_nodes(settings, scope, a + b, a.len() + n) =~= first.and(
            opportunities::found_nodes(settings, scope, b, n),
        ));
    } else {
        lemma_nodes_front(settings, scope, a, a + b, a.len() as int);
        assert(first =~= first.and(opportunities::found_nodes(settings, scope, b, 0)));
    }
}

/// One node gives what is found in it, and a construct that lies open gives first what it gives by itself, and then what is
/// inside, each mutant once for each time that it is given.
pub proof fn constructs_come_before_what_is_inside(settings: Settings, scope: Scope, node: Node)
    ensures
        opportunities::found_nodes(settings, scope, seq![node], 1) == opportunities::found_node(settings, scope, node),
        lies_open(settings, node.kind) && scope_within(scope, node.kind) is Some ==> opportunities::found_node(
            settings,
            scope,
            node,
        ).mutants == opportunities::own_mutants(settings, scope_within(scope, node.kind)->0, node)
            + opportunities::found_nodes(
            settings,
            scope_within(scope, node.kind)->0,
            node.children@,
            node.children@.len() as int,
        ).mutants,
{
    reveal_with_fuel(opportunities::found_nodes, 2);
    assert(seq![node][0] == node);
    assert(opportunities::found_nodes(settings, scope, seq![node], 1) =~= opportunities::found_node(settings, scope, node));
    lemma_lies_open(settings, node.kind);
    if lies_open(settings, node.kind) && scope_within(scope, node.kind) is Some {
        assert(node.kind is Mod ==> opportunities::own_mutants(settings, scope_within(scope, node.kind)->0, node)
            =~= Seq::empty());
    }
}

/// Where nothing is rejected, a binary operator gives exactly one mutant for each operator that it is replaced with, in order.
pub proof fn each_operator_is_tried_once(settings: Settings, scope: Scope, node: Node)
    requires
        node.kind is Binary,
        forall|m: MutantModel| #[trigger] is_wanted(settings, scope, m),
    ensures
        ({
            let others = opportunities::operator_replacements(node.kind->Binary_op);
            opportunities::own_mutants(settings, scope, node) == Seq::new(
                others.len(),
                |k: int| change(settings, scope, node.kind->Binary_op_span, others[k], Genre::BinaryOperator),
            )
        }),
{
    let others = opportunities::operator_replacements(node.kind->Binary_op);
    lemma_all_texts(settings, scope, node.kind->Binary_op_span, others, Genre::BinaryOperator, others.len() as int);
}

proof fn lemma_wanted_is_collected(
    settings: Settings,
    scope: Scope,
    span: Span,
    short_replaced: Option<Seq<char>>,
    replacement: Seq<char>,
    genre: Genre,
)
    requires
        forall|m: MutantModel| #[trigger] is_wanted(settings, scope, m),
    ensures
        opportunities::collected(settings, scope, span, short_replaced, replacement, genre) == seq![
            MutantModel { short_replaced, ..change(settings, scope, span, replacement, genre) },
        ],
{
    let made = MutantModel { short_replaced, ..change(settings, scope, span, replacement, genre) };
    assert(is_wanted(settings, scope, made));
    lemma_collected(settings, scope, span, short_replaced, replacement, genre, made);
    let found = opportunities::collected(settings, scope, span, short_replaced, replacement, genre);
    assert(found.contains(made));
    assert(found =~= seq![made]);
}

proof fn lemma_all_texts(
    settings: Settings,
    scope: Scope,
    span: Span,
    replacements: Seq<Seq<char>>,
    genre: Genre,
    n: int,
)
    requires
        forall|m: MutantModel| #[trigger] is_wanted(settings, scope, m),
        0 <= n <= replacements.len(),
    ensures
        opportunities::text_mutants(settings, scope, span, replacements, genre, n) == Seq::new(
            n as nat,
            |k: int| change(settings, scope, span, replacements[k], genre),
        ),
    decreases n,
{
    if n > 0 {
        lemma_all_texts(settings, scope, span, replacements, genre, n - 1);
        lemma_wanted_is_collected(settings, scope, span, None, replacements[n - 1], genre);
    }
    assert(opportunities::text_mutants(settings, scope, span, replacements, genre, n) =~= Seq::new(
        n as nat,
        |k: int| change(settings, scope, span, replacements[k], genre),
    ));
}

/// Where nothing is rejected and no value reads like the body that is there, the body of a function is replaced exactly once by
/// each of the values of its return type, in order.
pub proof fn each_value_is_tried_once(settings: Settings, scope: Scope, node: Node)
    requires
        node.kind matches NodeKind::Fn(function) && function.body is Some,
        forall|m: MutantModel| #[trigger] is_wanted(settings, scope, m),
        forall|k: int|
            0 <= k < fnvalue::return_values(node.kind->Fn_0.output, settings.errors, settings.enums).len() ==> pretty::pretty(
                tokens::group(
                    Delimiter::Brace,
                    #[trigger] fnvalue::return_values(node.kind->Fn_0.output, settings.errors, settings.enums)[k],
                ),
            ) != pretty::pretty(tokens::toks(node.kind->Fn_0.body->0.tokens@)),
    ensures
        ({
            let function = node.kind->Fn_0;
            let values = fnvalue::return_values(function.output, settings.errors, settings.enums);
            opportunities::own_mutants(settings, scope, node) == Seq::new(
                values.len(),
                |k: int|
                    change(
                        settings,
                        scope,
                        opportunities::body_span(function.body->0.statements@)->0,
                        pretty::pretty(values[k]),
                        Genre::FnValue,
                    ),
            )
        }),
{
    let function = node.kind->Fn_0;
    let values = fnvalue::return_values(function.output, settings.errors, settings.enums);
    lemma_all_values(settings, scope, function.body->0, values, values.len() as int);
}

proof fn lemma_all_values(settings: Settings, scope: Scope, body: FnBody, values: Seq<Seq<Tok>>, n: int)
    requires
        forall|m: MutantModel| #[trigger] is_wanted(settings, scope, m),
        0 <= n <= values.len(),
        forall|k: int|
            0 <= k < values.len() ==> pretty::pretty(tokens::group(Delimiter::Brace, #[trigger] values[k])) != pretty::pretty(
                tokens::toks(body.tokens@),
            ),
    ensures
        opportunities::fn_mutants(settings, scope, body, values, n) == Seq::new(
            n as nat,
            |k: int|
                change(
                    settings,
                    scope,
                    opportunities::body_span(body.statements@)->0,
                    pretty::pretty(values[k]),
                    Genre::FnValue,
                ),
        ),
    decreases n,
{
    if n > 0 {
        lemma_all_values(settings, scope, body, values, n - 1);
        assert(pretty::pretty(tokens::group(Delimiter::Brace, values[n - 1])) != pretty::pretty(tokens::toks(body.tokens@)));
        lemma_wanted_is_collected(
            settings,
            scope,
            opportunities::body_span(body.statements@)->0,
            None,
            pretty::pretty(values[n - 1]),
            Genre::FnValue,
        );
    }
    assert(opportunities::fn_mutants(settings, scope, body, values, n) =~= Seq::new(
        n as nat,
        |k: int|
            change(
                settings,
                scope,
                opportunities::body_span(body.statements@)->0,
                pretty::pretty(values[k]),
                Genre::FnValue,
            ),
    ));
}

/// The name that a place is known by is that of what it is a part of, however deep; and a name is bound without a type if one
/// of the statements is a `let` of that bare name.
pub proof fn places_are_known_by_their_root(part: Box<Place>, name: String, statements: Seq<Node>, bound: Seq<char>)
    ensures
        opportunities::root_name(Place::Name(name)) == Some(name@),
        opportunities::root_name(Place::Part(part)) == opportunities::root_name(*part),
        opportunities::root_name(Place::Other) is None,
        opportunities::binds_untyped(statements, bound) <==> exists|i: int|
            0 <= i < statements.len() && (#[trigger] statements[i]).kind is Statement && (statements[i].kind->Statement_0
                matches StatementKind::Local { untyped_name } && (untyped_name matches Some(n) && n@ == bound)),
{
    reveal_with_fuel(opportunities::root_name, 2);
}

/// A `return`, or a `break` or `continue`, is known of a construct if it is one, or if one of its children holds one; what a
/// `return` gives back is not looked into.
pub proof fn ways_out_are_known(node: Node)
    ensures
        node.kind is Return ==> opportunities::node_flow(node) == (true, false),
        node.kind is LoopExit ==> opportunities::node_flow(node) == (false, true),
        !(node.kind is Return) && !(node.kind is LoopExit) ==> {
            &&& opportunities::node_flow(node).0 <==> exists|i: int|
                0 <= i < node.children@.len() && opportunities::node_flow(#[trigger] node.children@[i]).0
            &&& opportunities::node_flow(node).1 <==> exists|i: int|
                0 <= i < node.children@.len() && opportunities::node_flow(#[trigger] node.children@[i]).1
        },
{
    reveal_with_fuel(opportunities::node_flow, 2);
    lemma_flow_of(node.children@, node.children@.len() as int);
}

proof fn lemma_flow_of(nodes: Seq<Node>, n: int)
    requires
        0 <= n <= nodes.len(),
    ensures
        opportunities::flow_of(nodes, n).0 <==> exists|i: int|
            0 <= i < n && opportunities::node_flow(#[trigger] nodes[i]).0,
        opportunities::flow_of(nodes, n).1 <==> exists|i: int|
            0 <= i < n && opportunities::node_flow(#[trigger] nodes[i]).1,
    decreases n,
{
    if n > 0 {
        lemma_flow_of(nodes, n - 1);
    }
}

/// That an arm can be deleted by itself.
pub open spec fn stands_alone(arm: Arm) -> bool {
    !arm.is_wild && arm.guard is None
}

/// How many of the first `n` arms can be deleted by themselves.
pub open spec fn standing_alone(arms: Seq<Arm>, n: int) -> nat
    decreases n,
{
    if n <= 0 {
        0
    } else {
        standing_alone(arms, n - 1) + (if stands_alone(arms[n - 1]) {
            1nat
        } else {
            0
        })
    }
}

/// How many of the first `n` arms have a guard.
pub open spec fn guarded(arms: Seq<Arm>, n: int) -> nat
    decreases n,
{
    if n <= 0 {
        0
    } else {
        guarded(arms, n - 1) + (if arms[n - 1].guard is Some {
            1nat
        } else {
            0
        })
    }
}

/// How many of the first `n` fields have a name.
pub open spec fn named(fields: Seq<FieldNode>, n: int) -> nat
    decreases n,
{
    if n <= 0 {
        0
    } else {
        named(fields, n - 1) + (if fields[n - 1].name is Some {
            1nat
        } else {
            0
        })
    }
}

/// Nothing is given more often than there is to change: a construct gives at most one mutant for each operator or value that it
/// is replaced with, for each arm or statement that can be deleted and for each field with a name, and two for each guard or
/// condition of an `if`.
pub proof fn nothing_is_given_too_often(settings: Settings, scope: Scope, node: Node)
    ensures
        ({
            let n = opportunities::own_mutants(settings, scope, node).len();
            match node.kind {
                NodeKind::Binary { op, .. } => n <= opportunities::operator_replacements(op).len(),
                NodeKind::Unary { .. } => n <= 1,
                NodeKind::While { .. } => n <= 1,
                NodeKind::BoolLiteral { .. } => n <= 1,
                NodeKind::If { .. } => n <= 2,
                NodeKind::Match { arms, .. } => n <= standing_alone(arms@, arms@.len() as int) + 2 * guarded(
                    arms@,
                    arms@.len() as int,
                ),
                NodeKind::Struct { fields, .. } => n <= named(fields@, fields@.len() as int),
                NodeKind::Block => n <= node.children@.len(),
                NodeKind::Fn(function) => n <= fnvalue::return_values(
                    function.output,
                    settings.errors,
                    settings.enums,
                ).len(),
                NodeKind::Return { .. } => n <= fnvalue::return_values(
                    scope.contexts.last().output,
                    settings.errors,
                    settings.enums,
                ).len(),
                _ => n == 0,
            }
        }),
{
    match node.kind {
        NodeKind::Binary { op, op_span, .. } => {
            let all = opportunities::operator_replacements(op);
            lemma_few_texts(settings, scope, op_span, all, Genre::BinaryOperator, all.len() as int);
        },
        NodeKind::Match { arms, .. } => {
            lemma_few_arms(settings, scope, arms@, arms@.len() as int);
        },
        NodeKind::Struct { struct_path, fields, .. } => {
            lemma_few_fields(
                settings,
                scope,
                pretty::pretty(tokens::toks(struct_path@)),
                fields@,
                fields@.len() as int,
            );
        },
        NodeKind::Block => {
            lemma_few_statements(settings, scope, node.children@, node.children@.len() as int);
        },
        NodeKind::Fn(function) => {
            let values = fnvalue::return_values(function.output, settings.errors, settings.enums);
            lemma_few_bodies(settings, scope, function.body->0, values, values.len() as int);
        },
        NodeKind::Return { value } => {
            if value is Some {
                let values = fnvalue::return_values(scope.contexts.last().output, settings.errors, settings.enums);
                lemma_few_values(
                    settings,
                    scope,
                    (value->0).0,
                    pretty::pretty(tokens::toks((value->0).1@)),
                    values,
                    values.len() as int,
                );
            }
        },
        _ => {},
    }
}

proof fn lemma_few_texts(
    settings: Settings,
    scope: Scope,
    span: Span,
    replacements: Seq<Seq<char>>,
    genre: Genre,
    n: int,
)
    requires
        0 <= n,
    ensures
        opportunities::text_mutants(settings, scope, span, replacements, genre, n).len() <= n,
    decreases n,
{
    if n > 0 {
        lemma_few_texts(settings, scope, span, replacements, genre, n - 1);
    }
}

proof fn lemma_few_arms(settings: Settings, scope: Scope, arms: Seq<Arm>, n: int)
    ensures
        opportunities::arm_mutants(settings, scope, arms, n).len() <= standing_alone(arms, n),
        opportunities::guard_mutants(settings, scope, arms, n).len() <= 2 * guarded(arms, n),
    decreases n,
{
    if n > 0 {
        lemma_few_arms(settings, scope, arms, n - 1);
    }
}

proof fn lemma_few_fields(
    settings: Settings,
    scope: Scope,
    struct_name: Seq<char>,
    fields: Seq<FieldNode>,
    n: int,
)
    ensures
        opportunities::field_mutants(settings, scope, struct_name, fields, n).len() <= named(fields, n),
    decreases n,
{
    if n > 0 {
        lemma_few_fields(settings, scope, struct_name, fields, n - 1);
    }
}

proof fn lemma_few_statements(settings: Settings, scope: Scope, statements: Seq<Node>, n: int)
    requires
        0 <= n,
    ensures
        opportunities::statement_mutants(settings, scope, statements, n).len() <= n,
    decreases n,
{
    if n > 0 {
        lemma_few_statements(settings, scope, statements, n - 1);
    }
}

proof fn lemma_few_bodies(settings: Settings, scope: Scope, body: FnBody, values: Seq<Seq<Tok>>, n: int)
    requires
        0 <= n,
    ensures
        opportunities::fn_mutants(settings, scope, body, values, n).len() <= n,
    decreases n,
{
    if n > 0 {
        lemma_few_bodies(settings, scope, body, values, n - 1);
    }
}

proof fn lemma_few_values(
    settings: Settings,
    scope: Scope,
    span: Span,
    original: Seq<char>,
    values: Seq<Seq<Tok>>,
    n: int,
)
    requires
        0 <= n,
    ensures
        opportunities::return_mutants(settings, scope, span, original, values, n).len() <= n,
    decreases n,
{
    if n > 0 {
        lemma_few_values(settings, scope, span, original, values, n - 1);
    }
}

/// Of several errors the first in the source is reported.
pub proof fn the_first_error_is_reported(settings: Settings, scope: Scope, nodes: Seq<Node>, n: int, k: int)
    requires
        0 <= k < n <= nodes.len(),
        opportunities::found_node(settings, scope, nodes[k]).error is Some,
        forall|i: int| 0 <= i < k ==> opportunities::found_node(settings, scope, #[trigger] nodes[i]).error is None,
    ensures
        opportunities::found_nodes(settings, scope, nodes, n).error == opportunities::found_node(
            settings,
            scope,
            nodes[k],
        ).error,
    decreases n,
{
    if k < n - 1 {
        the_first_error_is_reported(settings, scope, nodes, n - 1, k);
    } else {
        lemma_nodes(settings, scope, nodes, k, arbitrary(), arbitrary());
    }
}

} // verus!
