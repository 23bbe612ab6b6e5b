//! Finding mutants in source code.

use cargo_mutants::artifacts::fingerprint_build_artifacts;
use cargo_mutants::attrs::{attrs_exclude_re_patterns, attrs_excluded, find_path_attribute};
use cargo_mutants::coverage::{ExportFile, LineCoverage, Segment};
use cargo_mutants::fnvalue;
use cargo_mutants::lab::{uncovered_message, BuildLog};
use cargo_mutants::modules::{first_file, mod_source_candidates, ExternalModRef, ModNamespace};
use cargo_mutants::mutant::MutationTarget;
use cargo_mutants::names::NameFilter;
use cargo_mutants::parse::{parse_error_values, parse_source, read_tokens, stream_to_pretty_string};
use cargo_mutants::syntax::{
    ArgToken, Arm, Attr, BinaryOp, BodyStatement, Condition, FieldNode, FileNode, FnBody, FnKind, FnNode, ImplNode, ModNode, NameValue,
    Node, NodeKind, Place, StatementForm, StatementKind, UnaryOp,
};
use cargo_mutants::tokens::TokenTree;
use cargo_mutants::types::{
    Bound, Declaration, GenericArgument, Path, PathArguments, PathSegment, ReturnType, Type, Variant,
};
use cargo_mutants::visit::walk_file;
use cargo_mutants::walk::{Discovered, FileWindow, PackageWalk, WalkedFile};
use cargo_mutants::{Genre, LineColumn, Mutant, Options, Package, SourceFile, Span};
use quote::ToTokens;
use syn::ext::IdentExt;
use syn::spanned::Spanned;
use syn::visit::Visit;

fn position(position: proc_macro2::LineColumn) -> LineColumn {
    LineColumn::from_line_column0(position.line, position.column)
}

fn span_of(span: proc_macro2::Span) -> Span {
    Span {
        start: position(span.start()),
        end: position(span.end()),
    }
}

fn tokens_of(item: &impl ToTokens) -> Vec<TokenTree> {
    read_tokens(item.to_token_stream())
}

fn path_of(path: &syn::Path) -> Path {
    Path {
        leading_colon: path.leading_colon.is_some(),
        segments: path
            .segments
            .iter()
            .map(|segment| PathSegment {
                ident: segment.ident.to_string(),
                arguments: match &segment.arguments {
                    syn::PathArguments::None => PathArguments::Bare,
                    syn::PathArguments::AngleBracketed(arguments) => {
                        PathArguments::AngleBracketed(arguments.args.iter().map(argument_of).collect())
                    }
                    syn::PathArguments::Parenthesized(_) => PathArguments::Parenthesized,
                },
            })
            .collect(),
    }
}

fn argument_of(argument: &syn::GenericArgument) -> GenericArgument {
    match argument {
        syn::GenericArgument::Lifetime(_) => GenericArgument::Lifetime,
        syn::GenericArgument::Type(t) => GenericArgument::Type(type_of(t)),
        syn::GenericArgument::AssocType(assoc) => {
            GenericArgument::AssocType(assoc.ident.to_string(), type_of(&assoc.ty))
        }
        _ => GenericArgument::Other,
    }
}

fn bounds_of<'a>(bounds: impl Iterator<Item = &'a syn::TypeParamBound>) -> Vec<Bound> {
    bounds
        .map(|bound| match bound {
            syn::TypeParamBound::Trait(trait_bound) => Bound::Trait(path_of(&trait_bound.path)),
            _ => Bound::Other,
        })
        .collect()
}

fn type_of(t: &syn::Type) -> Type {
    match t {
        syn::Type::Path(path) => Type::Path(path_of(&path.path)),
        syn::Type::Array(array) => Type::Array(Box::new(type_of(&array.elem)), tokens_of(&array.len)),
        syn::Type::Slice(slice) => Type::Slice(Box::new(type_of(&slice.elem))),
        syn::Type::Reference(reference) => Type::Reference {
            mutable: reference.mutability.is_some(),
            elem: Box::new(type_of(&reference.elem)),
        },
        syn::Type::Tuple(tuple) => Type::Tuple(tuple.elems.iter().map(type_of).collect()),
        syn::Type::ImplTrait(impl_trait) => Type::ImplTrait(bounds_of(impl_trait.bounds.iter())),
        syn::Type::TraitObject(_) => Type::TraitObject,
        syn::Type::Never(_) => Type::Never,
        _ => Type::Other,
    }
}

fn return_type_of(output: &syn::ReturnType) -> ReturnType {
    match output {
        syn::ReturnType::Default => ReturnType::Unit,
        syn::ReturnType::Type(_, t) => ReturnType::Type(type_of(t)),
    }
}

fn declarations_of(items: &[syn::Item]) -> Vec<Declaration> {
    items
        .iter()
        .map(|item| match item {
            syn::Item::Enum(item_enum) => Declaration::Enum {
                name: item_enum.ident.to_string(),
                variants: item_enum
                    .variants
                    .iter()
                    .map(|variant| Variant {
                        name: variant.ident.to_string(),
                        is_unit: matches!(variant.fields, syn::Fields::Unit),
                    })
                    .collect(),
            },
            syn::Item::Mod(item_mod) => match &item_mod.content {
                Some((_, items)) => Declaration::Mod(declarations_of(items)),
                None => Declaration::Other,
            },
            _ => Declaration::Other,
        })
        .collect()
}

/// The tokens in the parentheses of an attribute.
fn arg_tokens(stream: proc_macro2::TokenStream) -> Vec<ArgToken> {
    stream
        .into_iter()
        .flat_map(|tree| {
            let start = position(tree.span().start());
            read_tokens(tree.into()).into_iter().map(move |tree| ArgToken { start, tree })
        })
        .collect()
}

fn attr_of(attribute: &syn::Attribute) -> Attr {
    Attr {
        path: path_of(attribute.path()),
        start: position(attribute.span().start()),
        value: match &attribute.meta {
            syn::Meta::NameValue(name_value) => match &name_value.value {
                syn::Expr::Lit(syn::ExprLit { lit: syn::Lit::Str(literal), .. }) => NameValue::Text(literal.value()),
                _ => NameValue::Other,
            },
            _ => NameValue::Absent,
        },
        args: attribute.parse_args().map(arg_tokens).map_err(|err| err.to_string()),
    }
}

fn attrs_of(attributes: &[syn::Attribute]) -> Vec<Attr> {
    attributes.iter().map(attr_of).collect()
}

fn body_of(block: &syn::Block) -> FnBody {
    FnBody {
        statements: block
            .stmts
            .iter()
            .map(|statement| BodyStatement {
                span: span_of(statement.span()),
                is_return: matches!(statement, syn::Stmt::Expr(syn::Expr::Return(_), _)),
            })
            .collect(),
        tokens: tokens_of(block),
    }
}

fn fn_of(
    kind: FnKind,
    attributes: &[syn::Attribute],
    signature: &syn::Signature,
    span: proc_macro2::Span,
    block: Option<&syn::Block>,
) -> NodeKind {
    NodeKind::Fn(FnNode {
        kind,
        attrs: attrs_of(attributes),
        is_unsafe: signature.unsafety.is_some(),
        is_const: signature.constness.is_some(),
        name: signature.ident.to_string(),
        output: return_type_of(&signature.output),
        output_tokens: tokens_of(&signature.output),
        span: span_of(span),
        body: block.map(body_of),
    })
}

fn binary_op_of(op: &syn::BinOp) -> BinaryOp {
    match op {
        syn::BinOp::Eq(_) => BinaryOp::Eq,
        syn::BinOp::Ne(_) => BinaryOp::Ne,
        syn::BinOp::And(_) => BinaryOp::And,
        syn::BinOp::Or(_) => BinaryOp::Or,
        syn::BinOp::Lt(_) => BinaryOp::Lt,
        syn::BinOp::Gt(_) => BinaryOp::Gt,
        syn::BinOp::Le(_) => BinaryOp::Le,
        syn::BinOp::Ge(_) => BinaryOp::Ge,
        syn::BinOp::Add(_) => BinaryOp::Add,
        syn::BinOp::AddAssign(_) => BinaryOp::AddAssign,
        syn::BinOp::Sub(_) => BinaryOp::Sub,
        syn::BinOp::SubAssign(_) => BinaryOp::SubAssign,
        syn::BinOp::Mul(_) => BinaryOp::Mul,
        syn::BinOp::MulAssign(_) => BinaryOp::MulAssign,
        syn::BinOp::Div(_) => BinaryOp::Div,
        syn::BinOp::DivAssign(_) => BinaryOp::DivAssign,
        syn::BinOp::Rem(_) => BinaryOp::Rem,
        syn::BinOp::RemAssign(_) => BinaryOp::RemAssign,
        syn::BinOp::Shl(_) => BinaryOp::Shl,
        syn::BinOp::ShlAssign(_) => BinaryOp::ShlAssign,
        syn::BinOp::Shr(_) => BinaryOp::Shr,
        syn::BinOp::ShrAssign(_) => BinaryOp::ShrAssign,
        syn::BinOp::BitAnd(_) => BinaryOp::BitAnd,
        syn::BinOp::BitAndAssign(_) => BinaryOp::BitAndAssign,
        syn::BinOp::BitOr(_) => BinaryOp::BitOr,
        syn::BinOp::BitOrAssign(_) => BinaryOp::BitOrAssign,
        syn::BinOp::BitXor(_) => BinaryOp::BitXor,
        syn::BinOp::BitXorAssign(_) => BinaryOp::BitXorAssign,
        _ => BinaryOp::Other,
    }
}

fn unary_op_of(op: &syn::UnOp) -> UnaryOp {
    match op {
        syn::UnOp::Not(_) => UnaryOp::Not,
        syn::UnOp::Neg(_) => UnaryOp::Neg,
        syn::UnOp::Deref(_) => UnaryOp::Deref,
        _ => UnaryOp::Other,
    }
}

fn condition_of(condition: &syn::Expr) -> Condition {
    match condition {
        syn::Expr::Let(_) => Condition::Let,
        syn::Expr::Lit(_) => Condition::Literal,
        _ => Condition::Expression,
    }
}

fn place_of(expr: &syn::Expr) -> Place {
    match expr {
        syn::Expr::Path(path) => match path.path.get_ident() {
            Some(ident) => Place::Name(ident.to_string()),
            None => Place::Other,
        },
        syn::Expr::Field(field) => Place::Part(Box::new(place_of(&field.base))),
        syn::Expr::Index(index) => Place::Part(Box::new(place_of(&index.expr))),
        syn::Expr::Unary(unary) if matches!(unary.op, syn::UnOp::Deref(_)) => Place::Part(Box::new(place_of(&unary.expr))),
        syn::Expr::Paren(paren) => Place::Part(Box::new(place_of(&paren.expr))),
        _ => Place::Other,
    }
}

fn callee_of(call: &syn::ExprCall) -> Option<Path> {
    match &*call.func {
        syn::Expr::Path(path) => Some(path_of(&path.path)),
        _ => None,
    }
}

fn form_of(expr: &syn::Expr) -> StatementForm {
    match expr {
        syn::Expr::MethodCall(call) => StatementForm::MethodCall {
            receiver: place_of(&call.receiver),
            method: call.method.to_string(),
        },
        syn::Expr::Assign(assign) => StatementForm::Assign { target: place_of(&assign.left) },
        syn::Expr::Call(call) => StatementForm::Call { callee: callee_of(call) },
        _ => StatementForm::Other,
    }
}

fn statement_of(statement: &syn::Stmt) -> StatementKind {
    match statement {
        syn::Stmt::Local(local) => StatementKind::Local {
            untyped_name: match &local.pat {
                syn::Pat::Ident(pattern) => Some(pattern.ident.to_string()),
                _ => None,
            },
        },
        syn::Stmt::Expr(expr, semi) => StatementKind::Expr {
            form: form_of(expr),
            span: span_of(expr.span()),
            semi_end: semi.map(|semi| position(semi.span().end())),
        },
        _ => StatementKind::Other,
    }
}

fn fields_of(expr: &syn::ExprStruct) -> Vec<FieldNode> {
    expr.fields
        .pairs()
        .map(|pair| FieldNode {
            name: match &pair.value().member {
                syn::Member::Named(name) => Some(name.to_string()),
                syn::Member::Unnamed(_) => None,
            },
            span: span_of(pair.value().span()),
            comma_end: pair.punct().map(|comma| position(comma.span().end())),
        })
        .collect()
}

/// Builds the tree of a file while `syn` walks through it.
struct TreeBuilder {
    /// The nodes of each construct that is being walked, outermost first.
    levels: Vec<Vec<Node>>,
}

impl TreeBuilder {
    fn nest(&mut self, kind: NodeKind, walk: impl FnOnce(&mut Self)) {
        self.levels.push(Vec::new());
        walk(self);
        let children = self.levels.pop().unwrap_or_default();
        self.add(Node { kind, children });
    }

    fn add(&mut self, node: Node) {
        if let Some(level) = self.levels.last_mut() {
            level.push(node);
        }
    }
}

impl<'ast> Visit<'ast> for TreeBuilder {
    fn visit_expr_call(&mut self, i: &'ast syn::ExprCall) {
        let kind = NodeKind::Call { attrs: attrs_of(&i.attrs), callee: callee_of(i) };
        self.nest(kind, |v| syn::visit::visit_expr_call(v, i));
    }

    fn visit_expr_method_call(&mut self, i: &'ast syn::ExprMethodCall) {
        let kind = NodeKind::MethodCall { attrs: attrs_of(&i.attrs), method: i.method.to_string() };
        self.nest(kind, |v| syn::visit::visit_expr_method_call(v, i));
    }

    fn visit_item_fn(&mut self, i: &'ast syn::ItemFn) {
        let kind = fn_of(FnKind::Free, &i.attrs, &i.sig, i.span(), Some(&i.block));
        self.nest(kind, |v| syn::visit::visit_item_fn(v, i));
    }

    fn visit_impl_item_fn(&mut self, i: &'ast syn::ImplItemFn) {
        let kind = fn_of(FnKind::Impl, &i.attrs, &i.sig, i.span(), Some(&i.block));
        self.nest(kind, |v| syn::visit::visit_impl_item_fn(v, i));
    }

    fn visit_trait_item_fn(&mut self, i: &'ast syn::TraitItemFn) {
        let kind = fn_of(FnKind::Trait, &i.attrs, &i.sig, i.span(), i.default.as_ref());
        self.nest(kind, |v| syn::visit::visit_trait_item_fn(v, i));
    }

    fn visit_item_const(&mut self, i: &'ast syn::ItemConst) {
        self.nest(NodeKind::Const { attrs: attrs_of(&i.attrs) }, |v| syn::visit::visit_item_const(v, i));
    }

    fn visit_item_static(&mut self, i: &'ast syn::ItemStatic) {
        self.nest(NodeKind::Const { attrs: attrs_of(&i.attrs) }, |v| syn::visit::visit_item_static(v, i));
    }

    fn visit_impl_item_const(&mut self, i: &'ast syn::ImplItemConst) {
        self.nest(NodeKind::Const { attrs: attrs_of(&i.attrs) }, |v| syn::visit::visit_impl_item_const(v, i));
    }

    fn visit_trait_item_const(&mut self, i: &'ast syn::TraitItemConst) {
        self.nest(NodeKind::Const { attrs: attrs_of(&i.attrs) }, |v| syn::visit::visit_trait_item_const(v, i));
    }

    fn visit_type_array(&mut self, i: &'ast syn::TypeArray) {
        self.nest(NodeKind::ConstScope, |v| syn::visit::visit_type_array(v, i));
    }

    fn visit_generic_argument(&mut self, i: &'ast syn::GenericArgument) {
        if matches!(i, syn::GenericArgument::Const(_)) {
            self.nest(NodeKind::ConstScope, |v| syn::visit::visit_generic_argument(v, i));
        } else {
            syn::visit::visit_generic_argument(self, i);
        }
    }

    fn visit_item_impl(&mut self, i: &'ast syn::ItemImpl) {
        let kind = NodeKind::Impl(ImplNode {
            attrs: attrs_of(&i.attrs),
            self_type: tokens_of(&i.self_ty),
            trait_path: i.trait_.as_ref().map(|(_, path, _)| (path_of(path), tokens_of(path))),
        });
        self.nest(kind, |v| syn::visit::visit_item_impl(v, i));
    }

    fn visit_item_trait(&mut self, i: &'ast syn::ItemTrait) {
        let kind = NodeKind::Trait { attrs: attrs_of(&i.attrs), name: i.ident.to_string() };
        self.nest(kind, |v| syn::visit::visit_item_trait(v, i));
    }

    fn visit_item_mod(&mut self, i: &'ast syn::ItemMod) {
        let kind = NodeKind::Mod(ModNode {
            attrs: attrs_of(&i.attrs),
            name: i.ident.unraw().to_string(),
            span: span_of(i.span()),
            is_inline: i.content.is_some(),
        });
        self.nest(kind, |v| syn::visit::visit_item_mod(v, i));
    }

    fn visit_expr_binary(&mut self, i: &'ast syn::ExprBinary) {
        let kind = NodeKind::Binary {
            attrs: attrs_of(&i.attrs),
            op: binary_op_of(&i.op),
            op_span: span_of(i.op.span()),
        };
        self.nest(kind, |v| syn::visit::visit_expr_binary(v, i));
    }

    fn visit_expr_unary(&mut self, i: &'ast syn::ExprUnary) {
        let kind = NodeKind::Unary {
            attrs: attrs_of(&i.attrs),
            unary_op: unary_op_of(&i.op),
            op_span: span_of(i.op.span()),
        };
        self.nest(kind, |v| syn::visit::visit_expr_unary(v, i));
    }

    fn visit_expr_if(&mut self, i: &'ast syn::ExprIf) {
        self.levels.push(Vec::new());
        for attribute in &i.attrs {
            self.visit_attribute(attribute);
        }
        self.visit_expr(&i.cond);
        let then_at = self.levels.last().map_or(0, Vec::len);
        self.visit_block(&i.then_branch);
        if let Some((_, otherwise)) = &i.else_branch {
            self.visit_expr(otherwise);
        }
        let children = self.levels.pop().unwrap_or_default();
        let kind = NodeKind::If {
            attrs: attrs_of(&i.attrs),
            condition: condition_of(&i.cond),
            condition_span: span_of(i.cond.span()),
            then_at,
        };
        self.add(Node { kind, children });
    }

    fn visit_expr_while(&mut self, i: &'ast syn::ExprWhile) {
        let kind = NodeKind::While {
            attrs: attrs_of(&i.attrs),
            condition: condition_of(&i.cond),
            condition_span: span_of(i.cond.span()),
        };
        self.nest(kind, |v| syn::visit::visit_expr_while(v, i));
    }

    fn visit_expr_match(&mut self, i: &'ast syn::ExprMatch) {
        let arms = i
            .arms
            .iter()
            .map(|arm| Arm {
                is_wild: matches!(arm.pat, syn::Pat::Wild(_)),
                pattern: tokens_of(&arm.pat),
                span: span_of(arm.span()),
                guard: arm.guard.as_ref().map(|(_, guard)| span_of(guard.span())),
            })
            .collect();
        let kind = NodeKind::Match { attrs: attrs_of(&i.attrs), arms };
        self.nest(kind, |v| syn::visit::visit_expr_match(v, i));
    }

    fn visit_attribute(&mut self, i: &'ast syn::Attribute) {
        self.nest(NodeKind::Hidden, |v| syn::visit::visit_attribute(v, i));
    }

    fn visit_pat(&mut self, i: &'ast syn::Pat) {
        self.nest(NodeKind::Hidden, |v| syn::visit::visit_pat(v, i));
    }

    fn visit_expr_lit(&mut self, i: &'ast syn::ExprLit) {
        if let syn::Lit::Bool(literal) = &i.lit {
            let kind = NodeKind::BoolLiteral { literal: literal.value, span: span_of(i.span()) };
            self.nest(kind, |v| syn::visit::visit_expr_lit(v, i));
        } else {
            syn::visit::visit_expr_lit(self, i);
        }
    }

    fn visit_expr_struct(&mut self, i: &'ast syn::ExprStruct) {
        let kind = NodeKind::Struct {
            attrs: attrs_of(&i.attrs),
            struct_path: tokens_of(&i.path),
            has_base: i.rest.is_some(),
            fields: fields_of(i),
        };
        self.nest(kind, |v| syn::visit::visit_expr_struct(v, i));
    }

    fn visit_block(&mut self, i: &'ast syn::Block) {
        self.nest(NodeKind::Block, |v| syn::visit::visit_block(v, i));
    }

    fn visit_stmt(&mut self, i: &'ast syn::Stmt) {
        self.nest(NodeKind::Statement(statement_of(i)), |v| syn::visit::visit_stmt(v, i));
    }

    fn visit_expr_closure(&mut self, i: &'ast syn::ExprClosure) {
        self.nest(NodeKind::Closure, |v| syn::visit::visit_expr_closure(v, i));
    }

    fn visit_expr_async(&mut self, i: &'ast syn::ExprAsync) {
        self.nest(NodeKind::Closure, |v| syn::visit::visit_expr_async(v, i));
    }

    fn visit_expr_return(&mut self, i: &'ast syn::ExprReturn) {
        let value = i.expr.as_ref().map(|expr| (span_of(expr.span()), tokens_of(expr)));
        self.nest(NodeKind::Return { value }, |v| syn::visit::visit_expr_return(v, i));
    }

    fn visit_expr_break(&mut self, i: &'ast syn::ExprBreak) {
        self.nest(NodeKind::LoopExit, |v| syn::visit::visit_expr_break(v, i));
    }

    fn visit_expr_continue(&mut self, i: &'ast syn::ExprContinue) {
        self.nest(NodeKind::LoopExit, |v| syn::visit::visit_expr_continue(v, i));
    }
}

/// The tree of a parsed file.
fn tree_of(file: &syn::File) -> FileNode {
    let mut builder = TreeBuilder { levels: vec![Vec::new()] };
    builder.visit_file(file);
    FileNode {
        attrs: attrs_of(&file.attrs),
        declarations: declarations_of(&file.items),
        children: builder.levels.pop().unwrap_or_default(),
    }
}

/// A source file of a package of which only the name matters.
fn file_for_tests(path: &str, code: &str, package_name: &str, is_top: bool) -> SourceFile {
    let package = Package {
        name: package_name.to_owned(),
        version: "0.1.0".to_owned(),
        top_sources: vec!["src/lib.rs".to_owned()],
    };
    SourceFile::new(package, path, code, is_top)
}

/// Parse a file and find its mutants.
fn walk_source(source_file: &SourceFile, options: &Options) -> Result<(Vec<Mutant>, Vec<ExternalModRef>), String> {
    match parse_source(source_file) {
        Ok(file) => walk_file(source_file, options, &tree_of(&file)),
        Err(failure) => Err(format!("{}: {}", failure.context, failure.cause)),
    }
}

/// Parse and generate mutants from one single file provided as a string.
///
/// The source code is assumed to be named `src/main.rs` with a fixed package name.
fn mutate_source_str(code: &str, options: &Options) -> Result<Vec<Mutant>, String> {
    let source_file = file_for_tests("src/main.rs", code, "cargo-mutants-testdata-internal", true);
    let (mutants, _) = walk_source(&source_file, options)?;
    Ok(mutants)
}

/// Mutate some code, without needing an enclosing function.
///
/// Return the string representations of the mutants.
fn mutate_expr(code: &str) -> Vec<String> {
    let full_code = format!("fn test_harness() {{\n{code}\n}}\n");
    let source_file = file_for_tests("src/main.rs", &full_code, "cargo-mutants-testdata-internal", true);
    match walk_source(&source_file, &Options::new()) {
        Ok((mutants, _)) => mutants
            .iter()
            .map(|m| m.name(false))
            .filter(|n| !n.ends_with("replace test_harness with ()"))
            .map(|n| {
                n.strip_prefix("src/main.rs: ")
                    .expect("expected to strip file name")
                    .strip_suffix(" in test_harness")
                    .expect("expected function name at end of mutant name")
                    .to_owned()
            })
            .collect(),
        Err(err) => panic!("failed to mutate {code:?}: {err}"),
    }
}

#[test]
fn nested_call_chain_with_deep_control_flow_is_detected_through_the_memo_cache() {
    fn block_at(i: usize, depth: usize, tail: &str) -> String {
        if i == depth - 1 {
            format!("{{ let x{i} = compute({i}); log(x{i}); {tail} }}")
        } else {
            format!(
                "{{ let x{i} = compute({i}); log(x{i}); helper({}); 0 }}",
                block_at(i + 1, depth, tail)
            )
        }
    }
    let depth = 40;
    let with_break = format!(
        "fn f(n: i32) -> i32 {{
            loop {{
                helper({});
            }}
            0
        }}
        fn helper(x: i32) -> i32 {{ x }}
        fn compute(n: i32) -> i32 {{ n }}
        fn log(_n: i32) {{}}
        ",
        block_at(0, depth, "break; 0")
    );
    // Every `helper(...)` statement transitively contains the `break` at
    // the bottom of the chain (it's nested in its own argument), so none
    // of them should be offered as a `DeleteStatement` mutant: deleting
    // one would remove the loop's only exit. The sibling `log(...)` at
    // each level does not contain the `break` and must remain deletable.
    let mutants = mutate_source_str(&with_break, &Options::new()).unwrap();
    let delete_statement_names = mutants
        .iter()
        .filter(|m| m.genre == Genre::DeleteStatement)
        .map(|m| m.name(false))
        .collect::<Vec<_>>();
    assert_eq!(
        delete_statement_names.len(),
        depth,
        "only the {depth} `log(...)` statements should be deletable, got {delete_statement_names:?}"
    );
    assert!(
        delete_statement_names
            .iter()
            .all(|n| !n.contains("helper(")),
        "no `helper(...)` statement should be deletable: each one contains \
         the `break` further down, but got {delete_statement_names:?}"
    );

    // Same chain with `return 0` instead of `break` at the bottom: also
    // must be detected as control flow through every level of the cache.
    let with_return = format!(
        "fn f(n: i32) -> i32 {{
            helper({});
            0
        }}
        fn helper(x: i32) -> i32 {{ x }}
        fn compute(n: i32) -> i32 {{ n }}
        fn log(_n: i32) {{}}
        ",
        block_at(0, depth, "return 0; 0")
    );
    let mutants = mutate_source_str(&with_return, &Options::new()).unwrap();
    let delete_statement_names = mutants
        .iter()
        .filter(|m| m.genre == Genre::DeleteStatement)
        .map(|m| m.name(false))
        .collect::<Vec<_>>();
    assert_eq!(
        delete_statement_names.len(),
        depth,
        "only the {depth} `log(...)` statements should be deletable, got {delete_statement_names:?}"
    );
    assert!(
        delete_statement_names
            .iter()
            .all(|n| !n.contains("helper(")),
        "no `helper(...)` statement should be deletable: each one contains \
         the `return` further down, but got {delete_statement_names:?}"
    );

    // Sanity check: the very same chain with a plain `0` tail (no control
    // flow at all) makes every `helper(...)`/`log(...)` statement
    // deletable, so the assertions above are exercising real detection
    // and not e.g. some unrelated exclusion.
    let without_control_flow = format!(
        "fn f(n: i32) -> i32 {{
            helper({});
            0
        }}
        fn helper(x: i32) -> i32 {{ x }}
        fn compute(n: i32) -> i32 {{ n }}
        fn log(_n: i32) {{}}
        ",
        block_at(0, depth, "0")
    );
    let mutants = mutate_source_str(&without_control_flow, &Options::new()).unwrap();
    let delete_statement_count = mutants
        .iter()
        .filter(|m| m.genre == Genre::DeleteStatement)
        .count();
    // One `helper(...)` and one `log(...)` deletable statement per level.
    assert_eq!(delete_statement_count, depth * 2);
}

#[test]
fn path_ends_with() {
    let path = path_of(&syn::parse_str("foo::bar::baz").unwrap());
    assert!(fnvalue::path_ends_with(&path, "baz"));
    assert!(!fnvalue::path_ends_with(&path, "bar"));
    assert!(!fnvalue::path_ends_with(&path, "foo"));

    let path = path_of(&syn::parse_str("baz").unwrap());
    assert!(fnvalue::path_ends_with(&path, "baz"));
    assert!(!fnvalue::path_ends_with(&path, "bar"));

    let path = path_of(&syn::parse_str("BTreeMap<K, V>").unwrap());
    assert!(fnvalue::path_ends_with(&path, "BTreeMap"));
    assert!(!fnvalue::path_ends_with(&path, "V"));
    assert!(!fnvalue::path_ends_with(&path, "K"));
}

/// We should not generate mutants that produce the same tokens as the
/// source.
#[test]
fn no_mutants_equivalent_to_source() {
    let code = "fn always_true() -> bool { true }
";
    let source_file = file_for_tests("src/lib.rs", code, "unimportant", true);
    let (mutants, _files) = walk_source(&source_file, &Options::new()).expect("walk_file");
    let mutant_names = mutants.iter().map(|m| m.name(false)).collect::<Vec<_>>();
    // It would be good to suggest replacing this with 'false', breaking a key behavior,
    // but bad to replace it with 'true', changing nothing.
    assert_eq!(
        mutant_names,
        ["src/lib.rs: replace always_true -> bool with false"]
    );
}

/// We don't visit functions inside files marked with `#![cfg(test)]`.
#[test]
fn no_mutants_in_files_with_inner_cfg_test_attribute() {
    let code = "#![cfg(test)]\n\npub fn check() -> bool {\n    1 + 1 == 2\n}\n";
    let mutants = mutate_source_str(code, &Options::new()).unwrap();
    assert!(mutants.is_empty());
}

/// Helper function for `find_path_attribute` tests
fn run_find_path_attribute(code: &str) -> Result<Option<String>, String> {
    let item_mod = syn::parse_str::<syn::ItemMod>(code)
        .unwrap_or_else(|err| panic!("Failed to parse test case: {code}\n{err}"));
    find_path_attribute(&attrs_of(&item_mod.attrs))
}

#[test]
fn find_path_attribute_on_module_item() {
    let outer = run_find_path_attribute(
        r#"#[path = "foo_file.rs"]
mod foo;"#,
    );
    assert_eq!(outer, Ok(Some("foo_file.rs".to_owned())));

    let inner = run_find_path_attribute(
        r#"mod foo {
    #![path = "foo_folder"]

    #[path = "file_for_bar.rs"]
    mod bar;
}"#,
    );
    assert_eq!(inner, Ok(Some("foo_folder".to_owned())));
}

#[test]
fn find_path_attribute_matches_the_right_attribute() {
    let mismatched = run_find_path_attribute(
        r#"#[not_the_path = "something"]
mod mismatched;"#,
    );
    assert_eq!(mismatched, Ok(None));
}

#[test]
fn reject_module_path_absolute() {
    // dots are valid
    let dots = run_find_path_attribute(
        r#"#[path = "contains/../dots.rs"]
mod dots;"#,
    );
    assert_eq!(dots, Ok(Some("contains/../dots.rs".to_owned())));

    let dots_inner = run_find_path_attribute(
        r#"mod dots_in_path {
    #![path = "contains/../dots"]
}"#,
    );
    assert_eq!(dots_inner, Ok(Some("contains/../dots".to_owned())));

    let leading_slash = run_find_path_attribute(
        r#"#[path = "/leading_slash.rs"]
mod dots;"#,
    );
    assert_eq!(leading_slash, Err("/leading_slash.rs".to_owned()));

    let allow_other_slashes = run_find_path_attribute(
        r#"#[path = "foo/other/slashes/are/allowed.rs"]
mod dots;"#,
    );
    assert_eq!(
        allow_other_slashes,
        Ok(Some("foo/other/slashes/are/allowed.rs".to_owned()))
    );

    let leading_slash2 = run_find_path_attribute(
        r#"#[path = "/leading_slash/../and_dots.rs"]
mod dots;"#,
    );
    assert_eq!(
        leading_slash2,
        Err("/leading_slash/../and_dots.rs".to_owned())
    );
}

/// Demonstrate that we can generate mutants from a string, without needing a whole tree.
#[test]
fn mutants_from_test_str() {
    let options = Options::new();
    let mutants = mutate_source_str(
        "fn always_true() -> bool { true }
",
        &options,
    )
    .expect("walk_file_string");
    assert_eq!(
        mutants.iter().map(|m| m.name(false)).collect::<Vec<_>>(),
        ["src/main.rs: replace always_true -> bool with false"]
    );
}

#[test]
fn skip_unsafe_fn() {
    // Possibly we should actually mutate unsafe fns, but not unsafe blocks?
    // <https://github.com/sourcefrog/cargo-mutants/issues/405>
    let mutants = mutate_source_str(
        "unsafe fn foo() -> usize {
    2 + 3
}
",
        &Options::new(),
    )
    .unwrap();
    assert!(mutants.is_empty());
}

#[test]
fn skip_functions_with_test_attribute() {
    let mutants = mutate_source_str(
        r#"#[test]
fn test_function() {
    println!("test");
}
"#,
        &Options::new(),
    )
    .unwrap();
    assert!(mutants.is_empty());
}

#[test]
fn skip_functions_with_tokio_test_attribute() {
    let mutants = mutate_source_str(
        r#"#[tokio::test]
async fn tokio_test() {
    println!("test");
}
"#,
        &Options::new(),
    )
    .unwrap();
    assert!(mutants.is_empty());
}

#[test]
fn skip_functions_with_sqlx_test_attribute() {
    let mutants = mutate_source_str(
        r#"#[sqlx::test]
async fn sqlx_test() {
    println!("test");
}
"#,
        &Options::new(),
    )
    .unwrap();
    assert!(mutants.is_empty());
}

#[test]
fn skip_functions_with_arbitrary_test_attribute() {
    let mutants = mutate_source_str(
        r#"#[my_framework::test]
fn custom_test() {
    println!("test");
}
"#,
        &Options::new(),
    )
    .unwrap();
    assert!(mutants.is_empty());
}

#[test]
fn do_not_skip_functions_with_non_test_attributes() {
    let mutants = mutate_source_str(
        r#"#[derive(Debug)]
pub fn testing_something() -> i32 {
    42
}

#[some_crate::test]
fn some_test() {
    println!("test");
}

#[some_attr]
pub fn regular_function() -> i32 {
    100
}
"#,
        &Options::new(),
    )
    .unwrap();
    // Should have mutants for testing_something and regular_function, but not for some_test
    let mutant_names = mutants.iter().map(|m| m.name(false)).collect::<Vec<_>>();
    assert_eq!(mutant_names.len(), 6); // 3 mutants each for the two non-test functions
    assert!(mutant_names.iter().any(|n| n.contains("testing_something")));
    assert!(mutant_names.iter().any(|n| n.contains("regular_function")));
    assert!(!mutant_names.iter().any(|n| n.contains("some_test")));
}

/// Skip mutating arguments to a particular named function.
#[test]
fn skip_named_fn() {
    let mut options = Options::new();
    options.skip_calls = vec!["dont_touch_this".to_owned()];
    let mut mutants = mutate_source_str(
        "fn main() {
    dont_touch_this(2 + 3);
}
",
        &options,
    )
    .expect("walk_file_string");
    // Ignore the main function itself
    mutants.retain(|m| m.genre != Genre::FnValue);
    assert!(mutants.is_empty());
}

#[test]
fn skip_false_if_condition_that_would_remove_a_loop_exit() {
    let mutants = mutate_source_str(
        "fn main() {
    loop {
        if done() {
            break;
        }
    }
}
",
        &Options::new(),
    )
    .unwrap();
    assert_eq!(
        mutants
            .iter()
            .filter(|m| m.genre == Genre::IfCondition)
            .map(|m| m.name(true))
            .collect::<Vec<_>>(),
        ["src/main.rs:3:12: replace done() with true in main"]
    );
}

#[test]
fn skip_with_capacity_by_default() {
    let mut options = Options::new();
    options.skip_calls = vec!["with_capacity".to_owned()];
    let mut mutants = mutate_source_str(
        "fn main() {
    let mut v = Vec::with_capacity(2 * 100);
}
",
        &options,
    )
    .expect("walk_file_string");
    // Ignore the main function itself
    mutants.retain(|m| m.genre != Genre::FnValue);
    assert!(mutants.is_empty());
}

#[test]
fn mutate_vec_with_capacity_when_default_skips_are_turned_off() {
    let options = Options::new();
    let mutants = mutate_source_str(
        "fn main() {
    let mut _v = std::vec::Vec::<String>::with_capacity(2 * 100);
}
",
        &options,
    )
    .expect("walk_file_string");
    // The main fn plus two mutations of the `*` expression.
    assert_eq!(mutants.len(), 3);
}

#[test]
fn skip_method_calls_by_name() {
    let mut options = Options::new();
    options.skip_calls = vec!["dont_touch_this".to_owned(), "with_capacity".to_owned()];
    let mutants = mutate_source_str(
        "fn main() {
    let mut v = v::new();
    v.dont_touch_this(2 + 3);
}
",
        &options,
    )
    .unwrap();
    assert_eq!(
        mutants
            .iter()
            .filter(|mutant| mutant.genre != Genre::FnValue)
            .count(),
        0
    );
}

#[test]
fn mutant_name_includes_type_parameters() {
    // From https://github.com/sourcefrog/cargo-mutants/issues/334
    let mut options = Options::new();
    options.skip_calls = vec!["with_capacity".to_owned()];
    let mutants = mutate_source_str(
        r#"impl AsRef<str> for Apath {
    fn as_ref(&self) -> &str {
        &self.0
    }
}

impl From<Apath> for String {
    fn from(a: Apath) -> String {
        a.0
    }
}

impl<'a> From<&'a str> for Apath {
    fn from(s: &'a str) -> Apath {
        assert!(Apath::is_valid(s), "invalid apath: {s:?}");
        Apath(s.to_string())
    }
}
"#,
        &options,
    )
    .unwrap();
    let mutant_names = mutants.iter().map(|m| m.name(false) + "\n").collect::<String>();
    assert_eq!(
        mutant_names,
        r#"src/main.rs: replace <impl AsRef<str> for Apath>::as_ref -> &str with ""
src/main.rs: replace <impl AsRef<str> for Apath>::as_ref -> &str with "xyzzy"
src/main.rs: replace <impl From<Apath> for String>::from -> String with String::new()
src/main.rs: replace <impl From<Apath> for String>::from -> String with "xyzzy".into()
src/main.rs: replace <impl From<&'a str> for Apath>::from -> Apath with Default::default()
"#
    );
}

#[test]
fn mutate_match_arms_with_fallback() {
    let options = Options::new();
    let mutants = mutate_source_str(
        "fn main() {
    match x {
        X::A => {},
        X::B => {},
        _ => {},
    }
}
",
        &options,
    )
    .unwrap();
    assert_eq!(
        mutants
            .iter()
            .filter(|m| m.genre == Genre::MatchArm)
            .map(|m| m.name(true))
            .collect::<Vec<_>>(),
        [
            "src/main.rs:3:9: delete match arm X::A in main",
            "src/main.rs:4:9: delete match arm X::B in main",
        ]
    );
}

#[test]
fn mutate_if_condition() {
    let mutants = mutate_source_str(
        "fn main() {
    if foo() {
        bar();
    }
}
",
        &Options::new(),
    )
    .unwrap();
    assert_eq!(
        mutants
            .iter()
            .filter(|m| m.genre == Genre::IfCondition)
            .map(|m| m.name(true))
            .collect::<Vec<_>>(),
        [
            "src/main.rs:2:8: replace foo() with true in main",
            "src/main.rs:2:8: replace foo() with false in main",
        ]
    );
}

#[test]
fn skip_if_let_condition() {
    // `if let` is not a bool condition, but mutants inside the body are still found.
    let mutants = mutate_source_str(
        "fn main() {
    if let Some(x) = foo() {
        let _ = x > 1;
    }
}
",
        &Options::new(),
    )
    .unwrap();
    assert!(!mutants.iter().any(|m| m.genre == Genre::IfCondition));
    assert!(mutants.iter().any(|m| m.genre == Genre::BinaryOperator));
}

#[test]
fn mutate_while_condition_only_to_false() {
    let mutants = mutate_source_str(
        "fn main() {
    let mut n = 10;
    while n > 0 {
        n -= 1;
    }
}
",
        &Options::new(),
    )
    .unwrap();
    assert_eq!(
        mutants
            .iter()
            .filter(|m| m.genre == Genre::WhileCondition)
            .map(|m| m.name(true))
            .collect::<Vec<_>>(),
        ["src/main.rs:3:11: replace n > 0 with false in main"]
    );
}

/// Names of the `DeleteStatement` mutants generated from `code`.
fn delete_statement_mutants(code: &str) -> Vec<String> {
    mutate_source_str(code, &Options::new())
        .unwrap()
        .iter()
        .filter(|m| m.genre == Genre::DeleteStatement)
        .map(|m| m.describe_change())
        .collect::<Vec<_>>()
}

#[test]
fn delete_method_call_statement() {
    assert_eq!(
        delete_statement_mutants("fn f(v: &mut Vec<u32>) {
    v.push(1);
}
"),
        ["delete v.push(1); in f"]
    );
}

#[test]
fn skip_deleting_statement_using_an_untyped_local() {
    assert_eq!(
        delete_statement_mutants("fn f() {
    let mut v = Vec::new();
    v.push(1);
}
"),
        Vec::<String>::new()
    );
}

#[test]
fn delete_statement_using_a_typed_local() {
    assert_eq!(
        delete_statement_mutants("fn f() {
    let mut v: Vec<u32> = Vec::new();
    v.push(1);
}
"),
        ["delete v.push(1); in f"]
    );
}

#[test]
fn skip_deleting_compound_assignment_macro_and_try_statements() {
    assert_eq!(
        delete_statement_mutants("fn f(mut n: u32, x: bool) -> Result<(), Error> {
    n -= 1;
    assert!(x);
    foo()?;
    Ok(())
}
"),
        Vec::<String>::new()
    );
}

#[test]
fn delete_assignment_to_a_parameter() {
    assert_eq!(
        delete_statement_mutants("fn f(mut x: u32) -> u32 {
    x = 1;
    x
}
"),
        ["delete x = 1; in f"]
    );
}

#[test]
fn mutate_bool_literal_in_let() {
    let mutants = mutate_source_str(
        "fn f() {
    let x = true;
}
",
        &Options::new(),
    )
    .unwrap();
    assert_eq!(
        mutants
            .iter()
            .filter(|m| m.genre == Genre::BoolLiteral)
            .map(|m| m.name(true))
            .collect::<Vec<_>>(),
        ["src/main.rs:2:13: replace true with false in f"]
    );
}

#[test]
fn mutate_early_return_value() {
    let mutants = mutate_source_str(
        "fn f(n: i32) -> i32 {
    if n < 0 {
        return 0;
    }
    n * 2
}
",
        &Options::new(),
    )
    .unwrap();
    assert_eq!(
        mutants
            .iter()
            .filter(|m| m.genre == Genre::ReturnValue)
            .map(|m| m.name(true))
            .collect::<Vec<_>>(),
        [
            "src/main.rs:3:16: replace 0 with 1 in f",
            "src/main.rs:3:16: replace 0 with -1 in f",
        ]
    );
}

#[test]
fn skip_return_value_when_body_is_a_single_return() {
    let mutants = mutate_source_str(
        "fn f() -> i32 {
    return 7;
}
",
        &Options::new(),
    )
    .unwrap();
    assert!(!mutants.iter().any(|m| m.genre == Genre::ReturnValue));
    assert!(mutants.iter().any(|m| m.genre == Genre::FnValue));
}

#[test]
fn skip_return_value_inside_a_closure() {
    let mutants = mutate_source_str(
        "fn f() -> i32 {
    let g = || {
        return 3;
    };
    g()
}
",
        &Options::new(),
    )
    .unwrap();
    assert!(!mutants.iter().any(|m| m.genre == Genre::ReturnValue));
}

#[test]
fn skip_bool_literal_that_is_the_whole_function_body() {
    let mutants = mutate_source_str(
        "fn f() -> bool {
    true
}
",
        &Options::new(),
    )
    .unwrap();
    assert!(!mutants.iter().any(|m| m.genre == Genre::BoolLiteral));
    assert!(mutants.iter().any(|m| m.genre == Genre::FnValue));
}

#[test]
fn skip_bool_literal_that_is_a_whole_match_guard() {
    let mutants = mutate_source_str(
        "fn f(x: Option<u32>) -> u32 {
    match x {
        Some(_) if true => 1,
        _ => 2,
    }
}
",
        &Options::new(),
    )
    .unwrap();
    assert!(!mutants.iter().any(|m| m.genre == Genre::BoolLiteral));
    assert!(mutants.iter().any(|m| m.genre == Genre::MatchArmGuard));
}

#[test]
fn skip_bool_literals_in_patterns_and_attributes() {
    let mutants = mutate_source_str(
        r#"#[doc = "documentation"]
fn g(b: bool) -> u32 {
    match b {
        true => 1,
        false => 2,
    }
}
"#,
        &Options::new(),
    )
    .unwrap();
    assert!(!mutants.iter().any(|m| m.genre == Genre::BoolLiteral));
}

#[test]
fn return_same_file_enum_unit_variants() {
    let mutants = mutate_source_str(
        "enum Colour { Red, Green, Custom(u32) }

fn pick() -> Colour {
    Colour::Red
}
",
        &Options::new(),
    )
    .unwrap();
    assert_eq!(
        mutants
            .iter()
            .filter(|m| m.genre == Genre::FnValue)
            .map(|m| m.replacement_text().to_owned())
            .collect::<Vec<_>>(),
        ["Colour::Green"]
    );
}

#[test]
fn skip_match_arms_without_fallback() {
    let options = Options::new();
    let mutants = mutate_source_str(
        "fn main() {
    match x {
        X::A => {},
        X::B => {},
    }
}
",
        &options,
    )
    .unwrap();

    let empty: &[&str] = &[];
    assert_eq!(
        mutants
            .iter()
            .filter(|m| m.genre == Genre::MatchArm)
            .map(|m| m.name(true))
            .collect::<Vec<_>>(),
        empty
    );
}

#[test]
fn mutate_match_guard() {
    let options = Options::new();
    let mutants = mutate_source_str(
        "fn main() {
    match x {
        X::A if foo() => {},
        X::A => {},
        X::B => {},
        X::C if bar() => {},
    }
}
",
        &options,
    )
    .unwrap();
    assert_eq!(
        mutants
            .iter()
            .filter(|m| m.genre == Genre::MatchArmGuard)
            .map(|m| m.name(true))
            .collect::<Vec<_>>(),
        [
            "src/main.rs:3:17: replace match guard foo() with true in main",
            "src/main.rs:3:17: replace match guard foo() with false in main",
            "src/main.rs:6:17: replace match guard bar() with true in main",
            "src/main.rs:6:17: replace match guard bar() with false in main",
        ]
    );
}

#[test]
fn skip_removing_match_arm_with_guard() {
    let options = Options::new();
    let mutants = mutate_source_str(
        "fn main() {
    match x {
        X::A if foo() => {},
        X::A => {},
        _ => {},
    }
}
",
        &options,
    )
    .unwrap();
    assert_eq!(
        mutants
            .iter()
            .filter(|m| matches!(m.genre, Genre::MatchArmGuard | Genre::MatchArm))
            .map(|m| m.name(true))
            .collect::<Vec<_>>(),
        [
            "src/main.rs:4:9: delete match arm X::A in main",
            "src/main.rs:3:17: replace match guard foo() with true in main",
            "src/main.rs:3:17: replace match guard foo() with false in main",
        ]
    );
}

#[test]
fn mutate_comparisons() {
    assert_eq!(
        mutate_expr("a > b"),
        &["replace > with ==", "replace > with <", "replace > with >="]
    );
    assert_eq!(
        mutate_expr("a < b "),
        &["replace < with ==", "replace < with >", "replace < with <="]
    );
    assert_eq!(mutate_expr("a == b"), &["replace == with !="]);
    assert_eq!(mutate_expr("a != b"), &["replace != with =="]);
    assert_eq!(
        mutate_expr("a >= b"),
        &["replace >= with <", "replace >= with >"]
    );
    assert_eq!(
        mutate_expr("a <= b"),
        &["replace <= with >", "replace <= with <"]
    );
}

#[test]
fn mutate_binops() {
    assert_eq!(mutate_expr(" a >> 2; "), &["replace >> with <<"]);
    assert_eq!(mutate_expr("a << 2; "), &["replace << with >>"]);
    assert_eq!(mutate_expr("a && b"), &["replace && with ||"]);
    assert_eq!(mutate_expr("a || b"), &["replace || with &&"]);
    assert_eq!(
        mutate_expr("a + b"),
        &["replace + with -", "replace + with *"]
    );
    assert_eq!(
        mutate_expr("a - b"),
        &["replace - with +", "replace - with /"]
    );
    assert_eq!(
        mutate_expr("a * b"),
        &["replace * with +", "replace * with /"]
    );
    assert_eq!(
        mutate_expr("a / b"),
        &["replace / with %", "replace / with *"]
    );
    assert_eq!(
        mutate_expr("a & b"),
        &["replace & with |", "replace & with ^"]
    );
    assert_eq!(
        mutate_expr("a | b"),
        &["replace | with &", "replace | with ^"]
    );
    assert_eq!(
        mutate_expr("a ^ b"),
        &["replace ^ with |", "replace ^ with &"]
    );
}

#[test]
fn mutate_assign_ops() {
    assert_eq!(
        mutate_expr("a += b"),
        &["replace += with -=", "replace += with *="]
    );
    assert_eq!(
        mutate_expr("a -= b"),
        &["replace -= with +=", "replace -= with /="]
    );
    assert_eq!(
        mutate_expr("a *= b"),
        &["replace *= with +=", "replace *= with /="]
    );
    assert_eq!(
        mutate_expr("a /= b"),
        &["replace /= with %=", "replace /= with *="]
    );
    assert_eq!(mutate_expr("a &= b"), &["replace &= with |="]);
    assert_eq!(mutate_expr("a |= b"), &["replace |= with &="]);
    assert_eq!(
        mutate_expr("a ^= b"),
        &["replace ^= with |=", "replace ^= with &="]
    );
    assert_eq!(
        mutate_expr("a %= b"),
        &["replace %= with /=", "replace %= with +="]
    );
    assert_eq!(mutate_expr("a >>= b"), &["replace >>= with <<="]);
    assert_eq!(mutate_expr("a <<= b"), &["replace <<= with >>="]);
}

#[test]
fn delete_struct_field_with_default() {
    let mutants = mutate_expr(
        r#"
        let cat = Cat {
            name: "Felix",
            coat: Coat::Tuxedo,
            ..Default::default()
        };
        "#,
    );
    // Should generate mutants to delete each field
    assert_eq!(
        mutants,
        &[
            "delete field name from struct Cat expression",
            "delete field coat from struct Cat expression"
        ]
    );
}

#[test]
fn skip_struct_without_default() {
    let mutants = mutate_expr(
        r#"
        let cat = Cat {
            name: "Felix",
            coat: Coat::Tuxedo,
        };
        "#,
    );
    // Should not generate any field deletion mutants without a default
    assert_eq!(mutants, Vec::<String>::new());
}

#[test]
fn delete_struct_field_with_custom_default() {
    let mutants = mutate_expr(
        r#"
        let config = Config {
            timeout: 30,
            retries: 5,
            ..base_config
        };
        "#,
    );
    // Should work with any base expression, not just Default::default()
    assert_eq!(
        mutants,
        &[
            "delete field timeout from struct Config expression",
            "delete field retries from struct Config expression"
        ]
    );
}

#[test]
fn delete_struct_field_single_field_with_default() {
    let mutants = mutate_expr(
        r#"
        let point = Point {
            x: 10,
            ..Default::default()
        };
        "#,
    );
    // Should work with a single field too
    assert_eq!(mutants, &["delete field x from struct Point expression"]);
}

#[test]
fn delete_struct_field_complex_values() {
    let mutants = mutate_expr(
        r#"
        let settings = Settings {
            enabled: get_enabled(),
            count: compute_count() + 10,
            ..Settings::default()
        };
        "#,
    );
    // Should work regardless of the complexity of the field values
    // The visitor also generates mutants for expressions within field values
    assert_eq!(
        mutants,
        &[
            "delete field enabled from struct Settings expression",
            "delete field count from struct Settings expression",
            "replace + with -",
            "replace + with *"
        ]
    );
}

#[test]
fn exclude_re_attr_filters_specific_mutants() {
    let options = Options::new();
    let mutants = mutate_source_str(
        r#"#[mutants::exclude_re("with 0")]
fn add(a: i32, b: i32) -> i32 {
    a + b
}
"#,
        &options,
    )
    .unwrap();
    let names: Vec<String> = mutants.iter().map(|m| m.full_name()).collect();
    // "replace add -> i32 with 0" should be filtered out, but
    // "replace add -> i32 with 1", "with -1", and the binary operator
    // mutations on the body should still be present.
    assert!(
        !names.iter().any(|n| n.contains("with 0")),
        "should not contain 'with 0' mutant but got: {names:?}"
    );
    assert!(
        names.iter().any(|n| n.contains("with 1")),
        "should still contain 'with 1' fn-value mutant: {names:?}"
    );
    assert!(
        names.iter().any(|n| n.contains("with -1")),
        "should still contain 'with -1' fn-value mutant: {names:?}"
    );
    assert!(
        names.iter().any(|n| n.contains("replace + with")),
        "should still contain binary op mutant: {names:?}"
    );
}

#[test]
fn exclude_re_attr_keeps_all_when_no_match() {
    // A valid regex that doesn't match any generated mutant must have no
    // effect, matching the behaviour of `--exclude-re` on the CLI / in
    // the config file.
    let options = Options::new();
    let mutants_with_attr = mutate_source_str(
        r#"#[mutants::exclude_re("this_matches_nothing")]
fn add(a: i32, b: i32) -> i32 {
    a + b
}
"#,
        &options,
    )
    .unwrap();
    let mutants_without_attr = mutate_source_str(
        "fn add(a: i32, b: i32) -> i32 {
    a + b
}
",
        &options,
    )
    .unwrap();
    let names_with: Vec<String> = mutants_with_attr.iter().map(|m| m.name(false)).collect();
    let names_without: Vec<String> =
        mutants_without_attr.iter().map(|m| m.name(false)).collect();
    assert_eq!(
        names_with, names_without,
        "exclude_re pattern that matches no mutants should produce the \
         exact same mutants as no attribute at all"
    );
}

#[test]
fn exclude_re_attr_invalid_regex_returns_error() {
    let options = Options::new();
    let result = mutate_source_str(
        r#"#[mutants::exclude_re("(unclosed")]
fn add(a: i32, b: i32) -> i32 {
    a + b
}
"#,
        &options,
    );
    assert!(result.is_err(), "invalid regex should produce an error");
    let err_msg = result.err().unwrap();
    assert!(
        err_msg.contains("invalid regex"),
        "error should mention 'invalid regex': {err_msg}"
    );
}

#[test]
fn exclude_re_attr_without_string_arg_returns_error() {
    // Missing arguments must not silently no-op; they should be reported
    // as malformed so users don't think their exclude is in effect.
    let options = Options::new();
    let result = mutate_source_str(
        "#[mutants::exclude_re]
fn add(a: i32, b: i32) -> i32 {
    a + b
}
",
        &options,
    );
    assert!(
        result.is_err(),
        "missing arg should produce an error"
    );
    let err_msg = result.err().unwrap();
    assert!(
        err_msg.contains("malformed"),
        "error should mention 'malformed': {err_msg}"
    );
}

#[test]
fn exclude_re_attr_with_multiple_args_returns_error() {
    let options = Options::new();
    let result = mutate_source_str(
        r#"#[mutants::exclude_re("a", "b")]
fn add(a: i32, b: i32) -> i32 {
    a + b
}
"#,
        &options,
    );
    assert!(
        result.is_err(),
        "extra args should produce an error"
    );
}

#[test]
fn exclude_re_attr_with_non_string_arg_returns_error() {
    let options = Options::new();
    let result = mutate_source_str(
        "#[mutants::exclude_re(42)]
fn add(a: i32, b: i32) -> i32 {
    a + b
}
",
        &options,
    );
    assert!(
        result.is_err(),
        "non-string arg should produce an error"
    );
}

#[test]
fn exclude_re_attr_error_includes_source_location() {
    let options = Options::new();
    let result = mutate_source_str(
        r#"fn first() -> i32 { 1 }

#[mutants::exclude_re("(unclosed")]
fn add(a: i32, b: i32) -> i32 {
    a + b
}
"#,
        &options,
    );
    assert!(result.is_err());
    let err_msg = result.err().unwrap();
    // Error should point at the line of the offending attribute.
    assert!(
        err_msg.contains("src/main.rs:3"),
        "error should include source location pointing at attribute on line 3: {err_msg}"
    );
    // And include the bad pattern so the user can find it quickly.
    assert!(
        err_msg.contains("(unclosed"),
        "error should include the offending pattern: {err_msg}"
    );
}

#[test]
fn exclude_re_attr_on_impl_block_applies_to_methods() {
    let options = Options::new();
    let mutants = mutate_source_str(
        r#"struct Foo;
#[mutants::exclude_re("replace .* -> bool")]
impl Foo {
    fn is_ok(&self) -> bool {
        true
    }
    fn count(&self) -> i32 {
        1 + 2
    }
}
"#,
        &options,
    )
    .unwrap();
    let names: Vec<String> = mutants.iter().map(|m| m.full_name()).collect();
    // is_ok fn replacement should be excluded, but count fn and binary ops should remain
    assert!(
        !names.iter().any(|n| n.contains("is_ok")),
        "should not contain is_ok mutant but got: {names:?}"
    );
    assert!(
        names.iter().any(|n| n.contains("count")),
        "should contain count mutant: {names:?}"
    );
}

#[test]
fn cfg_attr_exclude_re_filters_mutants() {
    let options = Options::new();
    let mutants = mutate_source_str(
        r#"#[cfg_attr(test, mutants::exclude_re("replace .* with 0"))]
fn add(a: i32, b: i32) -> i32 {
    a + b
}
"#,
        &options,
    )
    .unwrap();
    let names: Vec<String> = mutants.iter().map(|m| m.full_name()).collect();
    assert!(
        !names.iter().any(|n| n.contains("with 0")),
        "should not contain 'with 0' mutant but got: {names:?}"
    );
    assert!(
        names.iter().any(|n| n.contains("replace + with")),
        "should still contain binary op mutant: {names:?}"
    );
}

#[test]
fn exclude_re_attr_on_trait_block_applies_to_default_methods() {
    let options = Options::new();
    let mutants = mutate_source_str(
        r#"#[mutants::exclude_re("replace .* -> bool")]
trait Check {
    fn is_ok(&self) -> bool {
        true
    }
    fn count(&self) -> i32 {
        1 + 2
    }
}
"#,
        &options,
    )
    .unwrap();
    let names: Vec<String> = mutants.iter().map(|m| m.full_name()).collect();
    assert!(
        !names.iter().any(|n| n.contains("is_ok")),
        "should not contain is_ok mutant but got: {names:?}"
    );
    assert!(
        names.iter().any(|n| n.contains("count")),
        "should contain count mutant: {names:?}"
    );
}

#[test]
fn exclude_re_attr_on_mod_block_applies_to_functions() {
    let options = Options::new();
    let mutants = mutate_source_str(
        r#"#[mutants::exclude_re("replace .* -> bool")]
mod inner {
    pub fn is_ok() -> bool {
        true
    }
    pub fn count() -> i32 {
        1 + 2
    }
}
"#,
        &options,
    )
    .unwrap();
    let names: Vec<String> = mutants.iter().map(|m| m.full_name()).collect();
    assert!(
        !names.iter().any(|n| n.contains("is_ok")),
        "should not contain is_ok mutant but got: {names:?}"
    );
    assert!(
        names.iter().any(|n| n.contains("count")),
        "should contain count mutant: {names:?}"
    );
}

#[test]
fn exclude_re_attr_inner_file_attribute_applies_to_all_functions() {
    let options = Options::new();
    let mutants = mutate_source_str(
        r#"#![mutants::exclude_re("replace .* -> bool")]

fn is_ok() -> bool {
    true
}
fn count() -> i32 {
    1 + 2
}
"#,
        &options,
    )
    .unwrap();
    let names: Vec<String> = mutants.iter().map(|m| m.full_name()).collect();
    assert!(
        !names.iter().any(|n| n.contains("is_ok")),
        "should not contain is_ok mutant but got: {names:?}"
    );
    assert!(
        names.iter().any(|n| n.contains("count")),
        "should contain count mutant: {names:?}"
    );
}

#[test]
fn exclude_re_attr_inherits_from_outer_scope() {
    let options = Options::new();
    let mutants = mutate_source_str(
        r#"struct Foo;
#[mutants::exclude_re("replace .* -> bool")]
impl Foo {
    #[mutants::exclude_re("replace .* -> i32")]
    fn count(&self) -> i32 {
        1 + 2
    }
    fn is_ok(&self) -> bool {
        true
    }
    fn add(&self, a: i32, b: i32) -> i32 {
        a + b
    }
}
"#,
        &options,
    )
    .unwrap();
    let names: Vec<String> = mutants.iter().map(|m| m.full_name()).collect();
    // is_ok: excluded by impl-level pattern (-> bool)
    assert!(
        !names.iter().any(|n| n.contains("is_ok")),
        "should not contain is_ok mutant but got: {names:?}"
    );
    // count: fn-value excluded by fn-level pattern (-> i32), but also
    // impl-level pattern (-> bool) doesn't affect it; binary ops remain
    assert!(
        !names
            .iter()
            .any(|n| n.contains("replace count") || n.contains("replace Foo::count")),
        "should not contain count fn-value mutant but got: {names:?}"
    );
    assert!(
        names
            .iter()
            .any(|n| n.contains("replace + with") && n.contains("count")),
        "should contain binary op mutant in count: {names:?}"
    );
    // add: fn-value NOT excluded (impl pattern only covers bool), binary ops remain
    assert!(
        names
            .iter()
            .any(|n| n.contains("add") && n.contains("-> i32")),
        "should still contain add fn-value mutant: {names:?}"
    );
}

#[test]
fn always_skip_constructors_called_new() {
    let code = "struct S {\n    x: i32,\n}\n\nimpl S {\n    fn new(x: i32) -> Self {\n        Self { x }\n    }\n}\n";
    let mutants = mutate_source_str(code, &Options::new()).unwrap();
    assert!(mutants.is_empty());
}

const FACTORIAL: &str = r#"fn main() {
    for i in 1..=6 {
        println!("{}! = {}", i, factorial(i));
    }
}

fn factorial(n: u32) -> u32 {
    let mut a = 1;
    for i in 2..=n {
        a *= i;
    }
    a
}

#[test]
fn test_factorial() {
    println!("factorial({}) = {}", 6, factorial(6)); // This line is here so we can see it in --nocapture
    assert_eq!(factorial(6), 720);
}
"#;

fn factorial_mutants() -> Vec<Mutant> {
    let source_file =
        file_for_tests("src/bin/factorial.rs", FACTORIAL, "cargo-mutants-testdata-factorial", true);
    walk_source(&source_file, &Options::new()).unwrap().0
}

#[test]
fn discover_factorial_mutants() {
    let mutants = factorial_mutants();
    assert_eq!(mutants.len(), 5);

    // Some checks about fields that we expect in the debug format, without being too brittle
    let debug_format = mutants[0].to_debug_string();
    println!("mutants[0]: {debug_format}");
    assert!(debug_format.contains("Mutant {"));
    assert!(debug_format.contains("function: Some("));
    assert!(debug_format.contains(r#"replacement: "()""#));
    assert!(debug_format.contains("genre: FnValue"));
    assert!(debug_format.contains("span: Span(2, 5, 4, 6)"));
    assert!(debug_format.contains("short_replaced: None"));
    assert!(debug_format.contains(r#"name: "cargo-mutants-testdata-factorial""#));
    assert!(debug_format.contains(r#""src/bin/factorial.rs""#));
    assert!(!debug_format.contains("fn main()"), "Debug form seems to contain source code");
    assert!(
        debug_format.len() < 800,
        "Debug form seems to be too long: {} bytes",
        debug_format.len()
    );

    assert_eq!(mutants[0].name(true), "src/bin/factorial.rs:2:5: replace main with ()");

    assert_eq!(mutants[1].source_file.package().name, "cargo-mutants-testdata-factorial");
    assert_eq!(mutants[1].function.as_ref().unwrap().function_name, "factorial");
    assert_eq!(mutants[1].function.as_ref().unwrap().return_type, "-> u32");
    assert_eq!(mutants[1].genre, Genre::FnValue);
    assert_eq!(mutants[1].replacement, "0");
    assert_eq!(mutants[1].name(false), "src/bin/factorial.rs: replace factorial -> u32 with 0");
    assert_eq!(mutants[1].name(true), "src/bin/factorial.rs:8:5: replace factorial -> u32 with 0");
    assert_eq!(mutants[2].name(true), "src/bin/factorial.rs:8:5: replace factorial -> u32 with 1");
}

fn strip_trailing_space(s: &str) -> String {
    // Split on \n so that we retain empty lines etc
    s.split('\n').map(str::trim_end).collect::<Vec<_>>().join("\n")
}

#[test]
fn mutate_factorial() {
    let mutants = factorial_mutants();
    assert_eq!(mutants.len(), 5);

    let mutated_code = mutants[0].mutated_code();
    assert_eq!(mutants[0].function.as_ref().unwrap().function_name, "main");
    assert_eq!(
        strip_trailing_space(&mutated_code),
        r#"fn main() {
    () /* ~ changed by cargo-mutants ~ */
}

fn factorial(n: u32) -> u32 {
    let mut a = 1;
    for i in 2..=n {
        a *= i;
    }
    a
}

#[test]
fn test_factorial() {
    println!("factorial({}) = {}", 6, factorial(6)); // This line is here so we can see it in --nocapture
    assert_eq!(factorial(6), 720);
}
"#
    );

    let mutated_code = mutants[1].mutated_code();
    assert_eq!(mutants[1].function.as_ref().unwrap().function_name, "factorial");
    assert_eq!(
        strip_trailing_space(&mutated_code),
        r#"fn main() {
    for i in 1..=6 {
        println!("{}! = {}", i, factorial(i));
    }
}

fn factorial(n: u32) -> u32 {
    0 /* ~ changed by cargo-mutants ~ */
}

#[test]
fn test_factorial() {
    println!("factorial({}) = {}", 6, factorial(6)); // This line is here so we can see it in --nocapture
    assert_eq!(factorial(6), 720);
}
"#
    );
}

/// The full names of the mutants in some code.
fn full_names(code: &str, options: &Options) -> Vec<String> {
    mutate_source_str(code, options).unwrap().iter().map(|m| m.full_name()).collect()
}

#[test]
fn error_values_are_parsed_and_returned() {
    let mut options = Options::new();
    options.error_values = vec!["anyhow!( \"mutated\" )".to_owned()];
    assert_eq!(
        full_names("fn f() -> Result<bool> { Ok(go()) }\n", &options),
        [
            "src/main.rs:1:26: replace f -> Result<bool> with Ok(true)",
            "src/main.rs:1:26: replace f -> Result<bool> with Ok(false)",
            "src/main.rs:1:26: replace f -> Result<bool> with Err(anyhow!(\"mutated\"))",
        ]
    );
}

#[test]
fn an_error_value_that_is_no_expression_is_an_error() {
    let mut options = Options::new();
    options.error_values = vec!["1 + 1".to_owned(), "fn (".to_owned(), ")".to_owned()];
    let first = parse_error_values(&vec!["fn (".to_owned()]).err().unwrap();
    assert_eq!(parse_error_values(&options.error_values).err().unwrap(), first);
    assert_eq!(mutate_source_str("fn f() {}\n", &options).err().unwrap(), first);
    assert_eq!(parse_error_values(&vec!["1 + 1".to_owned()]).unwrap()[0].len(), 3);
}

#[test]
fn a_file_that_cannot_be_parsed_is_an_error() {
    let source_file = file_for_tests("src/broken.rs", "fn {", "unimportant", true);
    let failure = parse_source(&source_file).err().unwrap();
    assert_eq!(failure.context, "failed to parse src/broken.rs");
    assert!(!failure.cause.is_empty());
}

#[test]
fn names_decide_which_mutants_are_wanted() {
    let code = "fn f() -> u32 { let s = S { a: 1, ..base() }; s.b }\n";
    assert_eq!(
        full_names(code, &Options::new()),
        [
            "src/main.rs:1:17: replace f -> u32 with 0",
            "src/main.rs:1:17: replace f -> u32 with 1",
            "src/main.rs:1:29: delete field a from struct S expression in f",
        ]
    );
    let mut options = Options::new();
    options.names = NameFilter::new(&vec!["with 1".to_owned()], &vec![]).unwrap();
    assert_eq!(
        full_names(code, &options),
        [
            "src/main.rs:1:17: replace f -> u32 with 1",
            "src/main.rs:1:29: delete field a from struct S expression in f",
        ]
    );
    options.names = NameFilter::new(&vec![], &vec!["with 1$".to_owned()]).unwrap();
    assert_eq!(
        full_names(code, &options),
        [
            "src/main.rs:1:17: replace f -> u32 with 0",
            "src/main.rs:1:29: delete field a from struct S expression in f",
        ]
    );
}

#[test]
fn names_that_do_not_compile_are_reported() {
    let bad = vec!["(unclosed".to_owned()];
    let good = vec!["fine".to_owned()];
    let message = NameFilter::new(&bad, &good).err().unwrap();
    assert!(message.contains("unclosed group"), "{message}");
    assert_eq!(NameFilter::new(&good, &bad).err().unwrap(), message);
    let filter = NameFilter::new(&good, &vec!["not".to_owned()]).unwrap();
    assert!(filter.allows("this is fine"));
    assert!(!filter.allows("this is not fine"));
    assert!(!filter.allows("this is not"));
    assert!(NameFilter::all().allows("anything"));
}

#[test]
fn attributes_skip_what_they_are_on() {
    for code in [
        "#[mutants::skip]\nfn f() -> bool { a + b == 3 }\n",
        "#[cfg_attr(test, mutants::skip)]\nfn f() -> bool { a + b == 3 }\n",
        "#[cfg(test)]\nmod tests { fn f() -> bool { a + b == 3 } }\n",
        "#[mutants::skip]\nimpl S { fn f(&self) -> bool { a + b == 3 } }\n",
        "#[mutants::skip]\ntrait T { fn f(&self) -> bool { a + b == 3 } }\n",
        "#[mutants::skip]\nconst C: u32 = 1 + 2;\n",
        "#[mutants::skip]\nstatic C: u32 = 1 + 2;\n",
        "#![mutants::skip]\nfn f() -> bool { a + b == 3 }\n",
        "impl Default for S { fn default() -> S { S { a: 1 + 2 } } }\n",
        "trait T { fn f(&self) -> bool; fn new() -> u32 { 1 + 2 } }\n",
        "fn f() {}\n",
    ] {
        assert!(mutate_source_str(code, &Options::new()).unwrap().is_empty(), "{code}");
    }
}

#[test]
fn a_malformed_exclude_re_in_cfg_attr_is_an_error() {
    let err = mutate_source_str("#[cfg_attr(test, mutants::exclude_re(3))]\nfn f() -> bool { a }\n", &Options::new())
        .err()
        .unwrap();
    assert_eq!(
        err,
        "src/main.rs:1:18: malformed #[mutants::exclude_re(...)] inside cfg_attr: expected string literal"
    );
    let err = mutate_source_str("#[mutants::exclude_re(3)]\nfn f() -> bool { a }\n", &Options::new()).err().unwrap();
    assert_eq!(err, "src/main.rs:1:1: malformed #[mutants::exclude_re(...)] attribute: expected string literal");
}

#[test]
fn the_first_error_is_reported() {
    let code = "#[mutants::exclude_re(\"[\", 1)]\nfn f() -> bool { a }\n#[mutants::exclude_re(\"(\")]\nfn g() -> bool { a }\n";
    let err = mutate_source_str(code, &Options::new()).err().unwrap();
    assert!(err.starts_with("src/main.rs:1:1: malformed"), "{err}");
}

#[test]
fn compile_time_evaluation_is_marked() {
    let code = "const A: u32 = 1 + 2;\nconst fn c() -> bool { a }\nfn f(x: [u8; 1 + 2]) -> u32 { 3 - 4 }\n";
    let mutants = mutate_source_str(code, &Options::new()).unwrap();
    let marked: Vec<(String, bool)> = mutants.iter().map(|m| (m.describe_change(), m.const_eval)).collect();
    assert_eq!(
        marked,
        [
            ("replace + with -".to_owned(), true),
            ("replace + with *".to_owned(), true),
            ("replace c -> bool with true".to_owned(), true),
            ("replace c -> bool with false".to_owned(), true),
            ("replace f -> u32 with 0".to_owned(), false),
            ("replace f -> u32 with 1".to_owned(), false),
            ("replace + with - in f".to_owned(), true),
            ("replace + with * in f".to_owned(), true),
            ("replace - with + in f".to_owned(), false),
            ("replace - with / in f".to_owned(), false),
        ]
    );
}

#[test]
fn nested_functions_are_named_by_what_is_around_them() {
    let code = "mod m { impl S { fn outer(&self) { fn inner() -> bool { a } x = inner(); } } }\n";
    assert_eq!(
        full_names(code, &Options::new()),
        [
            "src/main.rs:1:36: replace m::S::outer with ()",
            "src/main.rs:1:61: delete x = inner(); in m::S::outer",
            "src/main.rs:1:57: replace m::S::outer::inner -> bool with true",
            "src/main.rs:1:57: replace m::S::outer::inner -> bool with false",
        ]
    );
}

/// The names and path attributes of the parts of a reference.
fn parts(mod_ref: &ExternalModRef) -> Vec<(&str, Option<&str>)> {
    mod_ref.parts.iter().map(|part| (part.name.as_str(), part.path_attribute.as_deref())).collect()
}

#[test]
fn modules_in_other_files_are_found() {
    let code = "mod a;\nmod b {\n    #[path = \"other.rs\"]\n    mod c;\n}\n#[path = \"/absolute.rs\"]\nmod d;\n\
                #[cfg(test)]\nmod e;\nmod r#type;\n";
    let source_file = file_for_tests("src/lib.rs", code, "unimportant", true);
    let (mutants, mods) = walk_source(&source_file, &Options::new()).unwrap();
    assert!(mutants.is_empty());
    let found: Vec<_> = mods.iter().map(parts).collect();
    assert_eq!(
        found,
        [vec![("a", None)], vec![("b", None), ("c", Some("other.rs"))], vec![("type", None)]]
    );
    assert!(mods[0].parts[0].source_location == Span::quad(1, 1, 1, 7));
}

fn reference(names: &[(&str, Option<&str>)]) -> ExternalModRef {
    ExternalModRef {
        parts: names
            .iter()
            .map(|(name, path)| ModNamespace {
                name: (*name).to_owned(),
                path_attribute: path.map(str::to_owned),
                source_location: Span::quad(1, 1, 1, 2),
            })
            .collect(),
    }
}

fn candidates(path: &str, is_top: bool, names: &[(&str, Option<&str>)]) -> Vec<String> {
    let source_file = file_for_tests(path, "", "unimportant", is_top);
    mod_source_candidates(&source_file, &reference(names)).iter().map(|path| path.replace('\\', "/")).collect()
}

#[test]
fn where_modules_are_looked_for() {
    assert_eq!(candidates("src/foo.rs", false, &[("bar", None)]), ["src/foo/bar.rs", "src/foo/bar/mod.rs"]);
    assert_eq!(candidates("src/lib.rs", true, &[("bar", None)]), ["src/bar.rs", "src/bar/mod.rs"]);
    assert_eq!(candidates("src/foo/mod.rs", false, &[("bar", None)]), ["src/foo/bar.rs", "src/foo/bar/mod.rs"]);
    assert_eq!(candidates("src/a/parent_file.rs", false, &[("foo", Some("foo_file.rs"))]), ["src/a/foo_file.rs"]);
    assert_eq!(
        candidates("src/a/parent_file.rs", false, &[("bar", None), ("baz", Some("baz_file.rs"))]),
        ["src/a/parent_file/bar/baz_file.rs"]
    );
    assert_eq!(
        candidates("src/lib.rs", true, &[("bar", Some("dir")), ("baz", None)]),
        ["src/dir/baz.rs", "src/dir/baz/mod.rs"]
    );
    assert_eq!(candidates("lib.rs", true, &[("bar", None)]), ["bar.rs", "bar/mod.rs"]);
    assert_eq!(candidates("", true, &[("bar", None)]), Vec::<String>::new());
    // A file that was reached through a path attribute can lie behind `.` and `..`.
    assert_eq!(candidates("src/../foo.rs", false, &[("bar", None)]), ["src/../foo/bar.rs", "src/../foo/bar/mod.rs"]);
    assert_eq!(candidates("src/../mod.rs", false, &[("bar", None)]), ["src/../bar.rs", "src/../bar/mod.rs"]);
    assert_eq!(candidates("src/./foo.rs", true, &[("bar", Some("../b.rs"))]), ["src/../b.rs"]);
    assert_eq!(reference(&[("bar", Some("x.rs"))]).parts[0].get_filesystem_name(), "x.rs");
    assert_eq!(reference(&[("bar", None)]).parts[0].get_filesystem_name(), "bar");
}

#[test]
fn the_first_candidate_that_is_a_file_is_taken() {
    assert_eq!(first_file(&vec![false, true, true]), Some(1));
    assert_eq!(first_file(&vec![false, false]), None);
    assert_eq!(first_file(&vec![]), None);
}

fn walked(path: &str, code: &str, mod_files: &[&str], allowed: bool) -> Option<WalkedFile> {
    let source_file = file_for_tests(path, code, "unimportant", false);
    let (mutants, _) = walk_source(&source_file, &Options::new()).unwrap();
    Some(WalkedFile {
        source_file,
        mutants,
        mod_files: mod_files.iter().map(|path| (*path).to_owned()).collect(),
        allowed,
    })
}

#[test]
fn a_package_is_walked_level_by_level() {
    let package = Package {
        name: "p".to_owned(),
        version: "0.1.0".to_owned(),
        top_sources: vec!["src/lib.rs".to_owned(), "src/main.rs".to_owned(), "/elsewhere.rs".to_owned()],
    };
    let mut walk = PackageWalk::new(&package);
    assert_eq!(
        walk.take_level(),
        [
            ("src/lib.rs".to_owned(), true),
            ("src/main.rs".to_owned(), true),
            ("/elsewhere.rs".to_owned(), true),
        ]
    );
    assert_eq!(walk.take_level(), []);
    walk.add_level(vec![
        walked("src/lib.rs", "fn a() { x }\n", &["src/b.rs"], false),
        walked("src/main.rs", "fn c() { x }\n", &["src/d.rs", "src/e.rs"], true),
        None,
    ]);
    let level = walk.take_level();
    assert_eq!(
        level,
        [("src/b.rs".to_owned(), false), ("src/d.rs".to_owned(), false), ("src/e.rs".to_owned(), false)]
    );
    walk.add_file(walked("src/b.rs", "fn f() { x }\n", &[], true));
    let (mutants, files) = walk.finish();
    let names: Vec<String> = mutants.iter().map(|m| m.name(false)).collect();
    assert_eq!(names, ["src/main.rs: replace c with ()", "src/b.rs: replace f with ()"]);
    let paths: Vec<&str> = files.iter().map(|file| file.tree_relative_slashes()).collect();
    assert_eq!(paths, ["src/main.rs", "src/b.rs"]);

    let mut discovered = Discovered::new();
    discovered.add_package(mutants, files);
    discovered.remove_previously_caught(&vec!["src/main.rs:1:10: replace c with ()".to_owned()]);
    let names: Vec<String> = discovered.mutants.iter().map(|m| m.full_name()).collect();
    assert_eq!(names, ["src/b.rs:1:10: replace f with ()"]);
    assert_eq!(discovered.files.len(), 2);
    discovered.remove_previously_caught(&vec!["replace f with ()".to_owned()]);
    assert_eq!(discovered.mutants.len(), 1);
}

#[test]
fn a_limited_number_of_files_is_in_flight() {
    let mut window = FileWindow::new(3, 2);
    assert!(!window.is_busy());
    assert_eq!(window.start(), Some(0));
    assert_eq!(window.start(), Some(1));
    assert_eq!(window.start(), None);
    window.finish_one();
    assert_eq!(window.start(), Some(2));
    window.finish_one();
    assert_eq!(window.start(), None);
    assert!(window.is_busy());
    window.finish_one();
    assert!(!window.is_busy());
}

#[test]
fn streams_are_printed_with_typical_spacing() {
    let stream: proc_macro2::TokenStream = "Vec < ( u8 , & 'a str ) > :: new ( [ 1 ; 2 ] )".parse().unwrap();
    assert_eq!(stream_to_pretty_string(stream), "Vec<(u8, &'a str)>::new([1; 2])");
}

#[test]
fn a_field_keeps_its_target() {
    let mutants = mutate_source_str("fn f() { g(S { a: 1, 0: 2, ..base }) }\n", &Options::new()).unwrap();
    let fields: Vec<&Mutant> = mutants.iter().filter(|m| m.genre == Genre::StructField).collect();
    assert_eq!(fields.len(), 1);
    assert_eq!(fields[0].original_text(), "a: 1,");
    match fields[0].target.as_ref().unwrap() {
        MutationTarget::StructLiteralField { field_name, struct_name } => {
            assert_eq!(field_name, "a");
            assert_eq!(struct_name, "S");
        }
    }
}

#[test]
fn unary_operators_are_deleted() {
    assert_eq!(mutate_expr("!a"), ["delete !"]);
    assert_eq!(mutate_expr("-a"), ["delete -"]);
    assert_eq!(mutate_expr("*a"), Vec::<String>::new());
}

#[test]
fn every_other_operator_is_left_alone() {
    assert_eq!(mutate_expr("a % b"), ["replace % with /", "replace % with +"]);
    assert_eq!(mutate_expr("a = b"), Vec::<String>::new());
}

const HANG_AVOIDED_BY_ATTR: &str = r#"use std::time::{Duration, Instant};

/// If mutated to return false, the program will spin forever.
#[cfg_attr(test, mutants::skip)]
fn should_stop() -> bool {
    true
}

/// If `should_stop` always returns false, this function will not terminate.
pub fn controlled_loop() {
    let start = Instant::now();
    for i in 1.. {
        println!("loop {}", i);
        if should_stop() {
            break;
        }
        if start.elapsed() > Duration::from_secs(60 * 5) {
            panic!("timed out");
        }
    }
}

#[cfg(test)]
mod test {
    #[test]
    fn controlled_loop_terminates() {
        super::controlled_loop()
    }
}
"#;

#[test]
fn filter_by_attributes() {
    let mutants = mutate_source_str(HANG_AVOIDED_BY_ATTR, &Options::new()).unwrap();
    let descriptions: Vec<String> = mutants.iter().map(Mutant::describe_change).collect();
    assert_eq!(
        descriptions,
        [
            "replace controlled_loop with ()",
            "replace should_stop() with true in controlled_loop",
            "replace start.elapsed() > Duration::from_secs(60 * 5) with true in controlled_loop",
            "replace start.elapsed() > Duration::from_secs(60 * 5) with false in controlled_loop",
            "replace > with == in controlled_loop",
            "replace > with < in controlled_loop",
            "replace > with >= in controlled_loop",
            "replace * with + in controlled_loop",
            "replace * with / in controlled_loop",
        ]
    );
}

/// The mutants of a tree of which one file is tested, one is dead, and one holds a constant.
fn mutants_of_a_partly_tested_tree() -> Vec<Mutant> {
    let covered = "/// Tested.\npub fn add_one(x: i32) -> i32 {\n    x + 1\n}\n\n#[cfg(test)]\nmod tests {\n    use super::*;\n\n    #[test]\n    fn add_one_adds_one() {\n        assert_eq!(add_one(1), 2);\n    }\n}\n";
    let dead = "#[allow(dead_code)]\npub fn never_called(x: i32) -> i32 {\n    x + 1\n}\n";
    let constant = "pub const ANSWER: i32 = 40 + 2;\n\n#[cfg(test)]\nmod tests {\n    #[test]\n    fn answer_is_forty_two() {\n        assert_eq!(super::ANSWER, 42);\n    }\n}\n";
    [("src/covered.rs", covered), ("src/dead.rs", dead), ("src/const_item.rs", constant)]
        .into_iter()
        .flat_map(|(path, code)| walk_source(&file_for_tests(path, code, "partly", false), &Options::new()).unwrap().0)
        .collect()
}

#[test]
fn only_dead_code_is_uncovered() {
    let mutants = mutants_of_a_partly_tested_tree();
    assert_eq!(mutants.len(), 12);
    let export = ExportFile {
        filename: "/build/src/covered.rs".to_owned(),
        segments: vec![
            Segment { line: 2, count: 1, has_count: true },
            Segment { line: 3, count: 1, has_count: true },
        ],
    };
    let coverage = LineCoverage::from_export(&vec![export], &vec!["/build".to_owned()]);
    let uncovered: Vec<String> = mutants
        .iter()
        .filter(|mutant| uncovered_message(Some(&coverage), mutant).is_some())
        .map(|mutant| mutant.name(true))
        .collect();
    assert_eq!(
        uncovered,
        [
            "src/dead.rs:3:5: replace never_called -> i32 with 0",
            "src/dead.rs:3:5: replace never_called -> i32 with 1",
            "src/dead.rs:3:5: replace never_called -> i32 with -1",
            "src/dead.rs:3:7: replace + with - in never_called",
            "src/dead.rs:3:7: replace + with * in never_called",
        ]
    );
    assert!(mutants.iter().all(|mutant| uncovered_message(None, mutant).is_none()));
}

#[test]
fn builds_of_unreachable_code_are_the_same() {
    let code = "#[allow(dead_code)]\nfn never_called(x: i32) -> i32 {\n    x + 1\n}\n";
    let names = full_names(code, &Options::new());
    assert_eq!(names.len(), 5);
    let build = fingerprint_build_artifacts(&vec![("t-1".to_owned(), vec![1, 2, 3])]);
    let mut with_baseline = BuildLog::new(build);
    for name in &names {
        assert_eq!(with_baseline.equivalent_build(build, name).as_deref(), Some("the unmutated baseline"));
    }
    let mut without_baseline = BuildLog::new(None);
    let first = format!("mutant {:?}", names[0]);
    assert_eq!(without_baseline.equivalent_build(build, &names[0]), None);
    for name in &names[1..] {
        assert_eq!(without_baseline.equivalent_build(build, name).as_ref(), Some(&first));
    }
}

/// The attributes of the first item in some code.
fn attributes_of(code: &str) -> Vec<syn::Attribute> {
    match syn::parse_str::<syn::File>(code).unwrap().items.into_iter().next() {
        Some(syn::Item::Fn(item)) => item.attrs,
        _ => panic!("expected a function"),
    }
}

/// The patterns of the attributes of a function.
fn patterns_of(attributes: &str) -> Result<Vec<String>, ((usize, usize), String)> {
    let found = attributes_of(&format!("{attributes}\nfn f() {{}}\n"));
    attrs_exclude_re_patterns(&attrs_of(&found)).map_err(|(start, message)| ((start.line, start.column), message))
}

#[test]
fn patterns_are_read_from_attributes() {
    let inside = "malformed #[mutants::exclude_re(...)] inside cfg_attr: ";
    let direct = "malformed #[mutants::exclude_re(...)] attribute: ";
    let one = "expected exactly one string literal argument to #[mutants::exclude_re]";
    let ok = |patterns: &[&str]| Ok(patterns.iter().map(|p| p.to_string()).collect());
    let err = |column: usize, start: &str, message: &str| Err(((1, column), format!("{start}{message}")));
    for (attributes, expected) in [
        ("", ok(&[])),
        ("#[inline]", ok(&[])),
        ("#[mutants::exclude_re(\"a\\\"b\\n\")]", ok(&["a\"b\n"])),
        ("#[mutants::exclude_re(r#\"a\"b\"#)] #[mutants::exclude_re(\"c\")]", ok(&["a\"b", "c"])),
        ("#[mutants::exclude_re()]", err(1, direct, "unexpected end of input, expected string literal")),
        ("#[mutants::exclude_re(3)]", err(1, direct, "expected string literal")),
        ("#[mutants::exclude_re(b\"a\")]", err(1, direct, "expected string literal")),
        ("#[mutants::exclude_re('a)]", err(1, direct, "expected string literal")),
        ("#[mutants::exclude_re(-\"a\")]", err(1, direct, "expected string literal")),
        ("#[mutants::exclude_re((\"a\"))]", err(1, direct, "expected string literal")),
        ("#[mutants::exclude_re(\"a\", \"b\")]", err(1, direct, one)),
        ("#[mutants::exclude_re(\"a\",)]", err(1, direct, one)),
        (
            "#[mutants::exclude_re]",
            err(1, direct, "expected attribute arguments in parentheses: #[mutants::exclude_re(...)]"),
        ),
        ("#[mutants::exclude_re = \"a\"]", err(1, direct, "expected parentheses: #[mutants::exclude_re(...)]")),
        ("#[cfg_attr(test, mutants::exclude_re(\"a\"))]", ok(&["a"])),
        ("#[cfg_attr(test, ::mutants::exclude_re(\"a\"), mutants::exclude_re(\"b\"),)]", ok(&["a", "b"])),
        ("#[cfg_attr(any(test), mutants::exclude_re(\"a\"))]", ok(&[])),
        ("#[cfg_attr(mutants::exclude_re(\"a\"), any(test), mutants::exclude_re(\"b\"))]", ok(&["a"])),
        ("#[cfg_attr(test, mutants::exclude_re(\"a\") mutants::exclude_re(\"b\"))]", ok(&["a"])),
        ("#[cfg_attr(test, mutants: :exclude_re(\"a\"))]", ok(&[])),
        ("#[cfg_attr(test, mutants::exclude_re::more(\"a\"))]", ok(&[])),
        ("#[cfg_attr()]", ok(&[])),
        ("#[cfg_attr]", ok(&[])),
        ("#[cfg_attr(test, mutants::exclude_re)]", err(18, inside, "unexpected end of input, expected parentheses")),
        ("#[cfg_attr(test, mutants::exclude_re, x)]", err(18, inside, "expected parentheses")),
        ("#[cfg_attr(test, ::mutants::exclude_re[\"a\"])]", err(18, inside, "expected parentheses")),
        (
            "#[cfg_attr(test, mutants::exclude_re())]",
            err(18, inside, "unexpected end of input, expected string literal"),
        ),
        ("#[cfg_attr(test, mutants::exclude_re(1))]", err(18, inside, "expected string literal")),
        ("#[cfg_attr(test, mutants::exclude_re(\"a\" 1))]", err(18, inside, one)),
    ] {
        assert_eq!(patterns_of(attributes), expected, "{attributes}");
    }
}

#[test]
fn attributes_skip_where_test_stands_in_them_or_skip_is_listed() {
    for (attribute, skips) in [
        ("#[cfg(test)]", true),
        ("#[cfg(test,)]", true),
        ("#[cfg(unix, test)]", true),
        ("#[cfg(any(test, unix))]", true),
        ("#[cfg(all(unix, any(test, windows)))]", true),
        ("#[cfg(not(test))]", true),
        ("#[cfg(r#test)]", false),
        ("#[cfg(testing)]", false),
        ("#[cfg(feature = \"test\")]", false),
        ("#[cfg(\"test\")]", false),
        ("#[cfg()]", false),
        ("#[cfg]", false),
        ("#[cfg = \"test\"]", false),
        ("#[cfg[test]]", true),
        ("#[cfg_attr(test, inline)]", false),
    ] {
        let found = attributes_of(&format!("{attribute}\nfn f() {{}}\n"));
        assert_eq!(attrs_excluded(&attrs_of(&found)), skips, "{attribute}");
    }
    for (attribute, skips) in [
        ("#[mutants::skip]", true),
        ("#[cfg_attr(test, mutants::skip)]", true),
        ("#[cfg_attr(test, ::mutants::skip)]", true),
        ("#[cfg_attr(test, mutants::skip::more)]", false),
        ("#[cfg_attr(test, mutants::skip,)]", true),
        ("#[cfg_attr(any(test), mutants::skip)]", false),
        ("#[cfg_attr(feature = \"x\", mutants::skip)]", false),
        ("#[cfg_attr(mutants::skip, any(test))]", false),
        ("#[cfg_attr(unix, cfg_attr(test, mutants::skip))]", false),
        ("#[cfg_attr(test, other::mutants::skip)]", false),
        ("#[cfg_attr(test, mutants, skip)]", false),
        ("#[mutants::other]", false),
        ("#[tokio::test]", true),
        ("#[test_case(1)]", false),
    ] {
        let found = attributes_of(&format!("{attribute}\nfn f() {{}}\n"));
        assert_eq!(attrs_excluded(&attrs_of(&found)), skips, "{attribute}");
    }
}
