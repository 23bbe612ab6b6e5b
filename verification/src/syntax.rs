//! The syntax tree of a source file, as far as finding mutants depends on it.
//!
//! The tree holds a node for every construct that matters. The children of a node are the nodes within it, in the order in
//! which they stand in the source; constructs that do not matter have no node of their own, and what is in them belongs to
//! the construct around them.

use vstd::prelude::*;
use crate::span::{LineColumn, Span};
use crate::tokens::TokenTree;
use crate::types::{Declaration, Path, ReturnType};

verus! {

/// What stands behind the name of an attribute such as `#[path = "foo.rs"]`.
pub enum NameValue {
    /// The attribute is not of this form.
    Absent,
    /// A string literal.
    Text(String),
    /// Any other value.
    Other,
}

/// A token among the arguments of an attribute, and where it starts.
pub struct ArgToken {
    pub start: LineColumn,
    pub tree: TokenTree,
}

/// An attribute.
pub struct Attr {
    pub path: Path,
    /// Where the attribute starts.
    pub start: LineColumn,
    pub value: NameValue,
    /// What stands in its parentheses, or what is wrong if there are none.
    pub args: Result<Vec<ArgToken>, String>,
}

/// Where a function stands.
#[derive(Clone, Copy, Debug, PartialEq, Eq, Structural)]
pub enum FnKind {
    /// At the top level, or within another function.
    Free,
    /// Within an `impl`.
    Impl,
    /// Within a trait.
    Trait,
}

/// A statement at the top of a function body.
pub struct BodyStatement {
    pub span: Span,
    /// Whether it is a `return` expression.
    pub is_return: bool,
}

/// The body of a function.
pub struct FnBody {
    pub statements: Vec<BodyStatement>,
    /// The tokens of the body, with its braces.
    pub tokens: Vec<TokenTree>,
}

/// A function.
pub struct FnNode {
    pub kind: FnKind,
    pub attrs: Vec<Attr>,
    pub is_unsafe: bool,
    pub is_const: bool,
    pub name: String,
    pub output: ReturnType,
    /// The tokens of the return type, with its arrow; none where no return type is written.
    pub output_tokens: Vec<TokenTree>,
    /// The whole function.
    pub span: Span,
    /// The body; a function in a trait may have none.
    pub body: Option<FnBody>,
}

/// An `impl`.
pub struct ImplNode {
    pub attrs: Vec<Attr>,
    pub self_type: Vec<TokenTree>,
    /// The trait that is implemented, with its tokens.
    pub trait_path: Option<(Path, Vec<TokenTree>)>,
}

/// A `mod foo { ... }` or `mod foo;`.
pub struct ModNode {
    pub attrs: Vec<Attr>,
    pub name: String,
    pub span: Span,
    /// Whether its content stands here in braces.
    pub is_inline: bool,
}

/// A binary operator.
#[derive(Clone, Copy, Debug, PartialEq, Eq, Structural)]
pub enum BinaryOp {
    Eq,
    Ne,
    And,
    Or,
    Lt,
    Gt,
    Le,
    Ge,
    Add,
    AddAssign,
    Sub,
    SubAssign,
    Mul,
    MulAssign,
    Div,
    DivAssign,
    Rem,
    RemAssign,
    Shl,
    ShlAssign,
    Shr,
    ShrAssign,
    BitAnd,
    BitAndAssign,
    BitOr,
    BitOrAssign,
    BitXor,
    BitXorAssign,
    Other,
}

/// A unary operator.
#[derive(Clone, Copy, Debug, PartialEq, Eq, Structural)]
pub enum UnaryOp {
    Not,
    Neg,
    Deref,
    Other,
}

/// What the condition of an `if` or `while` is.
#[derive(Clone, Copy, Debug, PartialEq, Eq, Structural)]
pub enum Condition {
    /// A `let` pattern.
    Let,
    /// A literal.
    Literal,
    /// Any other expression.
    Expression,
}

/// An arm of a `match`.
pub struct Arm {
    /// Whether the pattern is `_`.
    pub is_wild: bool,
    pub pattern: Vec<TokenTree>,
    pub span: Span,
    /// The guard expression, if there is one.
    pub guard: Option<Span>,
}

/// A field in a struct literal.
pub struct FieldNode {
    /// The name, unless the field is numbered.
    pub name: Option<String>,
    pub span: Span,
    /// The end of the comma behind the field, if there is one.
    pub comma_end: Option<LineColumn>,
}

/// An expression that names a place.
pub enum Place {
    /// A bare name.
    Name(String),
    /// A field, an element or the target of another place, or that place in parentheses.
    Part(Box<Place>),
    /// Anything else.
    Other,
}

/// What the expression of a statement is.
pub enum StatementForm {
    MethodCall {
        receiver: Place,
        method: String,
    },
    Assign {
        target: Place,
    },
    Call {
        /// What is called, if it is a path.
        callee: Option<Path>,
    },
    Other,
}

/// A statement.
pub enum StatementKind {
    /// A `let`: the name that it binds, if it binds a bare name without a type.
    Local {
        untyped_name: Option<String>,
    },
    /// An expression, and the end of the semicolon behind it, if there is one.
    Expr {
        form: StatementForm,
        span: Span,
        semi_end: Option<LineColumn>,
    },
    /// An item or a macro.
    Other,
}

/// What a node is.
pub enum NodeKind {
    Call {
        attrs: Vec<Attr>,
        /// What is called, if it is a path.
        callee: Option<Path>,
    },
    MethodCall {
        attrs: Vec<Attr>,
        method: String,
    },
    Fn(FnNode),
    /// A `const` or `static` item.
    Const {
        attrs: Vec<Attr>,
    },
    /// An array type or a const generic argument.
    ConstScope,
    Impl(ImplNode),
    Trait {
        attrs: Vec<Attr>,
        name: String,
    },
    Mod(ModNode),
    Binary {
        attrs: Vec<Attr>,
        op: BinaryOp,
        op_span: Span,
    },
    Unary {
        attrs: Vec<Attr>,
        unary_op: UnaryOp,
        op_span: Span,
    },
    If {
        attrs: Vec<Attr>,
        condition: Condition,
        condition_span: Span,
        /// The position among the children of the block that is run if the condition holds.
        then_at: usize,
    },
    While {
        attrs: Vec<Attr>,
        condition: Condition,
        condition_span: Span,
    },
    Match {
        attrs: Vec<Attr>,
        arms: Vec<Arm>,
    },
    /// A `true` or `false` expression.
    BoolLiteral {
        literal: bool,
        span: Span,
    },
    Struct {
        attrs: Vec<Attr>,
        /// The tokens of the struct's path.
        struct_path: Vec<TokenTree>,
        /// Whether there is a base expression such as `..Default::default()`.
        has_base: bool,
        fields: Vec<FieldNode>,
    },
    /// A block: its children are its statements.
    Block,
    Statement(StatementKind),
    /// A closure or an `async` block.
    Closure,
    Return {
        /// The span and the tokens of what is returned.
        value: Option<(Span, Vec<TokenTree>)>,
    },
    /// A `break` or `continue`.
    LoopExit,
    /// What stands inside an attribute or a pattern, and is never mutated.
    Hidden,
}

/// A node of the tree.
pub struct Node {
    pub kind: NodeKind,
    pub children: Vec<Node>,
}

/// A source file.
pub struct FileNode {
    pub attrs: Vec<Attr>,
    /// The enums that the file declares.
    pub declarations: Vec<Declaration>,
    pub children: Vec<Node>,
}

} // verus!
