//! Parsed Rust syntax of handler bodies and attributes, as the analyses read it.
//!
//! Each expression, type and attribute keeps its token text as `quote`
//! prints it (`text`); the analyses read it with spaces removed (`tokens`),
//! which is what reports and literal facts quote.
use vstd::prelude::*;

verus! {

/// A parsed expression and its token text.
#[derive(Debug)]
pub struct SourceExpr {
    pub kind: SourceExprKind,
    pub text: String,
}

impl SourceExpr {
    /// The token text without spaces.
    pub open spec fn tokens(&self) -> Seq<char> {
        crate::guards::no_spaces(self.text@)
    }

    /// The token text without spaces.
    pub fn token_text(&self) -> (r: String)
        ensures
            r@ == self.tokens(),
    {
        crate::syntax::strip_spaces(self.text.clone())
    }
}

impl View for SourceExpr {
    type V = SourceExpr;

    open spec fn view(&self) -> SourceExpr {
        *self
    }
}

/// The expression forms the analyses distinguish.
#[derive(Debug)]
pub enum SourceExprKind {
    Path,
    Lit,
    /// `base.member`; a tuple index member is written as its number.
    Field { base: Box<SourceExpr>, member: String },
    MethodCall { receiver: Box<SourceExpr>, method: String, args: Vec<SourceExpr> },
    /// A binary operation; `op` is the operator's token text (see [`op_tokens`]).
    Binary { op: String, left: Box<SourceExpr>, right: Box<SourceExpr> },
    Reference { expr: Box<SourceExpr>, mutable: bool },
    Try(Box<SourceExpr>),
    Assign { left: Box<SourceExpr>, right: Box<SourceExpr> },
    Cast(Box<SourceExpr>),
    Index { expr: Box<SourceExpr>, index: Box<SourceExpr> },
    Call { func: Box<SourceExpr>, args: Vec<SourceExpr> },
    /// `if cond { then_branch } else else_branch`.
    If { cond: Box<SourceExpr>, then_branch: Vec<SourceStmt>, else_branch: Option<Box<SourceExpr>> },
    Block(Vec<SourceStmt>),
    Return,
    /// A macro invocation used as an expression, by the last segment of its path.
    Macro { name: String },
    /// `loop { .. }`.
    Loop,
    /// `while cond { .. }`.
    While,
    /// `for pat in expr { .. }`.
    ForLoop,
    Match,
    Other,
}

/// A parsed statement and the line it starts on.
#[derive(Debug)]
pub struct SourceStmt {
    pub kind: SourceStmtKind,
    pub line: usize,
}

/// The statement forms the analyses distinguish.
#[derive(Debug)]
pub enum SourceStmtKind {
    /// `let` with a plain identifier pattern (`binding`), or another pattern (`None`).
    Local { binding: Option<String>, mutable: bool, init: Option<SourceExpr> },
    Expr { expr: SourceExpr, semi: bool },
    /// A macro statement: the last segment of its path, and the statement's
    /// token text as `quote` prints it (see [`macro_args_text`]).
    Macro { name: String, raw_args: String },
    Item,
}

/// An operator's token text without spaces.
pub open spec fn op_tokens(op: Seq<char>) -> Seq<char> {
    crate::guards::no_spaces(op)
}

/// The argument text the analyses read for a macro statement whose token
/// text is `raw`: that text followed by ` . mac . tokens`, as quoting the
/// expression `<statement>.mac.tokens` prints it.
pub open spec fn macro_args_text(raw: Seq<char>) -> Seq<char> {
    raw + " . mac . tokens"@
}

/// The argument text of a macro statement whose token text is `raw`.
pub fn macro_args(raw: &String) -> (r: String)
    ensures
        r@ == macro_args_text(raw@),
{
    let mut s = raw.clone();
    crate::text::push_lit(&mut s, " . mac . tokens");
    proof {
        reveal_strlit(" . mac . tokens");
    }
    s
}

/// One entry of an attribute's argument list.
#[derive(Debug)]
pub enum MetaItem {
    /// A bare path; `ident` when it is a single identifier.
    Path { ident: Option<String> },
    /// `path = value`; `ident` when the path is a single identifier.
    NameValue { ident: Option<String>, value: SourceExpr },
    /// `path(...)`.
    List,
}

} // verus!

verus! {

/// A parsed type and its token text.
#[derive(Debug)]
pub struct SourceType {
    pub kind: SourceTypeKind,
    pub text: String,
}

impl SourceType {
    /// The token text without spaces.
    pub open spec fn tokens(&self) -> Seq<char> {
        crate::guards::no_spaces(self.text@)
    }

    /// The token text without spaces.
    pub fn token_text(&self) -> (r: String)
        ensures
            r@ == self.tokens(),
    {
        crate::syntax::strip_spaces(self.text.clone())
    }
}

/// The type forms definitions distinguish.
#[derive(Debug)]
pub enum SourceTypeKind {
    /// A path type: the identifier of its last segment and that segment's
    /// generic arguments in order.
    Path { ident: String, args: Vec<SourceGenericArg> },
    /// `[elem; len]`, with `len` when it is an integer literal that fits a `usize`.
    Array { elem: Box<SourceType>, len: Option<usize> },
    Other,
}

/// A generic argument of a path segment.
#[derive(Debug)]
pub enum SourceGenericArg {
    Type(SourceType),
    /// A lifetime, constant, binding or constraint.
    Other,
}

/// An attribute: its path when that is a single identifier, and its token
/// text.
#[derive(Debug)]
pub struct SourceAttr {
    pub ident: Option<String>,
    pub text: String,
}

impl SourceAttr {
    /// The token text without spaces.
    pub open spec fn tokens(&self) -> Seq<char> {
        crate::guards::no_spaces(self.text@)
    }

    /// The token text without spaces.
    pub fn token_text(&self) -> (r: String)
        ensures
            r@ == self.tokens(),
    {
        crate::syntax::strip_spaces(self.text.clone())
    }
}

/// A field of a struct or enum variant (`ident` is none for tuple fields).
#[derive(Debug)]
pub struct SourceField {
    pub ident: Option<String>,
    pub ty: SourceType,
    pub attrs: Vec<SourceAttr>,
}

/// An enum variant.
#[derive(Debug)]
pub struct SourceVariant {
    pub name: String,
    pub fields: Vec<SourceField>,
}

/// A typed function parameter with a plain name.
#[derive(Debug)]
pub struct SourceFnParam {
    pub name: String,
    pub ty: SourceType,
}

/// The tree of a `use` item.
#[derive(Debug)]
pub enum SourceUseTree {
    Path { ident: String, tree: Box<SourceUseTree> },
    Name(String),
    /// `name as alias`, by the original name.
    Rename(String),
    Glob,
    Group(Vec<SourceUseTree>),
}

/// An item of a source file.
#[derive(Debug)]
pub enum SourceItem {
    Struct { name: String, attrs: Vec<SourceAttr>, fields: Vec<SourceField> },
    Enum { name: String, variants: Vec<SourceVariant> },
    TypeAlias { name: String, ty: SourceType },
    Use(SourceUseTree),
    /// A module with its attributes and, when written inline, its items.
    Mod { name: String, attrs: Vec<SourceAttr>, items: Option<Vec<SourceItem>> },
    /// A function: its parameters (a typed parameter with a plain name, else
    /// none) and its body.
    Fn { name: String, params: Vec<Option<SourceFnParam>>, stmts: Vec<SourceStmt> },
    /// An `impl` block, by its functions.
    Impl(Vec<SourceItem>),
    Other,
}

/// A parsed source file: its items in order.
#[derive(Debug)]
pub struct SourceFile {
    pub items: Vec<SourceItem>,
}

} // verus!
