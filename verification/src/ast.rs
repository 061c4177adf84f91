//! Statement and expression trees of instruction handlers, and the type
//! inference that looks names up in a scope.
use vstd::prelude::*;
use crate::maps::StrMap;
use crate::types::{TypeRef, TypeRefV, TypeRegistry};

verus! {

/// An expression of a handler body.
#[derive(Debug, PartialEq, Eq)]
pub struct ExpressionNode {
    pub kind: ExpressionKind,
}

/// The shapes of expression the analyses distinguish.
#[derive(Debug, PartialEq, Eq)]
pub enum ExpressionKind {
    /// A path such as `x` or `ctx.accounts` written as one token text.
    Identifier(String),
    Literal(String),
    FieldAccess { object: Box<ExpressionNode>, field: String },
    MethodCall { object: Box<ExpressionNode>, method: String, arguments: Vec<ExpressionNode> },
    BinaryOp { op: String, lhs: Box<ExpressionNode>, rhs: Box<ExpressionNode> },
    Reference { expression: Box<ExpressionNode>, is_mutable: bool },
    Dereference(Box<ExpressionNode>),
    Try(Box<ExpressionNode>),
    Assign { left: Box<ExpressionNode>, right: Box<ExpressionNode> },
    Unresolved,
}

/// A statement of a handler body, with its source line.
#[derive(Debug, PartialEq, Eq)]
pub struct StatementNode {
    pub kind: StatementKind,
    pub line_number: usize,
}

/// The shapes of statement the analyses distinguish.
#[derive(Debug, PartialEq, Eq)]
pub enum StatementKind {
    Let { name: String, initializer: ExpressionNode, type_annotation: Option<TypeRef>, is_mutable: bool },
    Expr(ExpressionNode),
    Semi(ExpressionNode),
    Block(Vec<StatementNode>),
    MacroCall { name: String, raw_args: String },
}

/// A named, typed handler parameter.
#[derive(Debug, PartialEq, Eq)]
pub struct ParameterNode {
    pub name: String,
    pub type_ref: TypeRef,
}

// ---------------------------------------------------------------------------
// Models.

/// Model of an [`ExpressionNode`].
pub enum ExprV {
    Identifier(Seq<char>),
    Literal(Seq<char>),
    FieldAccess { object: Box<ExprV>, field: Seq<char> },
    MethodCall { object: Box<ExprV>, method: Seq<char>, arguments: Seq<ExprV> },
    BinaryOp { op: Seq<char>, lhs: Box<ExprV>, rhs: Box<ExprV> },
    Reference { expression: Box<ExprV>, is_mutable: bool },
    Dereference(Box<ExprV>),
    Try(Box<ExprV>),
    Assign { left: Box<ExprV>, right: Box<ExprV> },
    Unresolved,
}

/// Model of a [`StatementKind`].
pub enum StmtKindV {
    Let { name: Seq<char>, initializer: ExprV, type_annotation: Option<TypeRefV>, is_mutable: bool },
    Expr(ExprV),
    Semi(ExprV),
    Block(Seq<StmtV>),
    MacroCall { name: Seq<char>, raw_args: Seq<char> },
}

/// Model of a [`StatementNode`].
pub struct StmtV {
    pub kind: StmtKindV,
    pub line_number: usize,
}

/// The model of an expression.
pub open spec fn expr_view(e: ExpressionNode) -> ExprV
    decreases e,
{
    match e.kind {
        ExpressionKind::Identifier(s) => ExprV::Identifier(s@),
        ExpressionKind::Literal(s) => ExprV::Literal(s@),
        ExpressionKind::FieldAccess { object, field } => ExprV::FieldAccess { object: Box::new(expr_view(*object)), field: field@ },
        ExpressionKind::MethodCall { object, method, arguments } =>
            ExprV::MethodCall { object: Box::new(expr_view(*object)), method: method@, arguments: exprs_view(arguments@) },
        ExpressionKind::BinaryOp { op, lhs, rhs } =>
            ExprV::BinaryOp { op: op@, lhs: Box::new(expr_view(*lhs)), rhs: Box::new(expr_view(*rhs)) },
        ExpressionKind::Reference { expression, is_mutable } =>
            ExprV::Reference { expression: Box::new(expr_view(*expression)), is_mutable },
        ExpressionKind::Dereference(x) => ExprV::Dereference(Box::new(expr_view(*x))),
        ExpressionKind::Try(x) => ExprV::Try(Box::new(expr_view(*x))),
        ExpressionKind::Assign { left, right } => ExprV::Assign { left: Box::new(expr_view(*left)), right: Box::new(expr_view(*right)) },
        ExpressionKind::Unresolved => ExprV::Unresolved,
    }
}

/// The models of a list of expressions.
pub open spec fn exprs_view(s: Seq<ExpressionNode>) -> Seq<ExprV>
    decreases s,
{
    if s.len() == 0 {
        Seq::empty()
    } else {
        exprs_view(s.subrange(0, s.len() - 1)).push(expr_view(s[s.len() - 1]))
    }
}

/// The model of a statement.
pub open spec fn stmt_view(st: StatementNode) -> StmtV
    decreases st,
{
    StmtV {
        kind: match st.kind {
            StatementKind::Let { name, initializer, type_annotation, is_mutable } => StmtKindV::Let {
                name: name@,
                initializer: expr_view(initializer),
                type_annotation: match type_annotation { Some(t) => Some(t@), None => None },
                is_mutable,
            },
            StatementKind::Expr(x) => StmtKindV::Expr(expr_view(x)),
            StatementKind::Semi(x) => StmtKindV::Semi(expr_view(x)),
            StatementKind::Block(xs) => StmtKindV::Block(stmts_view(xs@)),
            StatementKind::MacroCall { name, raw_args } => StmtKindV::MacroCall { name: name@, raw_args: raw_args@ },
        },
        line_number: st.line_number,
    }
}

/// The models of a list of statements.
pub open spec fn stmts_view(s: Seq<StatementNode>) -> Seq<StmtV>
    decreases s,
{
    if s.len() == 0 {
        Seq::empty()
    } else {
        stmts_view(s.subrange(0, s.len() - 1)).push(stmt_view(s[s.len() - 1]))
    }
}

/// `exprs_view` maps each expression to its model.
pub proof fn lemma_exprs_view(s: Seq<ExpressionNode>)
    ensures
        exprs_view(s).len() == s.len(),
        forall|i: int| 0 <= i < s.len() ==> exprs_view(s)[i] == #[trigger] expr_view(s[i]),
    decreases s.len(),
{
    if s.len() > 0 {
        let sub = s.subrange(0, s.len() - 1);
        lemma_exprs_view(sub);
        assert forall|i: int| 0 <= i < s.len() implies exprs_view(s)[i] == #[trigger] expr_view(s[i]) by {
            if i < s.len() - 1 {
                assert(sub[i] == s[i]);
            }
        }
    }
}

/// `stmts_view` maps each statement to its model.
pub proof fn lemma_stmts_view(s: Seq<StatementNode>)
    ensures
        stmts_view(s).len() == s.len(),
        forall|i: int| 0 <= i < s.len() ==> stmts_view(s)[i] == #[trigger] stmt_view(s[i]),
    decreases s.len(),
{
    if s.len() > 0 {
        let sub = s.subrange(0, s.len() - 1);
        lemma_stmts_view(sub);
        assert forall|i: int| 0 <= i < s.len() implies stmts_view(s)[i] == #[trigger] stmt_view(s[i]) by {
            if i < s.len() - 1 {
                assert(sub[i] == s[i]);
            }
        }
    }
}

impl View for ExpressionNode {
    type V = ExprV;

    open spec fn view(&self) -> ExprV {
        expr_view(*self)
    }
}

impl View for StatementNode {
    type V = StmtV;

    open spec fn view(&self) -> StmtV {
        stmt_view(*self)
    }
}

/// Model of a [`ParameterNode`].
pub struct ParamV {
    pub name: Seq<char>,
    pub type_ref: TypeRefV,
}

impl View for ParameterNode {
    type V = ParamV;

    open spec fn view(&self) -> ParamV {
        ParamV { name: self.name@, type_ref: self.type_ref@ }
    }
}

// ---------------------------------------------------------------------------
// Copies.

impl ExpressionNode {
    /// A leaf expression of the given kind.
    pub fn unresolved() -> (r: ExpressionNode)
        ensures
            r@ == ExprV::Unresolved,
    {
        ExpressionNode { kind: ExpressionKind::Unresolved }
    }

    /// A copy of this expression.
    pub fn copy(&self) -> (r: ExpressionNode)
        ensures
            r@ == self@,
        decreases self,
    {
        let kind = match &self.kind {
            ExpressionKind::Identifier(s) => ExpressionKind::Identifier(s.clone()),
            ExpressionKind::Literal(s) => ExpressionKind::Literal(s.clone()),
            ExpressionKind::FieldAccess { object, field } =>
                ExpressionKind::FieldAccess { object: Box::new(object.copy()), field: field.clone() },
            ExpressionKind::MethodCall { object, method, arguments } => {
                let mut out: Vec<ExpressionNode> = Vec::new();
                let mut i: usize = 0;
                while i < arguments.len()
                    invariant
                        self.kind == (ExpressionKind::MethodCall { object: *object, method: *method, arguments: *arguments }),
                        i <= arguments@.len(),
                        out@.len() == i,
                        forall|j: int| 0 <= j < i ==> #[trigger] out@[j]@ == arguments@[j]@,
                    decreases arguments@.len() - i,
                {
                    proof {
                        assert(decreases_to!(self.kind => self.kind->MethodCall_arguments));
                        assert(decreases_to!(self.kind->MethodCall_arguments => self.kind->MethodCall_arguments@));
                        assert(decreases_to!(self.kind->MethodCall_arguments@ => self.kind->MethodCall_arguments@[i as int]));
                    }
                    out.push(arguments[i].copy());
                    i += 1;
                }
                proof {
                    lemma_exprs_view(out@);
                    lemma_exprs_view(arguments@);
                    assert forall|j: int| 0 <= j < out@.len() implies exprs_view(out@)[j] == exprs_view(arguments@)[j] by {
                        assert(out@[j]@ == arguments@[j]@);
                    }
                    assert(exprs_view(out@) =~= exprs_view(arguments@));
                }
                ExpressionKind::MethodCall { object: Box::new(object.copy()), method: method.clone(), arguments: out }
            },
            ExpressionKind::BinaryOp { op, lhs, rhs } =>
                ExpressionKind::BinaryOp { op: op.clone(), lhs: Box::new(lhs.copy()), rhs: Box::new(rhs.copy()) },
            ExpressionKind::Reference { expression, is_mutable } =>
                ExpressionKind::Reference { expression: Box::new(expression.copy()), is_mutable: *is_mutable },
            ExpressionKind::Dereference(x) => ExpressionKind::Dereference(Box::new(x.copy())),
            ExpressionKind::Try(x) => ExpressionKind::Try(Box::new(x.copy())),
            ExpressionKind::Assign { left, right } =>
                ExpressionKind::Assign { left: Box::new(left.copy()), right: Box::new(right.copy()) },
            ExpressionKind::Unresolved => ExpressionKind::Unresolved,
        };
        ExpressionNode { kind }
    }
}

impl Clone for ExpressionNode {
    fn clone(&self) -> (r: Self)
        ensures
            r@ == self@,
    {
        self.copy()
    }
}

impl StatementNode {
    /// A copy of this statement.
    pub fn copy(&self) -> (r: StatementNode)
        ensures
            r@ == self@,
        decreases self,
    {
        let kind = match &self.kind {
            StatementKind::Let { name, initializer, type_annotation, is_mutable } => {
                let ta = match type_annotation {
                    Some(t) => Some(t.copy()),
                    None => None,
                };
                StatementKind::Let { name: name.clone(), initializer: initializer.copy(), type_annotation: ta, is_mutable: *is_mutable }
            },
            StatementKind::Expr(x) => StatementKind::Expr(x.copy()),
            StatementKind::Semi(x) => StatementKind::Semi(x.copy()),
            StatementKind::Block(xs) => {
                let mut out: Vec<StatementNode> = Vec::new();
                let mut i: usize = 0;
                while i < xs.len()
                    invariant
                        self.kind == StatementKind::Block(*xs),
                        i <= xs@.len(),
                        out@.len() == i,
                        forall|j: int| 0 <= j < i ==> #[trigger] out@[j]@ == xs@[j]@,
                    decreases xs@.len() - i,
                {
                    proof {
                        assert(decreases_to!(self.kind => self.kind->Block_0));
                        assert(decreases_to!(self.kind->Block_0 => self.kind->Block_0@));
                        assert(decreases_to!(self.kind->Block_0@ => self.kind->Block_0@[i as int]));
                    }
                    out.push(xs[i].copy());
                    i += 1;
                }
                proof {
                    lemma_stmts_view(out@);
                    lemma_stmts_view(xs@);
                    assert forall|j: int| 0 <= j < out@.len() implies stmts_view(out@)[j] == stmts_view(xs@)[j] by {
                        assert(out@[j]@ == xs@[j]@);
                    }
                    assert(stmts_view(out@) =~= stmts_view(xs@));
                }
                StatementKind::Block(out)
            },
            StatementKind::MacroCall { name, raw_args } => StatementKind::MacroCall { name: name.clone(), raw_args: raw_args.clone() },
        };
        StatementNode { kind, line_number: self.line_number }
    }
}

impl Clone for StatementNode {
    fn clone(&self) -> (r: Self)
        ensures
            r@ == self@,
    {
        self.copy()
    }
}

impl Clone for ParameterNode {
    fn clone(&self) -> (r: Self)
        ensures
            r@ == self@,
    {
        ParameterNode { name: self.name.clone(), type_ref: self.type_ref.copy() }
    }
}

} // verus!

verus! {

// ---------------------------------------------------------------------------
// Type inference.

/// Why a type could not be inferred.
#[derive(Debug, PartialEq, Eq)]
pub enum InconclusiveReason {
    /// The name has no known type in scope.
    UnresolvedIdentifier(String),
    /// The name's value differs between incoming paths.
    AmbiguousType(String),
    /// The expression is not one whose type is inferred.
    UnsupportedExpression,
}

/// The outcome of inferring an expression's type.
#[derive(Debug, PartialEq, Eq)]
pub enum InferenceResult {
    Inferred(TypeRef),
    Inconclusive(InconclusiveReason),
}

/// Model of an [`InconclusiveReason`].
pub enum ReasonV {
    UnresolvedIdentifier(Seq<char>),
    AmbiguousType(Seq<char>),
    UnsupportedExpression,
}

/// Model of an [`InferenceResult`].
pub enum InferenceV {
    Inferred(TypeRefV),
    Inconclusive(ReasonV),
}

impl View for InferenceResult {
    type V = InferenceV;

    open spec fn view(&self) -> InferenceV {
        match self {
            InferenceResult::Inferred(t) => InferenceV::Inferred(t@),
            InferenceResult::Inconclusive(InconclusiveReason::UnresolvedIdentifier(s)) => InferenceV::Inconclusive(ReasonV::UnresolvedIdentifier(s@)),
            InferenceResult::Inconclusive(InconclusiveReason::AmbiguousType(s)) => InferenceV::Inconclusive(ReasonV::AmbiguousType(s@)),
            InferenceResult::Inconclusive(InconclusiveReason::UnsupportedExpression) => InferenceV::Inconclusive(ReasonV::UnsupportedExpression),
        }
    }
}

/// The known types of the names in scope.
pub struct InferenceScope {
    pub types: StrMap<TypeRef>,
}

impl InferenceScope {
    /// An empty scope.
    pub fn new() -> (r: Self)
        ensures
            r.types.pairs().len() == 0,
    {
        InferenceScope { types: StrMap::new() }
    }

    /// Records that `name` has type `t`.
    pub fn insert(&mut self, name: String, t: TypeRef)
        ensures
            final(self).types.pairs() == crate::maps::assoc_insert(old(self).types.pairs(), name@, t@),
    {
        self.types.insert(name, t);
    }
}

/// The inferred type of `e` with `scope` giving the types of names:
/// a name has its scope type, a reference or dereference has the type of
/// what it refers to, anything else is not inferred.
pub open spec fn infer_spec(scope: Seq<(Seq<char>, TypeRefV)>, e: ExprV) -> InferenceV
    decreases e,
{
    match e {
        ExprV::Identifier(n) => match crate::maps::lookup(scope, n) {
            Some(t) => InferenceV::Inferred(t),
            None => InferenceV::Inconclusive(ReasonV::UnresolvedIdentifier(n)),
        },
        ExprV::Reference { expression, .. } => infer_spec(scope, *expression),
        ExprV::Dereference(x) => infer_spec(scope, *x),
        _ => InferenceV::Inconclusive(ReasonV::UnsupportedExpression),
    }
}

/// Infers expression types from the names in a scope.
pub struct TypeInferenceEngine<'a> {
    pub registry: &'a TypeRegistry,
    pub scope: &'a InferenceScope,
}

impl<'a> TypeInferenceEngine<'a> {
    /// An engine over `registry` and `scope`.
    pub fn new(registry: &'a TypeRegistry, scope: &'a InferenceScope) -> (r: Self)
        ensures
            r.registry == registry,
            r.scope == scope,
    {
        TypeInferenceEngine { registry, scope }
    }

    /// The type of `expr`.
    pub fn infer(&self, expr: &ExpressionNode) -> (r: InferenceResult)
        ensures
            r@ == infer_spec(self.scope.types.pairs(), expr@),
        decreases expr,
    {
        match &expr.kind {
            ExpressionKind::Identifier(n) => match self.scope.types.get(n.as_str()) {
                Some(t) => InferenceResult::Inferred(t.copy()),
                None => InferenceResult::Inconclusive(InconclusiveReason::UnresolvedIdentifier(n.clone())),
            },
            ExpressionKind::Reference { expression, .. } => self.infer(expression),
            ExpressionKind::Dereference(x) => self.infer(x),
            _ => InferenceResult::Inconclusive(InconclusiveReason::UnsupportedExpression),
        }
    }
}

} // verus!
