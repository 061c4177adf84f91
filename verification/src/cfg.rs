//! Control-flow graphs of handler bodies, built from parsed statements.
use vstd::prelude::*;
use crate::maps::{IdMap, has_key, key_index, lookup};
use crate::ast::{ExpressionNode, ExpressionKind, StatementNode, StatementKind, ExprV, StmtV, StmtKindV};
use crate::source::{SourceExpr, SourceExprKind, SourceStmt, SourceStmtKind};
use crate::ssa::{NodeSSAInfo, InfoV};

verus! {

/// Constructs the graph does not model precisely.
#[derive(Debug, Clone, Copy, PartialEq, Eq, Structural)]
pub enum CFGBoundaryWarning {
    LoopDetected,
    MatchExpression,
    TraitDispatch,
    RecursiveFunction,
}

/// A basic block: straight-line statements.
#[derive(Debug)]
pub struct CFGNode {
    pub id: usize,
    pub statements: Vec<StatementNode>,
}

/// Model of a [`CFGNode`].
pub struct NodeV {
    pub id: usize,
    pub statements: Seq<StmtV>,
}

/// The models of a list of statements.
pub open spec fn stmt_list_view(v: Seq<StatementNode>) -> Seq<StmtV> {
    Seq::new(v.len(), |i: int| v[i]@)
}

impl View for CFGNode {
    type V = NodeV;

    open spec fn view(&self) -> NodeV {
        NodeV { id: self.id, statements: stmt_list_view(self.statements@) }
    }
}

/// A control-flow edge, with the branch condition that selects it, if any.
#[derive(Debug)]
pub struct CFGEdge {
    pub from: usize,
    pub to: usize,
    pub condition: Option<ExpressionNode>,
    pub is_early_return: bool,
}

/// Model of a [`CFGEdge`].
pub struct EdgeV {
    pub from: usize,
    pub to: usize,
    pub condition: Option<ExprV>,
    pub is_early_return: bool,
}

impl View for CFGEdge {
    type V = EdgeV;

    open spec fn view(&self) -> EdgeV {
        EdgeV {
            from: self.from,
            to: self.to,
            condition: match self.condition { Some(c) => Some(c@), None => None },
            is_early_return: self.is_early_return,
        }
    }
}

/// The control-flow graph of one handler body, with the SSA states once computed.
#[derive(Debug)]
pub struct ControlFlowGraph {
    pub nodes: IdMap<CFGNode>,
    pub edges: Vec<CFGEdge>,
    pub entry_node: usize,
    pub exit_nodes: Vec<usize>,
    pub boundary_warnings: Vec<CFGBoundaryWarning>,
    pub ssa_states: IdMap<NodeSSAInfo>,
}

/// Model of a [`ControlFlowGraph`].
pub struct GraphV {
    pub nodes: Seq<(usize, NodeV)>,
    pub edges: Seq<EdgeV>,
    pub entry: usize,
    pub exits: Seq<usize>,
    pub warnings: Seq<CFGBoundaryWarning>,
    pub ssa: Seq<(usize, InfoV)>,
}

/// Every node with SSA states has a state before each of its statements.
pub open spec fn ssa_covers(g: GraphV) -> bool {
    forall|a: int| 0 <= a < g.nodes.len() ==> match lookup(g.ssa, #[trigger] g.nodes[a].0) {
        Some(info) => g.nodes[a].1.statements.len() <= info.stmts.len() + 1,
        None => true,
    }
}

/// The models of a list of edges.
pub open spec fn edges_view(v: Seq<CFGEdge>) -> Seq<EdgeV> {
    Seq::new(v.len(), |i: int| v[i]@)
}

impl View for ControlFlowGraph {
    type V = GraphV;

    open spec fn view(&self) -> GraphV {
        GraphV {
            nodes: self.nodes.pairs(),
            edges: edges_view(self.edges@),
            entry: self.entry_node,
            exits: self.exit_nodes@,
            warnings: self.boundary_warnings@,
            ssa: self.ssa_states.pairs(),
        }
    }
}

// ---------------------------------------------------------------------------
// From parsed syntax to statement trees.

/// The operator text kept for a binary expression: comparison operators as
/// written, any other as the expression's text followed by `.op`.
pub open spec fn conv_op(op: Seq<char>, text: Seq<char>) -> Seq<char> {
    if op == "=="@ || op == "!="@ || op == "<"@ || op == ">"@ {
        op
    } else {
        text + ".op"@
    }
}

/// The expression tree of a parsed expression.
pub open spec fn conv_expr(e: SourceExpr) -> ExprV
    decreases e,
{
    match e.kind {
        SourceExprKind::Path => ExprV::Identifier(e.tokens()),
        SourceExprKind::Lit => ExprV::Literal(e.tokens()),
        SourceExprKind::Field { base, member } => ExprV::FieldAccess { object: Box::new(conv_expr(*base)), field: member@ },
        SourceExprKind::MethodCall { receiver, method, args } =>
            ExprV::MethodCall { object: Box::new(conv_expr(*receiver)), method: method@, arguments: conv_exprs(args@) },
        SourceExprKind::Binary { op, left, right } =>
            ExprV::BinaryOp { op: conv_op(crate::source::op_tokens(op@), e.tokens()), lhs: Box::new(conv_expr(*left)), rhs: Box::new(conv_expr(*right)) },
        SourceExprKind::Reference { expr, mutable } => ExprV::Reference { expression: Box::new(conv_expr(*expr)), is_mutable: mutable },
        SourceExprKind::Try(x) => ExprV::Try(Box::new(conv_expr(*x))),
        SourceExprKind::Assign { left, right } => ExprV::Assign { left: Box::new(conv_expr(*left)), right: Box::new(conv_expr(*right)) },
        _ => ExprV::Unresolved,
    }
}

/// The expression trees of a list of parsed expressions.
pub open spec fn conv_exprs(s: Seq<SourceExpr>) -> Seq<ExprV>
    decreases s,
{
    if s.len() == 0 {
        Seq::empty()
    } else {
        conv_exprs(s.subrange(0, s.len() - 1)).push(conv_expr(s[s.len() - 1]))
    }
}

/// The statement tree of a parsed statement.
pub open spec fn conv_stmt(s: SourceStmt) -> StmtV
    decreases s,
{
    StmtV {
        kind: match s.kind {
            SourceStmtKind::Local { binding, mutable, init } => StmtKindV::Let {
                name: match binding { Some(n) => n@, None => "destructured"@ },
                initializer: match init { Some(x) => conv_expr(x), None => ExprV::Unresolved },
                type_annotation: None,
                is_mutable: binding is Some && mutable,
            },
            SourceStmtKind::Expr { expr, semi } => match expr.kind {
                SourceExprKind::Block(ss) => StmtKindV::Block(conv_stmts(ss@)),
                _ => if semi { StmtKindV::Semi(conv_expr(expr)) } else { StmtKindV::Expr(conv_expr(expr)) },
            },
            SourceStmtKind::Macro { name, raw_args } =>
                StmtKindV::MacroCall { name: name@, raw_args: crate::source::macro_args_text(raw_args@) },
            SourceStmtKind::Item => StmtKindV::Expr(ExprV::Unresolved),
        },
        line_number: s.line,
    }
}

/// The statement trees of a list of parsed statements.
pub open spec fn conv_stmts(s: Seq<SourceStmt>) -> Seq<StmtV>
    decreases s,
{
    if s.len() == 0 {
        Seq::empty()
    } else {
        conv_stmts(s.subrange(0, s.len() - 1)).push(conv_stmt(s[s.len() - 1]))
    }
}

proof fn lemma_conv_exprs(s: Seq<SourceExpr>)
    ensures
        conv_exprs(s).len() == s.len(),
        forall|i: int| 0 <= i < s.len() ==> conv_exprs(s)[i] == #[trigger] conv_expr(s[i]),
    decreases s.len(),
{
    if s.len() > 0 {
        let sub = s.subrange(0, s.len() - 1);
        lemma_conv_exprs(sub);
        assert forall|i: int| 0 <= i < s.len() implies conv_exprs(s)[i] == #[trigger] conv_expr(s[i]) by {
            if i < s.len() - 1 {
                assert(sub[i] == s[i]);
            }
        }
    }
}

proof fn lemma_conv_stmts(s: Seq<SourceStmt>)
    ensures
        conv_stmts(s).len() == s.len(),
        forall|i: int| 0 <= i < s.len() ==> conv_stmts(s)[i] == #[trigger] conv_stmt(s[i]),
    decreases s.len(),
{
    if s.len() > 0 {
        let sub = s.subrange(0, s.len() - 1);
        lemma_conv_stmts(sub);
        assert forall|i: int| 0 <= i < s.len() implies conv_stmts(s)[i] == #[trigger] conv_stmt(s[i]) by {
            if i < s.len() - 1 {
                assert(sub[i] == s[i]);
            }
        }
    }
}

/// The expression tree of a parsed expression.
pub fn convert_expr(e: &SourceExpr) -> (r: ExpressionNode)
    ensures
        r@ == conv_expr(*e),
    decreases e,
{
    let kind = match &e.kind {
        SourceExprKind::Path => ExpressionKind::Identifier(e.token_text()),
        SourceExprKind::Lit => ExpressionKind::Literal(e.token_text()),
        SourceExprKind::Field { base, member } =>
            ExpressionKind::FieldAccess { object: Box::new(convert_expr(base)), field: member.clone() },
        SourceExprKind::MethodCall { receiver, method, args } => {
            let mut out: Vec<ExpressionNode> = Vec::new();
            let mut i: usize = 0;
            while i < args.len()
                invariant
                    e.kind == (SourceExprKind::MethodCall { receiver: *receiver, method: *method, args: *args }),
                    i <= args@.len(),
                    out@.len() == i,
                    forall|j: int| 0 <= j < i ==> #[trigger] out@[j]@ == conv_expr(args@[j]),
                decreases args@.len() - i,
            {
                proof {
                    assert(decreases_to!(e.kind => e.kind->MethodCall_args));
                    assert(decreases_to!(e.kind->MethodCall_args => e.kind->MethodCall_args@));
                    assert(decreases_to!(e.kind->MethodCall_args@ => e.kind->MethodCall_args@[i as int]));
                }
                out.push(convert_expr(&args[i]));
                i += 1;
            }
            proof {
                crate::ast::lemma_exprs_view(out@);
                lemma_conv_exprs(args@);
                assert forall|j: int| 0 <= j < out@.len() implies crate::ast::exprs_view(out@)[j] == conv_exprs(args@)[j] by {
                    assert(out@[j]@ == conv_expr(args@[j]));
                }
                assert(crate::ast::exprs_view(out@) =~= conv_exprs(args@));
            }
            ExpressionKind::MethodCall { object: Box::new(convert_expr(receiver)), method: method.clone(), arguments: out }
        },
        SourceExprKind::Binary { op, left, right } => {
            let op = crate::syntax::strip_spaces(op.clone());
            let o = if crate::text::str_eq(op.as_str(), "==") || crate::text::str_eq(op.as_str(), "!=")
                || crate::text::str_eq(op.as_str(), "<") || crate::text::str_eq(op.as_str(), ">") {
                op
            } else {
                let mut s = e.token_text();
                crate::text::push_lit(&mut s, ".op");
                s
            };
            proof {
                reveal_strlit("==");
                reveal_strlit("!=");
                reveal_strlit("<");
                reveal_strlit(">");
            }
            ExpressionKind::BinaryOp { op: o, lhs: Box::new(convert_expr(left)), rhs: Box::new(convert_expr(right)) }
        },
        SourceExprKind::Reference { expr, mutable } =>
            ExpressionKind::Reference { expression: Box::new(convert_expr(expr)), is_mutable: *mutable },
        SourceExprKind::Try(x) => ExpressionKind::Try(Box::new(convert_expr(x))),
        SourceExprKind::Assign { left, right } =>
            ExpressionKind::Assign { left: Box::new(convert_expr(left)), right: Box::new(convert_expr(right)) },
        _ => ExpressionKind::Unresolved,
    };
    ExpressionNode { kind }
}

/// The statement tree of a parsed statement.
pub fn convert_stmt(s: &SourceStmt) -> (r: StatementNode)
    ensures
        r@ == conv_stmt(*s),
    decreases s,
{
    let kind = match &s.kind {
        SourceStmtKind::Local { binding, mutable, init } => {
            let n = match binding {
                Some(n) => n.clone(),
                None => crate::text::lit("destructured"),
            };
            let initializer = match init {
                Some(x) => convert_expr(x),
                None => ExpressionNode::unresolved(),
            };
            StatementKind::Let { name: n, initializer, type_annotation: None, is_mutable: binding.is_some() && *mutable }
        },
        SourceStmtKind::Expr { expr, semi } => match &expr.kind {
            SourceExprKind::Block(ss) => {
                let mut out: Vec<StatementNode> = Vec::new();
                let mut i: usize = 0;
                while i < ss.len()
                    invariant
                        s.kind == (SourceStmtKind::Expr { expr: *expr, semi: *semi }),
                        expr.kind == SourceExprKind::Block(*ss),
                        i <= ss@.len(),
                        out@.len() == i,
                        forall|j: int| 0 <= j < i ==> #[trigger] out@[j]@ == conv_stmt(ss@[j]),
                    decreases ss@.len() - i,
                {
                    proof {
                        assert(decreases_to!(s.kind => s.kind->Expr_expr));
                        assert(decreases_to!(s.kind->Expr_expr => s.kind->Expr_expr.kind));
                        assert(decreases_to!(s.kind->Expr_expr.kind => s.kind->Expr_expr.kind->Block_0));
                        assert(decreases_to!(s.kind->Expr_expr.kind->Block_0 => s.kind->Expr_expr.kind->Block_0@));
                        assert(decreases_to!(s.kind->Expr_expr.kind->Block_0@ => s.kind->Expr_expr.kind->Block_0@[i as int]));
                    }
                    out.push(convert_stmt(&ss[i]));
                    i += 1;
                }
                proof {
                    crate::ast::lemma_stmts_view(out@);
                    lemma_conv_stmts(ss@);
                    assert forall|j: int| 0 <= j < out@.len() implies crate::ast::stmts_view(out@)[j] == conv_stmts(ss@)[j] by {
                        assert(out@[j]@ == conv_stmt(ss@[j]));
                    }
                    assert(crate::ast::stmts_view(out@) =~= conv_stmts(ss@));
                }
                StatementKind::Block(out)
            },
            _ => if *semi {
                StatementKind::Semi(convert_expr(expr))
            } else {
                StatementKind::Expr(convert_expr(expr))
            },
        },
        SourceStmtKind::Macro { name, raw_args } =>
            StatementKind::MacroCall { name: name.clone(), raw_args: crate::source::macro_args(raw_args) },
        SourceStmtKind::Item => StatementKind::Expr(ExpressionNode::unresolved()),
    };
    StatementNode { kind, line_number: s.line }
}

} // verus!

verus! {

// ---------------------------------------------------------------------------
// Building the graph: the model.

/// The builder's state: the graph so far and the next unused node id.
pub struct BuildV {
    pub g: GraphV,
    pub next: usize,
}

/// A fresh id, or none when ids are exhausted.
pub open spec fn new_id(b: BuildV) -> Option<(BuildV, usize)> {
    if b.next == usize::MAX {
        None
    } else {
        Some((BuildV { g: b.g, next: (b.next + 1) as usize }, b.next))
    }
}

/// `b` with an empty node `id` added unless it exists.
pub open spec fn with_node(b: BuildV, id: usize) -> BuildV {
    if has_key(b.g.nodes, id) {
        b
    } else {
        BuildV { g: GraphV { nodes: b.g.nodes.push((id, NodeV { id, statements: Seq::empty() })), ..b.g }, next: b.next }
    }
}

/// `b` with an edge appended.
pub open spec fn with_edge(b: BuildV, from: usize, to: usize, cond: Option<ExprV>, early: bool) -> BuildV {
    BuildV { g: GraphV { edges: b.g.edges.push(EdgeV { from, to, condition: cond, is_early_return: early }), ..b.g }, next: b.next }
}

/// `b` with statement `st` appended to node `n` (unchanged when there is no such node).
pub open spec fn with_stmt(b: BuildV, n: usize, st: StmtV) -> BuildV {
    if has_key(b.g.nodes, n) {
        let k = key_index(b.g.nodes, n);
        let nd = b.g.nodes[k].1;
        BuildV { g: GraphV { nodes: b.g.nodes.update(k, (n, NodeV { id: nd.id, statements: nd.statements.push(st) })), ..b.g }, next: b.next }
    } else {
        b
    }
}

/// `b` with `n` recorded as an exit unless it is one.
pub open spec fn with_exit(b: BuildV, n: usize) -> BuildV {
    if b.g.exits.contains(n) {
        b
    } else {
        BuildV { g: GraphV { exits: b.g.exits.push(n), ..b.g }, next: b.next }
    }
}

/// `b` with warning `w` recorded unless it is.
pub open spec fn with_warning_once(b: BuildV, w: CFGBoundaryWarning) -> BuildV {
    if b.g.warnings.contains(w) {
        b
    } else {
        BuildV { g: GraphV { warnings: b.g.warnings.push(w), ..b.g }, next: b.next }
    }
}

/// The warnings an expression statement raises: loops and matches once each,
/// a `check_recursive` call every time.
pub open spec fn scan_expr(b: BuildV, e: SourceExpr) -> BuildV {
    match e.kind {
        SourceExprKind::Loop | SourceExprKind::While | SourceExprKind::ForLoop =>
            with_warning_once(b, CFGBoundaryWarning::LoopDetected),
        SourceExprKind::Match => with_warning_once(b, CFGBoundaryWarning::MatchExpression),
        SourceExprKind::MethodCall { method, .. } => if method@ == "check_recursive"@ {
            BuildV { g: GraphV { warnings: b.g.warnings.push(CFGBoundaryWarning::RecursiveFunction), ..b.g }, next: b.next }
        } else {
            b
        },
        _ => b,
    }
}

/// The warnings a statement raises.
pub open spec fn scan_stmt(b: BuildV, s: SourceStmt) -> BuildV {
    match s.kind {
        SourceStmtKind::Local { init: Some(x), .. } => scan_expr(b, x),
        SourceStmtKind::Expr { expr, .. } => scan_expr(b, expr),
        _ => b,
    }
}

/// Names of macros that end a block (panics and assertions).
pub open spec fn terminating_macro(n: Seq<char>) -> bool {
    n == "panic"@ || n == "assert"@ || n == "assert_eq"@ || n == "assert_ne"@ || n == "unreachable"@
}

/// A `return` or a terminating macro.
pub open spec fn is_term_expr(e: SourceExpr) -> bool {
    match e.kind {
        SourceExprKind::Return => true,
        SourceExprKind::Macro { name } => terminating_macro(name@),
        _ => false,
    }
}

/// A statement after which the block's remaining statements never run.
pub open spec fn is_term_stmt(s: SourceStmt) -> bool {
    match s.kind {
        SourceStmtKind::Expr { expr, .. } => is_term_expr(expr),
        SourceStmtKind::Macro { name, .. } => terminating_macro(name@),
        _ => false,
    }
}

/// One `?` checkpoint at node `cur`: an early-return exit node and a node
/// where execution continues.
pub open spec fn split_once(b: BuildV, cur: usize) -> Option<(BuildV, usize)> {
    match new_id(b) {
        None => None,
        Some((b1, er)) => match new_id(b1) {
            None => None,
            Some((b2, sq)) => {
                let b3 = with_node(with_node(b2, er), sq);
                let b4 = with_edge(with_edge(b3, cur, er, None, true), cur, sq, None, false);
                Some((BuildV { g: GraphV { exits: b4.g.exits.push(er), ..b4.g }, next: b4.next }, sq))
            },
        },
    }
}

/// One checkpoint per `?` operator inside `e`, innermost first.
pub open spec fn split_tries(b: BuildV, e: SourceExpr, cur: usize) -> Option<(BuildV, usize)>
    decreases e, 0nat,
{
    match e.kind {
        SourceExprKind::Try(x) => match split_tries(b, *x, cur) {
            None => None,
            Some((b1, c1)) => split_once(b1, c1),
        },
        SourceExprKind::Field { base, .. } => split_tries(b, *base, cur),
        SourceExprKind::MethodCall { receiver, args, .. } => match split_tries(b, *receiver, cur) {
            None => None,
            Some((b1, c1)) => split_tries_all(b1, args@, 0, c1),
        },
        SourceExprKind::Binary { left, right, .. } => match split_tries(b, *left, cur) {
            None => None,
            Some((b1, c1)) => split_tries(b1, *right, c1),
        },
        SourceExprKind::Reference { expr, .. } => split_tries(b, *expr, cur),
        SourceExprKind::Cast(x) => split_tries(b, *x, cur),
        SourceExprKind::Index { expr, index } => match split_tries(b, *expr, cur) {
            None => None,
            Some((b1, c1)) => split_tries(b1, *index, c1),
        },
        SourceExprKind::Call { func, args } => match split_tries(b, *func, cur) {
            None => None,
            Some((b1, c1)) => split_tries_all(b1, args@, 0, c1),
        },
        _ => Some((b, cur)),
    }
}

/// Checkpoints for the `?` operators of `s[i..]`, left to right.
pub open spec fn split_tries_all(b: BuildV, s: Seq<SourceExpr>, i: int, cur: usize) -> Option<(BuildV, usize)>
    decreases s, s.len() - i,
{
    if i < 0 || i >= s.len() {
        Some((b, cur))
    } else {
        match split_tries(b, s[i], cur) {
            None => None,
            Some((b1, c1)) => split_tries_all(b1, s, i + 1, c1),
        }
    }
}

/// Compiles `ss[i..]` starting at node `cur`; the node where the block ends.
pub open spec fn compile_from(b: BuildV, ss: Seq<SourceStmt>, i: int, cur: usize) -> Option<(BuildV, usize)>
    decreases ss, ss.len() - i,
{
    if i < 0 || i >= ss.len() {
        Some((b, cur))
    } else {
        let st = ss[i];
        let b1 = scan_stmt(b, st);
        if is_term_stmt(st) {
            Some((with_exit(with_stmt(b1, cur, conv_stmt(st)), cur), cur))
        } else {
            let step = match st.kind {
                SourceStmtKind::Expr { expr, .. } => match expr.kind {
                    SourceExprKind::If { .. } => compile_if(b1, expr, cur),
                    _ => match split_tries(b1, expr, cur) {
                        None => None,
                        Some((b2, c2)) => Some((with_stmt(b2, c2, conv_stmt(st)), c2)),
                    },
                },
                SourceStmtKind::Local { init: Some(x), .. } => match split_tries(b1, x, cur) {
                    None => None,
                    Some((b2, c2)) => Some((with_stmt(b2, c2, conv_stmt(st)), c2)),
                },
                _ => Some((with_stmt(b1, cur, conv_stmt(st)), cur)),
            };
            match step {
                None => None,
                Some((b2, c2)) => compile_from(b2, ss, i + 1, c2),
            }
        }
    }
}

/// Compiles an `if` at node `cur`: a then node, an else node and a merge
/// node; the branch ends that do not exit flow into the merge node.
pub open spec fn compile_if(b: BuildV, e: SourceExpr, cur: usize) -> Option<(BuildV, usize)>
    decreases e, 0nat,
{
    match e.kind {
        SourceExprKind::If { cond, then_branch, else_branch } => match new_id(b) {
            None => None,
            Some((b1, tn)) => match new_id(b1) {
                None => None,
                Some((b2, en)) => match new_id(b2) {
                    None => None,
                    Some((b3, mn)) => {
                        let b4 = with_node(with_node(with_node(b3, tn), en), mn);
                        let b5 = with_edge(with_edge(b4, cur, tn, Some(conv_expr(*cond)), false), cur, en, None, false);
                        match compile_from(b5, then_branch@, 0, tn) {
                            None => None,
                            Some((b6, then_end)) => {
                                let else_res = match else_branch {
                                    Some(x) => match x.kind {
                                        SourceExprKind::Block(ss) => compile_from(b6, ss@, 0, en),
                                        SourceExprKind::If { .. } => compile_if(b6, *x, en),
                                        _ => Some((b6, en)),
                                    },
                                    None => Some((b6, en)),
                                };
                                match else_res {
                                    None => None,
                                    Some((b7, else_end)) => {
                                        let b8 = if b7.g.exits.contains(then_end) { b7 } else { with_edge(b7, then_end, mn, None, false) };
                                        let b9 = if b8.g.exits.contains(else_end) { b8 } else { with_edge(b8, else_end, mn, None, false) };
                                        Some((b9, mn))
                                    },
                                }
                            },
                        }
                    },
                },
            },
        },
        _ => Some((b, cur)),
    }
}

/// Compiling `ss` from node `cur` would first append a statement to a node
/// that does not exist (at that point): the first statement is a `return` or
/// terminating macro, or a statement other than an `if`, whose node after
/// its `?` checkpoints is missing.
pub open spec fn pushes_into_missing_node(b: BuildV, ss: Seq<SourceStmt>, cur: usize) -> bool {
    ss.len() > 0 && {
        let st = ss[0];
        let b1 = scan_stmt(b, st);
        if is_term_stmt(st) {
            !has_key(b1.g.nodes, cur)
        } else {
            match st.kind {
                SourceStmtKind::Expr { expr, .. } => match expr.kind {
                    SourceExprKind::If { .. } => false,
                    _ => match split_tries(b1, expr, cur) {
                        Some((b2, c2)) => !has_key(b2.g.nodes, c2),
                        None => false,
                    },
                },
                SourceStmtKind::Local { init: Some(x), .. } => match split_tries(b1, x, cur) {
                    Some((b2, c2)) => !has_key(b2.g.nodes, c2),
                    None => false,
                },
                _ => !has_key(b1.g.nodes, cur),
            }
        }
    }
}

/// Every node of `a` is a node of `b`.
pub open spec fn nodes_kept(a: BuildV, b: BuildV) -> bool {
    forall|k: usize| has_key(a.g.nodes, k) ==> has_key(b.g.nodes, k)
}

proof fn lemma_split_once_nodes(b: BuildV, cur: usize)
    ensures
        match split_once(b, cur) {
            Some((b2, c2)) => nodes_kept(b, b2) && has_key(b2.g.nodes, c2),
            None => true,
        },
{
    match split_once(b, cur) {
        Some((b2, c2)) => {
            let (b1, er) = new_id(b)->Some_0;
            let (bb, sq) = new_id(b1)->Some_0;
            let b3a = with_node(bb, er);
            let b3 = with_node(b3a, sq);
            assert forall|k: usize| has_key(b.g.nodes, k) implies has_key(b2.g.nodes, k) by {
                let j = choose|j: int| 0 <= j < b.g.nodes.len() && b.g.nodes[j].0 == k;
                if !has_key(bb.g.nodes, er) {
                    assert(b3a.g.nodes[j].0 == k);
                }
                assert(has_key(b3a.g.nodes, k));
                let j2 = choose|j2: int| 0 <= j2 < b3a.g.nodes.len() && b3a.g.nodes[j2].0 == k;
                if !has_key(b3a.g.nodes, sq) {
                    assert(b3.g.nodes[j2].0 == k);
                }
                assert(has_key(b3.g.nodes, k));
            }
            if !has_key(b3a.g.nodes, sq) {
                assert(b3.g.nodes[b3a.g.nodes.len() as int].0 == sq);
            }
            assert(has_key(b3.g.nodes, sq));
        },
        None => {},
    }
}

proof fn lemma_split_tries_nodes(b: BuildV, e: SourceExpr, cur: usize)
    ensures
        match split_tries(b, e, cur) {
            Some((b2, c2)) => nodes_kept(b, b2) && (c2 == cur || has_key(b2.g.nodes, c2)),
            None => true,
        },
    decreases e, 0nat,
{
    match e.kind {
        SourceExprKind::Try(x) => {
            lemma_split_tries_nodes(b, *x, cur);
            match split_tries(b, *x, cur) {
                Some((b1, c1)) => lemma_split_once_nodes(b1, c1),
                None => {},
            }
        },
        SourceExprKind::Field { base, .. } => lemma_split_tries_nodes(b, *base, cur),
        SourceExprKind::MethodCall { receiver, args, .. } => {
            lemma_split_tries_nodes(b, *receiver, cur);
            match split_tries(b, *receiver, cur) {
                Some((b1, c1)) => {
                    assert(decreases_to!(e => e.kind));
                    assert(decreases_to!(e.kind => args));
                    assert(decreases_to!(args => args@));
                    lemma_split_tries_all_nodes(b1, args@, 0, c1);
                },
                None => {},
            }
        },
        SourceExprKind::Binary { left, right, .. } => {
            lemma_split_tries_nodes(b, *left, cur);
            match split_tries(b, *left, cur) {
                Some((b1, c1)) => lemma_split_tries_nodes(b1, *right, c1),
                None => {},
            }
        },
        SourceExprKind::Reference { expr, .. } => lemma_split_tries_nodes(b, *expr, cur),
        SourceExprKind::Cast(x) => lemma_split_tries_nodes(b, *x, cur),
        SourceExprKind::Index { expr, index } => {
            lemma_split_tries_nodes(b, *expr, cur);
            match split_tries(b, *expr, cur) {
                Some((b1, c1)) => lemma_split_tries_nodes(b1, *index, c1),
                None => {},
            }
        },
        SourceExprKind::Call { func, args } => {
            lemma_split_tries_nodes(b, *func, cur);
            match split_tries(b, *func, cur) {
                Some((b1, c1)) => {
                    assert(decreases_to!(e => e.kind));
                    assert(decreases_to!(e.kind => args));
                    assert(decreases_to!(args => args@));
                    lemma_split_tries_all_nodes(b1, args@, 0, c1);
                },
                None => {},
            }
        },
        _ => {},
    }
}

proof fn lemma_split_tries_all_nodes(b: BuildV, s: Seq<SourceExpr>, i: int, cur: usize)
    ensures
        match split_tries_all(b, s, i, cur) {
            Some((b2, c2)) => nodes_kept(b, b2) && (c2 == cur || has_key(b2.g.nodes, c2)),
            None => true,
        },
    decreases s, s.len() - i,
{
    if 0 <= i < s.len() {
        lemma_split_tries_nodes(b, s[i], cur);
        match split_tries(b, s[i], cur) {
            Some((b1, c1)) => lemma_split_tries_all_nodes(b1, s, i + 1, c1),
            None => {},
        }
    }
}

/// Compiling from an existing node never appends to a missing one.
pub proof fn lemma_existing_start_node(b: BuildV, ss: Seq<SourceStmt>, cur: usize)
    requires
        has_key(b.g.nodes, cur),
    ensures
        !pushes_into_missing_node(b, ss, cur),
{
    if ss.len() > 0 {
        let st = ss[0];
        let b1 = scan_stmt(b, st);
        assert(b1.g.nodes == b.g.nodes);
        match st.kind {
            SourceStmtKind::Expr { expr, .. } => lemma_split_tries_nodes(b1, expr, cur),
            SourceStmtKind::Local { init: Some(x), .. } => lemma_split_tries_nodes(b1, x, cur),
            _ => {},
        }
    }
}


/// Compiles a whole block from `cur` and records where it ends as an exit.
pub open spec fn compile_block(b: BuildV, ss: Seq<SourceStmt>, cur: usize) -> Option<(BuildV, usize)> {
    match compile_from(b, ss, 0, cur) {
        None => None,
        Some((b1, n)) => Some((with_exit(b1, n), n)),
    }
}

} // verus!

verus! {

// ---------------------------------------------------------------------------
// Building the graph.

/// Why a graph could not be built.
#[derive(Debug, Clone, Copy, PartialEq, Eq, Structural)]
pub enum CfgError {
    /// Every node id has been handed out.
    NodeIdsExhausted,
}

/// Builds a [`ControlFlowGraph`] statement by statement.
#[derive(Debug)]
pub struct CFGBuilder {
    pub graph: ControlFlowGraph,
    /// The id the next new node receives.
    pub next_node_id: usize,
}

impl View for CFGBuilder {
    type V = BuildV;

    open spec fn view(&self) -> BuildV {
        BuildV { g: self.graph@, next: self.next_node_id }
    }
}

/// The state of a new builder: only the entry node 0, and ids from 1.
pub open spec fn initial_build() -> BuildV {
    BuildV {
        g: GraphV {
            nodes: seq![(0usize, NodeV { id: 0, statements: Seq::empty() })],
            edges: Seq::empty(),
            entry: 0,
            exits: Seq::empty(),
            warnings: Seq::empty(),
            ssa: Seq::empty(),
        },
        next: 1,
    }
}

/// Whether `x` occurs in `v`.
pub fn contains_id(v: &Vec<usize>, x: usize) -> (r: bool)
    ensures
        r == v@.contains(x),
{
    let mut i: usize = 0;
    while i < v.len()
        invariant
            i <= v@.len(),
            forall|j: int| 0 <= j < i ==> v@[j] != x,
        decreases v@.len() - i,
    {
        if v[i] == x {
            assert(v@[i as int] == x);
            return true;
        }
        i += 1;
    }
    false
}

fn contains_warning(v: &Vec<CFGBoundaryWarning>, x: CFGBoundaryWarning) -> (r: bool)
    ensures
        r == v@.contains(x),
{
    let mut i: usize = 0;
    while i < v.len()
        invariant
            i <= v@.len(),
            forall|j: int| 0 <= j < i ==> v@[j] != x,
        decreases v@.len() - i,
    {
        if v[i] == x {
            assert(v@[i as int] == x);
            return true;
        }
        i += 1;
    }
    false
}

/// Whether an expression is a `return` or a terminating macro.
pub fn is_terminating_expr(e: &SourceExpr) -> (r: bool)
    ensures
        r == is_term_expr(*e),
{
    proof {
        reveal_strlit("panic");
        reveal_strlit("assert");
        reveal_strlit("assert_eq");
        reveal_strlit("assert_ne");
        reveal_strlit("unreachable");
    }
    match &e.kind {
        SourceExprKind::Return => true,
        SourceExprKind::Macro { name } => {
            let n = name.as_str();
            crate::text::str_eq(n, "panic") || crate::text::str_eq(n, "assert") || crate::text::str_eq(n, "assert_eq")
                || crate::text::str_eq(n, "assert_ne") || crate::text::str_eq(n, "unreachable")
        },
        _ => false,
    }
}

/// Whether a statement ends its block.
pub fn is_terminating_stmt(s: &SourceStmt) -> (r: bool)
    ensures
        r == is_term_stmt(*s),
{
    match &s.kind {
        SourceStmtKind::Expr { expr, .. } => is_terminating_expr(expr),
        SourceStmtKind::Macro { name, .. } => {
            let n = name.as_str();
            crate::text::str_eq(n, "panic") || crate::text::str_eq(n, "assert") || crate::text::str_eq(n, "assert_eq")
                || crate::text::str_eq(n, "assert_ne") || crate::text::str_eq(n, "unreachable")
        },
        _ => false,
    }
}

impl CFGBuilder {
    /// A builder holding only the entry node 0.
    pub fn new() -> (r: Self)
        ensures
            r@ == initial_build(),
            r.graph@ == r@.g,
    {
        let mut nodes: IdMap<CFGNode> = IdMap::new();
        let n0 = CFGNode { id: 0, statements: Vec::new() };
        assert(n0@.statements =~= Seq::<StmtV>::empty());
        nodes.insert(0, n0);
        let graph = ControlFlowGraph {
            nodes,
            edges: Vec::new(),
            entry_node: 0,
            exit_nodes: Vec::new(),
            boundary_warnings: Vec::new(),
            ssa_states: IdMap::new(),
        };
        let r = CFGBuilder { graph, next_node_id: 1 };
        assert(r@.g.nodes =~= initial_build().g.nodes);
        assert(r@.g.edges =~= Seq::<EdgeV>::empty());
        r
    }

    /// A fresh node id, or `None` when ids are exhausted.
    fn new_node_id(&mut self) -> (r: Option<usize>)
        ensures
            match new_id(old(self)@) {
                Some((b, id)) => r == Some(id) && final(self)@ == b,
                None => r is None && final(self)@ == old(self)@,
            },
    {
        if self.next_node_id == usize::MAX {
            return None;
        }
        let id = self.next_node_id;
        self.next_node_id = self.next_node_id + 1;
        Some(id)
    }

    /// Adds an empty node `id` unless it exists.
    fn add_node(&mut self, id: usize)
        ensures
            final(self)@ == with_node(old(self)@, id),
    {
        if !self.graph.nodes.contains_key(id) {
            let n = CFGNode { id, statements: Vec::new() };
            assert(n@.statements =~= Seq::<StmtV>::empty());
            self.graph.nodes.insert(id, n);
        }
    }

    /// Appends an edge.
    fn add_edge(&mut self, from: usize, to: usize, condition: Option<ExpressionNode>, is_early_return: bool)
        ensures
            final(self)@ == with_edge(old(self)@, from, to, match condition { Some(c) => Some(c@), None => None }, is_early_return),
    {
        let e = CFGEdge { from, to, condition, is_early_return };
        let ghost ev = e@;
        self.graph.edges.push(e);
        assert(edges_view(self.graph.edges@) =~= edges_view(old(self).graph.edges@).push(ev));
    }

    /// Appends statement `st` to node `n`.
    fn push_statement(&mut self, n: usize, st: StatementNode)
        ensures
            final(self)@ == with_stmt(old(self)@, n, st@),
    {
        match self.graph.nodes.index_of(n) {
            Some(i) => {
                let ghost sv = st@;
                let mut node = self.graph.nodes.replace_at(i, CFGNode { id: 0, statements: Vec::new() });
                let ghost nd = node@;
                node.statements.push(st);
                assert(node@.statements =~= nd.statements.push(sv));
                self.graph.nodes.replace_at(i, node);
                assert(self.graph.nodes.pairs() =~= old(self).graph.nodes.pairs().update(i as int, (n, NodeV { id: nd.id, statements: nd.statements.push(sv) })));
            },
            None => {},
        }
    }

    /// Records `n` as an exit unless it is one.
    fn add_exit(&mut self, n: usize)
        ensures
            final(self)@ == with_exit(old(self)@, n),
    {
        if !contains_id(&self.graph.exit_nodes, n) {
            self.graph.exit_nodes.push(n);
        }
    }

    /// Records the warnings an expression statement raises.
    fn scan_expr_warnings(&mut self, e: &SourceExpr)
        ensures
            final(self)@ == scan_expr(old(self)@, *e),
    {
        proof {
            reveal_strlit("check_recursive");
        }
        match &e.kind {
            SourceExprKind::Loop | SourceExprKind::While | SourceExprKind::ForLoop => {
                if !contains_warning(&self.graph.boundary_warnings, CFGBoundaryWarning::LoopDetected) {
                    self.graph.boundary_warnings.push(CFGBoundaryWarning::LoopDetected);
                }
            },
            SourceExprKind::Match => {
                if !contains_warning(&self.graph.boundary_warnings, CFGBoundaryWarning::MatchExpression) {
                    self.graph.boundary_warnings.push(CFGBoundaryWarning::MatchExpression);
                }
            },
            SourceExprKind::MethodCall { method, .. } => {
                if crate::text::str_eq(method.as_str(), "check_recursive") {
                    self.graph.boundary_warnings.push(CFGBoundaryWarning::RecursiveFunction);
                }
            },
            _ => {},
        }
    }

    /// Records the warnings a statement raises.
    fn scan_boundary_warnings(&mut self, s: &SourceStmt)
        ensures
            final(self)@ == scan_stmt(old(self)@, *s),
    {
        match &s.kind {
            SourceStmtKind::Local { init: Some(x), .. } => self.scan_expr_warnings(x),
            SourceStmtKind::Expr { expr, .. } => self.scan_expr_warnings(expr),
            _ => {},
        }
    }

    /// One `?` checkpoint at `cur`; the node where execution continues.
    fn split_once(&mut self, cur: usize) -> (r: Option<usize>)
        ensures
            match split_once(old(self)@, cur) {
                Some((b, c)) => r == Some(c) && final(self)@ == b,
                None => r is None,
            },
    {
        let er = match self.new_node_id() {
            Some(x) => x,
            None => return None,
        };
        let sq = match self.new_node_id() {
            Some(x) => x,
            None => return None,
        };
        self.add_node(er);
        self.add_node(sq);
        self.add_edge(cur, er, None, true);
        self.add_edge(cur, sq, None, false);
        self.graph.exit_nodes.push(er);
        Some(sq)
    }

    /// One checkpoint per `?` operator inside `e`, innermost first.
    fn split_tries(&mut self, e: &SourceExpr, cur: usize) -> (r: Option<usize>)
        ensures
            match split_tries(old(self)@, *e, cur) {
                Some((b, c)) => r == Some(c) && final(self)@ == b,
                None => r is None,
            },
        decreases e,
    {
        match &e.kind {
            SourceExprKind::Try(x) => match self.split_tries(x, cur) {
                Some(c) => self.split_once(c),
                None => None,
            },
            SourceExprKind::Field { base, .. } => self.split_tries(base, cur),
            SourceExprKind::MethodCall { receiver, args, .. } => match self.split_tries(receiver, cur) {
                Some(c) => self.split_tries_list(args, c, Ghost(*e)),
                None => None,
            },
            SourceExprKind::Binary { left, right, .. } => match self.split_tries(left, cur) {
                Some(c) => self.split_tries(right, c),
                None => None,
            },
            SourceExprKind::Reference { expr, .. } => self.split_tries(expr, cur),
            SourceExprKind::Cast(x) => self.split_tries(x, cur),
            SourceExprKind::Index { expr, index } => match self.split_tries(expr, cur) {
                Some(c) => self.split_tries(index, c),
                None => None,
            },
            SourceExprKind::Call { func, args } => match self.split_tries(func, cur) {
                Some(c) => self.split_tries_list(args, c, Ghost(*e)),
                None => None,
            },
            _ => Some(cur),
        }
    }

    /// Checkpoints for the `?` operators of each expression of `args`, left to right.
    fn split_tries_list(&mut self, args: &Vec<SourceExpr>, cur: usize, Ghost(parent): Ghost<SourceExpr>) -> (r: Option<usize>)
        requires
            decreases_to!(parent => args@),
        ensures
            match split_tries_all(old(self)@, args@, 0, cur) {
                Some((b, c)) => r == Some(c) && final(self)@ == b,
                None => r is None,
            },
        decreases parent, 1nat,
    {
        let ghost target = split_tries_all(self@, args@, 0, cur);
        let mut c = cur;
        let mut i: usize = 0;
        while i < args.len()
            invariant
                i <= args@.len(),
                decreases_to!(parent => args@),
                target == split_tries_all(self@, args@, i as int, c),
                target == split_tries_all(old(self)@, args@, 0, cur),
            decreases args@.len() - i,
        {
            proof {
                assert(decreases_to!(args@ => args@[i as int]));
            }
            match self.split_tries(&args[i], c) {
                Some(c2) => c = c2,
                None => return None,
            }
            i += 1;
        }
        Some(c)
    }
}


impl CFGBuilder {
    /// Compiles an `if` at node `cur`; the merge node.
    fn compile_if(&mut self, e: &SourceExpr, cur: usize) -> (r: Option<usize>)
        ensures
            match compile_if(old(self)@, *e, cur) {
                Some((b, c)) => r == Some(c) && final(self)@ == b,
                None => r is None,
            },
        decreases e, 2nat,
    {
        match &e.kind {
            SourceExprKind::If { cond, then_branch, else_branch } => {
                proof {
                    assert(decreases_to!(*e => e.kind));
                    assert(decreases_to!(e.kind => e.kind->If_then_branch));
                    assert(decreases_to!(e.kind->If_then_branch => e.kind->If_then_branch@));
                }
                let tn = match self.new_node_id() {
                    Some(x) => x,
                    None => return None,
                };
                let en = match self.new_node_id() {
                    Some(x) => x,
                    None => return None,
                };
                let mn = match self.new_node_id() {
                    Some(x) => x,
                    None => return None,
                };
                self.add_node(tn);
                self.add_node(en);
                self.add_node(mn);
                let c = convert_expr(cond);
                self.add_edge(cur, tn, Some(c), false);
                self.add_edge(cur, en, None, false);
                let then_end = match self.compile_statements_inner(then_branch, tn, Ghost(*e)) {
                    Some(x) => x,
                    None => return None,
                };
                let else_end = match else_branch {
                    Some(x) => match &x.kind {
                        SourceExprKind::Block(ss) => match {
                            proof {
                                assert(decreases_to!(*e => e.kind));
                                assert(decreases_to!(e.kind => e.kind->If_else_branch));
                                assert(decreases_to!(e.kind->If_else_branch => e.kind->If_else_branch->Some_0));
                                assert(decreases_to!(e.kind->If_else_branch->Some_0 => e.kind->If_else_branch->Some_0.kind));
                                assert(decreases_to!(e.kind->If_else_branch->Some_0.kind => e.kind->If_else_branch->Some_0.kind->Block_0));
                                assert(decreases_to!(e.kind->If_else_branch->Some_0.kind->Block_0 => e.kind->If_else_branch->Some_0.kind->Block_0@));
                            }
                            self.compile_statements_inner(ss, en, Ghost(*e))
                        } {
                            Some(y) => y,
                            None => return None,
                        },
                        SourceExprKind::If { .. } => match self.compile_if(x, en) {
                            Some(y) => y,
                            None => return None,
                        },
                        _ => en,
                    },
                    None => en,
                };
                if !contains_id(&self.graph.exit_nodes, then_end) {
                    self.add_edge(then_end, mn, None, false);
                }
                if !contains_id(&self.graph.exit_nodes, else_end) {
                    self.add_edge(else_end, mn, None, false);
                }
                Some(mn)
            },
            _ => Some(cur),
        }
    }

    /// Compiles `stmts` from node `cur`; the node where the block ends.
    fn compile_statements_inner(&mut self, stmts: &Vec<SourceStmt>, cur: usize, Ghost(parent): Ghost<SourceExpr>) -> (r: Option<usize>)
        requires
            decreases_to!(parent => stmts@),
        ensures
            match compile_from(old(self)@, stmts@, 0, cur) {
                Some((b, c)) => r == Some(c) && final(self)@ == b,
                None => r is None,
            },
        decreases parent, 1nat,
    {
        let ghost target = compile_from(self@, stmts@, 0, cur);
        let mut current = cur;
        let mut i: usize = 0;
        while i < stmts.len()
            invariant
                i <= stmts@.len(),
                decreases_to!(parent => stmts@),
                target == compile_from(self@, stmts@, i as int, current),
                target == compile_from(old(self)@, stmts@, 0, cur),
            decreases stmts@.len() - i,
        {
            let st = &stmts[i];
            proof {
                assert(decreases_to!(stmts@ => stmts@[i as int]));
            }
            self.scan_boundary_warnings(st);
            if is_terminating_stmt(st) {
                let cs = convert_stmt(st);
                self.push_statement(current, cs);
                self.add_exit(current);
                return Some(current);
            }
            match &st.kind {
                SourceStmtKind::Expr { expr, .. } => match &expr.kind {
                    SourceExprKind::If { .. } => {
                        proof {
                            assert(decreases_to!(stmts@[i as int] => stmts@[i as int].kind));
                            assert(decreases_to!(stmts@[i as int].kind => stmts@[i as int].kind->Expr_expr));
                        }
                        match self.compile_if(expr, current) {
                            Some(m) => current = m,
                            None => return None,
                        }
                    },
                    _ => {
                        match self.split_tries(expr, current) {
                            Some(c) => current = c,
                            None => return None,
                        }
                        let cs = convert_stmt(st);
                        self.push_statement(current, cs);
                    },
                },
                SourceStmtKind::Local { init: Some(x), .. } => {
                    match self.split_tries(x, current) {
                        Some(c) => current = c,
                        None => return None,
                    }
                    let cs = convert_stmt(st);
                    self.push_statement(current, cs);
                },
                _ => {
                    let cs = convert_stmt(st);
                    self.push_statement(current, cs);
                },
            }
            i += 1;
        }
        Some(current)
    }

    /// Compiles `stmts` from `current_node`, records the node where the
    /// block ends as an exit, and returns it. The first statement must not be
    /// appended to a node that does not exist.
    pub fn compile_statements(&mut self, stmts: &Vec<SourceStmt>, current_node: usize) -> (r: Result<usize, CfgError>)
        requires
            !pushes_into_missing_node(old(self)@, stmts@, current_node),
        ensures
            match compile_block(old(self)@, stmts@, current_node) {
                Some((b, n)) => r == Ok::<usize, CfgError>(n) && final(self)@ == b,
                None => r == Err::<usize, CfgError>(CfgError::NodeIdsExhausted),
            },
    {
        let ghost block = SourceExpr { kind: SourceExprKind::Block(*stmts), text: vstd::pervasive::arbitrary() };
        proof {
            assert(decreases_to!(block => block.kind));
            assert(decreases_to!(block.kind => block.kind->Block_0));
            assert(decreases_to!(block.kind->Block_0 => block.kind->Block_0@));
        }
        match self.compile_statements_inner(stmts, current_node, Ghost(block)) {
            Some(n) => {
                self.add_exit(n);
                Ok(n)
            },
            None => Err(CfgError::NodeIdsExhausted),
        }
    }
}

} // verus!

verus! {

// ---------------------------------------------------------------------------
// `?` operators inside an expression.

/// The `?` expressions inside `e` that split a statement, innermost first.
pub open spec fn tries_of(e: SourceExpr) -> Seq<SourceExpr>
    decreases e, 0nat,
{
    match e.kind {
        SourceExprKind::Try(x) => tries_of(*x).push(e),
        SourceExprKind::Field { base, .. } => tries_of(*base),
        SourceExprKind::MethodCall { receiver, args, .. } => tries_of(*receiver) + tries_of_list(args@, args@.len() as int),
        SourceExprKind::Binary { left, right, .. } => tries_of(*left) + tries_of(*right),
        SourceExprKind::Reference { expr, .. } => tries_of(*expr),
        SourceExprKind::Cast(x) => tries_of(*x),
        SourceExprKind::Index { expr, index } => tries_of(*expr) + tries_of(*index),
        SourceExprKind::Call { func, args } => tries_of(*func) + tries_of_list(args@, args@.len() as int),
        _ => Seq::empty(),
    }
}

/// The `?` expressions inside `s[..k]`, left to right.
pub open spec fn tries_of_list(s: Seq<SourceExpr>, k: int) -> Seq<SourceExpr>
    decreases s, k,
{
    if k <= 0 || k > s.len() {
        Seq::empty()
    } else {
        tries_of_list(s, k - 1) + tries_of(s[k - 1])
    }
}

/// Appends the `?` expressions inside `expr`, innermost first.
pub fn find_tries<'a>(expr: &'a SourceExpr, list: &mut Vec<&'a SourceExpr>)
    ensures
        final(list)@.map_values(|x: &SourceExpr| *x) == old(list)@.map_values(|x: &SourceExpr| *x) + tries_of(*expr),
    decreases expr,
{
    let ghost l0 = list@.map_values(|x: &SourceExpr| *x);
    match &expr.kind {
        SourceExprKind::Try(x) => {
            find_tries(x, list);
            let ghost l1 = list@.map_values(|x: &SourceExpr| *x);
            list.push(expr);
            assert(list@.map_values(|x: &SourceExpr| *x) =~= l1.push(*expr));
        },
        SourceExprKind::Field { base, .. } => find_tries(base, list),
        SourceExprKind::MethodCall { receiver, args, .. } => {
            find_tries(receiver, list);
            let ghost l1 = list@.map_values(|x: &SourceExpr| *x);
            find_tries_list(expr, args, list);
            assert(list@.map_values(|x: &SourceExpr| *x) =~= l0 + tries_of(*expr));
        },
        SourceExprKind::Binary { left, right, .. } => {
            find_tries(left, list);
            find_tries(right, list);
            assert(list@.map_values(|x: &SourceExpr| *x) =~= l0 + tries_of(*expr));
        },
        SourceExprKind::Reference { expr: inner, .. } => find_tries(inner, list),
        SourceExprKind::Cast(x) => find_tries(x, list),
        SourceExprKind::Index { expr: inner, index } => {
            find_tries(inner, list);
            find_tries(index, list);
            assert(list@.map_values(|x: &SourceExpr| *x) =~= l0 + tries_of(*expr));
        },
        SourceExprKind::Call { func, args } => {
            find_tries(func, list);
            find_tries_list(expr, args, list);
            assert(list@.map_values(|x: &SourceExpr| *x) =~= l0 + tries_of(*expr));
        },
        _ => {
            assert(l0 + tries_of(*expr) =~= l0);
        },
    }
}

/// Appends the `?` expressions inside the arguments `args` of `parent`, left to right.
fn find_tries_list<'a>(parent: &'a SourceExpr, args: &'a Vec<SourceExpr>, list: &mut Vec<&'a SourceExpr>)
    requires
        (parent.kind matches SourceExprKind::MethodCall { args: a, .. } && a == *args)
            || (parent.kind matches SourceExprKind::Call { args: a, .. } && a == *args),
    ensures
        final(list)@.map_values(|x: &SourceExpr| *x) == old(list)@.map_values(|x: &SourceExpr| *x) + tries_of_list(args@, args@.len() as int),
    decreases parent, 0nat,
{
    let ghost l0 = list@.map_values(|x: &SourceExpr| *x);
    let mut i: usize = 0;
    assert(l0 + tries_of_list(args@, 0) =~= l0);
    while i < args.len()
        invariant
            (parent.kind matches SourceExprKind::MethodCall { args: a, .. } && a == *args)
                || (parent.kind matches SourceExprKind::Call { args: a, .. } && a == *args),
            i <= args@.len(),
            list@.map_values(|x: &SourceExpr| *x) == l0 + tries_of_list(args@, i as int),
        decreases args@.len() - i,
    {
        proof {
            if parent.kind is MethodCall {
                assert(decreases_to!(parent => parent.kind));
                assert(decreases_to!(parent.kind => parent.kind->MethodCall_args));
                assert(decreases_to!(parent.kind->MethodCall_args => parent.kind->MethodCall_args@));
                assert(decreases_to!(parent.kind->MethodCall_args@ => parent.kind->MethodCall_args@[i as int]));
            } else {
                assert(decreases_to!(parent => parent.kind));
                assert(decreases_to!(parent.kind => parent.kind->Call_args));
                assert(decreases_to!(parent.kind->Call_args => parent.kind->Call_args@));
                assert(decreases_to!(parent.kind->Call_args@ => parent.kind->Call_args@[i as int]));
            }
        }
        find_tries(&args[i], list);
        assert(list@.map_values(|x: &SourceExpr| *x) =~= l0 + tries_of_list(args@, i + 1));
        i += 1;
    }
}

/// Whether a `?` operator sits inside `e` (not looking into call arguments).
pub open spec fn has_try(e: SourceExpr) -> bool
    decreases e, 0nat,
{
    match e.kind {
        SourceExprKind::Try(_) => true,
        SourceExprKind::Field { base, .. } => has_try(*base),
        SourceExprKind::MethodCall { receiver, args, .. } => has_try(*receiver) || exists|i: int| 0 <= i < args@.len() && has_try(#[trigger] args@[i]),
        SourceExprKind::Binary { left, right, .. } => has_try(*left) || has_try(*right),
        SourceExprKind::Reference { expr, .. } => has_try(*expr),
        SourceExprKind::Cast(x) => has_try(*x),
        SourceExprKind::Index { expr, index } => has_try(*expr) || has_try(*index),
        _ => false,
    }
}

/// Whether a `?` operator sits inside `expr` (not looking into call arguments).
pub fn has_try_operator(expr: &SourceExpr) -> (r: bool)
    ensures
        r == has_try(*expr),
    decreases expr,
{
    match &expr.kind {
        SourceExprKind::Try(_) => true,
        SourceExprKind::Field { base, .. } => has_try_operator(base),
        SourceExprKind::MethodCall { receiver, args, .. } => {
            if has_try_operator(receiver) {
                return true;
            }
            let mut i: usize = 0;
            while i < args.len()
                invariant
                    expr.kind is MethodCall,
                    expr.kind->MethodCall_args == *args,
                    i <= args@.len(),
                    forall|j: int| 0 <= j < i ==> !has_try(#[trigger] args@[j]),
                decreases args@.len() - i,
            {
                proof {
                    assert(decreases_to!(expr => expr.kind));
                    assert(decreases_to!(expr.kind => expr.kind->MethodCall_args));
                    assert(decreases_to!(expr.kind->MethodCall_args => expr.kind->MethodCall_args@));
                    assert(decreases_to!(expr.kind->MethodCall_args@ => expr.kind->MethodCall_args@[i as int]));
                }
                if has_try_operator(&args[i]) {
                    return true;
                }
                i += 1;
            }
            false
        },
        SourceExprKind::Binary { left, right, .. } => has_try_operator(left) || has_try_operator(right),
        SourceExprKind::Reference { expr: inner, .. } => has_try_operator(inner),
        SourceExprKind::Cast(x) => has_try_operator(x),
        SourceExprKind::Index { expr: inner, index } => has_try_operator(inner) || has_try_operator(index),
        _ => false,
    }
}

} // verus!

verus! {

// ---------------------------------------------------------------------------
// Compiling keeps the graph well formed.

/// A builder's graph is well formed: every node id is below the next id to
/// hand out, every edge joins two nodes, every exit is a node, and no exit
/// is recorded twice.
pub open spec fn build_wf(b: BuildV) -> bool {
    &&& forall|j: int| 0 <= j < b.g.nodes.len() ==> (#[trigger] b.g.nodes[j]).0 < b.next
    &&& forall|j: int| 0 <= j < b.g.edges.len() ==> has_key(b.g.nodes, (#[trigger] b.g.edges[j]).from)
        && has_key(b.g.nodes, b.g.edges[j].to)
    &&& forall|j: int| 0 <= j < b.g.exits.len() ==> has_key(b.g.nodes, #[trigger] b.g.exits[j])
    &&& b.g.exits.no_duplicates()
}

/// `b2` grows `b`: its nodes stay, its entry is the same, and it is well formed.
pub open spec fn grows(b: BuildV, b2: BuildV) -> bool {
    &&& nodes_kept(b, b2)
    &&& b2.g.entry == b.g.entry
    &&& build_wf(b2)
}

proof fn lemma_fresh_not_node(b: BuildV)
    requires
        build_wf(b),
    ensures
        !has_key(b.g.nodes, b.next),
        !b.g.exits.contains(b.next),
{
    if has_key(b.g.nodes, b.next) {
        let j = choose|j: int| 0 <= j < b.g.nodes.len() && b.g.nodes[j].0 == b.next;
        assert(b.g.nodes[j].0 < b.next);
    }
    if b.g.exits.contains(b.next) {
        let j = choose|j: int| 0 <= j < b.g.exits.len() && b.g.exits[j] == b.next;
        assert(has_key(b.g.nodes, b.g.exits[j]));
    }
}

proof fn lemma_new_node(b: BuildV)
    requires
        build_wf(b),
        b.next < usize::MAX,
    ensures
        ({
            let (b1, id) = new_id(b)->Some_0;
            let b2 = with_node(b1, id);
            &&& grows(b, b2)
            &&& has_key(b2.g.nodes, id)
            &&& b2.next == b.next + 1
            &&& id == b.next
        }),
{
    lemma_fresh_not_node(b);
    let (b1, id) = new_id(b)->Some_0;
    let b2 = with_node(b1, id);
    let n = b.g.nodes.len();
    assert(b2.g.nodes == b.g.nodes.push((id, NodeV { id, statements: Seq::empty() })));
    assert(b2.g.nodes[n as int].0 == id);
    assert forall|k: usize| has_key(b.g.nodes, k) implies has_key(b2.g.nodes, k) by {
        let j = choose|j: int| 0 <= j < b.g.nodes.len() && b.g.nodes[j].0 == k;
        assert(b2.g.nodes[j].0 == k);
    }
    assert forall|j: int| 0 <= j < b2.g.nodes.len() implies (#[trigger] b2.g.nodes[j]).0 < b2.next by {
        if j < n {
            assert(b2.g.nodes[j] == b.g.nodes[j]);
        }
    }
}

proof fn lemma_with_edge(b: BuildV, from: usize, to: usize, c: Option<ExprV>, early: bool)
    requires
        build_wf(b),
        has_key(b.g.nodes, from),
        has_key(b.g.nodes, to),
    ensures
        grows(b, with_edge(b, from, to, c, early)),
{
    let b2 = with_edge(b, from, to, c, early);
    assert forall|j: int| 0 <= j < b2.g.edges.len() implies has_key(b2.g.nodes, (#[trigger] b2.g.edges[j]).from)
        && has_key(b2.g.nodes, b2.g.edges[j].to) by {
        if j < b.g.edges.len() {
            assert(b2.g.edges[j] == b.g.edges[j]);
        }
    }
}

proof fn lemma_with_stmt(b: BuildV, n: usize, st: StmtV)
    requires
        build_wf(b),
    ensures
        grows(b, with_stmt(b, n, st)),
        forall|k: usize| has_key(with_stmt(b, n, st).g.nodes, k) == has_key(b.g.nodes, k),
{
    let b2 = with_stmt(b, n, st);
    if has_key(b.g.nodes, n) {
        let k = key_index(b.g.nodes, n);
        assert forall|x: usize| has_key(b2.g.nodes, x) == has_key(b.g.nodes, x) by {
            if has_key(b.g.nodes, x) {
                let j = choose|j: int| 0 <= j < b.g.nodes.len() && b.g.nodes[j].0 == x;
                assert(b2.g.nodes[j].0 == x);
            }
            if has_key(b2.g.nodes, x) {
                let j = choose|j: int| 0 <= j < b2.g.nodes.len() && b2.g.nodes[j].0 == x;
                assert(b.g.nodes[j].0 == x);
            }
        }
        assert forall|j: int| 0 <= j < b2.g.nodes.len() implies (#[trigger] b2.g.nodes[j]).0 < b2.next by {
            assert(b2.g.nodes[j].0 == b.g.nodes[j].0);
        }
        assert forall|j: int| 0 <= j < b2.g.edges.len() implies has_key(b2.g.nodes, (#[trigger] b2.g.edges[j]).from)
            && has_key(b2.g.nodes, b2.g.edges[j].to) by {
            assert(has_key(b.g.nodes, b.g.edges[j].from));
        }
        assert forall|j: int| 0 <= j < b2.g.exits.len() implies has_key(b2.g.nodes, #[trigger] b2.g.exits[j]) by {
            assert(has_key(b.g.nodes, b.g.exits[j]));
        }
    }
}

proof fn lemma_with_exit(b: BuildV, n: usize)
    requires
        build_wf(b),
        has_key(b.g.nodes, n),
    ensures
        grows(b, with_exit(b, n)),
        with_exit(b, n).g.exits.contains(n),
{
    let b2 = with_exit(b, n);
    if !b.g.exits.contains(n) {
        assert(b2.g.exits[b.g.exits.len() as int] == n);
        assert forall|j: int| 0 <= j < b2.g.exits.len() implies has_key(b2.g.nodes, #[trigger] b2.g.exits[j]) by {
            if j < b.g.exits.len() {
                assert(b2.g.exits[j] == b.g.exits[j]);
            }
        }
        assert(b2.g.exits.no_duplicates()) by {
            assert forall|i: int, j: int| 0 <= i < b2.g.exits.len() && 0 <= j < b2.g.exits.len() && i != j
                implies b2.g.exits[i] != b2.g.exits[j] by {
                if i == b.g.exits.len() {
                    assert(b.g.exits.contains(b.g.exits[j]));
                } else if j == b.g.exits.len() {
                    assert(b.g.exits.contains(b.g.exits[i]));
                }
            }
        }
    }
}

proof fn lemma_split_once_wf(b: BuildV, cur: usize)
    requires
        build_wf(b),
        has_key(b.g.nodes, cur),
    ensures
        match split_once(b, cur) {
            Some((b2, c2)) => grows(b, b2) && has_key(b2.g.nodes, c2),
            None => true,
        },
{
    if b.next < usize::MAX && b.next + 1 < usize::MAX {
        lemma_new_node(b);
        let (b1, er) = new_id(b)->Some_0;
        let ba = with_node(b1, er);
        lemma_new_node(ba);
        let (bb, sq) = new_id(ba)->Some_0;
        let bc = with_node(bb, sq);
        assert(with_node(with_node(new_id(b1)->Some_0.0, er), sq) == bc) by {
            assert(!has_key(new_id(b1)->Some_0.0.g.nodes, er));
        }
        lemma_with_edge(bc, cur, er, None, true);
        let bd = with_edge(bc, cur, er, None, true);
        lemma_with_edge(bd, cur, sq, None, false);
        let be = with_edge(bd, cur, sq, None, false);
        let bf = BuildV { g: GraphV { exits: be.g.exits.push(er), ..be.g }, next: be.next };
        assert(!be.g.exits.contains(er)) by {
            if be.g.exits.contains(er) {
                let j = choose|j: int| 0 <= j < be.g.exits.len() && be.g.exits[j] == er;
                assert(b.g.exits[j] == er);
                assert(has_key(b.g.nodes, er));
                lemma_fresh_not_node(b);
            }
        }
        assert(bf == with_exit(be, er));
        lemma_with_exit(be, er);
        assert(split_once(b, cur) == Some((bf, sq)));
    }
}

proof fn lemma_split_tries_wf(b: BuildV, e: SourceExpr, cur: usize)
    requires
        build_wf(b),
        has_key(b.g.nodes, cur),
    ensures
        match split_tries(b, e, cur) {
            Some((b2, c2)) => grows(b, b2) && has_key(b2.g.nodes, c2),
            None => true,
        },
    decreases e, 0nat,
{
    match e.kind {
        SourceExprKind::Try(x) => {
            lemma_split_tries_wf(b, *x, cur);
            match split_tries(b, *x, cur) {
                Some((b1, c1)) => lemma_split_once_wf(b1, c1),
                None => {},
            }
        },
        SourceExprKind::Field { base, .. } => lemma_split_tries_wf(b, *base, cur),
        SourceExprKind::MethodCall { receiver, args, .. } => {
            lemma_split_tries_wf(b, *receiver, cur);
            match split_tries(b, *receiver, cur) {
                Some((b1, c1)) => {
                    assert(decreases_to!(e => e.kind));
                    assert(decreases_to!(e.kind => args));
                    assert(decreases_to!(args => args@));
                    lemma_split_tries_all_wf(b1, args@, 0, c1);
                },
                None => {},
            }
        },
        SourceExprKind::Binary { left, right, .. } => {
            lemma_split_tries_wf(b, *left, cur);
            match split_tries(b, *left, cur) {
                Some((b1, c1)) => lemma_split_tries_wf(b1, *right, c1),
                None => {},
            }
        },
        SourceExprKind::Reference { expr, .. } => lemma_split_tries_wf(b, *expr, cur),
        SourceExprKind::Cast(x) => lemma_split_tries_wf(b, *x, cur),
        SourceExprKind::Index { expr, index } => {
            lemma_split_tries_wf(b, *expr, cur);
            match split_tries(b, *expr, cur) {
                Some((b1, c1)) => lemma_split_tries_wf(b1, *index, c1),
                None => {},
            }
        },
        SourceExprKind::Call { func, args } => {
            lemma_split_tries_wf(b, *func, cur);
            match split_tries(b, *func, cur) {
                Some((b1, c1)) => {
                    assert(decreases_to!(e => e.kind));
                    assert(decreases_to!(e.kind => args));
                    assert(decreases_to!(args => args@));
                    lemma_split_tries_all_wf(b1, args@, 0, c1);
                },
                None => {},
            }
        },
        _ => {},
    }
}

proof fn lemma_split_tries_all_wf(b: BuildV, s: Seq<SourceExpr>, i: int, cur: usize)
    requires
        build_wf(b),
        has_key(b.g.nodes, cur),
    ensures
        match split_tries_all(b, s, i, cur) {
            Some((b2, c2)) => grows(b, b2) && has_key(b2.g.nodes, c2),
            None => true,
        },
    decreases s, s.len() - i,
{
    if 0 <= i < s.len() {
        lemma_split_tries_wf(b, s[i], cur);
        match split_tries(b, s[i], cur) {
            Some((b1, c1)) => lemma_split_tries_all_wf(b1, s, i + 1, c1),
            None => {},
        }
    }
}

proof fn lemma_scan_stmt_wf(b: BuildV, st: SourceStmt)
    requires
        build_wf(b),
    ensures
        grows(b, scan_stmt(b, st)),
        scan_stmt(b, st).g.nodes == b.g.nodes,
{
}

proof fn lemma_compile_from_wf(b: BuildV, ss: Seq<SourceStmt>, i: int, cur: usize)
    requires
        build_wf(b),
        has_key(b.g.nodes, cur),
    ensures
        match compile_from(b, ss, i, cur) {
            Some((b2, c2)) => grows(b, b2) && has_key(b2.g.nodes, c2),
            None => true,
        },
    decreases ss, ss.len() - i,
{
    if 0 <= i < ss.len() {
        let st = ss[i];
        let b1 = scan_stmt(b, st);
        lemma_scan_stmt_wf(b, st);
        if is_term_stmt(st) {
            lemma_with_stmt(b1, cur, conv_stmt(st));
            lemma_with_exit(with_stmt(b1, cur, conv_stmt(st)), cur);
        } else {
            let step = match st.kind {
                SourceStmtKind::Expr { expr, .. } => match expr.kind {
                    SourceExprKind::If { .. } => compile_if(b1, expr, cur),
                    _ => match split_tries(b1, expr, cur) {
                        None => None,
                        Some((b2, c2)) => Some((with_stmt(b2, c2, conv_stmt(st)), c2)),
                    },
                },
                SourceStmtKind::Local { init: Some(x), .. } => match split_tries(b1, x, cur) {
                    None => None,
                    Some((b2, c2)) => Some((with_stmt(b2, c2, conv_stmt(st)), c2)),
                },
                _ => Some((with_stmt(b1, cur, conv_stmt(st)), cur)),
            };
            match st.kind {
                SourceStmtKind::Expr { expr, .. } => match expr.kind {
                    SourceExprKind::If { .. } => {
                        assert(decreases_to!(ss => ss[i]));
                        assert(decreases_to!(ss[i] => ss[i].kind));
                        assert(decreases_to!(ss[i].kind => expr));
                        lemma_compile_if_wf(b1, expr, cur);
                    },
                    _ => {
                        lemma_split_tries_wf(b1, expr, cur);
                        match split_tries(b1, expr, cur) {
                            Some((b2, c2)) => lemma_with_stmt(b2, c2, conv_stmt(st)),
                            None => {},
                        }
                    },
                },
                SourceStmtKind::Local { init: Some(x), .. } => {
                    lemma_split_tries_wf(b1, x, cur);
                    match split_tries(b1, x, cur) {
                        Some((b2, c2)) => lemma_with_stmt(b2, c2, conv_stmt(st)),
                        None => {},
                    }
                },
                _ => lemma_with_stmt(b1, cur, conv_stmt(st)),
            }
            match step {
                Some((b2, c2)) => lemma_compile_from_wf(b2, ss, i + 1, c2),
                None => {},
            }
        }
    }
}

proof fn lemma_compile_if_wf(b: BuildV, e: SourceExpr, cur: usize)
    requires
        build_wf(b),
        has_key(b.g.nodes, cur),
    ensures
        match compile_if(b, e, cur) {
            Some((b2, c2)) => grows(b, b2) && has_key(b2.g.nodes, c2),
            None => true,
        },
    decreases e, 0nat,
{
    match e.kind {
        SourceExprKind::If { cond, then_branch, else_branch } => {
            if b.next < usize::MAX - 2 {
                lemma_new_node(b);
                let (b1, tn) = new_id(b)->Some_0;
                let ba = with_node(b1, tn);
                lemma_new_node(ba);
                let (bb, en) = new_id(ba)->Some_0;
                let bc = with_node(bb, en);
                lemma_new_node(bc);
                let (bd, mn) = new_id(bc)->Some_0;
                let be = with_node(bd, mn);
                let (b1x, tnx) = new_id(b)->Some_0;
                let (b2x, enx) = new_id(b1x)->Some_0;
                let (b3x, mnx) = new_id(b2x)->Some_0;
                let b4 = with_node(with_node(with_node(b3x, tn), en), mn);
                assert(!has_key(b3x.g.nodes, tn));
                assert(with_node(b3x, tn).g.nodes == ba.g.nodes);
                assert(!has_key(with_node(b3x, tn).g.nodes, en));
                assert(with_node(with_node(b3x, tn), en).g.nodes == bc.g.nodes);
                assert(!has_key(with_node(with_node(b3x, tn), en).g.nodes, mn));
                assert(b4 == be);
                lemma_with_edge(be, cur, tn, Some(conv_expr(*cond)), false);
                let b5a = with_edge(be, cur, tn, Some(conv_expr(*cond)), false);
                lemma_with_edge(b5a, cur, en, None, false);
                let b5 = with_edge(b5a, cur, en, None, false);
                assert(decreases_to!(e => e.kind));
                assert(decreases_to!(e.kind => then_branch));
                assert(decreases_to!(then_branch => then_branch@));
                lemma_compile_from_wf(b5, then_branch@, 0, tn);
                match compile_from(b5, then_branch@, 0, tn) {
                    Some((b6, then_end)) => {
                        let else_res = match else_branch {
                            Some(x) => match x.kind {
                                SourceExprKind::Block(ss) => compile_from(b6, ss@, 0, en),
                                SourceExprKind::If { .. } => compile_if(b6, *x, en),
                                _ => Some((b6, en)),
                            },
                            None => Some((b6, en)),
                        };
                        match else_branch {
                            Some(x) => {
                                assert(decreases_to!(e.kind => else_branch));
                                assert(decreases_to!(else_branch => x));
                                match x.kind {
                                    SourceExprKind::Block(ss) => {
                                        assert(decreases_to!(*x => x.kind));
                                        assert(decreases_to!(x.kind => ss));
                                        assert(decreases_to!(ss => ss@));
                                        lemma_compile_from_wf(b6, ss@, 0, en);
                                    },
                                    SourceExprKind::If { .. } => lemma_compile_if_wf(b6, *x, en),
                                    _ => {},
                                }
                            },
                            None => {},
                        }
                        match else_res {
                            Some((b7, else_end)) => {
                                let b8 = if b7.g.exits.contains(then_end) { b7 } else { with_edge(b7, then_end, mn, None, false) };
                                if !b7.g.exits.contains(then_end) {
                                    lemma_with_edge(b7, then_end, mn, None, false);
                                }
                                if !b8.g.exits.contains(else_end) {
                                    lemma_with_edge(b8, else_end, mn, None, false);
                                }
                            },
                            None => {},
                        }
                    },
                    None => {},
                }
            }
        },
        _ => {},
    }
}

/// Compiling a block from an existing node of a well-formed graph keeps it
/// well formed: every edge joins two nodes, every exit is a node and is
/// recorded once, node ids stay below the next id, and the entry is the same.
/// The block's end node exists and is an exit.
pub proof fn law_compile_well_formed(b: BuildV, ss: Seq<SourceStmt>, cur: usize)
    requires
        build_wf(b),
        has_key(b.g.nodes, cur),
    ensures
        match compile_block(b, ss, cur) {
            Some((b2, n)) => grows(b, b2) && has_key(b2.g.nodes, n) && b2.g.exits.contains(n),
            None => true,
        },
{
    lemma_compile_from_wf(b, ss, 0, cur);
    match compile_from(b, ss, 0, cur) {
        Some((b1, n)) => lemma_with_exit(b1, n),
        None => {},
    }
}

/// A new builder's graph is well formed.
pub proof fn law_initial_build_well_formed()
    ensures
        build_wf(initial_build()),
        has_key(initial_build().g.nodes, 0),
{
    let b = initial_build();
    assert(b.g.nodes[0].0 == 0);
}

} // verus!
