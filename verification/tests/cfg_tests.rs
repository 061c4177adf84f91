use parser_v2::cfg::{CFGBoundaryWarning, CFGBuilder};
use parser_v2::source::{SourceExpr, SourceExprKind, SourceStmt, SourceStmtKind};
use parser_v2::syntax::parse_expr_text;

/// The statements of a block written as text.
fn block(source: &str) -> Vec<SourceStmt> {
    match parse_expr_text(source).unwrap().kind {
        SourceExprKind::Block(stmts) => stmts,
        _ => panic!("not a block"),
    }
}

fn ex(kind: SourceExprKind, text: &str) -> SourceExpr {
    SourceExpr { kind, text: text.to_string() }
}

fn path(name: &str) -> SourceExpr {
    ex(SourceExprKind::Path, name)
}

fn lit(v: &str) -> SourceExpr {
    ex(SourceExprKind::Lit, v)
}

fn call(func: &str) -> SourceExpr {
    ex(SourceExprKind::Call { func: Box::new(path(func)), args: vec![] }, &format!("{}()", func))
}

fn try_of(inner: SourceExpr) -> SourceExpr {
    let text = format!("{}?", inner.text);
    ex(SourceExprKind::Try(Box::new(inner)), &text)
}

fn local(name: &str, init: SourceExpr, line: usize) -> SourceStmt {
    SourceStmt { kind: SourceStmtKind::Local { binding: Some(name.to_string()), mutable: false, init: Some(init) }, line }
}

fn expr_stmt(expr: SourceExpr, semi: bool, line: usize) -> SourceStmt {
    SourceStmt { kind: SourceStmtKind::Expr { expr, semi }, line }
}

fn if_else(cond: &str, then_branch: Vec<SourceStmt>, else_branch: Option<Vec<SourceStmt>>, line: usize) -> SourceStmt {
    let else_expr = else_branch.map(|b| Box::new(ex(SourceExprKind::Block(b), "{}")));
    expr_stmt(
        ex(SourceExprKind::If { cond: Box::new(path(cond)), then_branch, else_branch: else_expr }, "if"),
        false,
        line,
    )
}

#[test]
fn test_cfg_sequential_statements() {
    let source = r#"{
        let x = 5;
        let y = 10;
        let z = x + y;
    }"#;

    let stmts = block(source);
    let mut builder = CFGBuilder::new();
    let end_node = builder.compile_statements(&stmts, 0).unwrap();

    assert_eq!(end_node, 0); // Sequential block stays in current node
    let node = builder.graph.nodes.get(0).unwrap();
    assert_eq!(node.statements.len(), 3);
    assert_eq!(builder.graph.edges.len(), 0);
}

#[test]
fn test_cfg_if_else_branches() {
    let source = r#"{
        if cond {
            let x = 1;
        } else {
            let y = 2;
        }
    }"#;

    let stmts = block(source);
    let mut builder = CFGBuilder::new();
    let end_node = builder.compile_statements(&stmts, 0).unwrap();

    // 0 is entry/guard. If split creates: then_node(1), else_node(2), merge_node(3)
    assert_eq!(end_node, 3);
    assert_eq!(builder.graph.nodes.len(), 4); // 0, 1, 2, 3
    assert_eq!(builder.graph.edges.len(), 4); // 0->1, 0->2, 1->3, 2->3
}

#[test]
fn test_cfg_try_operator_split() {
    let source = r#"{
        let vault = unpack()?;
        let x = 5;
    }"#;

    let stmts = block(source);
    let mut builder = CFGBuilder::new();
    let end_node = builder.compile_statements(&stmts, 0).unwrap();

    // 0 has Try, splits to early_return(1) and sequential(2)
    assert_eq!(end_node, 2);
    assert_eq!(builder.graph.nodes.len(), 3); // 0, 1, 2
    assert_eq!(builder.graph.edges.len(), 2); // 0->1 (early exit), 0->2 (success)
    assert!(builder.graph.exit_nodes.contains(&1));
    assert!(builder.graph.exit_nodes.contains(&2));
}

#[test]
fn test_cfg_boundary_warnings_loops_matches() {
    let source = r#"{
        for i in 0..10 {
            let x = i;
        }
        match val {
            1 => {},
            _ => {},
        }
    }"#;

    let stmts = block(source);
    let mut builder = CFGBuilder::new();
    let _ = builder.compile_statements(&stmts, 0).unwrap();

    assert!(builder
        .graph
        .boundary_warnings
        .contains(&CFGBoundaryWarning::LoopDetected));
    assert!(builder
        .graph
        .boundary_warnings
        .contains(&CFGBoundaryWarning::MatchExpression));
}

#[test]
fn test_cfg_return_termination() {
    let source = r#"{
        if cond {
            return Err(e);
        }
        let y = 10;
    }"#;

    let stmts = block(source);
    let mut builder = CFGBuilder::new();
    let end_node = builder.compile_statements(&stmts, 0).unwrap();

    // 0 is entry, if split creates then_node(1), else_node(2), merge_node(3).
    // But since then_node (1) contains return, it terminates.
    // So only else_node (2) merges to merge_node (3).
    assert_eq!(end_node, 3);
    assert!(builder.graph.exit_nodes.contains(&1)); // then_node is terminal exit

    // Check edges: no edge from 1 (then_node) to 3 (merge_node)
    for edge in &builder.graph.edges {
        assert_ne!((edge.from, edge.to), (1, 3));
    }
}

#[test]
fn test_cfg_multiple_try_operators() {
    let source = r#"{
        let res = f()? + g()?;
    }"#;

    let stmts = block(source);
    let mut builder = CFGBuilder::new();
    let end_node = builder.compile_statements(&stmts, 0).unwrap();

    // 2 try operators should trigger 2 separate splits.
    // 0 has first try -> exit(1) and seq(2)
    // 2 has second try -> exit(3) and seq(4)
    assert_eq!(end_node, 4);
    assert_eq!(builder.graph.nodes.len(), 5); // 0, 1, 2, 3, 4
    assert!(builder.graph.exit_nodes.contains(&1));
    assert!(builder.graph.exit_nodes.contains(&3));
    assert!(builder.graph.exit_nodes.contains(&4));
}

#[test]
fn cfg_new_builder_has_only_the_entry_node() {
    let builder = CFGBuilder::new();
    assert_eq!(builder.graph.nodes.len(), 1);
    assert_eq!(builder.graph.entry_node, 0);
    assert_eq!(builder.next_node_id, 1);
    assert!(builder.graph.edges.is_empty());
}

#[test]
fn cfg_branch_condition_labels_the_then_edge() {
    let stmts = vec![if_else("flag", vec![local("x", lit("1"), 3)], None, 2)];
    let mut builder = CFGBuilder::new();
    let _ = builder.compile_statements(&stmts, 0).unwrap();
    let then_edge = builder.graph.edges.iter().find(|e| e.from == 0 && e.to == 1).unwrap();
    assert!(then_edge.condition.is_some());
    let else_edge = builder.graph.edges.iter().find(|e| e.from == 0 && e.to == 2).unwrap();
    assert!(else_edge.condition.is_none());
}

#[test]
fn find_tries_lists_innermost_first_and_has_try_skips_call_arguments() {
    let inner = try_of(call("a"));
    let outer = try_of(ex(SourceExprKind::MethodCall { receiver: Box::new(inner), method: "b".to_string(), args: vec![] }, "a()?.b()"));
    let mut list = Vec::new();
    parser_v2::cfg::find_tries(&outer, &mut list);
    assert_eq!(list.len(), 2);
    assert_eq!(list[0].text, "a()?");
    assert_eq!(list[1].text, "a()?.b()?");
    assert!(parser_v2::cfg::has_try_operator(&outer));
    let in_call_arg = ex(SourceExprKind::Call { func: Box::new(path("f")), args: vec![try_of(call("g"))] }, "f(g()?)");
    assert!(!parser_v2::cfg::has_try_operator(&in_call_arg));
    let mut l2 = Vec::new();
    parser_v2::cfg::find_tries(&in_call_arg, &mut l2);
    assert_eq!(l2.len(), 1);
}

#[test]
fn empty_block_from_a_missing_node_ends_there() {
    let mut builder = CFGBuilder::new();
    assert_eq!(builder.compile_statements(&vec![], 5).unwrap(), 5);
    assert!(builder.graph.exit_nodes.contains(&5));
    assert_eq!(builder.graph.nodes.len(), 1);
}

#[test]
fn checkpoint_first_from_a_missing_node_is_admitted() {
    // The statement goes to the node after the checkpoint, which is created.
    let mut builder = CFGBuilder::new();
    let end = builder.compile_statements(&block("{ let v = f()?; }"), 7).unwrap();
    assert!(builder.graph.nodes.get(end).unwrap().statements.len() == 1);
}
