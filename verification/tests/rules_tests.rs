use parser_v2::ast::{ExpressionKind, ExpressionNode, StatementKind, StatementNode};
use parser_v2::cfg::{CFGEdge, CFGNode, ControlFlowGraph};
use parser_v2::guards::{
    FactConfidence, FactExpression, FactProvenance, GuardFact, GuardTarget, InstructionAnalysisContext, SSAVersionId,
    SolanaProperty, SymbolId,
};
use parser_v2::maps::{IdMap, StrMap};
use parser_v2::rules::{DominanceChecker, RuleEngine, SymbolResolver};
use parser_v2::owner_rule::OwnerValidationRule;
use parser_v2::ssa::{NodeSSAInfo, SSANodeState, SSAVariable};
use parser_v2::Rule;

fn ident(name: &str) -> ExpressionNode {
    ExpressionNode { kind: ExpressionKind::Identifier(name.to_string()) }
}

fn literal(v: &str) -> ExpressionNode {
    ExpressionNode { kind: ExpressionKind::Literal(v.to_string()) }
}

fn provenance() -> FactProvenance {
    FactProvenance {
        source_file: "lib.rs".to_string(),
        line_number: 1,
        column_number: 1,
        framework: "Anchor".to_string(),
        confidence_level: FactConfidence::Declared,
        node_id: None,
        statement_index: None,
    }
}

fn versioned(name: &str, version: usize) -> SSAVariable {
    SSAVariable::Versioned { name: name.to_string(), version }
}

fn single_node_cfg(statements: Vec<StatementNode>, names: &[&str]) -> ControlFlowGraph {
    let n = statements.len();
    let mut nodes = IdMap::new();
    nodes.insert(0, CFGNode { id: 0, statements });
    let mut active_variables = StrMap::new();
    for name in names {
        active_variables.insert(name.to_string(), versioned(name, 1));
    }
    let stmt_state = SSANodeState { active_variables, variable_types: StrMap::new() };
    let mut statement_states = Vec::new();
    for _ in 0..n {
        statement_states.push(stmt_state.clone());
    }
    let mut ssa_states = IdMap::new();
    ssa_states.insert(
        0,
        NodeSSAInfo { start_state: stmt_state.clone(), statement_states, end_state: stmt_state.clone() },
    );
    ControlFlowGraph {
        nodes,
        edges: Vec::new(),
        entry_node: 0,
        exit_nodes: vec![0],
        boundary_warnings: Vec::new(),
        ssa_states,
    }
}

fn context(guard_facts: Vec<(GuardFact, FactProvenance)>, cfg: ControlFlowGraph) -> InstructionAnalysisContext {
    InstructionAnalysisContext {
        name: "test_instruction".to_string(),
        guard_facts,
        cfg,
        symbol_table: StrMap::new(),
        file_path: String::new(),
        context_var_name: "ctx".to_string(),
    }
}

fn assign(name: &str, value: &str, line: usize) -> StatementNode {
    StatementNode {
        kind: StatementKind::Expr(ExpressionNode {
            kind: ExpressionKind::Assign { left: Box::new(ident(name)), right: Box::new(literal(value)) },
        }),
        line_number: line,
    }
}

#[test]
fn test_owner_validation_safe_vs_unsafe() {
    // 1. Setup variables
    let vault_symbol = SymbolId(1);
    let unchecked_symbol = SymbolId(2);

    // 2. A single block writing `vault = 10;` then `unchecked = 20;`
    let write_vault = assign("vault", "10", 10);
    let write_unchecked = assign("unchecked", "20", 11);
    let cfg = single_node_cfg(vec![write_vault, write_unchecked], &["vault", "unchecked"]);

    // 3. Guard facts: vault is owner-checked, unchecked is not
    let guard_facts = vec![
        (
            GuardFact::Owner {
                account: GuardTarget::Account(vault_symbol),
                expected_owner: FactExpression::Literal("program_id".to_string()),
            },
            provenance(),
        ),
        (
            GuardFact::KeyRelation {
                account: GuardTarget::Account(unchecked_symbol),
                field: SolanaProperty::IsWritable,
                target: GuardTarget::Literal("true".to_string()),
            },
            provenance(),
        ),
    ];
    let context = context(guard_facts, cfg);

    // 4. Register parameters inside resolver
    let mut engine = RuleEngine::new();
    engine.register_rule(Box::new(OwnerValidationRule));

    let mut resolver = SymbolResolver::new(&context);
    resolver.register_name("vault", vault_symbol);
    resolver.register_name("unchecked", unchecked_symbol);
    resolver.register_alias(SSAVersionId { symbol_id: vault_symbol, version: 1 }, vault_symbol);
    resolver.register_alias(SSAVersionId { symbol_id: unchecked_symbol, version: 1 }, unchecked_symbol);

    let dom_checker = DominanceChecker::new(&context.cfg);
    let rule = OwnerValidationRule;
    let diagnostics = rule.check(&context, &resolver, &dom_checker);

    println!("DIAGNOSTICS: {:#?}", diagnostics);

    // The write to `vault` is safe; the write to `unchecked` is reported.
    assert_eq!(diagnostics.len(), 1);
    assert_eq!(diagnostics[0].target_symbol, unchecked_symbol);
    assert_eq!(diagnostics[0].rule_id, "EPIC-SEC-001");
}

#[test]
fn test_owner_validation_wdg_transitive() {
    // let data = unchecked.try_borrow_mut_data();
    // let state = data;
    // state = 100;
    let unchecked_symbol = SymbolId(1);
    let data_symbol = SymbolId(2);
    let state_symbol = SymbolId(3);

    let let_data = StatementNode {
        kind: StatementKind::Let {
            name: "data".to_string(),
            initializer: ExpressionNode {
                kind: ExpressionKind::MethodCall {
                    object: Box::new(ident("unchecked")),
                    method: "try_borrow_mut_data".to_string(),
                    arguments: Vec::new(),
                },
            },
            type_annotation: None,
            is_mutable: true,
        },
        line_number: 10,
    };
    let let_state = StatementNode {
        kind: StatementKind::Let { name: "state".to_string(), initializer: ident("data"), type_annotation: None, is_mutable: true },
        line_number: 11,
    };
    let write_state = assign("state", "100", 12);
    let cfg = single_node_cfg(vec![let_data, let_state, write_state], &["unchecked", "data", "state"]);

    // The unchecked account has a signer fact but no owner check.
    let guard_facts = vec![(GuardFact::Signer(GuardTarget::Account(unchecked_symbol)), provenance())];
    let context = context(guard_facts, cfg);

    let mut resolver = SymbolResolver::new(&context);
    resolver.register_name("unchecked", unchecked_symbol);
    resolver.register_name("data", data_symbol);
    resolver.register_name("state", state_symbol);
    resolver.register_alias(SSAVersionId { symbol_id: unchecked_symbol, version: 1 }, unchecked_symbol);
    resolver.register_alias(SSAVersionId { symbol_id: data_symbol, version: 1 }, data_symbol);
    resolver.register_alias(SSAVersionId { symbol_id: state_symbol, version: 1 }, state_symbol);

    let dom_checker = DominanceChecker::new(&context.cfg);
    let rule = OwnerValidationRule;
    let diagnostics = rule.check(&context, &resolver, &dom_checker);

    println!("WDG DIAGNOSTICS: {:#?}", diagnostics);

    // The write on `state` traces back through `data` to `unchecked`.
    assert_eq!(diagnostics.len(), 1);
    assert_eq!(diagnostics[0].target_symbol, unchecked_symbol);
}

#[test]
fn owner_rule_reports_each_account_once_with_location_and_message() {
    let unchecked_symbol = SymbolId(7);
    let cfg = single_node_cfg(vec![assign("acc", "1", 20), assign("acc", "2", 21)], &["acc"]);
    let guard_facts = vec![(GuardFact::Signer(GuardTarget::Account(unchecked_symbol)), provenance())];
    let mut ctx = context(guard_facts, cfg);
    ctx.file_path = "programs/x/src/lib.rs".to_string();
    let mut resolver = SymbolResolver::new(&ctx);
    resolver.register_name("acc", unchecked_symbol);
    let dom_checker = DominanceChecker::new(&ctx.cfg);
    let diagnostics = OwnerValidationRule.check(&ctx, &resolver, &dom_checker);
    assert_eq!(diagnostics.len(), 1);
    let d = &diagnostics[0];
    assert_eq!(d.message, "Mutable write to account 'acc' lacks program owner verification.");
    assert_eq!(d.location.line, 20);
    assert_eq!(d.location.node_id, 0);
    assert_eq!(d.location.statement_index, None);
    assert_eq!(d.location.file, "programs/x/src/lib.rs");
    assert_eq!(d.confidence, FactConfidence::Asserted);
}

#[test]
fn owner_rule_ignores_owner_check_with_unknown_owner() {
    let sym = SymbolId(1);
    let cfg = single_node_cfg(vec![assign("acc", "1", 5)], &["acc"]);
    let guard_facts = vec![(
        GuardFact::Owner { account: GuardTarget::Account(sym), expected_owner: FactExpression::Unknown },
        provenance(),
    )];
    let ctx = context(guard_facts, cfg);
    let mut resolver = SymbolResolver::new(&ctx);
    resolver.register_name("acc", sym);
    let dom_checker = DominanceChecker::new(&ctx.cfg);
    let diagnostics = OwnerValidationRule.check(&ctx, &resolver, &dom_checker);
    assert_eq!(diagnostics.len(), 1);
    // A literal owner of 32 characters or more counts as a program id.
    let cfg2 = single_node_cfg(vec![assign("acc", "1", 5)], &["acc"]);
    let guard_facts2 = vec![(
        GuardFact::Owner {
            account: GuardTarget::Account(sym),
            expected_owner: FactExpression::Literal("11111111111111111111111111111111".to_string()),
        },
        provenance(),
    )];
    let ctx2 = context(guard_facts2, cfg2);
    let dom2 = DominanceChecker::new(&ctx2.cfg);
    let d2 = OwnerValidationRule.check(&ctx2, &resolver, &dom2);
    assert!(d2.is_empty());
}

#[test]
fn owner_rule_without_account_facts_reports_nothing() {
    let cfg = single_node_cfg(vec![assign("x", "1", 3)], &["x"]);
    let ctx = context(Vec::new(), cfg);
    let mut resolver = SymbolResolver::new(&ctx);
    resolver.register_name("x", SymbolId(1));
    let dom_checker = DominanceChecker::new(&ctx.cfg);
    assert!(OwnerValidationRule.check(&ctx, &resolver, &dom_checker).is_empty());
}

#[test]
fn owner_rule_metadata() {
    assert_eq!(OwnerValidationRule.id(), "EPIC-SEC-001");
    assert_eq!(OwnerValidationRule.name(), "Owner Validation Rule");
}

#[test]
fn rule_engine_runs_rules_in_order() {
    let sym = SymbolId(1);
    let cfg = single_node_cfg(vec![assign("acc", "1", 5)], &["acc"]);
    let guard_facts = vec![(GuardFact::Signer(GuardTarget::Account(sym)), provenance())];
    let ctx = context(guard_facts, cfg);
    let mut resolver = SymbolResolver::new(&ctx);
    resolver.register_name("acc", sym);
    let dom_checker = DominanceChecker::new(&ctx.cfg);
    let mut engine = RuleEngine::new();
    engine.register_rule(Box::new(OwnerValidationRule));
    engine.register_rule(Box::new(OwnerValidationRule));
    let all = engine.run_all(&ctx, &resolver, &dom_checker);
    assert_eq!(all.len(), 2);
    assert_eq!(all[0].target_symbol, sym);
    assert_eq!(all[1].target_symbol, sym);
    assert!(RuleEngine::new().run_all(&ctx, &resolver, &dom_checker).is_empty());
}

#[test]
fn dominance_within_a_node_follows_statement_order() {
    let cfg = single_node_cfg(vec![assign("a", "1", 1), assign("a", "2", 2)], &["a"]);
    let dom = DominanceChecker::new(&cfg);
    assert!(dom.dominates(0, None, 0, Some(1)));
    assert!(dom.dominates(0, Some(0), 0, Some(1)));
    assert!(!dom.dominates(0, Some(1), 0, Some(0)));
    assert!(!dom.dominates(0, Some(1), 0, Some(1)));
    assert!(!dom.dominates(0, Some(0), 0, None));
}

fn graph(n: usize, edges: &[(usize, usize)]) -> ControlFlowGraph {
    let mut nodes = IdMap::new();
    for id in 0..n {
        nodes.insert(id, CFGNode { id, statements: Vec::new() });
    }
    ControlFlowGraph {
        nodes,
        edges: edges.iter().map(|&(from, to)| CFGEdge { from, to, condition: None, is_early_return: false }).collect(),
        entry_node: 0,
        exit_nodes: vec![n - 1],
        boundary_warnings: Vec::new(),
        ssa_states: IdMap::new(),
    }
}

#[test]
fn dominance_in_a_diamond_and_a_chain() {
    // 0 -> 1 -> 3, 0 -> 2 -> 3
    let diamond = graph(4, &[(0, 1), (0, 2), (1, 3), (2, 3)]);
    let dom = DominanceChecker::new(&diamond);
    for b in 0..4 {
        assert!(dom.dominates(0, None, b, None));
        assert!(dom.dominates(0, None, b, Some(0)));
    }
    assert!(!dom.dominates(1, None, 3, None));
    assert!(!dom.dominates(2, None, 3, None));
    assert!(!dom.dominates(3, None, 1, None));

    // 0 -> 1 -> 2: each node dominates the later ones, transitively.
    let chain = graph(3, &[(0, 1), (1, 2)]);
    let dom = DominanceChecker::new(&chain);
    assert!(dom.dominates(0, None, 1, None));
    assert!(dom.dominates(1, None, 2, None));
    assert!(dom.dominates(0, None, 2, None));
    assert!(!dom.dominates(2, None, 1, None));
}
