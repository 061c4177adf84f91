use parser_v2::ast::{ExpressionKind, ExpressionNode, StatementKind, StatementNode};
use parser_v2::cfg::{CFGNode, ControlFlowGraph};
use parser_v2::cpi_rule::{expr_to_string, ArbitraryCpiTargetRule};
use parser_v2::guards::{InstructionAnalysisContext, SymbolId};
use parser_v2::maps::{IdMap, StrMap};
use parser_v2::rules::{DominanceChecker, SymbolResolver};
use parser_v2::ssa::{NodeSSAInfo, SSANodeState};
use parser_v2::types::{FieldDef, StructDef, TypeDef, TypeRef, TypeRegistry};
use parser_v2::Rule;

fn ident(name: &str) -> ExpressionNode {
    ExpressionNode { kind: ExpressionKind::Identifier(name.to_string()) }
}

fn invoke_stmt(program: &str, line: usize) -> StatementNode {
    let slice = ExpressionNode {
        kind: ExpressionKind::Reference {
            expression: Box::new(ExpressionNode {
                kind: ExpressionKind::MethodCall { object: Box::new(ident("vec")), method: "array".to_string(), arguments: vec![ident(program)] },
            }),
            is_mutable: false,
        },
    };
    StatementNode {
        kind: StatementKind::Semi(ExpressionNode {
            kind: ExpressionKind::MethodCall {
                object: Box::new(ident("solana_program")),
                method: "invoke".to_string(),
                arguments: vec![ident("ix"), slice],
            },
        }),
        line_number: line,
    }
}

fn graph(statements: Vec<StatementNode>) -> ControlFlowGraph {
    let n = statements.len();
    let mut nodes = IdMap::new();
    nodes.insert(0, CFGNode { id: 0, statements });
    let state = SSANodeState { active_variables: StrMap::new(), variable_types: StrMap::new() };
    let mut statement_states = Vec::new();
    for _ in 0..n {
        statement_states.push(state.clone());
    }
    let mut ssa_states = IdMap::new();
    ssa_states.insert(0, NodeSSAInfo { start_state: state.clone(), statement_states, end_state: state.clone() });
    ControlFlowGraph { nodes, edges: Vec::new(), entry_node: 0, exit_nodes: vec![0], boundary_warnings: Vec::new(), ssa_states }
}

fn context(name: &str, statements: Vec<StatementNode>) -> InstructionAnalysisContext {
    let mut symbol_table = StrMap::new();
    symbol_table.insert("target_program".to_string(), SymbolId(1));
    InstructionAnalysisContext {
        name: name.to_string(),
        guard_facts: Vec::new(),
        cfg: graph(statements),
        symbol_table,
        file_path: "lib.rs".to_string(),
        context_var_name: "ctx".to_string(),
    }
}

#[test]
fn cpi_to_unvalidated_program_is_reported() {
    let registry = TypeRegistry::new();
    let ctx = context("handle_swap", vec![invoke_stmt("target_program", 30)]);
    let resolver = SymbolResolver::new(&ctx);
    let dom = DominanceChecker::new(&ctx.cfg);
    let rule = ArbitraryCpiTargetRule::new(&registry, "prog".to_string());
    let diagnostics = rule.check(&ctx, &resolver, &dom);
    assert_eq!(diagnostics.len(), 1);
    let d = &diagnostics[0];
    assert_eq!(d.rule_id, "EPIC-SEC-005");
    assert_eq!(d.target_symbol, SymbolId(1));
    assert_eq!(d.location.line, 30);
    assert_eq!(d.location.statement_index, Some(0));
    assert_eq!(
        d.message,
        "Arbitrary CPI target program validation missing for program account 'target_program'. The program must be validated via static types (Program<'info, T>) or imperative checks (require!) dominating the invocation."
    );
}

#[test]
fn cpi_after_require_on_program_is_not_reported() {
    let registry = TypeRegistry::new();
    let check = StatementNode {
        kind: StatementKind::MacroCall { name: "require".to_string(), raw_args: "target_program.key()==expected".to_string() },
        line_number: 29,
    };
    let ctx = context("handle_swap", vec![check, invoke_stmt("target_program", 30)]);
    let resolver = SymbolResolver::new(&ctx);
    let dom = DominanceChecker::new(&ctx.cfg);
    let rule = ArbitraryCpiTargetRule::new(&registry, "prog".to_string());
    assert!(rule.check(&ctx, &resolver, &dom).is_empty());
}

#[test]
fn cpi_to_program_typed_field_is_not_reported() {
    let mut registry = TypeRegistry::new();
    registry.insert(
        "prog::Swap".to_string(),
        TypeDef::Struct(StructDef {
            name: "Swap".to_string(),
            is_account: false,
            fields: vec![FieldDef {
                name: "target_program".to_string(),
                type_ref: TypeRef::Custom("Program<'info,Token>".to_string()),
                attrs: vec![],
            }],
            attrs: vec![],
        }),
    );
    let ctx = context("handle_swap", vec![invoke_stmt("target_program", 30)]);
    let resolver = SymbolResolver::new(&ctx);
    let dom = DominanceChecker::new(&ctx.cfg);
    let rule = ArbitraryCpiTargetRule::new(&registry, "prog".to_string());
    assert!(rule.check(&ctx, &resolver, &dom).is_empty());
}

#[test]
fn cpi_to_non_program_account_is_not_reported() {
    let registry = TypeRegistry::new();
    let mut ctx = context("handle_swap", vec![invoke_stmt("vault", 30)]);
    ctx.symbol_table.insert("vault".to_string(), SymbolId(2));
    let resolver = SymbolResolver::new(&ctx);
    let dom = DominanceChecker::new(&ctx.cfg);
    let rule = ArbitraryCpiTargetRule::new(&registry, "prog".to_string());
    assert!(rule.check(&ctx, &resolver, &dom).is_empty());
}

#[test]
fn cpi_rule_metadata_and_text() {
    let registry = TypeRegistry::new();
    let rule = ArbitraryCpiTargetRule::new(&registry, "prog".to_string());
    assert_eq!(rule.id(), "EPIC-SEC-005");
    assert_eq!(rule.name(), "Arbitrary CPI Target Program Validation");
    let e = ExpressionNode {
        kind: ExpressionKind::BinaryOp {
            op: "==".to_string(),
            lhs: Box::new(ExpressionNode {
                kind: ExpressionKind::MethodCall { object: Box::new(ident("a")), method: "key".to_string(), arguments: vec![] },
            }),
            rhs: Box::new(ExpressionNode { kind: ExpressionKind::FieldAccess { object: Box::new(ident("b")), field: "c".to_string() } }),
        },
    };
    assert_eq!(expr_to_string(&e), "a.key() == b.c");
    assert_eq!(expr_to_string(&ExpressionNode { kind: ExpressionKind::Unresolved }), "");
}
