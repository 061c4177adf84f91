//! Upgrade-compatibility and safety analysis of Solana program sources:
//! type registries, account layouts, ABI fingerprints, control-flow graphs,
//! SSA versioning, guard facts and rule checks.
pub mod text;
pub mod maps;

pub mod types;
pub mod layout;
pub mod abi;
pub mod workspace;
pub mod diff;
pub mod ast;
pub mod source;
pub mod ssa;
pub mod cfg;
pub mod guards;
pub mod reach;
pub mod rules;
pub mod owner_rule;
pub mod audit;
pub mod cpi_rule;
pub mod spike;
pub mod syntax;
pub mod files;
pub mod report_order;

pub use abi::{ChangeType, DiffResult, Severity, AbiEngine};
pub use diff::{compare_workspaces, format_diff_results};
pub use ast::{
    ExpressionKind, ExpressionNode, InconclusiveReason, InferenceResult, InferenceScope, ParameterNode, StatementKind,
    StatementNode, TypeInferenceEngine,
};
pub use cfg::{CFGBoundaryWarning, CFGBuilder, CFGEdge, CFGNode, ControlFlowGraph};
pub use guards::{
    extract_guards_from_accounts_struct, DominanceInterval, FactConfidence, FactExpression, FactProvenance, GuardFact,
    GuardFactLocation, GuardTarget, InstructionAnalysisContext, SSAVersionId, SolanaProperty, SymbolId,
};
pub use ssa::{NodeSSAInfo, SSAComputer, SSANodeState, SSAVariable};
pub use rules::{DominanceChecker, FindingLocation, Rule, RuleDiagnostic, RuleEngine, RuleSeverity, SymbolResolver};
pub use owner_rule::OwnerValidationRule;
pub use cpi_rule::ArbitraryCpiTargetRule;
pub use workspace::Workspace;
pub use audit::{extract_context_struct_name, RawFunction, RawFunctionVisitor};
