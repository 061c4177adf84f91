//! EPIC-SEC-001: a mutable write to an account whose program owner is never
//! verified before the write.
use vstd::prelude::*;
use vstd::string::StringSliceAdditionalSpecFns;
use crate::maps::{StrMap, IdMap, lookup, has_key, assoc_insert, assoc_remove};
use crate::ast::{ExpressionNode, ExpressionKind, StatementNode, StatementKind, ExprV, StmtV, StmtKindV};
use crate::guards::{SymbolId, FactV, ProvV, FactExprV, FactConfidence, InstructionAnalysisContext, CtxV, GuardFact, FactExpression};
use crate::ssa::{SSANodeState, SSAVariable, SSAVarV, StateV};
use crate::cfg::GraphV;
use crate::rules::{ResolverV, SymbolResolver, DominanceChecker, RuleDiagnostic, RuleSeverity, FindingLocation, DiagV, Rule,
    resolve_spec, dominates_spec, diags_view};

verus! {

// ---------------------------------------------------------------------------
// The model.

/// Methods that hand out a mutable view of an account's data.
pub open spec fn borrows_mut(m: Seq<char>) -> bool {
    m == "try_borrow_mut_data"@ || m == "borrow_mut"@ || m == "try_borrow_mut"@
}

/// The symbol whose data an initializer derives from.
pub open spec fn init_source(r: ResolverV, e: ExprV, st: StateV) -> Option<SymbolId>
    decreases e,
{
    match e {
        ExprV::MethodCall { object, method, .. } => if borrows_mut(method) {
            resolve_spec(r, *object, st)
        } else {
            init_source(r, *object, st)
        },
        ExprV::Reference { expression, .. } => init_source(r, *expression, st),
        ExprV::FieldAccess { object, .. } => match resolve_spec(r, e, st) {
            Some(s) => Some(s),
            None => init_source(r, *object, st),
        },
        ExprV::Identifier(_) => resolve_spec(r, e, st),
        ExprV::Try(x) => init_source(r, *x, st),
        _ => None,
    }
}

/// What an expression writes to: an assignment's target, or the receiver of
/// a mutable borrow.
pub open spec fn write_target(e: ExprV) -> Option<ExprV>
    decreases e,
{
    match e {
        ExprV::Assign { left, .. } => Some(*left),
        ExprV::MethodCall { object, method, .. } => if borrows_mut(method) { Some(*object) } else { None },
        ExprV::Try(x) => write_target(*x),
        _ => None,
    }
}

/// What a statement writes to.
pub open spec fn stmt_write_target(s: StmtV) -> Option<ExprV> {
    match s.kind {
        StmtKindV::Expr(e) => write_target(e),
        StmtKindV::Semi(e) => write_target(e),
        StmtKindV::Let { initializer, .. } => write_target(initializer),
        _ => None,
    }
}

/// Following parent links from `sym` for at most `fuel` steps, stopping at a
/// symbol without a parent or at one already passed.
pub open spec fn trace_fuel(pm: Seq<(usize, SymbolId)>, sym: SymbolId, visited: Seq<usize>, fuel: nat) -> SymbolId
    decreases fuel,
{
    if fuel == 0 {
        sym
    } else {
        match lookup(pm, sym.0) {
            Some(p) => if visited.contains(sym.0) { sym } else { trace_fuel(pm, p, visited.push(sym.0), (fuel - 1) as nat) },
            None => sym,
        }
    }
}

/// The resource a symbol is derived from.
pub open spec fn trace_root(pm: Seq<(usize, SymbolId)>, sym: SymbolId) -> SymbolId {
    trace_fuel(pm, sym, Seq::empty(), (pm.len() + 1) as nat)
}

/// The account a fact is about (none for custom facts).
pub open spec fn fact_account(f: FactV) -> Option<SymbolId> {
    match f {
        FactV::Signer(a) => crate::guards::target_symbol(a),
        FactV::Owner { account, .. } => crate::guards::target_symbol(account),
        FactV::KeyRelation { account, .. } => crate::guards::target_symbol(account),
        FactV::PDA { account, .. } => crate::guards::target_symbol(account),
        FactV::Initialized { account, .. } => crate::guards::target_symbol(account),
        FactV::Resized { account, .. } => crate::guards::target_symbol(account),
        FactV::Deallocated { account, .. } => crate::guards::target_symbol(account),
        FactV::Custom { .. } => None,
    }
}

/// Some fact is about account `sym`.
pub open spec fn is_account(facts: Seq<(FactV, ProvV)>, sym: SymbolId) -> bool {
    exists|i: int| 0 <= i < facts.len() && fact_account(#[trigger] facts[i].0) == Some(sym)
}

/// An expected owner that names the program (or a known program), or any
/// non-literal expression.
pub open spec fn valid_owner(e: FactExprV) -> bool {
    match e {
        FactExprV::Literal(v) => v == "program_id"@ || v == "ID"@ || v == "crate::ID"@ || v == "super::ID"@
            || v == "spl_token"@ || v == "token_program"@ || crate::abi::enc(v).len() >= 32,
        FactExprV::Unknown => false,
        _ => true,
    }
}

/// A valid owner check on `sym` dominates statement `stmt` of node `node`.
pub open spec fn owner_checked(facts: Seq<(FactV, ProvV)>, sym: SymbolId, node: usize, stmt: usize, g: GraphV) -> bool {
    exists|i: int| 0 <= i < facts.len() && #[trigger] owner_fact_dominates(facts[i], sym, node, stmt, g)
}

/// `f` is a valid owner check on `sym` dominating statement `stmt` of node `node`.
pub open spec fn owner_fact_dominates(f: (FactV, ProvV), sym: SymbolId, node: usize, stmt: usize, g: GraphV) -> bool {
    match f.0 {
        FactV::Owner { account, expected_owner } =>
            crate::guards::target_symbol(account) == Some(sym) && valid_owner(expected_owner)
                && dominates_spec(g, match f.1.node_id { Some(n) => n, None => 0 }, f.1.statement_index, node, Some(stmt)),
        _ => false,
    }
}

/// The first name registered for `sym`, else its debug rendering.
pub open spec fn symbol_name(names: Seq<(Seq<char>, SymbolId)>, sym: SymbolId) -> Seq<char>
    decreases names.len(),
{
    if names.len() == 0 {
        "SymbolId("@ + crate::text::decimal(sym.0 as nat) + ")"@
    } else if names[0].1 == sym {
        names[0].0
    } else {
        symbol_name(names.drop_first(), sym)
    }
}

/// The state of the check: parent links, findings, reported symbols,
/// version counters and SSA state.
pub struct OwnerState {
    pub pm: Seq<(usize, SymbolId)>,
    pub diags: Seq<DiagV>,
    pub reported: Seq<SymbolId>,
    pub ctr: Seq<(Seq<char>, usize)>,
    pub st: StateV,
}

/// What the check reads besides the statements.
pub struct OwnerEnv {
    pub r: ResolverV,
    pub facts: Seq<(FactV, ProvV)>,
    pub dom: GraphV,
    pub file: Seq<char>,
}

/// Binds `name` to a new version typed from `init`, and links its symbol to
/// the resource `init` derives from.
pub open spec fn bind_tracked(r: ResolverV, os: OwnerState, name: Seq<char>, init: ExprV) -> OwnerState {
    let (c2, v) = crate::ssa::next_version(os.ctr, name);
    let st2 = crate::ssa::bind_version(os.st, name, v, init);
    let pm2 = match lookup(r.names, name) {
        Some(l) => match init_source(r, init, st2) {
            Some(p) => assoc_insert(os.pm, l.0, p),
            None => os.pm,
        },
        None => os.pm,
    };
    OwnerState { pm: pm2, ctr: c2, st: st2, ..os }
}

/// The names `let` binds directly in `ss`, in order.
pub open spec fn let_names(ss: Seq<StmtV>) -> Seq<Seq<char>>
    decreases ss.len(),
{
    if ss.len() == 0 {
        Seq::empty()
    } else {
        let_names(ss.drop_last()) + match ss.last().kind {
            StmtKindV::Let { name, .. } => seq![name],
            _ => Seq::empty(),
        }
    }
}

/// The parent links of the symbols of `names` before a block.
pub open spec fn saved_parents(pm: Seq<(usize, SymbolId)>, names_tbl: Seq<(Seq<char>, SymbolId)>, names: Seq<Seq<char>>) -> Seq<(usize, SymbolId)>
    decreases names.len(),
{
    if names.len() == 0 {
        Seq::empty()
    } else {
        let b = saved_parents(pm, names_tbl, names.drop_last());
        match lookup(names_tbl, names.last()) {
            Some(s) => match lookup(pm, s.0) {
                Some(p) => assoc_insert(b, s.0, p),
                None => b,
            },
            None => b,
        }
    }
}

/// The parent links after a block: each declared symbol gets back its link
/// from before the block, or loses it.
pub open spec fn restore_parents(pm: Seq<(usize, SymbolId)>, saved: Seq<(usize, SymbolId)>, names_tbl: Seq<(Seq<char>, SymbolId)>,
    names: Seq<Seq<char>>) -> Seq<(usize, SymbolId)>
    decreases names.len(),
{
    if names.len() == 0 {
        pm
    } else {
        let p = restore_parents(pm, saved, names_tbl, names.drop_last());
        match lookup(names_tbl, names.last()) {
            Some(s) => match lookup(saved, s.0) {
                Some(q) => assoc_insert(p, s.0, q),
                None => assoc_remove(p, s.0),
            },
            None => p,
        }
    }
}

/// An assignment `x = e` where `e` derives from an account only aliases it.
pub open spec fn aliases_account(r: ResolverV, facts: Seq<(FactV, ProvV)>, pm: Seq<(usize, SymbolId)>, st: StateV, s: StmtV) -> bool {
    let e = match s.kind {
        StmtKindV::Expr(e) => Some(e),
        StmtKindV::Semi(e) => Some(e),
        _ => None,
    };
    match e {
        Some(ExprV::Assign { left, right }) => match *left {
            ExprV::Identifier(_) => match init_source(r, *right, st) {
                Some(rs) => is_account(facts, trace_root(pm, rs)),
                None => false,
            },
            _ => false,
        },
        _ => false,
    }
}

/// The finding for a write to account `root` at a statement on `line` of node `node`.
pub open spec fn owner_diag(env: OwnerEnv, root: SymbolId, line: usize, node: usize) -> DiagV {
    DiagV {
        rule_id: "EPIC-SEC-001"@,
        severity: RuleSeverity::Critical,
        message: "Mutable write to account '"@ + symbol_name(env.r.names, root) + "' lacks program owner verification."@,
        file: env.file,
        line,
        column: 0,
        node_id: node,
        statement_index: None,
        confidence: FactConfidence::Asserted,
        target_symbol: root,
    }
}

/// The account that statement `s` writes to without an owner check
/// dominating the start of its node, if it was not reported before.
pub open spec fn new_finding(env: OwnerEnv, pm: Seq<(usize, SymbolId)>, st: StateV, reported: Seq<SymbolId>, s: StmtV, node: usize)
    -> Option<SymbolId>
{
    if aliases_account(env.r, env.facts, pm, st, s) {
        None
    } else {
        match stmt_write_target(s) {
            Some(we) => match resolve_spec(env.r, we, st) {
                Some(b) => {
                    let root = trace_root(pm, b);
                    if is_account(env.facts, root) && !owner_checked(env.facts, root, node, 0, env.dom) && !reported.contains(root) {
                        Some(root)
                    } else {
                        None
                    }
                },
                None => None,
            },
            None => None,
        }
    }
}

/// Reports a write of statement `s` to an account without an owner check
/// dominating the start of its node (once per account).
pub open spec fn write_check(env: OwnerEnv, os: OwnerState, s: StmtV, node: usize) -> OwnerState {
    match new_finding(env, os.pm, os.st, os.reported, s, node) {
        Some(root) => OwnerState {
            diags: os.diags.push(owner_diag(env, root, s.line_number, node)),
            reported: os.reported.push(root),
            ..os
        },
        None => os,
    }
}

/// One statement: versions and parent links, blocks scoped, then the write check.
pub open spec fn check_stmt(env: OwnerEnv, os: OwnerState, s: StmtV, node: usize) -> OwnerState
    decreases s, 1nat,
{
    write_check(env, stmt_effect(env, os, s, node), s, node)
}

/// What a statement does to versions and parent links; a block is checked
/// inside, and its declarations go out of scope after it.
pub open spec fn stmt_effect(env: OwnerEnv, os: OwnerState, s: StmtV, node: usize) -> OwnerState
    decreases s, 0nat,
{
    match s.kind {
        StmtKindV::Let { name, initializer, .. } => bind_tracked(env.r, os, name, initializer),
        StmtKindV::Expr(e) => assign_tracked(env.r, os, e),
        StmtKindV::Semi(e) => assign_tracked(env.r, os, e),
        StmtKindV::Block(inner) => {
            let declared = let_names(inner);
            let saved = saved_parents(os.pm, env.r.names, declared);
            let after = check_stmts(env, os, inner, 0, node);
            OwnerState {
                pm: restore_parents(after.pm, saved, env.r.names, declared),
                st: StateV { active: crate::ssa::restore(after.st.active, os.st.active, declared), types: after.st.types },
                ..after
            }
        },
        StmtKindV::MacroCall { .. } => os,
    }
}

/// An assignment to an active name gets a new version and a new parent link.
pub open spec fn assign_tracked(r: ResolverV, os: OwnerState, e: ExprV) -> OwnerState {
    match e {
        ExprV::Assign { left, right } => match *left {
            ExprV::Identifier(n) => if has_key(os.st.active, n) { bind_tracked(r, os, n, *right) } else { os },
            _ => os,
        },
        _ => os,
    }
}

/// The statements `ss[i..]`.
pub open spec fn check_stmts(env: OwnerEnv, os: OwnerState, ss: Seq<StmtV>, i: int, node: usize) -> OwnerState
    decreases ss, ss.len() - i,
{
    if i < 0 || i >= ss.len() {
        os
    } else {
        check_stmts(env, check_stmt(env, os, ss[i], node), ss, i + 1, node)
    }
}

/// Version counters from the active versioned names.
pub open spec fn counters_from(active: Seq<(Seq<char>, SSAVarV)>) -> Seq<(Seq<char>, usize)>
    decreases active.len(),
{
    if active.len() == 0 {
        Seq::empty()
    } else {
        let c = counters_from(active.drop_last());
        match active.last().1 {
            SSAVarV::Versioned { name, version } => assoc_insert(c, name, version),
            _ => c,
        }
    }
}

/// The nodes `order[..k]`, each from its SSA start state.
pub open spec fn check_nodes(env: OwnerEnv, g: GraphV, order: Seq<usize>, k: int, pm: Seq<(usize, SymbolId)>,
    diags: Seq<DiagV>, reported: Seq<SymbolId>) -> (Seq<(usize, SymbolId)>, Seq<DiagV>, Seq<SymbolId>)
    decreases k,
{
    if k <= 0 {
        (pm, diags, reported)
    } else {
        let (pm1, d1, r1) = check_nodes(env, g, order, k - 1, pm, diags, reported);
        let u = order[k - 1];
        match (lookup(g.nodes, u), lookup(g.ssa, u)) {
            (Some(n), Some(info)) => {
                let os = OwnerState { pm: pm1, diags: d1, reported: r1, ctr: counters_from(info.start.active), st: info.start };
                let after = check_stmts(env, os, n.statements, 0, u);
                (after.pm, after.diags, after.reported)
            },
            _ => (pm1, d1, r1),
        }
    }
}

/// The findings of the rule in a handler.
pub open spec fn owner_findings(ctx: CtxV, r: ResolverV, dom: GraphV) -> Seq<DiagV> {
    let env = owner_env(ctx, r, dom);
    let order = crate::rules::rpo(ctx.cfg);
    check_nodes(env, ctx.cfg, order, order.len() as int, Seq::empty(), Seq::empty(), Seq::empty()).1
}

} // verus!

verus! {

/// The check's environment for a handler, its resolver and dominance graph.
pub open spec fn owner_env(ctx: CtxV, r: ResolverV, dom: GraphV) -> OwnerEnv {
    OwnerEnv { r, facts: ctx.facts, dom, file: ctx.file }
}

/// The model of the check's state.
pub open spec fn ostate(pm: IdMap<SymbolId>, diags: Seq<RuleDiagnostic>, reported: Seq<SymbolId>, ctr: StrMap<usize>, st: SSANodeState) -> OwnerState {
    OwnerState { pm: pm.pairs(), diags: diags_view(diags), reported, ctr: ctr.pairs(), st: st@ }
}

/// Flags writes to accounts whose program owner is never verified.
pub struct OwnerValidationRule;

pub(crate) fn contains_symbol(v: &Vec<SymbolId>, s: SymbolId) -> (r: bool)
    ensures
        r == v@.contains(s),
{
    let mut i: usize = 0;
    while i < v.len()
        invariant
            i <= v@.len(),
            forall|j: int| 0 <= j < i ==> v@[j] != s,
        decreases v@.len() - i,
    {
        if v[i] == s {
            assert(v@[i as int] == s);
            return true;
        }
        i += 1;
    }
    false
}

impl OwnerValidationRule {
    fn borrows_mut_exec(m: &str) -> (r: bool)
        ensures
            r == borrows_mut(m@),
    {
        crate::text::str_eq(m, "try_borrow_mut_data") || crate::text::str_eq(m, "borrow_mut") || crate::text::str_eq(m, "try_borrow_mut")
    }

    /// The symbol whose data an initializer derives from.
    fn find_initializer_source(&self, expr: &ExpressionNode, resolver: &SymbolResolver, ssa_state: &SSANodeState) -> (r: Option<SymbolId>)
        ensures
            r == init_source(resolver@, expr@, ssa_state@),
        decreases expr,
    {
        match &expr.kind {
            ExpressionKind::MethodCall { object, method, .. } => {
                if Self::borrows_mut_exec(method.as_str()) {
                    return resolver.resolve_expr(object, ssa_state);
                }
                self.find_initializer_source(object, resolver, ssa_state)
            },
            ExpressionKind::Reference { expression, .. } => self.find_initializer_source(expression, resolver, ssa_state),
            ExpressionKind::FieldAccess { object, .. } => match resolver.resolve_expr(expr, ssa_state) {
                Some(s) => Some(s),
                None => self.find_initializer_source(object, resolver, ssa_state),
            },
            ExpressionKind::Identifier(_) => resolver.resolve_expr(expr, ssa_state),
            ExpressionKind::Try(inner) => self.find_initializer_source(inner, resolver, ssa_state),
            _ => None,
        }
    }

    /// What an expression writes to.
    fn get_expr_write_target<'a>(&self, expr: &'a ExpressionNode) -> (r: Option<&'a ExpressionNode>)
        ensures
            match r {
                Some(x) => write_target(expr@) == Some(x@),
                None => write_target(expr@) is None,
            },
        decreases expr,
    {
        match &expr.kind {
            ExpressionKind::Assign { left, .. } => Some(left),
            ExpressionKind::MethodCall { object, method, .. } => {
                if Self::borrows_mut_exec(method.as_str()) {
                    Some(object)
                } else {
                    None
                }
            },
            ExpressionKind::Try(inner) => self.get_expr_write_target(inner),
            _ => None,
        }
    }

    /// What a statement writes to.
    fn get_mutable_write_expression<'a>(&self, stmt: &'a StatementNode) -> (r: Option<&'a ExpressionNode>)
        ensures
            match r {
                Some(x) => stmt_write_target(stmt@) == Some(x@),
                None => stmt_write_target(stmt@) is None,
            },
    {
        match &stmt.kind {
            StatementKind::Expr(e) | StatementKind::Semi(e) => self.get_expr_write_target(e),
            StatementKind::Let { initializer, .. } => self.get_expr_write_target(initializer),
            _ => None,
        }
    }

    /// The resource `sym` derives from, following parent links.
    fn trace_to_root(&self, sym: SymbolId, parent_map: &IdMap<SymbolId>) -> (r: SymbolId)
        ensures
            r == trace_root(parent_map.pairs(), sym),
    {
        let ghost pm = parent_map.pairs();
        let n = parent_map.len();
        let ghost keys = crate::maps::keys_of(pm);
        let mut s = sym;
        let mut visited: Vec<usize> = Vec::new();
        loop
            invariant
                pm == parent_map.pairs(),
                n == pm.len(),
                keys == crate::maps::keys_of(pm),
                crate::maps::distinct_keys(pm),
                visited@.no_duplicates(),
                forall|x: usize| visited@.contains(x) ==> keys.contains(x),
                visited@.len() <= n,
                trace_root(pm, sym) == trace_fuel(pm, s, visited@, (n + 1 - visited@.len()) as nat),
            decreases n + 1 - visited@.len(),
        {
            match parent_map.get(s.0) {
                Some(p) => {
                    if contains_id_exec(&visited, s.0) {
                        return s;
                    }
                    proof {
                        let vv = visited@.push(s.0);
                        assert(crate::maps::has_key(pm, s.0));
                        let ki = crate::maps::key_index(pm, s.0);
                        assert(keys[ki] == s.0);
                        vv.unique_seq_to_set();
                        keys.lemma_cardinality_of_set();
                        assert forall|x: usize| vv.to_set().contains(x) implies keys.to_set().contains(x) by {
                            if x != s.0 {
                                assert(visited@.contains(x));
                            }
                        }
                        vstd::set_lib::lemma_len_subset(vv.to_set(), keys.to_set());
                    }
                    let ghost vis0 = visited@;
                    visited.push(s.0);
                    proof {
                        assert forall|x: usize| visited@.contains(x) implies keys.contains(x) by {
                            if x != s.0 {
                                assert(vis0.contains(x));
                            } else {
                                let ki = crate::maps::key_index(pm, s.0);
                                assert(keys[ki] == x);
                            }
                        }
                    }
                    s = *p;
                },
                None => return s,
            }
        }
    }

    /// Whether some fact is about account `sym`.
    fn is_account_symbol(&self, sym: SymbolId, context: &InstructionAnalysisContext) -> (r: bool)
        ensures
            r == is_account(crate::guards::facts_view(context.guard_facts@), sym),
    {
        let ghost fv = crate::guards::facts_view(context.guard_facts@);
        let mut i: usize = 0;
        while i < context.guard_facts.len()
            invariant
                fv == crate::guards::facts_view(context.guard_facts@),
                i <= context.guard_facts@.len(),
                forall|j: int| 0 <= j < i ==> fact_account(#[trigger] fv[j].0) != Some(sym),
            decreases context.guard_facts@.len() - i,
        {
            let acc = match &context.guard_facts[i].0 {
                GuardFact::Owner { account, .. } | GuardFact::Signer(account) | GuardFact::KeyRelation { account, .. }
                | GuardFact::PDA { account, .. } | GuardFact::Initialized { account, .. } | GuardFact::Resized { account, .. }
                | GuardFact::Deallocated { account, .. } => account.symbol_id(),
                _ => None,
            };
            assert(fv[i as int].0 == context.guard_facts@[i as int].0@);
            if acc == Some(sym) {
                return true;
            }
            i += 1;
        }
        false
    }

    /// Whether an expected owner names the program (or a known program).
    fn is_valid_expected_owner(&self, expected_owner: &FactExpression) -> (r: bool)
        ensures
            r == valid_owner(expected_owner@),
    {
        match expected_owner {
            FactExpression::Literal(val) => {
                let v = val.as_str();
                let n = v.as_bytes().len();
                assert(n as int == crate::abi::enc(val@).len());
                crate::text::str_eq(v, "program_id") || crate::text::str_eq(v, "ID") || crate::text::str_eq(v, "crate::ID")
                    || crate::text::str_eq(v, "super::ID") || crate::text::str_eq(v, "spl_token")
                    || crate::text::str_eq(v, "token_program") || n >= 32
            },
            FactExpression::Unknown => false,
            _ => true,
        }
    }

    /// Whether a valid owner check on `sym` dominates statement `stmt_idx` of node `node_id`.
    fn has_dominating_owner_check(&self, sym: SymbolId, node_id: usize, stmt_idx: usize, context: &InstructionAnalysisContext,
        dom_checker: &DominanceChecker) -> (r: bool)
        ensures
            r == owner_checked(crate::guards::facts_view(context.guard_facts@), sym, node_id, stmt_idx, dom_checker.cfg@),
    {
        let ghost fv = crate::guards::facts_view(context.guard_facts@);
        let mut i: usize = 0;
        while i < context.guard_facts.len()
            invariant
                fv == crate::guards::facts_view(context.guard_facts@),
                i <= context.guard_facts@.len(),
                forall|j: int| 0 <= j < i ==> !(#[trigger] owner_fact_dominates(fv[j], sym, node_id, stmt_idx, dom_checker.cfg@)),
            decreases context.guard_facts@.len() - i,
        {
            let (fact, prov) = &context.guard_facts[i];
            assert(fv[i as int] == (fact@, prov@));
            match fact {
                GuardFact::Owner { account, expected_owner } => {
                    if account.symbol_id() == Some(sym) && self.is_valid_expected_owner(expected_owner) {
                        let fact_node = match prov.node_id {
                            Some(n) => n,
                            None => 0,
                        };
                        if dom_checker.dominates(fact_node, prov.statement_index, node_id, Some(stmt_idx)) {
                            assert(owner_fact_dominates(fv[i as int], sym, node_id, stmt_idx, dom_checker.cfg@));
                            return true;
                        }
                    }
                },
                _ => {},
            }
            i += 1;
        }
        false
    }
}

fn contains_id_exec(v: &Vec<usize>, x: usize) -> (r: bool)
    ensures
        r == v@.contains(x),
{
    crate::cfg::contains_id(v, x)
}

} // verus!

verus! {

/// The first name registered for `sym`, else `SymbolId(n)`.
fn symbol_name_exec(resolver: &SymbolResolver, sym: SymbolId) -> (r: String)
    ensures
        r@ == symbol_name(resolver@.names, sym),
{
    let ghost names = resolver@.names;
    let n = resolver.name_to_symbol.len();
    let mut i: usize = 0;
    assert(names.skip(0) =~= names);
    while i < n
        invariant
            names == resolver@.names,
            n == names.len(),
            i <= n,
            symbol_name(names, sym) == symbol_name(names.skip(i as int), sym),
        decreases n - i,
    {
        let k = resolver.name_to_symbol.key_at(i);
        let v = *resolver.name_to_symbol.value_at(i);
        assert(names.skip(i as int)[0] == (k@, v));
        assert(names.skip(i as int).drop_first() =~= names.skip(i + 1));
        if v == sym {
            return k.clone();
        }
        i += 1;
    }
    assert(names.skip(n as int) =~= Seq::<(Seq<char>, SymbolId)>::empty());
    let mut s = crate::text::lit("SymbolId(");
    let d = crate::text::usize_to_decimal(sym.0);
    crate::text::append_str(&mut s, d.as_str());
    crate::text::push_lit(&mut s, ")");
    s
}

impl OwnerValidationRule {
    /// Binds `name` to a new version typed from `init` and links its symbol.
    fn bind_tracked_exec(&self, name: &String, init: &ExpressionNode, current_state: &mut SSANodeState, parent_map: &mut IdMap<SymbolId>,
        resolver: &SymbolResolver, version_counters: &mut StrMap<usize>, registry: &crate::types::TypeRegistry)
        ensures
            forall|d: Seq<DiagV>, rep: Seq<SymbolId>|
                #[trigger] bind_tracked(resolver@, ostate_parts(*old(parent_map), d, rep, *old(version_counters), *old(current_state)), name@, init@)
                    == ostate_parts(*final(parent_map), d, rep, *final(version_counters), *final(current_state)),
    {
        let v = crate::ssa::next_version_exec(version_counters, name);
        crate::ssa::bind_version_exec(registry, current_state, name, v, init);
        match resolver.get_symbol_by_name(name.as_str()) {
            Some(l) => match self.find_initializer_source(init, resolver, current_state) {
                Some(p) => parent_map.insert(l.0, p),
                None => {},
            },
            None => {},
        }
    }
}

/// The model of the check's state, with findings and reported symbols as models.
pub open spec fn ostate_parts(pm: IdMap<SymbolId>, d: Seq<DiagV>, rep: Seq<SymbolId>, ctr: StrMap<usize>, st: SSANodeState) -> OwnerState {
    OwnerState { pm: pm.pairs(), diags: d, reported: rep, ctr: ctr.pairs(), st: st@ }
}

} // verus!

verus! {

impl OwnerValidationRule {
    /// An assignment to an active name gets a new version and a new parent link.
    fn assign_tracked_exec(&self, e: &ExpressionNode, current_state: &mut SSANodeState, parent_map: &mut IdMap<SymbolId>,
        resolver: &SymbolResolver, version_counters: &mut StrMap<usize>, registry: &crate::types::TypeRegistry)
        ensures
            forall|d: Seq<DiagV>, rep: Seq<SymbolId>|
                #[trigger] assign_tracked(resolver@, ostate_parts(*old(parent_map), d, rep, *old(version_counters), *old(current_state)), e@)
                    == ostate_parts(*final(parent_map), d, rep, *final(version_counters), *final(current_state)),
    {
        match &e.kind {
            ExpressionKind::Assign { left, right } => {
                assert(e@ == ExprV::Assign { left: Box::new(left@), right: Box::new(right@) });
                match &left.kind {
                    ExpressionKind::Identifier(n) => {
                        assert(left@ == ExprV::Identifier(n@));
                        if current_state.active_variables.contains_key(n.as_str()) {
                            self.bind_tracked_exec(n, right, current_state, parent_map, resolver, version_counters, registry);
                        }
                    },
                    _ => {
                        assert(!(left@ is Identifier));
                    },
                }
            },
            _ => {
                assert(!(e@ is Assign));
            },
        }
    }

    /// Whether statement `stmt` only re-points a local at data derived from an account.
    fn aliases_account_exec(&self, stmt: &StatementNode, current_state: &SSANodeState, parent_map: &IdMap<SymbolId>,
        resolver: &SymbolResolver, instruction_context: &InstructionAnalysisContext) -> (r: bool)
        ensures
            r == aliases_account(resolver@, crate::guards::facts_view(instruction_context.guard_facts@), parent_map.pairs(),
                current_state@, stmt@),
    {
        match &stmt.kind {
            StatementKind::Expr(e) | StatementKind::Semi(e) => match &e.kind {
                ExpressionKind::Assign { left, right } => {
                    assert(e@ == ExprV::Assign { left: Box::new(left@), right: Box::new(right@) });
                    match &left.kind {
                        ExpressionKind::Identifier(n) => {
                            assert(left@ == ExprV::Identifier(n@));
                            match self.find_initializer_source(right, resolver, current_state) {
                                Some(rs) => {
                                    let root = self.trace_to_root(rs, parent_map);
                                    self.is_account_symbol(root, instruction_context)
                                },
                                None => false,
                            }
                        },
                        _ => {
                            assert(!(left@ is Identifier));
                            false
                        },
                    }
                },
                _ => {
                    assert(!(e@ is Assign));
                    false
                },
            },
            _ => false,
        }
    }

    /// The account that `stmt` writes to without a dominating owner check,
    /// if it was not reported yet.
    fn finding_root(&self, stmt: &StatementNode, current_state: &SSANodeState, parent_map: &IdMap<SymbolId>, resolver: &SymbolResolver,
        instruction_context: &InstructionAnalysisContext, dom_checker: &DominanceChecker, node_id: usize, reported_symbols: &Vec<SymbolId>)
        -> (r: Option<SymbolId>)
        ensures
            r == new_finding(owner_env(instruction_context@, resolver@, dom_checker.cfg@), parent_map.pairs(), current_state@,
                reported_symbols@, stmt@, node_id),
    {
        if self.aliases_account_exec(stmt, current_state, parent_map, resolver, instruction_context) {
            return None;
        }
        match self.get_mutable_write_expression(stmt) {
            Some(we) => match resolver.resolve_expr(we, current_state) {
                Some(b) => {
                    let root = self.trace_to_root(b, parent_map);
                    if self.is_account_symbol(root, instruction_context)
                        && !self.has_dominating_owner_check(root, node_id, 0, instruction_context, dom_checker)
                        && !contains_symbol(reported_symbols, root) {
                        Some(root)
                    } else {
                        None
                    }
                },
                None => None,
            },
            None => None,
        }
    }

    /// The finding for a write to `root` on `line` of node `node_id`.
    fn owner_diagnostic(&self, root: SymbolId, line: usize, node_id: usize, resolver: &SymbolResolver,
        instruction_context: &InstructionAnalysisContext, dom_checker: &DominanceChecker) -> (r: RuleDiagnostic)
        ensures
            r@ == owner_diag(owner_env(instruction_context@, resolver@, dom_checker.cfg@), root, line, node_id),
    {
        let mut message = crate::text::lit("Mutable write to account '");
        let name = symbol_name_exec(resolver, root);
        crate::text::append_str(&mut message, name.as_str());
        crate::text::push_lit(&mut message, "' lacks program owner verification.");
        RuleDiagnostic {
            rule_id: crate::text::lit("EPIC-SEC-001"),
            severity: RuleSeverity::Critical,
            message,
            location: FindingLocation {
                file: crate::text::copy_string(&instruction_context.file_path),
                line,
                column: 0,
                node_id,
                statement_index: None,
            },
            confidence: FactConfidence::Asserted,
            target_symbol: root,
        }
    }

    /// The names `let` binds directly in `stmts`, in order.
    pub(crate) fn declared_names(stmts: &Vec<StatementNode>) -> (r: Vec<String>)
        ensures
            crate::types::strs_view(r@) == let_names(crate::ast::stmts_view(stmts@)),
    {
        let ghost iv = crate::ast::stmts_view(stmts@);
        proof {
            crate::ast::lemma_stmts_view(stmts@);
        }
        let mut out: Vec<String> = Vec::new();
        let mut i: usize = 0;
        assert(iv.take(0) =~= Seq::<StmtV>::empty());
        assert(crate::types::strs_view(out@) =~= Seq::<Seq<char>>::empty());
        while i < stmts.len()
            invariant
                iv == crate::ast::stmts_view(stmts@),
                iv.len() == stmts@.len(),
                forall|j: int| 0 <= j < stmts@.len() ==> iv[j] == #[trigger] stmts@[j]@,
                i <= stmts@.len(),
                crate::types::strs_view(out@) == let_names(iv.take(i as int)),
            decreases stmts@.len() - i,
        {
            assert(iv.take(i + 1).drop_last() =~= iv.take(i as int));
            assert(iv.take(i + 1).last() == stmts@[i as int]@);
            let ghost o0 = crate::types::strs_view(out@);
            match &stmts[i].kind {
                StatementKind::Let { name, .. } => {
                    out.push(name.clone());
                    assert(crate::types::strs_view(out@) =~= o0.push(name@));
                },
                _ => {},
            }
            i += 1;
        }
        assert(iv.take(stmts@.len() as int) =~= iv);
        out
    }

    /// The parent links, before a block, of the symbols of the names it declares.
    fn save_parents(declared: &Vec<String>, parent_map: &IdMap<SymbolId>, resolver: &SymbolResolver) -> (r: IdMap<SymbolId>)
        ensures
            r.pairs() == saved_parents(parent_map.pairs(), resolver@.names, crate::types::strs_view(declared@)),
    {
        let ghost names = crate::types::strs_view(declared@);
        let mut saved: IdMap<SymbolId> = IdMap::new();
        let mut k: usize = 0;
        assert(names.take(0) =~= Seq::<Seq<char>>::empty());
        while k < declared.len()
            invariant
                names == crate::types::strs_view(declared@),
                k <= declared@.len(),
                saved.pairs() == saved_parents(parent_map.pairs(), resolver@.names, names.take(k as int)),
            decreases declared@.len() - k,
        {
            assert(names.take(k + 1).drop_last() =~= names.take(k as int));
            assert(names.take(k + 1).last() == declared@[k as int]@);
            match resolver.get_symbol_by_name(declared[k].as_str()) {
                Some(sym) => match parent_map.get(sym.0) {
                    Some(p) => saved.insert(sym.0, *p),
                    None => {},
                },
                None => {},
            }
            k += 1;
        }
        assert(names.take(declared@.len() as int) =~= names);
        saved
    }

    /// Gives each declared name's symbol back its link from before a block, or drops it.
    fn restore_parent_links(declared: &Vec<String>, saved: &IdMap<SymbolId>, parent_map: &mut IdMap<SymbolId>, resolver: &SymbolResolver)
        ensures
            final(parent_map).pairs() == restore_parents(old(parent_map).pairs(), saved.pairs(), resolver@.names,
                crate::types::strs_view(declared@)),
    {
        let ghost names = crate::types::strs_view(declared@);
        let ghost p0 = parent_map.pairs();
        let mut k: usize = 0;
        assert(names.take(0) =~= Seq::<Seq<char>>::empty());
        while k < declared.len()
            invariant
                names == crate::types::strs_view(declared@),
                k <= declared@.len(),
                parent_map.pairs() == restore_parents(p0, saved.pairs(), resolver@.names, names.take(k as int)),
            decreases declared@.len() - k,
        {
            assert(names.take(k + 1).drop_last() =~= names.take(k as int));
            assert(names.take(k + 1).last() == declared@[k as int]@);
            match resolver.get_symbol_by_name(declared[k].as_str()) {
                Some(sym) => match saved.get(sym.0) {
                    Some(q) => parent_map.insert(sym.0, *q),
                    None => parent_map.remove(sym.0),
                },
                None => {},
            }
            k += 1;
        }
        assert(names.take(declared@.len() as int) =~= names);
    }
}

} // verus!

verus! {

impl OwnerValidationRule {
    /// Checks one statement of node `node_id`: versions and parent links,
    /// blocks scoped, then the write check.
    fn check_statement(&self, stmt: &StatementNode, current_state: &mut SSANodeState, parent_map: &mut IdMap<SymbolId>,
        resolver: &SymbolResolver, instruction_context: &InstructionAnalysisContext, dom_checker: &DominanceChecker, node_id: usize,
        diagnostics: &mut Vec<RuleDiagnostic>, reported_symbols: &mut Vec<SymbolId>, version_counters: &mut StrMap<usize>,
        registry: &crate::types::TypeRegistry)
        ensures
            ostate(*final(parent_map), final(diagnostics)@, final(reported_symbols)@, *final(version_counters), *final(current_state))
                == check_stmt(owner_env(instruction_context@, resolver@, dom_checker.cfg@),
                    ostate(*old(parent_map), old(diagnostics)@, old(reported_symbols)@, *old(version_counters), *old(current_state)),
                    stmt@, node_id),
        decreases stmt,
    {
        let ghost env = owner_env(instruction_context@, resolver@, dom_checker.cfg@);
        let ghost os0 = ostate(*parent_map, diagnostics@, reported_symbols@, *version_counters, *current_state);
        match &stmt.kind {
            StatementKind::Let { name, initializer, .. } => {
                self.bind_tracked_exec(name, initializer, current_state, parent_map, resolver, version_counters, registry);
                assert(bind_tracked(resolver@, ostate_parts(*old(parent_map), diags_view(diagnostics@), reported_symbols@,
                    *old(version_counters), *old(current_state)), name@, initializer@)
                    == ostate_parts(*parent_map, diags_view(diagnostics@), reported_symbols@, *version_counters, *current_state));
            },
            StatementKind::Expr(e) | StatementKind::Semi(e) => {
                self.assign_tracked_exec(e, current_state, parent_map, resolver, version_counters, registry);
                assert(assign_tracked(resolver@, ostate_parts(*old(parent_map), diags_view(diagnostics@), reported_symbols@,
                    *old(version_counters), *old(current_state)), e@)
                    == ostate_parts(*parent_map, diags_view(diagnostics@), reported_symbols@, *version_counters, *current_state));
            },
            StatementKind::Block(inner) => {
                let ghost iv = crate::ast::stmts_view(inner@);
                proof {
                    crate::ast::lemma_stmts_view(inner@);
                }
                let before = crate::ssa::copy_vars(&current_state.active_variables);
                let declared = Self::declared_names(inner);
                let saved = Self::save_parents(&declared, parent_map, resolver);
                let mut i: usize = 0;
                while i < inner.len()
                    invariant
                        stmt.kind == StatementKind::Block(*inner),
                        iv == crate::ast::stmts_view(inner@),
                        iv.len() == inner@.len(),
                        forall|j: int| 0 <= j < inner@.len() ==> iv[j] == #[trigger] inner@[j]@,
                        i <= inner@.len(),
                        env == owner_env(instruction_context@, resolver@, dom_checker.cfg@),
                        check_stmts(env, os0, iv, 0, node_id)
                            == check_stmts(env, ostate(*parent_map, diagnostics@, reported_symbols@, *version_counters, *current_state),
                                iv, i as int, node_id),
                    decreases inner@.len() - i,
                {
                    proof {
                        assert(decreases_to!(stmt.kind => stmt.kind->Block_0));
                        assert(decreases_to!(stmt.kind->Block_0 => stmt.kind->Block_0@));
                        assert(decreases_to!(stmt.kind->Block_0@ => stmt.kind->Block_0@[i as int]));
                    }
                    self.check_statement(&inner[i], current_state, parent_map, resolver, instruction_context, dom_checker, node_id,
                        diagnostics, reported_symbols, version_counters, registry);
                    i += 1;
                }
                let ghost names = crate::types::strs_view(declared@);
                let ghost a2 = current_state@.active;
                let ghost t2 = current_state@.types;
                let mut k: usize = 0;
                assert(names.take(0) =~= Seq::<Seq<char>>::empty());
                while k < declared.len()
                    invariant
                        names == crate::types::strs_view(declared@),
                        k <= declared@.len(),
                        current_state@.active == crate::ssa::restore(a2, before.pairs(), names.take(k as int)),
                        current_state@.types == t2,
                    decreases declared@.len() - k,
                {
                    let name = &declared[k];
                    assert(names.take(k + 1).drop_last() =~= names.take(k as int));
                    assert(names.take(k + 1).last() == name@);
                    match before.get(name.as_str()) {
                        Some(v) => current_state.active_variables.insert(name.clone(), v.clone()),
                        None => current_state.active_variables.remove(name.as_str()),
                    }
                    k += 1;
                }
                assert(names.take(declared@.len() as int) =~= names);
                Self::restore_parent_links(&declared, &saved, parent_map, resolver);
            },
            StatementKind::MacroCall { .. } => {},
        }
        assert(ostate(*parent_map, diagnostics@, reported_symbols@, *version_counters, *current_state) == stmt_effect(env, os0, stmt@, node_id));
        match self.finding_root(stmt, current_state, parent_map, resolver, instruction_context, dom_checker, node_id, reported_symbols) {
            Some(root) => {
                let d = self.owner_diagnostic(root, stmt.line_number, node_id, resolver, instruction_context, dom_checker);
                let ghost d0 = diagnostics@;
                diagnostics.push(d);
                assert(diags_view(diagnostics@) =~= diags_view(d0).push(d@));
                reported_symbols.push(root);
            },
            None => {},
        }
    }

    /// Checks the statements of node `node_id` in order.
    fn check_statements_recursive(&self, stmts: &Vec<StatementNode>, current_state: &mut SSANodeState, parent_map: &mut IdMap<SymbolId>,
        resolver: &SymbolResolver, instruction_context: &InstructionAnalysisContext, dom_checker: &DominanceChecker, node_id: usize,
        diagnostics: &mut Vec<RuleDiagnostic>, reported_symbols: &mut Vec<SymbolId>, version_counters: &mut StrMap<usize>,
        registry: &crate::types::TypeRegistry)
        ensures
            ostate(*final(parent_map), final(diagnostics)@, final(reported_symbols)@, *final(version_counters), *final(current_state))
                == check_stmts(owner_env(instruction_context@, resolver@, dom_checker.cfg@),
                    ostate(*old(parent_map), old(diagnostics)@, old(reported_symbols)@, *old(version_counters), *old(current_state)),
                    crate::cfg::stmt_list_view(stmts@), 0, node_id),
    {
        let ghost env = owner_env(instruction_context@, resolver@, dom_checker.cfg@);
        let ghost os0 = ostate(*parent_map, diagnostics@, reported_symbols@, *version_counters, *current_state);
        let ghost iv = crate::cfg::stmt_list_view(stmts@);
        let mut i: usize = 0;
        while i < stmts.len()
            invariant
                iv == crate::cfg::stmt_list_view(stmts@),
                i <= stmts@.len(),
                env == owner_env(instruction_context@, resolver@, dom_checker.cfg@),
                check_stmts(env, os0, iv, 0, node_id)
                    == check_stmts(env, ostate(*parent_map, diagnostics@, reported_symbols@, *version_counters, *current_state),
                        iv, i as int, node_id),
            decreases stmts@.len() - i,
        {
            self.check_statement(&stmts[i], current_state, parent_map, resolver, instruction_context, dom_checker, node_id,
                diagnostics, reported_symbols, version_counters, registry);
            i += 1;
        }
    }
}

} // verus!

verus! {

/// Version counters from the active versioned names of `state`.
pub(crate) fn counters_of(state: &SSANodeState) -> (r: StrMap<usize>)
    ensures
        r.pairs() == counters_from(state@.active),
{
    let ghost act = state@.active;
    let mut ctr: StrMap<usize> = StrMap::new();
    let n = state.active_variables.len();
    let mut i: usize = 0;
    assert(act.take(0) =~= Seq::<(Seq<char>, SSAVarV)>::empty());
    while i < n
        invariant
            act == state@.active,
            n == act.len(),
            i <= n,
            ctr.pairs() == counters_from(act.take(i as int)),
        decreases n - i,
    {
        assert(act.take(i + 1).drop_last() =~= act.take(i as int));
        assert(act.take(i + 1).last() == act[i as int]);
        match state.active_variables.value_at(i) {
            SSAVariable::Versioned { name, version } => ctr.insert(name.clone(), *version),
            SSAVariable::Ambiguous(_) => {},
        }
        i += 1;
    }
    assert(act.take(n as int) =~= act);
    ctr
}

impl Rule for OwnerValidationRule {
    fn id(&self) -> (r: &'static str)
        ensures
            r@ == "EPIC-SEC-001"@,
    {
        "EPIC-SEC-001"
    }

    fn name(&self) -> (r: &'static str)
        ensures
            r@ == "Owner Validation Rule"@,
    {
        "Owner Validation Rule"
    }

    open spec fn findings(&self, context: CtxV, resolver: ResolverV, dom: GraphV) -> Seq<DiagV> {
        owner_findings(context, resolver, dom)
    }

    /// Any handler: a node without SSA states is passed over.
    open spec fn accepts(&self, context: CtxV) -> bool {
        true
    }

    /// Walks the reachable nodes in reverse post-order, each from its SSA
    /// start state, and reports each account written without a dominating
    /// owner check once.
    fn check(&self, context: &InstructionAnalysisContext, resolver: &SymbolResolver, dom_checker: &DominanceChecker)
        -> (r: Vec<RuleDiagnostic>)
    {
        let registry = crate::types::TypeRegistry::new();
        let order = crate::rules::reverse_postorder(&context.cfg);
        let ghost env = owner_env(context@, resolver@, dom_checker.cfg@);
        let ghost g = context.cfg@;
        let mut diagnostics: Vec<RuleDiagnostic> = Vec::new();
        let mut reported: Vec<SymbolId> = Vec::new();
        let mut parent_map: IdMap<SymbolId> = IdMap::new();
        let mut k: usize = 0;
        assert(diags_view(diagnostics@) =~= Seq::<DiagV>::empty());
        while k < order.len()
            invariant
                k <= order@.len(),
                order@ == crate::rules::rpo(g),
                g == context.cfg@,
                env == owner_env(context@, resolver@, dom_checker.cfg@),
                (parent_map.pairs(), diags_view(diagnostics@), reported@)
                    == check_nodes(env, g, order@, k as int, Seq::empty(), Seq::empty(), Seq::empty()),
            decreases order@.len() - k,
        {
            let u = order[k];
            match context.cfg.nodes.get(u) {
                Some(node) => match context.cfg.ssa_states.get(u) {
                    Some(info) => {
                        let mut current_state = info.start_state.clone();
                        let mut ctr = counters_of(&current_state);
                        self.check_statements_recursive(&node.statements, &mut current_state, &mut parent_map, resolver, context,
                            dom_checker, u, &mut diagnostics, &mut reported, &mut ctr, &registry);
                    },
                    None => {},
                },
                None => {},
            }
            k += 1;
        }
        diagnostics
    }
}

} // verus!

verus! {

// ---------------------------------------------------------------------------
// What every finding of the rule satisfies.

/// The findings so far are one per reported account, each account reported
/// once, each an account written to with no valid owner check dominating
/// the start of the node of the write.
pub open spec fn findings_sound(env: OwnerEnv, os: OwnerState) -> bool {
    &&& os.reported.no_duplicates()
    &&& os.diags.len() == os.reported.len()
    &&& forall|i: int| 0 <= i < os.diags.len() ==> {
        &&& (#[trigger] os.diags[i]).target_symbol == os.reported[i]
        &&& os.diags[i].rule_id == "EPIC-SEC-001"@
        &&& is_account(env.facts, os.diags[i].target_symbol)
        &&& !owner_checked(env.facts, os.diags[i].target_symbol, os.diags[i].node_id, 0, env.dom)
    }
}

proof fn lemma_write_check_sound(env: OwnerEnv, os: OwnerState, s: StmtV, node: usize)
    requires
        findings_sound(env, os),
    ensures
        findings_sound(env, write_check(env, os, s, node)),
{
    match new_finding(env, os.pm, os.st, os.reported, s, node) {
        Some(root) => {
            let os2 = write_check(env, os, s, node);
            assert forall|i: int| 0 <= i < os2.diags.len() implies {
                &&& (#[trigger] os2.diags[i]).target_symbol == os2.reported[i]
                &&& os2.diags[i].rule_id == "EPIC-SEC-001"@
                &&& is_account(env.facts, os2.diags[i].target_symbol)
                &&& !owner_checked(env.facts, os2.diags[i].target_symbol, os2.diags[i].node_id, 0, env.dom)
            } by {
                if i < os.diags.len() {
                    assert(os2.diags[i] == os.diags[i]);
                    assert(os2.reported[i] == os.reported[i]);
                }
            }
            assert(os2.reported.no_duplicates()) by {
                assert forall|a: int, b: int| 0 <= a < b < os2.reported.len() implies os2.reported[a] != os2.reported[b] by {
                    if b == os.reported.len() {
                        assert(os.reported.contains(os.reported[a]));
                    }
                }
            }
        },
        None => {},
    }
}

proof fn lemma_stmt_effect_sound(env: OwnerEnv, os: OwnerState, s: StmtV, node: usize)
    requires
        findings_sound(env, os),
    ensures
        findings_sound(env, stmt_effect(env, os, s, node)),
    decreases s, 0nat,
{
    match s.kind {
        StmtKindV::Block(inner) => {
            lemma_check_stmts_sound(env, os, inner, 0, node);
        },
        _ => {},
    }
}

proof fn lemma_check_stmt_sound(env: OwnerEnv, os: OwnerState, s: StmtV, node: usize)
    requires
        findings_sound(env, os),
    ensures
        findings_sound(env, check_stmt(env, os, s, node)),
    decreases s, 1nat,
{
    lemma_stmt_effect_sound(env, os, s, node);
    lemma_write_check_sound(env, stmt_effect(env, os, s, node), s, node);
}

proof fn lemma_check_stmts_sound(env: OwnerEnv, os: OwnerState, ss: Seq<StmtV>, i: int, node: usize)
    requires
        findings_sound(env, os),
    ensures
        findings_sound(env, check_stmts(env, os, ss, i, node)),
    decreases ss, ss.len() - i,
{
    if 0 <= i < ss.len() {
        lemma_check_stmt_sound(env, os, ss[i], node);
        lemma_check_stmts_sound(env, check_stmt(env, os, ss[i], node), ss, i + 1, node);
    }
}

proof fn lemma_check_nodes_sound(env: OwnerEnv, g: GraphV, order: Seq<usize>, k: int)
    ensures
        ({
            let (pm, d, rep) = check_nodes(env, g, order, k, Seq::empty(), Seq::empty(), Seq::empty());
            findings_sound(env, OwnerState { pm, diags: d, reported: rep, ctr: Seq::empty(), st: StateV { active: Seq::empty(), types: Seq::empty() } })
        }),
    decreases k,
{
    if k > 0 {
        lemma_check_nodes_sound(env, g, order, k - 1);
        let (pm1, d1, r1) = check_nodes(env, g, order, k - 1, Seq::empty(), Seq::empty(), Seq::empty());
        let u = order[k - 1];
        match (lookup(g.nodes, u), lookup(g.ssa, u)) {
            (Some(n), Some(info)) => {
                let os = OwnerState { pm: pm1, diags: d1, reported: r1, ctr: counters_from(info.start.active), st: info.start };
                lemma_check_stmts_sound(env, os, n.statements, 0, u);
            },
            _ => {},
        }
    }
}

/// Each account the owner rule reports is reported once, and is an
/// account some fact speaks of, written to with no valid owner check
/// dominating the start of the node where it is written.
pub proof fn law_owner_findings_sound(ctx: CtxV, r: ResolverV, dom: GraphV)
    ensures
        ({
            let f = owner_findings(ctx, r, dom);
            &&& forall|i: int, j: int| 0 <= i < f.len() && 0 <= j < f.len() && i != j ==> f[i].target_symbol != f[j].target_symbol
            &&& forall|i: int| 0 <= i < f.len() ==> {
                &&& (#[trigger] f[i]).rule_id == "EPIC-SEC-001"@
                &&& is_account(ctx.facts, f[i].target_symbol)
                &&& !owner_checked(ctx.facts, f[i].target_symbol, f[i].node_id, 0, dom)
            }
        }),
{
    let env = owner_env(ctx, r, dom);
    let order = crate::rules::rpo(ctx.cfg);
    lemma_check_nodes_sound(env, ctx.cfg, order, order.len() as int);
    let (pm, d, rep) = check_nodes(env, ctx.cfg, order, order.len() as int, Seq::empty(), Seq::empty(), Seq::empty());
    let f = owner_findings(ctx, r, dom);
    assert(f == d);
    assert forall|i: int, j: int| 0 <= i < f.len() && 0 <= j < f.len() && i != j implies f[i].target_symbol != f[j].target_symbol by {
        assert(f[i].target_symbol == rep[i]);
        assert(f[j].target_symbol == rep[j]);
    }
}

} // verus!

verus! {

// ---------------------------------------------------------------------------
// Every unguarded write is reported.

/// The account statement `s` writes to, in state `os`, with no valid owner
/// check dominating the start of node `node` (whether reported before or not).
pub open spec fn unguarded_write(env: OwnerEnv, os: OwnerState, s: StmtV, node: usize) -> Option<SymbolId> {
    if aliases_account(env.r, env.facts, os.pm, os.st, s) {
        None
    } else {
        match stmt_write_target(s) {
            Some(we) => match resolve_spec(env.r, we, os.st) {
                Some(b) => {
                    let root = trace_root(os.pm, b);
                    if is_account(env.facts, root) && !owner_checked(env.facts, root, node, 0, env.dom) {
                        Some(root)
                    } else {
                        None
                    }
                },
                None => None,
            },
            None => None,
        }
    }
}

/// Every unguarded write of statement `s` (inside blocks too), checked from
/// state `os` in node `node`, is to an account of `fin`.
pub open spec fn stmt_writes_in(env: OwnerEnv, os: OwnerState, s: StmtV, node: usize, fin: Seq<SymbolId>) -> bool
    decreases s, 1nat,
{
    &&& match s.kind {
        StmtKindV::Block(inner) => stmts_writes_in(env, os, inner, 0, node, fin),
        _ => true,
    }
    &&& match unguarded_write(env, stmt_effect(env, os, s, node), s, node) {
        Some(a) => fin.contains(a),
        None => true,
    }
}

/// Every unguarded write of `ss[i..]`, checked in order from state `os`, is
/// to an account of `fin`.
pub open spec fn stmts_writes_in(env: OwnerEnv, os: OwnerState, ss: Seq<StmtV>, i: int, node: usize, fin: Seq<SymbolId>) -> bool
    decreases ss, ss.len() - i,
{
    if i < 0 || i >= ss.len() {
        true
    } else {
        stmt_writes_in(env, os, ss[i], node, fin) && stmts_writes_in(env, check_stmt(env, os, ss[i], node), ss, i + 1, node, fin)
    }
}

/// Every unguarded write of the nodes `order[..k]`, each checked from the
/// state the rule reaches it in, is to an account of `fin`.
pub open spec fn nodes_writes_in(env: OwnerEnv, g: GraphV, order: Seq<usize>, k: int, fin: Seq<SymbolId>) -> bool
    decreases k,
{
    if k <= 0 {
        true
    } else {
        &&& nodes_writes_in(env, g, order, k - 1, fin)
        &&& {
            let (pm1, d1, r1) = check_nodes(env, g, order, k - 1, Seq::empty(), Seq::empty(), Seq::empty());
            let u = order[k - 1];
            match (lookup(g.nodes, u), lookup(g.ssa, u)) {
                (Some(n), Some(info)) => stmts_writes_in(env,
                    OwnerState { pm: pm1, diags: d1, reported: r1, ctr: counters_from(info.start.active), st: info.start },
                    n.statements, 0, u, fin),
                _ => true,
            }
        }
    }
}

/// Every account of `a` is in `b`.
pub open spec fn within(a: Seq<SymbolId>, b: Seq<SymbolId>) -> bool {
    forall|x: SymbolId| a.contains(x) ==> b.contains(x)
}

proof fn lemma_stmt_effect_grows(env: OwnerEnv, os: OwnerState, s: StmtV, node: usize)
    ensures
        within(os.reported, stmt_effect(env, os, s, node).reported),
    decreases s, 0nat,
{
    match s.kind {
        StmtKindV::Block(inner) => lemma_check_stmts_grows(env, os, inner, 0, node),
        _ => {},
    }
}

proof fn lemma_check_stmt_grows(env: OwnerEnv, os: OwnerState, s: StmtV, node: usize)
    ensures
        within(os.reported, check_stmt(env, os, s, node).reported),
    decreases s, 1nat,
{
    lemma_stmt_effect_grows(env, os, s, node);
    let os1 = stmt_effect(env, os, s, node);
    let os2 = write_check(env, os1, s, node);
    assert forall|x: SymbolId| os1.reported.contains(x) implies os2.reported.contains(x) by {
        if new_finding(env, os1.pm, os1.st, os1.reported, s, node) is Some {
            let j = choose|j: int| 0 <= j < os1.reported.len() && os1.reported[j] == x;
            assert(os2.reported[j] == x);
        }
    }
}

proof fn lemma_check_stmts_grows(env: OwnerEnv, os: OwnerState, ss: Seq<StmtV>, i: int, node: usize)
    ensures
        within(os.reported, check_stmts(env, os, ss, i, node).reported),
    decreases ss, ss.len() - i,
{
    if 0 <= i < ss.len() {
        lemma_check_stmt_grows(env, os, ss[i], node);
        lemma_check_stmts_grows(env, check_stmt(env, os, ss[i], node), ss, i + 1, node);
    }
}

proof fn lemma_stmt_writes_in(env: OwnerEnv, os: OwnerState, s: StmtV, node: usize, fin: Seq<SymbolId>)
    requires
        within(check_stmt(env, os, s, node).reported, fin),
    ensures
        stmt_writes_in(env, os, s, node, fin),
    decreases s, 1nat,
{
    let os1 = stmt_effect(env, os, s, node);
    let os2 = write_check(env, os1, s, node);
    lemma_check_stmt_grows(env, os, s, node);
    assert(within(os1.reported, os2.reported)) by {
        assert forall|x: SymbolId| os1.reported.contains(x) implies os2.reported.contains(x) by {
            if new_finding(env, os1.pm, os1.st, os1.reported, s, node) is Some {
                let j = choose|j: int| 0 <= j < os1.reported.len() && os1.reported[j] == x;
                assert(os2.reported[j] == x);
            }
        }
    }
    match s.kind {
        StmtKindV::Block(inner) => {
            lemma_check_stmts_grows(env, os, inner, 0, node);
            let after = check_stmts(env, os, inner, 0, node);
            assert(os1.reported == after.reported);
            lemma_stmts_writes_in(env, os, inner, 0, node, fin);
        },
        _ => {},
    }
    match unguarded_write(env, os1, s, node) {
        Some(a) => {
            if !os1.reported.contains(a) {
                assert(new_finding(env, os1.pm, os1.st, os1.reported, s, node) == Some(a));
                assert(os2.reported.last() == a);
                assert(os2.reported.contains(a)) by {
                    assert(os2.reported[os2.reported.len() - 1] == a);
                }
            }
            assert(os2.reported.contains(a));
        },
        None => {},
    }
}

proof fn lemma_stmts_writes_in(env: OwnerEnv, os: OwnerState, ss: Seq<StmtV>, i: int, node: usize, fin: Seq<SymbolId>)
    requires
        within(check_stmts(env, os, ss, i, node).reported, fin),
    ensures
        stmts_writes_in(env, os, ss, i, node, fin),
    decreases ss, ss.len() - i,
{
    if 0 <= i < ss.len() {
        let os2 = check_stmt(env, os, ss[i], node);
        lemma_check_stmts_grows(env, os2, ss, i + 1, node);
        lemma_stmt_writes_in(env, os, ss[i], node, fin);
        lemma_stmts_writes_in(env, os2, ss, i + 1, node, fin);
    }
}

proof fn lemma_nodes_writes_in(env: OwnerEnv, g: GraphV, order: Seq<usize>, k: int, fin: Seq<SymbolId>)
    requires
        within(check_nodes(env, g, order, k, Seq::empty(), Seq::empty(), Seq::empty()).2, fin),
    ensures
        nodes_writes_in(env, g, order, k, fin),
    decreases k,
{
    if k > 0 {
        let (pm1, d1, r1) = check_nodes(env, g, order, k - 1, Seq::empty(), Seq::empty(), Seq::empty());
        let u = order[k - 1];
        match (lookup(g.nodes, u), lookup(g.ssa, u)) {
            (Some(n), Some(info)) => {
                let os = OwnerState { pm: pm1, diags: d1, reported: r1, ctr: counters_from(info.start.active), st: info.start };
                lemma_check_stmts_grows(env, os, n.statements, 0, u);
                lemma_stmts_writes_in(env, os, n.statements, 0, u, fin);
            },
            _ => {},
        }
        lemma_nodes_writes_in(env, g, order, k - 1, fin);
    }
}

/// Every write the owner rule sees to an account with no valid owner check
/// dominating the start of its node is reported: its account is the target
/// of some finding. With the soundness law, an account is reported exactly
/// when some such write exists.
pub proof fn law_owner_writes_reported(ctx: CtxV, r: ResolverV, dom: GraphV)
    ensures
        ({
            let f = owner_findings(ctx, r, dom);
            let order = crate::rules::rpo(ctx.cfg);
            nodes_writes_in(owner_env(ctx, r, dom), ctx.cfg, order, order.len() as int,
                Seq::new(f.len(), |i: int| f[i].target_symbol))
        }),
{
    let env = owner_env(ctx, r, dom);
    let order = crate::rules::rpo(ctx.cfg);
    lemma_check_nodes_sound(env, ctx.cfg, order, order.len() as int);
    let (pm, d, rep) = check_nodes(env, ctx.cfg, order, order.len() as int, Seq::empty(), Seq::empty(), Seq::empty());
    let f = owner_findings(ctx, r, dom);
    let targets = Seq::new(f.len(), |i: int| f[i].target_symbol);
    assert(targets =~= rep) by {
        assert forall|i: int| 0 <= i < f.len() implies targets[i] == rep[i] by {
            assert(f[i].target_symbol == rep[i]);
        }
    }
    lemma_nodes_writes_in(env, ctx.cfg, order, order.len() as int, targets);
}

} // verus!

verus! {

/// An owner check that compares an account's owner with the program's own id
/// (written `program_id`, `ID`, `crate::ID` or `super::ID`), with a known
/// program (`spl_token`, `token_program`), with a key written out (a literal
/// of 32 bytes or more) or with any expression that is not a literal and not
/// unknown protects that account: when such a check dominates the start of a
/// node, the rule reports no write to the account in that node.
pub proof fn law_program_owner_check_protects(ctx: CtxV, r: ResolverV, dom: GraphV, i: int, k: int)
    requires
        0 <= i < owner_findings(ctx, r, dom).len(),
        0 <= k < ctx.facts.len(),
        ({
            let d = owner_findings(ctx, r, dom)[i];
            let fact = ctx.facts[k];
            &&& fact.0 matches FactV::Owner { account, expected_owner }
            &&& crate::guards::target_symbol(account) == Some(d.target_symbol)
            &&& match expected_owner {
                FactExprV::Literal(v) => v == "program_id"@ || v == "ID"@ || v == "crate::ID"@ || v == "super::ID"@
                    || v == "spl_token"@ || v == "token_program"@ || crate::abi::enc(v).len() >= 32,
                FactExprV::Unknown => false,
                _ => true,
            }
        }),
    ensures
        !dominates_spec(dom, match ctx.facts[k].1.node_id { Some(n) => n, None => 0 }, ctx.facts[k].1.statement_index,
            owner_findings(ctx, r, dom)[i].node_id, Some(0)),
{
    law_owner_findings_sound(ctx, r, dom);
    let d = owner_findings(ctx, r, dom)[i];
    assert(!owner_checked(ctx.facts, d.target_symbol, d.node_id, 0, dom));
    assert(!owner_fact_dominates(ctx.facts[k], d.target_symbol, d.node_id, 0, dom));
}

} // verus!

verus! {

/// An owner fact whose expected owner is unknown, or a short literal that
/// names neither the program nor a known program, is no owner check: it never
/// protects a write, wherever it stands.
pub proof fn law_unrecognised_owner_check_does_not_count(f: (FactV, ProvV), sym: SymbolId, node: usize, stmt: usize, g: GraphV)
    requires
        f.0 matches FactV::Owner { expected_owner, .. } && match expected_owner {
            FactExprV::Unknown => true,
            FactExprV::Literal(v) => !(v == "program_id"@ || v == "ID"@ || v == "crate::ID"@ || v == "super::ID"@
                || v == "spl_token"@ || v == "token_program"@) && crate::abi::enc(v).len() < 32,
            _ => false,
        },
    ensures
        !owner_fact_dominates(f, sym, node, stmt, g),
{
}

} // verus!
