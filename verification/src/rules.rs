//! Security rules over instruction handlers: symbol resolution, dominance,
//! diagnostics, and the engine that runs the rules.
use vstd::prelude::*;
use crate::maps::{StrMap, lookup, has_key};
use crate::ast::{ExpressionNode, ExpressionKind, ExprV};
use crate::guards::{SymbolId, SSAVersionId, FactConfidence, InstructionAnalysisContext, CtxV};
use crate::ssa::{SSANodeState, SSAVariable, SSAVarV, StateV};
use crate::cfg::{ControlFlowGraph, GraphV};

verus! {

/// How severe a finding is.
#[derive(Debug, Clone, Copy, PartialEq, Eq, Structural)]
pub enum RuleSeverity {
    Critical,
    High,
    Medium,
    Low,
    Info,
}

/// Where a finding is.
#[derive(Debug, PartialEq, Eq)]
pub struct FindingLocation {
    pub file: String,
    pub line: usize,
    pub column: usize,
    pub node_id: usize,
    pub statement_index: Option<usize>,
}

/// A finding of a rule.
#[derive(Debug, PartialEq, Eq)]
pub struct RuleDiagnostic {
    pub rule_id: String,
    pub severity: RuleSeverity,
    pub message: String,
    pub location: FindingLocation,
    pub confidence: FactConfidence,
    pub target_symbol: SymbolId,
}

/// Model of a [`RuleDiagnostic`].
pub struct DiagV {
    pub rule_id: Seq<char>,
    pub severity: RuleSeverity,
    pub message: Seq<char>,
    pub file: Seq<char>,
    pub line: usize,
    pub column: usize,
    pub node_id: usize,
    pub statement_index: Option<usize>,
    pub confidence: FactConfidence,
    pub target_symbol: SymbolId,
}

impl View for RuleDiagnostic {
    type V = DiagV;

    open spec fn view(&self) -> DiagV {
        DiagV {
            rule_id: self.rule_id@,
            severity: self.severity,
            message: self.message@,
            file: self.location.file@,
            line: self.location.line,
            column: self.location.column,
            node_id: self.location.node_id,
            statement_index: self.location.statement_index,
            confidence: self.confidence,
            target_symbol: self.target_symbol,
        }
    }
}

/// The models of a list of diagnostics.
pub open spec fn diags_view(v: Seq<RuleDiagnostic>) -> Seq<DiagV> {
    Seq::new(v.len(), |i: int| v[i]@)
}

// ---------------------------------------------------------------------------
// Symbol resolution.

/// Maps names and SSA versions of one handler to symbols.
#[derive(Debug)]
pub struct SymbolResolver {
    /// name -> symbol
    pub name_to_symbol: StrMap<SymbolId>,
    /// a version of a symbol -> the symbol it stands for
    pub aliases: Vec<(SSAVersionId, SymbolId)>,
    /// the handler's context parameter (`ctx`)
    pub context_var_name: String,
}

/// Model of a [`SymbolResolver`].
pub struct ResolverV {
    pub names: Seq<(Seq<char>, SymbolId)>,
    pub aliases: Seq<(SSAVersionId, SymbolId)>,
    pub ctx: Seq<char>,
}

impl View for SymbolResolver {
    type V = ResolverV;

    open spec fn view(&self) -> ResolverV {
        ResolverV { names: self.name_to_symbol.pairs(), aliases: self.aliases@, ctx: self.context_var_name@ }
    }
}

/// The symbol an alias maps a version to: the last registration for it.
pub open spec fn alias_of(aliases: Seq<(SSAVersionId, SymbolId)>, v: SSAVersionId) -> Option<SymbolId>
    decreases aliases.len(),
{
    if aliases.len() == 0 {
        None
    } else if aliases.last().0 == v {
        Some(aliases.last().1)
    } else {
        alias_of(aliases.drop_last(), v)
    }
}

/// The symbol an expression stands for: a registered name (through the
/// alias of its active version, if any), an account field `ctx.accounts.x`,
/// or what a field read, reference, dereference or `?` is applied to.
pub open spec fn resolve_spec(r: ResolverV, e: ExprV, st: StateV) -> Option<SymbolId>
    decreases e,
{
    match e {
        ExprV::Identifier(n) => match lookup(r.names, n) {
            Some(s) => match lookup(st.active, n) {
                Some(SSAVarV::Versioned { version, .. }) => match alias_of(r.aliases, SSAVersionId { symbol_id: s, version }) {
                    Some(t) => Some(t),
                    None => Some(s),
                },
                _ => Some(s),
            },
            None => None,
        },
        ExprV::FieldAccess { object, field } => {
            if crate::guards::expr_text(*object) == r.ctx + ".accounts"@ {
                lookup(r.names, field)
            } else {
                resolve_spec(r, *object, st)
            }
        },
        ExprV::Reference { expression, .. } => resolve_spec(r, *expression, st),
        ExprV::Dereference(x) => resolve_spec(r, *x, st),
        ExprV::Try(x) => resolve_spec(r, *x, st),
        _ => None,
    }
}

impl SymbolResolver {
    /// A resolver knowing the handler's symbol table and context name.
    pub fn new(context: &InstructionAnalysisContext) -> (r: Self)
        ensures
            r@.names == context.symbol_table.pairs(),
            r@.aliases.len() == 0,
            r@.ctx == context.context_var_name@,
    {
        let n = context.symbol_table.len();
        let mut names: StrMap<SymbolId> = StrMap::new();
        let mut i: usize = 0;
        while i < n
            invariant
                n == context.symbol_table.pairs().len(),
                crate::maps::distinct_keys(context.symbol_table.pairs()),
                i <= n,
                names.pairs() == context.symbol_table.pairs().take(i as int),
            decreases n - i,
        {
            let k = context.symbol_table.key_at(i);
            let v = *context.symbol_table.value_at(i);
            proof {
                assert forall|j: int| 0 <= j < i implies context.symbol_table.pairs().take(i as int)[j].0 != k@ by {
                    assert(context.symbol_table.pairs()[j].0 != context.symbol_table.pairs()[i as int].0);
                }
            }
            names.insert(k.clone(), v);
            assert(names.pairs() =~= context.symbol_table.pairs().take(i + 1));
            i += 1;
        }
        assert(context.symbol_table.pairs().take(n as int) =~= context.symbol_table.pairs());
        SymbolResolver { name_to_symbol: names, aliases: Vec::new(), context_var_name: context.context_var_name.clone() }
    }

    /// Registers `name` as symbol `sym`.
    pub fn register_name(&mut self, name: &str, sym: SymbolId)
        ensures
            final(self)@ == (ResolverV { names: crate::maps::assoc_insert(old(self)@.names, name@, sym), ..old(self)@ }),
    {
        self.name_to_symbol.insert(crate::text::lit(name), sym);
    }

    /// Registers that version `v` stands for symbol `sym`.
    pub fn register_alias(&mut self, v: SSAVersionId, sym: SymbolId)
        ensures
            final(self)@ == (ResolverV { aliases: old(self)@.aliases.push((v, sym)), ..old(self)@ }),
    {
        self.aliases.push((v, sym));
    }

    /// The symbol registered for `name`.
    pub fn get_symbol_by_name(&self, name: &str) -> (r: Option<SymbolId>)
        ensures
            r == lookup(self@.names, name@),
    {
        match self.name_to_symbol.get(name) {
            Some(s) => Some(*s),
            None => None,
        }
    }

    /// The symbol version `v` stands for.
    fn alias(&self, v: SSAVersionId) -> (r: Option<SymbolId>)
        ensures
            r == alias_of(self@.aliases, v),
    {
        let ghost al = self.aliases@;
        let mut i: usize = self.aliases.len();
        assert(al.take(i as int) =~= al);
        while i > 0
            invariant
                al == self.aliases@,
                i <= al.len(),
                alias_of(al, v) == alias_of(al.take(i as int), v),
            decreases i,
        {
            let (a, s) = self.aliases[i - 1];
            assert(al.take(i as int).last() == (a, s));
            assert(al.take(i as int).drop_last() =~= al.take(i - 1));
            if a == v {
                return Some(s);
            }
            i -= 1;
        }
        None
    }

    /// The symbol an expression stands for in SSA state `ssa_state`.
    pub fn resolve_expr(&self, expr: &ExpressionNode, ssa_state: &SSANodeState) -> (r: Option<SymbolId>)
        ensures
            r == resolve_spec(self@, expr@, ssa_state@),
        decreases expr,
    {
        match &expr.kind {
            ExpressionKind::Identifier(n) => match self.get_symbol_by_name(n.as_str()) {
                Some(s) => match ssa_state.active_variables.get(n.as_str()) {
                    Some(SSAVariable::Versioned { version, .. }) => match self.alias(SSAVersionId { symbol_id: s, version: *version }) {
                        Some(t) => Some(t),
                        None => Some(s),
                    },
                    _ => Some(s),
                },
                None => None,
            },
            ExpressionKind::FieldAccess { object, field } => {
                let text = crate::guards::expr_to_string(object);
                let mut acc = self.context_var_name.clone();
                crate::text::push_lit(&mut acc, ".accounts");
                if crate::text::str_eq(text.as_str(), acc.as_str()) {
                    self.get_symbol_by_name(field.as_str())
                } else {
                    self.resolve_expr(object, ssa_state)
                }
            },
            ExpressionKind::Reference { expression, .. } => self.resolve_expr(expression, ssa_state),
            ExpressionKind::Dereference(x) => self.resolve_expr(x, ssa_state),
            ExpressionKind::Try(x) => self.resolve_expr(x, ssa_state),
            _ => None,
        }
    }
}

// ---------------------------------------------------------------------------
// Dominance.

/// Statement `sa` of node `a` runs before statement `sb` of node `b` on every
/// path from the entry: within a node, a node-level point (`None`) or an
/// earlier statement; across nodes, every path from the entry to `b`
/// passes through `a`.
pub open spec fn dominates_spec(g: GraphV, a: usize, sa: Option<usize>, b: usize, sb: Option<usize>) -> bool {
    if a == b {
        match (sa, sb) {
            (None, _) => true,
            (Some(x), Some(y)) => x < y,
            (Some(_), None) => false,
        }
    } else {
        !crate::reach::reaches(g.edges, g.entry, b, Some(a))
    }
}

/// Answers dominance queries over one graph.
pub struct DominanceChecker<'a> {
    pub cfg: &'a ControlFlowGraph,
}

impl<'a> DominanceChecker<'a> {
    /// A checker over `cfg`.
    pub fn new(cfg: &'a ControlFlowGraph) -> (r: Self)
        ensures
            r.cfg == cfg,
    {
        DominanceChecker { cfg }
    }

    /// Whether point `(node_a, stmt_a)` dominates point `(node_b, stmt_b)`.
    pub fn dominates(&self, node_a: usize, stmt_a: Option<usize>, node_b: usize, stmt_b: Option<usize>) -> (r: bool)
        ensures
            r == dominates_spec(self.cfg@, node_a, stmt_a, node_b, stmt_b),
    {
        if node_a == node_b {
            match (stmt_a, stmt_b) {
                (None, _) => true,
                (Some(x), Some(y)) => x < y,
                (Some(_), None) => false,
            }
        } else {
            !crate::reach::reaches_exec(&self.cfg.edges, self.cfg.entry_node, node_b, Some(node_a))
        }
    }
}

// ---------------------------------------------------------------------------
// Visiting order: reverse post-order of a depth-first walk from the entry.

/// Visits the unvisited successors of `u` from edge `j` on, depth first;
/// `st` is (visited, post-order so far). `fuel` bounds the depth.
pub open spec fn dfs_edges(edges: Seq<crate::cfg::EdgeV>, u: usize, j: int, st: (Seq<usize>, Seq<usize>), fuel: nat)
    -> (Seq<usize>, Seq<usize>)
    decreases fuel, edges.len() - j,
{
    if j < 0 || j >= edges.len() {
        st
    } else if edges[j].from == u && !st.0.contains(edges[j].to) && fuel > 0 {
        let v = edges[j].to;
        let st2 = dfs_visit(edges, v, (st.0.push(v), st.1), (fuel - 1) as nat);
        dfs_edges(edges, u, j + 1, st2, fuel)
    } else {
        dfs_edges(edges, u, j + 1, st, fuel)
    }
}

/// Visits `u` (already marked visited): its successors, then `u` itself.
pub open spec fn dfs_visit(edges: Seq<crate::cfg::EdgeV>, u: usize, st: (Seq<usize>, Seq<usize>), fuel: nat) -> (Seq<usize>, Seq<usize>)
    decreases fuel, edges.len() + 1,
{
    let st2 = dfs_edges(edges, u, 0, st, fuel);
    (st2.0, st2.1.push(u))
}

/// The nodes reachable from the entry in reverse post-order of a
/// depth-first walk that follows edges in order.
pub open spec fn rpo(g: GraphV) -> Seq<usize> {
    dfs_visit(g.edges, g.entry, (seq![g.entry], Seq::empty()), g.edges.len() as nat).1.reverse()
}

/// Visits the unvisited successors of `u`, depth first.
fn dfs_edges_exec(edges: &Vec<crate::cfg::CFGEdge>, u: usize, visited: &mut Vec<usize>, order: &mut Vec<usize>, Ghost(fuel): Ghost<nat>,
    Ghost(start): Ghost<usize>)
    requires
        old(visited)@.no_duplicates(),
        forall|x: usize| old(visited)@.contains(x) ==> crate::reach::candidates(crate::cfg::edges_view(edges@), start).contains(x),
        fuel + old(visited)@.len() >= crate::reach::candidates(crate::cfg::edges_view(edges@), start).len(),
    ensures
        (final(visited)@, final(order)@) == dfs_edges(crate::cfg::edges_view(edges@), u, 0, (old(visited)@, old(order)@), fuel),
        final(visited)@.no_duplicates(),
        forall|x: usize| final(visited)@.contains(x) ==> crate::reach::candidates(crate::cfg::edges_view(edges@), start).contains(x),
        final(visited)@.len() >= old(visited)@.len(),
    decreases fuel, 1nat,
{
    let ghost es = crate::cfg::edges_view(edges@);
    let ghost cands = crate::reach::candidates(es, start);
    let ghost target = dfs_edges(es, u, 0, (visited@, order@), fuel);
    let mut j: usize = 0;
    while j < edges.len()
        invariant
            es == crate::cfg::edges_view(edges@),
            es.len() == edges@.len(),
            cands == crate::reach::candidates(es, start),
            j <= es.len(),
            target == dfs_edges(es, u, j as int, (visited@, order@), fuel),
            visited@.no_duplicates(),
            forall|x: usize| visited@.contains(x) ==> cands.contains(x),
            fuel + visited@.len() >= cands.len(),
            visited@.len() >= old(visited)@.len(),
        decreases es.len() - j,
    {
        let v = edges[j].to;
        assert(es[j as int] == edges@[j as int]@);
        if edges[j].from == u && !crate::cfg::contains_id(visited, v) {
            proof {
                assert(cands[j + 1] == v);
                let vv = visited@.push(v);
                assert(vv.no_duplicates());
                vv.unique_seq_to_set();
                cands.lemma_cardinality_of_set();
                assert forall|x: usize| vv.to_set().contains(x) implies cands.to_set().contains(x) by {
                    if x != v {
                        assert(visited@.contains(x));
                    }
                }
                vstd::set_lib::lemma_len_subset(vv.to_set(), cands.to_set());
            }
            let ghost vis0 = visited@;
            visited.push(v);
            proof {
                assert forall|x: usize| visited@.contains(x) implies cands.contains(x) by {
                    if x != v {
                        assert(vis0.contains(x));
                    }
                }
            }
            dfs_visit_exec(edges, v, visited, order, Ghost((fuel - 1) as nat), Ghost(start));
        }
        j += 1;
    }
}

/// Visits `u` (already marked visited): its successors, then `u`.
fn dfs_visit_exec(edges: &Vec<crate::cfg::CFGEdge>, u: usize, visited: &mut Vec<usize>, order: &mut Vec<usize>, Ghost(fuel): Ghost<nat>,
    Ghost(start): Ghost<usize>)
    requires
        old(visited)@.no_duplicates(),
        forall|x: usize| old(visited)@.contains(x) ==> crate::reach::candidates(crate::cfg::edges_view(edges@), start).contains(x),
        fuel + old(visited)@.len() >= crate::reach::candidates(crate::cfg::edges_view(edges@), start).len(),
    ensures
        (final(visited)@, final(order)@) == dfs_visit(crate::cfg::edges_view(edges@), u, (old(visited)@, old(order)@), fuel),
        final(visited)@.no_duplicates(),
        forall|x: usize| final(visited)@.contains(x) ==> crate::reach::candidates(crate::cfg::edges_view(edges@), start).contains(x),
        final(visited)@.len() >= old(visited)@.len(),
    decreases fuel, 2nat,
{
    dfs_edges_exec(edges, u, visited, order, Ghost(fuel), Ghost(start));
    order.push(u);
}

/// The nodes reachable from the entry of `cfg`, in reverse post-order.
pub fn reverse_postorder(cfg: &ControlFlowGraph) -> (r: Vec<usize>)
    ensures
        r@ == rpo(cfg@),
{
    let ghost es = cfg@.edges;
    let mut visited: Vec<usize> = Vec::new();
    let mut order: Vec<usize> = Vec::new();
    visited.push(cfg.entry_node);
    proof {
        let cands = crate::reach::candidates(es, cfg.entry_node);
        assert(cands[0] == cfg.entry_node);
        assert forall|x: usize| visited@.contains(x) implies cands.contains(x) by {
            assert(visited@[0] == x);
        }
    }
    dfs_visit_exec(&cfg.edges, cfg.entry_node, &mut visited, &mut order, Ghost(es.len() as nat), Ghost(cfg.entry_node));
    let mut out: Vec<usize> = Vec::new();
    let mut i: usize = order.len();
    while i > 0
        invariant
            i <= order@.len(),
            out@ == order@.subrange(i as int, order@.len() as int).reverse(),
        decreases i,
    {
        out.push(order[i - 1]);
        i -= 1;
        assert(out@ =~= order@.subrange(i as int, order@.len() as int).reverse());
    }
    assert(order@.subrange(0, order@.len() as int) =~= order@);
    out
}

} // verus!

verus! {

// ---------------------------------------------------------------------------
// Rules and the engine.

/// A security rule over one instruction handler.
pub trait Rule {
    /// The rule's identifier.
    fn id(&self) -> &'static str;

    /// The rule's title.
    fn name(&self) -> &'static str;

    /// What the rule finds in a handler, given the models of the handler's
    /// resolver and of the graph dominance is decided on.
    spec fn findings(&self, context: CtxV, resolver: ResolverV, dom: GraphV) -> Seq<DiagV>;

    /// What the rule needs of a handler to check it (such as SSA states for
    /// every node of its graph, where the rule reads them all).
    spec fn accepts(&self, context: CtxV) -> bool;

    /// The findings of this rule in a handler.
    fn check(&self, context: &InstructionAnalysisContext, resolver: &SymbolResolver, dom_checker: &DominanceChecker)
        -> (r: Vec<RuleDiagnostic>)
        requires
            self.accepts(context@),
        ensures
            diags_view(r@) == self.findings(context@, resolver@, dom_checker.cfg@),
    ;
}

/// The findings of the first `k` rules, rule by rule.
pub open spec fn all_findings<'a>(rules: Seq<Box<dyn Rule + 'a>>, context: CtxV, resolver: ResolverV, dom: GraphV, k: int)
    -> Seq<DiagV>
    decreases k,
{
    if k <= 0 {
        Seq::empty()
    } else {
        all_findings(rules, context, resolver, dom, k - 1) + rules[k - 1].findings(context, resolver, dom)
    }
}

/// Runs registered rules in registration order.
pub struct RuleEngine<'a> {
    pub rules: Vec<Box<dyn Rule + 'a>>,
}

impl<'a> RuleEngine<'a> {
    /// An engine without rules.
    pub fn new() -> (r: Self)
        ensures
            r.rules@.len() == 0,
    {
        RuleEngine { rules: Vec::new() }
    }

    /// Adds a rule after those registered.
    pub fn register_rule(&mut self, rule: Box<dyn Rule + 'a>)
        ensures
            final(self).rules@ == old(self).rules@.push(rule),
    {
        self.rules.push(rule);
    }

    /// The findings of every rule, rule by rule.
    pub fn run_all(&self, context: &InstructionAnalysisContext, resolver: &SymbolResolver, dom_checker: &DominanceChecker) -> (r: Vec<RuleDiagnostic>)
        requires
            forall|i: int| 0 <= i < self.rules@.len() ==> #[trigger] self.rules@[i].accepts(context@),
        ensures
            diags_view(r@) == all_findings(self.rules@, context@, resolver@, dom_checker.cfg@, self.rules@.len() as int),
    {
        let mut out: Vec<RuleDiagnostic> = Vec::new();
        let mut i: usize = 0;
        assert(diags_view(out@) =~= Seq::<DiagV>::empty());
        while i < self.rules.len()
            invariant
                i <= self.rules@.len(),
                forall|j: int| 0 <= j < self.rules@.len() ==> #[trigger] self.rules@[j].accepts(context@),
                diags_view(out@) == all_findings(self.rules@, context@, resolver@, dom_checker.cfg@, i as int),
            decreases self.rules@.len() - i,
        {
            let mut found = self.rules[i].check(context, resolver, dom_checker);
            let ghost o0 = out@;
            let ghost f0 = found@;
            out.append(&mut found);
            assert(diags_view(out@) =~= diags_view(o0) + diags_view(f0));
            i += 1;
        }
        out
    }
}

} // verus!

verus! {

/// Within one node, a node-level point dominates each statement, and an
/// earlier statement dominates a later one but not the reverse.
pub proof fn law_dominance_within_node(g: GraphV, a: usize, x: usize, y: usize)
    ensures
        dominates_spec(g, a, None, a, Some(x)),
        x < y ==> dominates_spec(g, a, Some(x), a, Some(y)) && !dominates_spec(g, a, Some(y), a, Some(x)),
        !dominates_spec(g, a, Some(x), a, Some(x)),
{
}

/// The entry node dominates every point of the graph.
pub proof fn law_entry_dominates_all(g: GraphV, b: usize, sb: Option<usize>)
    ensures
        dominates_spec(g, g.entry, None, b, sb),
{
    if b != g.entry {
        assert(!crate::reach::reaches(g.edges, g.entry, b, Some(g.entry))) by {
            if crate::reach::reaches(g.edges, g.entry, b, Some(g.entry)) {
                let p = choose|p: Seq<usize>| crate::reach::is_walk(g.edges, p) && p[0] == g.entry && p.last() == b
                    && crate::reach::avoids(p, Some(g.entry));
                assert(Some(p[0]) != Some(g.entry));
            }
        }
    }
}

/// Dominance between nodes is transitive: if `a` dominates `b` and `b`
/// dominates `c`, then `a` dominates `c`.
pub proof fn law_dominance_transitive(g: GraphV, a: usize, b: usize, c: usize)
    requires
        dominates_spec(g, a, None, b, None),
        dominates_spec(g, b, None, c, None),
    ensures
        dominates_spec(g, a, None, c, None),
{
    if a != b && b != c && a != c {
        assert(!crate::reach::reaches(g.edges, g.entry, c, Some(a))) by {
            if crate::reach::reaches(g.edges, g.entry, c, Some(a)) {
                let p = choose|p: Seq<usize>| crate::reach::is_walk(g.edges, p) && p[0] == g.entry && p.last() == c
                    && crate::reach::avoids(p, Some(a));
                if crate::reach::avoids(p, Some(b)) {
                    assert(crate::reach::reaches(g.edges, g.entry, c, Some(b)));
                } else {
                    let i = choose|i: int| 0 <= i < p.len() && !(Some(#[trigger] p[i]) != Some(b));
                    let q = p.take(i + 1);
                    assert(crate::reach::is_walk(g.edges, q)) by {
                        assert forall|k: int| 0 <= k < q.len() - 1 implies #[trigger] crate::reach::has_edge(g.edges, q[k], q[k + 1]) by {
                            assert(crate::reach::has_edge(g.edges, p[k], p[k + 1]));
                        }
                    }
                    assert(q[0] == g.entry);
                    assert(q.last() == b);
                    assert(crate::reach::avoids(q, Some(a))) by {
                        assert forall|k: int| 0 <= k < q.len() implies Some(#[trigger] q[k]) != Some(a) by {
                            assert(Some(p[k]) != Some(a));
                        }
                    }
                    assert(crate::reach::reaches(g.edges, g.entry, b, Some(a)));
                }
            }
        }
    }
}

} // verus!
