//! EPIC-SEC-005: a cross-program invocation whose target program account is
//! neither typed as a program, constrained, nor checked before the call.
use vstd::prelude::*;
use crate::maps::{StrMap, IdMap, lookup, has_key, assoc_insert, distinct_keys, lemma_assoc_insert, lemma_lookup_at, key_index};
use crate::text::{contains_sub, is_prefix, is_suffix};
use crate::ast::{ExpressionNode, ExpressionKind, StatementNode, StatementKind, ExprV, StmtV, StmtKindV};
use crate::guards::{SymbolId, FactConfidence, InstructionAnalysisContext, CtxV};
use crate::ssa::{SSANodeState, SSAVariable, SSAVarV, StateV, InfoV};
use crate::cfg::{GraphV, EdgeV, NodeV, ssa_covers};
use crate::types::{TypeRef, TypeRefV, FieldDef, FieldV, StructDef, StructV, TypeDef, TypeDefV, TypeRegistry};
use crate::rules::{ResolverV, SymbolResolver, DominanceChecker, RuleDiagnostic, RuleSeverity, FindingLocation, DiagV, Rule,
    resolve_spec, dominates_spec, diags_view};

verus! {

// ---------------------------------------------------------------------------
// Maps keyed by versioned names.

/// A map from versioned names to values, in insertion order, keys distinct.
pub struct VarMap<V: View> {
    entries: Vec<(SSAVariable, V)>,
}

/// Entries seen as (versioned-name model, value model) pairs.
pub open spec fn var_pairs<V: View>(e: Seq<(SSAVariable, V)>) -> Seq<(SSAVarV, V::V)> {
    Seq::new(e.len(), |i: int| (e[i].0@, e[i].1@))
}

impl<V: View> VarMap<V> {
    #[verifier::type_invariant]
    spec fn inv(self) -> bool {
        distinct_keys(var_pairs(self.entries@))
    }

    /// The entries as pairs of models.
    pub closed spec fn pairs(self) -> Seq<(SSAVarV, V::V)> {
        var_pairs(self.entries@)
    }

    /// An empty map.
    pub fn new() -> (m: Self)
        ensures
            m.pairs().len() == 0,
    {
        let m = VarMap { entries: Vec::new() };
        assert(var_pairs(m.entries@) =~= Seq::<(SSAVarV, V::V)>::empty());
        m
    }

    /// The number of entries.
    pub fn len(&self) -> (n: usize)
        ensures
            n == self.pairs().len(),
    {
        self.entries.len()
    }

    /// Position of key `k`, if present.
    fn index_of(&self, k: &SSAVariable) -> (r: Option<usize>)
        ensures
            r matches Some(i) ==> i < self.pairs().len() && self.pairs()[i as int].0 == k@ && key_index(self.pairs(), k@) == i,
            r is None ==> !has_key(self.pairs(), k@),
    {
        proof {
            use_type_invariant(self);
        }
        let mut i: usize = 0;
        while i < self.entries.len()
            invariant
                i <= self.entries@.len(),
                distinct_keys(var_pairs(self.entries@)),
                forall|j: int| 0 <= j < i ==> var_pairs(self.entries@)[j].0 != k@,
            decreases self.entries@.len() - i,
        {
            if crate::ssa::same_var(&self.entries[i].0, k) {
                proof {
                    lemma_lookup_at(var_pairs(self.entries@), i as int);
                }
                return Some(i);
            }
            i += 1;
        }
        None
    }

    /// The value for key `k`, if any.
    pub fn get(&self, k: &SSAVariable) -> (r: Option<&V>)
        ensures
            match r {
                Some(v) => lookup(self.pairs(), k@) == Some(v@),
                None => lookup(self.pairs(), k@) is None,
            },
    {
        match self.index_of(k) {
            Some(i) => Some(&self.entries[i].1),
            None => None,
        }
    }

    /// Sets key `k` to `v`, keeping the position of an existing key.
    pub fn insert(&mut self, k: SSAVariable, v: V)
        ensures
            final(self).pairs() == assoc_insert(old(self).pairs(), k@, v@),
    {
        proof {
            use_type_invariant(&*self);
        }
        let ghost old_pairs = self.pairs();
        let ghost kv = k@;
        let ghost vv = v@;
        proof {
            lemma_assoc_insert(old_pairs, kv, vv);
        }
        match self.index_of(&k) {
            Some(i) => {
                let mut e: Vec<(SSAVariable, V)> = Vec::new();
                std::mem::swap(&mut e, &mut self.entries);
                e.set(i, (k, v));
                assert(var_pairs(e@) =~= old_pairs.update(i as int, (kv, vv)));
                self.entries = e;
            },
            None => {
                let mut e: Vec<(SSAVariable, V)> = Vec::new();
                std::mem::swap(&mut e, &mut self.entries);
                e.push((k, v));
                assert(var_pairs(e@) =~= old_pairs.push((kv, vv)));
                self.entries = e;
            },
        }
    }
}

// ---------------------------------------------------------------------------
// The model: texts and names.

/// `c` in lower case, for ASCII letters.
pub open spec fn lower_char(c: char) -> char {
    if 'A' <= c && c <= 'Z' { ((c as u32) + 32) as char } else { c }
}

/// `c` in upper case, for ASCII letters.
pub open spec fn upper_char(c: char) -> char {
    if 'a' <= c && c <= 'z' { ((c as u32) - 32) as char } else { c }
}

/// `s` with ASCII letters in lower case.
pub open spec fn ascii_lower(s: Seq<char>) -> Seq<char> {
    Seq::new(s.len(), |i: int| lower_char(s[i]))
}

/// The text of an expression as the checks read it: paths, fields and
/// method calls with `()`, binary operations spaced, wrappers dropped.
pub open spec fn cpi_text(e: ExprV) -> Seq<char>
    decreases e,
{
    match e {
        ExprV::Identifier(n) => n,
        ExprV::Literal(v) => v,
        ExprV::FieldAccess { object, field } => cpi_text(*object) + "."@ + field,
        ExprV::MethodCall { object, method, .. } => cpi_text(*object) + "."@ + method + "()"@,
        ExprV::Reference { expression, .. } => cpi_text(*expression),
        ExprV::Dereference(x) => cpi_text(*x),
        ExprV::Try(x) => cpi_text(*x),
        ExprV::BinaryOp { op, lhs, rhs } => cpi_text(*lhs) + " "@ + op + " "@ + cpi_text(*rhs),
        _ => Seq::empty(),
    }
}

/// A type written as a program or interface (`Program<..>`, `Interface<..>`).
pub open spec fn program_typed(t: TypeRefV) -> bool {
    match t {
        TypeRefV::Custom(n) => is_prefix("Program"@, n) || contains_sub(n, "Program<"@) || is_prefix("Interface"@, n)
            || contains_sub(n, "Interface<"@),
        TypeRefV::Resolved(n) => is_prefix("Program"@, n) || contains_sub(n, "Program<"@) || is_prefix("Interface"@, n)
            || contains_sub(n, "Interface<"@),
        _ => false,
    }
}

/// The first field of `fields` named `name`.
pub open spec fn field_named(fields: Seq<FieldV>, name: Seq<char>) -> Option<FieldV>
    decreases fields.len(),
{
    if fields.len() == 0 {
        None
    } else if fields[0].name == name {
        Some(fields[0])
    } else {
        field_named(fields.drop_first(), name)
    }
}

/// A name that reads as a program account: it mentions `prog` in any case,
/// or the accounts struct types its field as a program or interface.
pub open spec fn is_program_name(name: Seq<char>, sd: Option<StructV>) -> bool {
    contains_sub(ascii_lower(name), "program"@) || contains_sub(ascii_lower(name), "prog"@) || match sd {
        Some(s) => match field_named(s.fields, name) {
            Some(f) => program_typed(f.type_ref),
            None => false,
        },
        None => false,
    }
}

/// A field whose type fixes the program, or whose attributes constrain it.
pub open spec fn field_validated(f: FieldV) -> bool {
    let typed = match f.type_ref {
        TypeRefV::Custom(n) => program_typed(f.type_ref) || is_prefix("InterfaceAccount"@, n) || contains_sub(n, "InterfaceAccount<"@),
        TypeRefV::Resolved(n) => program_typed(f.type_ref) || is_prefix("InterfaceAccount"@, n)
            || contains_sub(n, "InterfaceAccount<"@),
        _ => false,
    };
    typed || exists|i: int| 0 <= i < f.attrs.len() && (contains_sub(ascii_lower(#[trigger] f.attrs[i]), "address"@)
        || contains_sub(ascii_lower(f.attrs[i]), "constraint"@))
}

/// A symbol of the handler's table that is a field of the accounts struct or
/// reads as a program.
pub open spec fn is_root(sym: SymbolId, sd: Option<StructV>, table: Seq<(Seq<char>, SymbolId)>) -> bool {
    exists|i: int| 0 <= i < table.len() && #[trigger] table[i].1 == sym && (match sd {
        Some(s) => field_named(s.fields, table[i].0) is Some,
        None => false,
    } || is_program_name(table[i].0, sd))
}

// ---------------------------------------------------------------------------
// The model: aliases of versioned names.

/// The version active for the name an expression reads (through method
/// calls, references, field reads and `?`).
pub open spec fn active_var(e: ExprV, st: StateV) -> Option<SSAVarV>
    decreases e,
{
    match e {
        ExprV::Identifier(n) => lookup(st.active, n),
        ExprV::MethodCall { object, .. } => active_var(*object, st),
        ExprV::Reference { expression, .. } => active_var(*expression, st),
        ExprV::FieldAccess { object, .. } => active_var(*object, st),
        ExprV::Try(x) => active_var(*x, st),
        _ => None,
    }
}

/// Following alias links from `v` for at most `fuel` steps until a version
/// with a root symbol; none on a cycle or a version without a link.
pub open spec fn trace_var_fuel(par: Seq<(SSAVarV, SSAVarV)>, roots: Seq<(SSAVarV, SymbolId)>, v: SSAVarV, visited: Seq<SSAVarV>,
    fuel: nat) -> Option<SymbolId>
    decreases fuel,
{
    if fuel == 0 || visited.contains(v) {
        None
    } else {
        match lookup(roots, v) {
            Some(s) => Some(s),
            None => match lookup(par, v) {
                Some(p) => trace_var_fuel(par, roots, p, visited.push(v), (fuel - 1) as nat),
                None => None,
            },
        }
    }
}

/// The root symbol a version stands for.
pub open spec fn trace_var(par: Seq<(SSAVarV, SSAVarV)>, roots: Seq<(SSAVarV, SymbolId)>, v: SSAVarV) -> Option<SymbolId> {
    trace_var_fuel(par, roots, v, Seq::empty(), (par.len() + 1) as nat)
}

/// The root symbol of an expression: through its active version's aliases,
/// else as the resolver reads it.
pub open spec fn root_symbol(r: ResolverV, e: ExprV, st: StateV, par: Seq<(SSAVarV, SSAVarV)>, roots: Seq<(SSAVarV, SymbolId)>)
    -> Option<SymbolId>
{
    match active_var(e, st) {
        Some(v) => match trace_var(par, roots, v) {
            Some(s) => Some(s),
            None => resolve_spec(r, e, st),
        },
        None => resolve_spec(r, e, st),
    }
}

} // verus!

verus! {

// ---------------------------------------------------------------------------
// The model: first pass, alias links.

/// What the first pass reads besides the statements.
pub struct CpiEnv {
    pub r: ResolverV,
    pub sd: Option<StructV>,
    pub table: Seq<(Seq<char>, SymbolId)>,
    pub file: Seq<char>,
}

/// Alias links, root symbols, version counters and SSA state.
pub struct LinkState {
    pub par: Seq<(SSAVarV, SSAVarV)>,
    pub roots: Seq<(SSAVarV, SymbolId)>,
    pub ctr: Seq<(Seq<char>, usize)>,
    pub st: StateV,
}

/// Binds `name` to a new version typed from `init`; the version gets the
/// root symbol `init` resolves to, or, when that symbol is no root, an alias
/// link to the version `init` reads.
pub open spec fn link_binding(env: CpiEnv, ls: LinkState, name: Seq<char>, init: ExprV) -> LinkState {
    let (c2, v) = crate::ssa::next_version(ls.ctr, name);
    let var = SSAVarV::Versioned { name, version: v };
    let st2 = crate::ssa::bind_version(ls.st, name, v, init);
    match resolve_spec(env.r, init, ls.st) {
        Some(sym) => if is_root(sym, env.sd, env.table) {
            LinkState { roots: assoc_insert(ls.roots, var, sym), ctr: c2, st: st2, ..ls }
        } else {
            match active_var(init, ls.st) {
                Some(p) => LinkState { par: assoc_insert(ls.par, var, p), ctr: c2, st: st2, ..ls },
                None => LinkState { ctr: c2, st: st2, ..ls },
            }
        },
        None => LinkState { ctr: c2, st: st2, ..ls },
    }
}

/// An assignment to an active name binds a new version.
pub open spec fn link_assign(env: CpiEnv, ls: LinkState, e: ExprV) -> LinkState {
    match e {
        ExprV::Assign { left, right } => match *left {
            ExprV::Identifier(n) => if has_key(ls.st.active, n) { link_binding(env, ls, n, *right) } else { ls },
            _ => ls,
        },
        _ => ls,
    }
}

/// One statement of the first pass; a block's declarations go out of scope after it.
pub open spec fn link_stmt(env: CpiEnv, ls: LinkState, s: StmtV) -> LinkState
    decreases s, 0nat,
{
    match s.kind {
        StmtKindV::Let { name, initializer, .. } => link_binding(env, ls, name, initializer),
        StmtKindV::Expr(e) => link_assign(env, ls, e),
        StmtKindV::Semi(e) => link_assign(env, ls, e),
        StmtKindV::Block(inner) => {
            let after = link_stmts(env, ls, inner, 0);
            LinkState {
                st: StateV {
                    active: crate::ssa::restore(after.st.active, ls.st.active, crate::owner_rule::let_names(inner)),
                    types: after.st.types,
                },
                ..after
            }
        },
        StmtKindV::MacroCall { .. } => ls,
    }
}

/// The statements `ss[i..]` of the first pass.
pub open spec fn link_stmts(env: CpiEnv, ls: LinkState, ss: Seq<StmtV>, i: int) -> LinkState
    decreases ss, ss.len() - i,
{
    if i < 0 || i >= ss.len() {
        ls
    } else {
        link_stmts(env, link_stmt(env, ls, ss[i]), ss, i + 1)
    }
}

/// The first pass over the nodes `order[..k]`, each from its SSA start state.
pub open spec fn link_nodes(env: CpiEnv, g: GraphV, order: Seq<usize>, k: int)
    -> (Seq<(SSAVarV, SSAVarV)>, Seq<(SSAVarV, SymbolId)>)
    decreases k,
{
    if k <= 0 {
        (Seq::empty(), Seq::empty())
    } else {
        let (par, roots) = link_nodes(env, g, order, k - 1);
        let u = order[k - 1];
        match (lookup(g.nodes, u), lookup(g.ssa, u)) {
            (Some(n), Some(info)) => {
                let ls = LinkState { par, roots, ctr: crate::owner_rule::counters_from(info.start.active), st: info.start };
                let after = link_stmts(env, ls, n.statements, 0);
                (after.par, after.roots)
            },
            _ => (par, roots),
        }
    }
}

// ---------------------------------------------------------------------------
// The model: invocation targets.

/// A method that invokes another program.
pub open spec fn is_invoke(m: Seq<char>) -> bool {
    contains_sub(m, "invoke"@) || contains_sub(m, "invoke_signed"@)
}

/// A constructor of a CPI context.
pub open spec fn is_cpi_new(m: Seq<char>) -> bool {
    m == "new"@ || is_suffix("::new"@, m) || m == "new_with_signer"@ || is_suffix("::new_with_signer"@, m)
}

/// The program accounts an invocation's account slice names.
pub open spec fn slice_targets(e: ExprV) -> Seq<ExprV>
    decreases e, 0nat,
{
    match e {
        ExprV::Reference { expression, .. } => slice_targets(*expression),
        ExprV::MethodCall { method, arguments, .. } => if method == "array"@ {
            slice_targets_list(arguments, arguments.len() as int)
        } else {
            seq![e]
        },
        ExprV::Identifier(_) => seq![e],
        ExprV::FieldAccess { .. } => seq![e],
        _ => Seq::empty(),
    }
}

/// The slice targets of `args[..k]`, in order.
pub open spec fn slice_targets_list(args: Seq<ExprV>, k: int) -> Seq<ExprV>
    decreases args, k,
{
    if k <= 0 || k > args.len() {
        Seq::empty()
    } else {
        slice_targets_list(args, k - 1) + slice_targets(args[k - 1])
    }
}

/// The program accounts an expression invokes: the account slice of an
/// `invoke`, the program of a CPI context constructor, else those found
/// inside the receiver and arguments.
pub open spec fn cpi_targets_expr(e: ExprV) -> Seq<ExprV>
    decreases e, 0nat,
{
    match e {
        ExprV::MethodCall { object, method, arguments } => if is_invoke(method) {
            if arguments.len() >= 2 { slice_targets(arguments[1]) } else { Seq::empty() }
        } else if is_cpi_new(method) {
            if arguments.len() > 0 { seq![arguments[0]] } else { Seq::empty() }
        } else {
            cpi_targets_expr(*object) + cpi_targets_list(arguments, arguments.len() as int)
        },
        ExprV::Try(x) => cpi_targets_expr(*x),
        ExprV::Reference { expression, .. } => cpi_targets_expr(*expression),
        _ => Seq::empty(),
    }
}

/// The targets of `args[..k]`, in order.
pub open spec fn cpi_targets_list(args: Seq<ExprV>, k: int) -> Seq<ExprV>
    decreases args, k,
{
    if k <= 0 || k > args.len() {
        Seq::empty()
    } else {
        cpi_targets_list(args, k - 1) + cpi_targets_expr(args[k - 1])
    }
}

/// The targets of a statement.
pub open spec fn cpi_targets(s: StmtV) -> Seq<ExprV> {
    match s.kind {
        StmtKindV::Expr(e) => cpi_targets_expr(e),
        StmtKindV::Semi(e) => cpi_targets_expr(e),
        StmtKindV::Let { initializer, .. } => cpi_targets_expr(initializer),
        _ => Seq::empty(),
    }
}

} // verus!

verus! {

// ---------------------------------------------------------------------------
// The model: validations.

/// The root symbol a registered name stands for in state `st`: its active
/// version's root, else its own symbol.
pub open spec fn name_root(n: Seq<char>, sym: SymbolId, st: StateV, par: Seq<(SSAVarV, SSAVarV)>, roots: Seq<(SSAVarV, SymbolId)>)
    -> SymbolId
{
    match lookup(st.active, n) {
        Some(v) => match trace_var(par, roots, v) {
            Some(rt) => rt,
            None => sym,
        },
        None => sym,
    }
}

/// A text mentions name `n` (alone or as `n.`).
pub open spec fn mentions(text: Seq<char>, n: Seq<char>) -> bool {
    contains_sub(text, n) || contains_sub(text, n + "."@)
}

/// The roots of the registered names `names[..k]` that `text` mentions, in order.
pub open spec fn mentioned_roots(names: Seq<(Seq<char>, SymbolId)>, k: int, text: Seq<char>, st: StateV,
    par: Seq<(SSAVarV, SSAVarV)>, roots: Seq<(SSAVarV, SymbolId)>) -> Seq<SymbolId>
    decreases k,
{
    if k <= 0 || k > names.len() {
        Seq::empty()
    } else {
        let prev = mentioned_roots(names, k - 1, text, st, par, roots);
        if mentions(text, names[k - 1].0) {
            prev.push(name_root(names[k - 1].0, names[k - 1].1, st, par, roots))
        } else {
            prev
        }
    }
}

/// A statement that reads as a validation: a `require`/`assert` macro, or an
/// expression whose text mentions either.
pub open spec fn is_validation(s: StmtV) -> bool {
    match s.kind {
        StmtKindV::MacroCall { name, .. } => contains_sub(ascii_lower(name), "require"@) || contains_sub(ascii_lower(name), "assert"@),
        StmtKindV::Expr(e) => contains_sub(cpi_text(e), "require"@) || contains_sub(cpi_text(e), "assert"@),
        StmtKindV::Semi(e) => contains_sub(cpi_text(e), "require"@) || contains_sub(cpi_text(e), "assert"@),
        _ => false,
    }
}

/// The text a validation statement checks.
pub open spec fn validation_text(s: StmtV) -> Seq<char> {
    match s.kind {
        StmtKindV::MacroCall { raw_args, .. } => raw_args,
        StmtKindV::Expr(e) => cpi_text(e),
        StmtKindV::Semi(e) => cpi_text(e),
        _ => Seq::empty(),
    }
}

/// The roots a statement validates: those of the registered names its text mentions.
pub open spec fn validated_roots(r: ResolverV, s: StmtV, st: StateV, par: Seq<(SSAVarV, SSAVarV)>, roots: Seq<(SSAVarV, SymbolId)>)
    -> Seq<SymbolId>
{
    if is_validation(s) {
        mentioned_roots(r.names, r.names.len() as int, validation_text(s), st, par, roots)
    } else {
        Seq::empty()
    }
}

/// A branch condition that mentions a name standing for `target`.
pub open spec fn edge_validates(r: ResolverV, cond: ExprV, target: SymbolId, st: StateV, par: Seq<(SSAVarV, SSAVarV)>,
    roots: Seq<(SSAVarV, SymbolId)>) -> bool
{
    exists|i: int| 0 <= i < r.names.len() && mentions(cpi_text(cond), #[trigger] r.names[i].0)
        && name_root(r.names[i].0, r.names[i].1, st, par, roots) == target
}

/// A statement that ends the handler: an expression mentioning `return`,
/// `panic` or `Err`, or a `panic!`, `unreachable!` or `err!` macro.
pub open spec fn stmt_terminates(s: StmtV) -> bool {
    match s.kind {
        StmtKindV::Expr(e) => contains_sub(cpi_text(e), "return"@) || contains_sub(cpi_text(e), "panic"@) || contains_sub(cpi_text(e), "Err"@),
        StmtKindV::Semi(e) => contains_sub(cpi_text(e), "return"@) || contains_sub(cpi_text(e), "panic"@) || contains_sub(cpi_text(e), "Err"@),
        StmtKindV::MacroCall { name, .. } => name == "panic"@ || name == "unreachable"@ || name == "err"@,
        _ => false,
    }
}

/// Some statement of `ss` ends the handler.
pub open spec fn stmts_terminate(ss: Seq<StmtV>) -> bool {
    exists|j: int| 0 <= j < ss.len() && stmt_terminates(#[trigger] ss[j])
}

/// Some edge leaves node `u`.
pub open spec fn has_out_edge(edges: Seq<EdgeV>, u: usize) -> bool {
    exists|i: int| 0 <= i < edges.len() && #[trigger] edges[i].from == u
}

/// A node whose statements end the handler, or that has no successor but
/// an exit, every edge out of it returning early or going to an exit.
pub open spec fn node_terminates(g: GraphV, u: usize) -> bool {
    (match lookup(g.nodes, u) {
        Some(n) => stmts_terminate(n.statements),
        None => false,
    }) || if !has_out_edge(g.edges, u) {
        g.exits.contains(u)
    } else {
        forall|i: int| 0 <= i < g.edges.len() && #[trigger] g.edges[i].from == u ==> g.edges[i].is_early_return
            || g.exits.contains(g.edges[i].to)
    }
}

/// The first edge out of `u` that goes elsewhere than `to`.
pub open spec fn other_edge(edges: Seq<EdgeV>, u: usize, to: usize) -> Option<EdgeV>
    decreases edges.len(),
{
    if edges.len() == 0 {
        None
    } else if edges[0].from == u && edges[0].to != to {
        Some(edges[0])
    } else {
        other_edge(edges.drop_first(), u, to)
    }
}

/// The SSA state before statement `j` of a node.
pub open spec fn state_before(info: InfoV, j: int) -> StateV {
    if j == 0 { info.start } else { info.stmts[j - 1] }
}

/// Statement `j` of node `nodes[a]` validates `target` and dominates the call.
pub open spec fn stmt_validation_at(r: ResolverV, g: GraphV, dom: GraphV, par: Seq<(SSAVarV, SSAVarV)>, roots: Seq<(SSAVarV, SymbolId)>,
    target: SymbolId, cpi_node: usize, cpi_stmt: usize, a: int, j: int) -> bool
{
    0 <= a < g.nodes.len() && 0 <= j < g.nodes[a].1.statements.len() && match lookup(g.ssa, g.nodes[a].0) {
        Some(info) => validated_roots(r, g.nodes[a].1.statements[j], state_before(info, j), par, roots).contains(target)
            && dominates_spec(dom, g.nodes[a].0, Some(j as usize), cpi_node, Some(cpi_stmt)),
        None => false,
    }
}

/// Edge `edges[b]` out of node `nodes[a]` branches on `target` to a side
/// that ends the handler, and the branch dominates the call.
pub open spec fn edge_validation_at(r: ResolverV, g: GraphV, dom: GraphV, par: Seq<(SSAVarV, SSAVarV)>, roots: Seq<(SSAVarV, SymbolId)>,
    target: SymbolId, cpi_node: usize, cpi_stmt: usize, a: int, b: int) -> bool
{
    0 <= a < g.nodes.len() && 0 <= b < g.edges.len() && g.edges[b].from == g.nodes[a].0 && match (lookup(g.ssa, g.nodes[a].0), g.edges[b].condition) {
        (Some(info), Some(cond)) => edge_validates(r, cond, target, info.end, par, roots)
            && (node_terminates(g, g.edges[b].to) || match other_edge(g.edges, g.nodes[a].0, g.edges[b].to) {
                Some(oe) => node_terminates(g, oe.to),
                None => false,
            })
            && dominates_spec(dom, g.nodes[a].0, None, cpi_node, Some(cpi_stmt)),
        _ => false,
    }
}

/// Some check of `target` dominates statement `cpi_stmt` of node `cpi_node`.
pub open spec fn validation_dominates(r: ResolverV, g: GraphV, dom: GraphV, par: Seq<(SSAVarV, SSAVarV)>, roots: Seq<(SSAVarV, SymbolId)>,
    target: SymbolId, cpi_node: usize, cpi_stmt: usize) -> bool
{
    (exists|a: int, j: int| #[trigger] stmt_validation_at(r, g, dom, par, roots, target, cpi_node, cpi_stmt, a, j))
        || (exists|a: int, b: int| #[trigger] edge_validation_at(r, g, dom, par, roots, target, cpi_node, cpi_stmt, a, b))
}

} // verus!

verus! {

// ---------------------------------------------------------------------------
// The model: second pass, findings.

/// The names of `table[..k]` registered for `sym`, in order.
pub open spec fn table_names(table: Seq<(Seq<char>, SymbolId)>, k: int, sym: SymbolId) -> Seq<Seq<char>>
    decreases k,
{
    if k <= 0 || k > table.len() {
        Seq::empty()
    } else if table[k - 1].1 == sym {
        table_names(table, k - 1, sym).push(table[k - 1].0)
    } else {
        table_names(table, k - 1, sym)
    }
}

/// The names of `active[..k]` whose versions stand for `sym`, in order.
pub open spec fn active_names(active: Seq<(Seq<char>, SSAVarV)>, k: int, par: Seq<(SSAVarV, SSAVarV)>, roots: Seq<(SSAVarV, SymbolId)>,
    sym: SymbolId) -> Seq<Seq<char>>
    decreases k,
{
    if k <= 0 || k > active.len() {
        Seq::empty()
    } else if trace_var(par, roots, active[k - 1].1) == Some(sym) {
        active_names(active, k - 1, par, roots, sym).push(active[k - 1].0)
    } else {
        active_names(active, k - 1, par, roots, sym)
    }
}

/// The names a root symbol goes by: registered for it, or active and standing for it.
pub open spec fn program_names(table: Seq<(Seq<char>, SymbolId)>, st: StateV, par: Seq<(SSAVarV, SSAVarV)>, roots: Seq<(SSAVarV, SymbolId)>,
    sym: SymbolId) -> Seq<Seq<char>>
{
    table_names(table, table.len() as int, sym) + active_names(st.active, st.active.len() as int, par, roots, sym)
}

/// Some name reads as a program account.
pub open spec fn names_program(names: Seq<Seq<char>>, sd: Option<StructV>) -> bool {
    exists|i: int| 0 <= i < names.len() && is_program_name(#[trigger] names[i], sd)
}

/// Some name is a field of the accounts struct that fixes or constrains the program.
pub open spec fn statically_validated(names: Seq<Seq<char>>, sd: Option<StructV>) -> bool {
    match sd {
        Some(s) => exists|i: int| 0 <= i < names.len() && match field_named(s.fields, #[trigger] names[i]) {
            Some(f) => field_validated(f),
            None => false,
        },
        None => false,
    }
}

/// The name a finding gives a program: the first registered for it, else `SymbolId(n)`.
pub open spec fn program_label(table: Seq<(Seq<char>, SymbolId)>, sym: SymbolId) -> Seq<char> {
    let ns = table_names(table, table.len() as int, sym);
    if ns.len() > 0 { ns[0] } else { "SymbolId("@ + crate::text::decimal(sym.0 as nat) + ")"@ }
}

/// The finding for an invocation of `root` at statement `j` (on `line`) of node `u`.
pub open spec fn cpi_diag(env: CpiEnv, root: SymbolId, line: usize, u: usize, j: usize) -> DiagV {
    DiagV {
        rule_id: "EPIC-SEC-005"@,
        severity: RuleSeverity::Critical,
        message: "Arbitrary CPI target program validation missing for program account '"@ + program_label(env.table, root)
            + "'. The program must be validated via static types (Program<'info, T>) or imperative checks (require!) dominating the invocation."@,
        file: env.file,
        line,
        column: 0,
        node_id: u,
        statement_index: Some(j),
        confidence: FactConfidence::Asserted,
        target_symbol: root,
    }
}

/// The program an invocation target calls without validation, if not reported yet.
pub open spec fn target_finding(env: CpiEnv, g: GraphV, dom: GraphV, par: Seq<(SSAVarV, SSAVarV)>, roots: Seq<(SSAVarV, SymbolId)>,
    u: usize, j: usize, st: StateV, target: ExprV, reported: Seq<SymbolId>) -> Option<SymbolId>
{
    match root_symbol(env.r, target, st, par, roots) {
        Some(root) => {
            let names = program_names(env.table, st, par, roots, root);
            if names_program(names, env.sd) && !statically_validated(names, env.sd)
                && !validation_dominates(env.r, g, dom, par, roots, root, u, j) && !reported.contains(root) {
                Some(root)
            } else {
                None
            }
        },
        None => None,
    }
}

/// Findings and reported roots after the targets `ts[..k]` of statement `j` of node `u`.
pub open spec fn targets_pass(env: CpiEnv, g: GraphV, dom: GraphV, par: Seq<(SSAVarV, SSAVarV)>, roots: Seq<(SSAVarV, SymbolId)>,
    u: usize, j: usize, line: usize, st: StateV, ts: Seq<ExprV>, k: int, acc: (Seq<DiagV>, Seq<SymbolId>))
    -> (Seq<DiagV>, Seq<SymbolId>)
    decreases k,
{
    if k <= 0 || k > ts.len() {
        acc
    } else {
        let (d, rep) = targets_pass(env, g, dom, par, roots, u, j, line, st, ts, k - 1, acc);
        match target_finding(env, g, dom, par, roots, u, j, st, ts[k - 1], rep) {
            Some(root) => (d.push(cpi_diag(env, root, line, u, j)), rep.push(root)),
            None => (d, rep),
        }
    }
}

/// Findings and reported roots after the statements `ss[..k]` of node `u`.
pub open spec fn stmts_pass(env: CpiEnv, g: GraphV, dom: GraphV, par: Seq<(SSAVarV, SSAVarV)>, roots: Seq<(SSAVarV, SymbolId)>,
    u: usize, info: InfoV, ss: Seq<StmtV>, k: int, acc: (Seq<DiagV>, Seq<SymbolId>)) -> (Seq<DiagV>, Seq<SymbolId>)
    decreases k,
{
    if k <= 0 || k > ss.len() {
        acc
    } else {
        let prev = stmts_pass(env, g, dom, par, roots, u, info, ss, k - 1, acc);
        let ts = cpi_targets(ss[k - 1]);
        targets_pass(env, g, dom, par, roots, u, (k - 1) as usize, ss[k - 1].line_number, state_before(info, k - 1), ts,
            ts.len() as int, prev)
    }
}

/// Findings and reported roots after the nodes `order[..k]`.
pub open spec fn nodes_pass(env: CpiEnv, g: GraphV, dom: GraphV, par: Seq<(SSAVarV, SSAVarV)>, roots: Seq<(SSAVarV, SymbolId)>,
    order: Seq<usize>, k: int) -> (Seq<DiagV>, Seq<SymbolId>)
    decreases k,
{
    if k <= 0 {
        (Seq::empty(), Seq::empty())
    } else {
        let prev = nodes_pass(env, g, dom, par, roots, order, k - 1);
        let u = order[k - 1];
        match (lookup(g.nodes, u), lookup(g.ssa, u)) {
            (Some(n), Some(info)) => stmts_pass(env, g, dom, par, roots, u, info, n.statements, n.statements.len() as int, prev),
            _ => prev,
        }
    }
}

// ---------------------------------------------------------------------------
// The model: the accounts struct of a handler.

/// Snake case to title case: the letter after each underscore (and the
/// first) in upper case, underscores dropped; with whether the next letter
/// is to be raised.
pub open spec fn title_run(cs: Seq<char>) -> (Seq<char>, bool)
    decreases cs.len(),
{
    if cs.len() == 0 {
        (Seq::empty(), true)
    } else {
        let (out, up) = title_run(cs.drop_last());
        let c = cs.last();
        if c == '_' {
            (out, true)
        } else if up {
            (out.push(upper_char(c)), false)
        } else {
            (out.push(c), false)
        }
    }
}

/// The names an accounts struct of handler `name` may have: its title case,
/// and that without a leading `Handle` or `Process`.
pub open spec fn struct_candidates(name: Seq<char>) -> Seq<Seq<char>> {
    let tc = title_run(name).0;
    seq![tc] + (if is_prefix("Handle"@, tc) && tc.len() > 6 { seq![tc.subrange(6, tc.len() as int)] } else { Seq::empty() })
        + (if is_prefix("Process"@, tc) && tc.len() > 7 { seq![tc.subrange(7, tc.len() as int)] } else { Seq::empty() })
}

/// The first candidate name that names a struct of `program`.
pub open spec fn first_candidate(defs: Seq<(Seq<char>, TypeDefV)>, program: Seq<char>, cands: Seq<Seq<char>>) -> Option<StructV>
    decreases cands.len(),
{
    if cands.len() == 0 {
        None
    } else {
        match crate::audit::struct_by_name(defs, program, Seq::empty(), cands[0]) {
            Some(s) => Some(s),
            None => first_candidate(defs, program, cands.drop_first()),
        }
    }
}

/// A struct with fields, all of them names of the handler's symbol table.
pub open spec fn fields_in_table(s: StructV, table: Seq<(Seq<char>, SymbolId)>) -> bool {
    s.fields.len() > 0 && forall|i: int| 0 <= i < s.fields.len() ==> has_key(table, #[trigger] s.fields[i].name)
}

/// The first struct whose fields are all in the symbol table.
pub open spec fn first_covered_struct(defs: Seq<(Seq<char>, TypeDefV)>, table: Seq<(Seq<char>, SymbolId)>) -> Option<StructV>
    decreases defs.len(),
{
    if defs.len() == 0 {
        None
    } else {
        match defs[0].1 {
            TypeDefV::Struct(s) => if fields_in_table(s, table) { Some(s) } else { first_covered_struct(defs.drop_first(), table) },
            _ => first_covered_struct(defs.drop_first(), table),
        }
    }
}

/// The accounts struct of a handler: by name, else by its fields.
pub open spec fn context_struct(defs: Seq<(Seq<char>, TypeDefV)>, program: Seq<char>, ctx: CtxV) -> Option<StructV> {
    match first_candidate(defs, program, struct_candidates(ctx.name)) {
        Some(s) => Some(s),
        None => first_covered_struct(defs, ctx.table),
    }
}

/// The findings of the rule in a handler.
pub open spec fn cpi_findings(defs: Seq<(Seq<char>, TypeDefV)>, program: Seq<char>, ctx: CtxV, r: ResolverV,
    dom: GraphV) -> Seq<DiagV>
{
    let env = CpiEnv { r, sd: context_struct(defs, program, ctx), table: ctx.table, file: ctx.file };
    let g = ctx.cfg;
    let order = crate::rules::rpo(g);
    let (par, roots) = link_nodes(env, g, order, order.len() as int);
    nodes_pass(env, g, dom, par, roots, order, order.len() as int).0
}

} // verus!

verus! {

// ---------------------------------------------------------------------------
// Texts and names.

/// `c` in lower case, for ASCII letters.
fn lower_char_exec(c: char) -> (r: char)
    ensures
        r == lower_char(c),
{
    if 'A' <= c && c <= 'Z' {
        let b: u8 = (c as u8) + 32;
        b as char
    } else {
        c
    }
}

/// `c` in upper case, for ASCII letters.
fn upper_char_exec(c: char) -> (r: char)
    ensures
        r == upper_char(c),
{
    if 'a' <= c && c <= 'z' {
        let b: u8 = (c as u8) - 32;
        b as char
    } else {
        c
    }
}

/// The characters of `s` with ASCII letters in lower case.
fn ascii_lower_exec(s: &str) -> (r: Vec<char>)
    ensures
        r@ == ascii_lower(s@),
{
    let cs = crate::text::chars_of(s);
    let mut out: Vec<char> = Vec::new();
    let mut i: usize = 0;
    while i < cs.len()
        invariant
            i <= cs@.len(),
            cs@ == s@,
            out@ == ascii_lower(s@).subrange(0, i as int),
        decreases cs@.len() - i,
    {
        out.push(lower_char_exec(cs[i]));
        i += 1;
        assert(out@ =~= ascii_lower(s@).subrange(0, i as int));
    }
    assert(ascii_lower(s@).subrange(0, i as int) =~= ascii_lower(s@));
    out
}

/// Whether the lower-case form of `s` contains `p` (given in lower case).
fn lower_contains(s: &str, p: &str) -> (r: bool)
    ensures
        r == contains_sub(ascii_lower(s@), p@),
{
    let x = ascii_lower_exec(s);
    let y = crate::text::chars_of(p);
    crate::text::find_first(&x, &y).is_some()
}

/// The text of an expression as the invocation checks read it.
pub fn expr_to_string(expr: &ExpressionNode) -> (r: String)
    ensures
        r@ == cpi_text(expr@),
    decreases expr,
{
    match &expr.kind {
        ExpressionKind::Identifier(name) => name.clone(),
        ExpressionKind::Literal(val) => val.clone(),
        ExpressionKind::FieldAccess { object, field } => {
            let mut s = expr_to_string(object);
            crate::text::push_lit(&mut s, ".");
            crate::text::append_str(&mut s, field.as_str());
            s
        },
        ExpressionKind::MethodCall { object, method, .. } => {
            let mut s = expr_to_string(object);
            crate::text::push_lit(&mut s, ".");
            crate::text::append_str(&mut s, method.as_str());
            crate::text::push_lit(&mut s, "()");
            s
        },
        ExpressionKind::Reference { expression, .. } => expr_to_string(expression),
        ExpressionKind::Dereference(x) => expr_to_string(x),
        ExpressionKind::Try(x) => expr_to_string(x),
        ExpressionKind::BinaryOp { op, lhs, rhs } => {
            let mut s = expr_to_string(lhs);
            crate::text::push_lit(&mut s, " ");
            crate::text::append_str(&mut s, op.as_str());
            crate::text::push_lit(&mut s, " ");
            let t = expr_to_string(rhs);
            crate::text::append_str(&mut s, t.as_str());
            s
        },
        _ => String::new(),
    }
}

/// Whether a type reference is written as a program or interface.
fn program_typed_exec(t: &TypeRef) -> (r: bool)
    ensures
        r == program_typed(t@),
{
    match t {
        TypeRef::Custom(n) | TypeRef::Resolved(n) => {
            let s = n.as_str();
            crate::text::starts_with(s, "Program") || crate::text::contains_str(s, "Program<") || crate::text::starts_with(s, "Interface")
                || crate::text::contains_str(s, "Interface<")
        },
        _ => false,
    }
}

/// The first field named `name`.
fn field_by_name<'a>(fields: &'a Vec<FieldDef>, name: &str) -> (r: Option<&'a FieldDef>)
    ensures
        match r {
            Some(f) => field_named(crate::types::fields_view(fields@), name@) == Some(f@),
            None => field_named(crate::types::fields_view(fields@), name@) is None,
        },
{
    let ghost fv = crate::types::fields_view(fields@);
    let mut i: usize = 0;
    assert(fv.skip(0) =~= fv);
    while i < fields.len()
        invariant
            fv == crate::types::fields_view(fields@),
            i <= fields@.len(),
            field_named(fv, name@) == field_named(fv.skip(i as int), name@),
        decreases fields@.len() - i,
    {
        assert(fv.skip(i as int)[0] == fields@[i as int]@);
        assert(fv.skip(i as int).drop_first() =~= fv.skip(i + 1));
        if crate::text::str_eq(fields[i].name.as_str(), name) {
            return Some(&fields[i]);
        }
        i += 1;
    }
    assert(fv.skip(i as int) =~= Seq::<FieldV>::empty());
    None
}

} // verus!

verus! {

/// The model of an optional accounts struct.
pub open spec fn opt_struct(o: Option<&StructDef>) -> Option<StructV> {
    match o {
        Some(s) => Some(s@),
        None => None,
    }
}

/// Flags invocations of program accounts that nothing validates.
pub struct ArbitraryCpiTargetRule<'a> {
    /// The definitions the accounts struct of a handler is looked up in.
    pub registry: &'a TypeRegistry,
    /// The program the handlers belong to.
    pub program_name: String,
}

impl<'a> ArbitraryCpiTargetRule<'a> {
    /// A rule that looks accounts structs up in `registry` under `program_name`.
    pub fn new(registry: &'a TypeRegistry, program_name: String) -> (r: Self)
        ensures
            r.registry == registry,
            r.program_name == program_name,
    {
        ArbitraryCpiTargetRule { registry, program_name }
    }

    /// The version active for the name an expression reads.
    fn find_active_variable(&self, expr: &ExpressionNode, ssa_state: &SSANodeState) -> (r: Option<SSAVariable>)
        ensures
            match r {
                Some(v) => active_var(expr@, ssa_state@) == Some(v@),
                None => active_var(expr@, ssa_state@) is None,
            },
        decreases expr,
    {
        match &expr.kind {
            ExpressionKind::Identifier(name) => match ssa_state.active_variables.get(name.as_str()) {
                Some(v) => Some(v.clone()),
                None => None,
            },
            ExpressionKind::MethodCall { object, .. } => self.find_active_variable(object, ssa_state),
            ExpressionKind::Reference { expression, .. } => self.find_active_variable(expression, ssa_state),
            ExpressionKind::FieldAccess { object, .. } => self.find_active_variable(object, ssa_state),
            ExpressionKind::Try(inner) => self.find_active_variable(inner, ssa_state),
            _ => None,
        }
    }

    /// The root symbol a version stands for, following alias links.
    fn trace_ssa_to_root(&self, var: SSAVariable, var_to_parent_var: &VarMap<SSAVariable>, var_to_root_symbol: &VarMap<SymbolId>)
        -> (r: Option<SymbolId>)
        ensures
            r == trace_var(var_to_parent_var.pairs(), var_to_root_symbol.pairs(), var@),
    {
        let ghost par = var_to_parent_var.pairs();
        let ghost roots = var_to_root_symbol.pairs();
        let n = var_to_parent_var.len();
        let ghost keys = crate::maps::keys_of(par);
        proof {
            use_type_invariant(var_to_parent_var);
        }
        let ghost v0 = var@;
        let mut v = var;
        let mut visited: Vec<SSAVariable> = Vec::new();
        assert(var_views(visited@) =~= Seq::<SSAVarV>::empty());
        loop
            invariant
                par == var_to_parent_var.pairs(),
                roots == var_to_root_symbol.pairs(),
                n == par.len(),
                keys == crate::maps::keys_of(par),
                distinct_keys(par),
                var_views(visited@).no_duplicates(),
                forall|x: SSAVarV| var_views(visited@).contains(x) ==> keys.contains(x),
                visited@.len() <= n,
                v0 == var@,
                trace_var(par, roots, v0) == trace_var_fuel(par, roots, v@, var_views(visited@), (n + 1 - visited@.len()) as nat),
            decreases n + 1 - visited@.len(),
        {
            if contains_var(&visited, &v) {
                return None;
            }
            match var_to_root_symbol.get(&v) {
                Some(s) => return Some(*s),
                None => {},
            }
            match var_to_parent_var.get(&v) {
                Some(p) => {
                    let ghost vis = var_views(visited@);
                    proof {
                        let vv = vis.push(v@);
                        assert(has_key(par, v@));
                        let ki = key_index(par, v@);
                        assert(keys[ki] == v@);
                        vv.unique_seq_to_set();
                        keys.lemma_cardinality_of_set();
                        assert forall|x: SSAVarV| vv.to_set().contains(x) implies keys.to_set().contains(x) by {
                            if x != v@ {
                                assert(vis.contains(x));
                            }
                        }
                        vstd::set_lib::lemma_len_subset(vv.to_set(), keys.to_set());
                    }
                    let next = p.clone();
                    visited.push(v);
                    proof {
                        assert(var_views(visited@) =~= vis.push(var_views(visited@).last()));
                        assert forall|x: SSAVarV| var_views(visited@).contains(x) implies keys.contains(x) by {
                            let k = choose|k: int| 0 <= k < var_views(visited@).len() && var_views(visited@)[k] == x;
                            if k < vis.len() {
                                assert(vis[k] == x);
                            } else {
                                let ki = key_index(par, x);
                                assert(keys[ki] == x);
                            }
                        }
                    }
                    v = next;
                },
                None => return None,
            }
        }
    }
}

/// The models of a list of versioned names.
pub open spec fn var_views(v: Seq<SSAVariable>) -> Seq<SSAVarV> {
    Seq::new(v.len(), |i: int| v[i]@)
}

/// Whether `v` is among `vs`.
fn contains_var(vs: &Vec<SSAVariable>, v: &SSAVariable) -> (r: bool)
    ensures
        r == var_views(vs@).contains(v@),
{
    let mut i: usize = 0;
    while i < vs.len()
        invariant
            i <= vs@.len(),
            forall|j: int| 0 <= j < i ==> var_views(vs@)[j] != v@,
        decreases vs@.len() - i,
    {
        if crate::ssa::same_var(&vs[i], v) {
            assert(var_views(vs@)[i as int] == v@);
            return true;
        }
        i += 1;
    }
    false
}

} // verus!

verus! {

impl<'a> ArbitraryCpiTargetRule<'a> {
    /// The root symbol of an expression: through its active version's
    /// aliases, else as the resolver reads it.
    fn get_root_symbol(&self, expr: &ExpressionNode, state_before: &SSANodeState, resolver: &SymbolResolver,
        var_to_parent_var: &VarMap<SSAVariable>, var_to_root_symbol: &VarMap<SymbolId>) -> (r: Option<SymbolId>)
        ensures
            r == root_symbol(resolver@, expr@, state_before@, var_to_parent_var.pairs(), var_to_root_symbol.pairs()),
    {
        match self.find_active_variable(expr, state_before) {
            Some(v) => match self.trace_ssa_to_root(v, var_to_parent_var, var_to_root_symbol) {
                Some(s) => return Some(s),
                None => {},
            },
            None => {},
        }
        resolver.resolve_expr(expr, state_before)
    }

    /// Whether a name reads as a program account.
    fn is_program_symbol(&self, sym_name: &str, struct_def: Option<&StructDef>) -> (r: bool)
        ensures
            r == is_program_name(sym_name@, opt_struct(struct_def)),
    {
        if lower_contains(sym_name, "program") || lower_contains(sym_name, "prog") {
            return true;
        }
        match struct_def {
            Some(s) => match field_by_name(&s.fields, sym_name) {
                Some(field) => program_typed_exec(&field.type_ref),
                None => false,
            },
            None => false,
        }
    }

    /// Whether a field's type fixes the program or its attributes constrain it.
    fn is_struct_field_validated(&self, field: &FieldDef) -> (r: bool)
        ensures
            r == field_validated(field@),
    {
        let typed = match &field.type_ref {
            TypeRef::Custom(name) | TypeRef::Resolved(name) => {
                let s = name.as_str();
                program_typed_exec(&field.type_ref) || crate::text::starts_with(s, "InterfaceAccount")
                    || crate::text::contains_str(s, "InterfaceAccount<")
            },
            _ => false,
        };
        if typed {
            return true;
        }
        let ghost attrs = field@.attrs;
        let mut i: usize = 0;
        while i < field.attrs.len()
            invariant
                attrs == field@.attrs,
                attrs.len() == field.attrs@.len(),
                i <= attrs.len(),
                forall|j: int| 0 <= j < i ==> !(contains_sub(ascii_lower(#[trigger] attrs[j]), "address"@)
                    || contains_sub(ascii_lower(attrs[j]), "constraint"@)),
            decreases attrs.len() - i,
        {
            assert(attrs[i as int] == field.attrs@[i as int]@);
            if lower_contains(field.attrs[i].as_str(), "address") || lower_contains(field.attrs[i].as_str(), "constraint") {
                return true;
            }
            i += 1;
        }
        false
    }

    /// Whether a symbol of the handler's table is a field of the accounts
    /// struct or reads as a program.
    fn is_root_symbol(&self, sym_id: SymbolId, _resolver: &SymbolResolver, struct_def: Option<&StructDef>,
        instruction_context: &InstructionAnalysisContext) -> (r: bool)
        ensures
            r == is_root(sym_id, opt_struct(struct_def), instruction_context.symbol_table.pairs()),
    {
        let ghost table = instruction_context.symbol_table.pairs();
        let n = instruction_context.symbol_table.len();
        let mut i: usize = 0;
        while i < n
            invariant
                table == instruction_context.symbol_table.pairs(),
                n == table.len(),
                i <= n,
                forall|j: int| 0 <= j < i ==> !(#[trigger] table[j].1 == sym_id && (match opt_struct(struct_def) {
                    Some(s) => field_named(s.fields, table[j].0) is Some,
                    None => false,
                } || is_program_name(table[j].0, opt_struct(struct_def)))),
            decreases n - i,
        {
            let name = instruction_context.symbol_table.key_at(i);
            let id = *instruction_context.symbol_table.value_at(i);
            if id == sym_id {
                let in_struct = match struct_def {
                    Some(s) => field_by_name(&s.fields, name.as_str()).is_some(),
                    None => false,
                };
                if in_struct || self.is_program_symbol(name.as_str(), struct_def) {
                    assert(table[i as int].1 == sym_id);
                    return true;
                }
            }
            i += 1;
        }
        false
    }
}

} // verus!

verus! {

/// Snake case to title case.
fn title_case_exec(name: &str) -> (r: String)
    ensures
        r@ == title_run(name@).0,
{
    let cs = crate::text::chars_of(name);
    let mut out = String::new();
    let mut up = true;
    let mut i: usize = 0;
    assert(cs@.take(0) =~= Seq::<char>::empty());
    while i < cs.len()
        invariant
            cs@ == name@,
            i <= cs@.len(),
            (out@, up) == title_run(cs@.take(i as int)),
        decreases cs@.len() - i,
    {
        let c = cs[i];
        assert(cs@.take(i + 1).drop_last() =~= cs@.take(i as int));
        assert(cs@.take(i + 1).last() == c);
        if c == '_' {
            up = true;
        } else if up {
            crate::text::push_char(&mut out, upper_char_exec(c));
            up = false;
        } else {
            crate::text::push_char(&mut out, c);
            up = false;
        }
        i += 1;
    }
    assert(cs@.take(cs@.len() as int) =~= cs@);
    out
}

/// The names an accounts struct of handler `name` may have.
fn struct_candidates_exec(name: &str) -> (r: Vec<String>)
    ensures
        crate::types::strs_view(r@) == struct_candidates(name@),
{
    let tc = title_case_exec(name);
    let mut out: Vec<String> = Vec::new();
    let cs = crate::text::chars_of(tc.as_str());
    out.push(tc.clone());
    let ghost first = seq![tc@];
    assert(crate::types::strs_view(out@) =~= first);
    let ghost o1 = crate::types::strs_view(out@);
    if crate::text::starts_with(tc.as_str(), "Handle") && cs.len() > 6 {
        out.push(crate::text::substring(&cs, 6, cs.len()));
        assert(crate::types::strs_view(out@) =~= o1 + seq![tc@.subrange(6, tc@.len() as int)]);
    } else {
        assert(o1 + Seq::<Seq<char>>::empty() =~= o1);
    }
    let ghost o2 = crate::types::strs_view(out@);
    if crate::text::starts_with(tc.as_str(), "Process") && cs.len() > 7 {
        out.push(crate::text::substring(&cs, 7, cs.len()));
        assert(crate::types::strs_view(out@) =~= o2 + seq![tc@.subrange(7, tc@.len() as int)]);
    } else {
        assert(o2 + Seq::<Seq<char>>::empty() =~= o2);
    }
    out
}

impl<'a> ArbitraryCpiTargetRule<'a> {
    /// The accounts struct of a handler: by its title-cased name (also
    /// without a `Handle` or `Process` prefix), else the first struct whose
    /// fields are all names of the handler's symbol table.
    fn find_context_struct(&self, instruction_context: &InstructionAnalysisContext) -> (r: Option<&'a StructDef>)
        ensures
            opt_struct(r) == context_struct(self.registry.definitions.pairs(), self.program_name@, instruction_context@),
    {
        let ghost defs = self.registry.definitions.pairs();
        let cands = struct_candidates_exec(instruction_context.name.as_str());
        let ghost cv = crate::types::strs_view(cands@);
        let no_modules: Vec<String> = Vec::new();
        assert(crate::types::strs_view(no_modules@) =~= Seq::<Seq<char>>::empty());
        let mut i: usize = 0;
        assert(cv.skip(0) =~= cv);
        while i < cands.len()
            invariant
                defs == self.registry.definitions.pairs(),
                cv == crate::types::strs_view(cands@),
                cv == struct_candidates(instruction_context.name@),
                crate::types::strs_view(no_modules@) == Seq::<Seq<char>>::empty(),
                i <= cands@.len(),
                first_candidate(defs, self.program_name@, cv) == first_candidate(defs, self.program_name@, cv.skip(i as int)),
            decreases cands@.len() - i,
        {
            assert(cv.skip(i as int)[0] == cands@[i as int]@);
            assert(cv.skip(i as int).drop_first() =~= cv.skip(i + 1));
            match crate::audit::find_struct_by_name(self.registry, self.program_name.as_str(), &no_modules, cands[i].as_str()) {
                Some(s) => return Some(s),
                None => {},
            }
            i += 1;
        }
        assert(cv.skip(i as int) =~= Seq::<Seq<char>>::empty());
        let ghost table = instruction_context.symbol_table.pairs();
        let n = self.registry.definitions.len();
        let mut k: usize = 0;
        assert(defs.skip(0) =~= defs);
        while k < n
            invariant
                defs == self.registry.definitions.pairs(),
                n == defs.len(),
                table == instruction_context.symbol_table.pairs(),
                k <= n,
                first_candidate(defs, self.program_name@, struct_candidates(instruction_context.name@)) is None,
                first_covered_struct(defs, table) == first_covered_struct(defs.skip(k as int), table),
            decreases n - k,
        {
            let def = self.registry.definitions.value_at(k);
            assert(defs.skip(k as int)[0].1 == def@);
            assert(defs.skip(k as int).drop_first() =~= defs.skip(k + 1));
            match def {
                TypeDef::Struct(s) => {
                    if Self::fields_in_table_exec(s, instruction_context) {
                        return Some(s);
                    }
                },
                _ => {},
            }
            k += 1;
        }
        assert(defs.skip(k as int) =~= Seq::<(Seq<char>, TypeDefV)>::empty());
        None
    }

    /// Whether a struct has fields, all of them names of the symbol table.
    fn fields_in_table_exec(s: &StructDef, instruction_context: &InstructionAnalysisContext) -> (r: bool)
        ensures
            r == fields_in_table(s@, instruction_context.symbol_table.pairs()),
    {
        if s.fields.len() == 0 {
            return false;
        }
        let mut i: usize = 0;
        while i < s.fields.len()
            invariant
                i <= s.fields@.len(),
                forall|j: int| 0 <= j < i ==> has_key(instruction_context.symbol_table.pairs(), #[trigger] s@.fields[j].name),
            decreases s.fields@.len() - i,
        {
            assert(s@.fields[i as int] == s.fields@[i as int]@);
            if !instruction_context.symbol_table.contains_key(s.fields[i].name.as_str()) {
                assert(!has_key(instruction_context.symbol_table.pairs(), s@.fields[i as int].name));
                return false;
            }
            i += 1;
        }
        true
    }
}

} // verus!

verus! {

/// The environment of the rule in a handler with accounts struct `sd`.
pub open spec fn cpi_env(ctx: CtxV, r: ResolverV, sd: Option<StructV>) -> CpiEnv {
    CpiEnv { r, sd, table: ctx.table, file: ctx.file }
}

/// The model of the first pass's state.
pub open spec fn lstate(par: VarMap<SSAVariable>, roots: VarMap<SymbolId>, ctr: StrMap<usize>, st: SSANodeState) -> LinkState {
    LinkState { par: par.pairs(), roots: roots.pairs(), ctr: ctr.pairs(), st: st@ }
}

impl<'a> ArbitraryCpiTargetRule<'a> {
    /// Binds `name` to a new version and links it to its root symbol or to
    /// the version it aliases.
    fn link_binding_exec(&self, name: &String, init: &ExpressionNode, current_state: &mut SSANodeState,
        var_to_parent_var: &mut VarMap<SSAVariable>, var_to_root_symbol: &mut VarMap<SymbolId>, resolver: &SymbolResolver,
        version_counters: &mut StrMap<usize>, registry: &TypeRegistry, struct_def: Option<&StructDef>,
        instruction_context: &InstructionAnalysisContext)
        ensures
            lstate(*final(var_to_parent_var), *final(var_to_root_symbol), *final(version_counters), *final(current_state))
                == link_binding(cpi_env(instruction_context@, resolver@, opt_struct(struct_def)),
                    lstate(*old(var_to_parent_var), *old(var_to_root_symbol), *old(version_counters), *old(current_state)), name@, init@),
    {
        let v = crate::ssa::next_version_exec(version_counters, name);
        let resolved = resolver.resolve_expr(init, current_state);
        let parent = self.find_active_variable(init, current_state);
        crate::ssa::bind_version_exec(registry, current_state, name, v, init);
        let var = SSAVariable::Versioned { name: name.clone(), version: v };
        match resolved {
            Some(sym) => {
                if self.is_root_symbol(sym, resolver, struct_def, instruction_context) {
                    var_to_root_symbol.insert(var, sym);
                } else {
                    match parent {
                        Some(p) => var_to_parent_var.insert(var, p),
                        None => {},
                    }
                }
            },
            None => {},
        }
    }

    /// An assignment to an active name binds a new version.
    fn link_assign_exec(&self, e: &ExpressionNode, current_state: &mut SSANodeState, var_to_parent_var: &mut VarMap<SSAVariable>,
        var_to_root_symbol: &mut VarMap<SymbolId>, resolver: &SymbolResolver, version_counters: &mut StrMap<usize>,
        registry: &TypeRegistry, struct_def: Option<&StructDef>, instruction_context: &InstructionAnalysisContext)
        ensures
            lstate(*final(var_to_parent_var), *final(var_to_root_symbol), *final(version_counters), *final(current_state))
                == link_assign(cpi_env(instruction_context@, resolver@, opt_struct(struct_def)),
                    lstate(*old(var_to_parent_var), *old(var_to_root_symbol), *old(version_counters), *old(current_state)), e@),
    {
        match &e.kind {
            ExpressionKind::Assign { left, right } => {
                assert(e@ == ExprV::Assign { left: Box::new(left@), right: Box::new(right@) });
                match &left.kind {
                    ExpressionKind::Identifier(n) => {
                        assert(left@ == ExprV::Identifier(n@));
                        if current_state.active_variables.contains_key(n.as_str()) {
                            self.link_binding_exec(n, right, current_state, var_to_parent_var, var_to_root_symbol, resolver,
                                version_counters, registry, struct_def, instruction_context);
                        }
                    },
                    _ => {
                        assert(!(left@ is Identifier));
                    },
                }
            },
            _ => {
                assert(!(e@ is Assign));
            },
        }
    }

    /// One statement of the first pass; a block's declarations go out of scope after it.
    fn link_statement(&self, stmt: &StatementNode, current_state: &mut SSANodeState, var_to_parent_var: &mut VarMap<SSAVariable>,
        var_to_root_symbol: &mut VarMap<SymbolId>, resolver: &SymbolResolver, version_counters: &mut StrMap<usize>,
        registry: &TypeRegistry, struct_def: Option<&StructDef>, instruction_context: &InstructionAnalysisContext)
        ensures
            lstate(*final(var_to_parent_var), *final(var_to_root_symbol), *final(version_counters), *final(current_state))
                == link_stmt(cpi_env(instruction_context@, resolver@, opt_struct(struct_def)),
                    lstate(*old(var_to_parent_var), *old(var_to_root_symbol), *old(version_counters), *old(current_state)), stmt@),
        decreases stmt,
    {
        let ghost env = cpi_env(instruction_context@, resolver@, opt_struct(struct_def));
        let ghost ls0 = lstate(*var_to_parent_var, *var_to_root_symbol, *version_counters, *current_state);
        match &stmt.kind {
            StatementKind::Let { name, initializer, .. } => {
                self.link_binding_exec(name, initializer, current_state, var_to_parent_var, var_to_root_symbol, resolver,
                    version_counters, registry, struct_def, instruction_context);
            },
            StatementKind::Expr(e) | StatementKind::Semi(e) => {
                self.link_assign_exec(e, current_state, var_to_parent_var, var_to_root_symbol, resolver, version_counters, registry,
                    struct_def, instruction_context);
            },
            StatementKind::Block(inner) => {
                let ghost iv = crate::ast::stmts_view(inner@);
                proof {
                    crate::ast::lemma_stmts_view(inner@);
                }
                let before = crate::ssa::copy_vars(&current_state.active_variables);
                let declared = crate::owner_rule::OwnerValidationRule::declared_names(inner);
                let mut i: usize = 0;
                while i < inner.len()
                    invariant
                        stmt.kind == StatementKind::Block(*inner),
                        iv == crate::ast::stmts_view(inner@),
                        iv.len() == inner@.len(),
                        forall|j: int| 0 <= j < inner@.len() ==> iv[j] == #[trigger] inner@[j]@,
                        i <= inner@.len(),
                        env == cpi_env(instruction_context@, resolver@, opt_struct(struct_def)),
                        link_stmts(env, ls0, iv, 0)
                            == link_stmts(env, lstate(*var_to_parent_var, *var_to_root_symbol, *version_counters, *current_state), iv, i as int),
                    decreases inner@.len() - i,
                {
                    proof {
                        assert(decreases_to!(stmt.kind => stmt.kind->Block_0));
                        assert(decreases_to!(stmt.kind->Block_0 => stmt.kind->Block_0@));
                        assert(decreases_to!(stmt.kind->Block_0@ => stmt.kind->Block_0@[i as int]));
                    }
                    self.link_statement(&inner[i], current_state, var_to_parent_var, var_to_root_symbol, resolver, version_counters,
                        registry, struct_def, instruction_context);
                    i += 1;
                }
                let ghost names = crate::types::strs_view(declared@);
                let ghost a2 = current_state@.active;
                let ghost t2 = current_state@.types;
                let mut k: usize = 0;
                assert(names.take(0) =~= Seq::<Seq<char>>::empty());
                while k < declared.len()
                    invariant
                        names == crate::types::strs_view(declared@),
                        k <= declared@.len(),
                        current_state@.active == crate::ssa::restore(a2, before.pairs(), names.take(k as int)),
                        current_state@.types == t2,
                    decreases declared@.len() - k,
                {
                    let name = &declared[k];
                    assert(names.take(k + 1).drop_last() =~= names.take(k as int));
                    assert(names.take(k + 1).last() == name@);
                    match before.get(name.as_str()) {
                        Some(v) => current_state.active_variables.insert(name.clone(), v.clone()),
                        None => current_state.active_variables.remove(name.as_str()),
                    }
                    k += 1;
                }
                assert(names.take(declared@.len() as int) =~= names);
            },
            StatementKind::MacroCall { .. } => {},
        }
    }

    /// The first pass over the statements of one node: versions, root
    /// symbols and alias links.
    fn build_parent_maps_recursive(&self, stmts: &Vec<StatementNode>, current_state: &mut SSANodeState,
        var_to_parent_var: &mut VarMap<SSAVariable>, var_to_root_symbol: &mut VarMap<SymbolId>, resolver: &SymbolResolver,
        version_counters: &mut StrMap<usize>, registry: &TypeRegistry, struct_def: Option<&StructDef>,
        instruction_context: &InstructionAnalysisContext)
        ensures
            lstate(*final(var_to_parent_var), *final(var_to_root_symbol), *final(version_counters), *final(current_state))
                == link_stmts(cpi_env(instruction_context@, resolver@, opt_struct(struct_def)),
                    lstate(*old(var_to_parent_var), *old(var_to_root_symbol), *old(version_counters), *old(current_state)),
                    crate::cfg::stmt_list_view(stmts@), 0),
    {
        let ghost env = cpi_env(instruction_context@, resolver@, opt_struct(struct_def));
        let ghost ls0 = lstate(*var_to_parent_var, *var_to_root_symbol, *version_counters, *current_state);
        let ghost iv = crate::cfg::stmt_list_view(stmts@);
        let mut i: usize = 0;
        while i < stmts.len()
            invariant
                iv == crate::cfg::stmt_list_view(stmts@),
                i <= stmts@.len(),
                env == cpi_env(instruction_context@, resolver@, opt_struct(struct_def)),
                link_stmts(env, ls0, iv, 0)
                    == link_stmts(env, lstate(*var_to_parent_var, *var_to_root_symbol, *version_counters, *current_state), iv, i as int),
            decreases stmts@.len() - i,
        {
            self.link_statement(&stmts[i], current_state, var_to_parent_var, var_to_root_symbol, resolver, version_counters, registry,
                struct_def, instruction_context);
            i += 1;
        }
    }
}

} // verus!

verus! {

/// The models of a list of expression references.
pub open spec fn refs_view(v: Seq<&ExpressionNode>) -> Seq<ExprV> {
    Seq::new(v.len(), |i: int| v[i]@)
}

impl<'a> ArbitraryCpiTargetRule<'a> {
    /// Appends the program accounts an account slice names.
    fn collect_slice_targets<'b>(&self, expr: &'b ExpressionNode, targets: &mut Vec<&'b ExpressionNode>)
        ensures
            refs_view(final(targets)@) == refs_view(old(targets)@) + slice_targets(expr@),
        decreases expr,
    {
        let ghost t0 = refs_view(targets@);
        match &expr.kind {
            ExpressionKind::Reference { expression, .. } => {
                self.collect_slice_targets(expression, targets);
            },
            ExpressionKind::MethodCall { method, arguments, .. } => {
                if crate::text::str_eq(method.as_str(), "array") {
                    let ghost av = crate::ast::exprs_view(arguments@);
                    proof {
                        crate::ast::lemma_exprs_view(arguments@);
                    }
                    let mut i: usize = 0;
                    assert(t0 + slice_targets_list(av, 0) =~= t0);
                    while i < arguments.len()
                        invariant
                            expr.kind is MethodCall,
                            expr.kind->arguments == *arguments,
                            av == crate::ast::exprs_view(arguments@),
                            av.len() == arguments@.len(),
                            forall|j: int| 0 <= j < arguments@.len() ==> av[j] == #[trigger] arguments@[j]@,
                            i <= arguments@.len(),
                            refs_view(targets@) == t0 + slice_targets_list(av, i as int),
                        decreases arguments@.len() - i,
                    {
                        proof {
                            assert(decreases_to!(expr.kind => expr.kind->arguments));
                            assert(decreases_to!(expr.kind->arguments => expr.kind->arguments@));
                            assert(decreases_to!(expr.kind->arguments@ => expr.kind->arguments@[i as int]));
                        }
                        let ghost before = refs_view(targets@);
                        self.collect_slice_targets(&arguments[i], targets);
                        assert(refs_view(targets@) =~= t0 + slice_targets_list(av, i + 1));
                        i += 1;
                    }
                } else {
                    targets.push(expr);
                    assert(refs_view(targets@) =~= t0 + seq![expr@]);
                }
            },
            ExpressionKind::Identifier(_) | ExpressionKind::FieldAccess { .. } => {
                targets.push(expr);
                assert(refs_view(targets@) =~= t0 + seq![expr@]);
            },
            _ => {
                assert(t0 + slice_targets(expr@) =~= t0);
            },
        }
    }

    /// Appends the program accounts an expression invokes.
    fn extract_cpi_targets_expr<'b>(&self, expr: &'b ExpressionNode, targets: &mut Vec<&'b ExpressionNode>)
        ensures
            refs_view(final(targets)@) == refs_view(old(targets)@) + cpi_targets_expr(expr@),
        decreases expr,
    {
        let ghost t0 = refs_view(targets@);
        match &expr.kind {
            ExpressionKind::MethodCall { method, object, arguments } => {
                let m = method.as_str();
                let invoke = crate::text::contains_str(m, "invoke") || crate::text::contains_str(m, "invoke_signed");
                let is_new = crate::text::str_eq(m, "new") || crate::text::ends_with(m, "::new") || crate::text::str_eq(m, "new_with_signer")
                    || crate::text::ends_with(m, "::new_with_signer");
                let ghost av = crate::ast::exprs_view(arguments@);
                proof {
                    crate::ast::lemma_exprs_view(arguments@);
                }
                if invoke {
                    if arguments.len() >= 2 {
                        self.collect_slice_targets(&arguments[1], targets);
                    } else {
                        assert(t0 + Seq::<ExprV>::empty() =~= t0);
                    }
                } else if is_new {
                    if arguments.len() > 0 {
                        targets.push(&arguments[0]);
                        assert(refs_view(targets@) =~= t0 + seq![av[0]]);
                    } else {
                        assert(t0 + Seq::<ExprV>::empty() =~= t0);
                    }
                } else {
                    self.extract_cpi_targets_expr(object, targets);
                    let ghost t1 = refs_view(targets@);
                    let mut i: usize = 0;
                    assert(t1 + cpi_targets_list(av, 0) =~= t1);
                    while i < arguments.len()
                        invariant
                            expr.kind is MethodCall,
                            expr.kind->arguments == *arguments,
                            av == crate::ast::exprs_view(arguments@),
                            av.len() == arguments@.len(),
                            forall|j: int| 0 <= j < arguments@.len() ==> av[j] == #[trigger] arguments@[j]@,
                            i <= arguments@.len(),
                            refs_view(targets@) == t1 + cpi_targets_list(av, i as int),
                        decreases arguments@.len() - i,
                    {
                        proof {
                            assert(decreases_to!(expr.kind => expr.kind->arguments));
                            assert(decreases_to!(expr.kind->arguments => expr.kind->arguments@));
                            assert(decreases_to!(expr.kind->arguments@ => expr.kind->arguments@[i as int]));
                        }
                        self.extract_cpi_targets_expr(&arguments[i], targets);
                        assert(refs_view(targets@) =~= t1 + cpi_targets_list(av, i + 1));
                        i += 1;
                    }
                    assert(t1 == t0 + cpi_targets_expr(object@));
                    assert(refs_view(targets@) =~= t0 + (cpi_targets_expr(object@) + cpi_targets_list(av, av.len() as int)));
                }
            },
            ExpressionKind::Try(inner) => {
                self.extract_cpi_targets_expr(inner, targets);
            },
            ExpressionKind::Reference { expression, .. } => {
                self.extract_cpi_targets_expr(expression, targets);
            },
            _ => {
                assert(t0 + cpi_targets_expr(expr@) =~= t0);
            },
        }
    }

    /// The program accounts a statement invokes.
    fn get_cpi_targets<'b>(&self, stmt: &'b StatementNode) -> (r: Vec<&'b ExpressionNode>)
        ensures
            refs_view(r@) == cpi_targets(stmt@),
    {
        let mut targets: Vec<&'b ExpressionNode> = Vec::new();
        assert(refs_view(targets@) =~= Seq::<ExprV>::empty());
        match &stmt.kind {
            StatementKind::Expr(e) | StatementKind::Semi(e) => {
                self.extract_cpi_targets_expr(e, &mut targets);
            },
            StatementKind::Let { initializer, .. } => {
                self.extract_cpi_targets_expr(initializer, &mut targets);
            },
            _ => {},
        }
        assert(refs_view(targets@) =~= cpi_targets(stmt@));
        targets
    }
}

} // verus!

verus! {

/// Whether a statement reads as a validation.
fn is_validation_exec(stmt: &StatementNode) -> (r: bool)
    ensures
        r == is_validation(stmt@),
{
    match &stmt.kind {
        StatementKind::MacroCall { name, .. } => lower_contains(name.as_str(), "require") || lower_contains(name.as_str(), "assert"),
        StatementKind::Expr(e) | StatementKind::Semi(e) => {
            let t = expr_to_string(e);
            crate::text::contains_str(t.as_str(), "require") || crate::text::contains_str(t.as_str(), "assert")
        },
        _ => false,
    }
}

/// The text a validation statement checks.
fn validation_text_exec(stmt: &StatementNode) -> (r: String)
    ensures
        r@ == validation_text(stmt@),
{
    match &stmt.kind {
        StatementKind::MacroCall { raw_args, .. } => raw_args.clone(),
        StatementKind::Expr(e) | StatementKind::Semi(e) => expr_to_string(e),
        _ => String::new(),
    }
}

/// Whether `text` mentions name `n`.
fn mentions_exec(text: &str, n: &str) -> (r: bool)
    ensures
        r == mentions(text@, n@),
{
    let mut dotted = crate::text::lit(n);
    crate::text::push_lit(&mut dotted, ".");
    crate::text::contains_str(text, n) || crate::text::contains_str(text, dotted.as_str())
}

impl<'a> ArbitraryCpiTargetRule<'a> {
    /// The root symbol a registered name stands for in a state.
    fn name_root_exec(&self, n: &str, sym: SymbolId, ssa_state: &SSANodeState, var_to_parent_var: &VarMap<SSAVariable>,
        var_to_root_symbol: &VarMap<SymbolId>) -> (r: SymbolId)
        ensures
            r == name_root(n@, sym, ssa_state@, var_to_parent_var.pairs(), var_to_root_symbol.pairs()),
    {
        match ssa_state.active_variables.get(n) {
            Some(v) => match self.trace_ssa_to_root(v.clone(), var_to_parent_var, var_to_root_symbol) {
                Some(rt) => rt,
                None => sym,
            },
            None => sym,
        }
    }

    /// The roots a statement validates.
    fn get_validated_root_symbols(&self, stmt: &StatementNode, resolver: &SymbolResolver, ssa_state: &SSANodeState,
        var_to_parent_var: &VarMap<SSAVariable>, var_to_root_symbol: &VarMap<SymbolId>) -> (r: Vec<SymbolId>)
        ensures
            r@ == validated_roots(resolver@, stmt@, ssa_state@, var_to_parent_var.pairs(), var_to_root_symbol.pairs()),
    {
        let mut validated: Vec<SymbolId> = Vec::new();
        if !is_validation_exec(stmt) {
            assert(validated@ =~= Seq::<SymbolId>::empty());
            return validated;
        }
        let text = validation_text_exec(stmt);
        let ghost names = resolver@.names;
        let n = resolver.name_to_symbol.len();
        let mut i: usize = 0;
        assert(validated@ =~= Seq::<SymbolId>::empty());
        while i < n
            invariant
                names == resolver@.names,
                n == names.len(),
                i <= n,
                text@ == validation_text(stmt@),
                validated@ == mentioned_roots(names, i as int, text@, ssa_state@, var_to_parent_var.pairs(), var_to_root_symbol.pairs()),
            decreases n - i,
        {
            let name = resolver.name_to_symbol.key_at(i);
            let sym = *resolver.name_to_symbol.value_at(i);
            if mentions_exec(text.as_str(), name.as_str()) {
                let rt = self.name_root_exec(name.as_str(), sym, ssa_state, var_to_parent_var, var_to_root_symbol);
                validated.push(rt);
            }
            i += 1;
        }
        validated
    }

    /// Whether a branch condition mentions a name standing for `target_root`.
    fn is_edge_condition_validating(&self, cond: &ExpressionNode, target_root: SymbolId, resolver: &SymbolResolver,
        ssa_state: &SSANodeState, var_to_parent_var: &VarMap<SSAVariable>, var_to_root_symbol: &VarMap<SymbolId>) -> (r: bool)
        ensures
            r == edge_validates(resolver@, cond@, target_root, ssa_state@, var_to_parent_var.pairs(), var_to_root_symbol.pairs()),
    {
        let text = expr_to_string(cond);
        let ghost names = resolver@.names;
        let n = resolver.name_to_symbol.len();
        let mut i: usize = 0;
        while i < n
            invariant
                names == resolver@.names,
                n == names.len(),
                i <= n,
                text@ == cpi_text(cond@),
                forall|j: int| 0 <= j < i ==> !(mentions(cpi_text(cond@), #[trigger] names[j].0)
                    && name_root(names[j].0, names[j].1, ssa_state@, var_to_parent_var.pairs(), var_to_root_symbol.pairs()) == target_root),
            decreases n - i,
        {
            let name = resolver.name_to_symbol.key_at(i);
            let sym = *resolver.name_to_symbol.value_at(i);
            if mentions_exec(text.as_str(), name.as_str()) {
                let rt = self.name_root_exec(name.as_str(), sym, ssa_state, var_to_parent_var, var_to_root_symbol);
                if rt == target_root {
                    assert(mentions(cpi_text(cond@), names[i as int].0));
                    return true;
                }
            }
            i += 1;
        }
        false
    }
}

/// Whether a statement ends the handler.
fn stmt_terminates_exec(stmt: &StatementNode) -> (r: bool)
    ensures
        r == stmt_terminates(stmt@),
{
    match &stmt.kind {
        StatementKind::Expr(e) | StatementKind::Semi(e) => {
            let t = expr_to_string(e);
            crate::text::contains_str(t.as_str(), "return") || crate::text::contains_str(t.as_str(), "panic")
                || crate::text::contains_str(t.as_str(), "Err")
        },
        StatementKind::MacroCall { name, .. } => {
            crate::text::str_eq(name.as_str(), "panic") || crate::text::str_eq(name.as_str(), "unreachable")
                || crate::text::str_eq(name.as_str(), "err")
        },
        _ => false,
    }
}

} // verus!

verus! {

impl<'a> ArbitraryCpiTargetRule<'a> {
    /// Whether node `node_id` ends the handler.
    fn is_node_terminating(&self, node_id: usize, cfg: &crate::cfg::ControlFlowGraph) -> (r: bool)
        ensures
            r == node_terminates(cfg@, node_id),
    {
        let ghost g = cfg@;
        match cfg.nodes.get(node_id) {
            Some(node) => {
                let mut j: usize = 0;
                while j < node.statements.len()
                    invariant
                        g == cfg@,
                        lookup(g.nodes, node_id) == Some(node@),
                        j <= node.statements@.len(),
                        forall|k: int| 0 <= k < j ==> !stmt_terminates(#[trigger] crate::cfg::stmt_list_view(node.statements@)[k]),
                    decreases node.statements@.len() - j,
                {
                    if stmt_terminates_exec(&node.statements[j]) {
                        let ghost n = node@;
                        assert(n.statements == crate::cfg::stmt_list_view(node.statements@));
                        assert(stmt_terminates(n.statements[j as int]));
                        assert(0 <= j < n.statements.len());
                        assert(stmts_terminate(n.statements));
                        return true;
                    }
                    j += 1;
                }
            },
            None => {},
        }
        let mut any_out = false;
        let mut all_done = true;
        let mut i: usize = 0;
        while i < cfg.edges.len()
            invariant
                g == cfg@,
                g.edges.len() == cfg.edges@.len(),
                i <= cfg.edges@.len(),
                any_out == exists|k: int| 0 <= k < i && #[trigger] g.edges[k].from == node_id,
                all_done == forall|k: int| 0 <= k < i && #[trigger] g.edges[k].from == node_id ==> g.edges[k].is_early_return
                    || g.exits.contains(g.edges[k].to),
            decreases cfg.edges@.len() - i,
        {
            let e = &cfg.edges[i];
            assert(g.edges[i as int] == e@);
            let ghost any0 = any_out;
            let ghost all0 = all_done;
            if e.from == node_id {
                any_out = true;
                if !(e.is_early_return || crate::cfg::contains_id(&cfg.exit_nodes, e.to)) {
                    all_done = false;
                }
            }
            proof {
                if e.from == node_id {
                    assert(0 <= i < i + 1 && g.edges[i as int].from == node_id);
                } else {
                    if any0 {
                        let k = choose|k: int| 0 <= k < i && #[trigger] g.edges[k].from == node_id;
                        assert(0 <= k < i + 1 && g.edges[k].from == node_id);
                    } else {
                        assert forall|k: int| 0 <= k < i + 1 implies !(#[trigger] g.edges[k].from == node_id) by {
                            if k < i {
                            }
                        }
                    }
                }
                if all_done {
                    assert forall|k: int| 0 <= k < i + 1 && #[trigger] g.edges[k].from == node_id implies g.edges[k].is_early_return
                        || g.exits.contains(g.edges[k].to) by {
                        if k < i {
                            assert(all0);
                        }
                    }
                } else {
                    if e.from == node_id && !(e.is_early_return || cfg.exit_nodes@.contains(e.to)) {
                        assert(0 <= i < i + 1 && g.edges[i as int].from == node_id);
                    } else {
                        assert(!all0);
                        let k = choose|k: int| !(0 <= k < i && #[trigger] g.edges[k].from == node_id ==> g.edges[k].is_early_return
                            || g.exits.contains(g.edges[k].to));
                        assert(0 <= k < i + 1 && g.edges[k].from == node_id);
                    }
                }
            }
            i += 1;
        }
        if !any_out {
            crate::cfg::contains_id(&cfg.exit_nodes, node_id)
        } else {
            all_done
        }
    }

    /// Whether some check of `target_root` dominates statement `cpi_stmt` of node `cpi_node`.
    fn is_validation_dominating(&self, target_root: SymbolId, cpi_node: usize, cpi_stmt: usize, cfg: &crate::cfg::ControlFlowGraph,
        dom_checker: &DominanceChecker, resolver: &SymbolResolver, var_to_parent_var: &VarMap<SSAVariable>,
        var_to_root_symbol: &VarMap<SymbolId>) -> (r: bool)
        requires
            ssa_covers(cfg@),
        ensures
            r == validation_dominates(resolver@, cfg@, dom_checker.cfg@, var_to_parent_var.pairs(), var_to_root_symbol.pairs(),
                target_root, cpi_node, cpi_stmt),
    {
        let ghost g = cfg@;
        let ghost par = var_to_parent_var.pairs();
        let ghost roots = var_to_root_symbol.pairs();
        let ghost dom = dom_checker.cfg@;
        let n = cfg.nodes.len();
        let mut a: usize = 0;
        while a < n
            invariant
                g == cfg@,
                ssa_covers(g),
                n == g.nodes.len(),
                a <= n,
                par == var_to_parent_var.pairs(),
                roots == var_to_root_symbol.pairs(),
                dom == dom_checker.cfg@,
                forall|a2: int, j: int| 0 <= a2 < a ==> !#[trigger] stmt_validation_at(resolver@, g, dom, par, roots, target_root,
                    cpi_node, cpi_stmt, a2, j),
            decreases n - a,
        {
            let u = cfg.nodes.key_at(a);
            let node = cfg.nodes.value_at(a);
            match cfg.ssa_states.get(u) {
                Some(info) => {
                    assert(g.nodes[a as int].1.statements.len() <= info@.stmts.len() + 1);
                    let mut j: usize = 0;
                    while j < node.statements.len()
                        invariant
                            g == cfg@,
                            n == g.nodes.len(),
                            a < n,
                            u == g.nodes[a as int].0,
                            node@ == g.nodes[a as int].1,
                            lookup(g.ssa, u) == Some(info@),
                            node.statements@.len() <= info.statement_states@.len() + 1,
                            j <= node.statements@.len(),
                            par == var_to_parent_var.pairs(),
                            roots == var_to_root_symbol.pairs(),
                            dom == dom_checker.cfg@,
                            forall|j2: int| 0 <= j2 < j ==> !#[trigger] stmt_validation_at(resolver@, g, dom, par, roots, target_root,
                                cpi_node, cpi_stmt, a as int, j2),
                        decreases node.statements@.len() - j,
                    {
                        let before = if j == 0 { &info.start_state } else { &info.statement_states[j - 1] };
                        assert(before@ == state_before(info@, j as int));
                        let stmt = &node.statements[j];
                        assert(stmt@ == g.nodes[a as int].1.statements[j as int]);
                        let vr = self.get_validated_root_symbols(stmt, resolver, before, var_to_parent_var, var_to_root_symbol);
                        if crate::owner_rule::contains_symbol(&vr, target_root)
                            && dom_checker.dominates(u, Some(j), cpi_node, Some(cpi_stmt)) {
                            assert(stmt_validation_at(resolver@, g, dom, par, roots, target_root, cpi_node, cpi_stmt, a as int, j as int));
                            return true;
                        }
                        j += 1;
                    }
                    assert forall|j2: int| !#[trigger] stmt_validation_at(resolver@, g, dom, par, roots, target_root, cpi_node, cpi_stmt,
                        a as int, j2) by {
                        if 0 <= j2 < j {
                        }
                    }
                },
                None => {
                    assert forall|j2: int| !#[trigger] stmt_validation_at(resolver@, g, dom, par, roots, target_root, cpi_node, cpi_stmt,
                        a as int, j2) by {}
                },
            }
            a += 1;
        }
        assert forall|a2: int, j: int| !#[trigger] stmt_validation_at(resolver@, g, dom, par, roots, target_root, cpi_node, cpi_stmt, a2, j)
            by {
            if 0 <= a2 < n {
            }
        }
        let ne = cfg.edges.len();
        let mut a: usize = 0;
        while a < n
            invariant
                g == cfg@,
                n == g.nodes.len(),
                ne == g.edges.len(),
                a <= n,
                par == var_to_parent_var.pairs(),
                roots == var_to_root_symbol.pairs(),
                dom == dom_checker.cfg@,
                forall|a2: int, b: int| 0 <= a2 < a ==> !#[trigger] edge_validation_at(resolver@, g, dom, par, roots, target_root,
                    cpi_node, cpi_stmt, a2, b),
            decreases n - a,
        {
            let u = cfg.nodes.key_at(a);
            match cfg.ssa_states.get(u) {
                Some(info) => {
                    let mut b: usize = 0;
                    while b < ne
                        invariant
                            g == cfg@,
                            n == g.nodes.len(),
                            ne == g.edges.len(),
                            a < n,
                            u == g.nodes[a as int].0,
                            lookup(g.ssa, u) == Some(info@),
                            b <= ne,
                            par == var_to_parent_var.pairs(),
                            roots == var_to_root_symbol.pairs(),
                            dom == dom_checker.cfg@,
                            forall|b2: int| 0 <= b2 < b ==> !#[trigger] edge_validation_at(resolver@, g, dom, par, roots, target_root,
                                cpi_node, cpi_stmt, a as int, b2),
                        decreases ne - b,
                    {
                        let e = &cfg.edges[b];
                        assert(g.edges[b as int] == e@);
                        if e.from == u {
                            match &e.condition {
                                Some(cond) => {
                                    if self.is_edge_condition_validating(cond, target_root, resolver, &info.end_state, var_to_parent_var,
                                        var_to_root_symbol) {
                                        let then_term = self.is_node_terminating(e.to, cfg);
                                        let else_term = match other_edge_exec(cfg, u, e.to) {
                                            Some(k) => self.is_node_terminating(cfg.edges[k].to, cfg),
                                            None => false,
                                        };
                                        if (then_term || else_term) && dom_checker.dominates(u, None, cpi_node, Some(cpi_stmt)) {
                                            assert(edge_validation_at(resolver@, g, dom, par, roots, target_root, cpi_node, cpi_stmt,
                                                a as int, b as int));
                                            return true;
                                        }
                                    }
                                },
                                None => {},
                            }
                        }
                        b += 1;
                    }
                    assert forall|b2: int| !#[trigger] edge_validation_at(resolver@, g, dom, par, roots, target_root, cpi_node, cpi_stmt,
                        a as int, b2) by {
                        if 0 <= b2 < b {
                        }
                    }
                },
                None => {
                    assert forall|b2: int| !#[trigger] edge_validation_at(resolver@, g, dom, par, roots, target_root, cpi_node, cpi_stmt,
                        a as int, b2) by {}
                },
            }
            a += 1;
        }
        assert forall|a2: int, b: int| !#[trigger] edge_validation_at(resolver@, g, dom, par, roots, target_root, cpi_node, cpi_stmt, a2, b)
            by {
            if 0 <= a2 < n {
            }
        }
        false
    }
}

/// The position of the first edge out of `u` that goes elsewhere than `to`.
fn other_edge_exec(cfg: &crate::cfg::ControlFlowGraph, u: usize, to: usize) -> (r: Option<usize>)
    ensures
        match r {
            Some(k) => k < cfg@.edges.len() && other_edge(cfg@.edges, u, to) == Some(cfg@.edges[k as int]),
            None => other_edge(cfg@.edges, u, to) is None,
        },
{
    let ghost es = cfg@.edges;
    let mut i: usize = 0;
    assert(es.skip(0) =~= es);
    while i < cfg.edges.len()
        invariant
            es == cfg@.edges,
            es.len() == cfg.edges@.len(),
            i <= es.len(),
            other_edge(es, u, to) == other_edge(es.skip(i as int), u, to),
        decreases es.len() - i,
    {
        assert(es.skip(i as int)[0] == es[i as int]);
        assert(es.skip(i as int).drop_first() =~= es.skip(i + 1));
        assert(es[i as int] == cfg.edges@[i as int]@);
        if cfg.edges[i].from == u && cfg.edges[i].to != to {
            return Some(i);
        }
        i += 1;
    }
    assert(es.skip(i as int) =~= Seq::<EdgeV>::empty());
    None
}

} // verus!

verus! {

impl<'a> ArbitraryCpiTargetRule<'a> {
    /// The names of the symbol table registered for `sym`, in order.
    fn table_names_exec(&self, instruction_context: &InstructionAnalysisContext, sym: SymbolId) -> (r: Vec<String>)
        ensures
            crate::types::strs_view(r@) == table_names(instruction_context.symbol_table.pairs(),
                instruction_context.symbol_table.pairs().len() as int, sym),
    {
        let ghost table = instruction_context.symbol_table.pairs();
        let n = instruction_context.symbol_table.len();
        let mut out: Vec<String> = Vec::new();
        let mut i: usize = 0;
        assert(crate::types::strs_view(out@) =~= Seq::<Seq<char>>::empty());
        while i < n
            invariant
                table == instruction_context.symbol_table.pairs(),
                n == table.len(),
                i <= n,
                crate::types::strs_view(out@) == table_names(table, i as int, sym),
            decreases n - i,
        {
            let name = instruction_context.symbol_table.key_at(i);
            let id = *instruction_context.symbol_table.value_at(i);
            if id == sym {
                let ghost o0 = crate::types::strs_view(out@);
                out.push(name.clone());
                assert(crate::types::strs_view(out@) =~= o0.push(name@));
            }
            i += 1;
        }
        out
    }

    /// The names a root symbol goes by in a state.
    fn program_names_exec(&self, instruction_context: &InstructionAnalysisContext, ssa_state: &SSANodeState,
        var_to_parent_var: &VarMap<SSAVariable>, var_to_root_symbol: &VarMap<SymbolId>, sym: SymbolId) -> (r: Vec<String>)
        ensures
            crate::types::strs_view(r@) == program_names(instruction_context.symbol_table.pairs(), ssa_state@,
                var_to_parent_var.pairs(), var_to_root_symbol.pairs(), sym),
    {
        let mut out = self.table_names_exec(instruction_context, sym);
        let ghost t = crate::types::strs_view(out@);
        let ghost act = ssa_state@.active;
        let n = ssa_state.active_variables.len();
        let mut i: usize = 0;
        assert(t + active_names(act, 0, var_to_parent_var.pairs(), var_to_root_symbol.pairs(), sym) =~= t);
        while i < n
            invariant
                act == ssa_state@.active,
                n == act.len(),
                i <= n,
                crate::types::strs_view(out@) == t + active_names(act, i as int, var_to_parent_var.pairs(), var_to_root_symbol.pairs(), sym),
            decreases n - i,
        {
            let name = ssa_state.active_variables.key_at(i);
            let v = ssa_state.active_variables.value_at(i);
            if self.trace_ssa_to_root(v.clone(), var_to_parent_var, var_to_root_symbol) == Some(sym) {
                let ghost o0 = crate::types::strs_view(out@);
                out.push(name.clone());
                assert(crate::types::strs_view(out@) =~= o0.push(name@));
            }
            i += 1;
        }
        out
    }

    /// Whether some name reads as a program account.
    fn names_program_exec(&self, names: &Vec<String>, struct_def: Option<&StructDef>) -> (r: bool)
        ensures
            r == names_program(crate::types::strs_view(names@), opt_struct(struct_def)),
    {
        let ghost nv = crate::types::strs_view(names@);
        let mut i: usize = 0;
        while i < names.len()
            invariant
                nv == crate::types::strs_view(names@),
                i <= names@.len(),
                forall|j: int| 0 <= j < i ==> !is_program_name(#[trigger] nv[j], opt_struct(struct_def)),
            decreases names@.len() - i,
        {
            if self.is_program_symbol(names[i].as_str(), struct_def) {
                assert(is_program_name(nv[i as int], opt_struct(struct_def)));
                return true;
            }
            i += 1;
        }
        false
    }

    /// Whether some name is a field of the accounts struct that fixes or constrains the program.
    fn statically_validated_exec(&self, names: &Vec<String>, struct_def: Option<&StructDef>) -> (r: bool)
        ensures
            r == statically_validated(crate::types::strs_view(names@), opt_struct(struct_def)),
    {
        let ghost nv = crate::types::strs_view(names@);
        match struct_def {
            Some(s) => {
                let mut i: usize = 0;
                while i < names.len()
                    invariant
                        nv == crate::types::strs_view(names@),
                        opt_struct(struct_def) == Some(s@),
                        i <= names@.len(),
                        forall|j: int| 0 <= j < i ==> !(match field_named(s@.fields, #[trigger] nv[j]) {
                            Some(f) => field_validated(f),
                            None => false,
                        }),
                    decreases names@.len() - i,
                {
                    assert(nv[i as int] == names@[i as int]@);
                    match field_by_name(&s.fields, names[i].as_str()) {
                        Some(f) => {
                            if self.is_struct_field_validated(f) {
                                assert(field_named(s@.fields, nv[i as int]) == Some(f@));
                                assert(0 <= i < nv.len());
                                assert(match field_named(s@.fields, nv[i as int]) {
                                    Some(f) => field_validated(f),
                                    None => false,
                                });
                                return true;
                            }
                        },
                        None => {},
                    }
                    i += 1;
                }
                false
            },
            None => false,
        }
    }

    /// The program a target invokes without validation, if not reported yet.
    fn target_finding_exec(&self, target: &ExpressionNode, state_before: &SSANodeState, u: usize, j: usize,
        instruction_context: &InstructionAnalysisContext, resolver: &SymbolResolver, dom_checker: &DominanceChecker,
        struct_def: Option<&StructDef>, var_to_parent_var: &VarMap<SSAVariable>, var_to_root_symbol: &VarMap<SymbolId>,
        reported_symbols: &Vec<SymbolId>) -> (r: Option<SymbolId>)
        requires
            ssa_covers(instruction_context.cfg@),
        ensures
            r == target_finding(cpi_env(instruction_context@, resolver@, opt_struct(struct_def)), instruction_context.cfg@,
                dom_checker.cfg@, var_to_parent_var.pairs(), var_to_root_symbol.pairs(), u, j, state_before@, target@,
                reported_symbols@),
    {
        match self.get_root_symbol(target, state_before, resolver, var_to_parent_var, var_to_root_symbol) {
            Some(root) => {
                let names = self.program_names_exec(instruction_context, state_before, var_to_parent_var, var_to_root_symbol, root);
                if !self.names_program_exec(&names, struct_def) {
                    return None;
                }
                if self.statically_validated_exec(&names, struct_def) {
                    return None;
                }
                if self.is_validation_dominating(root, u, j, &instruction_context.cfg, dom_checker, resolver, var_to_parent_var,
                    var_to_root_symbol) {
                    return None;
                }
                if crate::owner_rule::contains_symbol(reported_symbols, root) {
                    return None;
                }
                Some(root)
            },
            None => None,
        }
    }

    /// The finding for an invocation of `root` at statement `j` (on `line`) of node `u`.
    fn cpi_diagnostic(&self, root: SymbolId, line: usize, u: usize, j: usize, instruction_context: &InstructionAnalysisContext,
        resolver: &SymbolResolver, struct_def: Option<&StructDef>) -> (r: RuleDiagnostic)
        ensures
            r@ == cpi_diag(cpi_env(instruction_context@, resolver@, opt_struct(struct_def)), root, line, u, j),
    {
        let tn = self.table_names_exec(instruction_context, root);
        let label = if tn.len() > 0 {
            tn[0].clone()
        } else {
            let mut s = crate::text::lit("SymbolId(");
            let d = crate::text::usize_to_decimal(root.0);
            crate::text::append_str(&mut s, d.as_str());
            crate::text::push_lit(&mut s, ")");
            s
        };
        let mut message = crate::text::lit("Arbitrary CPI target program validation missing for program account '");
        crate::text::append_str(&mut message, label.as_str());
        crate::text::push_lit(&mut message,
            "'. The program must be validated via static types (Program<'info, T>) or imperative checks (require!) dominating the invocation.");
        RuleDiagnostic {
            rule_id: crate::text::lit("EPIC-SEC-005"),
            severity: RuleSeverity::Critical,
            message,
            location: FindingLocation {
                file: crate::text::copy_string(&instruction_context.file_path),
                line,
                column: 0,
                node_id: u,
                statement_index: Some(j),
            },
            confidence: FactConfidence::Asserted,
            target_symbol: root,
        }
    }
}

} // verus!

verus! {

impl<'a> Rule for ArbitraryCpiTargetRule<'a> {
    fn id(&self) -> (r: &'static str)
        ensures
            r@ == "EPIC-SEC-005"@,
    {
        "EPIC-SEC-005"
    }

    fn name(&self) -> (r: &'static str)
        ensures
            r@ == "Arbitrary CPI Target Program Validation"@,
    {
        "Arbitrary CPI Target Program Validation"
    }

    open spec fn findings(&self, context: CtxV, resolver: ResolverV, dom: GraphV) -> Seq<DiagV> {
        cpi_findings(self.registry.definitions.pairs(), self.program_name@, context, resolver, dom)
    }

    /// A handler whose every node has SSA states.
    open spec fn accepts(&self, context: CtxV) -> bool {
        ssa_covers(context.cfg)
    }

    /// Links the versions of the handler's names to their root symbols in
    /// a first walk over the reachable nodes (in reverse post-order), then
    /// reports each program invoked without validation once.
    fn check(&self, context: &InstructionAnalysisContext, resolver: &SymbolResolver, dom_checker: &DominanceChecker)
        -> (r: Vec<RuleDiagnostic>)
    {
        let struct_def = self.find_context_struct(context);
        let ghost env = cpi_env(context@, resolver@, opt_struct(struct_def));
        let ghost g = context.cfg@;
        let ghost dom = dom_checker.cfg@;
        let order = crate::rules::reverse_postorder(&context.cfg);
        let mut var_to_parent_var: VarMap<SSAVariable> = VarMap::new();
        let mut var_to_root_symbol: VarMap<SymbolId> = VarMap::new();
        let mut k: usize = 0;
        assert(var_to_parent_var.pairs() =~= Seq::<(SSAVarV, SSAVarV)>::empty());
        assert(var_to_root_symbol.pairs() =~= Seq::<(SSAVarV, SymbolId)>::empty());
        while k < order.len()
            invariant
                k <= order@.len(),
                order@ == crate::rules::rpo(g),
                g == context.cfg@,
                env == cpi_env(context@, resolver@, opt_struct(struct_def)),
                (var_to_parent_var.pairs(), var_to_root_symbol.pairs()) == link_nodes(env, g, order@, k as int),
            decreases order@.len() - k,
        {
            let u = order[k];
            match context.cfg.nodes.get(u) {
                Some(node) => match context.cfg.ssa_states.get(u) {
                    Some(info) => {
                        let mut current_state = info.start_state.clone();
                        let mut ctr = crate::owner_rule::counters_of(&current_state);
                        self.build_parent_maps_recursive(&node.statements, &mut current_state, &mut var_to_parent_var,
                            &mut var_to_root_symbol, resolver, &mut ctr, self.registry, struct_def, context);
                    },
                    None => {},
                },
                None => {},
            }
            k += 1;
        }
        let ghost par = var_to_parent_var.pairs();
        let ghost roots = var_to_root_symbol.pairs();
        let mut diagnostics: Vec<RuleDiagnostic> = Vec::new();
        let mut reported: Vec<SymbolId> = Vec::new();
        assert(diags_view(diagnostics@) =~= Seq::<DiagV>::empty());
        let mut k: usize = 0;
        while k < order.len()
            invariant
                k <= order@.len(),
                order@ == crate::rules::rpo(g),
                g == context.cfg@,
                dom == dom_checker.cfg@,
                ssa_covers(g),
                env == cpi_env(context@, resolver@, opt_struct(struct_def)),
                par == var_to_parent_var.pairs(),
                roots == var_to_root_symbol.pairs(),
                (diags_view(diagnostics@), reported@) == nodes_pass(env, g, dom, par, roots, order@, k as int),
            decreases order@.len() - k,
        {
            let u = order[k];
            let ghost prev = (diags_view(diagnostics@), reported@);
            match context.cfg.nodes.get(u) {
                Some(node) => match context.cfg.ssa_states.get(u) {
                    Some(info) => {
                        let ghost nv = node@;
                        proof {
                            let a = key_index(g.nodes, u);
                            assert(g.nodes[a].0 == u);
                            assert(lookup(g.ssa, g.nodes[a].0) == Some(info@));
                        }
                        let mut j: usize = 0;
                        while j < node.statements.len()
                            invariant
                                g == context.cfg@,
                                dom == dom_checker.cfg@,
                                ssa_covers(g),
                                env == cpi_env(context@, resolver@, opt_struct(struct_def)),
                                par == var_to_parent_var.pairs(),
                                roots == var_to_root_symbol.pairs(),
                                nv == node@,
                                lookup(g.nodes, u) == Some(nv),
                                lookup(g.ssa, u) == Some(info@),
                                node.statements@.len() <= info.statement_states@.len() + 1,
                                j <= node.statements@.len(),
                                (diags_view(diagnostics@), reported@)
                                    == stmts_pass(env, g, dom, par, roots, u, info@, nv.statements, j as int, prev),
                            decreases node.statements@.len() - j,
                        {
                            let before = if j == 0 { &info.start_state } else { &info.statement_states[j - 1] };
                            assert(before@ == state_before(info@, j as int));
                            let stmt = &node.statements[j];
                            assert(stmt@ == nv.statements[j as int]);
                            let targets = self.get_cpi_targets(stmt);
                            let ghost ts = refs_view(targets@);
                            let ghost prev_j = (diags_view(diagnostics@), reported@);
                            let mut t: usize = 0;
                            while t < targets.len()
                                invariant
                                    g == context.cfg@,
                                    dom == dom_checker.cfg@,
                                    ssa_covers(g),
                                    env == cpi_env(context@, resolver@, opt_struct(struct_def)),
                                    par == var_to_parent_var.pairs(),
                                    roots == var_to_root_symbol.pairs(),
                                    ts == refs_view(targets@),
                                    t <= targets@.len(),
                                    (diags_view(diagnostics@), reported@)
                                        == targets_pass(env, g, dom, par, roots, u, j, stmt.line_number, before@, ts, t as int, prev_j),
                                decreases targets@.len() - t,
                            {
                                match self.target_finding_exec(targets[t], before, u, j, context, resolver, dom_checker, struct_def,
                                    &var_to_parent_var, &var_to_root_symbol, &reported) {
                                    Some(root) => {
                                        let d = self.cpi_diagnostic(root, stmt.line_number, u, j, context, resolver, struct_def);
                                        let ghost d0 = diagnostics@;
                                        diagnostics.push(d);
                                        assert(diags_view(diagnostics@) =~= diags_view(d0).push(d@));
                                        reported.push(root);
                                    },
                                    None => {},
                                }
                                t += 1;
                            }
                            j += 1;
                        }
                    },
                    None => {},
                },
                None => {},
            }
            k += 1;
        }
        diagnostics
    }
}

} // verus!

verus! {

// ---------------------------------------------------------------------------
// What every finding of the rule satisfies.

/// The findings so far are one per reported program, each program reported
/// once, each at an invocation that no check of the program dominates.
pub open spec fn cpi_sound(r: ResolverV, g: GraphV, dom: GraphV, par: Seq<(SSAVarV, SSAVarV)>, roots: Seq<(SSAVarV, SymbolId)>,
    acc: (Seq<DiagV>, Seq<SymbolId>)) -> bool
{
    let (d, rep) = acc;
    &&& rep.no_duplicates()
    &&& d.len() == rep.len()
    &&& forall|i: int| 0 <= i < d.len() ==> {
        &&& (#[trigger] d[i]).target_symbol == rep[i]
        &&& d[i].rule_id == "EPIC-SEC-005"@
        &&& d[i].statement_index is Some
        &&& !validation_dominates(r, g, dom, par, roots, d[i].target_symbol, d[i].node_id, d[i].statement_index->0)
    }
}

proof fn lemma_targets_sound(env: CpiEnv, g: GraphV, dom: GraphV, par: Seq<(SSAVarV, SSAVarV)>, roots: Seq<(SSAVarV, SymbolId)>,
    u: usize, j: usize, line: usize, st: StateV, ts: Seq<ExprV>, k: int, acc: (Seq<DiagV>, Seq<SymbolId>))
    requires
        cpi_sound(env.r, g, dom, par, roots, acc),
    ensures
        cpi_sound(env.r, g, dom, par, roots, targets_pass(env, g, dom, par, roots, u, j, line, st, ts, k, acc)),
    decreases k,
{
    if 0 < k <= ts.len() {
        lemma_targets_sound(env, g, dom, par, roots, u, j, line, st, ts, k - 1, acc);
        let (d, rep) = targets_pass(env, g, dom, par, roots, u, j, line, st, ts, k - 1, acc);
        match target_finding(env, g, dom, par, roots, u, j, st, ts[k - 1], rep) {
            Some(root) => {
                let d2 = d.push(cpi_diag(env, root, line, u, j));
                let r2 = rep.push(root);
                assert forall|i: int| 0 <= i < d2.len() implies {
                    &&& (#[trigger] d2[i]).target_symbol == r2[i]
                    &&& d2[i].rule_id == "EPIC-SEC-005"@
                    &&& d2[i].statement_index is Some
                    &&& !validation_dominates(env.r, g, dom, par, roots, d2[i].target_symbol, d2[i].node_id, d2[i].statement_index->0)
                } by {
                    if i < d.len() {
                        assert(d2[i] == d[i]);
                        assert(r2[i] == rep[i]);
                    }
                }
                assert(r2.no_duplicates()) by {
                    assert forall|a: int, b: int| 0 <= a < b < r2.len() implies r2[a] != r2[b] by {
                        if b == rep.len() {
                            assert(rep.contains(rep[a]));
                        }
                    }
                }
            },
            None => {},
        }
    }
}

proof fn lemma_stmts_sound(env: CpiEnv, g: GraphV, dom: GraphV, par: Seq<(SSAVarV, SSAVarV)>, roots: Seq<(SSAVarV, SymbolId)>,
    u: usize, info: InfoV, ss: Seq<StmtV>, k: int, acc: (Seq<DiagV>, Seq<SymbolId>))
    requires
        cpi_sound(env.r, g, dom, par, roots, acc),
    ensures
        cpi_sound(env.r, g, dom, par, roots, stmts_pass(env, g, dom, par, roots, u, info, ss, k, acc)),
    decreases k,
{
    if 0 < k <= ss.len() {
        lemma_stmts_sound(env, g, dom, par, roots, u, info, ss, k - 1, acc);
        let prev = stmts_pass(env, g, dom, par, roots, u, info, ss, k - 1, acc);
        let ts = cpi_targets(ss[k - 1]);
        lemma_targets_sound(env, g, dom, par, roots, u, (k - 1) as usize, ss[k - 1].line_number, state_before(info, k - 1), ts,
            ts.len() as int, prev);
    }
}

proof fn lemma_nodes_sound(env: CpiEnv, g: GraphV, dom: GraphV, par: Seq<(SSAVarV, SSAVarV)>, roots: Seq<(SSAVarV, SymbolId)>,
    order: Seq<usize>, k: int)
    ensures
        cpi_sound(env.r, g, dom, par, roots, nodes_pass(env, g, dom, par, roots, order, k)),
    decreases k,
{
    if k > 0 {
        lemma_nodes_sound(env, g, dom, par, roots, order, k - 1);
        let prev = nodes_pass(env, g, dom, par, roots, order, k - 1);
        let u = order[k - 1];
        match (lookup(g.nodes, u), lookup(g.ssa, u)) {
            (Some(n), Some(info)) => {
                lemma_stmts_sound(env, g, dom, par, roots, u, info, n.statements, n.statements.len() as int, prev);
            },
            _ => {},
        }
    } else {
        let (d, rep) = nodes_pass(env, g, dom, par, roots, order, k);
        assert(d.len() == 0 && rep.len() == 0);
    }
}

/// Each program the invocation rule reports is reported once, at an
/// invocation statement that no check of the program dominates (with the
/// alias links of the rule's first pass).
pub proof fn law_cpi_findings_sound(defs: Seq<(Seq<char>, TypeDefV)>, program: Seq<char>, ctx: CtxV, r: ResolverV, dom: GraphV)
    ensures
        ({
            let env = CpiEnv { r, sd: context_struct(defs, program, ctx), table: ctx.table, file: ctx.file };
            let order = crate::rules::rpo(ctx.cfg);
            let (par, roots) = link_nodes(env, ctx.cfg, order, order.len() as int);
            let f = cpi_findings(defs, program, ctx, r, dom);
            &&& forall|i: int, j: int| 0 <= i < f.len() && 0 <= j < f.len() && i != j ==> f[i].target_symbol != f[j].target_symbol
            &&& forall|i: int| 0 <= i < f.len() ==> {
                &&& (#[trigger] f[i]).rule_id == "EPIC-SEC-005"@
                &&& f[i].statement_index is Some
                &&& !validation_dominates(r, ctx.cfg, dom, par, roots, f[i].target_symbol, f[i].node_id, f[i].statement_index->0)
            }
        }),
{
    let env = CpiEnv { r, sd: context_struct(defs, program, ctx), table: ctx.table, file: ctx.file };
    let order = crate::rules::rpo(ctx.cfg);
    let (par, roots) = link_nodes(env, ctx.cfg, order, order.len() as int);
    lemma_nodes_sound(env, ctx.cfg, dom, par, roots, order, order.len() as int);
    let (d, rep) = nodes_pass(env, ctx.cfg, dom, par, roots, order, order.len() as int);
    let f = cpi_findings(defs, program, ctx, r, dom);
    assert(f == d);
    assert forall|i: int, j: int| 0 <= i < f.len() && 0 <= j < f.len() && i != j implies f[i].target_symbol != f[j].target_symbol by {
        assert(f[i].target_symbol == rep[i]);
        assert(f[j].target_symbol == rep[j]);
    }
}

} // verus!

verus! {

// ---------------------------------------------------------------------------
// Every unvalidated invocation is reported.

/// The program an invocation target calls without validation (whether
/// reported before or not).
pub open spec fn unvalidated_target(env: CpiEnv, g: GraphV, dom: GraphV, par: Seq<(SSAVarV, SSAVarV)>,
    roots: Seq<(SSAVarV, SymbolId)>, u: usize, j: usize, st: StateV, target: ExprV) -> Option<SymbolId>
{
    match root_symbol(env.r, target, st, par, roots) {
        Some(root) => {
            let names = program_names(env.table, st, par, roots, root);
            if names_program(names, env.sd) && !statically_validated(names, env.sd)
                && !validation_dominates(env.r, g, dom, par, roots, root, u, j) {
                Some(root)
            } else {
                None
            }
        },
        None => None,
    }
}

/// Every program of `a` is in `b`.
pub open spec fn all_in(a: Seq<SymbolId>, b: Seq<SymbolId>) -> bool {
    forall|x: SymbolId| a.contains(x) ==> b.contains(x)
}

proof fn lemma_push_keeps(rep: Seq<SymbolId>, x: SymbolId)
    ensures
        all_in(rep, rep.push(x)),
        rep.push(x).contains(x),
{
    assert forall|y: SymbolId| rep.contains(y) implies rep.push(x).contains(y) by {
        let i = choose|i: int| 0 <= i < rep.len() && rep[i] == y;
        assert(rep.push(x)[i] == y);
    }
    assert(rep.push(x)[rep.len() as int] == x);
}

proof fn lemma_targets_cover(env: CpiEnv, g: GraphV, dom: GraphV, par: Seq<(SSAVarV, SSAVarV)>, roots: Seq<(SSAVarV, SymbolId)>,
    u: usize, j: usize, line: usize, st: StateV, ts: Seq<ExprV>, k: int, acc: (Seq<DiagV>, Seq<SymbolId>))
    requires
        0 <= k <= ts.len(),
    ensures
        all_in(acc.1, targets_pass(env, g, dom, par, roots, u, j, line, st, ts, k, acc).1),
        forall|t: int| 0 <= t < k ==> match #[trigger] unvalidated_target(env, g, dom, par, roots, u, j, st, ts[t]) {
            Some(a) => targets_pass(env, g, dom, par, roots, u, j, line, st, ts, k, acc).1.contains(a),
            None => true,
        },
    decreases k,
{
    if k > 0 {
        lemma_targets_cover(env, g, dom, par, roots, u, j, line, st, ts, k - 1, acc);
        let (d, rep) = targets_pass(env, g, dom, par, roots, u, j, line, st, ts, k - 1, acc);
        let rep2 = targets_pass(env, g, dom, par, roots, u, j, line, st, ts, k, acc).1;
        match target_finding(env, g, dom, par, roots, u, j, st, ts[k - 1], rep) {
            Some(root) => lemma_push_keeps(rep, root),
            None => {},
        }
        assert(all_in(rep, rep2));
        assert forall|t: int| 0 <= t < k implies match #[trigger] unvalidated_target(env, g, dom, par, roots, u, j, st, ts[t]) {
            Some(a) => rep2.contains(a),
            None => true,
        } by {
            if t == k - 1 {
                match unvalidated_target(env, g, dom, par, roots, u, j, st, ts[t]) {
                    Some(a) => {
                        if !rep.contains(a) {
                            assert(target_finding(env, g, dom, par, roots, u, j, st, ts[k - 1], rep) == Some(a));
                        }
                    },
                    None => {},
                }
            }
        }
    }
}

proof fn lemma_stmts_cover(env: CpiEnv, g: GraphV, dom: GraphV, par: Seq<(SSAVarV, SSAVarV)>, roots: Seq<(SSAVarV, SymbolId)>,
    u: usize, info: InfoV, ss: Seq<StmtV>, k: int, acc: (Seq<DiagV>, Seq<SymbolId>))
    requires
        0 <= k <= ss.len(),
    ensures
        all_in(acc.1, stmts_pass(env, g, dom, par, roots, u, info, ss, k, acc).1),
        forall|j: int, t: int| 0 <= j < k && 0 <= t < cpi_targets(ss[j]).len() ==>
            match #[trigger] unvalidated_target(env, g, dom, par, roots, u, j as usize, state_before(info, j), cpi_targets(ss[j])[t]) {
                Some(a) => stmts_pass(env, g, dom, par, roots, u, info, ss, k, acc).1.contains(a),
                None => true,
            },
    decreases k,
{
    if k > 0 {
        lemma_stmts_cover(env, g, dom, par, roots, u, info, ss, k - 1, acc);
        let prev = stmts_pass(env, g, dom, par, roots, u, info, ss, k - 1, acc);
        let ts = cpi_targets(ss[k - 1]);
        lemma_targets_cover(env, g, dom, par, roots, u, (k - 1) as usize, ss[k - 1].line_number, state_before(info, k - 1), ts,
            ts.len() as int, prev);
        let fin = stmts_pass(env, g, dom, par, roots, u, info, ss, k, acc).1;
        assert forall|j: int, t: int| 0 <= j < k && 0 <= t < cpi_targets(ss[j]).len() implies
            match #[trigger] unvalidated_target(env, g, dom, par, roots, u, j as usize, state_before(info, j), cpi_targets(ss[j])[t]) {
                Some(a) => fin.contains(a),
                None => true,
            } by {
            if j == k - 1 {
                assert((j as usize) == ((k - 1) as usize));
            }
        }
    }
}

proof fn lemma_nodes_cover(env: CpiEnv, g: GraphV, dom: GraphV, par: Seq<(SSAVarV, SSAVarV)>, roots: Seq<(SSAVarV, SymbolId)>,
    order: Seq<usize>, k: int, m: int, j: int, t: int, a: SymbolId)
    requires
        0 <= m < k <= order.len(),
        lookup(g.nodes, order[m]) is Some,
        lookup(g.ssa, order[m]) is Some,
        0 <= j < lookup(g.nodes, order[m])->0.statements.len(),
        0 <= t < cpi_targets(lookup(g.nodes, order[m])->0.statements[j]).len(),
        unvalidated_target(env, g, dom, par, roots, order[m], j as usize, state_before(lookup(g.ssa, order[m])->0, j),
            cpi_targets(lookup(g.nodes, order[m])->0.statements[j])[t]) == Some(a),
    ensures
        nodes_pass(env, g, dom, par, roots, order, k).1.contains(a),
    decreases k,
{
    let prev = nodes_pass(env, g, dom, par, roots, order, k - 1);
    let u = order[k - 1];
    let fin = nodes_pass(env, g, dom, par, roots, order, k).1;
    match (lookup(g.nodes, u), lookup(g.ssa, u)) {
        (Some(n), Some(info)) => {
            lemma_stmts_cover(env, g, dom, par, roots, u, info, n.statements, n.statements.len() as int, prev);
            if m < k - 1 {
                lemma_nodes_cover(env, g, dom, par, roots, order, k - 1, m, j, t, a);
            } else {
                let ts = cpi_targets(n.statements[j]);
                assert(match unvalidated_target(env, g, dom, par, roots, u, j as usize, state_before(info, j), ts[t]) {
                    Some(x) => fin.contains(x),
                    None => true,
                });
            }
        },
        _ => {
            lemma_nodes_cover(env, g, dom, par, roots, order, k - 1, m, j, t, a);
        },
    }
}

/// Every invocation target that calls a program with no static or
/// dominating check is reported: the program is the target of some finding.
/// With the soundness law, a program is reported exactly when such an
/// invocation exists.
pub proof fn law_cpi_unvalidated_reported(defs: Seq<(Seq<char>, TypeDefV)>, program: Seq<char>, ctx: CtxV, r: ResolverV,
    dom: GraphV, m: int, j: int, t: int, a: SymbolId)
    requires
        ({
            let env = CpiEnv { r, sd: context_struct(defs, program, ctx), table: ctx.table, file: ctx.file };
            let order = crate::rules::rpo(ctx.cfg);
            let (par, roots) = link_nodes(env, ctx.cfg, order, order.len() as int);
            &&& 0 <= m < order.len()
            &&& lookup(ctx.cfg.nodes, order[m]) is Some
            &&& lookup(ctx.cfg.ssa, order[m]) is Some
            &&& 0 <= j < lookup(ctx.cfg.nodes, order[m])->0.statements.len()
            &&& 0 <= t < cpi_targets(lookup(ctx.cfg.nodes, order[m])->0.statements[j]).len()
            &&& unvalidated_target(env, ctx.cfg, dom, par, roots, order[m], j as usize,
                state_before(lookup(ctx.cfg.ssa, order[m])->0, j), cpi_targets(lookup(ctx.cfg.nodes, order[m])->0.statements[j])[t])
                == Some(a)
        }),
    ensures
        exists|i: int| 0 <= i < cpi_findings(defs, program, ctx, r, dom).len()
            && (#[trigger] cpi_findings(defs, program, ctx, r, dom)[i]).target_symbol == a,
{
    let env = CpiEnv { r, sd: context_struct(defs, program, ctx), table: ctx.table, file: ctx.file };
    let order = crate::rules::rpo(ctx.cfg);
    let (par, roots) = link_nodes(env, ctx.cfg, order, order.len() as int);
    lemma_nodes_sound(env, ctx.cfg, dom, par, roots, order, order.len() as int);
    lemma_nodes_cover(env, ctx.cfg, dom, par, roots, order, order.len() as int, m, j, t, a);
    let (d, rep) = nodes_pass(env, ctx.cfg, dom, par, roots, order, order.len() as int);
    let f = cpi_findings(defs, program, ctx, r, dom);
    assert(f == d);
    let i = choose|i: int| 0 <= i < rep.len() && rep[i] == a;
    assert(f[i].target_symbol == rep[i]);
}

} // verus!

verus! {

/// A method call whose name contains `invoke` (`invoke`, `invoke_signed`,
/// `solana_program::program::invoke_signed`, ...) is an invocation: the
/// programs it calls are those its account slice, the second argument, names.
pub proof fn law_invoke_call_targets(object: ExprV, method: Seq<char>, arguments: Seq<ExprV>)
    requires
        contains_sub(method, "invoke"@),
        arguments.len() >= 2,
    ensures
        cpi_targets_expr(ExprV::MethodCall { object: Box::new(object), method, arguments }) == slice_targets(arguments[1]),
{
}

/// An account slice written `&[a, b, ...]` of plain names or field reads
/// names exactly those accounts, in order.
pub proof fn law_slice_names_its_accounts(object: ExprV, items: Seq<ExprV>, mutable: bool)
    requires
        forall|i: int| 0 <= i < items.len() ==> (#[trigger] items[i] is Identifier || items[i] is FieldAccess),
    ensures
        slice_targets(ExprV::Reference {
            expression: Box::new(ExprV::MethodCall { object: Box::new(object), method: "array"@, arguments: items }),
            is_mutable: mutable,
        }) == items,
{
    let call = ExprV::MethodCall { object: Box::new(object), method: "array"@, arguments: items };
    lemma_slice_list(items, items.len() as int);
    assert(items.take(items.len() as int) =~= items);
    assert(slice_targets(call) == slice_targets_list(items, items.len() as int));
    assert(slice_targets(ExprV::Reference { expression: Box::new(call), is_mutable: mutable }) == slice_targets(call));
}

proof fn lemma_slice_list(items: Seq<ExprV>, k: int)
    requires
        0 <= k <= items.len(),
        forall|i: int| 0 <= i < items.len() ==> (#[trigger] items[i] is Identifier || items[i] is FieldAccess),
    ensures
        slice_targets_list(items, k) == items.take(k),
    decreases k,
{
    if k > 0 {
        lemma_slice_list(items, k - 1);
        assert(items[k - 1] is Identifier || items[k - 1] is FieldAccess);
        assert(slice_targets(items[k - 1]) == seq![items[k - 1]]);
        assert(items.take(k) =~= items.take(k - 1) + seq![items[k - 1]]);
    }
}

/// Every program that a statement `... .invoke..(ix, slice, ...);` names in
/// its account slice, and that no static or dominating check validates, is
/// reported.
pub proof fn law_invoked_unvalidated_program_reported(defs: Seq<(Seq<char>, TypeDefV)>, program: Seq<char>, ctx: CtxV,
    r: ResolverV, dom: GraphV, m: int, j: int, t: int, a: SymbolId)
    requires
        ({
            let env = CpiEnv { r, sd: context_struct(defs, program, ctx), table: ctx.table, file: ctx.file };
            let order = crate::rules::rpo(ctx.cfg);
            let (par, roots) = link_nodes(env, ctx.cfg, order, order.len() as int);
            &&& 0 <= m < order.len()
            &&& lookup(ctx.cfg.nodes, order[m]) is Some
            &&& lookup(ctx.cfg.ssa, order[m]) is Some
            &&& 0 <= j < lookup(ctx.cfg.nodes, order[m])->0.statements.len()
            &&& lookup(ctx.cfg.nodes, order[m])->0.statements[j].kind matches StmtKindV::Semi(
                ExprV::MethodCall { method, arguments, .. })
            &&& contains_sub(method, "invoke"@)
            &&& arguments.len() >= 2
            &&& 0 <= t < slice_targets(arguments[1]).len()
            &&& unvalidated_target(env, ctx.cfg, dom, par, roots, order[m], j as usize,
                state_before(lookup(ctx.cfg.ssa, order[m])->0, j), slice_targets(arguments[1])[t]) == Some(a)
        }),
    ensures
        exists|i: int| 0 <= i < cpi_findings(defs, program, ctx, r, dom).len()
            && (#[trigger] cpi_findings(defs, program, ctx, r, dom)[i]).target_symbol == a,
{
    law_cpi_unvalidated_reported(defs, program, ctx, r, dom, m, j, t, a);
}

/// A CPI context built with `new` or `new_with_signer` (also through a path
/// such as `CpiContext::new`) calls the program given as its first argument.
pub proof fn law_cpi_context_targets_its_program(object: ExprV, method: Seq<char>, arguments: Seq<ExprV>)
    requires
        !contains_sub(method, "invoke"@),
        method == "new"@ || is_suffix("::new"@, method) || method == "new_with_signer"@ || is_suffix("::new_with_signer"@, method),
        arguments.len() > 0,
    ensures
        cpi_targets_expr(ExprV::MethodCall { object: Box::new(object), method, arguments }) == seq![arguments[0]],
{
    lemma_no_invoke_signed(method);
}

proof fn lemma_no_invoke_signed(m: Seq<char>)
    requires
        !contains_sub(m, "invoke"@),
    ensures
        !contains_sub(m, "invoke_signed"@),
{
    if contains_sub(m, "invoke_signed"@) {
        let i = choose|i: int| crate::text::occurs_at(m, "invoke_signed"@, i);
        reveal_strlit("invoke_signed");
        reveal_strlit("invoke");
        assert(m.subrange(i, i + 6) =~= "invoke"@);
        assert(crate::text::occurs_at(m, "invoke"@, i));
    }
}

} // verus!
