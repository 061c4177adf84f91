//! SSA-lite versioning of local names and propagation of their inferred types
//! over a control-flow graph.
use vstd::prelude::*;
use crate::maps::{StrMap, lookup, has_key, assoc_insert, assoc_remove};
use crate::types::{TypeRef, TypeRefV, TypeRegistry};

verus! {

/// A versioned name: a definite version, or ambiguous where paths disagree.
#[derive(Debug, PartialEq, Eq)]
pub enum SSAVariable {
    Versioned { name: String, version: usize },
    Ambiguous(String),
}

/// Model of an [`SSAVariable`].
pub enum SSAVarV {
    Versioned { name: Seq<char>, version: usize },
    Ambiguous(Seq<char>),
}

impl View for SSAVariable {
    type V = SSAVarV;

    open spec fn view(&self) -> SSAVarV {
        match self {
            SSAVariable::Versioned { name, version } => SSAVarV::Versioned { name: name@, version: *version },
            SSAVariable::Ambiguous(n) => SSAVarV::Ambiguous(n@),
        }
    }
}

/// The text of a versioned name: `name#version`, or `name#ambiguous`.
pub open spec fn var_key(v: SSAVarV) -> Seq<char> {
    match v {
        SSAVarV::Versioned { name, version } => name + "#"@ + crate::text::decimal(version as nat),
        SSAVarV::Ambiguous(n) => n + "#ambiguous"@,
    }
}

/// The original name of a versioned name.
pub open spec fn var_name(v: SSAVarV) -> Seq<char> {
    match v {
        SSAVarV::Versioned { name, .. } => name,
        SSAVarV::Ambiguous(n) => n,
    }
}

impl SSAVariable {
    /// The original (unversioned) name.
    pub fn name(&self) -> (r: &String)
        ensures
            r@ == var_name(self@),
    {
        match self {
            SSAVariable::Versioned { name, .. } => name,
            SSAVariable::Ambiguous(n) => n,
        }
    }

    /// The text `name#version` or `name#ambiguous` (what `Display` shows).
    pub fn to_string(&self) -> (r: String)
        ensures
            r@ == var_key(self@),
    {
        match self {
            SSAVariable::Versioned { name, version } => {
                let mut s = name.clone();
                crate::text::push_lit(&mut s, "#");
                let d = crate::text::usize_to_decimal(*version);
                crate::text::append_str(&mut s, d.as_str());
                s
            },
            SSAVariable::Ambiguous(n) => {
                let mut s = n.clone();
                crate::text::push_lit(&mut s, "#ambiguous");
                s
            },
        }
    }
}

impl Clone for SSAVariable {
    fn clone(&self) -> (r: Self)
        ensures
            r@ == self@,
    {
        match self {
            SSAVariable::Versioned { name, version } => SSAVariable::Versioned { name: name.clone(), version: *version },
            SSAVariable::Ambiguous(n) => SSAVariable::Ambiguous(n.clone()),
        }
    }
}

/// Active versions of names and the inferred types of versioned names at one point.
#[derive(Debug)]
pub struct SSANodeState {
    /// name -> its active version
    pub active_variables: StrMap<SSAVariable>,
    /// `name#version` -> inferred type
    pub variable_types: StrMap<TypeRef>,
}

/// Model of an [`SSANodeState`].
pub struct StateV {
    pub active: Seq<(Seq<char>, SSAVarV)>,
    pub types: Seq<(Seq<char>, TypeRefV)>,
}

impl View for SSANodeState {
    type V = StateV;

    open spec fn view(&self) -> StateV {
        StateV { active: self.active_variables.pairs(), types: self.variable_types.pairs() }
    }
}

/// The states around the statements of one CFG node.
#[derive(Debug)]
pub struct NodeSSAInfo {
    /// Before the first statement.
    pub start_state: SSANodeState,
    /// After each statement.
    pub statement_states: Vec<SSANodeState>,
    /// After the last statement.
    pub end_state: SSANodeState,
}

/// Model of a [`NodeSSAInfo`].
pub struct InfoV {
    pub start: StateV,
    pub stmts: Seq<StateV>,
    pub end: StateV,
}

/// The models of a list of states.
pub open spec fn states_view(v: Seq<SSANodeState>) -> Seq<StateV> {
    Seq::new(v.len(), |i: int| v[i]@)
}

impl View for NodeSSAInfo {
    type V = InfoV;

    open spec fn view(&self) -> InfoV {
        InfoV { start: self.start_state@, stmts: states_view(self.statement_states@), end: self.end_state@ }
    }
}

/// A copy of a map of versioned names.
pub fn copy_vars(m: &StrMap<SSAVariable>) -> (r: StrMap<SSAVariable>)
    ensures
        r.pairs() == m.pairs(),
{
    let n = m.len();
    let mut r: StrMap<SSAVariable> = StrMap::new();
    let mut i: usize = 0;
    while i < n
        invariant
            n == m.pairs().len(),
            crate::maps::distinct_keys(m.pairs()),
            i <= n,
            r.pairs() == m.pairs().take(i as int),
        decreases n - i,
    {
        let k = m.key_at(i);
        let v = m.value_at(i);
        proof {
            assert forall|j: int| 0 <= j < i implies m.pairs().take(i as int)[j].0 != k@ by {
                assert(m.pairs()[j].0 != m.pairs()[i as int].0);
            }
        }
        r.insert(k.clone(), v.clone());
        assert(r.pairs() =~= m.pairs().take(i + 1));
        i += 1;
    }
    assert(m.pairs().take(n as int) =~= m.pairs());
    r
}

/// A copy of a map of types.
pub fn copy_types(m: &StrMap<TypeRef>) -> (r: StrMap<TypeRef>)
    ensures
        r.pairs() == m.pairs(),
{
    let n = m.len();
    let mut r: StrMap<TypeRef> = StrMap::new();
    let mut i: usize = 0;
    while i < n
        invariant
            n == m.pairs().len(),
            crate::maps::distinct_keys(m.pairs()),
            i <= n,
            r.pairs() == m.pairs().take(i as int),
        decreases n - i,
    {
        let k = m.key_at(i);
        let v = m.value_at(i);
        proof {
            assert forall|j: int| 0 <= j < i implies m.pairs().take(i as int)[j].0 != k@ by {
                assert(m.pairs()[j].0 != m.pairs()[i as int].0);
            }
        }
        r.insert(k.clone(), v.copy());
        assert(r.pairs() =~= m.pairs().take(i + 1));
        i += 1;
    }
    assert(m.pairs().take(n as int) =~= m.pairs());
    r
}

impl SSANodeState {
    /// A state with no names.
    pub fn new() -> (r: Self)
        ensures
            r@.active.len() == 0,
            r@.types.len() == 0,
    {
        SSANodeState { active_variables: StrMap::new(), variable_types: StrMap::new() }
    }
}

impl Clone for SSANodeState {
    fn clone(&self) -> (r: Self)
        ensures
            r@ == self@,
    {
        SSANodeState { active_variables: copy_vars(&self.active_variables), variable_types: copy_types(&self.variable_types) }
    }
}

impl Clone for NodeSSAInfo {
    fn clone(&self) -> (r: Self)
        ensures
            r@ == self@,
    {
        let mut out: Vec<SSANodeState> = Vec::new();
        let mut i: usize = 0;
        while i < self.statement_states.len()
            invariant
                i <= self.statement_states@.len(),
                out@.len() == i,
                forall|j: int| 0 <= j < i ==> #[trigger] out@[j]@ == self.statement_states@[j]@,
            decreases self.statement_states@.len() - i,
        {
            out.push(self.statement_states[i].clone());
            i += 1;
        }
        let r = NodeSSAInfo { start_state: self.start_state.clone(), statement_states: out, end_state: self.end_state.clone() };
        assert(states_view(r.statement_states@) =~= states_view(self.statement_states@));
        r
    }
}

} // verus!

verus! {

// ---------------------------------------------------------------------------
// Propagation through statements: the model.

/// The types in scope: each active name whose versioned name has a type.
pub open spec fn scope_pairs(active: Seq<(Seq<char>, SSAVarV)>, types: Seq<(Seq<char>, TypeRefV)>) -> Seq<(Seq<char>, TypeRefV)>
    decreases active.len(),
{
    if active.len() == 0 {
        Seq::empty()
    } else {
        let p = scope_pairs(active.drop_last(), types);
        match lookup(types, var_key(active.last().1)) {
            Some(t) => assoc_insert(p, active.last().0, t),
            None => p,
        }
    }
}

/// One more than `c`, staying at the largest value once there.
pub open spec fn bump(c: usize) -> usize {
    if c == usize::MAX { c } else { (c + 1) as usize }
}

/// The next version of `name` and the counters after handing it out.
pub open spec fn next_version(ctr: Seq<(Seq<char>, usize)>, name: Seq<char>) -> (Seq<(Seq<char>, usize)>, usize) {
    let c = match lookup(ctr, name) { Some(c) => c, None => 0usize };
    (assoc_insert(ctr, name, bump(c)), bump(c))
}

/// `st` with `name` bound to version `ver`, typed by inferring `init` in `st`.
pub open spec fn bind_version(st: StateV, name: Seq<char>, ver: usize, init: crate::ast::ExprV) -> StateV {
    let var = SSAVarV::Versioned { name, version: ver };
    let types = match crate::ast::infer_spec(scope_pairs(st.active, st.types), init) {
        crate::ast::InferenceV::Inferred(t) => assoc_insert(st.types, var_key(var), t),
        _ => st.types,
    };
    StateV { active: assoc_insert(st.active, name, var), types }
}

/// The active versions after leaving a block: each name declared in it gets
/// back its version from before the block, or leaves scope.
pub open spec fn restore(active: Seq<(Seq<char>, SSAVarV)>, before: Seq<(Seq<char>, SSAVarV)>, names: Seq<Seq<char>>) -> Seq<(Seq<char>, SSAVarV)>
    decreases names.len(),
{
    if names.len() == 0 {
        active
    } else {
        let a = restore(active, before, names.drop_last());
        match lookup(before, names.last()) {
            Some(v) => assoc_insert(a, names.last(), v),
            None => assoc_remove(a, names.last()),
        }
    }
}

/// Counters, state, and names declared in the current block, after statement `s`.
pub open spec fn prop_stmt(ctr: Seq<(Seq<char>, usize)>, st: StateV, s: crate::ast::StmtV, decl: Seq<Seq<char>>)
    -> (Seq<(Seq<char>, usize)>, StateV, Seq<Seq<char>>)
    decreases s, 0nat,
{
    match s.kind {
        crate::ast::StmtKindV::Let { name, initializer, .. } => {
            let (c2, v) = next_version(ctr, name);
            (c2, bind_version(st, name, v, initializer), decl.push(name))
        },
        crate::ast::StmtKindV::Expr(e) => prop_assign(ctr, st, e, decl),
        crate::ast::StmtKindV::Semi(e) => prop_assign(ctr, st, e, decl),
        crate::ast::StmtKindV::Block(inner) => {
            let (c2, st2, inner_decl) = prop_list(ctr, st, inner, 0, Seq::empty());
            (c2, StateV { active: restore(st2.active, st.active, inner_decl), types: st2.types }, decl)
        },
        crate::ast::StmtKindV::MacroCall { .. } => (ctr, st, decl),
    }
}

/// An assignment to an active name gives it a new version.
pub open spec fn prop_assign(ctr: Seq<(Seq<char>, usize)>, st: StateV, e: crate::ast::ExprV, decl: Seq<Seq<char>>)
    -> (Seq<(Seq<char>, usize)>, StateV, Seq<Seq<char>>)
{
    match e {
        crate::ast::ExprV::Assign { left, right } => match *left {
            crate::ast::ExprV::Identifier(n) => if has_key(st.active, n) {
                let (c2, v) = next_version(ctr, n);
                (c2, bind_version(st, n, v, *right), decl)
            } else {
                (ctr, st, decl)
            },
            _ => (ctr, st, decl),
        },
        _ => (ctr, st, decl),
    }
}

/// Propagation through `ss[i..]` within one block.
pub open spec fn prop_list(ctr: Seq<(Seq<char>, usize)>, st: StateV, ss: Seq<crate::ast::StmtV>, i: int, decl: Seq<Seq<char>>)
    -> (Seq<(Seq<char>, usize)>, StateV, Seq<Seq<char>>)
    decreases ss, ss.len() - i,
{
    if i < 0 || i >= ss.len() {
        (ctr, st, decl)
    } else {
        let (c2, st2, d2) = prop_stmt(ctr, st, ss[i], decl);
        prop_list(c2, st2, ss, i + 1, d2)
    }
}

/// Propagation through the statements `ss[i..]` of a node, each at the top
/// level of the node: the counters, the states after each statement
/// (appended to `acc`), and the end state.
pub open spec fn prop_node(ctr: Seq<(Seq<char>, usize)>, st: StateV, ss: Seq<crate::ast::StmtV>, i: int, acc: Seq<StateV>)
    -> (Seq<(Seq<char>, usize)>, Seq<StateV>, StateV)
    decreases ss.len() - i,
{
    if i < 0 || i >= ss.len() {
        (ctr, acc, st)
    } else {
        let (c2, st2, _) = prop_stmt(ctr, st, ss[i], Seq::empty());
        prop_node(c2, st2, ss, i + 1, acc.push(st2))
    }
}

} // verus!

verus! {

// ---------------------------------------------------------------------------
// Propagation through statements.

/// The scope of typed active names of `state`.
pub fn build_scope(state: &SSANodeState) -> (r: crate::ast::InferenceScope)
    ensures
        r.types.pairs() == scope_pairs(state@.active, state@.types),
{
    let ghost act = state@.active;
    let mut scope = crate::ast::InferenceScope::new();
    let n = state.active_variables.len();
    let mut i: usize = 0;
    assert(act.take(0) =~= Seq::<(Seq<char>, SSAVarV)>::empty());
    assert(scope.types.pairs() =~= Seq::<(Seq<char>, TypeRefV)>::empty());
    while i < n
        invariant
            act == state@.active,
            n == act.len(),
            i <= n,
            scope.types.pairs() == scope_pairs(act.take(i as int), state@.types),
        decreases n - i,
    {
        let name = state.active_variables.key_at(i);
        let var = state.active_variables.value_at(i);
        let key = var.to_string();
        let ghost t = act.take(i + 1);
        assert(t.drop_last() =~= act.take(i as int));
        assert(t.last() == (name@, var@));
        match state.variable_types.get(key.as_str()) {
            Some(ty) => scope.insert(name.clone(), ty.copy()),
            None => {},
        }
        i += 1;
    }
    assert(act.take(n as int) =~= act);
    scope
}

/// Hands out the next version of `name`.
pub fn next_version_exec(ctr: &mut StrMap<usize>, name: &String) -> (v: usize)
    ensures
        (final(ctr).pairs(), v) == next_version(old(ctr).pairs(), name@),
{
    let c: usize = match ctr.get(name.as_str()) {
        Some(c) => *c,
        None => 0,
    };
    let v: usize = if c == usize::MAX { c } else { c + 1 };
    ctr.insert(name.clone(), v);
    v
}

/// Binds `name` to version `ver` in `state`, typed by inferring `init`.
pub fn bind_version_exec(registry: &TypeRegistry, state: &mut SSANodeState, name: &String, ver: usize, init: &crate::ast::ExpressionNode)
    ensures
        final(state)@ == bind_version(old(state)@, name@, ver, init@),
{
    let var = SSAVariable::Versioned { name: name.clone(), version: ver };
    let scope = build_scope(state);
    let engine = crate::ast::TypeInferenceEngine::new(registry, &scope);
    match engine.infer(init) {
        crate::ast::InferenceResult::Inferred(t) => {
            let k = var.to_string();
            state.variable_types.insert(k, t);
        },
        _ => {},
    }
    state.active_variables.insert(name.clone(), var);
}

/// Propagates one statement: new versions for `let` and for assignments to
/// active names, with scoping of blocks.
pub fn propagate_statement_with(registry: &TypeRegistry, ctr: &mut StrMap<usize>, stmt: &crate::ast::StatementNode,
    current_state: &mut SSANodeState, declared_in_block: &mut Vec<String>)
    ensures
        (final(ctr).pairs(), final(current_state)@, crate::types::strs_view(final(declared_in_block)@))
            == prop_stmt(old(ctr).pairs(), old(current_state)@, stmt@, crate::types::strs_view(old(declared_in_block)@)),
    decreases stmt,
{
    match &stmt.kind {
        crate::ast::StatementKind::Let { name, initializer, .. } => {
            let v = next_version_exec(ctr, name);
            bind_version_exec(registry, current_state, name, v, initializer);
            let ghost d0 = crate::types::strs_view(declared_in_block@);
            declared_in_block.push(name.clone());
            assert(crate::types::strs_view(declared_in_block@) =~= d0.push(name@));
        },
        crate::ast::StatementKind::Expr(e) | crate::ast::StatementKind::Semi(e) => {
            propagate_assign(registry, ctr, e, current_state);
        },
        crate::ast::StatementKind::Block(inner) => {
            let before = copy_vars(&current_state.active_variables);
            let mut inner_declared: Vec<String> = Vec::new();
            let ghost iv = crate::ast::stmts_view(inner@);
            proof {
                crate::ast::lemma_stmts_view(inner@);
            }
            let ghost target = prop_list(ctr.pairs(), current_state@, iv, 0, Seq::empty());
            let mut i: usize = 0;
            assert(crate::types::strs_view(inner_declared@) =~= Seq::<Seq<char>>::empty());
            while i < inner.len()
                invariant
                    stmt.kind == crate::ast::StatementKind::Block(*inner),
                    iv == crate::ast::stmts_view(inner@),
                    iv.len() == inner@.len(),
                    forall|j: int| 0 <= j < inner@.len() ==> iv[j] == #[trigger] inner@[j]@,
                    i <= inner@.len(),
                    target == prop_list(ctr.pairs(), current_state@, iv, i as int, crate::types::strs_view(inner_declared@)),
                decreases inner@.len() - i,
            {
                proof {
                    assert(decreases_to!(stmt.kind => stmt.kind->Block_0));
                    assert(decreases_to!(stmt.kind->Block_0 => stmt.kind->Block_0@));
                    assert(decreases_to!(stmt.kind->Block_0@ => stmt.kind->Block_0@[i as int]));
                }
                propagate_statement_with(registry, ctr, &inner[i], current_state, &mut inner_declared);
                i += 1;
            }
            let ghost names = crate::types::strs_view(inner_declared@);
            let ghost a2 = current_state@.active;
            let mut k: usize = 0;
            assert(names.take(0) =~= Seq::<Seq<char>>::empty());
            while k < inner_declared.len()
                invariant
                    names == crate::types::strs_view(inner_declared@),
                    k <= inner_declared@.len(),
                    current_state@.active == restore(a2, before.pairs(), names.take(k as int)),
                    current_state@.types == target.1.types,
                decreases inner_declared@.len() - k,
            {
                let name = &inner_declared[k];
                assert(names.take(k + 1).drop_last() =~= names.take(k as int));
                assert(names.take(k + 1).last() == name@);
                match before.get(name.as_str()) {
                    Some(v) => current_state.active_variables.insert(name.clone(), v.clone()),
                    None => current_state.active_variables.remove(name.as_str()),
                }
                k += 1;
            }
            assert(names.take(inner_declared@.len() as int) =~= names);
        },
        crate::ast::StatementKind::MacroCall { .. } => {},
    }
}

/// An assignment `n = right` to an active name `n` gives it a new version.
fn propagate_assign(registry: &TypeRegistry, ctr: &mut StrMap<usize>, e: &crate::ast::ExpressionNode, current_state: &mut SSANodeState)
    ensures
        ({
            let (c, s, _) = prop_assign(old(ctr).pairs(), old(current_state)@, e@, Seq::empty());
            final(ctr).pairs() == c && final(current_state)@ == s
        }),
{
    match &e.kind {
        crate::ast::ExpressionKind::Assign { left, right } => {
            assert(e@ == crate::ast::ExprV::Assign { left: Box::new(left@), right: Box::new(right@) });
            match &left.kind {
                crate::ast::ExpressionKind::Identifier(n) => {
                    assert(left@ == crate::ast::ExprV::Identifier(n@));
                    if current_state.active_variables.contains_key(n.as_str()) {
                        let v = next_version_exec(ctr, n);
                        bind_version_exec(registry, current_state, n, v, right);
                    }
                },
                _ => {
                    assert(!(left@ is Identifier));
                },
            }
        },
        _ => {
            assert(!(e@ is Assign));
        },
    }
}

} // verus!

verus! {

// ---------------------------------------------------------------------------
// Merging predecessor states: the model.

/// End states of the already-processed predecessors of `u`, in edge order.
pub open spec fn pred_states(edges: Seq<crate::cfg::EdgeV>, infos: Seq<(usize, InfoV)>, u: usize) -> Seq<StateV>
    decreases edges.len(),
{
    if edges.len() == 0 {
        Seq::empty()
    } else {
        let e = edges.last();
        pred_states(edges.drop_last(), infos, u) + if e.to == u && lookup(infos, e.from) is Some {
            seq![lookup(infos, e.from)->Some_0.end]
        } else {
            Seq::empty()
        }
    }
}

/// `acc` extended by the keys of `ks` it lacks, in order.
pub open spec fn add_names(acc: Seq<Seq<char>>, ks: Seq<Seq<char>>) -> Seq<Seq<char>>
    decreases ks.len(),
{
    if ks.len() == 0 {
        acc
    } else {
        let a = add_names(acc, ks.drop_last());
        if a.contains(ks.last()) { a } else { a.push(ks.last()) }
    }
}

/// Names active in any of `ps`, in order of first appearance.
pub open spec fn all_names(ps: Seq<StateV>) -> Seq<Seq<char>>
    decreases ps.len(),
{
    if ps.len() == 0 {
        Seq::empty()
    } else {
        add_names(all_names(ps.drop_last()), crate::maps::keys_of(ps.last().active))
    }
}

/// The versions of `n` in the states of `ps` that have it.
pub open spec fn versions_of(ps: Seq<StateV>, n: Seq<char>) -> Seq<SSAVarV>
    decreases ps.len(),
{
    if ps.len() == 0 {
        Seq::empty()
    } else {
        versions_of(ps.drop_last(), n) + match lookup(ps.last().active, n) {
            Some(v) => seq![v],
            None => Seq::empty(),
        }
    }
}

/// The type of versioned name `k` in the first of `ps` that has one.
pub open spec fn first_type(ps: Seq<StateV>, k: Seq<char>) -> Option<TypeRefV>
    decreases ps.len(),
{
    if ps.len() == 0 {
        None
    } else {
        match lookup(ps[0].types, k) {
            Some(t) => Some(t),
            None => first_type(ps.drop_first(), k),
        }
    }
}

/// `acc` with name `n` merged: its single version when the states of `ps`
/// that have it all agree
/// (typed as the first of them types it), else ambiguous.
pub open spec fn merge_name(acc: StateV, ps: Seq<StateV>, n: Seq<char>) -> StateV {
    let vs = versions_of(ps, n);
    if vs.len() > 0 && forall|i: int| 0 <= i < vs.len() ==> #[trigger] vs[i] == vs[0] {
        let v = vs[0];
        StateV {
            active: assoc_insert(acc.active, n, v),
            types: match first_type(ps, var_key(v)) {
                Some(t) => assoc_insert(acc.types, var_key(v), t),
                None => acc.types,
            },
        }
    } else {
        StateV { active: assoc_insert(acc.active, n, SSAVarV::Ambiguous(n)), types: acc.types }
    }
}

/// The first `k` names of `names` merged into an empty state.
pub open spec fn merge_names(ps: Seq<StateV>, names: Seq<Seq<char>>, k: int) -> StateV
    decreases k,
{
    if k <= 0 {
        StateV { active: Seq::empty(), types: Seq::empty() }
    } else {
        merge_name(merge_names(ps, names, k - 1), ps, names[k - 1])
    }
}

/// The state entering a node with predecessor end states `ps`.
pub open spec fn merged_state(ps: Seq<StateV>) -> StateV {
    if ps.len() == 0 {
        StateV { active: Seq::empty(), types: Seq::empty() }
    } else if ps.len() == 1 {
        ps[0]
    } else {
        merge_names(ps, all_names(ps), all_names(ps).len() as int)
    }
}

} // verus!

verus! {

/// Whether two versioned names are the same.
pub fn same_var(a: &SSAVariable, b: &SSAVariable) -> (r: bool)
    ensures
        r == (a@ == b@),
{
    match (a, b) {
        (SSAVariable::Versioned { name: n1, version: v1 }, SSAVariable::Versioned { name: n2, version: v2 }) => *v1 == *v2 && *n1 == *n2,
        (SSAVariable::Ambiguous(n1), SSAVariable::Ambiguous(n2)) => *n1 == *n2,
        _ => false,
    }
}

/// Computes SSA-lite versions and types over a control-flow graph.
pub struct SSAComputer<'a> {
    pub registry: &'a TypeRegistry,
    pub graph: &'a crate::cfg::ControlFlowGraph,
    /// name -> last version handed out
    pub version_counters: StrMap<usize>,
    /// node id -> its states, in the order nodes were processed
    pub node_states: crate::maps::IdMap<NodeSSAInfo>,
}

/// The end states of the nodes at positions `pos` of `infos`.
pub open spec fn ends_at(infos: Seq<(usize, InfoV)>, pos: Seq<usize>) -> Seq<StateV> {
    Seq::new(pos.len(), |k: int| infos[pos[k] as int].1.end)
}

impl<'a> SSAComputer<'a> {
    /// A computer over `registry` and `graph` with nothing computed.
    pub fn new(registry: &'a TypeRegistry, graph: &'a crate::cfg::ControlFlowGraph) -> (r: Self)
        ensures
            r.registry == registry,
            r.graph == graph,
            r.version_counters.pairs().len() == 0,
            r.node_states.pairs().len() == 0,
    {
        SSAComputer { registry, graph, version_counters: StrMap::new(), node_states: crate::maps::IdMap::new() }
    }

    /// Positions in `node_states` of the processed predecessors of `u`, in edge order.
    fn pred_positions(&self, u: usize) -> (r: Vec<usize>)
        ensures
            forall|k: int| 0 <= k < r@.len() ==> r@[k] < self.node_states.pairs().len(),
            ends_at(self.node_states.pairs(), r@) == pred_states(self.graph@.edges, self.node_states.pairs(), u),
    {
        let ghost infos = self.node_states.pairs();
        let ghost es = self.graph@.edges;
        let mut pos: Vec<usize> = Vec::new();
        let mut j: usize = 0;
        assert(es.take(0) =~= Seq::<crate::cfg::EdgeV>::empty());
        assert(ends_at(infos, pos@) =~= Seq::<StateV>::empty());
        while j < self.graph.edges.len()
            invariant
                infos == self.node_states.pairs(),
                es == self.graph@.edges,
                es.len() == self.graph.edges@.len(),
                j <= es.len(),
                forall|k: int| 0 <= k < pos@.len() ==> pos@[k] < infos.len(),
                ends_at(infos, pos@) == pred_states(es.take(j as int), infos, u),
            decreases es.len() - j,
        {
            let e = &self.graph.edges[j];
            let ghost t = es.take(j + 1);
            assert(t.drop_last() =~= es.take(j as int));
            assert(t.last() == e@);
            if e.to == u {
                match self.node_states.index_of(e.from) {
                    Some(p) => {
                        assert(has_key(infos, e.from));
                        pos.push(p);
                        assert(ends_at(infos, pos@) =~= pred_states(t, infos, u));
                    },
                    None => {
                        assert(ends_at(infos, pos@) =~= pred_states(t, infos, u));
                    },
                }
            } else {
                assert(ends_at(infos, pos@) =~= pred_states(t, infos, u));
            }
            j += 1;
        }
        assert(es.take(es.len() as int) =~= es);
        pos
    }
}


impl<'a> SSAComputer<'a> {
    /// Merges name `n` of the predecessor end states at positions `pos` into `merged`.
    fn merge_name_exec(&self, merged: &mut SSANodeState, pos: &Vec<usize>, n: &String)
        requires
            forall|k: int| 0 <= k < pos@.len() ==> pos@[k] < self.node_states.pairs().len(),
        ensures
            final(merged)@ == merge_name(old(merged)@, ends_at(self.node_states.pairs(), pos@), n@),
    {
        let ghost infos = self.node_states.pairs();
        let ghost ps = ends_at(infos, pos@);
        let mut first: Option<SSAVariable> = None;
        let mut all_same = true;
        let mut k: usize = 0;
        assert(ps.take(0) =~= Seq::<StateV>::empty());
        while k < pos.len()
            invariant
                infos == self.node_states.pairs(),
                ps == ends_at(infos, pos@),
                forall|j: int| 0 <= j < pos@.len() ==> pos@[j] < infos.len(),
                k <= pos@.len(),
                merged@ == old(merged)@,
                ({
                    let vs = versions_of(ps.take(k as int), n@);
                    &&& (first is None <==> vs.len() == 0)
                    &&& (first matches Some(f) ==> f@ == vs[0])
                    &&& (all_same <==> forall|i: int| 0 <= i < vs.len() ==> #[trigger] vs[i] == vs[0])
                }),
            decreases pos@.len() - k,
        {
            let st = &self.node_states.value_at(pos[k]).end_state;
            assert(st@ == ps[k as int]);
            let ghost t = ps.take(k + 1);
            assert(t.drop_last() =~= ps.take(k as int));
            assert(t.last() == ps[k as int]);
            let ghost vs0 = versions_of(ps.take(k as int), n@);
            match st.active_variables.get(n.as_str()) {
                Some(v) => {
                    let ghost vs1 = vs0.push(v@);
                    assert(versions_of(t, n@) =~= vs1);
                    match &first {
                        Some(f) => {
                            if !same_var(v, f) {
                                all_same = false;
                            }
                            assert((forall|i: int| 0 <= i < vs1.len() ==> #[trigger] vs1[i] == vs1[0])
                                == ((forall|i: int| 0 <= i < vs0.len() ==> #[trigger] vs0[i] == vs0[0]) && v@ == vs0[0])) by {
                                if forall|i: int| 0 <= i < vs1.len() ==> #[trigger] vs1[i] == vs1[0] {
                                    assert(vs1[vs0.len() as int] == vs1[0]);
                                    assert forall|i: int| 0 <= i < vs0.len() implies #[trigger] vs0[i] == vs0[0] by {
                                        assert(vs1[i] == vs1[0]);
                                    }
                                }
                            }
                        },
                        None => {
                            first = Some(v.clone());
                        },
                    }
                },
                None => {
                    assert(versions_of(t, n@) =~= vs0);
                },
            }
            k += 1;
        }
        assert(ps.take(pos@.len() as int) =~= ps);
        if all_same && first.is_some() {
            let v = match first {
                Some(f) => f,
                None => SSAVariable::Ambiguous(n.clone()),
            };
            let key = v.to_string();
            // the first predecessor that types this version
            let mut j: usize = 0;
            let mut found: Option<TypeRef> = None;
            assert(ps.skip(0) =~= ps);
            while j < pos.len() && found.is_none()
                invariant
                    infos == self.node_states.pairs(),
                    ps == ends_at(infos, pos@),
                    forall|i: int| 0 <= i < pos@.len() ==> pos@[i] < infos.len(),
                    j <= pos@.len(),
                    merged@ == old(merged)@,
                    found is None ==> first_type(ps, key@) == first_type(ps.skip(j as int), key@),
                    found matches Some(t) ==> first_type(ps, key@) == Some(t@),
                decreases pos@.len() - j,
            {
                let st = &self.node_states.value_at(pos[j]).end_state;
                assert(st@ == ps[j as int]);
                let ghost s = ps.skip(j as int);
                assert(s[0] == ps[j as int]);
                assert(s.drop_first() =~= ps.skip(j + 1));
                match st.variable_types.get(key.as_str()) {
                    Some(t) => found = Some(t.copy()),
                    None => {},
                }
                j += 1;
            }
            if found.is_none() {
                assert(j == pos@.len());
                assert(ps.skip(pos@.len() as int) =~= Seq::<StateV>::empty());
            }
            let ghost vs = versions_of(ps, n@);
            assert(vs.len() > 0);
            assert(v@ == vs[0]);
            assert(key@ == var_key(vs[0]));
            assert(found is None ==> first_type(ps, key@) is None);
            match found {
                Some(t) => merged.variable_types.insert(key, t),
                None => {},
            }
            merged.active_variables.insert(n.clone(), v);
            assert(merged@.active == assoc_insert(old(merged)@.active, n@, vs[0]));
            assert(merged@.types == match first_type(ps, var_key(vs[0])) {
                Some(t) => assoc_insert(old(merged)@.types, var_key(vs[0]), t),
                None => old(merged)@.types,
            });
        } else {
            merged.active_variables.insert(n.clone(), SSAVariable::Ambiguous(n.clone()));
            assert(merged@.active == assoc_insert(old(merged)@.active, n@, SSAVarV::Ambiguous(n@)));
        }
    }

    /// The state entering node `u`: nothing without processed predecessors,
    /// a copy with one, else each name merged.
    fn merge_predecessors(&self, u: usize) -> (r: SSANodeState)
        ensures
            r@ == merged_state(pred_states(self.graph@.edges, self.node_states.pairs(), u)),
    {
        let pos = self.pred_positions(u);
        let ghost infos = self.node_states.pairs();
        let ghost ps = ends_at(infos, pos@);
        if pos.len() == 0 {
            let r = SSANodeState::new();
            assert(r@.active =~= Seq::<(Seq<char>, SSAVarV)>::empty());
            assert(r@.types =~= Seq::<(Seq<char>, TypeRefV)>::empty());
            return r;
        }
        if pos.len() == 1 {
            return self.node_states.value_at(pos[0]).end_state.clone();
        }
        let mut names: Vec<String> = Vec::new();
        let mut k: usize = 0;
        assert(ps.take(0) =~= Seq::<StateV>::empty());
        assert(crate::types::strs_view(names@) =~= Seq::<Seq<char>>::empty());
        while k < pos.len()
            invariant
                infos == self.node_states.pairs(),
                ps == ends_at(infos, pos@),
                forall|j: int| 0 <= j < pos@.len() ==> pos@[j] < infos.len(),
                k <= pos@.len(),
                crate::types::strs_view(names@) == all_names(ps.take(k as int)),
            decreases pos@.len() - k,
        {
            let st = &self.node_states.value_at(pos[k]).end_state;
            assert(st@ == ps[k as int]);
            let ghost base = crate::types::strs_view(names@);
            let ghost ks = crate::maps::keys_of(st@.active);
            let n = st.active_variables.len();
            let mut i: usize = 0;
            assert(ks.take(0) =~= Seq::<Seq<char>>::empty());
            while i < n
                invariant
                    n == ks.len(),
                    ks == crate::maps::keys_of(st@.active),
                    i <= n,
                    crate::types::strs_view(names@) == add_names(base, ks.take(i as int)),
                decreases n - i,
            {
                let key = st.active_variables.key_at(i);
                assert(ks.take(i + 1).drop_last() =~= ks.take(i as int));
                assert(ks.take(i + 1).last() == key@);
                if !crate::layout::strings_contain(&names, key.as_str()) {
                    let ghost before = crate::types::strs_view(names@);
                    names.push(key.clone());
                    assert(crate::types::strs_view(names@) =~= before.push(key@));
                }
                i += 1;
            }
            assert(ks.take(n as int) =~= ks);
            assert(ps.take(k + 1).drop_last() =~= ps.take(k as int));
            assert(ps.take(k + 1).last() == ps[k as int]);
            k += 1;
        }
        assert(ps.take(pos@.len() as int) =~= ps);
        let ghost nv = crate::types::strs_view(names@);
        let mut merged = SSANodeState::new();
        assert(merged@ == merge_names(ps, nv, 0)) by {
            assert(merged@.active =~= Seq::<(Seq<char>, SSAVarV)>::empty());
            assert(merged@.types =~= Seq::<(Seq<char>, TypeRefV)>::empty());
        }
        let mut m: usize = 0;
        while m < names.len()
            invariant
                infos == self.node_states.pairs(),
                ps == ends_at(infos, pos@),
                forall|j: int| 0 <= j < pos@.len() ==> pos@[j] < infos.len(),
                nv == crate::types::strs_view(names@),
                m <= names@.len(),
                merged@ == merge_names(ps, nv, m as int),
            decreases names@.len() - m,
        {
            self.merge_name_exec(&mut merged, &pos, &names[m]);
            m += 1;
        }
        merged
    }
}

} // verus!

verus! {

// ---------------------------------------------------------------------------
// Processing order: Kahn's topological sort, the model.

/// Every id of `ks` with in-degree 0.
pub open spec fn zero_degrees(ks: Seq<usize>) -> Seq<(usize, usize)>
    decreases ks.len(),
{
    if ks.len() == 0 {
        Seq::empty()
    } else {
        assoc_insert(zero_degrees(ks.drop_last()), ks.last(), 0usize)
    }
}

/// In-degrees: every node at 0 (in node order), then one more per edge into
/// its target (a target that is no node is added).
pub open spec fn in_degrees(ks: Seq<usize>, edges: Seq<crate::cfg::EdgeV>) -> Seq<(usize, usize)>
    decreases edges.len(),
{
    if edges.len() == 0 {
        zero_degrees(ks)
    } else {
        let d = in_degrees(ks, edges.drop_last());
        let v = edges.last().to;
        let c = match lookup(d, v) { Some(c) => c, None => 0usize };
        assoc_insert(d, v, bump(c))
    }
}

/// The ids of `d` whose degree is 0, in order.
pub open spec fn zero_ids(d: Seq<(usize, usize)>) -> Seq<usize>
    decreases d.len(),
{
    if d.len() == 0 {
        Seq::empty()
    } else {
        zero_ids(d.drop_last()) + if d.last().1 == 0 { seq![d.last().0] } else { Seq::empty() }
    }
}

/// The number of ids with a positive degree.
pub open spec fn count_pos(d: Seq<(usize, usize)>) -> nat
    decreases d.len(),
{
    if d.len() == 0 {
        0
    } else {
        count_pos(d.drop_last()) + if d.last().1 > 0 { 1nat } else { 0nat }
    }
}

/// Changing one degree changes the count of positive ones accordingly.
pub proof fn lemma_count_pos_update(d: Seq<(usize, usize)>, i: int, p: (usize, usize))
    requires
        0 <= i < d.len(),
    ensures
        count_pos(d.update(i, p)) + (if d[i].1 > 0 { 1int } else { 0int })
            == count_pos(d) + (if p.1 > 0 { 1int } else { 0int }),
    decreases d.len(),
{
    let u = d.update(i, p);
    if i == d.len() - 1 {
        assert(u.drop_last() =~= d.drop_last());
    } else {
        lemma_count_pos_update(d.drop_last(), i, p);
        assert(u.drop_last() =~= d.drop_last().update(i, p));
    }
}

/// Removes the edges out of `u` (from `edges[j]` on): each target loses one
/// degree, and joins the queue when it reaches 0.
pub open spec fn relax(deg: Seq<(usize, usize)>, q: Seq<usize>, edges: Seq<crate::cfg::EdgeV>, u: usize, j: int)
    -> (Seq<(usize, usize)>, Seq<usize>)
    decreases edges.len() - j,
{
    if j < 0 || j >= edges.len() {
        (deg, q)
    } else if edges[j].from == u && lookup(deg, edges[j].to) is Some && lookup(deg, edges[j].to)->Some_0 > 0 {
        let v = edges[j].to;
        let c = lookup(deg, v)->Some_0;
        relax(assoc_insert(deg, v, (c - 1) as usize), if c == 1 { q.push(v) } else { q }, edges, u, j + 1)
    } else {
        relax(deg, q, edges, u, j + 1)
    }
}

/// Relaxing never raises twice the positive count plus the queue length.
pub proof fn lemma_relax_measure(deg: Seq<(usize, usize)>, q: Seq<usize>, edges: Seq<crate::cfg::EdgeV>, u: usize, j: int)
    ensures
        2 * count_pos(relax(deg, q, edges, u, j).0) + relax(deg, q, edges, u, j).1.len() <= 2 * count_pos(deg) + q.len(),
    decreases edges.len() - j,
{
    if j < 0 || j >= edges.len() {
    } else if edges[j].from == u && lookup(deg, edges[j].to) is Some && lookup(deg, edges[j].to)->Some_0 > 0 {
        let v = edges[j].to;
        let c = lookup(deg, v)->Some_0;
        let k = crate::maps::key_index(deg, v);
        assert(deg[k].0 == v);
        let d2 = assoc_insert(deg, v, (c - 1) as usize);
        assert(d2 == deg.update(k, (v, (c - 1) as usize)));
        lemma_count_pos_update(deg, k, (v, (c - 1) as usize));
        lemma_relax_measure(d2, if c == 1 { q.push(v) } else { q }, edges, u, j + 1);
    } else {
        lemma_relax_measure(deg, q, edges, u, j + 1);
    }
}

/// Kahn's algorithm: repeatedly take the front of the queue, append it to
/// the order, and relax its outgoing edges.
pub open spec fn kahn(deg: Seq<(usize, usize)>, q: Seq<usize>, order: Seq<usize>, edges: Seq<crate::cfg::EdgeV>) -> Seq<usize>
    decreases 2 * count_pos(deg) + q.len(),
{
    if q.len() == 0 {
        order
    } else {
        let u = q[0];
        proof {
            lemma_relax_measure(deg, q.drop_first(), edges, u, 0);
        }
        let (d2, q2) = relax(deg, q.drop_first(), edges, u, 0);
        kahn(d2, q2, order.push(u), edges)
    }
}

/// The order in which nodes are processed: a topological order of the
/// acyclic part of the graph, starting from the nodes without incoming edges.
pub open spec fn topo_order(g: crate::cfg::GraphV) -> Seq<usize> {
    let d = in_degrees(crate::maps::keys_of(g.nodes), g.edges);
    kahn(d, zero_ids(d), Seq::empty(), g.edges)
}

} // verus!

verus! {

/// The statements of node `u`, if it exists.
pub open spec fn node_stmts(g: crate::cfg::GraphV, u: usize) -> Seq<crate::ast::StmtV> {
    match lookup(g.nodes, u) {
        Some(n) => n.statements,
        None => Seq::empty(),
    }
}

/// The counters and entry state once each parameter is bound at version 1 with its type.
pub open spec fn entry_state(ctr: Seq<(Seq<char>, usize)>, ps: Seq<crate::ast::ParamV>) -> (Seq<(Seq<char>, usize)>, StateV)
    decreases ps.len(),
{
    if ps.len() == 0 {
        (ctr, StateV { active: Seq::empty(), types: Seq::empty() })
    } else {
        let (c, st) = entry_state(ctr, ps.drop_last());
        let p = ps.last();
        let var = SSAVarV::Versioned { name: p.name, version: 1 };
        (assoc_insert(c, p.name, 1usize),
         StateV { active: assoc_insert(st.active, p.name, var), types: assoc_insert(st.types, var_key(var), p.type_ref) })
    }
}

/// Processes the first `k` nodes of `order`: each starts from the entry state
/// (node 0) or the merge of its processed predecessors, and runs through its
/// statements.
pub open spec fn ssa_pass(g: crate::cfg::GraphV, ctr: Seq<(Seq<char>, usize)>, entry: StateV, infos: Seq<(usize, InfoV)>, order: Seq<usize>, k: int)
    -> (Seq<(Seq<char>, usize)>, Seq<(usize, InfoV)>)
    decreases k,
{
    if k <= 0 {
        (ctr, infos)
    } else {
        let (c1, i1) = ssa_pass(g, ctr, entry, infos, order, k - 1);
        let u = order[k - 1];
        let start = if u == 0 { entry } else { merged_state(pred_states(g.edges, i1, u)) };
        let (c2, sts, end) = prop_node(c1, start, node_stmts(g, u), 0, Seq::empty());
        (c2, assoc_insert(i1, u, InfoV { start, stmts: sts, end }))
    }
}

/// The models of a parameter list.
pub open spec fn params_view(ps: Seq<crate::ast::ParameterNode>) -> Seq<crate::ast::ParamV> {
    Seq::new(ps.len(), |i: int| ps[i]@)
}

/// The outcome of a whole SSA pass from counters `ctr` and states `infos`.
pub open spec fn ssa_result(g: crate::cfg::GraphV, ctr: Seq<(Seq<char>, usize)>, infos: Seq<(usize, InfoV)>, ps: Seq<crate::ast::ParamV>)
    -> (Seq<(Seq<char>, usize)>, Seq<(usize, InfoV)>)
{
    let (c0, entry) = entry_state(ctr, ps);
    ssa_pass(g, c0, entry, infos, topo_order(g), topo_order(g).len() as int)
}

impl<'a> SSAComputer<'a> {
    /// The processing order of the graph's nodes.
    fn topological_order(&self) -> (r: Vec<usize>)
        ensures
            r@ == topo_order(self.graph@),
    {
        let ghost g = self.graph@;
        let ghost ks = crate::maps::keys_of(g.nodes);
        let mut deg: crate::maps::IdMap<usize> = crate::maps::IdMap::new();
        let n = self.graph.nodes.len();
        let mut i: usize = 0;
        assert(ks.take(0) =~= Seq::<usize>::empty());
        while i < n
            invariant
                g == self.graph@,
                ks == crate::maps::keys_of(g.nodes),
                n == ks.len(),
                i <= n,
                deg.pairs() == zero_degrees(ks.take(i as int)),
            decreases n - i,
        {
            let k = self.graph.nodes.key_at(i);
            assert(ks.take(i + 1).drop_last() =~= ks.take(i as int));
            assert(ks.take(i + 1).last() == k);
            deg.insert(k, 0);
            i += 1;
        }
        assert(ks.take(n as int) =~= ks);
        let ghost es = g.edges;
        let mut j: usize = 0;
        assert(es.take(0) =~= Seq::<crate::cfg::EdgeV>::empty());
        while j < self.graph.edges.len()
            invariant
                g == self.graph@,
                ks == crate::maps::keys_of(g.nodes),
                es == g.edges,
                es.len() == self.graph.edges@.len(),
                j <= es.len(),
                deg.pairs() == in_degrees(ks, es.take(j as int)),
            decreases es.len() - j,
        {
            let v = self.graph.edges[j].to;
            assert(es.take(j + 1).drop_last() =~= es.take(j as int));
            assert(es.take(j + 1).last().to == v);
            let c: usize = match deg.get(v) {
                Some(c) => *c,
                None => 0,
            };
            let b: usize = if c == usize::MAX { c } else { c + 1 };
            deg.insert(v, b);
            j += 1;
        }
        assert(es.take(es.len() as int) =~= es);
        let ghost d0 = deg.pairs();
        let mut q: Vec<usize> = Vec::new();
        let dn = deg.len();
        let mut m: usize = 0;
        assert(d0.take(0) =~= Seq::<(usize, usize)>::empty());
        while m < dn
            invariant
                d0 == deg.pairs(),
                dn == d0.len(),
                m <= dn,
                q@ == zero_ids(d0.take(m as int)),
            decreases dn - m,
        {
            let k = deg.key_at(m);
            let c = *deg.value_at(m);
            assert(d0.take(m + 1).drop_last() =~= d0.take(m as int));
            assert(d0.take(m + 1).last() == (k, c));
            if c == 0 {
                q.push(k);
            }
            assert(q@ =~= zero_ids(d0.take(m + 1)));
            m += 1;
        }
        assert(d0.take(dn as int) =~= d0);
        let ghost target = topo_order(g);
        let mut order: Vec<usize> = Vec::new();
        let mut head: usize = 0;
        assert(q@.skip(0) =~= q@);
        while head < q.len()
            invariant
                g == self.graph@,
                es == g.edges,
                es.len() == self.graph.edges@.len(),
                head <= q@.len(),
                target == kahn(deg.pairs(), q@.skip(head as int), order@, es),
            decreases 2 * count_pos(deg.pairs()) + (q@.len() - head),
        {
            let ghost d_start = deg.pairs();
            let ghost q_start = q@.skip(head as int);
            let u = q[head];
            assert(q_start[0] == u);
            head += 1;
            assert(q_start.drop_first() =~= q@.skip(head as int));
            order.push(u);
            let ghost rel = relax(d_start, q_start.drop_first(), es, u, 0);
            proof {
                lemma_relax_measure(d_start, q_start.drop_first(), es, u, 0);
            }
            let mut j: usize = 0;
            while j < self.graph.edges.len()
                invariant
                    g == self.graph@,
                    es == g.edges,
                    es.len() == self.graph.edges@.len(),
                    head <= q@.len(),
                    j <= es.len(),
                    rel == relax(deg.pairs(), q@.skip(head as int), es, u, j as int),
                decreases es.len() - j,
            {
                let e = &self.graph.edges[j];
                assert(es[j as int] == e@);
                if e.from == u {
                    match deg.index_of(e.to) {
                        Some(p) => {
                            let c = *deg.value_at(p);
                            assert(crate::maps::lookup(deg.pairs(), e.to) == Some(c));
                            if c > 0 {
                                let ghost qs = q@.skip(head as int);
                                deg.insert(e.to, c - 1);
                                if c == 1 {
                                    q.push(e.to);
                                    assert(q@.skip(head as int) =~= qs.push(e.to));
                                } else {
                                    assert(q@.skip(head as int) =~= qs);
                                }
                            }
                        },
                        None => {},
                    }
                }
                j += 1;
            }
        }
        order
    }
}

} // verus!

verus! {

/// The inferred type of `name` at the end of a node with states `info`.
pub open spec fn variable_type(infos: Seq<(usize, InfoV)>, node_id: usize, name: Seq<char>) -> crate::ast::InferenceV {
    match lookup(infos, node_id) {
        Some(info) => match lookup(info.end.active, name) {
            Some(v) => match v {
                SSAVarV::Versioned { .. } => match lookup(info.end.types, var_key(v)) {
                    Some(t) => crate::ast::InferenceV::Inferred(t),
                    None => crate::ast::InferenceV::Inconclusive(crate::ast::ReasonV::UnresolvedIdentifier(name)),
                },
                SSAVarV::Ambiguous(_) => crate::ast::InferenceV::Inconclusive(crate::ast::ReasonV::AmbiguousType(name)),
            },
            None => crate::ast::InferenceV::Inconclusive(crate::ast::ReasonV::UnresolvedIdentifier(name)),
        },
        None => crate::ast::InferenceV::Inconclusive(crate::ast::ReasonV::UnresolvedIdentifier(name)),
    }
}

impl<'a> SSAComputer<'a> {
    /// Propagates one statement: new versions for `let` and for assignments
    /// to active names, with scoping of blocks.
    pub fn propagate_statement(&mut self, stmt: &crate::ast::StatementNode, current_state: &mut SSANodeState,
        declared_in_block: &mut Vec<String>)
        ensures
            (final(self).version_counters.pairs(), final(current_state)@, crate::types::strs_view(final(declared_in_block)@))
                == prop_stmt(old(self).version_counters.pairs(), old(current_state)@, stmt@, crate::types::strs_view(old(declared_in_block)@)),
            final(self).graph == old(self).graph,
            final(self).registry == old(self).registry,
            final(self).node_states == old(self).node_states,
    {
        let registry: &TypeRegistry = self.registry;
        propagate_statement_with(registry, &mut self.version_counters, stmt, current_state, declared_in_block);
    }

    /// Runs through the statements of node `u` from `start`: the state after
    /// each statement, and the end state.
    fn propagate_node(&mut self, u: usize, start: &SSANodeState) -> (r: (Vec<SSANodeState>, SSANodeState))
        ensures
            ({
                let (c, sts, end) = prop_node(old(self).version_counters.pairs(), start@, node_stmts(old(self).graph@, u), 0, Seq::empty());
                &&& final(self).version_counters.pairs() == c
                &&& states_view(r.0@) == sts
                &&& r.1@ == end
            }),
            final(self).graph == old(self).graph,
            final(self).registry == old(self).registry,
            final(self).node_states == old(self).node_states,
    {
        let mut current = start.clone();
        let mut states: Vec<SSANodeState> = Vec::new();
        let graph: &crate::cfg::ControlFlowGraph = self.graph;
        let registry: &TypeRegistry = self.registry;
        match graph.nodes.get(u) {
            Some(node) => {
                let ghost ss = node_stmts(graph@, u);
                assert(ss == crate::cfg::stmt_list_view(node.statements@));
                let ghost target = prop_node(self.version_counters.pairs(), start@, ss, 0, Seq::empty());
                let mut i: usize = 0;
                assert(states_view(states@) =~= Seq::<StateV>::empty());
                while i < node.statements.len()
                    invariant
                        ss == crate::cfg::stmt_list_view(node.statements@),
                        i <= node.statements@.len(),
                        target == prop_node(self.version_counters.pairs(), current@, ss, i as int, states_view(states@)),
                        self.graph == old(self).graph,
                        self.registry == old(self).registry,
                        self.node_states == old(self).node_states,
                        graph == self.graph,
                        registry == self.registry,
                    decreases node.statements@.len() - i,
                {
                    let mut declared: Vec<String> = Vec::new();
                    assert(crate::types::strs_view(declared@) =~= Seq::<Seq<char>>::empty());
                    assert(ss[i as int] == node.statements@[i as int]@);
                    propagate_statement_with(registry, &mut self.version_counters, &node.statements[i], &mut current, &mut declared);
                    let ghost before = states_view(states@);
                    states.push(current.clone());
                    assert(states_view(states@) =~= before.push(current@));
                    i += 1;
                }
            },
            None => {
                assert(states_view(states@) =~= Seq::<StateV>::empty());
            },
        }
        (states, current)
    }

    /// Runs the pass: parameters start at version 1 in node 0; nodes are
    /// processed in topological order, each from the merge of its
    /// predecessors. Returns the states of every processed node.
    pub fn compute(&mut self, signature: &Vec<crate::ast::ParameterNode>) -> (r: crate::maps::IdMap<NodeSSAInfo>)
        ensures
            (final(self).version_counters.pairs(), final(self).node_states.pairs())
                == ssa_result(old(self).graph@, old(self).version_counters.pairs(), old(self).node_states.pairs(), params_view(signature@)),
            r.pairs() == final(self).node_states.pairs(),
            final(self).graph == old(self).graph,
            final(self).registry == old(self).registry,
    {
        let ghost pv = params_view(signature@);
        let ghost c_init = self.version_counters.pairs();
        let mut entry = SSANodeState::new();
        let mut p: usize = 0;
        assert(pv.take(0) =~= Seq::<crate::ast::ParamV>::empty());
        assert(entry@.active =~= Seq::<(Seq<char>, SSAVarV)>::empty());
        assert(entry@.types =~= Seq::<(Seq<char>, TypeRefV)>::empty());
        while p < signature.len()
            invariant
                pv == params_view(signature@),
                p <= signature@.len(),
                (self.version_counters.pairs(), entry@) == entry_state(c_init, pv.take(p as int)),
                self.graph == old(self).graph,
                self.registry == old(self).registry,
                self.node_states == old(self).node_states,
                c_init == old(self).version_counters.pairs(),
            decreases signature@.len() - p,
        {
            let param = &signature[p];
            assert(pv.take(p + 1).drop_last() =~= pv.take(p as int));
            assert(pv.take(p + 1).last() == param@);
            let var = SSAVariable::Versioned { name: param.name.clone(), version: 1 };
            self.version_counters.insert(param.name.clone(), 1);
            let key = var.to_string();
            entry.active_variables.insert(param.name.clone(), var);
            entry.variable_types.insert(key, param.type_ref.copy());
            p += 1;
        }
        assert(pv.take(signature@.len() as int) =~= pv);
        let ghost c0 = self.version_counters.pairs();
        let ghost i0 = self.node_states.pairs();
        let order = self.topological_order();
        let mut k: usize = 0;
        while k < order.len()
            invariant
                k <= order@.len(),
                order@ == topo_order(self.graph@),
                (self.version_counters.pairs(), self.node_states.pairs()) == ssa_pass(self.graph@, c0, entry@, i0, order@, k as int),
                self.graph == old(self).graph,
                self.registry == old(self).registry,
                (c0, entry@) == entry_state(old(self).version_counters.pairs(), params_view(signature@)),
                i0 == old(self).node_states.pairs(),
            decreases order@.len() - k,
        {
            let u = order[k];
            let start = if u == 0 { entry.clone() } else { self.merge_predecessors(u) };
            let (sts, end) = self.propagate_node(u, &start);
            let info = NodeSSAInfo { start_state: start, statement_states: sts, end_state: end };
            self.node_states.insert(u, info);
            k += 1;
        }
        let mut out: crate::maps::IdMap<NodeSSAInfo> = crate::maps::IdMap::new();
        let n = self.node_states.len();
        let mut i: usize = 0;
        assert(self.node_states.pairs().take(0) =~= Seq::<(usize, InfoV)>::empty());
        while i < n
            invariant
                n == self.node_states.pairs().len(),
                crate::maps::distinct_keys(self.node_states.pairs()),
                i <= n,
                out.pairs() == self.node_states.pairs().take(i as int),
            decreases n - i,
        {
            let key = self.node_states.key_at(i);
            let v = self.node_states.value_at(i).clone();
            proof {
                assert forall|j: int| 0 <= j < i implies self.node_states.pairs().take(i as int)[j].0 != key by {
                    assert(self.node_states.pairs()[j].0 != self.node_states.pairs()[i as int].0);
                }
            }
            out.insert(key, v);
            assert(out.pairs() =~= self.node_states.pairs().take(i + 1));
            i += 1;
        }
        assert(self.node_states.pairs().take(n as int) =~= self.node_states.pairs());
        out
    }

    /// The inferred type of `name` at the end of node `node_id`.
    pub fn get_variable_type(&self, node_id: usize, name: &str) -> (r: crate::ast::InferenceResult)
        ensures
            r@ == variable_type(self.node_states.pairs(), node_id, name@),
    {
        let unresolved = crate::ast::InferenceResult::Inconclusive(crate::ast::InconclusiveReason::UnresolvedIdentifier(crate::text::lit(name)));
        match self.node_states.get(node_id) {
            Some(info) => match info.end_state.active_variables.get(name) {
                Some(v) => match v {
                    SSAVariable::Versioned { .. } => {
                        let key = v.to_string();
                        match info.end_state.variable_types.get(key.as_str()) {
                            Some(t) => crate::ast::InferenceResult::Inferred(t.copy()),
                            None => unresolved,
                        }
                    },
                    SSAVariable::Ambiguous(_) => crate::ast::InferenceResult::Inconclusive(
                        crate::ast::InconclusiveReason::AmbiguousType(crate::text::lit(name))),
                },
                None => unresolved,
            },
            None => unresolved,
        }
    }
}

} // verus!

verus! {

// ---------------------------------------------------------------------------
// Every node gets a state after each of its statements.

/// Each recorded node has as many states after statements as it has statements.
pub open spec fn infos_cover(g: crate::cfg::GraphV, infos: Seq<(usize, InfoV)>) -> bool {
    forall|i: int| 0 <= i < infos.len() ==> (#[trigger] infos[i]).1.stmts.len() == node_stmts(g, infos[i].0).len()
}

/// Propagation through a node records one state per remaining statement.
pub proof fn lemma_prop_node_len(ctr: Seq<(Seq<char>, usize)>, st: StateV, ss: Seq<crate::ast::StmtV>, i: int, acc: Seq<StateV>)
    requires
        0 <= i <= ss.len(),
    ensures
        prop_node(ctr, st, ss, i, acc).1.len() == acc.len() + ss.len() - i,
    decreases ss.len() - i,
{
    if i < ss.len() {
        let (c2, st2, _) = prop_stmt(ctr, st, ss[i], Seq::empty());
        lemma_prop_node_len(c2, st2, ss, i + 1, acc.push(st2));
    }
}

/// Each step of the pass keeps every recorded node covered.
pub proof fn lemma_ssa_pass_covers(g: crate::cfg::GraphV, ctr: Seq<(Seq<char>, usize)>, entry: StateV, infos: Seq<(usize, InfoV)>,
    order: Seq<usize>, k: int)
    requires
        infos_cover(g, infos),
    ensures
        infos_cover(g, ssa_pass(g, ctr, entry, infos, order, k).1),
    decreases k,
{
    if k > 0 {
        lemma_ssa_pass_covers(g, ctr, entry, infos, order, k - 1);
        let (c1, i1) = ssa_pass(g, ctr, entry, infos, order, k - 1);
        let u = order[k - 1];
        let start = if u == 0 { entry } else { merged_state(pred_states(g.edges, i1, u)) };
        let (c2, sts, end) = prop_node(c1, start, node_stmts(g, u), 0, Seq::empty());
        lemma_prop_node_len(c1, start, node_stmts(g, u), 0, Seq::empty());
        let info = InfoV { start, stmts: sts, end };
        let out = assoc_insert(i1, u, info);
        assert forall|i: int| 0 <= i < out.len() implies (#[trigger] out[i]).1.stmts.len() == node_stmts(g, out[i].0).len() by {
            if has_key(i1, u) {
                let ki = crate::maps::key_index(i1, u);
                if i != ki {
                    assert(out[i] == i1[i]);
                }
            } else {
                if i < i1.len() {
                    assert(out[i] == i1[i]);
                }
            }
        }
    }
}

/// After the SSA pass, each node of the graph that has states has one state
/// after each of its statements, so a state before each of them.
pub proof fn lemma_ssa_covers(g: crate::cfg::GraphV, ctr: Seq<(Seq<char>, usize)>, ps: Seq<crate::ast::ParamV>)
    requires
        crate::maps::distinct_keys(g.nodes),
    ensures
        crate::cfg::ssa_covers(crate::cfg::GraphV { ssa: ssa_result(g, ctr, Seq::empty(), ps).1, ..g }),
{
    let (c0, entry) = entry_state(ctr, ps);
    let order = topo_order(g);
    lemma_ssa_pass_covers(g, c0, entry, Seq::empty(), order, order.len() as int);
    let infos = ssa_result(g, ctr, Seq::empty(), ps).1;
    let g2 = crate::cfg::GraphV { ssa: infos, ..g };
    assert forall|a: int| 0 <= a < g2.nodes.len() implies match lookup(g2.ssa, #[trigger] g2.nodes[a].0) {
        Some(info) => g2.nodes[a].1.statements.len() <= info.stmts.len() + 1,
        None => true,
    } by {
        let u = g.nodes[a].0;
        crate::maps::lemma_lookup_at(g.nodes, a);
        if has_key(infos, u) {
            let ki = crate::maps::key_index(infos, u);
            assert(infos[ki].0 == u);
            assert(infos[ki].1.stmts.len() == node_stmts(g, u).len());
        }
    }
}

} // verus!
