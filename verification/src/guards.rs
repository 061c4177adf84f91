//! Guard facts: security constraints an instruction handler declares (Anchor
//! account attributes) or checks imperatively (owner comparisons).
use vstd::prelude::*;
use crate::maps::{StrMap, lookup, has_key, assoc_insert};
use crate::types::{TypeRef, TypeRefV, StructDef, FieldDef};
use crate::source::{SourceExpr, SourceExprKind, MetaItem};

verus! {

/// A symbol of an instruction handler (account field or local name).
#[derive(Debug, Clone, Copy, PartialEq, Eq, Hash, Structural)]
pub struct SymbolId(pub usize);

impl View for SymbolId {
    type V = SymbolId;

    open spec fn view(&self) -> SymbolId {
        *self
    }
}

/// One SSA version of a symbol.
#[derive(Debug, Clone, Copy, PartialEq, Eq, Hash, Structural)]
pub struct SSAVersionId {
    pub symbol_id: SymbolId,
    pub version: usize,
}

/// What a guard constrains.
#[derive(Debug, PartialEq, Eq)]
pub enum GuardTarget {
    Variable(SSAVersionId),
    Account(SymbolId),
    Literal(String),
}

/// A framework-neutral expression inside a guard.
#[derive(Debug, PartialEq, Eq)]
pub enum FactExpression {
    Target(GuardTarget),
    Literal(String),
    PropertyOf { target: GuardTarget, property: SolanaProperty },
    BinaryOp { op: String, lhs: Box<FactExpression>, rhs: Box<FactExpression> },
    Unknown,
}

/// Account properties of the Solana runtime.
#[derive(Debug, Clone, Copy, PartialEq, Eq, Hash, Structural)]
pub enum SolanaProperty {
    Address,
    Owner,
    Lamports,
    DataLength,
    IsSigner,
    IsWritable,
    Executable,
}

/// A security constraint known to hold.
#[derive(Debug, PartialEq, Eq)]
pub enum GuardFact {
    Signer(GuardTarget),
    Owner { account: GuardTarget, expected_owner: FactExpression },
    KeyRelation { account: GuardTarget, field: SolanaProperty, target: GuardTarget },
    PDA { account: GuardTarget, seeds: Vec<FactExpression>, bump: Option<FactExpression> },
    Initialized { account: GuardTarget, payer: GuardTarget, space: Option<FactExpression> },
    Resized { account: GuardTarget, new_size: FactExpression, payer: GuardTarget },
    Deallocated { account: GuardTarget, destination: GuardTarget },
    Custom { namespace: String, kind: String, payload: Vec<FactExpression> },
}

/// A pre-order interval of a node in a dominator-tree walk.
#[derive(Debug, Clone, Copy, PartialEq, Eq, Structural)]
pub struct DominanceInterval {
    pub dfs_entry: usize,
    pub dfs_exit: usize,
}

/// Where in the graph a fact was established.
#[derive(Debug, Clone, Copy, PartialEq, Eq, Structural)]
pub struct GuardFactLocation {
    pub node_id: usize,
    pub statement_index: Option<usize>,
    pub dominance_interval: DominanceInterval,
}

/// How a fact is known.
#[derive(Debug, Clone, Copy, PartialEq, Eq, Structural)]
pub enum FactConfidence {
    Declared,
    Asserted,
    Inconclusive,
}

/// Where a fact comes from.
#[derive(Debug, PartialEq, Eq)]
pub struct FactProvenance {
    pub source_file: String,
    pub line_number: usize,
    pub column_number: usize,
    pub framework: String,
    pub confidence_level: FactConfidence,
    pub node_id: Option<usize>,
    pub statement_index: Option<usize>,
}

// ---------------------------------------------------------------------------
// Models.

/// Model of a [`GuardTarget`].
pub enum TargetV {
    Variable(SSAVersionId),
    Account(SymbolId),
    Literal(Seq<char>),
}

impl View for GuardTarget {
    type V = TargetV;

    open spec fn view(&self) -> TargetV {
        match self {
            GuardTarget::Variable(v) => TargetV::Variable(*v),
            GuardTarget::Account(s) => TargetV::Account(*s),
            GuardTarget::Literal(s) => TargetV::Literal(s@),
        }
    }
}

/// Model of a [`FactExpression`].
pub enum FactExprV {
    Target(TargetV),
    Literal(Seq<char>),
    PropertyOf { target: TargetV, property: SolanaProperty },
    BinaryOp { op: Seq<char>, lhs: Box<FactExprV>, rhs: Box<FactExprV> },
    Unknown,
}

/// The model of a fact expression.
pub open spec fn fact_expr_view(e: FactExpression) -> FactExprV
    decreases e,
{
    match e {
        FactExpression::Target(t) => FactExprV::Target(t@),
        FactExpression::Literal(s) => FactExprV::Literal(s@),
        FactExpression::PropertyOf { target, property } => FactExprV::PropertyOf { target: target@, property },
        FactExpression::BinaryOp { op, lhs, rhs } =>
            FactExprV::BinaryOp { op: op@, lhs: Box::new(fact_expr_view(*lhs)), rhs: Box::new(fact_expr_view(*rhs)) },
        FactExpression::Unknown => FactExprV::Unknown,
    }
}

impl View for FactExpression {
    type V = FactExprV;

    open spec fn view(&self) -> FactExprV {
        fact_expr_view(*self)
    }
}

/// The models of a list of fact expressions.
pub open spec fn fact_exprs_view(v: Seq<FactExpression>) -> Seq<FactExprV> {
    Seq::new(v.len(), |i: int| v[i]@)
}

/// The model of an optional fact expression.
pub open spec fn opt_fact_view(o: Option<FactExpression>) -> Option<FactExprV> {
    match o {
        Some(e) => Some(e@),
        None => None,
    }
}

/// Model of a [`GuardFact`].
pub enum FactV {
    Signer(TargetV),
    Owner { account: TargetV, expected_owner: FactExprV },
    KeyRelation { account: TargetV, field: SolanaProperty, target: TargetV },
    PDA { account: TargetV, seeds: Seq<FactExprV>, bump: Option<FactExprV> },
    Initialized { account: TargetV, payer: TargetV, space: Option<FactExprV> },
    Resized { account: TargetV, new_size: FactExprV, payer: TargetV },
    Deallocated { account: TargetV, destination: TargetV },
    Custom { namespace: Seq<char>, kind: Seq<char>, payload: Seq<FactExprV> },
}

impl View for GuardFact {
    type V = FactV;

    open spec fn view(&self) -> FactV {
        match self {
            GuardFact::Signer(t) => FactV::Signer(t@),
            GuardFact::Owner { account, expected_owner } => FactV::Owner { account: account@, expected_owner: expected_owner@ },
            GuardFact::KeyRelation { account, field, target } => FactV::KeyRelation { account: account@, field: *field, target: target@ },
            GuardFact::PDA { account, seeds, bump } =>
                FactV::PDA { account: account@, seeds: fact_exprs_view(seeds@), bump: opt_fact_view(*bump) },
            GuardFact::Initialized { account, payer, space } =>
                FactV::Initialized { account: account@, payer: payer@, space: opt_fact_view(*space) },
            GuardFact::Resized { account, new_size, payer } =>
                FactV::Resized { account: account@, new_size: new_size@, payer: payer@ },
            GuardFact::Deallocated { account, destination } =>
                FactV::Deallocated { account: account@, destination: destination@ },
            GuardFact::Custom { namespace, kind, payload } =>
                FactV::Custom { namespace: namespace@, kind: kind@, payload: fact_exprs_view(payload@) },
        }
    }
}

/// Model of a [`FactProvenance`].
pub struct ProvV {
    pub source_file: Seq<char>,
    pub line_number: usize,
    pub column_number: usize,
    pub framework: Seq<char>,
    pub confidence_level: FactConfidence,
    pub node_id: Option<usize>,
    pub statement_index: Option<usize>,
}

impl View for FactProvenance {
    type V = ProvV;

    open spec fn view(&self) -> ProvV {
        ProvV {
            source_file: self.source_file@,
            line_number: self.line_number,
            column_number: self.column_number,
            framework: self.framework@,
            confidence_level: self.confidence_level,
            node_id: self.node_id,
            statement_index: self.statement_index,
        }
    }
}

/// The models of a list of facts with their provenance.
pub open spec fn facts_view(v: Seq<(GuardFact, FactProvenance)>) -> Seq<(FactV, ProvV)> {
    Seq::new(v.len(), |i: int| (v[i].0@, v[i].1@))
}

/// The symbol a target refers to, if any.
pub open spec fn target_symbol(t: TargetV) -> Option<SymbolId> {
    match t {
        TargetV::Variable(v) => Some(v.symbol_id),
        TargetV::Account(s) => Some(s),
        TargetV::Literal(_) => None,
    }
}

impl GuardTarget {
    /// The symbol this target refers to, if any.
    pub fn symbol_id(&self) -> (r: Option<SymbolId>)
        ensures
            r == target_symbol(self@),
    {
        match self {
            GuardTarget::Variable(v) => Some(v.symbol_id),
            GuardTarget::Account(s) => Some(*s),
            GuardTarget::Literal(_) => None,
        }
    }

    /// A copy of this target.
    pub fn copy(&self) -> (r: GuardTarget)
        ensures
            r@ == self@,
    {
        match self {
            GuardTarget::Variable(v) => GuardTarget::Variable(*v),
            GuardTarget::Account(s) => GuardTarget::Account(*s),
            GuardTarget::Literal(s) => GuardTarget::Literal(s.clone()),
        }
    }
}

impl FactExpression {
    /// A copy of this expression.
    pub fn copy(&self) -> (r: FactExpression)
        ensures
            r@ == self@,
        decreases self,
    {
        match self {
            FactExpression::Target(t) => FactExpression::Target(t.copy()),
            FactExpression::Literal(s) => FactExpression::Literal(s.clone()),
            FactExpression::PropertyOf { target, property } => FactExpression::PropertyOf { target: target.copy(), property: *property },
            FactExpression::BinaryOp { op, lhs, rhs } =>
                FactExpression::BinaryOp { op: op.clone(), lhs: Box::new(lhs.copy()), rhs: Box::new(rhs.copy()) },
            FactExpression::Unknown => FactExpression::Unknown,
        }
    }
}

/// The provenance of a fact declared on an Anchor accounts struct.
pub open spec fn declared_prov() -> ProvV {
    ProvV {
        source_file: "lib.rs"@,
        line_number: 0,
        column_number: 0,
        framework: "Anchor"@,
        confidence_level: FactConfidence::Declared,
        node_id: None,
        statement_index: None,
    }
}

impl FactProvenance {
    /// `lib.rs`, line 0, Anchor, declared, at no particular node.
    pub fn default_declared() -> (r: Self)
        ensures
            r@ == declared_prov(),
    {
        FactProvenance {
            source_file: crate::text::lit("lib.rs"),
            line_number: 0,
            column_number: 0,
            framework: crate::text::lit("Anchor"),
            confidence_level: FactConfidence::Declared,
            node_id: None,
            statement_index: None,
        }
    }

    /// A copy of this provenance.
    pub fn copy(&self) -> (r: Self)
        ensures
            r@ == self@,
    {
        FactProvenance {
            source_file: self.source_file.clone(),
            line_number: self.line_number,
            column_number: self.column_number,
            framework: self.framework.clone(),
            confidence_level: self.confidence_level,
            node_id: self.node_id,
            statement_index: self.statement_index,
        }
    }
}

/// The name handlers give their context parameter unless told otherwise.
pub fn default_context_var() -> (r: String)
    ensures
        r@ == "ctx"@,
{
    crate::text::lit("ctx")
}

/// The facts, control-flow graph and symbols of one instruction handler.
#[derive(Debug)]
pub struct InstructionAnalysisContext {
    pub name: String,
    pub guard_facts: Vec<(GuardFact, FactProvenance)>,
    pub cfg: crate::cfg::ControlFlowGraph,
    pub symbol_table: StrMap<SymbolId>,
    pub file_path: String,
    pub context_var_name: String,
}

/// Model of an [`InstructionAnalysisContext`].
pub struct CtxV {
    pub name: Seq<char>,
    pub facts: Seq<(FactV, ProvV)>,
    pub cfg: crate::cfg::GraphV,
    pub table: Seq<(Seq<char>, SymbolId)>,
    pub file: Seq<char>,
    pub ctx_var: Seq<char>,
}

impl View for InstructionAnalysisContext {
    type V = CtxV;

    open spec fn view(&self) -> CtxV {
        CtxV {
            name: self.name@,
            facts: facts_view(self.guard_facts@),
            cfg: self.cfg@,
            table: self.symbol_table.pairs(),
            file: self.file_path@,
            ctx_var: self.context_var_name@,
        }
    }
}

} // verus!

verus! {

// ---------------------------------------------------------------------------
// Anchor attribute text.

/// The scan state of [`preprocess_anchor_attribute_string`].
pub struct PreState {
    pub out: Seq<char>,
    pub depth: int,
    pub skipping: bool,
}

/// One character of the scan: `@ ...` error clauses at nesting depth 0 are
/// dropped up to the next top-level comma.
pub open spec fn pre_step(s: PreState, c: char) -> PreState {
    if c == '(' || c == '[' || c == '{' {
        PreState { out: if s.skipping { s.out } else { s.out.push(c) }, depth: s.depth + 1, skipping: s.skipping }
    } else if c == ')' || c == ']' || c == '}' {
        PreState { out: if s.skipping { s.out } else { s.out.push(c) }, depth: if s.depth > 0 { s.depth - 1 } else { 0 }, skipping: s.skipping }
    } else if c == '@' && s.depth == 0 {
        PreState { out: s.out, depth: s.depth, skipping: true }
    } else if c == ',' && s.depth == 0 {
        PreState { out: s.out.push(c), depth: s.depth, skipping: false }
    } else {
        PreState { out: if s.skipping { s.out } else { s.out.push(c) }, depth: s.depth, skipping: s.skipping }
    }
}

/// The scan over all of `cs`.
pub open spec fn pre_run(cs: Seq<char>) -> PreState
    decreases cs.len(),
{
    if cs.len() == 0 {
        PreState { out: Seq::empty(), depth: 0, skipping: false }
    } else {
        pre_step(pre_run(cs.drop_last()), cs.last())
    }
}

proof fn lemma_pre_run_depth(cs: Seq<char>)
    ensures
        0 <= pre_run(cs).depth <= cs.len(),
    decreases cs.len(),
{
    if cs.len() > 0 {
        lemma_pre_run_depth(cs.drop_last());
    }
}

/// Drops `@ error` clauses from the top level of an attribute's argument text.
pub fn preprocess_anchor_attribute_string(body: &str) -> (r: String)
    ensures
        r@ == pre_run(body@).out,
{
    let cs = crate::text::chars_of(body);
    let mut result = String::new();
    let mut depth: usize = 0;
    let mut skipping = false;
    let mut i: usize = 0;
    assert(cs@.take(0) =~= Seq::<char>::empty());
    while i < cs.len()
        invariant
            cs@ == body@,
            i <= cs@.len(),
            ({
                let s = pre_run(cs@.take(i as int));
                &&& result@ == s.out
                &&& depth as int == s.depth
                &&& skipping == s.skipping
            }),
        decreases cs@.len() - i,
    {
        proof {
            lemma_pre_run_depth(cs@.take(i as int));
        }
        let c = cs[i];
        assert(cs@.take(i + 1).drop_last() =~= cs@.take(i as int));
        assert(cs@.take(i + 1).last() == c);
        if c == '(' || c == '[' || c == '{' {
            depth = depth + 1;
            if !skipping {
                crate::text::push_char(&mut result, c);
            }
        } else if c == ')' || c == ']' || c == '}' {
            depth = if depth > 0 { depth - 1 } else { 0 };
            if !skipping {
                crate::text::push_char(&mut result, c);
            }
        } else if c == '@' && depth == 0 {
            skipping = true;
        } else if c == ',' && depth == 0 {
            skipping = false;
            crate::text::push_char(&mut result, c);
        } else if !skipping {
            crate::text::push_char(&mut result, c);
        }
        i += 1;
    }
    assert(cs@.take(cs@.len() as int) =~= cs@);
    result
}

/// The argument text of an `#[account(...)]` or `account(...)` attribute (else the text itself).
pub open spec fn attr_body(s: Seq<char>) -> Seq<char> {
    if s.len() >= 12 && crate::text::is_prefix("#[account("@, s) && crate::text::is_suffix(")]"@, s) {
        s.subrange(10, s.len() - 2)
    } else if s.len() >= 9 && crate::text::is_prefix("account("@, s) && crate::text::is_suffix(")"@, s) {
        s.subrange(8, s.len() - 1)
    } else {
        s
    }
}

/// Unicode white space (what `str::trim` removes).
pub open spec fn is_ws(c: char) -> bool {
    let u = c as u32;
    u == 0x20 || (0x09 <= u && u <= 0x0D) || u == 0x85 || u == 0xA0 || u == 0x1680
        || (0x2000 <= u && u <= 0x200A) || u == 0x2028 || u == 0x2029 || u == 0x202F || u == 0x205F || u == 0x3000
}

/// `s` without leading white space.
pub open spec fn trim_start(s: Seq<char>) -> Seq<char>
    decreases s.len(),
{
    if s.len() > 0 && is_ws(s[0]) { trim_start(s.drop_first()) } else { s }
}

/// `s` without trailing white space.
pub open spec fn trim_end(s: Seq<char>) -> Seq<char>
    decreases s.len(),
{
    if s.len() > 0 && is_ws(s.last()) { trim_end(s.drop_last()) } else { s }
}

/// A segment reads `writable` when it is the bare word `mut`.
pub open spec fn fix_segment(seg: Seq<char>) -> Seq<char> {
    if trim_end(trim_start(seg)) == "mut"@ { "writable"@ } else { seg }
}

/// The comma-separated segments of `s`, each fixed, re-joined by commas:
/// the done part and the segment being read, after `cs`.
pub open spec fn seg_run(cs: Seq<char>) -> (Seq<char>, Seq<char>)
    decreases cs.len(),
{
    if cs.len() == 0 {
        (Seq::empty(), Seq::empty())
    } else {
        let (done, cur) = seg_run(cs.drop_last());
        if cs.last() == ',' { (done + fix_segment(cur) + ","@, Seq::empty()) } else { (done, cur.push(cs.last())) }
    }
}

/// The attribute text with standalone `mut` segments written `writable`.
pub open spec fn fix_mut(s: Seq<char>) -> Seq<char> {
    seg_run(s).0 + fix_segment(seg_run(s).1)
}

/// The meta-list text an attribute is parsed from.
pub open spec fn meta_text(attr: Seq<char>) -> Seq<char> {
    fix_mut(pre_run(attr_body(attr)).out)
}

/// Whether `c` is Unicode white space.
pub(crate) fn is_ws_exec(c: char) -> (r: bool)
    ensures
        r == is_ws(c),
{
    let u = c as u32;
    u == 0x20 || (0x09 <= u && u <= 0x0D) || u == 0x85 || u == 0xA0 || u == 0x1680
        || (0x2000 <= u && u <= 0x200A) || u == 0x2028 || u == 0x2029 || u == 0x202F || u == 0x205F || u == 0x3000
}

/// Whether a segment, trimmed, is `mut`.
fn is_bare_mut(seg: &Vec<char>) -> (r: bool)
    ensures
        r == (trim_end(trim_start(seg@)) == "mut"@),
{
    let mut a: usize = 0;
    assert(seg@.skip(0) =~= seg@);
    while a < seg.len() && is_ws_exec(seg[a])
        invariant
            a <= seg@.len(),
            trim_start(seg@) == trim_start(seg@.skip(a as int)),
        decreases seg@.len() - a,
    {
        assert(seg@.skip(a as int).drop_first() =~= seg@.skip(a + 1));
        a += 1;
    }
    let mut b: usize = seg.len();
    let ghost t = seg@.skip(a as int);
    assert(t == trim_start(seg@));
    assert(t.take(t.len() as int) =~= t);
    while b > a && is_ws_exec(seg[b - 1])
        invariant
            a <= b <= seg@.len(),
            t == seg@.skip(a as int),
            trim_end(t) == trim_end(seg@.subrange(a as int, b as int)),
        decreases b,
    {
        assert(seg@.subrange(a as int, b as int).drop_last() =~= seg@.subrange(a as int, b - 1));
        b -= 1;
    }
    let ghost core = seg@.subrange(a as int, b as int);
    assert(trim_end(t) == core);
    proof {
        reveal_strlit("mut");
    }
    assert("mut"@ =~= seq!['m', 'u', 't']);
    if b - a != 3 {
        return false;
    }
    let r = seg[a] == 'm' && seg[a + 1] == 'u' && seg[a + 2] == 't';
    assert(core[0] == seg@[a as int] && core[1] == seg@[a + 1] && core[2] == seg@[a + 2]);
    assert(r == (core =~= seq!['m', 'u', 't']));
    r
}

/// The text an attribute's meta list is parsed from: the argument text of
/// `#[account(...)]`, without `@ error` clauses, with bare `mut` written `writable`.
pub fn attribute_meta_text(attr: &str) -> (r: String)
    ensures
        r@ == meta_text(attr@),
{
    let cs = crate::text::chars_of(attr);
    proof {
        reveal_strlit("#[account(");
        reveal_strlit(")]");
        reveal_strlit("account(");
        reveal_strlit(")");
        reveal_strlit("writable");
        reveal_strlit(",");
    }
    let body = if cs.len() >= 12 && crate::text::starts_with(attr, "#[account(") && crate::text::ends_with(attr, ")]") {
        crate::text::substring(&cs, 10, cs.len() - 2)
    } else if cs.len() >= 9 && crate::text::starts_with(attr, "account(") && crate::text::ends_with(attr, ")") {
        crate::text::substring(&cs, 8, cs.len() - 1)
    } else {
        crate::text::lit(attr)
    };
    assert(body@ == attr_body(attr@));
    let pre = preprocess_anchor_attribute_string(body.as_str());
    let pcs = crate::text::chars_of(pre.as_str());
    let mut done = String::new();
    let mut cur: Vec<char> = Vec::new();
    let mut i: usize = 0;
    assert(pcs@.take(0) =~= Seq::<char>::empty());
    while i < pcs.len()
        invariant
            pcs@ == pre@,
            i <= pcs@.len(),
            seg_run(pcs@.take(i as int)) == (done@, cur@),
        decreases pcs@.len() - i,
    {
        let c = pcs[i];
        assert(pcs@.take(i + 1).drop_last() =~= pcs@.take(i as int));
        assert(pcs@.take(i + 1).last() == c);
        let ghost d0 = done@;
        let ghost c0 = cur@;
        if c == ',' {
            assert(seg_run(pcs@.take(i + 1)) == (d0 + fix_segment(c0) + ","@, Seq::<char>::empty()));
            if is_bare_mut(&cur) {
                crate::text::push_lit(&mut done, "writable");
            } else {
                let s = crate::text::string_from_chars(cur.as_slice());
                crate::text::append_str(&mut done, s.as_str());
            }
            assert(done@ =~= d0 + fix_segment(c0));
            crate::text::push_char(&mut done, ',');
            proof {
                reveal_strlit(",");
            }
            assert(","@ =~= seq![',']);
            assert(done@ =~= d0 + fix_segment(c0) + ","@);
            cur = Vec::new();
            assert(cur@ =~= seg_run(pcs@.take(i + 1)).1);
        } else {
            cur.push(c);
        }
        i += 1;
    }
    assert(pcs@.take(pcs@.len() as int) =~= pcs@);
    if is_bare_mut(&cur) {
        crate::text::push_lit(&mut done, "writable");
    } else {
        let s = crate::text::string_from_chars(cur.as_slice());
        crate::text::append_str(&mut done, s.as_str());
    }
    done
}

} // verus!

verus! {

// ---------------------------------------------------------------------------
// Facts declared on an accounts struct: the model.

/// The account property a field name reads.
pub open spec fn property_of(member: Seq<char>) -> SolanaProperty {
    if member == "owner"@ {
        SolanaProperty::Owner
    } else if member == "lamports"@ {
        SolanaProperty::Lamports
    } else {
        SolanaProperty::Address
    }
}

/// The fact expression of a parsed expression: known symbols become
/// version-1 variables, field reads become account properties.
pub open spec fn conv_fact(e: SourceExpr, table: Seq<(Seq<char>, SymbolId)>) -> FactExprV
    decreases e,
{
    match e.kind {
        SourceExprKind::Path => match lookup(table, e.tokens()) {
            Some(s) => FactExprV::Target(TargetV::Variable(SSAVersionId { symbol_id: s, version: 1 })),
            None => FactExprV::Literal(e.tokens()),
        },
        SourceExprKind::Lit => FactExprV::Literal(e.tokens()),
        SourceExprKind::Field { base, member } => FactExprV::PropertyOf {
            target: match conv_fact(*base, table) {
                FactExprV::Target(t) => t,
                _ => TargetV::Literal(e.tokens() + ".base"@),
            },
            property: property_of(member@),
        },
        SourceExprKind::Binary { op, left, right } =>
            FactExprV::BinaryOp { op: crate::source::op_tokens(op@), lhs: Box::new(conv_fact(*left, table)), rhs: Box::new(conv_fact(*right, table)) },
        _ => FactExprV::Literal(e.tokens()),
    }
}

/// The target an expression names: its symbol, else its text.
pub open spec fn target_of(e: SourceExpr, table: Seq<(Seq<char>, SymbolId)>) -> TargetV {
    match conv_fact(e, table) {
        FactExprV::Target(t) => t,
        _ => TargetV::Literal(e.tokens()),
    }
}

/// Converts a parsed expression into a fact expression.
pub fn convert_syn_expr(expr: &SourceExpr, symbol_table: &StrMap<SymbolId>) -> (r: FactExpression)
    ensures
        r@ == conv_fact(*expr, symbol_table.pairs()),
    decreases expr,
{
    proof {
        reveal_strlit("owner");
        reveal_strlit("lamports");
    }
    match &expr.kind {
        SourceExprKind::Path => match symbol_table.get(expr.token_text().as_str()) {
            Some(s) => FactExpression::Target(GuardTarget::Variable(SSAVersionId { symbol_id: *s, version: 1 })),
            None => FactExpression::Literal(expr.token_text()),
        },
        SourceExprKind::Lit => FactExpression::Literal(expr.token_text()),
        SourceExprKind::Field { base, member } => {
            let b = convert_syn_expr(base, symbol_table);
            let target = match b {
                FactExpression::Target(t) => t,
                _ => {
                    let mut s = expr.token_text();
                    crate::text::push_lit(&mut s, ".base");
                    GuardTarget::Literal(s)
                },
            };
            let property = if crate::text::str_eq(member.as_str(), "owner") {
                SolanaProperty::Owner
            } else if crate::text::str_eq(member.as_str(), "lamports") {
                SolanaProperty::Lamports
            } else {
                SolanaProperty::Address
            };
            FactExpression::PropertyOf { target, property }
        },
        SourceExprKind::Binary { op, left, right } => FactExpression::BinaryOp {
            op: crate::syntax::strip_spaces(op.clone()),
            lhs: Box::new(convert_syn_expr(left, symbol_table)),
            rhs: Box::new(convert_syn_expr(right, symbol_table)),
        },
        _ => FactExpression::Literal(expr.token_text()),
    }
}

/// The target an expression names.
fn target_of_exec(expr: &SourceExpr, symbol_table: &StrMap<SymbolId>) -> (r: GuardTarget)
    ensures
        r@ == target_of(*expr, symbol_table.pairs()),
{
    match convert_syn_expr(expr, symbol_table) {
        FactExpression::Target(t) => t,
        _ => GuardTarget::Literal(expr.token_text()),
    }
}

/// The account type name inside `Option`s, for a custom type.
pub open spec fn account_type_name(t: TypeRefV) -> Option<Seq<char>>
    decreases t,
{
    match t {
        TypeRefV::Option(inner) => account_type_name(*inner),
        TypeRefV::Custom(n) => Some(n),
        _ => None,
    }
}

/// The custom type name a field's type wraps (through `Option`s).
pub fn unwrap_account_type(type_ref: &TypeRef) -> (r: Option<String>)
    ensures
        match r {
            Some(s) => account_type_name(type_ref@) == Some(s@),
            None => account_type_name(type_ref@) is None,
        },
    decreases type_ref,
{
    match type_ref {
        TypeRef::Option(inner) => unwrap_account_type(inner),
        TypeRef::Custom(n) => Some(n.clone()),
        _ => None,
    }
}

/// Anchor account wrappers whose owner is checked against the program.
pub open spec fn owner_checked_wrapper(ct: Seq<char>) -> bool {
    ct == "Account"@ || crate::text::is_prefix("Account<"@, ct)
        || ct == "AccountLoader"@ || crate::text::is_prefix("AccountLoader<"@, ct)
        || ct == "InterfaceAccount"@ || crate::text::is_prefix("InterfaceAccount<"@, ct)
}

/// Position of the first PDA fact, or -1.
pub open spec fn first_pda(facts: Seq<(FactV, ProvV)>) -> int
    decreases facts.len(),
{
    if facts.len() == 0 {
        -1
    } else {
        let k = first_pda(facts.drop_last());
        if k >= 0 { k } else if facts.last().0 is PDA { facts.len() - 1 } else { -1 }
    }
}

/// The facts with the first PDA fact's bump set to `b` (unchanged without one).
pub open spec fn set_bump(facts: Seq<(FactV, ProvV)>, b: Option<FactExprV>) -> Seq<(FactV, ProvV)> {
    let k = first_pda(facts);
    if k >= 0 {
        match facts[k].0 {
            FactV::PDA { account, seeds, .. } => facts.update(k, (FactV::PDA { account, seeds, bump: b }, facts[k].1)),
            _ => facts,
        }
    } else {
        facts
    }
}

/// The state while reading one attribute: facts so far, whether it
/// initialises the account, its payer and space.
pub struct AttrState {
    pub facts: Seq<(FactV, ProvV)>,
    pub is_init: bool,
    pub payer: Option<TargetV>,
    pub space: Option<FactExprV>,
}

/// One declared fact.
pub open spec fn with_fact(st: AttrState, f: FactV) -> AttrState {
    AttrState { facts: st.facts.push((f, declared_prov())), ..st }
}

/// The effect of one attribute entry on account `acc`.
pub open spec fn apply_meta(st: AttrState, acc: TargetV, item: MetaItem, table: Seq<(Seq<char>, SymbolId)>) -> AttrState {
    match item {
        MetaItem::Path { ident: Some(id) } => {
            if id@ == "writable"@ {
                with_fact(st, FactV::KeyRelation { account: acc, field: SolanaProperty::IsWritable, target: TargetV::Literal("true"@) })
            } else if id@ == "signer"@ {
                with_fact(st, FactV::Signer(acc))
            } else if id@ == "init"@ {
                AttrState { is_init: true, ..st }
            } else if id@ == "bump"@ {
                AttrState { facts: set_bump(st.facts, None), ..st }
            } else {
                st
            }
        },
        MetaItem::NameValue { ident: Some(id), value } => {
            if id@ == "owner"@ {
                with_fact(st, FactV::Owner { account: acc, expected_owner: conv_fact(value, table) })
            } else if id@ == "has_one"@ {
                with_fact(st, FactV::KeyRelation { account: acc, field: SolanaProperty::Address, target: target_of(value, table) })
            } else if id@ == "close"@ {
                with_fact(st, FactV::Deallocated { account: acc, destination: target_of(value, table) })
            } else if id@ == "seeds"@ {
                with_fact(st, FactV::PDA { account: acc, seeds: seq![conv_fact(value, table)], bump: None })
            } else if id@ == "bump"@ {
                AttrState { facts: set_bump(st.facts, Some(conv_fact(value, table))), ..st }
            } else if id@ == "realloc"@ {
                with_fact(st, FactV::Resized { account: acc, new_size: conv_fact(value, table), payer: TargetV::Literal("payer"@) })
            } else if id@ == "space"@ {
                AttrState { space: Some(conv_fact(value, table)), ..st }
            } else if id@ == "payer"@ {
                AttrState { payer: Some(target_of(value, table)), ..st }
            } else {
                st
            }
        },
        _ => st,
    }
}

/// The effect of the first `k` entries of an attribute.
pub open spec fn apply_metas(st: AttrState, acc: TargetV, items: Seq<MetaItem>, table: Seq<(Seq<char>, SymbolId)>, k: int) -> AttrState
    decreases k,
{
    if k <= 0 {
        st
    } else {
        apply_meta(apply_metas(st, acc, items, table, k - 1), acc, items[k - 1], table)
    }
}

/// The facts after one attribute of account `acc`: its entries (as `syn`
/// parses its meta text, none when that does not parse), then the
/// initialisation fact.
pub open spec fn attr_facts(facts: Seq<(FactV, ProvV)>, acc: TargetV, attr: Seq<char>,
    table: Seq<(Seq<char>, SymbolId)>) -> Seq<(FactV, ProvV)>
{
    let items = match crate::syntax::meta_items_of(meta_text(attr)) { Some(v) => v, None => Seq::empty() };
    let st = apply_metas(AttrState { facts, is_init: false, payer: None, space: None }, acc, items, table, items.len() as int);
    if st.is_init {
        st.facts.push((FactV::Initialized {
            account: acc,
            payer: match st.payer { Some(p) => p, None => TargetV::Literal("payer"@) },
            space: st.space,
        }, declared_prov()))
    } else {
        st.facts
    }
}

/// The facts after the first `k` attributes of a field.
pub open spec fn attrs_facts(facts: Seq<(FactV, ProvV)>, acc: TargetV, attrs: Seq<Seq<char>>,
    table: Seq<(Seq<char>, SymbolId)>, k: int) -> Seq<(FactV, ProvV)>
    decreases k,
{
    if k <= 0 {
        facts
    } else {
        attr_facts(attrs_facts(facts, acc, attrs, table, k - 1), acc, attrs[k - 1], table)
    }
}

/// The facts of one field: an implicit owner check for owner-checked
/// account wrappers, then those of its attributes.
pub open spec fn field_facts(facts: Seq<(FactV, ProvV)>, f: crate::types::FieldV,
    table: Seq<(Seq<char>, SymbolId)>) -> Seq<(FactV, ProvV)>
{
    let acc = TargetV::Account(lookup(table, f.name)->Some_0);
    let f1 = match account_type_name(f.type_ref) {
        Some(ct) => if owner_checked_wrapper(ct) {
            facts.push((FactV::Owner { account: acc, expected_owner: FactExprV::Literal("program_id"@) }, declared_prov()))
        } else {
            facts
        },
        None => facts,
    };
    attrs_facts(f1, acc, f.attrs, table, f.attrs.len() as int)
}

/// The facts of the first `k` fields.
pub open spec fn fields_facts(fs: Seq<crate::types::FieldV>, table: Seq<(Seq<char>, SymbolId)>, k: int)
    -> Seq<(FactV, ProvV)>
    decreases k,
{
    if k <= 0 {
        Seq::empty()
    } else {
        field_facts(fields_facts(fs, table, k - 1), fs[k - 1], table)
    }
}

/// The symbol table after giving each new field name of `fs[..k]` the next id.
pub open spec fn register_fields(table: Seq<(Seq<char>, SymbolId)>, next: usize, fs: Seq<crate::types::FieldV>, k: int)
    -> (Seq<(Seq<char>, SymbolId)>, int)
    decreases k,
{
    if k <= 0 {
        (table, next as int)
    } else {
        let (t, n) = register_fields(table, next, fs, k - 1);
        if has_key(t, fs[k - 1].name) { (t, n) } else { (assoc_insert(t, fs[k - 1].name, SymbolId(n as usize)), n + 1) }
    }
}

} // verus!

verus! {

proof fn lemma_first_pda_prefix(s: Seq<(FactV, ProvV)>, k: int)
    requires
        0 <= k <= s.len(),
        first_pda(s.take(k)) >= 0,
    ensures
        first_pda(s) == first_pda(s.take(k)),
    decreases s.len() - k,
{
    if k < s.len() {
        assert(s.take(k + 1).drop_last() =~= s.take(k));
        lemma_first_pda_prefix(s, k + 1);
    } else {
        assert(s.take(k) =~= s);
    }
}

proof fn lemma_first_pda_bounds(s: Seq<(FactV, ProvV)>)
    ensures
        -1 <= first_pda(s) < s.len(),
        first_pda(s) >= 0 ==> s[first_pda(s)].0 is PDA,
    decreases s.len(),
{
    if s.len() > 0 {
        lemma_first_pda_bounds(s.drop_last());
    }
}

/// A copy of a list of fact expressions.
fn copy_fact_exprs(v: &Vec<FactExpression>) -> (r: Vec<FactExpression>)
    ensures
        fact_exprs_view(r@) == fact_exprs_view(v@),
{
    let mut out: Vec<FactExpression> = Vec::new();
    let mut i: usize = 0;
    while i < v.len()
        invariant
            i <= v@.len(),
            out@.len() == i,
            forall|j: int| 0 <= j < i ==> #[trigger] out@[j]@ == v@[j]@,
        decreases v@.len() - i,
    {
        out.push(v[i].copy());
        i += 1;
    }
    assert(fact_exprs_view(out@) =~= fact_exprs_view(v@));
    out
}

/// Sets the bump of the first PDA fact.
fn set_bump_exec(facts: &mut Vec<(GuardFact, FactProvenance)>, b: Option<FactExpression>)
    ensures
        facts_view(final(facts)@) == set_bump(facts_view(old(facts)@), opt_fact_view(b)),
{
    let ghost fv = facts_view(facts@);
    let mut i: usize = 0;
    assert(fv.take(0) =~= Seq::<(FactV, ProvV)>::empty());
    while i < facts.len()
        invariant
            fv == facts_view(facts@),
            facts@ == old(facts)@,
            i <= facts@.len(),
            first_pda(fv.take(i as int)) == -1,
        decreases facts@.len() - i,
    {
        assert(fv.take(i + 1).drop_last() =~= fv.take(i as int));
        assert(fv.take(i + 1).last() == fv[i as int]);
        match &facts[i].0 {
            GuardFact::PDA { account, seeds, .. } => {
                proof {
                    lemma_first_pda_prefix(fv, i + 1);
                }
                let nf = GuardFact::PDA { account: account.copy(), seeds: copy_fact_exprs(seeds), bump: b };
                let np = facts[i].1.copy();
                facts.set(i, (nf, np));
                assert(facts_view(facts@) =~= set_bump(fv, opt_fact_view(b)));
                return;
            },
            _ => {},
        }
        i += 1;
    }
    assert(fv.take(facts@.len() as int) =~= fv);
}

/// The model of the state while reading an attribute.
pub open spec fn attr_state(facts: Seq<(GuardFact, FactProvenance)>, is_init: bool, payer: Option<GuardTarget>, space: Option<FactExpression>) -> AttrState {
    AttrState {
        facts: facts_view(facts),
        is_init,
        payer: match payer { Some(p) => Some(p@), None => None },
        space: opt_fact_view(space),
    }
}

/// Applies one attribute entry of account `acc`.
fn apply_meta_exec(facts: &mut Vec<(GuardFact, FactProvenance)>, is_init: &mut bool, payer: &mut Option<GuardTarget>,
    space: &mut Option<FactExpression>, acc: &GuardTarget, item: &MetaItem, symbol_table: &StrMap<SymbolId>)
    ensures
        apply_meta(attr_state(old(facts)@, *old(is_init), *old(payer), *old(space)), acc@, *item, symbol_table.pairs())
            == attr_state(final(facts)@, *final(is_init), *final(payer), *final(space)),
{
    proof {
        reveal_strlit("writable");
        reveal_strlit("signer");
        reveal_strlit("init");
        reveal_strlit("bump");
        reveal_strlit("owner");
        reveal_strlit("has_one");
        reveal_strlit("close");
        reveal_strlit("seeds");
        reveal_strlit("realloc");
        reveal_strlit("space");
        reveal_strlit("payer");
    }
    let ghost f0 = facts_view(facts@);
    match item {
        MetaItem::Path { ident: Some(id) } => {
            let s = id.as_str();
            if crate::text::str_eq(s, "writable") {
                facts.push((GuardFact::KeyRelation { account: acc.copy(), field: SolanaProperty::IsWritable, target: GuardTarget::Literal(crate::text::lit("true")) },
                    FactProvenance::default_declared()));
                assert(facts_view(facts@) =~= f0.push((facts@.last().0@, declared_prov())));
            } else if crate::text::str_eq(s, "signer") {
                facts.push((GuardFact::Signer(acc.copy()), FactProvenance::default_declared()));
                assert(facts_view(facts@) =~= f0.push((facts@.last().0@, declared_prov())));
            } else if crate::text::str_eq(s, "init") {
                *is_init = true;
            } else if crate::text::str_eq(s, "bump") {
                set_bump_exec(facts, None);
            }
        },
        MetaItem::NameValue { ident: Some(id), value } => {
            let s = id.as_str();
            if crate::text::str_eq(s, "owner") {
                facts.push((GuardFact::Owner { account: acc.copy(), expected_owner: convert_syn_expr(value, symbol_table) },
                    FactProvenance::default_declared()));
                assert(facts_view(facts@) =~= f0.push((facts@.last().0@, declared_prov())));
            } else if crate::text::str_eq(s, "has_one") {
                facts.push((GuardFact::KeyRelation { account: acc.copy(), field: SolanaProperty::Address, target: target_of_exec(value, symbol_table) },
                    FactProvenance::default_declared()));
                assert(facts_view(facts@) =~= f0.push((facts@.last().0@, declared_prov())));
            } else if crate::text::str_eq(s, "close") {
                facts.push((GuardFact::Deallocated { account: acc.copy(), destination: target_of_exec(value, symbol_table) },
                    FactProvenance::default_declared()));
                assert(facts_view(facts@) =~= f0.push((facts@.last().0@, declared_prov())));
            } else if crate::text::str_eq(s, "seeds") {
                let mut seeds: Vec<FactExpression> = Vec::new();
                seeds.push(convert_syn_expr(value, symbol_table));
                assert(fact_exprs_view(seeds@) =~= seq![conv_fact(*value, symbol_table.pairs())]);
                facts.push((GuardFact::PDA { account: acc.copy(), seeds, bump: None }, FactProvenance::default_declared()));
                assert(facts_view(facts@) =~= f0.push((facts@.last().0@, declared_prov())));
            } else if crate::text::str_eq(s, "bump") {
                set_bump_exec(facts, Some(convert_syn_expr(value, symbol_table)));
            } else if crate::text::str_eq(s, "realloc") {
                facts.push((GuardFact::Resized { account: acc.copy(), new_size: convert_syn_expr(value, symbol_table),
                    payer: GuardTarget::Literal(crate::text::lit("payer")) }, FactProvenance::default_declared()));
                assert(facts_view(facts@) =~= f0.push((facts@.last().0@, declared_prov())));
            } else if crate::text::str_eq(s, "space") {
                *space = Some(convert_syn_expr(value, symbol_table));
            } else if crate::text::str_eq(s, "payer") {
                *payer = Some(target_of_exec(value, symbol_table));
            }
        },
        _ => {},
    }
}

/// Adds the facts of one attribute of account `acc`.
fn attr_facts_exec(facts: &mut Vec<(GuardFact, FactProvenance)>, acc: &GuardTarget, attr: &String,
    symbol_table: &StrMap<SymbolId>)
    ensures
        facts_view(final(facts)@) == attr_facts(facts_view(old(facts)@), acc@, attr@, symbol_table.pairs()),
{
    let text = attribute_meta_text(attr.as_str());
    let parsed = crate::syntax::parse_meta_items(text.as_str());
    let items: Vec<MetaItem> = match parsed {
        Some(v) => v,
        None => Vec::new(),
    };
    let ghost iv = items@;
    assert(iv == match crate::syntax::meta_items_of(meta_text(attr@)) { Some(v) => v, None => Seq::<MetaItem>::empty() });
    let mut is_init = false;
    let mut payer: Option<GuardTarget> = None;
    let mut space: Option<FactExpression> = None;
    let ghost st0 = AttrState { facts: facts_view(facts@), is_init: false, payer: None, space: None };
    let mut k: usize = 0;
    while k < items.len()
        invariant
            iv == items@,
            k <= iv.len(),
            apply_metas(st0, acc@, iv, symbol_table.pairs(), k as int) == attr_state(facts@, is_init, payer, space),
        decreases iv.len() - k,
    {
        apply_meta_exec(facts, &mut is_init, &mut payer, &mut space, acc, &items[k], symbol_table);
        k += 1;
    }
    if is_init {
        let p = match payer {
            Some(p) => p,
            None => GuardTarget::Literal(crate::text::lit("payer")),
        };
        let ghost f0 = facts_view(facts@);
        facts.push((GuardFact::Initialized { account: acc.copy(), payer: p, space }, FactProvenance::default_declared()));
        assert(facts_view(facts@) =~= f0.push((facts@.last().0@, declared_prov())));
    }
}

/// Registers the fields of an Anchor accounts struct as symbols (new names
/// take consecutive ids from `next_symbol_id`) and translates their types and
/// `#[account(...)]` attributes (their [`attribute_meta_text`] parsed by
/// `syn`) into guard facts.
pub fn extract_guards_from_accounts_struct(struct_def: &StructDef, symbol_table: &mut StrMap<SymbolId>, next_symbol_id: &mut usize)
    -> (r: Vec<(GuardFact, FactProvenance)>)
    requires
        *old(next_symbol_id) + struct_def.fields@.len() <= usize::MAX,
    ensures
        (final(symbol_table).pairs(), *final(next_symbol_id) as int)
            == register_fields(old(symbol_table).pairs(), *old(next_symbol_id), struct_def@.fields, struct_def@.fields.len() as int),
        facts_view(r@) == fields_facts(struct_def@.fields, final(symbol_table).pairs(), struct_def@.fields.len() as int),
{
    let ghost fs = struct_def@.fields;
    let ghost t0 = symbol_table.pairs();
    let ghost n0 = *next_symbol_id;
    let mut i: usize = 0;
    while i < struct_def.fields.len()
        invariant
            fs == struct_def@.fields,
            fs.len() == struct_def.fields@.len(),
            i <= fs.len(),
            t0 == old(symbol_table).pairs(),
            n0 == *old(next_symbol_id),
            n0 + fs.len() <= usize::MAX,
            (symbol_table.pairs(), *next_symbol_id as int) == register_fields(t0, n0, fs, i as int),
            *next_symbol_id <= n0 + i,
            forall|j: int| 0 <= j < i ==> has_key(symbol_table.pairs(), #[trigger] fs[j].name),
        decreases fs.len() - i,
    {
        let name = &struct_def.fields[i].name;
        assert(fs[i as int].name == name@);
        if !symbol_table.contains_key(name.as_str()) {
            let ghost tp = symbol_table.pairs();
            let _ = symbol_table.len();
            proof {
                crate::maps::lemma_assoc_insert(tp, name@, SymbolId(*next_symbol_id));
            }
            symbol_table.insert(name.clone(), SymbolId(*next_symbol_id));
            *next_symbol_id = *next_symbol_id + 1;
            assert forall|j: int| 0 <= j < i + 1 implies has_key(symbol_table.pairs(), #[trigger] fs[j].name) by {
                if j < i {
                    assert(has_key(tp, fs[j].name));
                    if fs[j].name != name@ {
                        assert(lookup(symbol_table.pairs(), fs[j].name) == lookup(tp, fs[j].name));
                    }
                }
                assert(lookup(symbol_table.pairs(), name@) is Some);
            }
        }
        i += 1;
    }
    let table: &StrMap<SymbolId> = symbol_table;
    let mut facts: Vec<(GuardFact, FactProvenance)> = Vec::new();
    let mut k: usize = 0;
    assert(facts_view(facts@) =~= Seq::<(FactV, ProvV)>::empty());
    while k < struct_def.fields.len()
        invariant
            fs == struct_def@.fields,
            fs.len() == struct_def.fields@.len(),
            k <= fs.len(),
            forall|j: int| 0 <= j < fs.len() ==> has_key(table.pairs(), #[trigger] fs[j].name),
            facts_view(facts@) == fields_facts(fs, table.pairs(), k as int),
        decreases fs.len() - k,
    {
        let field = &struct_def.fields[k];
        assert(fs[k as int] == field@);
        assert(has_key(table.pairs(), fs[k as int].name));
        assert(has_key(table.pairs(), field.name@));
        let sym = match table.get(field.name.as_str()) {
            Some(s) => *s,
            None => SymbolId(0),
        };
        let acc = GuardTarget::Account(sym);
        proof {
            reveal_strlit("Account");
            reveal_strlit("Account<");
            reveal_strlit("AccountLoader");
            reveal_strlit("AccountLoader<");
            reveal_strlit("InterfaceAccount");
            reveal_strlit("InterfaceAccount<");
        }
        match unwrap_account_type(&field.type_ref) {
            Some(ct) => {
                let c = ct.as_str();
                if crate::text::str_eq(c, "Account") || crate::text::starts_with(c, "Account<")
                    || crate::text::str_eq(c, "AccountLoader") || crate::text::starts_with(c, "AccountLoader<")
                    || crate::text::str_eq(c, "InterfaceAccount") || crate::text::starts_with(c, "InterfaceAccount<") {
                    let ghost f0 = facts_view(facts@);
                    facts.push((GuardFact::Owner { account: acc.copy(), expected_owner: FactExpression::Literal(crate::text::lit("program_id")) },
                        FactProvenance::default_declared()));
                    assert(facts_view(facts@) =~= f0.push((facts@.last().0@, declared_prov())));
                }
            },
            None => {},
        }
        let ghost f1 = facts_view(facts@);
        let mut a: usize = 0;
        while a < field.attrs.len()
            invariant
                k < fs.len(),
                field@ == fs[k as int],
                a <= field.attrs@.len(),
                facts_view(facts@) == attrs_facts(f1, acc@, field@.attrs, table.pairs(), a as int),
            decreases field.attrs@.len() - a,
        {
            assert(field@.attrs[a as int] == field.attrs@[a as int]@);
            attr_facts_exec(&mut facts, &acc, &field.attrs[a], table);
            a += 1;
        }
        k += 1;
    }
    facts
}

} // verus!

verus! {

// ---------------------------------------------------------------------------
// Owner checks written as code: the model.

/// The text of an expression tree, as owner checks quote it.
pub open spec fn expr_text(e: crate::ast::ExprV) -> Seq<char>
    decreases e,
{
    match e {
        crate::ast::ExprV::Identifier(n) => n,
        crate::ast::ExprV::Literal(v) => v,
        crate::ast::ExprV::FieldAccess { object, field } => expr_text(*object) + "."@ + field,
        crate::ast::ExprV::MethodCall { object, method, .. } => expr_text(*object) + "."@ + method + "()"@,
        crate::ast::ExprV::Reference { expression, .. } => expr_text(*expression),
        crate::ast::ExprV::Dereference(x) => expr_text(*x),
        _ => "unknown"@,
    }
}

/// `s` without a leading `ctx.accounts.`.
pub open spec fn strip_accounts(s: Seq<char>) -> Seq<char> {
    if crate::text::is_prefix("ctx.accounts."@, s) { s.subrange(13, s.len() as int) } else { s }
}

/// The account whose `.owner` an expression reads.
pub open spec fn owner_field_account(e: crate::ast::ExprV) -> Option<Seq<char>> {
    match e {
        crate::ast::ExprV::FieldAccess { object, field } => if field == "owner"@ { Some(strip_accounts(expr_text(*object))) } else { None },
        _ => None,
    }
}

/// An owner comparison: the account, the expected owner's text and the operator.
pub open spec fn owner_check(e: crate::ast::ExprV) -> Option<(Seq<char>, Seq<char>, Seq<char>)> {
    match e {
        crate::ast::ExprV::BinaryOp { op, lhs, rhs } => if op == "=="@ || op == "!="@ {
            match owner_field_account(*lhs) {
                Some(a) => Some((a, expr_text(*rhs), op)),
                None => match owner_field_account(*rhs) {
                    Some(a) => Some((a, expr_text(*lhs), op)),
                    None => None,
                },
            }
        } else {
            None
        },
        _ => None,
    }
}

/// The target of the first edge out of `from` that does not go to `to`.
pub open spec fn other_target(edges: Seq<crate::cfg::EdgeV>, from: usize, to: usize) -> Option<usize>
    decreases edges.len(),
{
    if edges.len() == 0 {
        None
    } else if edges[0].from == from && edges[0].to != to {
        Some(edges[0].to)
    } else {
        other_target(edges.drop_first(), from, to)
    }
}

/// Provenance of an owner check found in the code.
pub open spec fn asserted_prov(file: Seq<char>, line: usize, node: Option<usize>, stmt: Option<usize>) -> ProvV {
    ProvV {
        source_file: file,
        line_number: line,
        column_number: 0,
        framework: "Anchor"@,
        confidence_level: FactConfidence::Asserted,
        node_id: node,
        statement_index: stmt,
    }
}

/// The fact a branch condition establishes: `a.owner != X` whose branch
/// cannot reach the other one (it returns) establishes the owner on the other
/// branch; `a.owner == X` whose other branch cannot reach this one
/// establishes it on this branch.
pub open spec fn edge_fact(edges: Seq<crate::cfg::EdgeV>, e: crate::cfg::EdgeV, table: Seq<(Seq<char>, SymbolId)>, file: Seq<char>)
    -> Seq<(FactV, ProvV)>
{
    match e.condition {
        Some(c) => match owner_check(c) {
            Some((acc, expected, op)) => match lookup(table, acc) {
                Some(sym) => match other_target(edges, e.from, e.to) {
                    Some(en) => {
                        let f = FactV::Owner { account: TargetV::Account(sym), expected_owner: FactExprV::Literal(expected) };
                        if op == "!="@ {
                            if !crate::reach::reaches(edges, e.to, en, None) { seq![(f, asserted_prov(file, 0, Some(en), None))] } else { Seq::empty() }
                        } else if op == "=="@ {
                            if !crate::reach::reaches(edges, en, e.to, None) { seq![(f, asserted_prov(file, 0, Some(e.to), None))] } else { Seq::empty() }
                        } else {
                            Seq::empty()
                        }
                    },
                    None => Seq::empty(),
                },
                None => Seq::empty(),
            },
            None => Seq::empty(),
        },
        None => Seq::empty(),
    }
}

/// The facts of the first `k` edges.
pub open spec fn edge_facts(edges: Seq<crate::cfg::EdgeV>, table: Seq<(Seq<char>, SymbolId)>, file: Seq<char>, k: int) -> Seq<(FactV, ProvV)>
    decreases k,
{
    if k <= 0 {
        Seq::empty()
    } else {
        edge_facts(edges, table, file, k - 1) + edge_fact(edges, edges[k - 1], table, file)
    }
}

} // verus!

verus! {

/// `s` split at every `c`: the finished parts, and the part being read.
pub open spec fn split_run(s: Seq<char>, c: char) -> (Seq<Seq<char>>, Seq<char>)
    decreases s.len(),
{
    if s.len() == 0 {
        (Seq::empty(), Seq::empty())
    } else {
        let (d, cur) = split_run(s.drop_last(), c);
        if s.last() == c { (d.push(cur), Seq::empty()) } else { (d, cur.push(s.last())) }
    }
}

/// The parts of `s` between the occurrences of `c` (as `str::split` yields them).
pub open spec fn split_on(s: Seq<char>, c: char) -> Seq<Seq<char>> {
    split_run(s, c).0.push(split_run(s, c).1)
}

/// `s` without its spaces.
pub open spec fn no_spaces(s: Seq<char>) -> Seq<char>
    decreases s.len(),
{
    if s.len() == 0 {
        Seq::empty()
    } else {
        no_spaces(s.drop_last()) + if s.last() == ' ' { Seq::empty() } else { seq![s.last()] }
    }
}

/// The parts of a macro's argument text, split at commas, spaces removed:
/// the texts owner assertions are parsed from.
pub open spec fn macro_arg_texts(raw: Seq<char>) -> Seq<Seq<char>> {
    Seq::new(split_on(raw, ',').len(), |i: int| no_spaces(split_on(raw, ',')[i]))
}

/// The account a parsed `<base>.owner` expression reads (as its quoted text gives it).
pub open spec fn owner_from_src(e: SourceExpr) -> Option<Seq<char>> {
    match e.kind {
        SourceExprKind::Field { member, .. } => if member@ == "owner"@ { Some(strip_accounts(e.tokens() + ".base"@)) } else { None },
        _ => None,
    }
}

/// The owner fact for account `acc` checked against `expected` at a statement.
pub open spec fn asserted_owner(table: Seq<(Seq<char>, SymbolId)>, acc: Seq<char>, expected: Seq<char>, file: Seq<char>,
    line: usize, node: usize, idx: usize) -> Seq<(FactV, ProvV)>
{
    match lookup(table, acc) {
        Some(sym) => seq![(FactV::Owner { account: TargetV::Account(sym), expected_owner: FactExprV::Literal(expected) },
            asserted_prov(file, line, Some(node), Some(idx)))],
        None => Seq::empty(),
    }
}

/// The fact of an equality between `a` and `b`, one of which reads an owner.
pub open spec fn owner_equality(a: SourceExpr, b: SourceExpr, table: Seq<(Seq<char>, SymbolId)>, file: Seq<char>,
    line: usize, node: usize, idx: usize) -> Seq<(FactV, ProvV)>
{
    match owner_from_src(a) {
        Some(acc) => asserted_owner(table, acc, b.tokens(), file, line, node, idx),
        None => match owner_from_src(b) {
            Some(acc) => asserted_owner(table, acc, a.tokens(), file, line, node, idx),
            None => Seq::empty(),
        },
    }
}

/// The facts of an assertion macro at statement `idx` of node `node`:
/// `require!`/`assert!` of an owner equality, or
/// `assert_eq!`/`require_keys_eq!`/`require_eq!` of an owner and another value.
/// The argument texts are parsed by `syn` as expressions.
pub open spec fn macro_fact(table: Seq<(Seq<char>, SymbolId)>, file: Seq<char>,
    node: usize, idx: usize, st: crate::ast::StmtV) -> Seq<(FactV, ProvV)>
{
    match st.kind {
        crate::ast::StmtKindV::MacroCall { name, raw_args } => {
            let parts = macro_arg_texts(raw_args);
            if name == "require"@ || name == "assert"@ {
                match crate::syntax::expr_of_text(parts[0]) {
                    Some(x) => match x.kind {
                        SourceExprKind::Binary { op, left, right } => if crate::source::op_tokens(op@) == "=="@ {
                            owner_equality(*left, *right, table, file, st.line_number, node, idx)
                        } else {
                            Seq::empty()
                        },
                        _ => Seq::empty(),
                    },
                    None => Seq::empty(),
                }
            } else if name == "assert_eq"@ || name == "require_keys_eq"@ || name == "require_eq"@ {
                if parts.len() >= 2 {
                    match (crate::syntax::expr_of_text(parts[0]), crate::syntax::expr_of_text(parts[1])) {
                        (Some(e1), Some(e2)) => owner_equality(e1, e2, table, file, st.line_number, node, idx),
                        _ => Seq::empty(),
                    }
                } else {
                    Seq::empty()
                }
            } else {
                Seq::empty()
            }
        },
        _ => Seq::empty(),
    }
}

/// The facts of the first `k` statements of node `node`.
pub open spec fn node_macro_facts(table: Seq<(Seq<char>, SymbolId)>, file: Seq<char>,
    node: usize, ss: Seq<crate::ast::StmtV>, k: int) -> Seq<(FactV, ProvV)>
    decreases k,
{
    if k <= 0 {
        Seq::empty()
    } else {
        node_macro_facts(table, file, node, ss, k - 1) + macro_fact(table, file, node, (k - 1) as usize, ss[k - 1])
    }
}

/// The facts of the assertion macros of the first `k` nodes.
pub open spec fn macro_facts(table: Seq<(Seq<char>, SymbolId)>, file: Seq<char>,
    nodes: Seq<(usize, crate::cfg::NodeV)>, k: int) -> Seq<(FactV, ProvV)>
    decreases k,
{
    if k <= 0 {
        Seq::empty()
    } else {
        let (id, n) = nodes[k - 1];
        macro_facts(table, file, nodes, k - 1) + node_macro_facts(table, file, id, n.statements, n.statements.len() as int)
    }
}

/// All owner checks written as code in a handler.
pub open spec fn imperative_facts(g: crate::cfg::GraphV, table: Seq<(Seq<char>, SymbolId)>, file: Seq<char>)
    -> Seq<(FactV, ProvV)>
{
    edge_facts(g.edges, table, file, g.edges.len() as int) + macro_facts(table, file, g.nodes, g.nodes.len() as int)
}

} // verus!

verus! {

/// The text of an expression tree, as owner checks quote it.
pub fn expr_to_string(expr: &crate::ast::ExpressionNode) -> (r: String)
    ensures
        r@ == expr_text(expr@),
    decreases expr,
{
    match &expr.kind {
        crate::ast::ExpressionKind::Identifier(n) => n.clone(),
        crate::ast::ExpressionKind::Literal(v) => v.clone(),
        crate::ast::ExpressionKind::FieldAccess { object, field } => {
            let mut s = expr_to_string(object);
            crate::text::push_lit(&mut s, ".");
            crate::text::append_str(&mut s, field.as_str());
            s
        },
        crate::ast::ExpressionKind::MethodCall { object, method, .. } => {
            let mut s = expr_to_string(object);
            crate::text::push_lit(&mut s, ".");
            crate::text::append_str(&mut s, method.as_str());
            crate::text::push_lit(&mut s, "()");
            s
        },
        crate::ast::ExpressionKind::Reference { expression, .. } => expr_to_string(expression),
        crate::ast::ExpressionKind::Dereference(x) => expr_to_string(x),
        _ => crate::text::lit("unknown"),
    }
}

/// `s` without a leading `ctx.accounts.`.
fn strip_accounts_exec(s: &str) -> (r: String)
    ensures
        r@ == strip_accounts(s@),
{
    proof {
        reveal_strlit("ctx.accounts.");
    }
    if crate::text::starts_with(s, "ctx.accounts.") {
        let cs = crate::text::chars_of(s);
        crate::text::substring(&cs, 13, cs.len())
    } else {
        crate::text::lit(s)
    }
}

/// The account whose `.owner` an expression reads.
pub fn get_account_from_owner_field(expr: &crate::ast::ExpressionNode) -> (r: Option<String>)
    ensures
        match r {
            Some(s) => owner_field_account(expr@) == Some(s@),
            None => owner_field_account(expr@) is None,
        },
{
    proof {
        reveal_strlit("owner");
    }
    match &expr.kind {
        crate::ast::ExpressionKind::FieldAccess { object, field } => {
            if crate::text::str_eq(field.as_str(), "owner") {
                let s = expr_to_string(object);
                Some(strip_accounts_exec(s.as_str()))
            } else {
                None
            }
        },
        _ => None,
    }
}

/// An owner comparison `a.owner == X` or `a.owner != X` (either side):
/// the account, the expected owner's text, and the operator.
pub fn extract_owner_check_from_expr(expr: &crate::ast::ExpressionNode) -> (r: Option<(String, String, String)>)
    ensures
        match r {
            Some((a, x, o)) => owner_check(expr@) == Some((a@, x@, o@)),
            None => owner_check(expr@) is None,
        },
{
    proof {
        reveal_strlit("==");
        reveal_strlit("!=");
    }
    match &expr.kind {
        crate::ast::ExpressionKind::BinaryOp { op, lhs, rhs } => {
            if crate::text::str_eq(op.as_str(), "==") || crate::text::str_eq(op.as_str(), "!=") {
                match get_account_from_owner_field(lhs) {
                    Some(a) => return Some((a, expr_to_string(rhs), op.clone())),
                    None => {},
                }
                match get_account_from_owner_field(rhs) {
                    Some(a) => return Some((a, expr_to_string(lhs), op.clone())),
                    None => {},
                }
            }
            None
        },
        _ => None,
    }
}

/// Whether no path from `start_node` reaches `escape_node` (the branch
/// returns before rejoining).
pub fn is_terminating_branch(cfg: &crate::cfg::ControlFlowGraph, start_node: usize, escape_node: usize) -> (r: bool)
    ensures
        r == !crate::reach::reaches(cfg@.edges, start_node, escape_node, None),
{
    !crate::reach::reaches_exec(&cfg.edges, start_node, escape_node, None)
}

/// The target of the first edge out of `from` that does not go to `to`.
fn other_target_exec(edges: &Vec<crate::cfg::CFGEdge>, from: usize, to: usize) -> (r: Option<usize>)
    ensures
        r == other_target(crate::cfg::edges_view(edges@), from, to),
{
    let ghost es = crate::cfg::edges_view(edges@);
    let mut i: usize = 0;
    assert(es.skip(0) =~= es);
    while i < edges.len()
        invariant
            es == crate::cfg::edges_view(edges@),
            i <= edges@.len(),
            other_target(es, from, to) == other_target(es.skip(i as int), from, to),
        decreases edges@.len() - i,
    {
        assert(es.skip(i as int)[0] == edges@[i as int]@);
        assert(es.skip(i as int).drop_first() =~= es.skip(i + 1));
        if edges[i].from == from && edges[i].to != to {
            return Some(edges[i].to);
        }
        i += 1;
    }
    assert(es.skip(i as int) =~= Seq::<crate::cfg::EdgeV>::empty());
    None
}

/// The parts of a macro's argument text split at commas, spaces removed.
pub fn macro_argument_texts(raw_args: &str) -> (r: Vec<String>)
    ensures
        crate::types::strs_view(r@) == macro_arg_texts(raw_args@),
{
    let cs = crate::text::chars_of(raw_args);
    let mut parts: Vec<String> = Vec::new();
    let mut cur = String::new();
    let mut cur_ns = String::new();
    let mut i: usize = 0;
    assert(cs@.take(0) =~= Seq::<char>::empty());
    assert(crate::types::strs_view(parts@) =~= Seq::<Seq<char>>::empty());
    while i < cs.len()
        invariant
            cs@ == raw_args@,
            i <= cs@.len(),
            ({
                let (d, c) = split_run(cs@.take(i as int), ',');
                &&& crate::types::strs_view(parts@) == Seq::new(d.len(), |k: int| no_spaces(d[k]))
                &&& cur@ == c
                &&& cur_ns@ == no_spaces(c)
            }),
        decreases cs@.len() - i,
    {
        let ch = cs[i];
        let ghost t = cs@.take(i + 1);
        assert(t.drop_last() =~= cs@.take(i as int));
        assert(t.last() == ch);
        let ghost d0 = split_run(cs@.take(i as int), ',').0;
        if ch == ',' {
            let ghost p0 = crate::types::strs_view(parts@);
            parts.push(cur_ns);
            assert(crate::types::strs_view(parts@) =~= p0.push(no_spaces(cur@)));
            let ghost d1 = d0.push(cur@);
            assert(Seq::new(d1.len(), |k: int| no_spaces(d1[k])) =~= p0.push(no_spaces(cur@)));
            cur = String::new();
            cur_ns = String::new();
            assert(cur_ns@ =~= no_spaces(Seq::<char>::empty()));
        } else {
            let ghost c0 = cur@;
            crate::text::push_char(&mut cur, ch);
            if ch != ' ' {
                crate::text::push_char(&mut cur_ns, ch);
            }
            assert(cur@.drop_last() =~= c0);
            assert(cur_ns@ =~= no_spaces(cur@));
        }
        i += 1;
    }
    assert(cs@.take(cs@.len() as int) =~= cs@);
    let ghost p0 = crate::types::strs_view(parts@);
    let ghost d = split_run(raw_args@, ',').0;
    let ghost sp = split_on(raw_args@, ',');
    assert(sp == d.push(cur@));
    parts.push(cur_ns);
    assert forall|k: int| 0 <= k < sp.len() implies crate::types::strs_view(parts@)[k] == no_spaces(sp[k]) by {
        if k < d.len() {
            assert(p0[k] == no_spaces(d[k]));
        }
    }
    assert(crate::types::strs_view(parts@) =~= macro_arg_texts(raw_args@));
    parts
}

/// The account a parsed `<base>.owner` expression reads.
fn owner_from_src_exec(e: &SourceExpr) -> (r: Option<String>)
    ensures
        match r {
            Some(s) => owner_from_src(*e) == Some(s@),
            None => owner_from_src(*e) is None,
        },
{
    proof {
        reveal_strlit("owner");
    }
    match &e.kind {
        SourceExprKind::Field { member, .. } => {
            if crate::text::str_eq(member.as_str(), "owner") {
                let mut s = e.token_text();
                crate::text::push_lit(&mut s, ".base");
                Some(strip_accounts_exec(s.as_str()))
            } else {
                None
            }
        },
        _ => None,
    }
}

} // verus!

verus! {

fn asserted_prov_exec(file: &str, line: usize, node: Option<usize>, stmt: Option<usize>) -> (r: FactProvenance)
    ensures
        r@ == asserted_prov(file@, line, node, stmt),
{
    FactProvenance {
        source_file: crate::text::lit(file),
        line_number: line,
        column_number: 0,
        framework: crate::text::lit("Anchor"),
        confidence_level: FactConfidence::Asserted,
        node_id: node,
        statement_index: stmt,
    }
}

/// Appends the fact a branch condition establishes.
fn push_edge_fact(facts: &mut Vec<(GuardFact, FactProvenance)>, cfg: &crate::cfg::ControlFlowGraph, e: &crate::cfg::CFGEdge,
    symbol_table: &StrMap<SymbolId>, file_path: &str)
    ensures
        facts_view(final(facts)@) == facts_view(old(facts)@) + edge_fact(cfg@.edges, e@, symbol_table.pairs(), file_path@),
{
    proof {
        reveal_strlit("==");
        reveal_strlit("!=");
    }
    let ghost f0 = facts_view(facts@);
    assert(f0 + Seq::<(FactV, ProvV)>::empty() =~= f0);
    let cond = match &e.condition {
        Some(c) => c,
        None => return,
    };
    let (acc, expected, op) = match extract_owner_check_from_expr(cond) {
        Some(t) => t,
        None => return,
    };
    let sym = match symbol_table.get(acc.as_str()) {
        Some(s) => *s,
        None => return,
    };
    let en = match other_target_exec(&cfg.edges, e.from, e.to) {
        Some(x) => x,
        None => return,
    };
    if crate::text::str_eq(op.as_str(), "!=") {
        if is_terminating_branch(cfg, e.to, en) {
            facts.push((GuardFact::Owner { account: GuardTarget::Account(sym), expected_owner: FactExpression::Literal(expected) },
                asserted_prov_exec(file_path, 0, Some(en), None)));
            assert(facts_view(facts@) =~= f0 + edge_fact(cfg@.edges, e@, symbol_table.pairs(), file_path@));
        }
    } else if crate::text::str_eq(op.as_str(), "==") {
        if is_terminating_branch(cfg, en, e.to) {
            facts.push((GuardFact::Owner { account: GuardTarget::Account(sym), expected_owner: FactExpression::Literal(expected) },
                asserted_prov_exec(file_path, 0, Some(e.to), None)));
            assert(facts_view(facts@) =~= f0 + edge_fact(cfg@.edges, e@, symbol_table.pairs(), file_path@));
        }
    }
}

/// Appends the owner fact for account `acc` checked against `expected`.
fn push_asserted_owner(facts: &mut Vec<(GuardFact, FactProvenance)>, symbol_table: &StrMap<SymbolId>, acc: &str, expected: &String,
    file_path: &str, line: usize, node: usize, idx: usize)
    ensures
        facts_view(final(facts)@) == facts_view(old(facts)@) + asserted_owner(symbol_table.pairs(), acc@, expected@, file_path@, line, node, idx),
{
    let ghost f0 = facts_view(facts@);
    match symbol_table.get(acc) {
        Some(s) => {
            facts.push((GuardFact::Owner { account: GuardTarget::Account(*s), expected_owner: FactExpression::Literal(expected.clone()) },
                asserted_prov_exec(file_path, line, Some(node), Some(idx))));
            assert(facts_view(facts@) =~= f0 + asserted_owner(symbol_table.pairs(), acc@, expected@, file_path@, line, node, idx));
        },
        None => {
            assert(f0 + Seq::<(FactV, ProvV)>::empty() =~= f0);
        },
    }
}

/// Appends the fact of an equality between `a` and `b`, one of which reads an owner.
fn push_owner_equality(facts: &mut Vec<(GuardFact, FactProvenance)>, a: &SourceExpr, b: &SourceExpr, symbol_table: &StrMap<SymbolId>,
    file_path: &str, line: usize, node: usize, idx: usize)
    ensures
        facts_view(final(facts)@) == facts_view(old(facts)@) + owner_equality(*a, *b, symbol_table.pairs(), file_path@, line, node, idx),
{
    match owner_from_src_exec(a) {
        Some(acc) => push_asserted_owner(facts, symbol_table, acc.as_str(), &b.token_text(), file_path, line, node, idx),
        None => match owner_from_src_exec(b) {
            Some(acc) => push_asserted_owner(facts, symbol_table, acc.as_str(), &a.token_text(), file_path, line, node, idx),
            None => {
                assert(facts_view(facts@) =~= facts_view(old(facts)@) + Seq::<(FactV, ProvV)>::empty());
            },
        },
    }
}

/// Appends the facts of an assertion macro at statement `idx` of node `node`.
fn push_macro_fact(facts: &mut Vec<(GuardFact, FactProvenance)>, symbol_table: &StrMap<SymbolId>,
    file_path: &str, node: usize, idx: usize, st: &crate::ast::StatementNode)
    ensures
        facts_view(final(facts)@) == facts_view(old(facts)@) + macro_fact(symbol_table.pairs(), file_path@, node, idx, st@),
{
    proof {
        reveal_strlit("require");
        reveal_strlit("assert");
        reveal_strlit("assert_eq");
        reveal_strlit("require_keys_eq");
        reveal_strlit("require_eq");
        reveal_strlit("==");
    }
    let ghost f0 = facts_view(facts@);
    assert(f0 + Seq::<(FactV, ProvV)>::empty() =~= f0);
    match &st.kind {
        crate::ast::StatementKind::MacroCall { name, raw_args } => {
            let parts = macro_argument_texts(raw_args.as_str());
            assert(split_on(raw_args@, ',').len() >= 1);
            assert(parts@.len() == macro_arg_texts(raw_args@).len());
            assert(crate::types::strs_view(parts@)[0] == parts@[0]@);
            let n = name.as_str();
            if crate::text::str_eq(n, "require") || crate::text::str_eq(n, "assert") {
                assert(parts@[0]@ == macro_arg_texts(raw_args@)[0]);
                let p0 = crate::syntax::parse_expr_text(parts[0].as_str());
                match &p0 {
                    Some(x) => match &x.kind {
                        SourceExprKind::Binary { op, left, right } => {
                            if crate::text::str_eq(crate::syntax::strip_spaces(op.clone()).as_str(), "==") {
                                push_owner_equality(facts, left, right, symbol_table, file_path, st.line_number, node, idx);
                            }
                        },
                        _ => {},
                    },
                    None => {},
                }
            } else if crate::text::str_eq(n, "assert_eq") || crate::text::str_eq(n, "require_keys_eq") || crate::text::str_eq(n, "require_eq") {
                if parts.len() >= 2 {
                    assert(parts@[0]@ == macro_arg_texts(raw_args@)[0]);
                    assert(crate::types::strs_view(parts@)[1] == parts@[1]@);
                    assert(parts@[1]@ == macro_arg_texts(raw_args@)[1]);
                    let p0 = crate::syntax::parse_expr_text(parts[0].as_str());
                    let p1 = crate::syntax::parse_expr_text(parts[1].as_str());
                    match (&p0, &p1) {
                        (Some(e1), Some(e2)) => push_owner_equality(facts, e1, e2, symbol_table, file_path, st.line_number, node, idx),
                        _ => {},
                    }
                }
            }
        },
        _ => {},
    }
}

/// Owner checks written as code: branch conditions comparing an account's
/// owner, where one branch returns, and assertion macros comparing one
/// (their argument texts, from [`macro_argument_texts`], parsed by `syn`).
pub fn extract_imperative_checks(cfg: &crate::cfg::ControlFlowGraph, symbol_table: &StrMap<SymbolId>, file_path: &str)
    -> (r: Vec<(GuardFact, FactProvenance)>)
    ensures
        facts_view(r@) == imperative_facts(cfg@, symbol_table.pairs(), file_path@),
{
    let ghost g = cfg@;
    let mut facts: Vec<(GuardFact, FactProvenance)> = Vec::new();
    let mut k: usize = 0;
    assert(facts_view(facts@) =~= Seq::<(FactV, ProvV)>::empty());
    while k < cfg.edges.len()
        invariant
            g == cfg@,
            g.edges.len() == cfg.edges@.len(),
            k <= g.edges.len(),
            facts_view(facts@) == edge_facts(g.edges, symbol_table.pairs(), file_path@, k as int),
        decreases g.edges.len() - k,
    {
        assert(g.edges[k as int] == cfg.edges@[k as int]@);
        push_edge_fact(&mut facts, cfg, &cfg.edges[k], symbol_table, file_path);
        k += 1;
    }
    let ghost ef = facts_view(facts@);
    let nn = cfg.nodes.len();
    let mut i: usize = 0;
    assert(ef + macro_facts(symbol_table.pairs(), file_path@, g.nodes, 0) =~= ef);
    while i < nn
        invariant
            g == cfg@,
            nn == g.nodes.len(),
            i <= nn,
            facts_view(facts@) == ef + macro_facts(symbol_table.pairs(), file_path@, g.nodes, i as int),
        decreases nn - i,
    {
        let id = cfg.nodes.key_at(i);
        let node = cfg.nodes.value_at(i);
        let ghost ss = node@.statements;
        let ghost base = facts_view(facts@);
        let mut j: usize = 0;
        assert(base + node_macro_facts(symbol_table.pairs(), file_path@, id, ss, 0) =~= base);
        while j < node.statements.len()
            invariant
                ss == node@.statements,
                ss.len() == node.statements@.len(),
                j <= ss.len(),
                facts_view(facts@) == base + node_macro_facts(symbol_table.pairs(), file_path@, id, ss, j as int),
            decreases ss.len() - j,
        {
            assert(ss[j as int] == node.statements@[j as int]@);
            push_macro_fact(&mut facts, symbol_table, file_path, id, j, &node.statements[j]);
            assert(facts_view(facts@) =~= base + node_macro_facts(symbol_table.pairs(), file_path@, id, ss, j + 1));
            j += 1;
        }
        assert(g.nodes[i as int] == (id, node@));
        assert(facts_view(facts@) =~= ef + macro_facts(symbol_table.pairs(), file_path@, g.nodes, i + 1));
        i += 1;
    }
    facts
}

} // verus!

verus! {

// ---------------------------------------------------------------------------
// Owner-checked account wrappers.

/// `b` extends `a`: every fact of `a` other than a PDA fact is still at its
/// place in `b`.
pub open spec fn keeps_facts(a: Seq<(FactV, ProvV)>, b: Seq<(FactV, ProvV)>) -> bool {
    &&& a.len() <= b.len()
    &&& forall|i: int| 0 <= i < a.len() && !(a[i].0 is PDA) ==> #[trigger] b[i] == a[i]
}

proof fn lemma_keeps_trans(a: Seq<(FactV, ProvV)>, b: Seq<(FactV, ProvV)>, c: Seq<(FactV, ProvV)>)
    requires
        keeps_facts(a, b),
        keeps_facts(b, c),
    ensures
        keeps_facts(a, c),
{
    assert forall|i: int| 0 <= i < a.len() && !(a[i].0 is PDA) implies #[trigger] c[i] == a[i] by {
        assert(b[i] == a[i]);
    }
}

proof fn lemma_set_bump_keeps(facts: Seq<(FactV, ProvV)>, bump: Option<FactExprV>)
    ensures
        keeps_facts(facts, set_bump(facts, bump)),
{
    let k = first_pda(facts);
    if k >= 0 {
        lemma_first_pda(facts);
    }
}

proof fn lemma_first_pda(facts: Seq<(FactV, ProvV)>)
    ensures
        -1 <= first_pda(facts) < facts.len(),
        first_pda(facts) >= 0 ==> facts[first_pda(facts)].0 is PDA,
    decreases facts.len(),
{
    if facts.len() > 0 {
        lemma_first_pda(facts.drop_last());
    }
}

proof fn lemma_apply_meta_keeps(st: AttrState, acc: TargetV, item: MetaItem, table: Seq<(Seq<char>, SymbolId)>)
    ensures
        keeps_facts(st.facts, apply_meta(st, acc, item, table).facts),
{
    lemma_set_bump_keeps(st.facts, None);
    match item {
        MetaItem::NameValue { ident: Some(_), value } => lemma_set_bump_keeps(st.facts, Some(conv_fact(value, table))),
        _ => {},
    }
}

proof fn lemma_apply_metas_keeps(st: AttrState, acc: TargetV, items: Seq<MetaItem>, table: Seq<(Seq<char>, SymbolId)>, k: int)
    ensures
        keeps_facts(st.facts, apply_metas(st, acc, items, table, k).facts),
    decreases k,
{
    if k > 0 {
        let prev = apply_metas(st, acc, items, table, k - 1);
        lemma_apply_metas_keeps(st, acc, items, table, k - 1);
        lemma_apply_meta_keeps(prev, acc, items[k - 1], table);
        lemma_keeps_trans(st.facts, prev.facts, apply_meta(prev, acc, items[k - 1], table).facts);
    }
}

proof fn lemma_attr_keeps(facts: Seq<(FactV, ProvV)>, acc: TargetV, attr: Seq<char>, table: Seq<(Seq<char>, SymbolId)>)
    ensures
        keeps_facts(facts, attr_facts(facts, acc, attr, table)),
{
    let items = match crate::syntax::meta_items_of(meta_text(attr)) { Some(v) => v, None => Seq::empty() };
    let st0 = AttrState { facts, is_init: false, payer: None, space: None };
    lemma_apply_metas_keeps(st0, acc, items, table, items.len() as int);
    let st = apply_metas(st0, acc, items, table, items.len() as int);
    let next = attr_facts(facts, acc, attr, table);
    assert(keeps_facts(st.facts, next));
    lemma_keeps_trans(facts, st.facts, next);
}

proof fn lemma_attrs_keeps(facts: Seq<(FactV, ProvV)>, acc: TargetV, attrs: Seq<Seq<char>>, table: Seq<(Seq<char>, SymbolId)>, k: int)
    ensures
        keeps_facts(facts, attrs_facts(facts, acc, attrs, table, k)),
    decreases k,
{
    if k > 0 {
        let prev = attrs_facts(facts, acc, attrs, table, k - 1);
        lemma_attrs_keeps(facts, acc, attrs, table, k - 1);
        lemma_attr_keeps(prev, acc, attrs[k - 1], table);
        lemma_keeps_trans(facts, prev, attr_facts(prev, acc, attrs[k - 1], table));
    }
}

proof fn lemma_fields_keeps(fs: Seq<crate::types::FieldV>, table: Seq<(Seq<char>, SymbolId)>, k: int, n: int)
    requires
        0 <= k <= n,
    ensures
        keeps_facts(fields_facts(fs, table, k), fields_facts(fs, table, n)),
    decreases n - k,
{
    if k < n {
        lemma_fields_keeps(fs, table, k, n - 1);
        let prev = fields_facts(fs, table, n - 1);
        let f = fs[n - 1];
        let acc = TargetV::Account(lookup(table, f.name)->Some_0);
        let f1 = match account_type_name(f.type_ref) {
            Some(ct) => if owner_checked_wrapper(ct) {
                prev.push((FactV::Owner { account: acc, expected_owner: FactExprV::Literal("program_id"@) }, declared_prov()))
            } else {
                prev
            },
            None => prev,
        };
        assert(keeps_facts(prev, f1));
        lemma_attrs_keeps(f1, acc, f.attrs, table, f.attrs.len() as int);
        lemma_keeps_trans(prev, f1, fields_facts(fs, table, n));
        lemma_keeps_trans(fields_facts(fs, table, k), prev, fields_facts(fs, table, n));
    }
}

/// Every field whose type is an owner-checked account wrapper (`Account`,
/// `AccountLoader` or `InterfaceAccount`, possibly inside `Option`) gets an
/// implicit owner fact: the account is owned by `program_id`.
pub proof fn law_wrapped_account_owned_by_program(fs: Seq<crate::types::FieldV>, table: Seq<(Seq<char>, SymbolId)>, i: int)
    requires
        0 <= i < fs.len(),
        account_type_name(fs[i].type_ref) matches Some(ct) && (ct == "Account"@ || crate::text::is_prefix("Account<"@, ct)
            || ct == "AccountLoader"@ || crate::text::is_prefix("AccountLoader<"@, ct)
            || ct == "InterfaceAccount"@ || crate::text::is_prefix("InterfaceAccount<"@, ct)),
    ensures
        fields_facts(fs, table, fs.len() as int).contains((FactV::Owner {
            account: TargetV::Account(lookup(table, fs[i].name)->Some_0),
            expected_owner: FactExprV::Literal("program_id"@),
        }, declared_prov())),
{
    let prev = fields_facts(fs, table, i);
    let f = fs[i];
    let acc = TargetV::Account(lookup(table, f.name)->Some_0);
    let fact = (FactV::Owner { account: acc, expected_owner: FactExprV::Literal("program_id"@) }, declared_prov());
    let f1 = prev.push(fact);
    assert(f1[prev.len() as int] == fact);
    lemma_attrs_keeps(f1, acc, f.attrs, table, f.attrs.len() as int);
    let after = fields_facts(fs, table, i + 1);
    assert(after == attrs_facts(f1, acc, f.attrs, table, f.attrs.len() as int));
    assert(after[prev.len() as int] == fact);
    lemma_fields_keeps(fs, table, i + 1, fs.len() as int);
    let all = fields_facts(fs, table, fs.len() as int);
    assert(all[prev.len() as int] == fact);
}

proof fn lemma_apply_metas_keeps_from(st: AttrState, acc: TargetV, items: Seq<MetaItem>, table: Seq<(Seq<char>, SymbolId)>,
    k: int, n: int)
    requires
        0 <= k <= n,
    ensures
        keeps_facts(apply_metas(st, acc, items, table, k).facts, apply_metas(st, acc, items, table, n).facts),
    decreases n - k,
{
    if k < n {
        lemma_apply_metas_keeps_from(st, acc, items, table, k, n - 1);
        let prev = apply_metas(st, acc, items, table, n - 1);
        lemma_apply_meta_keeps(prev, acc, items[n - 1], table);
        lemma_keeps_trans(apply_metas(st, acc, items, table, k).facts, prev.facts, apply_metas(st, acc, items, table, n).facts);
    }
}

proof fn lemma_attrs_keeps_from(facts: Seq<(FactV, ProvV)>, acc: TargetV, attrs: Seq<Seq<char>>, table: Seq<(Seq<char>, SymbolId)>,
    k: int, n: int)
    requires
        0 <= k <= n,
    ensures
        keeps_facts(attrs_facts(facts, acc, attrs, table, k), attrs_facts(facts, acc, attrs, table, n)),
    decreases n - k,
{
    if k < n {
        lemma_attrs_keeps_from(facts, acc, attrs, table, k, n - 1);
        let prev = attrs_facts(facts, acc, attrs, table, n - 1);
        lemma_attr_keeps(prev, acc, attrs[n - 1], table);
        lemma_keeps_trans(attrs_facts(facts, acc, attrs, table, k), prev, attrs_facts(facts, acc, attrs, table, n));
    }
}

/// The fact an attribute entry of account `acc` declares by itself, when it
/// declares one that is not a PDA fact: `signer`, `writable`, `owner = e`,
/// `has_one = e` and `close = e`.
pub open spec fn declared_by(acc: TargetV, item: MetaItem, table: Seq<(Seq<char>, SymbolId)>) -> Option<FactV> {
    match item {
        MetaItem::Path { ident: Some(id) } =>
            if id@ == "signer"@ { Some(FactV::Signer(acc)) }
            else if id@ == "writable"@ {
                Some(FactV::KeyRelation { account: acc, field: SolanaProperty::IsWritable, target: TargetV::Literal("true"@) })
            } else { None },
        MetaItem::NameValue { ident: Some(id), value } =>
            if id@ == "owner"@ { Some(FactV::Owner { account: acc, expected_owner: conv_fact(value, table) }) }
            else if id@ == "has_one"@ {
                Some(FactV::KeyRelation { account: acc, field: SolanaProperty::Address, target: target_of(value, table) })
            } else if id@ == "close"@ { Some(FactV::Deallocated { account: acc, destination: target_of(value, table) }) }
            else { None },
        _ => None,
    }
}

/// Every `signer`, `writable`, `owner = e`, `has_one = e` or `close = e`
/// entry of an `#[account(...)]` attribute of a field (as `syn` parses the
/// attribute's list) yields its fact about that field's account: a signer
/// fact, a writable relation, an owner check against `e`, an address relation
/// to `e`, or a close into `e`.
pub proof fn law_attribute_entries_declare_facts(fs: Seq<crate::types::FieldV>, table: Seq<(Seq<char>, SymbolId)>, i: int,
    a: int, items: Seq<MetaItem>, k: int)
    requires
        0 <= i < fs.len(),
        0 <= a < fs[i].attrs.len(),
        crate::syntax::meta_items_of(meta_text(fs[i].attrs[a])) == Some(items),
        0 <= k < items.len(),
        declared_by(TargetV::Account(lookup(table, fs[i].name)->Some_0), items[k], table) is Some,
    ensures
        fields_facts(fs, table, fs.len() as int).contains((
            declared_by(TargetV::Account(lookup(table, fs[i].name)->Some_0), items[k], table)->Some_0, declared_prov())),
{
    let f = fs[i];
    let acc = TargetV::Account(lookup(table, f.name)->Some_0);
    let fact = (declared_by(acc, items[k], table)->Some_0, declared_prov());
    let prev = fields_facts(fs, table, i);
    let f1 = match account_type_name(f.type_ref) {
        Some(ct) => if owner_checked_wrapper(ct) {
            prev.push((FactV::Owner { account: acc, expected_owner: FactExprV::Literal("program_id"@) }, declared_prov()))
        } else {
            prev
        },
        None => prev,
    };
    let before = attrs_facts(f1, acc, f.attrs, table, a);
    let st0 = AttrState { facts: before, is_init: false, payer: None, space: None };
    reveal_strlit("signer");
    reveal_strlit("writable");
    reveal_strlit("init");
    reveal_strlit("bump");
    reveal_strlit("owner");
    reveal_strlit("has_one");
    reveal_strlit("close");
    let stk = apply_metas(st0, acc, items, table, k);
    let st1 = apply_metas(st0, acc, items, table, k + 1);
    assert(st1 == apply_meta(stk, acc, items[k], table));
    match items[k] {
        MetaItem::Path { ident: Some(id) } => {
            if id@ == "signer"@ {
                assert("signer"@[0] == 's');
                assert("writable"@[0] == 'w');
                assert(id@ != "writable"@);
                assert(st1.facts == stk.facts.push(fact));
            } else {
                assert(id@ == "writable"@);
                assert(st1.facts == stk.facts.push(fact));
            }
        },
        MetaItem::NameValue { ident: Some(id), value } => {
            assert(st1.facts == stk.facts.push(fact));
        },
        _ => {},
    }
    assert(st1.facts == stk.facts.push(fact));
    let at = stk.facts.len() as int;
    assert(st1.facts[at] == fact);
    lemma_apply_metas_keeps_from(st0, acc, items, table, k + 1, items.len() as int);
    let stn = apply_metas(st0, acc, items, table, items.len() as int);
    let after_attr = attr_facts(before, acc, f.attrs[a], table);
    assert(stn.facts[at] == fact);
    assert(after_attr[at] == fact);
    assert(attrs_facts(f1, acc, f.attrs, table, a + 1) == after_attr);
    lemma_attrs_keeps_from(f1, acc, f.attrs, table, a + 1, f.attrs.len() as int);
    let fi = fields_facts(fs, table, i + 1);
    assert(fi == attrs_facts(f1, acc, f.attrs, table, f.attrs.len() as int));
    assert(fi[at] == fact);
    lemma_fields_keeps(fs, table, i + 1, fs.len() as int);
    assert(fields_facts(fs, table, fs.len() as int)[at] == fact);
}

} // verus!
