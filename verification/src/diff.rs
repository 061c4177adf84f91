//! Differences between two workspaces, and their human-readable report.
use vstd::prelude::*;
use crate::abi::{
    ChangeType, Severity, DiffResult, DiffV, diffs_view, dv, spec_is_pda, is_pda_definition,
    removal_diff, addition_diff, last_index, field_names, variant_names, moves_part, adds_part,
};
use crate::layout::{LayoutEngine, LayoutV, LayoutErrorV, lay_ty, lay_path};
use crate::types::{
    TypeRegistry, TypeRef, TypeRefV, TypeDef, TypeDefV, FieldDef, FieldV, strs_view, fields_view,
    debug_type_ref,
};
use crate::text::decimal;
use crate::workspace::Workspace;

verus! {

// ---------------------------------------------------------------------------
// What changed in one definition.

/// The size of a layout, or 0 where there is none.
pub open spec fn size_or_zero(r: Result<LayoutV, LayoutErrorV>) -> int {
    match r {
        Ok(l) => l.size,
        Err(_) => 0,
    }
}

/// The width of a field type in a registry, resolved from the crate root (0 when unknown).
pub open spec fn field_width(reg: TypeRegistry, t: TypeRefV) -> int {
    size_or_zero(lay_ty(reg.definitions.pairs(), Seq::empty(), Seq::empty(), t))
}

/// The layout size of the definition at `e` in a registry (0 when unknown).
pub open spec fn entity_size(reg: TypeRegistry, e: Seq<char>) -> int {
    size_or_zero(lay_path(reg.definitions.pairs(), Seq::empty(), e))
}

/// The type-change diff of old field `i`, when its namesake in the new list has another type.
pub open spec fn type_item(olds: Seq<FieldV>, news: Seq<FieldV>, e: Seq<char>, or: TypeRegistry, nr: TypeRegistry, i: int) -> Seq<DiffV> {
    let f = olds[i];
    let j = last_index(field_names(news), f.name);
    if j >= 0 && f.type_ref != news[j].type_ref {
        let os = field_width(or, f.type_ref);
        let ns = field_width(nr, news[j].type_ref);
        if os != ns {
            seq![dv(e, ChangeType::TypeChange, Severity::Major,
                "Field '"@ + f.name + "' type width changed: "@ + decimal(os as nat) + " bytes → "@ + decimal(ns as nat) + " bytes"@)]
        } else {
            seq![dv(e, ChangeType::TypeChange, Severity::Critical, "Field '"@ + f.name + "' type changed without changing size"@)]
        }
    } else {
        Seq::empty()
    }
}

/// Type-change diffs of the first `k` old fields.
pub open spec fn types_part(olds: Seq<FieldV>, news: Seq<FieldV>, e: Seq<char>, or: TypeRegistry, nr: TypeRegistry, k: int) -> Seq<DiffV>
    decreases k,
{
    if k <= 0 {
        Seq::empty()
    } else {
        types_part(olds, news, e, or, nr, k - 1) + type_item(olds, news, e, or, nr, k - 1)
    }
}

/// The diff reported when the layout size of `e` differs between the registries.
pub open spec fn size_part(e: Seq<char>, or: TypeRegistry, nr: TypeRegistry) -> Seq<DiffV> {
    if entity_size(or, e) != entity_size(nr, e) {
        seq![dv(e, ChangeType::AccountLayoutChange, Severity::Major, "account layout changed"@)]
    } else {
        Seq::empty()
    }
}

/// Name and type of each argument (what an instruction signature consists of).
pub open spec fn arg_sigs(fs: Seq<FieldV>) -> Seq<(Seq<char>, TypeRefV)> {
    Seq::new(fs.len(), |i: int| (fs[i].name, fs[i].type_ref))
}

/// The diffs between two definitions registered under the same path `e`.
pub open spec fn definition_diffs(e: Seq<char>, od: TypeDefV, nd: TypeDefV, or: TypeRegistry, nr: TypeRegistry) -> Seq<DiffV> {
    match (od, nd) {
        (TypeDefV::Struct(a), TypeDefV::Struct(b)) => {
            if spec_is_pda(a) || spec_is_pda(b) {
                if a.fields != b.fields || a.attrs != b.attrs {
                    seq![dv(e, ChangeType::PdaAccountDefinitionChange, Severity::Critical,
                        "PDA or Account validation constraints changed on struct '"@ + e + "'"@)]
                } else {
                    Seq::empty()
                }
            } else {
                let on = field_names(a.fields);
                let nn = field_names(b.fields);
                moves_part(on, nn, e, on.len() as int, false) + adds_part(on, nn, e, nn.len() as int, false)
                    + types_part(a.fields, b.fields, e, or, nr, a.fields.len() as int) + size_part(e, or, nr)
            }
        },
        (TypeDefV::Enum(a), TypeDefV::Enum(b)) => {
            let on = variant_names(a.variants);
            let nn = variant_names(b.variants);
            moves_part(on, nn, e, on.len() as int, true) + adds_part(on, nn, e, nn.len() as int, true)
        },
        (TypeDefV::Alias(a), TypeDefV::Alias(b)) => {
            if a.target != b.target {
                seq![dv(e, ChangeType::TypeChange, Severity::Major,
                    "Type alias target changed from "@ + debug_type_ref(a.target) + " to "@ + debug_type_ref(b.target))]
            } else {
                Seq::empty()
            }
        },
        (TypeDefV::Instruction(a), TypeDefV::Instruction(b)) => {
            if arg_sigs(a.args) != arg_sigs(b.args) {
                seq![dv(e, ChangeType::IdlBreakingChange, Severity::Critical, "Instruction '"@ + e + "' signature changed"@)]
            } else {
                Seq::empty()
            }
        },
        _ => seq![dv(e, ChangeType::IdlBreakingChange, Severity::Critical, "Entity '"@ + e + "' changed its TypeDef type"@)],
    }
}

// ---------------------------------------------------------------------------
// Executable comparisons.

/// Whether two field lists are equal in name, type and attributes, position by position.
fn fields_eq(a: &Vec<FieldDef>, b: &Vec<FieldDef>) -> (r: bool)
    ensures
        r == (fields_view(a@) == fields_view(b@)),
{
    if a.len() != b.len() {
        assert(fields_view(a@).len() != fields_view(b@).len());
        return false;
    }
    let mut i: usize = 0;
    while i < a.len()
        invariant
            a@.len() == b@.len(),
            i <= a@.len(),
            forall|j: int| 0 <= j < i ==> #[trigger] a@[j]@ == b@[j]@,
        decreases a@.len() - i,
    {
        let same = a[i].name == b[i].name && crate::types::type_ref_eq(&a[i].type_ref, &b[i].type_ref)
            && crate::types::strings_eq(&a[i].attrs, &b[i].attrs);
        if !same {
            assert(fields_view(a@)[i as int] != fields_view(b@)[i as int]);
            return false;
        }
        i += 1;
    }
    assert(fields_view(a@) =~= fields_view(b@));
    true
}

/// Whether two argument lists agree in names and types, position by position.
fn sigs_eq(a: &Vec<FieldDef>, b: &Vec<FieldDef>) -> (r: bool)
    ensures
        r == (arg_sigs(fields_view(a@)) == arg_sigs(fields_view(b@))),
{
    if a.len() != b.len() {
        assert(arg_sigs(fields_view(a@)).len() != arg_sigs(fields_view(b@)).len());
        return false;
    }
    let mut i: usize = 0;
    while i < a.len()
        invariant
            a@.len() == b@.len(),
            i <= a@.len(),
            forall|j: int| 0 <= j < i ==> (#[trigger] a@[j]).name@ == b@[j].name@ && a@[j].type_ref@ == b@[j].type_ref@,
        decreases a@.len() - i,
    {
        let same = a[i].name == b[i].name && crate::types::type_ref_eq(&a[i].type_ref, &b[i].type_ref);
        if !same {
            assert(arg_sigs(fields_view(a@))[i as int] != arg_sigs(fields_view(b@))[i as int]);
            return false;
        }
        i += 1;
    }
    assert(arg_sigs(fields_view(a@)) =~= arg_sigs(fields_view(b@)));
    true
}

/// The size of a layout result, or 0 on an error.
fn size_or_zero_exec(r: Result<crate::layout::LayoutInfo, crate::layout::LayoutError>) -> (n: usize)
    ensures
        n as int == size_or_zero(crate::layout::layout_result_view(r)),
{
    match r {
        Ok(l) => l.size,
        Err(_) => 0,
    }
}

/// Width of a field type in `reg`, resolved from the crate root.
fn field_width_exec(reg: &TypeRegistry, t: &TypeRef) -> (n: usize)
    ensures
        n as int == field_width(*reg, t@),
{
    let mut engine = LayoutEngine::new(reg);
    assert(engine.stack() =~= Seq::<Seq<char>>::empty());
    proof {
        reveal_strlit("");
    }
    assert(""@ =~= Seq::<char>::empty());
    size_or_zero_exec(engine.size_of_type_ref("", t))
}

/// Layout size of the definition at `e` in `reg`.
fn entity_size_exec(reg: &TypeRegistry, e: &str) -> (n: usize)
    ensures
        n as int == entity_size(*reg, e@),
{
    let mut engine = LayoutEngine::new(reg);
    assert(engine.stack() =~= Seq::<Seq<char>>::empty());
    size_or_zero_exec(engine.size_of_absolute_path(e))
}

/// Appends the type-change diffs of all old fields.
fn push_type_changes(diffs: &mut Vec<DiffResult>, olds: &Vec<FieldDef>, news: &Vec<FieldDef>, e: &str, or: &TypeRegistry, nr: &TypeRegistry)
    ensures
        diffs_view(final(diffs)@) == diffs_view(old(diffs)@)
            + types_part(fields_view(olds@), fields_view(news@), e@, *or, *nr, olds@.len() as int),
{
    let ghost d0 = diffs_view(diffs@);
    let ghost ov = fields_view(olds@);
    let ghost nv = fields_view(news@);
    let new_names = crate::abi::names_of_fields(news);
    let mut i: usize = 0;
    while i < olds.len()
        invariant
            i <= olds@.len(),
            ov == fields_view(olds@),
            nv == fields_view(news@),
            strs_view(new_names@) == field_names(nv),
            diffs_view(diffs@) == d0 + types_part(ov, nv, e@, *or, *nr, i as int),
        decreases olds@.len() - i,
    {
        let ghost before = diffs_view(diffs@);
        let f = &olds[i];
        assert(ov[i as int] == f@);
        match crate::abi::last_index_exec(&new_names, f.name.as_str()) {
            Some(j) => {
                proof {
                    crate::abi::lemma_last_index(field_names(nv), f.name@);
                }
                assert(nv[j as int] == news@[j as int]@);
                if !crate::types::type_ref_eq(&f.type_ref, &news[j].type_ref) {
                    let os = field_width_exec(or, &f.type_ref);
                    let ns = field_width_exec(nr, &news[j].type_ref);
                    let d = if os != ns {
                        crate::abi::mk(e, ChangeType::TypeChange, Severity::Major,
                            crate::abi::msg_nums("Field '", f.name.as_str(), "' type width changed: ", os, " bytes → ", ns, " bytes"))
                    } else {
                        crate::abi::mk(e, ChangeType::TypeChange, Severity::Critical,
                            crate::abi::cat3("Field '", f.name.as_str(), "' type changed without changing size"))
                    };
                    diffs.push(d);
                }
                assert(diffs_view(diffs@) =~= before + type_item(ov, nv, e@, *or, *nr, i as int));
            },
            None => {
                assert(diffs_view(diffs@) =~= before + type_item(ov, nv, e@, *or, *nr, i as int));
            },
        }
        i += 1;
    }
}


/// The diffs between two definitions registered under the same path `entity`.
pub fn compare_definitions(entity: &str, old_def: &TypeDef, new_def: &TypeDef, old_ws: &Workspace, new_ws: &Workspace) -> (r: Vec<DiffResult>)
    ensures
        diffs_view(r@) == definition_diffs(entity@, old_def@, new_def@, old_ws.registry, new_ws.registry),
{
    let mut diffs: Vec<DiffResult> = Vec::new();
    let ghost or = old_ws.registry;
    let ghost nr = new_ws.registry;
    assert(diffs_view(diffs@) =~= Seq::<DiffV>::empty());
    match (old_def, new_def) {
        (TypeDef::Struct(a), TypeDef::Struct(b)) => {
            if is_pda_definition(a) || is_pda_definition(b) {
                let changed = !fields_eq(&a.fields, &b.fields) || !crate::types::strings_eq(&a.attrs, &b.attrs);
                if changed {
                    diffs.push(crate::abi::mk(entity, ChangeType::PdaAccountDefinitionChange, Severity::Critical,
                        crate::abi::cat3("PDA or Account validation constraints changed on struct '", entity, "'")));
                }
                assert(diffs_view(diffs@) =~= definition_diffs(entity@, old_def@, new_def@, or, nr));
            } else {
                let on = crate::abi::names_of_fields(&a.fields);
                let nn = crate::abi::names_of_fields(&b.fields);
                let ghost d0 = diffs_view(diffs@);
                crate::abi::push_moves(&mut diffs, &on, &nn, entity, false);
                crate::abi::push_adds(&mut diffs, &on, &nn, entity, false);
                push_type_changes(&mut diffs, &a.fields, &b.fields, entity, &old_ws.registry, &new_ws.registry);
                let os = entity_size_exec(&old_ws.registry, entity);
                let ns = entity_size_exec(&new_ws.registry, entity);
                let ghost d1 = diffs_view(diffs@);
                if os != ns {
                    diffs.push(crate::abi::mk(entity, ChangeType::AccountLayoutChange, Severity::Major, crate::text::lit("account layout changed")));
                }
                assert(diffs_view(diffs@) =~= d1 + size_part(entity@, or, nr));
                assert(diffs_view(diffs@) =~= definition_diffs(entity@, old_def@, new_def@, or, nr));
            }
        },
        (TypeDef::Enum(a), TypeDef::Enum(b)) => {
            let on = crate::abi::names_of_variants(&a.variants);
            let nn = crate::abi::names_of_variants(&b.variants);
            crate::abi::push_moves(&mut diffs, &on, &nn, entity, true);
            crate::abi::push_adds(&mut diffs, &on, &nn, entity, true);
            assert(diffs_view(diffs@) =~= definition_diffs(entity@, old_def@, new_def@, or, nr));
        },
        (TypeDef::Alias(a), TypeDef::Alias(b)) => {
            if !crate::types::type_ref_eq(&a.target, &b.target) {
                let mut msg = crate::text::lit("Type alias target changed from ");
                crate::types::write_debug_type_ref(&mut msg, &a.target);
                crate::text::push_lit(&mut msg, " to ");
                crate::types::write_debug_type_ref(&mut msg, &b.target);
                diffs.push(crate::abi::mk(entity, ChangeType::TypeChange, Severity::Major, msg));
            }
            assert(diffs_view(diffs@) =~= definition_diffs(entity@, old_def@, new_def@, or, nr));
        },
        (TypeDef::Instruction(a), TypeDef::Instruction(b)) => {
            if !sigs_eq(&a.args, &b.args) {
                diffs.push(crate::abi::mk(entity, ChangeType::IdlBreakingChange, Severity::Critical,
                    crate::abi::cat3("Instruction '", entity, "' signature changed")));
            }
            assert(diffs_view(diffs@) =~= definition_diffs(entity@, old_def@, new_def@, or, nr));
        },
        _ => {
            diffs.push(crate::abi::mk(entity, ChangeType::IdlBreakingChange, Severity::Critical,
                crate::abi::cat3("Entity '", entity, "' changed its TypeDef type")));
            assert(diffs_view(diffs@) =~= definition_diffs(entity@, old_def@, new_def@, or, nr));
        },
    }
    diffs
}

// ---------------------------------------------------------------------------
// Whole workspaces.

/// `k` put into the ascending list `s` (nothing changes when it is already there).
pub open spec fn insert_sorted(s: Seq<Seq<char>>, k: Seq<char>) -> Seq<Seq<char>>
    decreases s.len(),
{
    if s.len() == 0 {
        seq![k]
    } else if s[0] == k {
        s
    } else if crate::text::seq_lt(k, s[0]) {
        seq![k] + s
    } else {
        seq![s[0]] + insert_sorted(s.drop_first(), k)
    }
}

/// The keys of `ks`, each once, in ascending order (as a `BTreeSet` yields them).
pub open spec fn sorted_keys(ks: Seq<Seq<char>>) -> Seq<Seq<char>>
    decreases ks.len(),
{
    if ks.len() == 0 {
        Seq::empty()
    } else {
        insert_sorted(sorted_keys(ks.drop_last()), ks.last())
    }
}

/// Every path registered in either workspace, ascending.
pub open spec fn union_keys(or: TypeRegistry, nr: TypeRegistry) -> Seq<Seq<char>> {
    sorted_keys(or.definitions.key_seq() + nr.definitions.key_seq())
}

/// The diffs for one path: removed, added, or compared.
pub open spec fn key_diffs(or: TypeRegistry, nr: TypeRegistry, k: Seq<char>) -> Seq<DiffV> {
    match (or.definitions.spec_get(k), nr.definitions.spec_get(k)) {
        (Some(o), None) => seq![removal_diff(k, o)],
        (None, Some(n)) => seq![addition_diff(k, n)],
        (Some(o), Some(n)) => definition_diffs(k, o, n, or, nr),
        (None, None) => Seq::empty(),
    }
}

/// The diffs of all paths of `ks`, in order.
pub open spec fn all_diffs(or: TypeRegistry, nr: TypeRegistry, ks: Seq<Seq<char>>) -> Seq<DiffV>
    decreases ks.len(),
{
    if ks.len() == 0 {
        Seq::empty()
    } else {
        all_diffs(or, nr, ks.drop_last()) + key_diffs(or, nr, ks.last())
    }
}

/// Skipping the first `i` entries, each neither `k` nor above it, keeps them in front.
proof fn lemma_insert_skip(s: Seq<Seq<char>>, k: Seq<char>, i: int)
    requires
        0 <= i <= s.len(),
        forall|j: int| 0 <= j < i ==> s[j] != k && !crate::text::seq_lt(k, #[trigger] s[j]),
    ensures
        insert_sorted(s, k) == s.take(i) + insert_sorted(s.skip(i), k),
    decreases i,
{
    if i == 0 {
        assert(s.take(0) + s.skip(0) =~= s);
        assert(s.skip(0) =~= s);
        assert(s.take(0) + insert_sorted(s, k) =~= insert_sorted(s, k));
    } else {
        let t = s.drop_first();
        assert forall|j: int| 0 <= j < i - 1 implies t[j] != k && !crate::text::seq_lt(k, #[trigger] t[j]) by {
            assert(t[j] == s[j + 1]);
        }
        lemma_insert_skip(t, k, i - 1);
        assert(s[0] != k && !crate::text::seq_lt(k, s[0]));
        assert(t.skip(i - 1) =~= s.skip(i));
        assert(seq![s[0]] + t.take(i - 1) =~= s.take(i));
        assert(insert_sorted(s, k) == seq![s[0]] + insert_sorted(t, k));
        assert(insert_sorted(s, k) =~= s.take(i) + insert_sorted(s.skip(i), k));
    }
}

/// Puts `k` into the ascending list `v` unless it is there.
fn insert_sorted_exec(v: &mut Vec<String>, k: &String)
    ensures
        strs_view(final(v)@) == insert_sorted(strs_view(old(v)@), k@),
{
    let ghost s = strs_view(v@);
    let mut i: usize = 0;
    while i < v.len()
        invariant
            s == strs_view(v@),
            s == strs_view(old(v)@),
            i <= v@.len(),
            forall|j: int| 0 <= j < i ==> s[j] != k@ && !crate::text::seq_lt(k@, #[trigger] s[j]),
        decreases v@.len() - i,
    {
        assert(s[i as int] == v@[i as int]@);
        if crate::text::str_eq(v[i].as_str(), k.as_str()) {
            proof {
                lemma_insert_skip(s, k@, i as int);
                assert(s.skip(i as int)[0] == k@);
                assert(s.take(i as int) + s.skip(i as int) =~= s);
            }
            return;
        }
        if crate::text::str_lt(k.as_str(), v[i].as_str()) {
            proof {
                lemma_insert_skip(s, k@, i as int);
                assert(s.skip(i as int)[0] == s[i as int]);
            }
            v.insert(i, k.clone());
            assert(strs_view(v@) =~= s.take(i as int) + (seq![k@] + s.skip(i as int)));
            return;
        }
        i += 1;
    }
    proof {
        lemma_insert_skip(s, k@, i as int);
        assert(s.skip(i as int) =~= Seq::<Seq<char>>::empty());
        assert(s.take(i as int) =~= s);
    }
    v.push(k.clone());
    assert(strs_view(v@) =~= s.push(k@));
}

/// Every registered path of both workspaces, ascending and without repeats.
fn all_keys(old_ws: &Workspace, new_ws: &Workspace) -> (r: Vec<String>)
    ensures
        strs_view(r@) == union_keys(old_ws.registry, new_ws.registry),
{
    let ghost ok = old_ws.registry.definitions.key_seq();
    let ghost nk = new_ws.registry.definitions.key_seq();
    let ghost all = ok + nk;
    let mut keys: Vec<String> = Vec::new();
    let n_old = old_ws.registry.definitions.len();
    let mut i: usize = 0;
    assert(all.take(0) =~= Seq::<Seq<char>>::empty());
    assert(strs_view(keys@) =~= Seq::<Seq<char>>::empty());
    while i < n_old
        invariant
            n_old == ok.len(),
            ok == old_ws.registry.definitions.key_seq(),
            all == ok + nk,
            i <= n_old,
            strs_view(keys@) == sorted_keys(all.take(i as int)),
        decreases n_old - i,
    {
        let k = old_ws.registry.definitions.key_at(i);
        assert(all.take(i + 1).drop_last() =~= all.take(i as int));
        assert(all.take(i + 1).last() == k@);
        insert_sorted_exec(&mut keys, k);
        i += 1;
    }
    let n_new = new_ws.registry.definitions.len();
    let mut j: usize = 0;
    while j < n_new
        invariant
            n_old == ok.len(),
            n_new == nk.len(),
            nk == new_ws.registry.definitions.key_seq(),
            all == ok + nk,
            j <= n_new,
            strs_view(keys@) == sorted_keys(all.take(n_old + j)),
        decreases n_new - j,
    {
        let k = new_ws.registry.definitions.key_at(j);
        assert(all.take(n_old + j + 1).drop_last() =~= all.take(n_old + j));
        assert(all.take(n_old + j + 1).last() == k@);
        insert_sorted_exec(&mut keys, k);
        j += 1;
    }
    assert(all.take(n_old + n_new) =~= all);
    keys
}

/// All differences between an old and a new workspace: for every registered
/// path in ascending order, a removal, an addition, or the changes between
/// the two definitions.
pub fn compare_workspaces(old_ws: &Workspace, new_ws: &Workspace) -> (r: Vec<DiffResult>)
    ensures
        diffs_view(r@) == all_diffs(old_ws.registry, new_ws.registry, union_keys(old_ws.registry, new_ws.registry)),
{
    let ghost or = old_ws.registry;
    let ghost nr = new_ws.registry;
    let keys = all_keys(old_ws, new_ws);
    let ghost ks = strs_view(keys@);
    let mut diffs: Vec<DiffResult> = Vec::new();
    let mut i: usize = 0;
    assert(ks.take(0) =~= Seq::<Seq<char>>::empty());
    assert(diffs_view(diffs@) =~= Seq::<DiffV>::empty());
    while i < keys.len()
        invariant
            ks == strs_view(keys@),
            i <= keys@.len(),
            diffs_view(diffs@) == all_diffs(or, nr, ks.take(i as int)),
            or == old_ws.registry,
            nr == new_ws.registry,
        decreases keys@.len() - i,
    {
        let key = &keys[i];
        assert(ks.take(i + 1).drop_last() =~= ks.take(i as int));
        assert(ks.take(i + 1).last() == key@);
        let ghost before = diffs_view(diffs@);
        match (old_ws.registry.get(key.as_str()), new_ws.registry.get(key.as_str())) {
            (Some(o), None) => {
                diffs.push(crate::abi::removal_diff_exec(key.as_str(), o));
            },
            (None, Some(n)) => {
                diffs.push(crate::abi::addition_diff_exec(key.as_str(), n));
            },
            (Some(o), Some(n)) => {
                let mut more = compare_definitions(key.as_str(), o, n, old_ws, new_ws);
                let ghost mv = diffs_view(more@);
                diffs.append(&mut more);
                assert(diffs_view(diffs@) =~= before + mv);
            },
            (None, None) => {},
        }
        assert(diffs_view(diffs@) =~= before + key_diffs(or, nr, key@));
        i += 1;
    }
    assert(ks.take(keys@.len() as int) =~= ks);
    diffs
}


// ---------------------------------------------------------------------------
// The human-readable report.

/// The report text when nothing changed.
pub open spec fn no_changes_text() -> Seq<char> {
    "No layout or interface changes detected."@
}

/// Descriptions of the diffs of entity `e`, in order.
pub open spec fn entity_descs(ds: Seq<DiffV>, e: Seq<char>) -> Seq<Seq<char>>
    decreases ds.len(),
{
    if ds.len() == 0 {
        Seq::empty()
    } else {
        entity_descs(ds.drop_last(), e) + if ds.last().entity == e { seq![ds.last().description] } else { Seq::empty() }
    }
}

/// The highest severity among the diffs of entity `e` (`Safe` when none).
pub open spec fn entity_severity(ds: Seq<DiffV>, e: Seq<char>) -> Severity
    decreases ds.len(),
{
    if ds.len() == 0 {
        Severity::Safe
    } else {
        let m = entity_severity(ds.drop_last(), e);
        if ds.last().entity == e && crate::abi::severity_rank(ds.last().severity) > crate::abi::severity_rank(m) {
            ds.last().severity
        } else {
            m
        }
    }
}

/// `x` put into the ascending list `s`, after any entries equal to it.
pub open spec fn insert_asc(s: Seq<Seq<char>>, x: Seq<char>) -> Seq<Seq<char>>
    decreases s.len(),
{
    if s.len() == 0 {
        seq![x]
    } else if crate::text::seq_lt(x, s[0]) {
        seq![x] + s
    } else {
        seq![s[0]] + insert_asc(s.drop_first(), x)
    }
}

/// The texts of `xs` in ascending order.
pub open spec fn sort_texts(xs: Seq<Seq<char>>) -> Seq<Seq<char>>
    decreases xs.len(),
{
    if xs.len() == 0 {
        Seq::empty()
    } else {
        insert_asc(sort_texts(xs.drop_last()), xs.last())
    }
}

/// One `* text` line per entry.
pub open spec fn bullet_lines(xs: Seq<Seq<char>>) -> Seq<char>
    decreases xs.len(),
{
    if xs.len() == 0 {
        Seq::empty()
    } else {
        bullet_lines(xs.drop_last()) + "* "@ + xs.last() + "\n"@
    }
}

/// The two impact lines for a severity.
pub open spec fn impact_text(s: Severity) -> Seq<char> {
    match s {
        Severity::Critical => "* Existing accounts incompatible\n* Migration required"@,
        Severity::Major => "* Account size changed\n* Reallocation and rent top-up required"@,
        Severity::Minor => "* Layout matches or appended at end\n* Safe to upgrade with realloc if needed"@,
        Severity::Safe => "* No layout impact\n* No migration required"@,
    }
}

/// The report block of entity `e`: its last path segment, its highest
/// severity, its change descriptions in ascending order, and the impact.
pub open spec fn entity_block(ds: Seq<DiffV>, e: Seq<char>) -> Seq<char> {
    let sev = entity_severity(ds, e);
    "⚠ "@ + crate::text::split_sep(e).last() + "\nSeverity: "@ + crate::abi::severity_text(sev) + "\n\nChanges:\n"@
        + bullet_lines(sort_texts(entity_descs(ds, e))) + "\nImpact:\n"@ + impact_text(sev)
}

/// The blocks of entities `es`, separated by a blank line.
pub open spec fn entity_blocks(ds: Seq<DiffV>, es: Seq<Seq<char>>) -> Seq<char>
    decreases es.len(),
{
    if es.len() == 0 {
        Seq::empty()
    } else if es.len() == 1 {
        entity_block(ds, es[0])
    } else {
        entity_blocks(ds, es.drop_last()) + "\n\n"@ + entity_block(ds, es.last())
    }
}

/// The entities of a list of diffs.
pub open spec fn entities_of(ds: Seq<DiffV>) -> Seq<Seq<char>> {
    Seq::new(ds.len(), |i: int| ds[i].entity)
}

/// The full report for a list of diffs.
pub open spec fn report_text(ds: Seq<DiffV>) -> Seq<char> {
    if ds.len() == 0 {
        no_changes_text()
    } else {
        entity_blocks(ds, sorted_keys(entities_of(ds)))
    }
}

/// Puts `x` into the ascending list `v`, after entries equal to it.
fn insert_asc_exec(v: &mut Vec<String>, x: String)
    ensures
        strs_view(final(v)@) == insert_asc(strs_view(old(v)@), x@),
{
    let ghost s = strs_view(v@);
    let mut i: usize = 0;
    assert(s.skip(0) =~= s);
    assert(s.take(0) + insert_asc(s, x@) =~= insert_asc(s, x@));
    while i < v.len()
        invariant
            s == strs_view(v@),
            s == strs_view(old(v)@),
            i <= v@.len(),
            insert_asc(s, x@) == s.take(i as int) + insert_asc(s.skip(i as int), x@),
        decreases v@.len() - i,
    {
        assert(s[i as int] == v@[i as int]@);
        let ghost t = s.skip(i as int);
        assert(t[0] == s[i as int]);
        if crate::text::str_lt(x.as_str(), v[i].as_str()) {
            v.insert(i, x);
            assert(strs_view(v@) =~= s.take(i as int) + (seq![x@] + t));
            return;
        }
        assert(t.drop_first() =~= s.skip(i + 1));
        assert(s.take(i as int) + seq![s[i as int]] =~= s.take(i + 1));
        assert(s.take(i as int) + insert_asc(t, x@) =~= s.take(i + 1) + insert_asc(s.skip(i + 1), x@));
        i += 1;
    }
    assert(s.skip(i as int) =~= Seq::<Seq<char>>::empty());
    assert(s.take(i as int) =~= s);
    v.push(x);
    assert(strs_view(v@) =~= s.push(x@));
}

/// The impact lines for a severity.
fn impact_exec(s: Severity) -> (r: &'static str)
    ensures
        r@ == impact_text(s),
{
    match s {
        Severity::Critical => "* Existing accounts incompatible\n* Migration required",
        Severity::Major => "* Account size changed\n* Reallocation and rent top-up required",
        Severity::Minor => "* Layout matches or appended at end\n* Safe to upgrade with realloc if needed",
        Severity::Safe => "* No layout impact\n* No migration required",
    }
}

/// The report block of entity `e`.
fn entity_block_exec(diffs: &Vec<DiffResult>, e: &str) -> (r: String)
    ensures
        r@ == entity_block(diffs_view(diffs@), e@),
{
    let ghost dv_ = diffs_view(diffs@);
    let mut descs: Vec<String> = Vec::new();
    let mut sev = Severity::Safe;
    let mut i: usize = 0;
    assert(dv_.take(0) =~= Seq::<DiffV>::empty());
    while i < diffs.len()
        invariant
            dv_ == diffs_view(diffs@),
            i <= diffs@.len(),
            strs_view(descs@) == entity_descs(dv_.take(i as int), e@),
            sev == entity_severity(dv_.take(i as int), e@),
        decreases diffs@.len() - i,
    {
        let ghost t = dv_.take(i + 1);
        assert(t.drop_last() =~= dv_.take(i as int));
        assert(t.last() == diffs@[i as int]@);
        if crate::text::str_eq(diffs[i].entity.as_str(), e) {
            descs.push(diffs[i].description.clone());
            assert(strs_view(descs@) =~= entity_descs(t, e@));
            sev = sev.max_with(diffs[i].severity);
        } else {
            assert(strs_view(descs@) =~= entity_descs(t, e@));
        }
        i += 1;
    }
    assert(dv_.take(diffs@.len() as int) =~= dv_);
    let ghost ds = strs_view(descs@);
    let mut sorted: Vec<String> = Vec::new();
    let mut k: usize = 0;
    assert(ds.take(0) =~= Seq::<Seq<char>>::empty());
    while k < descs.len()
        invariant
            ds == strs_view(descs@),
            k <= descs@.len(),
            strs_view(sorted@) == sort_texts(ds.take(k as int)),
        decreases descs@.len() - k,
    {
        assert(ds.take(k + 1).drop_last() =~= ds.take(k as int));
        assert(ds.take(k + 1).last() == descs@[k as int]@);
        insert_asc_exec(&mut sorted, descs[k].clone());
        k += 1;
    }
    assert(ds.take(descs@.len() as int) =~= ds);
    let segs = crate::text::split_path(e);
    proof {
        crate::text::lemma_split_nonempty(e@);
    }
    let mut out = crate::text::lit("⚠ ");
    crate::text::append_str(&mut out, segs[segs.len() - 1].as_str());
    crate::text::push_lit(&mut out, "\nSeverity: ");
    let st = sev.to_string();
    crate::text::append_str(&mut out, st.as_str());
    crate::text::push_lit(&mut out, "\n\nChanges:\n");
    let ghost head = out@;
    let ghost ss = strs_view(sorted@);
    let mut j: usize = 0;
    assert(ss.take(0) =~= Seq::<Seq<char>>::empty());
    assert(head + bullet_lines(ss.take(0)) =~= head);
    while j < sorted.len()
        invariant
            ss == strs_view(sorted@),
            j <= sorted@.len(),
            out@ == head + bullet_lines(ss.take(j as int)),
        decreases sorted@.len() - j,
    {
        assert(ss.take(j + 1).drop_last() =~= ss.take(j as int));
        assert(ss.take(j + 1).last() == sorted@[j as int]@);
        crate::text::push_lit(&mut out, "* ");
        crate::text::append_str(&mut out, sorted[j].as_str());
        crate::text::push_lit(&mut out, "\n");
        assert(out@ =~= head + bullet_lines(ss.take(j + 1)));
        j += 1;
    }
    assert(ss.take(sorted@.len() as int) =~= ss);
    crate::text::push_lit(&mut out, "\nImpact:\n");
    crate::text::push_lit(&mut out, impact_exec(sev));
    assert(segs@[segs@.len() - 1]@ == crate::text::split_sep(e@).last());
    assert(out@ =~= entity_block(dv_, e@));
    out
}

/// Renders diffs grouped by entity (ascending), each with its highest
/// severity, its sorted change descriptions and the impact of that severity.
pub fn format_diff_results(diffs: &Vec<DiffResult>) -> (r: String)
    ensures
        r@ == report_text(diffs_view(diffs@)),
{
    let ghost dv_ = diffs_view(diffs@);
    if diffs.len() == 0 {
        return crate::text::lit("No layout or interface changes detected.");
    }
    let mut entities: Vec<String> = Vec::new();
    let ghost es_all = entities_of(dv_);
    let mut i: usize = 0;
    assert(es_all.take(0) =~= Seq::<Seq<char>>::empty());
    assert(strs_view(entities@) =~= Seq::<Seq<char>>::empty());
    while i < diffs.len()
        invariant
            dv_ == diffs_view(diffs@),
            es_all == entities_of(dv_),
            i <= diffs@.len(),
            strs_view(entities@) == sorted_keys(es_all.take(i as int)),
        decreases diffs@.len() - i,
    {
        assert(es_all.take(i + 1).drop_last() =~= es_all.take(i as int));
        assert(es_all.take(i + 1).last() == diffs@[i as int].entity@);
        insert_sorted_exec(&mut entities, &diffs[i].entity);
        i += 1;
    }
    assert(es_all.take(diffs@.len() as int) =~= es_all);
    let ghost es = strs_view(entities@);
    let mut out = String::new();
    let mut k: usize = 0;
    assert(es.take(0) =~= Seq::<Seq<char>>::empty());
    assert(out@ =~= Seq::<char>::empty());
    while k < entities.len()
        invariant
            dv_ == diffs_view(diffs@),
            es == strs_view(entities@),
            k <= entities@.len(),
            out@ == entity_blocks(dv_, es.take(k as int)),
        decreases entities@.len() - k,
    {
        let ghost t = es.take(k + 1);
        assert(t.drop_last() =~= es.take(k as int));
        assert(t.last() == entities@[k as int]@);
        if k > 0 {
            crate::text::push_lit(&mut out, "\n\n");
        }
        let b = entity_block_exec(diffs, entities[k].as_str());
        crate::text::append_str(&mut out, b.as_str());
        if k == 0 {
            assert(t =~= seq![es[0]]);
            assert(out@ =~= entity_blocks(dv_, t));
        } else {
            assert(out@ =~= entity_blocks(dv_, t));
        }
        k += 1;
    }
    assert(es.take(entities@.len() as int) =~= es);
    out
}

} // verus!

verus! {

// ---------------------------------------------------------------------------
// Comparing a workspace with itself.

/// Names that occur once each.
pub open spec fn names_distinct(names: Seq<Seq<char>>) -> bool {
    forall|i: int, j: int| 0 <= i < names.len() && 0 <= j < names.len() && i != j ==> names[i] != names[j]
}

/// A definition whose fields (or variants) have distinct names, as Rust
/// requires; a PDA or accounts struct is compared as a whole, so any such struct.
pub open spec fn members_distinct(d: TypeDefV) -> bool {
    match d {
        TypeDefV::Struct(s) => spec_is_pda(s) || names_distinct(field_names(s.fields)),
        TypeDefV::Enum(e) => names_distinct(variant_names(e.variants)),
        _ => true,
    }
}

/// With distinct names, each name is found at its own position.
proof fn lemma_last_index_distinct(names: Seq<Seq<char>>, i: int)
    requires
        names_distinct(names),
        0 <= i < names.len(),
    ensures
        last_index(names, names[i]) == i,
{
    crate::abi::lemma_last_index(names, names[i]);
    let li = last_index(names, names[i]);
    if li < i {
        assert(names[i] != names[i]);
    }
}

/// Comparing a list of distinct names with itself finds nothing moved, removed or added.
proof fn lemma_same_names(names: Seq<Seq<char>>, e: Seq<char>, is_enum: bool, k: int)
    requires
        names_distinct(names),
        k <= names.len(),
    ensures
        moves_part(names, names, e, k, is_enum) == Seq::<DiffV>::empty(),
        adds_part(names, names, e, k, is_enum) == Seq::<DiffV>::empty(),
    decreases k,
{
    if k > 0 {
        lemma_same_names(names, e, is_enum, k - 1);
        lemma_last_index_distinct(names, k - 1);
        assert(crate::abi::move_item(names, names, e, k - 1, is_enum) =~= Seq::<DiffV>::empty());
        assert(crate::abi::add_item(names, names, e, k - 1, is_enum) =~= Seq::<DiffV>::empty());
        assert(moves_part(names, names, e, k, is_enum) =~= Seq::<DiffV>::empty());
        assert(adds_part(names, names, e, k, is_enum) =~= Seq::<DiffV>::empty());
    }
}

/// Comparing a field list with distinct names with itself finds no type change.
proof fn lemma_same_types(fs: Seq<FieldV>, e: Seq<char>, r: TypeRegistry, k: int)
    requires
        names_distinct(field_names(fs)),
        k <= fs.len(),
    ensures
        types_part(fs, fs, e, r, r, k) == Seq::<DiffV>::empty(),
    decreases k,
{
    if k > 0 {
        lemma_same_types(fs, e, r, k - 1);
        lemma_last_index_distinct(field_names(fs), k - 1);
        assert(type_item(fs, fs, e, r, r, k - 1) =~= Seq::<DiffV>::empty());
        assert(types_part(fs, fs, e, r, r, k) =~= Seq::<DiffV>::empty());
    }
}

/// A definition compared with itself shows no difference.
proof fn lemma_same_definition(e: Seq<char>, d: TypeDefV, r: TypeRegistry)
    requires
        members_distinct(d),
    ensures
        definition_diffs(e, d, d, r, r) == Seq::<DiffV>::empty(),
{
    match d {
        TypeDefV::Struct(s) => if spec_is_pda(s) {
            assert(definition_diffs(e, d, d, r, r) =~= Seq::<DiffV>::empty());
        } else {
            let names = field_names(s.fields);
            lemma_same_names(names, e, false, names.len() as int);
            lemma_same_types(s.fields, e, r, s.fields.len() as int);
            assert(size_part(e, r, r) =~= Seq::<DiffV>::empty());
            assert(definition_diffs(e, d, d, r, r) =~= Seq::<DiffV>::empty());
        },
        TypeDefV::Enum(en) => {
            let names = variant_names(en.variants);
            lemma_same_names(names, e, true, names.len() as int);
            assert(definition_diffs(e, d, d, r, r) =~= Seq::<DiffV>::empty());
        },
        _ => {},
    }
}

/// Comparing a workspace with itself reports no difference, provided every
/// struct that is no PDA or accounts definition, and every enum, has
/// distinct member names (as Rust requires).
pub proof fn law_compare_self_is_empty(ws: Workspace)
    requires
        forall|i: int| 0 <= i < ws.registry.definitions.pairs().len() ==> members_distinct(
            #[trigger] ws.registry.definitions.pairs()[i].1),
    ensures
        all_diffs(ws.registry, ws.registry, union_keys(ws.registry, ws.registry)) == Seq::<DiffV>::empty(),
{
    let r = ws.registry;
    assert forall|k: Seq<char>| #[trigger] key_diffs(r, r, k) == Seq::<DiffV>::empty() by {
        let p = r.definitions.pairs();
        if crate::maps::has_key(p, k) {
            let i = crate::maps::key_index(p, k);
            lemma_same_definition(k, p[i].1, r);
        }
    }
    lemma_all_diffs_empty(r, union_keys(r, r));
}

/// With no difference for any key, a list of keys shows none.
proof fn lemma_all_diffs_empty(r: TypeRegistry, ks: Seq<Seq<char>>)
    requires
        forall|k: Seq<char>| #[trigger] key_diffs(r, r, k) == Seq::<DiffV>::empty(),
    ensures
        all_diffs(r, r, ks) == Seq::<DiffV>::empty(),
    decreases ks.len(),
{
    if ks.len() > 0 {
        lemma_all_diffs_empty(r, ks.drop_last());
        assert(key_diffs(r, r, ks.last()) == Seq::<DiffV>::empty());
        assert(all_diffs(r, r, ks) =~= Seq::<DiffV>::empty());
    }
}

} // verus!

verus! {

/// The report of a workspace compared with itself says that nothing changed
/// (every struct that is no PDA or accounts definition, and every enum,
/// having distinct member names).
pub proof fn law_self_report_unchanged(ws: Workspace)
    requires
        forall|i: int| 0 <= i < ws.registry.definitions.pairs().len() ==> members_distinct(
            #[trigger] ws.registry.definitions.pairs()[i].1),
    ensures
        report_text(all_diffs(ws.registry, ws.registry, union_keys(ws.registry, ws.registry))) == no_changes_text(),
{
    law_compare_self_is_empty(ws);
}

// ---------------------------------------------------------------------------
// Deployment recommendation.

/// The highest severity among a list of diffs (`Safe` when there is none).
pub open spec fn max_severity(ds: Seq<DiffV>) -> Severity
    decreases ds.len(),
{
    if ds.len() == 0 {
        Severity::Safe
    } else {
        let m = max_severity(ds.drop_last());
        if crate::abi::severity_rank(ds.last().severity) > crate::abi::severity_rank(m) { ds.last().severity } else { m }
    }
}

/// What an upgrade of the given severity is recommended: blocked when
/// critical, a warning when major, approved otherwise.
pub open spec fn recommendation_text(s: Severity) -> Seq<char> {
    match s {
        Severity::Critical => "**BLOCK**"@,
        Severity::Major => "**WARNING** (Major layout changes, verify reallocation/rent)"@,
        _ => "**APPROVE**"@,
    }
}

/// The highest severity of a list of diffs and the deployment recommendation
/// for it.
pub fn deployment_recommendation(diffs: &Vec<DiffResult>) -> (r: (Severity, String))
    ensures
        r.0 == max_severity(diffs_view(diffs@)),
        r.1@ == recommendation_text(r.0),
{
    let ghost ds = diffs_view(diffs@);
    let mut acc = Severity::Safe;
    let mut i: usize = 0;
    assert(ds.take(0) =~= Seq::<DiffV>::empty());
    while i < diffs.len()
        invariant
            i <= diffs@.len(),
            ds == diffs_view(diffs@),
            acc == max_severity(ds.take(i as int)),
        decreases diffs@.len() - i,
    {
        assert(ds.take(i + 1).drop_last() =~= ds.take(i as int));
        assert(ds.take(i + 1).last() == diffs@[i as int]@);
        acc = acc.max_with(diffs[i].severity);
        i += 1;
    }
    assert(ds.take(diffs@.len() as int) =~= ds);
    let text = match acc {
        Severity::Critical => "**BLOCK**".to_string(),
        Severity::Major => "**WARNING** (Major layout changes, verify reallocation/rent)".to_string(),
        _ => "**APPROVE**".to_string(),
    };
    proof {
        reveal_strlit("**BLOCK**");
        reveal_strlit("**WARNING** (Major layout changes, verify reallocation/rent)");
        reveal_strlit("**APPROVE**");
    }
    (acc, text)
}

} // verus!

verus! {

// ---------------------------------------------------------------------------
// A field whose type changes is reported.

proof fn lemma_insert_sorted_contains(s: Seq<Seq<char>>, k: Seq<char>)
    ensures
        insert_sorted(s, k).contains(k),
        forall|x: Seq<char>| s.contains(x) ==> #[trigger] insert_sorted(s, k).contains(x),
    decreases s.len(),
{
    let r = insert_sorted(s, k);
    if s.len() == 0 {
        assert(r[0] == k);
    } else if s[0] == k {
        assert(r[0] == k);
    } else if crate::text::seq_lt(k, s[0]) {
        assert(r[0] == k);
        assert forall|x: Seq<char>| s.contains(x) implies #[trigger] r.contains(x) by {
            let i = choose|i: int| 0 <= i < s.len() && s[i] == x;
            assert(r[i + 1] == x);
        }
    } else {
        let t = s.drop_first();
        lemma_insert_sorted_contains(t, k);
        let j = choose|j: int| 0 <= j < insert_sorted(t, k).len() && insert_sorted(t, k)[j] == k;
        assert(r[j + 1] == k);
        assert forall|x: Seq<char>| s.contains(x) implies #[trigger] r.contains(x) by {
            let i = choose|i: int| 0 <= i < s.len() && s[i] == x;
            if i == 0 {
                assert(r[0] == x);
            } else {
                assert(t[i - 1] == x);
                assert(insert_sorted(t, k).contains(x));
                let m = choose|m: int| 0 <= m < insert_sorted(t, k).len() && insert_sorted(t, k)[m] == x;
                assert(r[m + 1] == x);
            }
        }
    }
}

proof fn lemma_sorted_keys_contains(ks: Seq<Seq<char>>, k: Seq<char>)
    requires
        ks.contains(k),
    ensures
        sorted_keys(ks).contains(k),
    decreases ks.len(),
{
    let kd = ks.drop_last();
    lemma_insert_sorted_contains(sorted_keys(kd), ks.last());
    if ks.last() != k {
        let i = choose|i: int| 0 <= i < ks.len() && ks[i] == k;
        assert(kd[i] == k);
        lemma_sorted_keys_contains(kd, k);
    }
}

proof fn lemma_all_diffs_contains(or: TypeRegistry, nr: TypeRegistry, ks: Seq<Seq<char>>, k: Seq<char>, d: DiffV)
    requires
        ks.contains(k),
        key_diffs(or, nr, k).contains(d),
    ensures
        all_diffs(or, nr, ks).contains(d),
    decreases ks.len(),
{
    let kd = ks.drop_last();
    let a = all_diffs(or, nr, kd);
    let b = key_diffs(or, nr, ks.last());
    assert(all_diffs(or, nr, ks) == a + b);
    if ks.last() == k {
        let j = choose|j: int| 0 <= j < b.len() && b[j] == d;
        assert((a + b)[a.len() + j] == d);
    } else {
        let i = choose|i: int| 0 <= i < ks.len() && ks[i] == k;
        assert(kd[i] == k);
        lemma_all_diffs_contains(or, nr, kd, k, d);
        let j = choose|j: int| 0 <= j < a.len() && a[j] == d;
        assert((a + b)[j] == d);
    }
}

proof fn lemma_types_part_contains(olds: Seq<FieldV>, news: Seq<FieldV>, e: Seq<char>, or: TypeRegistry, nr: TypeRegistry,
    k: int, i: int)
    requires
        0 <= i < k,
        type_item(olds, news, e, or, nr, i).len() > 0,
    ensures
        types_part(olds, news, e, or, nr, k).contains(type_item(olds, news, e, or, nr, i)[0]),
    decreases k,
{
    let a = types_part(olds, news, e, or, nr, k - 1);
    let b = type_item(olds, news, e, or, nr, k - 1);
    assert(types_part(olds, news, e, or, nr, k) == a + b);
    if i == k - 1 {
        assert((a + b)[a.len() as int] == b[0]);
    } else {
        lemma_types_part_contains(olds, news, e, or, nr, k - 1, i);
        let j = choose|j: int| 0 <= j < a.len() && a[j] == type_item(olds, news, e, or, nr, i)[0];
        assert((a + b)[j] == a[j]);
    }
}

/// When a struct (no PDA or accounts definition) registered under the same
/// path in both workspaces keeps a field by name but changes its type, the
/// comparison reports a type change for that path: Critical when the field's
/// width is unchanged, Major (with both widths) when it changes.
pub proof fn law_field_type_change_reported(or: TypeRegistry, nr: TypeRegistry, e: Seq<char>, a: crate::types::StructV, b: crate::types::StructV,
    i: int, j: int)
    requires
        or.definitions.spec_get(e) == Some(TypeDefV::Struct(a)),
        nr.definitions.spec_get(e) == Some(TypeDefV::Struct(b)),
        !spec_is_pda(a),
        !spec_is_pda(b),
        0 <= i < a.fields.len(),
        0 <= j < b.fields.len(),
        b.fields[j].name == a.fields[i].name,
        forall|k: int| 0 <= k < b.fields.len() && k != j ==> b.fields[k].name != a.fields[i].name,
        a.fields[i].type_ref != b.fields[j].type_ref,
    ensures
        ({
            let name = a.fields[i].name;
            let os = field_width(or, a.fields[i].type_ref);
            let ns = field_width(nr, b.fields[j].type_ref);
            let all = all_diffs(or, nr, union_keys(or, nr));
            &&& os == ns ==> all.contains(dv(e, ChangeType::TypeChange, Severity::Critical,
                "Field '"@ + name + "' type changed without changing size"@))
            &&& os != ns ==> all.contains(dv(e, ChangeType::TypeChange, Severity::Major,
                "Field '"@ + name + "' type width changed: "@ + decimal(os as nat) + " bytes → "@ + decimal(ns as nat) + " bytes"@))
        }),
{
    let names = field_names(b.fields);
    crate::abi::lemma_last_index(names, a.fields[i].name);
    assert(names[j] == a.fields[i].name);
    let li = last_index(names, a.fields[i].name);
    if li < j {
        assert(names[j] != a.fields[i].name);
    }
    assert(li == j);
    let item = type_item(a.fields, b.fields, e, or, nr, i);
    assert(item.len() == 1);
    lemma_types_part_contains(a.fields, b.fields, e, or, nr, a.fields.len() as int, i);
    let on = field_names(a.fields);
    let nn = field_names(b.fields);
    let p1 = moves_part(on, nn, e, on.len() as int, false) + adds_part(on, nn, e, nn.len() as int, false);
    let tp = types_part(a.fields, b.fields, e, or, nr, a.fields.len() as int);
    let sp = size_part(e, or, nr);
    let dd = definition_diffs(e, TypeDefV::Struct(a), TypeDefV::Struct(b), or, nr);
    assert(dd == p1 + tp + sp);
    let m = choose|m: int| 0 <= m < tp.len() && tp[m] == item[0];
    assert(dd[p1.len() + m] == item[0]);
    assert(key_diffs(or, nr, e) == dd);
    assert(dd.contains(item[0]));
    let ks = or.definitions.key_seq() + nr.definitions.key_seq();
    assert(crate::maps::has_key(or.definitions.pairs(), e));
    let p = or.definitions.pairs();
    let x = choose|x: int| 0 <= x < p.len() && p[x].0 == e;
    assert(ks[x] == e);
    lemma_sorted_keys_contains(ks, e);
    lemma_all_diffs_contains(or, nr, union_keys(or, nr), e, item[0]);
}

/// When a struct (no PDA or accounts definition) registered under the same
/// path in both workspaces changes its layout size, the comparison reports an
/// account layout change, Major, for that path.
pub proof fn law_layout_size_change_reported(or: TypeRegistry, nr: TypeRegistry, e: Seq<char>, a: crate::types::StructV,
    b: crate::types::StructV)
    requires
        or.definitions.spec_get(e) == Some(TypeDefV::Struct(a)),
        nr.definitions.spec_get(e) == Some(TypeDefV::Struct(b)),
        !spec_is_pda(a),
        !spec_is_pda(b),
        entity_size(or, e) != entity_size(nr, e),
    ensures
        all_diffs(or, nr, union_keys(or, nr)).contains(dv(e, ChangeType::AccountLayoutChange, Severity::Major,
            "account layout changed"@)),
{
    let on = field_names(a.fields);
    let nn = field_names(b.fields);
    let p1 = moves_part(on, nn, e, on.len() as int, false) + adds_part(on, nn, e, nn.len() as int, false)
        + types_part(a.fields, b.fields, e, or, nr, a.fields.len() as int);
    let sp = size_part(e, or, nr);
    let d = dv(e, ChangeType::AccountLayoutChange, Severity::Major, "account layout changed"@);
    let dd = definition_diffs(e, TypeDefV::Struct(a), TypeDefV::Struct(b), or, nr);
    assert(dd == p1 + sp);
    assert(sp[0] == d);
    assert(dd[p1.len() as int] == d);
    assert(key_diffs(or, nr, e) == dd);
    let ks = or.definitions.key_seq() + nr.definitions.key_seq();
    assert(crate::maps::has_key(or.definitions.pairs(), e));
    let p = or.definitions.pairs();
    let x = choose|x: int| 0 <= x < p.len() && p[x].0 == e;
    assert(ks[x] == e);
    lemma_sorted_keys_contains(ks, e);
    lemma_all_diffs_contains(or, nr, union_keys(or, nr), e, d);
}

/// Every type-change diff of a struct's fields is about that struct and has
/// a cause: some old field has a namesake among the new fields with another
/// type.
pub proof fn law_type_change_diffs_have_cause(olds: Seq<FieldV>, news: Seq<FieldV>, e: Seq<char>, or: TypeRegistry,
    nr: TypeRegistry, k: int, x: int)
    requires
        0 <= k <= olds.len(),
        0 <= x < types_part(olds, news, e, or, nr, k).len(),
    ensures
        types_part(olds, news, e, or, nr, k)[x].entity == e,
        types_part(olds, news, e, or, nr, k)[x].change_type == ChangeType::TypeChange,
        exists|i: int, j: int| 0 <= i < k && 0 <= j < news.len() && #[trigger] news[j].name == #[trigger] olds[i].name
            && olds[i].type_ref != news[j].type_ref,
    decreases k,
{
    let a = types_part(olds, news, e, or, nr, k - 1);
    let b = type_item(olds, news, e, or, nr, k - 1);
    assert(types_part(olds, news, e, or, nr, k) == a + b);
    if x < a.len() {
        law_type_change_diffs_have_cause(olds, news, e, or, nr, k - 1, x);
        assert((a + b)[x] == a[x]);
    } else {
        let names = field_names(news);
        crate::abi::lemma_last_index(names, olds[k - 1].name);
        let j = last_index(names, olds[k - 1].name);
        assert(b.len() > 0);
        assert(news[j].name == names[j]);
        assert(news[j].name == olds[k - 1].name);
    }
}

} // verus!
