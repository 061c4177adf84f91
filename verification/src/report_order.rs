//! The report of a list of diffs does not depend on the order of the diffs.
use vstd::prelude::*;
use crate::abi::{DiffV, Severity, severity_rank};
use crate::text::seq_lt;
use crate::diff::{report_text, entity_descs, entity_severity, insert_asc, sort_texts, insert_sorted, sorted_keys, entities_of,
    entity_block, entity_blocks};

verus! {

// ---------------------------------------------------------------------------
// The order on texts.

proof fn lemma_lt_irreflexive(a: Seq<char>)
    ensures
        !seq_lt(a, a),
    decreases a.len(),
{
    if a.len() > 0 {
        lemma_lt_irreflexive(a.drop_first());
    }
}

proof fn lemma_lt_asymmetric(a: Seq<char>, b: Seq<char>)
    requires
        seq_lt(a, b),
    ensures
        !seq_lt(b, a),
    decreases a.len(),
{
    if a.len() > 0 && b.len() > 0 && a[0] == b[0] {
        lemma_lt_asymmetric(a.drop_first(), b.drop_first());
    }
}

proof fn lemma_lt_transitive(a: Seq<char>, b: Seq<char>, c: Seq<char>)
    requires
        seq_lt(a, b),
        seq_lt(b, c),
    ensures
        seq_lt(a, c),
    decreases a.len(),
{
    if a.len() > 0 && b.len() > 0 && c.len() > 0 && a[0] == b[0] && b[0] == c[0] {
        lemma_lt_transitive(a.drop_first(), b.drop_first(), c.drop_first());
    }
}

proof fn lemma_char_code(x: char)
    ensures
        x as u32 as int == x as int,
{
}

proof fn lemma_lt_total(a: Seq<char>, b: Seq<char>)
    requires
        a != b,
    ensures
        seq_lt(a, b) || seq_lt(b, a),
    decreases a.len(),
{
    if a.len() > 0 && b.len() > 0 {
        if a[0] == b[0] {
            if a.drop_first() == b.drop_first() {
                assert(a =~= seq![a[0]] + a.drop_first());
                assert(b =~= seq![b[0]] + b.drop_first());
            }
            lemma_lt_total(a.drop_first(), b.drop_first());
        } else {
            let x: char = a[0];
            let y: char = b[0];
            lemma_char_code(x);
            lemma_char_code(y);
        }
    } else if a.len() == 0 && b.len() == 0 {
        assert(a =~= b);
    }
}

// ---------------------------------------------------------------------------
// Inserting in either order.

proof fn lemma_insert_asc_lt(s: Seq<Seq<char>>, a: Seq<char>, b: Seq<char>)
    requires
        seq_lt(a, b),
    ensures
        insert_asc(insert_asc(s, a), b) == insert_asc(insert_asc(s, b), a),
    decreases s.len(),
{
    lemma_lt_asymmetric(a, b);
    if s.len() == 0 {
        let sa: Seq<Seq<char>> = seq![a];
        let sb: Seq<Seq<char>> = seq![b];
        assert(insert_asc(s, a) == sa);
        assert(insert_asc(s, b) == sb);
        assert(sa[0] == a && sa.drop_first() =~= s);
        assert(sb[0] == b && sb.drop_first() =~= s);
        assert(insert_asc(sa, b) =~= seq![a] + insert_asc(s, b));
        assert(insert_asc(sb, a) =~= seq![a] + sb);
        assert(insert_asc(insert_asc(s, a), b) =~= seq![a, b]);
        assert(insert_asc(insert_asc(s, b), a) =~= seq![a, b]);
    } else {
        let x = s[0];
        let rest = s.drop_first();
        if seq_lt(a, x) {
            let sa = seq![a] + s;
            assert(sa[0] == a && sa.drop_first() =~= s);
            if seq_lt(b, x) {
                let sb = seq![b] + s;
                assert(sb[0] == b && sb.drop_first() =~= s);
                assert(insert_asc(sa, b) =~= seq![a] + insert_asc(s, b));
                assert(insert_asc(sb, a) =~= seq![a] + sb);
            } else {
                let sb = seq![x] + insert_asc(rest, b);
                assert(sb[0] == x && sb.drop_first() =~= insert_asc(rest, b));
                assert(insert_asc(sa, b) =~= seq![a] + insert_asc(s, b));
                assert(insert_asc(sb, a) =~= seq![a] + sb);
            }
        } else {
            if seq_lt(b, x) {
                lemma_lt_transitive(a, b, x);
            }
            let sa = seq![x] + insert_asc(rest, a);
            assert(sa[0] == x && sa.drop_first() =~= insert_asc(rest, a));
            let sb = seq![x] + insert_asc(rest, b);
            assert(sb[0] == x && sb.drop_first() =~= insert_asc(rest, b));
            lemma_insert_asc_lt(rest, a, b);
            assert(insert_asc(sa, b) =~= seq![x] + insert_asc(insert_asc(rest, a), b));
            assert(insert_asc(sb, a) =~= seq![x] + insert_asc(insert_asc(rest, b), a));
        }
    }
}

proof fn lemma_insert_asc_commutes(s: Seq<Seq<char>>, a: Seq<char>, b: Seq<char>)
    ensures
        insert_asc(insert_asc(s, a), b) == insert_asc(insert_asc(s, b), a),
{
    if a != b {
        lemma_lt_total(a, b);
        if seq_lt(a, b) {
            lemma_insert_asc_lt(s, a, b);
        } else {
            lemma_insert_asc_lt(s, b, a);
        }
    }
}

proof fn lemma_insert_sorted_lt(s: Seq<Seq<char>>, a: Seq<char>, b: Seq<char>)
    requires
        seq_lt(a, b),
    ensures
        insert_sorted(insert_sorted(s, a), b) == insert_sorted(insert_sorted(s, b), a),
    decreases s.len(),
{
    lemma_lt_asymmetric(a, b);
    lemma_lt_irreflexive(a);
    lemma_lt_irreflexive(b);
    if s.len() == 0 {
        let sa: Seq<Seq<char>> = seq![a];
        let sb: Seq<Seq<char>> = seq![b];
        assert(insert_sorted(s, a) == sa);
        assert(insert_sorted(s, b) == sb);
        assert(sa[0] == a && sa.drop_first() =~= s);
        assert(sb[0] == b && sb.drop_first() =~= s);
        assert(insert_sorted(sa, b) =~= seq![a] + insert_sorted(s, b));
        assert(insert_sorted(sb, a) =~= seq![a] + sb);
        assert(insert_sorted(insert_sorted(s, a), b) =~= seq![a, b]);
        assert(insert_sorted(insert_sorted(s, b), a) =~= seq![a, b]);
    } else {
        let x = s[0];
        let rest = s.drop_first();
        assert(s =~= seq![x] + rest);
        if x == a {
            // a is found at once; b goes further on in both orders.
            if seq_lt(b, x) {
                lemma_lt_asymmetric(a, b);
            }
            let sb = seq![x] + insert_sorted(rest, b);
            assert(sb[0] == x && sb.drop_first() =~= insert_sorted(rest, b));
            assert(insert_sorted(insert_sorted(s, a), b) =~= sb);
            assert(insert_sorted(insert_sorted(s, b), a) =~= sb);
        } else if seq_lt(a, x) {
            let sa = seq![a] + s;
            assert(sa[0] == a && sa.drop_first() =~= s);
            if x == b {
                assert(insert_sorted(sa, b) =~= seq![a] + insert_sorted(s, b));
                assert(insert_sorted(s, b) == s);
                assert(insert_sorted(insert_sorted(s, b), a) == sa);
            } else if seq_lt(b, x) {
                let sb = seq![b] + s;
                assert(sb[0] == b && sb.drop_first() =~= s);
                assert(insert_sorted(sa, b) =~= seq![a] + insert_sorted(s, b));
                assert(insert_sorted(sb, a) =~= seq![a] + sb);
            } else {
                let sb = seq![x] + insert_sorted(rest, b);
                assert(sb[0] == x && sb.drop_first() =~= insert_sorted(rest, b));
                assert(insert_sorted(sa, b) =~= seq![a] + insert_sorted(s, b));
                assert(insert_sorted(sb, a) =~= seq![a] + sb);
            }
        } else {
            if x != b && seq_lt(b, x) {
                lemma_lt_transitive(a, b, x);
            }
            if x == b {
                lemma_lt_total(a, x);
            }
            let sa = seq![x] + insert_sorted(rest, a);
            assert(sa[0] == x && sa.drop_first() =~= insert_sorted(rest, a));
            if x == b {
                assert(insert_sorted(sa, b) == sa);
                assert(insert_sorted(s, b) == s);
            } else {
                let sb = seq![x] + insert_sorted(rest, b);
                assert(sb[0] == x && sb.drop_first() =~= insert_sorted(rest, b));
                lemma_insert_sorted_lt(rest, a, b);
                assert(insert_sorted(sa, b) =~= seq![x] + insert_sorted(insert_sorted(rest, a), b));
                assert(insert_sorted(sb, a) =~= seq![x] + insert_sorted(insert_sorted(rest, b), a));
            }
        }
    }
}

proof fn lemma_insert_sorted_commutes(s: Seq<Seq<char>>, a: Seq<char>, b: Seq<char>)
    ensures
        insert_sorted(insert_sorted(s, a), b) == insert_sorted(insert_sorted(s, b), a),
{
    if a != b {
        lemma_lt_total(a, b);
        if seq_lt(a, b) {
            lemma_insert_sorted_lt(s, a, b);
        } else {
            lemma_insert_sorted_lt(s, b, a);
        }
    }
}

// ---------------------------------------------------------------------------
// Folds whose steps commute do not depend on the order of their input.

/// `init` with `f` applied to each item of `s`, first to last.
pub open spec fn fold_steps<A, B>(s: Seq<B>, init: A, f: spec_fn(A, B) -> A) -> A
    decreases s.len(),
{
    if s.len() == 0 {
        init
    } else {
        f(fold_steps(s.drop_last(), init, f), s.last())
    }
}

/// Applying `f` for two items gives the same in either order.
pub open spec fn steps_commute<A, B>(f: spec_fn(A, B) -> A) -> bool {
    forall|a: A, x: B, y: B| #[trigger] f(f(a, x), y) == f(f(a, y), x)
}

proof fn lemma_fold_move<A, B>(t: Seq<B>, init: A, f: spec_fn(A, B) -> A, j: int)
    requires
        steps_commute(f),
        0 <= j < t.len(),
    ensures
        fold_steps(t, init, f) == f(fold_steps(t.remove(j), init, f), t[j]),
    decreases t.len(),
{
    if j < t.len() - 1 {
        let td = t.drop_last();
        lemma_fold_move(td, init, f, j);
        assert(t.remove(j).drop_last() =~= td.remove(j));
        assert(t.remove(j).last() == t.last());
        let r = fold_steps(td.remove(j), init, f);
        assert(f(f(r, t[j]), t.last()) == f(f(r, t.last()), t[j]));
    } else {
        assert(t.remove(j) =~= t.drop_last());
    }
}

proof fn lemma_fold_perm<A, B>(s: Seq<B>, t: Seq<B>, init: A, f: spec_fn(A, B) -> A)
    requires
        steps_commute(f),
        s.to_multiset() == t.to_multiset(),
    ensures
        fold_steps(s, init, f) == fold_steps(t, init, f),
    decreases s.len(),
{
    broadcast use vstd::seq_lib::group_to_multiset_ensures;
    broadcast use vstd::multiset::group_multiset_axioms;

    if s.len() == 0 {
        assert(t.to_multiset().len() == 0);
    } else {
        let x = s.last();
        let sd = s.drop_last();
        assert(s =~= sd.push(x));
        assert(s.to_multiset() =~= sd.to_multiset().insert(x));
        assert(t.to_multiset().count(x) > 0);
        assert(t.contains(x));
        let j = choose|j: int| 0 <= j < t.len() && t[j] == x;
        assert(t.remove(j).to_multiset() =~= t.to_multiset().remove(x));
        assert(sd.to_multiset() =~= sd.to_multiset().insert(x).remove(x));
        lemma_fold_perm(sd, t.remove(j), init, f);
        lemma_fold_move(t, init, f, j);
    }
}

// ---------------------------------------------------------------------------
// The parts of the report as folds over the diffs.

/// Puts the entity of a diff into an ascending list of distinct keys.
pub open spec fn key_step() -> spec_fn(Seq<Seq<char>>, DiffV) -> Seq<Seq<char>> {
    |a: Seq<Seq<char>>, d: DiffV| insert_sorted(a, d.entity)
}

/// Puts the description of a diff of entity `e` into an ascending list.
pub open spec fn desc_step(e: Seq<char>) -> spec_fn(Seq<Seq<char>>, DiffV) -> Seq<Seq<char>> {
    |a: Seq<Seq<char>>, d: DiffV| if d.entity == e { insert_asc(a, d.description) } else { a }
}

/// Raises a severity to that of a diff of entity `e` when it is higher.
pub open spec fn sev_step(e: Seq<char>) -> spec_fn(Severity, DiffV) -> Severity {
    |m: Severity, d: DiffV|
        if d.entity == e && severity_rank(d.severity) > severity_rank(m) { d.severity } else { m }
}

proof fn lemma_key_step_commutes()
    ensures
        steps_commute(key_step()),
{
    assert forall|a: Seq<Seq<char>>, x: DiffV, y: DiffV|
        #[trigger] key_step()(key_step()(a, x), y) == key_step()(key_step()(a, y), x) by {
        lemma_insert_sorted_commutes(a, x.entity, y.entity);
    }
}

proof fn lemma_desc_step_commutes(e: Seq<char>)
    ensures
        steps_commute(desc_step(e)),
{
    assert forall|a: Seq<Seq<char>>, x: DiffV, y: DiffV|
        #[trigger] desc_step(e)(desc_step(e)(a, x), y) == desc_step(e)(desc_step(e)(a, y), x) by {
        lemma_insert_asc_commutes(a, x.description, y.description);
    }
}

proof fn lemma_sev_step_commutes(e: Seq<char>)
    ensures
        steps_commute(sev_step(e)),
{
    assert forall|m: Severity, x: DiffV, y: DiffV|
        #[trigger] sev_step(e)(sev_step(e)(m, x), y) == sev_step(e)(sev_step(e)(m, y), x) by {
        if severity_rank(x.severity) == severity_rank(y.severity) {
            assert(x.severity == y.severity);
        }
    }
}

proof fn lemma_keys_fold(ds: Seq<DiffV>)
    ensures
        sorted_keys(entities_of(ds)) == fold_steps(ds, Seq::<Seq<char>>::empty(), key_step()),
    decreases ds.len(),
{
    if ds.len() > 0 {
        lemma_keys_fold(ds.drop_last());
        assert(entities_of(ds).drop_last() =~= entities_of(ds.drop_last()));
    } else {
        assert(entities_of(ds) =~= Seq::<Seq<char>>::empty());
    }
}

proof fn lemma_descs_fold(ds: Seq<DiffV>, e: Seq<char>)
    ensures
        sort_texts(entity_descs(ds, e)) == fold_steps(ds, Seq::<Seq<char>>::empty(), desc_step(e)),
    decreases ds.len(),
{
    if ds.len() > 0 {
        let dl = ds.drop_last();
        lemma_descs_fold(dl, e);
        let xs = entity_descs(ds, e);
        if ds.last().entity == e {
            assert(xs.drop_last() =~= entity_descs(dl, e));
        } else {
            assert(xs =~= entity_descs(dl, e));
        }
    }
}

proof fn lemma_sev_fold(ds: Seq<DiffV>, e: Seq<char>)
    ensures
        entity_severity(ds, e) == fold_steps(ds, Severity::Safe, sev_step(e)),
    decreases ds.len(),
{
    if ds.len() > 0 {
        lemma_sev_fold(ds.drop_last(), e);
    }
}

proof fn lemma_blocks_agree(p: Seq<DiffV>, d: Seq<DiffV>, es: Seq<Seq<char>>)
    requires
        forall|e: Seq<char>| #[trigger] entity_block(p, e) == entity_block(d, e),
    ensures
        entity_blocks(p, es) == entity_blocks(d, es),
    decreases es.len(),
{
    if es.len() > 1 {
        lemma_blocks_agree(p, d, es.drop_last());
        assert(entity_block(p, es.last()) == entity_block(d, es.last()));
    } else if es.len() == 1 {
        assert(entity_block(p, es[0]) == entity_block(d, es[0]));
    }
}

/// The report of a list of diffs does not depend on the order of the diffs:
/// any two lists that hold the same diffs, each as often, give the same
/// report text.
pub proof fn law_report_order_free(p: Seq<DiffV>, d: Seq<DiffV>)
    requires
        p.to_multiset() == d.to_multiset(),
    ensures
        report_text(p) == report_text(d),
{
    broadcast use vstd::seq_lib::group_to_multiset_ensures;

    vstd::seq_lib::to_multiset_len(p);
    vstd::seq_lib::to_multiset_len(d);
    assert(p.len() == d.len());
    if p.len() > 0 {
        lemma_key_step_commutes();
        lemma_fold_perm(p, d, Seq::<Seq<char>>::empty(), key_step());
        lemma_keys_fold(p);
        lemma_keys_fold(d);
        assert forall|e: Seq<char>| #[trigger] entity_block(p, e) == entity_block(d, e) by {
            lemma_desc_step_commutes(e);
            lemma_fold_perm(p, d, Seq::<Seq<char>>::empty(), desc_step(e));
            lemma_descs_fold(p, e);
            lemma_descs_fold(d, e);
            lemma_sev_step_commutes(e);
            lemma_fold_perm(p, d, Severity::Safe, sev_step(e));
            lemma_sev_fold(p, e);
            lemma_sev_fold(d, e);
        }
        lemma_blocks_agree(p, d, sorted_keys(entities_of(p)));
        assert(sorted_keys(entities_of(p)) == sorted_keys(entities_of(d)));
        assert(report_text(p) == entity_blocks(p, sorted_keys(entities_of(p))));
        assert(report_text(d) == entity_blocks(d, sorted_keys(entities_of(d))));
    }
}

} // verus!
