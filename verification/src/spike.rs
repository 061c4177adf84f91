//! A quick inventory of a program's sources: account structs, every struct's
//! fields, and type aliases, by name.
use vstd::prelude::*;
use crate::maps::{StrMap, assoc_insert, str_pairs};

verus! {

/// A named field and its type as written (spaces removed).
#[derive(Debug)]
pub struct AccountField {
    pub name: String,
    pub type_text: String,
}

/// A struct marked `#[account]` with its fields.
#[derive(Debug)]
pub struct AccountStruct {
    pub name: String,
    pub fields: Vec<AccountField>,
}

/// What the inventory found.
#[derive(Debug)]
pub struct WorkspaceAnalysis {
    pub accounts: Vec<AccountStruct>,
    /// struct name -> its fields
    pub structs: StrMap<Vec<AccountField>>,
    /// alias name -> its target as written
    pub aliases: StrMap<String>,
}

/// Model of an [`AccountField`]: name and type text.
pub open spec fn field_text(f: AccountField) -> (Seq<char>, Seq<char>) {
    (f.name@, f.type_text@)
}

/// The models of a list of fields.
pub open spec fn field_texts(v: Seq<AccountField>) -> Seq<(Seq<char>, Seq<char>)> {
    Seq::new(v.len(), |i: int| field_text(v[i]))
}

/// The models of a list of account structs: name and fields.
pub open spec fn accounts_text(v: Seq<AccountStruct>) -> Seq<(Seq<char>, Seq<(Seq<char>, Seq<char>)>)> {
    Seq::new(v.len(), |i: int| (v[i].name@, field_texts(v[i].fields@)))
}

/// A copy of a field list.
fn copy_account_fields(v: &Vec<AccountField>) -> (r: Vec<AccountField>)
    ensures
        field_texts(r@) == field_texts(v@),
{
    let mut out: Vec<AccountField> = Vec::new();
    let mut i: usize = 0;
    while i < v.len()
        invariant
            i <= v@.len(),
            field_texts(out@) == field_texts(v@).subrange(0, i as int),
        decreases v@.len() - i,
    {
        let nf = AccountField { name: crate::text::copy_string(&v[i].name), type_text: crate::text::copy_string(&v[i].type_text) };
        assert(field_text(nf) == field_text(v@[i as int]));
        let ghost o0 = out@;
        out.push(nf);
        assert(field_texts(out@) =~= field_texts(o0).push(field_text(nf)));
        assert(field_texts(v@).subrange(0, i + 1) =~= field_texts(v@).subrange(0, i as int).push(field_text(v@[i as int])));
        i += 1;
    }
    assert(field_texts(v@).subrange(0, v@.len() as int) =~= field_texts(v@));
    out
}

impl WorkspaceAnalysis {
    /// An empty inventory.
    pub fn new() -> (r: Self)
        ensures
            r.accounts@.len() == 0,
            r.structs.pairs().len() == 0,
            r.aliases.pairs().len() == 0,
    {
        WorkspaceAnalysis { accounts: Vec::new(), structs: StrMap::new(), aliases: StrMap::new() }
    }

    /// Records a struct and its fields; an account struct is also listed among the accounts.
    pub fn add_struct(&mut self, name: String, is_account: bool, fields: Vec<AccountField>)
        ensures
            accounts_text(final(self).accounts@) == if is_account {
                accounts_text(old(self).accounts@).push((name@, field_texts(fields@)))
            } else {
                accounts_text(old(self).accounts@)
            },
            final(self).structs.pairs() == assoc_insert(old(self).structs.pairs(), name@, fields@),
            final(self).aliases == old(self).aliases,
    {
        if is_account {
            let ghost a0 = accounts_text(self.accounts@);
            self.accounts.push(AccountStruct { name: name.clone(), fields: copy_account_fields(&fields) });
            assert(accounts_text(self.accounts@) =~= a0.push((name@, field_texts(fields@))));
        }
        self.structs.insert(name, fields);
    }

    /// Records a type alias and its target as written.
    pub fn add_alias(&mut self, name: String, target: String)
        ensures
            final(self).aliases.pairs() == assoc_insert(old(self).aliases.pairs(), name@, target@),
            final(self).accounts == old(self).accounts,
            final(self).structs == old(self).structs,
    {
        self.aliases.insert(name, target);
    }

    /// Adds another file's inventory: its accounts after ours, its structs
    /// and aliases over ours where names agree.
    pub fn merge(&mut self, other: WorkspaceAnalysis)
        ensures
            accounts_text(final(self).accounts@) == accounts_text(old(self).accounts@) + accounts_text(other.accounts@),
            final(self).structs.pairs() == insert_all(old(self).structs.pairs(), other.structs.pairs(), other.structs.pairs().len() as int),
            final(self).aliases.pairs() == insert_all(old(self).aliases.pairs(), other.aliases.pairs(), other.aliases.pairs().len() as int),
    {
        let ghost a0 = accounts_text(self.accounts@);
        let ghost s0 = self.structs.pairs();
        let ghost l0 = self.aliases.pairs();
        let ghost oa = accounts_text(other.accounts@);
        let ghost os = other.structs.pairs();
        let ghost ol = other.aliases.pairs();
        let WorkspaceAnalysis { accounts, structs, aliases } = other;
        let mut accounts = accounts;
        self.accounts.append(&mut accounts);
        assert(accounts_text(self.accounts@) =~= a0 + oa);
        let mut entries = structs.into_entries();
        let ghost ev = str_pairs(entries@);
        let n = entries.len();
        let mut rev: Vec<(String, Vec<AccountField>)> = Vec::new();
        while entries.len() > 0
            invariant
                entries@.len() + rev@.len() == n,
                n == ev.len(),
                forall|i: int| 0 <= i < entries@.len() ==> (entries@[i].0@, entries@[i].1@) == ev[i],
                forall|i: int| 0 <= i < rev@.len() ==> (rev@[i].0@, rev@[i].1@) == ev[n - 1 - i],
                accounts_text(self.accounts@) == a0 + oa,
                self.structs.pairs() == s0,
                self.aliases.pairs() == l0,
            decreases entries@.len(),
        {
            let x = entries.pop().unwrap();
            rev.push(x);
        }
        let mut i: usize = 0;
        while rev.len() > 0
            invariant
                i + rev@.len() == n,
                n == os.len(),
                ev == os,
                forall|k: int| 0 <= k < rev@.len() ==> (rev@[k].0@, rev@[k].1@) == ev[n - 1 - k],
                self.structs.pairs() == insert_all(s0, os, i as int),
                accounts_text(self.accounts@) == a0 + oa,
                self.aliases.pairs() == l0,
            decreases rev@.len(),
        {
            let (k, v) = rev.pop().unwrap();
            self.structs.insert(k, v);
            i += 1;
        }
        let mut j: usize = 0;
        let m = aliases.len();
        while j < m
            invariant
                j <= m,
                m == ol.len(),
                aliases.pairs() == ol,
                self.aliases.pairs() == insert_all(l0, ol, j as int),
                accounts_text(self.accounts@) == a0 + oa,
                self.structs.pairs() == insert_all(s0, os, os.len() as int),
            decreases m - j,
        {
            let k = aliases.key_at(j).clone();
            let v = aliases.value_at(j).clone();
            self.aliases.insert(k, v);
            j += 1;
        }
    }
}

/// `t` with the pairs `p[..k]` inserted in order.
pub open spec fn insert_all<V>(t: Seq<(Seq<char>, V)>, p: Seq<(Seq<char>, V)>, k: int) -> Seq<(Seq<char>, V)>
    decreases k,
{
    if k <= 0 || k > p.len() {
        t
    } else {
        assoc_insert(insert_all(t, p, k - 1), p[k - 1].0, p[k - 1].1)
    }
}

} // verus!

verus! {

// ---------------------------------------------------------------------------
// The listing of a parsed source file.

/// The listing as texts: account structs, all structs, aliases.
pub struct SpikeV {
    pub accounts: Seq<(Seq<char>, Seq<(Seq<char>, Seq<char>)>)>,
    pub structs: Seq<(Seq<char>, Seq<(Seq<char>, Seq<char>)>)>,
    pub aliases: Seq<(Seq<char>, Seq<char>)>,
}

/// The struct table with each field list as texts.
pub open spec fn structs_text(p: Seq<(Seq<char>, Seq<AccountField>)>) -> Seq<(Seq<char>, Seq<(Seq<char>, Seq<char>)>)> {
    Seq::new(p.len(), |i: int| (p[i].0, field_texts(p[i].1)))
}

/// A listing as texts.
pub open spec fn spike_view(a: WorkspaceAnalysis) -> SpikeV {
    SpikeV { accounts: accounts_text(a.accounts@), structs: structs_text(a.structs.pairs()), aliases: a.aliases.pairs() }
}

/// The named fields of a struct item with their type texts.
pub open spec fn source_field_texts(fs: Seq<crate::source::SourceField>) -> Seq<(Seq<char>, Seq<char>)>
    decreases fs.len(),
{
    if fs.len() == 0 {
        Seq::empty()
    } else {
        source_field_texts(fs.drop_last()) + match fs.last().ident {
            Some(n) => seq![(n@, fs.last().ty.tokens())],
            None => Seq::empty(),
        }
    }
}

/// The listing after the items `items`, in order: every struct (an account
/// when it has an `#[account]` attribute) and type alias, also inside inline
/// modules.
pub open spec fn spike_items(st: SpikeV, items: Seq<crate::source::SourceItem>) -> SpikeV
    decreases items,
{
    if items.len() == 0 {
        st
    } else {
        let prev = spike_items(st, items.drop_last());
        match items[items.len() - 1] {
            crate::source::SourceItem::Struct { name, attrs, fields } => {
                let ft = source_field_texts(fields@);
                SpikeV {
                    accounts: if crate::workspace::has_attr(attrs@, "account"@) { prev.accounts.push((name@, ft)) } else { prev.accounts },
                    structs: assoc_insert(prev.structs, name@, ft),
                    aliases: prev.aliases,
                }
            },
            crate::source::SourceItem::TypeAlias { name, ty } =>
                SpikeV { aliases: assoc_insert(prev.aliases, name@, ty.tokens()), ..prev },
            crate::source::SourceItem::Mod { items: inner, .. } => match inner {
                Some(v) => {
                    proof {
                        assert(decreases_to!(items => items[items.len() - 1]));
                        assert(decreases_to!(items[items.len() - 1] => v));
                        assert(decreases_to!(v => v@));
                    }
                    spike_items(prev, v@)
                },
                None => prev,
            },
            _ => prev,
        }
    }
}

/// The empty listing.
pub open spec fn empty_spike() -> SpikeV {
    SpikeV { accounts: Seq::empty(), structs: Seq::empty(), aliases: Seq::empty() }
}

proof fn lemma_structs_text_insert(p: Seq<(Seq<char>, Seq<AccountField>)>, k: Seq<char>, v: Seq<AccountField>)
    requires
        crate::maps::distinct_keys(p),
    ensures
        structs_text(assoc_insert(p, k, v)) == assoc_insert(structs_text(p), k, field_texts(v)),
{
    let t = structs_text(p);
    if crate::maps::has_key(p, k) {
        let i = crate::maps::key_index(p, k);
        assert(t[i].0 == k);
        assert(crate::maps::has_key(t, k));
        let j = crate::maps::key_index(t, k);
        assert(p[j].0 == k);
        assert(i == j);
        assert(structs_text(assoc_insert(p, k, v)) =~= assoc_insert(t, k, field_texts(v)));
    } else {
        assert(!crate::maps::has_key(t, k)) by {
            if crate::maps::has_key(t, k) {
                let j = crate::maps::key_index(t, k);
                assert(p[j].0 == k);
            }
        }
        assert(structs_text(assoc_insert(p, k, v)) =~= assoc_insert(t, k, field_texts(v)));
    }
}

/// The fields of a struct item, with their type texts.
fn account_fields_of(fields: &Vec<crate::source::SourceField>) -> (r: Vec<AccountField>)
    ensures
        field_texts(r@) == source_field_texts(fields@),
{
    let mut out: Vec<AccountField> = Vec::new();
    let mut i: usize = 0;
    while i < fields.len()
        invariant
            i <= fields@.len(),
            field_texts(out@) == source_field_texts(fields@.take(i as int)),
        decreases fields@.len() - i,
    {
        assert(fields@.take(i + 1).drop_last() =~= fields@.take(i as int));
        let ghost before = field_texts(out@);
        match &fields[i].ident {
            Some(n) => {
                let af = AccountField { name: crate::text::copy_string(n), type_text: fields[i].ty.token_text() };
                out.push(af);
                assert(field_texts(out@) =~= before.push(field_text(af)));
            },
            None => {},
        }
        assert(field_texts(out@) =~= source_field_texts(fields@.take(i + 1)));
        i += 1;
    }
    assert(fields@.take(fields@.len() as int) =~= fields@);
    out
}

/// Records the structs and aliases of `items` (also inside inline modules).
#[verifier::loop_isolation(false)]
fn spike_walk(a: &mut WorkspaceAnalysis, items: &Vec<crate::source::SourceItem>)
    ensures
        spike_view(*final(a)) == spike_items(spike_view(*old(a)), items@),
    decreases items@,
{
    let ghost s0 = spike_view(*a);
    let mut i: usize = 0;
    while i < items.len()
        invariant
            i <= items@.len(),
            spike_view(*a) == spike_items(s0, items@.take(i as int)),
        decreases items@.len() - i,
    {
        let ghost t = items@.take(i + 1);
        assert(t.drop_last() =~= items@.take(i as int));
        assert(t[t.len() - 1] == items@[i as int]);
        let ghost prev = spike_view(*a);
        match &items[i] {
            crate::source::SourceItem::Struct { name, attrs, fields } => {
                let fs = account_fields_of(fields);
                let _n = a.structs.len();
                let ghost p0 = a.structs.pairs();
                a.add_struct(crate::text::copy_string(name), crate::workspace::has_attr_exec(attrs, "account"), fs);
                proof {
                    lemma_structs_text_insert(p0, name@, fs@);
                }
                assert(spike_view(*a) =~= spike_items(s0, t));
            },
            crate::source::SourceItem::TypeAlias { name, ty } => {
                a.add_alias(crate::text::copy_string(name), ty.token_text());
                assert(spike_view(*a) =~= spike_items(s0, t));
            },
            crate::source::SourceItem::Mod { items: inner, .. } => {
                match inner {
                    Some(v) => {
                        proof {
                            assert(decreases_to!(items@ => items@[i as int]));
                            assert(decreases_to!(items@[i as int] => *v));
                            assert(decreases_to!(*v => v@));
                        }
                        spike_walk(a, v);
                    },
                    None => {},
                }
            },
            _ => {},
        }
        i += 1;
    }
    assert(items@.take(items@.len() as int) =~= items@);
}

/// Parses a source text and lists its structs (with the accounts among
/// them) and type aliases; `None` when it does not parse.
pub fn parse_source(source: &str) -> (r: Option<WorkspaceAnalysis>)
    ensures
        match crate::syntax::file_of(source@) {
            None => r is None,
            Some(f) => r matches Some(a) && spike_view(a) == spike_items(empty_spike(), f.items@),
        },
{
    match crate::syntax::parse_source_file(source) {
        None => None,
        Some(f) => {
            let mut a = WorkspaceAnalysis::new();
            assert(accounts_text(a.accounts@) =~= Seq::<(Seq<char>, Seq<(Seq<char>, Seq<char>)>)>::empty());
            assert(structs_text(a.structs.pairs()) =~= Seq::<(Seq<char>, Seq<(Seq<char>, Seq<char>)>)>::empty());
            assert(a.aliases.pairs() =~= Seq::<(Seq<char>, Seq<char>)>::empty());
            assert(spike_view(a) == empty_spike());
            spike_walk(&mut a, &f.items);
            Some(a)
        },
    }
}

} // verus!
