//! Type definitions extracted from program sources and the registry that holds them.
use vstd::prelude::*;
use crate::maps::{StrMap, has_key, lookup};
use crate::text::{push_lit, push_debug_str};

verus! {

/// A parsed type definition.
#[derive(Debug)]
pub enum TypeDef {
    Struct(StructDef),
    Enum(EnumDef),
    Alias(AliasDef),
    Instruction(InstructionDef),
}

/// A struct definition.
#[derive(Debug)]
pub struct StructDef {
    pub name: String,
    pub is_account: bool,
    pub fields: Vec<FieldDef>,
    pub attrs: Vec<String>,
}

/// A named field with its type and (space-free) attribute texts.
#[derive(Debug)]
pub struct FieldDef {
    pub name: String,
    pub type_ref: TypeRef,
    pub attrs: Vec<String>,
}

/// A reference to a type as written in source.
#[derive(Debug, PartialEq, Eq)]
pub enum TypeRef {
    Primitive(String),
    Array(Box<TypeRef>, usize),
    Vec(Box<TypeRef>),
    Option(Box<TypeRef>),
    Result(Box<TypeRef>, Box<TypeRef>),
    HashMap(Box<TypeRef>, Box<TypeRef>),
    BTreeMap(Box<TypeRef>, Box<TypeRef>),
    HashSet(Box<TypeRef>),
    BTreeSet(Box<TypeRef>),
    Tuple(Vec<TypeRef>),
    String,
    Pubkey,
    /// The raw text of a type that is not otherwise recognised.
    Custom(String),
    /// An absolute path after resolution.
    Resolved(String),
}

/// An enum definition.
#[derive(Debug)]
pub struct EnumDef {
    pub name: String,
    pub variants: Vec<VariantDef>,
}

/// An enum variant with its named fields.
#[derive(Debug)]
pub struct VariantDef {
    pub name: String,
    pub fields: Vec<FieldDef>,
}

/// A `type Name = Target;` alias.
#[derive(Debug)]
pub struct AliasDef {
    pub name: String,
    pub target: TypeRef,
}

/// An instruction handler of a `#[program]` module with its arguments.
#[derive(Debug)]
pub struct InstructionDef {
    pub name: String,
    pub args: Vec<FieldDef>,
}

// ---------------------------------------------------------------------------
// Mathematical models.

/// Model of a [`TypeRef`].
pub enum TypeRefV {
    Primitive(Seq<char>),
    Array(Box<TypeRefV>, usize),
    Vec(Box<TypeRefV>),
    Option(Box<TypeRefV>),
    Result(Box<TypeRefV>, Box<TypeRefV>),
    HashMap(Box<TypeRefV>, Box<TypeRefV>),
    BTreeMap(Box<TypeRefV>, Box<TypeRefV>),
    HashSet(Box<TypeRefV>),
    BTreeSet(Box<TypeRefV>),
    Tuple(Seq<TypeRefV>),
    String,
    Pubkey,
    Custom(Seq<char>),
    Resolved(Seq<char>),
}

/// Model of a [`FieldDef`].
pub struct FieldV {
    pub name: Seq<char>,
    pub type_ref: TypeRefV,
    pub attrs: Seq<Seq<char>>,
}

/// Model of a [`StructDef`].
pub struct StructV {
    pub name: Seq<char>,
    pub is_account: bool,
    pub fields: Seq<FieldV>,
    pub attrs: Seq<Seq<char>>,
}

/// Model of a [`VariantDef`].
pub struct VariantV {
    pub name: Seq<char>,
    pub fields: Seq<FieldV>,
}

/// Model of an [`EnumDef`].
pub struct EnumV {
    pub name: Seq<char>,
    pub variants: Seq<VariantV>,
}

/// Model of an [`AliasDef`].
pub struct AliasV {
    pub name: Seq<char>,
    pub target: TypeRefV,
}

/// Model of an [`InstructionDef`].
pub struct InstructionV {
    pub name: Seq<char>,
    pub args: Seq<FieldV>,
}

/// Model of a [`TypeDef`].
pub enum TypeDefV {
    Struct(StructV),
    Enum(EnumV),
    Alias(AliasV),
    Instruction(InstructionV),
}

/// The texts of a string list.
pub open spec fn strs_view(v: Seq<String>) -> Seq<Seq<char>> {
    Seq::new(v.len(), |i: int| v[i]@)
}

/// The models of a field list.
pub open spec fn fields_view(v: Seq<FieldDef>) -> Seq<FieldV> {
    Seq::new(v.len(), |i: int| v[i]@)
}

/// The models of the members of a tuple type.
pub open spec fn tuple_views(s: Seq<TypeRef>) -> Seq<TypeRefV>
    decreases s,
{
    if s.len() == 0 {
        Seq::empty()
    } else {
        tuple_views(s.subrange(0, s.len() - 1)).push(type_ref_view(s[s.len() - 1]))
    }
}

/// `tuple_views` maps each member to its model.
pub proof fn lemma_tuple_views(s: Seq<TypeRef>)
    ensures
        tuple_views(s).len() == s.len(),
        forall|i: int| 0 <= i < s.len() ==> tuple_views(s)[i] == #[trigger] s[i]@,
    decreases s.len(),
{
    if s.len() > 0 {
        let sub = s.subrange(0, s.len() - 1);
        lemma_tuple_views(sub);
        assert forall|i: int| 0 <= i < s.len() implies tuple_views(s)[i] == #[trigger] s[i]@ by {
            if i < s.len() - 1 {
                assert(sub[i] == s[i]);
            }
        }
    }
}

/// The model of a type reference.
pub open spec fn type_ref_view(t: TypeRef) -> TypeRefV
    decreases t,
{
        match t {
            TypeRef::Primitive(s) => TypeRefV::Primitive(s@),
            TypeRef::Array(x, n) => TypeRefV::Array(Box::new(type_ref_view(*x)), n),
            TypeRef::Vec(x) => TypeRefV::Vec(Box::new(type_ref_view(*x))),
            TypeRef::Option(x) => TypeRefV::Option(Box::new(type_ref_view(*x))),
            TypeRef::Result(x, y) => TypeRefV::Result(Box::new(type_ref_view(*x)), Box::new(type_ref_view(*y))),
            TypeRef::HashMap(x, y) => TypeRefV::HashMap(Box::new(type_ref_view(*x)), Box::new(type_ref_view(*y))),
            TypeRef::BTreeMap(x, y) => TypeRefV::BTreeMap(Box::new(type_ref_view(*x)), Box::new(type_ref_view(*y))),
            TypeRef::HashSet(x) => TypeRefV::HashSet(Box::new(type_ref_view(*x))),
            TypeRef::BTreeSet(x) => TypeRefV::BTreeSet(Box::new(type_ref_view(*x))),
            TypeRef::Tuple(xs) => {
                TypeRefV::Tuple(tuple_views(xs@))
            },
            TypeRef::String => TypeRefV::String,
            TypeRef::Pubkey => TypeRefV::Pubkey,
            TypeRef::Custom(s) => TypeRefV::Custom(s@),
            TypeRef::Resolved(s) => TypeRefV::Resolved(s@),
        }
    }

impl View for TypeRef {
    type V = TypeRefV;

    open spec fn view(&self) -> TypeRefV {
        type_ref_view(*self)
    }
}

impl View for FieldDef {
    type V = FieldV;

    open spec fn view(&self) -> FieldV {
        FieldV { name: self.name@, type_ref: self.type_ref@, attrs: strs_view(self.attrs@) }
    }
}

impl View for StructDef {
    type V = StructV;

    open spec fn view(&self) -> StructV {
        StructV {
            name: self.name@,
            is_account: self.is_account,
            fields: fields_view(self.fields@),
            attrs: strs_view(self.attrs@),
        }
    }
}

impl View for VariantDef {
    type V = VariantV;

    open spec fn view(&self) -> VariantV {
        VariantV { name: self.name@, fields: fields_view(self.fields@) }
    }
}

impl View for EnumDef {
    type V = EnumV;

    open spec fn view(&self) -> EnumV {
        EnumV { name: self.name@, variants: Seq::new(self.variants@.len(), |i: int| self.variants@[i]@) }
    }
}

impl View for AliasDef {
    type V = AliasV;

    open spec fn view(&self) -> AliasV {
        AliasV { name: self.name@, target: self.target@ }
    }
}

impl View for InstructionDef {
    type V = InstructionV;

    open spec fn view(&self) -> InstructionV {
        InstructionV { name: self.name@, args: fields_view(self.args@) }
    }
}

impl View for TypeDef {
    type V = TypeDefV;

    open spec fn view(&self) -> TypeDefV {
        match self {
            TypeDef::Struct(s) => TypeDefV::Struct(s@),
            TypeDef::Enum(e) => TypeDefV::Enum(e@),
            TypeDef::Alias(a) => TypeDefV::Alias(a@),
            TypeDef::Instruction(i) => TypeDefV::Instruction(i@),
        }
    }
}

// ---------------------------------------------------------------------------
// Equality by content.

/// The model of a tuple type lists the models of its members.
pub proof fn lemma_tuple_view(t: TypeRef, xs: Vec<TypeRef>)
    requires
        t == TypeRef::Tuple(xs),
    ensures
        t@ is Tuple,
        t@->Tuple_0.len() == xs@.len(),
        forall|i: int| 0 <= i < xs@.len() ==> t@->Tuple_0[i] == #[trigger] xs@[i]@,
{
    lemma_tuple_views(xs@);
}

/// Compares two type references by content.
pub fn type_ref_eq(a: &TypeRef, b: &TypeRef) -> (r: bool)
    ensures
        r == (a@ == b@),
    decreases a,
{
    match (a, b) {
        (TypeRef::Primitive(x), TypeRef::Primitive(y)) => *x == *y,
        (TypeRef::Array(x, n), TypeRef::Array(y, m)) => *n == *m && type_ref_eq(x, y),
        (TypeRef::Vec(x), TypeRef::Vec(y)) => type_ref_eq(x, y),
        (TypeRef::Option(x), TypeRef::Option(y)) => type_ref_eq(x, y),
        (TypeRef::Result(x1, x2), TypeRef::Result(y1, y2)) => type_ref_eq(x1, y1) && type_ref_eq(x2, y2),
        (TypeRef::HashMap(x1, x2), TypeRef::HashMap(y1, y2)) => type_ref_eq(x1, y1) && type_ref_eq(x2, y2),
        (TypeRef::BTreeMap(x1, x2), TypeRef::BTreeMap(y1, y2)) => type_ref_eq(x1, y1) && type_ref_eq(x2, y2),
        (TypeRef::HashSet(x), TypeRef::HashSet(y)) => type_ref_eq(x, y),
        (TypeRef::BTreeSet(x), TypeRef::BTreeSet(y)) => type_ref_eq(x, y),
        (TypeRef::Tuple(xs), TypeRef::Tuple(ys)) => {
            proof {
                lemma_tuple_view(*a, *xs);
                lemma_tuple_view(*b, *ys);
            }
            let ghost sa = a@->Tuple_0;
            let ghost sb = b@->Tuple_0;
            if xs.len() != ys.len() {
                assert(sa.len() != sb.len());
                return false;
            }
            let mut i: usize = 0;
            while i < xs.len()
                invariant
                    *a == TypeRef::Tuple(*xs),
                    *b == TypeRef::Tuple(*ys),
                    a@ == TypeRefV::Tuple(sa),
                    b@ == TypeRefV::Tuple(sb),
                    sa.len() == xs@.len(),
                    sb.len() == ys@.len(),
                    forall|j: int| 0 <= j < xs@.len() ==> sa[j] == #[trigger] xs@[j]@,
                    forall|j: int| 0 <= j < ys@.len() ==> sb[j] == #[trigger] ys@[j]@,
                    xs@.len() == ys@.len(),
                    i <= xs@.len(),
                    forall|j: int| 0 <= j < i ==> xs@[j]@ == ys@[j]@,
                decreases xs@.len() - i,
            {
                proof {
                    assert(decreases_to!(*a => a->Tuple_0));
                    assert(decreases_to!(a->Tuple_0 => a->Tuple_0@));
                    assert(decreases_to!(a->Tuple_0@ => a->Tuple_0@[i as int]));
                }
                if !type_ref_eq(&xs[i], &ys[i]) {
                    assert(sa[i as int] != sb[i as int]);
                    return false;
                }
                i += 1;
            }
            assert forall|j: int| 0 <= j < sa.len() implies sa[j] == sb[j] by {
                assert(xs@[j]@ == ys@[j]@);
            }
            assert(sa =~= sb);
            true
        },
        (TypeRef::String, TypeRef::String) => true,
        (TypeRef::Pubkey, TypeRef::Pubkey) => true,
        (TypeRef::Custom(x), TypeRef::Custom(y)) => *x == *y,
        (TypeRef::Resolved(x), TypeRef::Resolved(y)) => *x == *y,
        _ => false,
    }
}

/// Compares two string lists by content.
pub fn strings_eq(a: &Vec<String>, b: &Vec<String>) -> (r: bool)
    ensures
        r == (strs_view(a@) == strs_view(b@)),
{
    if a.len() != b.len() {
        assert(strs_view(a@).len() != strs_view(b@).len());
        return false;
    }
    let mut i: usize = 0;
    while i < a.len()
        invariant
            a@.len() == b@.len(),
            i <= a@.len(),
            forall|j: int| 0 <= j < i ==> #[trigger] a@[j]@ == b@[j]@,
        decreases a@.len() - i,
    {
        if a[i] != b[i] {
            assert(strs_view(a@)[i as int] != strs_view(b@)[i as int]);
            return false;
        }
        i += 1;
    }
    assert(strs_view(a@) =~= strs_view(b@));
    true
}

// ---------------------------------------------------------------------------
// Copies.

impl TypeRef {
    /// A copy of this type reference.
    pub fn copy(&self) -> (r: TypeRef)
        ensures
            r@ == self@,
        decreases self,
    {
        match self {
            TypeRef::Primitive(x) => TypeRef::Primitive(x.clone()),
            TypeRef::Array(x, n) => TypeRef::Array(Box::new(x.copy()), *n),
            TypeRef::Vec(x) => TypeRef::Vec(Box::new(x.copy())),
            TypeRef::Option(x) => TypeRef::Option(Box::new(x.copy())),
            TypeRef::Result(x, y) => TypeRef::Result(Box::new(x.copy()), Box::new(y.copy())),
            TypeRef::HashMap(x, y) => TypeRef::HashMap(Box::new(x.copy()), Box::new(y.copy())),
            TypeRef::BTreeMap(x, y) => TypeRef::BTreeMap(Box::new(x.copy()), Box::new(y.copy())),
            TypeRef::HashSet(x) => TypeRef::HashSet(Box::new(x.copy())),
            TypeRef::BTreeSet(x) => TypeRef::BTreeSet(Box::new(x.copy())),
            TypeRef::Tuple(xs) => {
                let mut out: Vec<TypeRef> = Vec::new();
                let mut i: usize = 0;
                while i < xs.len()
                    invariant
                        *self == TypeRef::Tuple(*xs),
                        i <= xs@.len(),
                        out@.len() == i,
                        forall|j: int| 0 <= j < i ==> out@[j]@ == xs@[j]@,
                    decreases xs@.len() - i,
                {
                    proof {
                        assert(decreases_to!(*self => self->Tuple_0));
                        assert(decreases_to!(self->Tuple_0 => self->Tuple_0@));
                        assert(decreases_to!(self->Tuple_0@ => self->Tuple_0@[i as int]));
                    }
                    out.push(xs[i].copy());
                    i += 1;
                }
                let r = TypeRef::Tuple(out);
                assert(r@ == self@) by {
                    lemma_tuple_view(r, out);
                    lemma_tuple_view(*self, *xs);
                    assert forall|j: int| 0 <= j < xs@.len() implies r@->Tuple_0[j] == self@->Tuple_0[j] by {
                        assert(out@[j]@ == xs@[j]@);
                    }
                    assert(r@->Tuple_0 =~= self@->Tuple_0);
                }
                r
            },
            TypeRef::String => TypeRef::String,
            TypeRef::Pubkey => TypeRef::Pubkey,
            TypeRef::Custom(x) => TypeRef::Custom(x.clone()),
            TypeRef::Resolved(x) => TypeRef::Resolved(x.clone()),
        }
    }
}

impl Clone for TypeRef {
    fn clone(&self) -> (r: Self)
        ensures
            r@ == self@,
    {
        self.copy()
    }
}

/// A copy of a string list.
pub fn copy_strings(v: &Vec<String>) -> (r: Vec<String>)
    ensures
        strs_view(r@) == strs_view(v@),
        r@.len() == v@.len(),
{
    let mut out: Vec<String> = Vec::new();
    let mut i: usize = 0;
    while i < v.len()
        invariant
            i <= v@.len(),
            out@.len() == i,
            forall|j: int| 0 <= j < i ==> #[trigger] out@[j]@ == v@[j]@,
        decreases v@.len() - i,
    {
        out.push(v[i].clone());
        i += 1;
    }
    assert(strs_view(out@) =~= strs_view(v@));
    out
}

impl Clone for FieldDef {
    fn clone(&self) -> (r: Self)
        ensures
            r@ == self@,
    {
        FieldDef { name: self.name.clone(), type_ref: self.type_ref.copy(), attrs: copy_strings(&self.attrs) }
    }
}

/// A copy of a field list.
pub fn copy_fields(v: &Vec<FieldDef>) -> (r: Vec<FieldDef>)
    ensures
        fields_view(r@) == fields_view(v@),
        r@.len() == v@.len(),
{
    let mut out: Vec<FieldDef> = Vec::new();
    let mut i: usize = 0;
    while i < v.len()
        invariant
            i <= v@.len(),
            out@.len() == i,
            forall|j: int| 0 <= j < i ==> #[trigger] out@[j]@ == v@[j]@,
        decreases v@.len() - i,
    {
        out.push(v[i].clone());
        i += 1;
    }
    assert(fields_view(out@) =~= fields_view(v@));
    out
}

impl Clone for StructDef {
    fn clone(&self) -> (r: Self)
        ensures
            r@ == self@,
    {
        StructDef {
            name: self.name.clone(),
            is_account: self.is_account,
            fields: copy_fields(&self.fields),
            attrs: copy_strings(&self.attrs),
        }
    }
}

impl Clone for VariantDef {
    fn clone(&self) -> (r: Self)
        ensures
            r@ == self@,
    {
        VariantDef { name: self.name.clone(), fields: copy_fields(&self.fields) }
    }
}

impl Clone for EnumDef {
    fn clone(&self) -> (r: Self)
        ensures
            r@ == self@,
    {
        let mut out: Vec<VariantDef> = Vec::new();
        let mut i: usize = 0;
        while i < self.variants.len()
            invariant
                i <= self.variants@.len(),
                out@.len() == i,
                forall|j: int| 0 <= j < i ==> #[trigger] out@[j]@ == self.variants@[j]@,
            decreases self.variants@.len() - i,
        {
            out.push(self.variants[i].clone());
            i += 1;
        }
        let r = EnumDef { name: self.name.clone(), variants: out };
        assert(r@.variants =~= self@.variants);
        r
    }
}

impl Clone for AliasDef {
    fn clone(&self) -> (r: Self)
        ensures
            r@ == self@,
    {
        AliasDef { name: self.name.clone(), target: self.target.copy() }
    }
}

impl Clone for InstructionDef {
    fn clone(&self) -> (r: Self)
        ensures
            r@ == self@,
    {
        InstructionDef { name: self.name.clone(), args: copy_fields(&self.args) }
    }
}

impl Clone for TypeDef {
    fn clone(&self) -> (r: Self)
        ensures
            r@ == self@,
    {
        match self {
            TypeDef::Struct(s) => TypeDef::Struct(s.clone()),
            TypeDef::Enum(e) => TypeDef::Enum(e.clone()),
            TypeDef::Alias(a) => TypeDef::Alias(a.clone()),
            TypeDef::Instruction(i) => TypeDef::Instruction(i.clone()),
        }
    }
}

} // verus!

verus! {

// ---------------------------------------------------------------------------
// The registry.

/// The `use` paths of one source file, each as a list of path segments.
pub struct ImportList {
    pub paths: Vec<Vec<String>>,
}

impl View for ImportList {
    type V = Seq<Seq<Seq<char>>>;

    open spec fn view(&self) -> Seq<Seq<Seq<char>>> {
        Seq::new(self.paths@.len(), |i: int| strs_view(self.paths@[i]@))
    }
}

/// Definitions keyed by absolute path (`program::module::Name`), plus the
/// source-file information used to disambiguate short names.
pub struct TypeRegistry {
    /// absolute path -> definition
    pub definitions: StrMap<TypeDef>,
    /// absolute path -> source file that defines it
    pub file_paths: StrMap<String>,
    /// source file -> module path segments
    pub module_paths: StrMap<Vec<String>>,
    /// absolute path -> short name
    pub symbol_names: StrMap<String>,
    /// source file -> its `use` paths (absent when the file could not be read)
    pub file_imports: StrMap<ImportList>,
}

/// Why a short type name could not be resolved.
#[derive(Debug)]
pub enum ResolveError {
    /// No definition has this name.
    Unknown(String),
    /// Several definitions have this name (the name, then the candidates).
    Ambiguous(String, Vec<String>),
}

/// Model of a [`ResolveError`].
pub enum ResolveErrorV {
    Unknown(Seq<char>),
    Ambiguous(Seq<char>, Seq<Seq<char>>),
}

impl View for ResolveError {
    type V = ResolveErrorV;

    open spec fn view(&self) -> ResolveErrorV {
        match self {
            ResolveError::Unknown(s) => ResolveErrorV::Unknown(s@),
            ResolveError::Ambiguous(s, v) => ResolveErrorV::Ambiguous(s@, strs_view(v@)),
        }
    }
}

/// Model of a resolution result.
pub open spec fn resolve_view(r: Result<String, ResolveError>) -> Result<Seq<char>, ResolveErrorV> {
    match r {
        Ok(s) => Ok(s@),
        Err(e) => Err(e@),
    }
}

/// `key` names `ident`: it ends with `::ident` or is `ident` itself.
pub open spec fn path_matches(key: Seq<char>, ident: Seq<char>) -> bool {
    crate::text::is_suffix(crate::text::sep() + ident, key) || key == ident
}

/// The keys (in order) that name `ident`.
pub open spec fn matching_keys(keys: Seq<Seq<char>>, ident: Seq<char>) -> Seq<Seq<char>>
    decreases keys.len(),
{
    if keys.len() == 0 {
        Seq::empty()
    } else {
        let r = matching_keys(keys.drop_last(), ident);
        if path_matches(keys.last(), ident) {
            r.push(keys.last())
        } else {
            r
        }
    }
}

/// Resolution of `ident` seen from `module` among `keys`, without import-based
/// disambiguation: the direct path, else the single key naming `ident`.
pub open spec fn spec_resolve_plain(keys: Seq<Seq<char>>, module: Seq<char>, ident: Seq<char>) -> Result<Seq<char>, ResolveErrorV> {
    let direct = crate::text::join2(module, ident);
    let m = matching_keys(keys, ident);
    if keys.contains(direct) {
        Ok(direct)
    } else if m.len() == 0 {
        Err(ResolveErrorV::Unknown(ident))
    } else if m.len() > 1 {
        Err(ResolveErrorV::Ambiguous(ident, m))
    } else {
        Ok(m[0])
    }
}

/// Collects, in order, the keys of `m` that name `ident`.
pub fn collect_matching_keys<V: View>(m: &StrMap<V>, ident: &str) -> (r: Vec<String>)
    ensures
        strs_view(r@) == matching_keys(m.key_seq(), ident@),
{
    let mut suffix = crate::text::sep_string();
    crate::text::append_str(&mut suffix, ident);
    let mut r: Vec<String> = Vec::new();
    let n = m.len();
    let mut i: usize = 0;
    while i < n
        invariant
            n == m.pairs().len(),
            i <= n,
            suffix@ == crate::text::sep() + ident@,
            strs_view(r@) == matching_keys(m.key_seq().take(i as int), ident@),
        decreases n - i,
    {
        let key = m.key_at(i);
        let ghost ks = m.key_seq().take(i + 1);
        assert(ks.drop_last() =~= m.key_seq().take(i as int));
        assert(ks.last() == key@);
        if crate::text::ends_with(key.as_str(), suffix.as_str()) || crate::text::str_eq(key.as_str(), ident) {
            let ghost old_r = strs_view(r@);
            r.push(key.clone());
            assert(strs_view(r@) =~= old_r.push(key@));
        }
        i += 1;
    }
    assert(m.key_seq().take(n as int) =~= m.key_seq());
    r
}

/// Resolves `ident` seen from `current_module` against the keys of `defs`,
/// without import-based disambiguation.
pub fn resolve_plain(defs: &StrMap<TypeDef>, current_module: &str, ident: &str) -> (r: Result<String, ResolveError>)
    ensures
        resolve_view(r) == spec_resolve_plain(defs.key_seq(), current_module@, ident@),
{
    let direct = crate::text::join_path(current_module, ident);
    if defs.contains_key(direct.as_str()) {
        proof {
            let i = crate::maps::key_index(defs.pairs(), direct@);
            assert(defs.key_seq()[i] == direct@);
        }
        return Ok(direct);
    }
    assert(!defs.key_seq().contains(direct@)) by {
        if defs.key_seq().contains(direct@) {
            let i = choose|i: int| 0 <= i < defs.key_seq().len() && defs.key_seq()[i] == direct@;
            assert(defs.pairs()[i].0 == direct@);
        }
    }
    let matches = collect_matching_keys(defs, ident);
    if matches.len() == 0 {
        Err(ResolveError::Unknown(crate::text::lit(ident)))
    } else if matches.len() > 1 {
        Err(ResolveError::Ambiguous(crate::text::lit(ident), matches))
    } else {
        assert(strs_view(matches@)[0] == matches@[0]@);
        Ok(matches[0].clone())
    }
}

} // verus!

verus! {

/// The source file of the first entry (in order) whose path starts with `module`.
pub open spec fn first_file_for_module(fps: Seq<(Seq<char>, Seq<char>)>, module: Seq<char>) -> Option<Seq<char>>
    decreases fps.len(),
{
    if fps.len() == 0 {
        None
    } else if crate::text::is_prefix(module, fps[0].0) {
        Some(fps[0].1)
    } else {
        first_file_for_module(fps.drop_first(), module)
    }
}

/// Scan of `cands` for the one whose defining file shares the longest prefix
/// with `fp`: (best so far, its prefix length, whether a later candidate tied).
pub open spec fn proximity(fps: Seq<(Seq<char>, Seq<char>)>, fp: Seq<char>, cands: Seq<Seq<char>>) -> (Option<Seq<char>>, nat, bool)
    decreases cands.len(),
{
    if cands.len() == 0 {
        (None, 0, false)
    } else {
        let prev = proximity(fps, fp, cands.drop_last());
        let c = cands.last();
        match lookup(fps, c) {
            None => prev,
            Some(cfp) => {
                let p = crate::text::common_prefix(fp, cfp);
                if p > prev.1 {
                    (Some(c), p, false)
                } else if p == prev.1 && p > 0 {
                    (prev.0, prev.1, true)
                } else {
                    prev
                }
            },
        }
    }
}

/// An import path made absolute from module `segs` of program `program`.
pub open spec fn resolve_import(segs: Seq<Seq<char>>, program: Seq<char>, imp: Seq<Seq<char>>) -> Seq<Seq<char>> {
    if imp.len() == 0 {
        Seq::empty()
    } else if imp[0] == "crate"@ {
        seq![program] + imp.drop_first()
    } else if imp[0] == "self"@ {
        segs + imp.drop_first()
    } else if imp[0] == "super"@ {
        (if segs.len() > 1 { segs.drop_last() } else { seq![program] }) + imp.drop_first()
    } else {
        seq![program] + imp
    }
}

/// Candidate path `cand` (as segments) is what the absolute import `resolved` brings in under name `ident`.
pub open spec fn import_matches(cand: Seq<Seq<char>>, resolved: Seq<Seq<char>>, ident: Seq<char>) -> bool {
    if resolved.len() > 0 && resolved.last() == "*"@ {
        let pl = resolved.len() - 1;
        cand.len() > pl && cand.take(pl as int) == resolved.take(pl as int) && cand.last() == ident
    } else {
        cand == resolved
    }
}

/// Some import of the file brings in candidate `cand`.
pub open spec fn some_import_matches(cand: Seq<char>, imports: Seq<Seq<Seq<char>>>, segs: Seq<Seq<char>>, ident: Seq<char>) -> bool {
    exists|j: int| 0 <= j < imports.len() && import_matches(crate::text::split_sep(cand), resolve_import(segs, segs[0], imports[j]), ident)
}

/// The first candidate (in order) that some import brings in.
pub open spec fn first_imported(cands: Seq<Seq<char>>, imports: Seq<Seq<Seq<char>>>, segs: Seq<Seq<char>>, ident: Seq<char>) -> Option<Seq<char>>
    decreases cands.len(),
{
    if cands.len() == 0 {
        None
    } else if some_import_matches(cands[0], imports, segs, ident) {
        Some(cands[0])
    } else {
        first_imported(cands.drop_first(), imports, segs, ident)
    }
}

impl TypeRegistry {
    /// Choice among several `cands` for `ident` seen from `module`: the one
    /// defined in the file closest to the module's file, else the first one
    /// that the module's file imports.
    pub open spec fn spec_disambiguate(&self, module: Seq<char>, ident: Seq<char>, cands: Seq<Seq<char>>) -> Option<Seq<char>> {
        match first_file_for_module(self.file_paths.pairs(), module) {
            None => None,
            Some(fp) => {
                let prox = proximity(self.file_paths.pairs(), fp, cands);
                if prox.0 is Some && !prox.2 {
                    prox.0
                } else {
                    match lookup(self.file_imports.pairs(), fp) {
                        None => None,
                        Some(imps) => first_imported(cands, imps, crate::text::split_sep(module), ident),
                    }
                }
            },
        }
    }

    /// Resolution of `ident` seen from `module`.
    pub open spec fn spec_resolve(&self, module: Seq<char>, ident: Seq<char>) -> Result<Seq<char>, ResolveErrorV> {
        let m = matching_keys(self.definitions.key_seq(), ident);
        match spec_resolve_plain(self.definitions.key_seq(), module, ident) {
            Err(ResolveErrorV::Ambiguous(_, _)) => match self.spec_disambiguate(module, ident, m) {
                Some(p) => Ok(p),
                None => Err(ResolveErrorV::Ambiguous(ident, m)),
            },
            other => other,
        }
    }

    /// An empty registry.
    pub fn new() -> (r: Self)
        ensures
            r.definitions.pairs().len() == 0,
            r.file_paths.pairs().len() == 0,
            r.module_paths.pairs().len() == 0,
            r.symbol_names.pairs().len() == 0,
            r.file_imports.pairs().len() == 0,
    {
        TypeRegistry {
            definitions: StrMap::new(),
            file_paths: StrMap::new(),
            module_paths: StrMap::new(),
            symbol_names: StrMap::new(),
            file_imports: StrMap::new(),
        }
    }

    /// Records `def` under `absolute_path`.
    pub fn insert(&mut self, absolute_path: String, def: TypeDef)
        ensures
            final(self).definitions.pairs() == crate::maps::assoc_insert(old(self).definitions.pairs(), absolute_path@, def@),
            final(self).file_paths == old(self).file_paths,
            final(self).module_paths == old(self).module_paths,
            final(self).symbol_names == old(self).symbol_names,
            final(self).file_imports == old(self).file_imports,
    {
        self.definitions.insert(absolute_path, def);
    }

    /// The definition recorded under `absolute_path`.
    pub fn get(&self, absolute_path: &str) -> (r: Option<&TypeDef>)
        ensures
            match r {
                Some(d) => self.definitions.spec_get(absolute_path@) == Some(d@),
                None => self.definitions.spec_get(absolute_path@) is None,
            },
    {
        self.definitions.get(absolute_path)
    }

    /// The source file of the first recorded path that starts with `current_module`.
    pub fn find_file_path_for_module(&self, current_module: &str) -> (r: Option<String>)
        ensures
            match r {
                Some(s) => first_file_for_module(self.file_paths.pairs(), current_module@) == Some(s@),
                None => first_file_for_module(self.file_paths.pairs(), current_module@) is None,
            },
    {
        let n = self.file_paths.len();
        let mut i: usize = 0;
        assert(self.file_paths.pairs().subrange(0, n as int) =~= self.file_paths.pairs());
        while i < n
            invariant
                n == self.file_paths.pairs().len(),
                i <= n,
                first_file_for_module(self.file_paths.pairs(), current_module@)
                    == first_file_for_module(self.file_paths.pairs().subrange(i as int, n as int), current_module@),
            decreases n - i,
        {
            let ghost rest = self.file_paths.pairs().subrange(i as int, n as int);
            assert(rest.drop_first() =~= self.file_paths.pairs().subrange(i + 1, n as int));
            let key = self.file_paths.key_at(i);
            if crate::text::starts_with(key.as_str(), current_module) {
                let fp = self.file_paths.value_at(i);
                return Some(fp.clone());
            }
            i += 1;
        }
        None
    }
}

} // verus!

verus! {

/// Splits a path into segments, as texts.
pub fn split_segments(s: &str) -> (r: Vec<String>)
    ensures
        strs_view(r@) == crate::text::split_sep(s@),
        r@.len() >= 1,
{
    let r = crate::text::split_path(s);
    proof {
        crate::text::lemma_split_nonempty(s@);
    }
    assert(strs_view(r@) =~= crate::text::split_sep(s@));
    r
}

/// Copies segment list `src` after the segments already in `out`.
fn extend_strings(out: &mut Vec<String>, src: &Vec<String>, from: usize)
    requires
        from <= src@.len(),
    ensures
        strs_view(final(out)@) == strs_view(old(out)@) + strs_view(src@).subrange(from as int, src@.len() as int),
{
    let ghost o = strs_view(out@);
    let mut i = from;
    while i < src.len()
        invariant
            from <= i <= src@.len(),
            strs_view(out@) == o + strs_view(src@).subrange(from as int, i as int),
        decreases src@.len() - i,
    {
        let ghost prev = strs_view(out@);
        let x = src[i].clone();
        out.push(x);
        assert(strs_view(out@) =~= prev.push(src@[i as int]@));
        assert(strs_view(src@).subrange(from as int, i + 1) =~= strs_view(src@).subrange(from as int, i as int).push(src@[i as int]@));
        i += 1;
    }
}

/// Makes import path `imp` absolute for module segments `segs` of `program`.
pub fn resolve_import_exec(segs: &Vec<String>, program: &String, imp: &Vec<String>) -> (r: Vec<String>)
    ensures
        strs_view(r@) == resolve_import(strs_view(segs@), program@, strs_view(imp@)),
{
    let ghost sv = strs_view(segs@);
    let ghost iv = strs_view(imp@);
    let mut r: Vec<String> = Vec::new();
    if imp.len() == 0 {
        assert(strs_view(r@) =~= Seq::<Seq<char>>::empty());
        return r;
    }
    assert(iv[0] == imp@[0]@);
    assert(iv.subrange(1, iv.len() as int) =~= iv.drop_first());
    if crate::text::str_eq(imp[0].as_str(), "crate") {
        r.push(program.clone());
        extend_strings(&mut r, imp, 1);
        assert(strs_view(r@) =~= seq![program@] + iv.drop_first());
    } else if crate::text::str_eq(imp[0].as_str(), "self") {
        extend_strings(&mut r, segs, 0);
        extend_strings(&mut r, imp, 1);
        assert(sv.subrange(0, sv.len() as int) =~= sv);
        assert(strs_view(r@) =~= sv + iv.drop_first());
    } else if crate::text::str_eq(imp[0].as_str(), "super") {
        if segs.len() > 1 {
            let mut head: Vec<String> = Vec::new();
            let mut k: usize = 0;
            while k < segs.len() - 1
                invariant
                    segs@.len() > 1,
                    k <= segs@.len() - 1,
                    strs_view(head@) == sv.subrange(0, k as int),
                    sv == strs_view(segs@),
                decreases segs@.len() - 1 - k,
            {
                let ghost prev = strs_view(head@);
                let x = segs[k].clone();
                head.push(x);
                assert(strs_view(head@) =~= prev.push(segs@[k as int]@));
                assert(sv.subrange(0, k + 1) =~= sv.subrange(0, k as int).push(sv[k as int]));
                k += 1;
            }
            r = head;
            assert(sv.subrange(0, sv.len() - 1) =~= sv.drop_last());
        } else {
            r.push(program.clone());
            assert(strs_view(r@) =~= seq![program@]);
        }
        extend_strings(&mut r, imp, 1);
    } else {
        r.push(program.clone());
        extend_strings(&mut r, imp, 0);
        assert(iv.subrange(0, iv.len() as int) =~= iv);
        assert(strs_view(r@) =~= seq![program@] + iv);
    }
    r
}

/// Whether candidate segments `cand` are what the absolute import `resolved` brings in as `ident`.
pub fn import_matches_exec(cand: &Vec<String>, resolved: &Vec<String>, ident: &str) -> (r: bool)
    ensures
        r == import_matches(strs_view(cand@), strs_view(resolved@), ident@),
{
    let ghost cv = strs_view(cand@);
    let ghost rv = strs_view(resolved@);
    let n = resolved.len();
    if n > 0 && crate::text::str_eq(resolved[n - 1].as_str(), "*") {
        assert(rv.last() == resolved@[n - 1]@);
        let pl = n - 1;
        if cand.len() <= pl {
            return false;
        }
        let mut k: usize = 0;
        while k < pl
            invariant
                pl < cand@.len(),
                pl < resolved@.len(),
                k <= pl,
                cv == strs_view(cand@),
                rv == strs_view(resolved@),
                forall|j: int| 0 <= j < k ==> cv[j] == rv[j],
            decreases pl - k,
        {
            if cand[k] != resolved[k] {
                assert(cv.take(pl as int)[k as int] != rv.take(pl as int)[k as int]);
                return false;
            }
            k += 1;
        }
        assert(cv.take(pl as int) =~= rv.take(pl as int));
        let last = cand.len() - 1;
        assert(cv.last() == cand@[last as int]@);
        crate::text::str_eq(cand[last].as_str(), ident)
    } else {
        proof {
            if n > 0 {
                assert(rv.last() == resolved@[n - 1]@);
            }
        }
        crate::types::strings_eq(cand, resolved)
    }
}

impl TypeRegistry {
    /// Among several `candidates` for `ident`, picks the one defined in the
    /// file closest to `current_module`'s file, else the first one that this
    /// file imports.
    pub fn resolve_ambiguous_by_imports(&self, current_module: &str, ident: &str, candidates: &Vec<String>) -> (r: Option<String>)
        ensures
            match r {
                Some(s) => self.spec_disambiguate(current_module@, ident@, strs_view(candidates@)) == Some(s@),
                None => self.spec_disambiguate(current_module@, ident@, strs_view(candidates@)) is None,
            },
    {
        let ghost cv = strs_view(candidates@);
        let file_path = match self.find_file_path_for_module(current_module) {
            Some(fp) => fp,
            None => return None,
        };
        let ghost fps = self.file_paths.pairs();
        let mut best: Option<String> = None;
        let mut max_prefix_len: usize = 0;
        let mut ambiguous_proximity = false;
        let mut i: usize = 0;
        while i < candidates.len()
            invariant
                i <= candidates@.len(),
                cv == strs_view(candidates@),
                fps == self.file_paths.pairs(),
                ({
                    let p = proximity(fps, file_path@, cv.take(i as int));
                    &&& p.1 == max_prefix_len
                    &&& p.2 == ambiguous_proximity
                    &&& match best {
                        Some(b) => p.0 == Some(b@),
                        None => p.0 is None,
                    }
                }),
            decreases candidates@.len() - i,
        {
            let ghost t = cv.take(i + 1);
            assert(t.drop_last() =~= cv.take(i as int));
            assert(t.last() == candidates@[i as int]@);
            match self.file_paths.get(candidates[i].as_str()) {
                Some(cand_fp) => {
                    let prefix_len = crate::text::common_prefix_len(file_path.as_str(), cand_fp.as_str());
                    if prefix_len > max_prefix_len {
                        max_prefix_len = prefix_len;
                        best = Some(candidates[i].clone());
                        ambiguous_proximity = false;
                    } else if prefix_len == max_prefix_len && prefix_len > 0 {
                        ambiguous_proximity = true;
                    }
                },
                None => {},
            }
            i += 1;
        }
        assert(cv.take(candidates@.len() as int) =~= cv);
        if best.is_some() && !ambiguous_proximity {
            return best;
        }
        let imports = match self.file_imports.get(file_path.as_str()) {
            Some(imps) => imps,
            None => return None,
        };
        let ghost iv = imports@;
        let segs = split_segments(current_module);
        let program_name = segs[0].clone();
        let ghost sv = strs_view(segs@);
        assert(sv[0] == program_name@);
        let mut c: usize = 0;
        assert(cv.subrange(0, cv.len() as int) =~= cv);
        assert(self.spec_disambiguate(current_module@, ident@, cv) == first_imported(cv, iv, sv, ident@));
        while c < candidates.len()
            invariant
                self.spec_disambiguate(current_module@, ident@, cv) == first_imported(cv, iv, sv, ident@),
                c <= candidates@.len(),
                cv == strs_view(candidates@),
                iv == imports@,
                sv == strs_view(segs@),
                sv.len() >= 1,
                sv[0] == program_name@,
                sv == crate::text::split_sep(current_module@),
                first_imported(cv, iv, sv, ident@) == first_imported(cv.subrange(c as int, cv.len() as int), iv, sv, ident@),
            decreases candidates@.len() - c,
        {
            let ghost rest = cv.subrange(c as int, cv.len() as int);
            assert(rest.drop_first() =~= cv.subrange(c + 1, cv.len() as int));
            assert(rest[0] == candidates@[c as int]@);
            let cand_segs = split_segments(candidates[c].as_str());
            let mut j: usize = 0;
            while j < imports.paths.len()
                invariant
                    c < candidates@.len(),
                    cv == strs_view(candidates@),
                    rest == cv.subrange(c as int, cv.len() as int),
                    rest[0] == candidates@[c as int]@,
                    self.spec_disambiguate(current_module@, ident@, cv) == first_imported(cv, iv, sv, ident@),
                    first_imported(cv, iv, sv, ident@) == first_imported(rest, iv, sv, ident@),
                    j <= iv.len(),
                    iv == imports@,
                    iv.len() == imports.paths@.len(),
                    sv == strs_view(segs@),
                    sv[0] == program_name@,
                    strs_view(cand_segs@) == crate::text::split_sep(rest[0]),
                    forall|k: int| 0 <= k < j ==> !import_matches(crate::text::split_sep(rest[0]), resolve_import(sv, sv[0], #[trigger] iv[k]), ident@),
                decreases iv.len() - j,
            {
                let resolved = resolve_import_exec(&segs, &program_name, &imports.paths[j]);
                assert(iv[j as int] == strs_view(imports.paths@[j as int]@));
                if import_matches_exec(&cand_segs, &resolved, ident) {
                    assert(some_import_matches(rest[0], iv, sv, ident@));
                    return Some(candidates[c].clone());
                }
                j += 1;
            }
            assert(!some_import_matches(rest[0], iv, sv, ident@));
            c += 1;
        }
        assert(cv.subrange(cv.len() as int, cv.len() as int).len() == 0);
        None
    }

    /// Resolves short name `ident` seen from `current_module` to an absolute path.
    pub fn resolve_absolute_path(&self, current_module: &str, ident: &str) -> (r: Result<String, ResolveError>)
        ensures
            resolve_view(r) == self.spec_resolve(current_module@, ident@),
    {
        match resolve_plain(&self.definitions, current_module, ident) {
            Err(ResolveError::Ambiguous(name, matches)) => {
                match self.resolve_ambiguous_by_imports(current_module, ident, &matches) {
                    Some(p) => Ok(p),
                    None => Err(ResolveError::Ambiguous(name, matches)),
                }
            },
            other => other,
        }
    }
}

} // verus!

verus! {

/// `{:?}` rendering of a type reference.
pub open spec fn debug_type_ref(t: TypeRefV) -> Seq<char>
    decreases t, 0nat,
{
    match t {
        TypeRefV::Primitive(s) => "Primitive("@ + crate::text::debug_str(s) + ")"@,
        TypeRefV::Array(x, n) => "Array("@ + debug_type_ref(*x) + ", "@ + crate::text::decimal(n as nat) + ")"@,
        TypeRefV::Vec(x) => "Vec("@ + debug_type_ref(*x) + ")"@,
        TypeRefV::Option(x) => "Option("@ + debug_type_ref(*x) + ")"@,
        TypeRefV::Result(x, y) => "Result("@ + debug_type_ref(*x) + ", "@ + debug_type_ref(*y) + ")"@,
        TypeRefV::HashMap(x, y) => "HashMap("@ + debug_type_ref(*x) + ", "@ + debug_type_ref(*y) + ")"@,
        TypeRefV::BTreeMap(x, y) => "BTreeMap("@ + debug_type_ref(*x) + ", "@ + debug_type_ref(*y) + ")"@,
        TypeRefV::HashSet(x) => "HashSet("@ + debug_type_ref(*x) + ")"@,
        TypeRefV::BTreeSet(x) => "BTreeSet("@ + debug_type_ref(*x) + ")"@,
        TypeRefV::Tuple(xs) => "Tuple(["@ + debug_list(xs) + "])"@,
        TypeRefV::String => "String"@,
        TypeRefV::Pubkey => "Pubkey"@,
        TypeRefV::Custom(s) => "Custom("@ + crate::text::debug_str(s) + ")"@,
        TypeRefV::Resolved(s) => "Resolved("@ + crate::text::debug_str(s) + ")"@,
    }
}

/// `{:?}` of the members of a list, separated by `, `.
pub open spec fn debug_list(xs: Seq<TypeRefV>) -> Seq<char>
    decreases xs, 1nat,
{
    if xs.len() == 0 {
        Seq::empty()
    } else if xs.len() == 1 {
        debug_type_ref(xs[0])
    } else {
        debug_list(xs.subrange(0, xs.len() - 1)) + ", "@ + debug_type_ref(xs[xs.len() - 1])
    }
}

} // verus!

verus! {

/// Appends the `{:?}` rendering of `t` to `out`.
pub fn write_debug_type_ref(out: &mut String, t: &TypeRef)
    ensures
        final(out)@ == old(out)@ + debug_type_ref(t@),
    decreases t,
{
    let ghost o = out@;
    match t {
        TypeRef::Primitive(s) => { push_lit(out, "Primitive("); push_debug_str(out, s.as_str()); push_lit(out, ")"); },
        TypeRef::Array(x, n) => {
            push_lit(out, "Array(");
            write_debug_type_ref(out, x);
            push_lit(out, ", ");
            let d = crate::text::usize_to_decimal(*n);
            crate::text::append_str(out, d.as_str());
            push_lit(out, ")");
        },
        TypeRef::Vec(x) => { push_lit(out, "Vec("); write_debug_type_ref(out, x); push_lit(out, ")"); },
        TypeRef::Option(x) => { push_lit(out, "Option("); write_debug_type_ref(out, x); push_lit(out, ")"); },
        TypeRef::Result(x, y) => {
            push_lit(out, "Result("); write_debug_type_ref(out, x); push_lit(out, ", ");
            write_debug_type_ref(out, y); push_lit(out, ")");
        },
        TypeRef::HashMap(x, y) => {
            push_lit(out, "HashMap("); write_debug_type_ref(out, x); push_lit(out, ", ");
            write_debug_type_ref(out, y); push_lit(out, ")");
        },
        TypeRef::BTreeMap(x, y) => {
            push_lit(out, "BTreeMap("); write_debug_type_ref(out, x); push_lit(out, ", ");
            write_debug_type_ref(out, y); push_lit(out, ")");
        },
        TypeRef::HashSet(x) => { push_lit(out, "HashSet("); write_debug_type_ref(out, x); push_lit(out, ")"); },
        TypeRef::BTreeSet(x) => { push_lit(out, "BTreeSet("); write_debug_type_ref(out, x); push_lit(out, ")"); },
        TypeRef::Tuple(xs) => {
            push_lit(out, "Tuple([");
            proof {
                lemma_tuple_view(*t, *xs);
            }
            let ghost sv = t@->Tuple_0;
            let ghost o2 = out@;
            let mut i: usize = 0;
            assert(sv.subrange(0, 0) =~= Seq::<TypeRefV>::empty());
            while i < xs.len()
                invariant
                    *t == TypeRef::Tuple(*xs),
                    t@ == TypeRefV::Tuple(sv),
                    sv.len() == xs@.len(),
                    forall|j: int| 0 <= j < xs@.len() ==> sv[j] == #[trigger] xs@[j]@,
                    i <= xs@.len(),
                    out@ == o2 + debug_list(sv.subrange(0, i as int)),
                decreases xs@.len() - i,
            {
                proof {
                    assert(decreases_to!(*t => t->Tuple_0));
                    assert(decreases_to!(t->Tuple_0 => t->Tuple_0@));
                    assert(decreases_to!(t->Tuple_0@ => t->Tuple_0@[i as int]));
                }
                let ghost before = out@;
                if i > 0 {
                    push_lit(out, ", ");
                }
                write_debug_type_ref(out, &xs[i]);
                let ghost nx = sv.subrange(0, i + 1);
                assert(nx.subrange(0, nx.len() - 1) =~= sv.subrange(0, i as int));
                assert(nx[nx.len() - 1] == xs@[i as int]@);
                if i == 0 {
                    assert(out@ =~= o2 + debug_list(nx));
                } else {
                    assert(out@ =~= o2 + debug_list(nx));
                }
                i += 1;
            }
            assert(sv.subrange(0, xs@.len() as int) =~= sv);
            push_lit(out, "])");
        },
        TypeRef::String => push_lit(out, "String"),
        TypeRef::Pubkey => push_lit(out, "Pubkey"),
        TypeRef::Custom(s) => { push_lit(out, "Custom("); push_debug_str(out, s.as_str()); push_lit(out, ")"); },
        TypeRef::Resolved(s) => { push_lit(out, "Resolved("); push_debug_str(out, s.as_str()); push_lit(out, ")"); },
    }
    assert(out@ =~= o + debug_type_ref(t@));
}

} // verus!

verus! {

// ---------------------------------------------------------------------------
// `use` paths of a source file.

/// The models of a list of paths.
pub open spec fn paths_view(v: Seq<Vec<String>>) -> Seq<Seq<Seq<char>>> {
    Seq::new(v.len(), |i: int| strs_view(v[i]@))
}

/// The paths a `use` tree brings in below `prefix`, a glob as `*`, a rename
/// by its original name.
pub open spec fn use_paths(t: crate::source::SourceUseTree, prefix: Seq<Seq<char>>) -> Seq<Seq<Seq<char>>>
    decreases t, 0nat,
{
    match t {
        crate::source::SourceUseTree::Path { ident, tree } => use_paths(*tree, prefix.push(ident@)),
        crate::source::SourceUseTree::Name(n) => seq![prefix.push(n@)],
        crate::source::SourceUseTree::Rename(n) => seq![prefix.push(n@)],
        crate::source::SourceUseTree::Glob => seq![prefix.push("*"@)],
        crate::source::SourceUseTree::Group(items) => use_paths_list(items@, items@.len() as int, prefix),
    }
}

/// The paths of the trees `items[..k]`, in order.
pub open spec fn use_paths_list(items: Seq<crate::source::SourceUseTree>, k: int, prefix: Seq<Seq<char>>) -> Seq<Seq<Seq<char>>>
    decreases items, k,
{
    if k <= 0 || k > items.len() {
        Seq::empty()
    } else {
        use_paths_list(items, k - 1, prefix) + use_paths(items[k - 1], prefix)
    }
}

/// Appends the paths a `use` tree brings in below `prefix` (which it leaves as it was).
pub fn collect_use_tree(tree: &crate::source::SourceUseTree, prefix: &mut Vec<String>, imports: &mut Vec<Vec<String>>)
    ensures
        strs_view(final(prefix)@) == strs_view(old(prefix)@),
        paths_view(final(imports)@) == paths_view(old(imports)@) + use_paths(*tree, strs_view(old(prefix)@)),
    decreases tree,
{
    let ghost p0 = strs_view(prefix@);
    let ghost i0 = paths_view(imports@);
    match tree {
        crate::source::SourceUseTree::Path { ident, tree: sub } => {
            prefix.push(ident.clone());
            assert(strs_view(prefix@) =~= p0.push(ident@));
            collect_use_tree(sub, prefix, imports);
            let ghost pp = prefix@;
            prefix.pop();
            assert(prefix@ =~= pp.drop_last());
            assert(strs_view(pp) =~= p0.push(ident@));
            assert(strs_view(prefix@) =~= strs_view(pp).drop_last());
            assert(strs_view(prefix@) =~= p0);
        },
        crate::source::SourceUseTree::Name(n) | crate::source::SourceUseTree::Rename(n) => {
            let mut path = copy_strings(prefix);
            path.push(n.clone());
            assert(strs_view(path@) =~= p0.push(n@));
            imports.push(path);
            assert(paths_view(imports@) =~= i0 + seq![p0.push(n@)]);
        },
        crate::source::SourceUseTree::Glob => {
            let mut path = copy_strings(prefix);
            path.push(crate::text::lit("*"));
            assert(strs_view(path@) =~= p0.push("*"@));
            imports.push(path);
            assert(paths_view(imports@) =~= i0 + seq![p0.push("*"@)]);
        },
        crate::source::SourceUseTree::Group(items) => {
            let mut i: usize = 0;
            assert(i0 + use_paths_list(items@, 0, p0) =~= i0);
            while i < items.len()
                invariant
                    *tree == crate::source::SourceUseTree::Group(*items),
                    i <= items@.len(),
                    strs_view(prefix@) == p0,
                    paths_view(imports@) == i0 + use_paths_list(items@, i as int, p0),
                decreases items@.len() - i,
            {
                proof {
                    assert(decreases_to!(*tree => tree->Group_0));
                    assert(decreases_to!(tree->Group_0 => tree->Group_0@));
                    assert(decreases_to!(tree->Group_0@ => tree->Group_0@[i as int]));
                }
                collect_use_tree(&items[i], prefix, imports);
                assert(paths_view(imports@) =~= i0 + use_paths_list(items@, i + 1, p0));
                i += 1;
            }
        },
    }
}

/// The `use` paths of a file from the trees of its top-level `use` items.
pub fn imports_of(trees: &Vec<crate::source::SourceUseTree>) -> (r: ImportList)
    ensures
        r@ == use_paths_list(trees@, trees@.len() as int, Seq::empty()),
{
    let mut prefix: Vec<String> = Vec::new();
    let mut paths: Vec<Vec<String>> = Vec::new();
    let mut i: usize = 0;
    assert(strs_view(prefix@) =~= Seq::<Seq<char>>::empty());
    assert(paths_view(paths@) =~= Seq::<Seq<Seq<char>>>::empty());
    while i < trees.len()
        invariant
            i <= trees@.len(),
            strs_view(prefix@) == Seq::<Seq<char>>::empty(),
            paths_view(paths@) == use_paths_list(trees@, i as int, Seq::empty()),
        decreases trees@.len() - i,
    {
        collect_use_tree(&trees[i], &mut prefix, &mut paths);
        i += 1;
    }
    let r = ImportList { paths };
    assert(r@ =~= paths_view(r.paths@));
    r
}

} // verus!

verus! {

/// A name defined in the current module resolves to that definition.
pub proof fn law_direct_path_resolves(reg: TypeRegistry, module: Seq<char>, ident: Seq<char>)
    requires
        reg.definitions.key_seq().contains(crate::text::join2(module, ident)),
    ensures
        reg.spec_resolve(module, ident) == Ok::<Seq<char>, ResolveErrorV>(crate::text::join2(module, ident)),
{
}

/// After recording a definition under a path, the path holds it, and every
/// other path holds what it held before.
pub proof fn law_insert_then_get(defs: Seq<(Seq<char>, TypeDefV)>, path: Seq<char>, def: TypeDefV)
    requires
        crate::maps::distinct_keys(defs),
    ensures
        crate::maps::lookup(crate::maps::assoc_insert(defs, path, def), path) == Some(def),
        forall|q: Seq<char>| q != path ==> crate::maps::lookup(crate::maps::assoc_insert(defs, path, def), q) == crate::maps::lookup(defs, q),
{
    crate::maps::lemma_assoc_insert(defs, path, def);
}

} // verus!
