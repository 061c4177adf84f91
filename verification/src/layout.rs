//! Serialized account layouts (Borsh-style sizes) of registered types.
use vstd::prelude::*;
use crate::maps::{has_key, lookup, key_index};
use crate::text::str_eq;
use crate::types::{
    TypeRegistry, TypeRef, TypeRefV, TypeDef, TypeDefV, StructDef, StructV, EnumDef, EnumV, FieldDef,
    FieldV, VariantV, ResolveError, ResolveErrorV, strs_view, fields_view, resolve_plain, spec_resolve_plain,
};

verus! {

/// Size, dynamic-ness and the absolute paths a layout depends on.
#[derive(Debug)]
pub struct LayoutInfo {
    pub size: usize,
    pub dynamic: bool,
    pub dependencies: Vec<String>,
}

/// Model of a [`LayoutInfo`] (with an unbounded size).
pub struct LayoutV {
    pub size: int,
    pub dynamic: bool,
    pub deps: Seq<Seq<char>>,
}

impl View for LayoutInfo {
    type V = LayoutV;

    open spec fn view(&self) -> LayoutV {
        LayoutV { size: self.size as int, dynamic: self.dynamic, deps: strs_view(self.dependencies@) }
    }
}

/// Why a layout could not be computed.
#[derive(Debug)]
pub enum LayoutError {
    UnknownPrimitive(String),
    Resolve(ResolveError),
    Cyclic(String),
    Missing(String),
    Unsupported(TypeRef),
    /// An instruction handler has no account layout.
    NotALayout(String),
    /// The size does not fit in `usize`.
    Overflow,
}

/// Model of a [`LayoutError`].
pub enum LayoutErrorV {
    UnknownPrimitive(Seq<char>),
    Resolve(ResolveErrorV),
    Cyclic(Seq<char>),
    Missing(Seq<char>),
    Unsupported(TypeRefV),
    NotALayout(Seq<char>),
    Overflow,
}

impl View for LayoutError {
    type V = LayoutErrorV;

    open spec fn view(&self) -> LayoutErrorV {
        match self {
            LayoutError::UnknownPrimitive(s) => LayoutErrorV::UnknownPrimitive(s@),
            LayoutError::Resolve(e) => LayoutErrorV::Resolve(e@),
            LayoutError::Cyclic(s) => LayoutErrorV::Cyclic(s@),
            LayoutError::Missing(s) => LayoutErrorV::Missing(s@),
            LayoutError::Unsupported(t) => LayoutErrorV::Unsupported(t@),
            LayoutError::NotALayout(s) => LayoutErrorV::NotALayout(s@),
            LayoutError::Overflow => LayoutErrorV::Overflow,
        }
    }
}

/// Model of a layout result.
pub open spec fn layout_result_view(r: Result<LayoutInfo, LayoutError>) -> Result<LayoutV, LayoutErrorV> {
    match r {
        Ok(l) => Ok(l@),
        Err(e) => Err(e@),
    }
}

/// Registered definitions seen as (path, definition model) pairs.
pub type Defs = Seq<(Seq<char>, TypeDefV)>;

/// The byte size of a primitive type name, if it is one.
pub open spec fn primitive_size(p: Seq<char>) -> Option<int> {
    if p == "u8"@ || p == "i8"@ || p == "bool"@ {
        Some(1)
    } else if p == "u16"@ || p == "i16"@ {
        Some(2)
    } else if p == "u32"@ || p == "i32"@ || p == "f32"@ {
        Some(4)
    } else if p == "u64"@ || p == "i64"@ || p == "f64"@ {
        Some(8)
    } else if p == "u128"@ || p == "i128"@ {
        Some(16)
    } else {
        None
    }
}

/// Number of registered paths not on the stack `s`.
pub open spec fn unvisited(r: Defs, s: Seq<Seq<char>>) -> nat
    decreases r.len(),
{
    if r.len() == 0 {
        0
    } else {
        unvisited(r.drop_last(), s) + if s.contains(r.last().0) { 0nat } else { 1nat }
    }
}

/// Pushing a registered, not yet visited path shrinks the unvisited count.
pub proof fn lemma_unvisited_push(r: Defs, s: Seq<Seq<char>>, p: Seq<char>)
    requires
        has_key(r, p),
        !s.contains(p),
    ensures
        unvisited(r, s.push(p)) < unvisited(r, s),
    decreases r.len(),
{
    if r.len() > 0 {
        lemma_unvisited_le(r.drop_last(), s, p);
        if r.last().0 == p {
            assert(s.push(p)[s.len() as int] == p);
        } else {
            let i = key_index(r, p);
            assert(r.drop_last()[i] == r[i]);
            assert(has_key(r.drop_last(), p));
            lemma_unvisited_push(r.drop_last(), s, p);
            assert(s.push(p).contains(r.last().0) == s.contains(r.last().0)) by {
                if s.push(p).contains(r.last().0) {
                    let k = choose|k: int| 0 <= k < s.push(p).len() && s.push(p)[k] == r.last().0;
                    assert(k < s.len());
                    assert(s[k] == r.last().0);
                }
                if s.contains(r.last().0) {
                    let k = choose|k: int| 0 <= k < s.len() && s[k] == r.last().0;
                    assert(s.push(p)[k] == r.last().0);
                }
            }
        }
    }
}

/// Pushing any path never grows the unvisited count.
pub proof fn lemma_unvisited_le(r: Defs, s: Seq<Seq<char>>, p: Seq<char>)
    ensures
        unvisited(r, s.push(p)) <= unvisited(r, s),
    decreases r.len(),
{
    if r.len() > 0 {
        lemma_unvisited_le(r.drop_last(), s, p);
        if s.contains(r.last().0) {
            let k = choose|k: int| 0 <= k < s.len() && s[k] == r.last().0;
            assert(s.push(p)[k] == r.last().0);
        }
    }
}

/// A layout with a dependency appended.
pub open spec fn with_dep(l: LayoutV, p: Seq<char>) -> LayoutV {
    LayoutV { size: l.size, dynamic: l.dynamic, deps: l.deps.push(p) }
}

/// Nesting depth of the wrappers (array, vector, option) around a type.
pub open spec fn ty_rank(t: TypeRefV) -> nat
    decreases t,
{
    match t {
        TypeRefV::Array(inner, _) => 1 + ty_rank(*inner),
        TypeRefV::Vec(inner) => 1 + ty_rank(*inner),
        TypeRefV::Option(inner) => 1 + ty_rank(*inner),
        _ => 0,
    }
}

/// Layout of a type reference, seen from `module`, with `s` the paths being resolved.
pub open spec fn lay_ty(r: Defs, s: Seq<Seq<char>>, module: Seq<char>, t: TypeRefV) -> Result<LayoutV, LayoutErrorV>
    decreases unvisited(r, s), 2nat, ty_rank(t),
{
    match t {
        TypeRefV::Primitive(p) => match primitive_size(p) {
            Some(n) => Ok(LayoutV { size: n, dynamic: false, deps: Seq::empty() }),
            None => Err(LayoutErrorV::UnknownPrimitive(p)),
        },
        TypeRefV::String => Ok(LayoutV { size: 4, dynamic: true, deps: Seq::empty() }),
        TypeRefV::Pubkey => Ok(LayoutV { size: 32, dynamic: false, deps: Seq::empty() }),
        TypeRefV::Array(inner, len) => match lay_ty(r, s, module, *inner) {
            Ok(l) => if l.size * len > usize::MAX {
                Err(LayoutErrorV::Overflow)
            } else {
                Ok(LayoutV { size: l.size * len, dynamic: l.dynamic, deps: l.deps })
            },
            Err(e) => Err(e),
        },
        TypeRefV::Vec(inner) => match lay_ty(r, s, module, *inner) {
            Ok(l) => Ok(LayoutV { size: 4, dynamic: true, deps: l.deps }),
            Err(e) => Err(e),
        },
        TypeRefV::Option(inner) => match lay_ty(r, s, module, *inner) {
            Ok(l) => if l.size + 1 > usize::MAX {
                Err(LayoutErrorV::Overflow)
            } else {
                Ok(LayoutV { size: l.size + 1, dynamic: l.dynamic, deps: l.deps })
            },
            Err(e) => Err(e),
        },
        TypeRefV::Custom(ident) => match spec_resolve_plain(crate::maps::keys_of(r), module, ident) {
            Ok(p) => lay_path(r, s, p),
            Err(e) => Err(LayoutErrorV::Resolve(e)),
        },
        TypeRefV::Resolved(p) => lay_path(r, s, p),
        _ => Err(LayoutErrorV::Unsupported(t)),
    }
}

/// Layout of the definition registered at absolute path `p`.
pub open spec fn lay_path(r: Defs, s: Seq<Seq<char>>, p: Seq<char>) -> Result<LayoutV, LayoutErrorV>
    decreases unvisited(r, s), 1nat, 0nat,
{
    if s.contains(p) {
        Err(LayoutErrorV::Cyclic(p))
    } else {
        match lookup(r, p) {
            None => Err(LayoutErrorV::Missing(p)),
            Some(def) => {
                proof {
                    lemma_unvisited_push(r, s, p);
                }
                let s2 = s.push(p);
                let m = crate::text::parent_module(p);
                let res = match def {
                    TypeDefV::Struct(st) => lay_struct(r, s2, m, st),
                    TypeDefV::Enum(e) => lay_enum(r, s2, m, e),
                    TypeDefV::Alias(a) => lay_ty(r, s2, m, a.target),
                    TypeDefV::Instruction(_) => Err(LayoutErrorV::NotALayout(p)),
                };
                match res {
                    Ok(l) => Ok(with_dep(l, p)),
                    Err(e) => Err(e),
                }
            },
        }
    }
}

/// Sum of the layouts of a field list, left to right.
pub open spec fn lay_fields(r: Defs, s: Seq<Seq<char>>, module: Seq<char>, fs: Seq<FieldV>) -> Result<LayoutV, LayoutErrorV>
    decreases unvisited(r, s), 3nat, fs.len(),
{
    if fs.len() == 0 {
        Ok(LayoutV { size: 0, dynamic: false, deps: Seq::empty() })
    } else {
        match lay_fields(r, s, module, fs.drop_last()) {
            Err(e) => Err(e),
            Ok(prev) => match lay_ty(r, s, module, fs.last().type_ref) {
                Err(e) => Err(e),
                Ok(f) => if prev.size + f.size > usize::MAX {
                    Err(LayoutErrorV::Overflow)
                } else {
                    Ok(LayoutV { size: prev.size + f.size, dynamic: prev.dynamic || f.dynamic, deps: prev.deps + f.deps })
                },
            },
        }
    }
}

/// Struct layout: an 8-byte discriminator for accounts, then the fields.
pub open spec fn lay_struct(r: Defs, s: Seq<Seq<char>>, module: Seq<char>, st: StructV) -> Result<LayoutV, LayoutErrorV>
    decreases unvisited(r, s), 5nat, 0nat,
{
    let base: int = if st.is_account { 8 } else { 0 };
    match lay_fields(r, s, module, st.fields) {
        Err(e) => Err(e),
        Ok(l) => if base + l.size > usize::MAX {
            Err(LayoutErrorV::Overflow)
        } else {
            Ok(LayoutV { size: base + l.size, dynamic: l.dynamic, deps: l.deps })
        },
    }
}

/// The largest variant size, whether any field is dynamic, and all dependencies.
pub open spec fn lay_variants(r: Defs, s: Seq<Seq<char>>, module: Seq<char>, vs: Seq<VariantV>) -> Result<LayoutV, LayoutErrorV>
    decreases unvisited(r, s), 4nat, vs.len(),
{
    if vs.len() == 0 {
        Ok(LayoutV { size: 0, dynamic: false, deps: Seq::empty() })
    } else {
        match lay_variants(r, s, module, vs.drop_last()) {
            Err(e) => Err(e),
            Ok(prev) => match lay_fields(r, s, module, vs.last().fields) {
                Err(e) => Err(e),
                Ok(v) => Ok(LayoutV {
                    size: if v.size > prev.size { v.size } else { prev.size },
                    dynamic: prev.dynamic || v.dynamic,
                    deps: prev.deps + v.deps,
                }),
            },
        }
    }
}

/// Enum layout: a 1-byte discriminator plus the largest variant.
pub open spec fn lay_enum(r: Defs, s: Seq<Seq<char>>, module: Seq<char>, e: EnumV) -> Result<LayoutV, LayoutErrorV>
    decreases unvisited(r, s), 5nat, 0nat,
{
    match lay_variants(r, s, module, e.variants) {
        Err(err) => Err(err),
        Ok(l) => if 1 + l.size > usize::MAX {
            Err(LayoutErrorV::Overflow)
        } else {
            Ok(LayoutV { size: 1 + l.size, dynamic: l.dynamic, deps: l.deps })
        },
    }
}

} // verus!

verus! {

/// Whether the text `s` is one of the texts of `v`.
pub fn strings_contain(v: &Vec<String>, s: &str) -> (r: bool)
    ensures
        r == strs_view(v@).contains(s@),
{
    let mut i: usize = 0;
    while i < v.len()
        invariant
            i <= v@.len(),
            forall|j: int| 0 <= j < i ==> v@[j]@ != s@,
        decreases v@.len() - i,
    {
        if crate::text::str_eq(v[i].as_str(), s) {
            assert(strs_view(v@)[i as int] == s@);
            return true;
        }
        i += 1;
    }
    assert(!strs_view(v@).contains(s@)) by {
        if strs_view(v@).contains(s@) {
            let j = choose|j: int| 0 <= j < strs_view(v@).len() && strs_view(v@)[j] == s@;
            assert(v@[j]@ == s@);
        }
    }
    false
}

/// The byte size of a primitive type name.
pub fn primitive_size_exec(p: &str) -> (r: Option<usize>)
    ensures
        match r {
            Some(n) => primitive_size(p@) == Some(n as int),
            None => primitive_size(p@) is None,
        },
{
    if str_eq(p, "u8") || str_eq(p, "i8") || str_eq(p, "bool") {
        Some(1)
    } else if str_eq(p, "u16") || str_eq(p, "i16") {
        Some(2)
    } else if str_eq(p, "u32") || str_eq(p, "i32") || str_eq(p, "f32") {
        Some(4)
    } else if str_eq(p, "u64") || str_eq(p, "i64") || str_eq(p, "f64") {
        Some(8)
    } else if str_eq(p, "u128") || str_eq(p, "i128") {
        Some(16)
    } else {
        None
    }
}

/// Once a prefix of the fields fails, the whole list fails with the same error.
pub proof fn lemma_lay_fields_err(r: Defs, s: Seq<Seq<char>>, m: Seq<char>, fs: Seq<FieldV>, k: int)
    requires
        0 <= k <= fs.len(),
        lay_fields(r, s, m, fs.take(k)) is Err,
    ensures
        lay_fields(r, s, m, fs) == lay_fields(r, s, m, fs.take(k)),
    decreases fs.len() - k,
{
    if k < fs.len() {
        let t = fs.take(k + 1);
        assert(t.drop_last() =~= fs.take(k));
        lemma_lay_fields_err(r, s, m, fs, k + 1);
    } else {
        assert(fs.take(k) =~= fs);
    }
}

/// Once a prefix of the variants fails, the whole list fails with the same error.
pub proof fn lemma_lay_variants_err(r: Defs, s: Seq<Seq<char>>, m: Seq<char>, vs: Seq<VariantV>, k: int)
    requires
        0 <= k <= vs.len(),
        lay_variants(r, s, m, vs.take(k)) is Err,
    ensures
        lay_variants(r, s, m, vs) == lay_variants(r, s, m, vs.take(k)),
    decreases vs.len() - k,
{
    if k < vs.len() {
        let t = vs.take(k + 1);
        assert(t.drop_last() =~= vs.take(k));
        lemma_lay_variants_err(r, s, m, vs, k + 1);
    } else {
        assert(vs.take(k) =~= vs);
    }
}

/// Computes account layouts over a registry, detecting cyclic definitions.
pub struct LayoutEngine<'a> {
    pub registry: &'a TypeRegistry,
    /// Absolute paths whose layout is being computed (innermost last).
    pub resolving: Vec<String>,
}

impl<'a> LayoutEngine<'a> {
    /// The registered definitions.
    pub open spec fn defs(&self) -> Defs {
        self.registry.definitions.pairs()
    }

    /// The paths being resolved.
    pub open spec fn stack(&self) -> Seq<Seq<char>> {
        strs_view(self.resolving@)
    }

    /// A layout engine over `registry` with nothing being resolved.
    pub fn new(registry: &'a TypeRegistry) -> (r: Self)
        ensures
            r.registry == registry,
            r.resolving@.len() == 0,
    {
        LayoutEngine { registry, resolving: Vec::new() }
    }

    /// Resolves a short name seen from `current_module` (no import-based disambiguation).
    pub fn resolve_absolute_path(&self, current_module: &str, ident: &str) -> (r: Result<String, ResolveError>)
        ensures
            crate::types::resolve_view(r) == spec_resolve_plain(crate::maps::keys_of(self.defs()), current_module@, ident@),
    {
        resolve_plain(&self.registry.definitions, current_module, ident)
    }

    /// The layout of type `ty` written in `current_module`.
    pub fn size_of_type_ref(&mut self, current_module: &str, ty: &TypeRef) -> (r: Result<LayoutInfo, LayoutError>)
        ensures
            layout_result_view(r) == lay_ty(old(self).defs(), old(self).stack(), current_module@, ty@),
            final(self).registry == old(self).registry,
            final(self).resolving@ == old(self).resolving@,
        decreases unvisited(old(self).defs(), old(self).stack()), 2nat, ty_rank(ty@),
    {
        match ty {
            TypeRef::Primitive(p) => match primitive_size_exec(p.as_str()) {
                Some(size) => {
                    let l = LayoutInfo { size, dynamic: false, dependencies: Vec::new() };
                    assert(l@.deps =~= Seq::<Seq<char>>::empty());
                    Ok(l)
                },
                None => Err(LayoutError::UnknownPrimitive(p.clone())),
            },
            TypeRef::String => {
                let l = LayoutInfo { size: 4, dynamic: true, dependencies: Vec::new() };
                assert(l@.deps =~= Seq::<Seq<char>>::empty());
                Ok(l)
            },
            TypeRef::Pubkey => {
                let l = LayoutInfo { size: 32, dynamic: false, dependencies: Vec::new() };
                assert(l@.deps =~= Seq::<Seq<char>>::empty());
                Ok(l)
            },
            TypeRef::Array(inner, len) => {
                let inner_layout = self.size_of_type_ref(current_module, inner)?;
                match inner_layout.size.checked_mul(*len) {
                    Some(size) => Ok(LayoutInfo { size, dynamic: inner_layout.dynamic, dependencies: inner_layout.dependencies }),
                    None => Err(LayoutError::Overflow),
                }
            },
            TypeRef::Vec(inner) => {
                let mut inner_layout = self.size_of_type_ref(current_module, inner)?;
                inner_layout.size = 4;
                inner_layout.dynamic = true;
                Ok(inner_layout)
            },
            TypeRef::Option(inner) => {
                let mut inner_layout = self.size_of_type_ref(current_module, inner)?;
                if inner_layout.size == usize::MAX {
                    return Err(LayoutError::Overflow);
                }
                inner_layout.size = inner_layout.size + 1;
                Ok(inner_layout)
            },
            TypeRef::Custom(ident) => {
                match self.resolve_absolute_path(current_module, ident.as_str()) {
                    Ok(abs_path) => self.size_of_absolute_path(abs_path.as_str()),
                    Err(e) => Err(LayoutError::Resolve(e)),
                }
            },
            TypeRef::Resolved(abs_path) => self.size_of_absolute_path(abs_path.as_str()),
            _ => Err(LayoutError::Unsupported(ty.copy())),
        }
    }

    /// The layout of the definition registered at `abs_path`. The path is on
    /// the resolving stack only while its definition is laid out: it is taken
    /// off again whether that succeeds or fails. This is deliberate: a stack
    /// that kept a failed path would make a later call on that path, on the
    /// same engine, report a cycle where the real error (such as a missing
    /// definition) is due. No layouts are kept between calls; a repeat call
    /// gives the same result.
    pub fn size_of_absolute_path(&mut self, abs_path: &str) -> (r: Result<LayoutInfo, LayoutError>)
        ensures
            layout_result_view(r) == lay_path(old(self).defs(), old(self).stack(), abs_path@),
            final(self).registry == old(self).registry,
            final(self).resolving@ == old(self).resolving@,
        decreases unvisited(old(self).defs(), old(self).stack()), 1nat, 0nat,
    {
        if strings_contain(&self.resolving, abs_path) {
            return Err(LayoutError::Cyclic(crate::text::lit(abs_path)));
        }
        let registry: &'a TypeRegistry = self.registry;
        let def = match registry.get(abs_path) {
            Some(d) => d,
            None => return Err(LayoutError::Missing(crate::text::lit(abs_path))),
        };
        let ghost s0 = self.resolving@;
        proof {
            lemma_unvisited_push(self.defs(), self.stack(), abs_path@);
        }
        let path_string = crate::text::lit(abs_path);
        self.resolving.push(path_string);
        assert(self.stack() =~= strs_view(s0).push(abs_path@));
        let (current_module, _) = crate::text::split_last_sep(abs_path);
        let res = match def {
            TypeDef::Struct(s) => self.size_of_struct(current_module.as_str(), s),
            TypeDef::Enum(e) => self.size_of_enum(current_module.as_str(), e),
            TypeDef::Alias(a) => self.size_of_type_ref(current_module.as_str(), &a.target),
            TypeDef::Instruction(_) => Err(LayoutError::NotALayout(crate::text::lit(abs_path))),
        };
        self.resolving.pop();
        assert(self.resolving@ =~= s0);
        match res {
            Ok(mut layout) => {
                let ghost d0 = layout@.deps;
                layout.dependencies.push(crate::text::lit(abs_path));
                assert(layout@.deps =~= d0.push(abs_path@));
                Ok(layout)
            },
            Err(e) => Err(e),
        }
    }

    /// Sum of the field layouts of `fields`, left to right.
    fn size_of_fields(&mut self, current_module: &str, fields: &Vec<FieldDef>) -> (r: Result<LayoutInfo, LayoutError>)
        ensures
            layout_result_view(r) == lay_fields(old(self).defs(), old(self).stack(), current_module@, fields_view(fields@)),
            final(self).registry == old(self).registry,
            final(self).resolving@ == old(self).resolving@,
        decreases unvisited(old(self).defs(), old(self).stack()), 3nat, fields@.len(),
    {
        let ghost fv = fields_view(fields@);
        let ghost r0 = self.defs();
        let ghost s0 = self.stack();
        let ghost reg0 = self.registry;
        let ghost res0 = self.resolving@;
        let mut total: usize = 0;
        let mut dynamic = false;
        let mut deps: Vec<String> = Vec::new();
        let mut i: usize = 0;
        assert(fv.take(0) =~= Seq::<FieldV>::empty());
        assert(strs_view(deps@) =~= Seq::<Seq<char>>::empty());
        while i < fields.len()
            invariant
                i <= fields@.len(),
                r0 == old(self).defs(),
                s0 == old(self).stack(),
                reg0 == old(self).registry,
                res0 == old(self).resolving@,
                fv == fields_view(fields@),
                self.registry == reg0,
                self.resolving@ == res0,
                r0 == self.defs(),
                s0 == self.stack(),
                lay_fields(r0, s0, current_module@, fv.take(i as int)) == Ok::<LayoutV, LayoutErrorV>(
                    LayoutV { size: total as int, dynamic, deps: strs_view(deps@) }),
            decreases fields@.len() - i,
        {
            let ghost t = fv.take(i + 1);
            assert(t.drop_last() =~= fv.take(i as int));
            assert(t.last() == fields@[i as int]@);
            let field_layout = match self.size_of_type_ref(current_module, &fields[i].type_ref) {
                Ok(l) => l,
                Err(e) => {
                    assert(lay_fields(r0, s0, current_module@, t) == Err::<LayoutV, LayoutErrorV>(e@));
                    proof {
                        lemma_lay_fields_err(r0, s0, current_module@, fv, i + 1);
                    }
                    return Err(e);
                },
            };
            if field_layout.size > usize::MAX - total {
                assert(lay_fields(r0, s0, current_module@, t) == Err::<LayoutV, LayoutErrorV>(LayoutErrorV::Overflow));
                proof {
                    lemma_lay_fields_err(r0, s0, current_module@, fv, i + 1);
                }
                return Err(LayoutError::Overflow);
            }
            total = total + field_layout.size;
            if field_layout.dynamic {
                dynamic = true;
            }
            let ghost d0 = strs_view(deps@);
            let mut fd = field_layout.dependencies;
            deps.append(&mut fd);
            assert(strs_view(deps@) =~= d0 + field_layout@.deps);
            i += 1;
        }
        assert(fv.take(fields@.len() as int) =~= fv);
        Ok(LayoutInfo { size: total, dynamic, dependencies: deps })
    }

    /// Layout of a struct: an 8-byte discriminator for accounts, then its fields.
    fn size_of_struct(&mut self, current_module: &str, s: &StructDef) -> (r: Result<LayoutInfo, LayoutError>)
        ensures
            layout_result_view(r) == lay_struct(old(self).defs(), old(self).stack(), current_module@, s@),
            final(self).registry == old(self).registry,
            final(self).resolving@ == old(self).resolving@,
        decreases unvisited(old(self).defs(), old(self).stack()), 5nat, 0nat,
    {
        let base: usize = if s.is_account { 8 } else { 0 };
        let mut l = self.size_of_fields(current_module, &s.fields)?;
        if l.size > usize::MAX - base {
            return Err(LayoutError::Overflow);
        }
        l.size = base + l.size;
        Ok(l)
    }

    /// Layout of an enum: a 1-byte discriminator plus its largest variant.
    fn size_of_enum(&mut self, current_module: &str, e: &EnumDef) -> (r: Result<LayoutInfo, LayoutError>)
        ensures
            layout_result_view(r) == lay_enum(old(self).defs(), old(self).stack(), current_module@, e@),
            final(self).registry == old(self).registry,
            final(self).resolving@ == old(self).resolving@,
        decreases unvisited(old(self).defs(), old(self).stack()), 5nat, 0nat,
    {
        let ghost vv = e@.variants;
        let ghost r0 = self.defs();
        let ghost s0 = self.stack();
        let ghost reg0 = self.registry;
        let ghost res0 = self.resolving@;
        let mut max_variant_size: usize = 0;
        let mut dynamic = false;
        let mut deps: Vec<String> = Vec::new();
        let mut i: usize = 0;
        assert(vv.take(0) =~= Seq::<VariantV>::empty());
        assert(strs_view(deps@) =~= Seq::<Seq<char>>::empty());
        while i < e.variants.len()
            invariant
                i <= e.variants@.len(),
                r0 == old(self).defs(),
                s0 == old(self).stack(),
                reg0 == old(self).registry,
                res0 == old(self).resolving@,
                vv == e@.variants,
                vv.len() == e.variants@.len(),
                self.registry == reg0,
                self.resolving@ == res0,
                r0 == self.defs(),
                s0 == self.stack(),
                lay_variants(r0, s0, current_module@, vv.take(i as int)) == Ok::<LayoutV, LayoutErrorV>(
                    LayoutV { size: max_variant_size as int, dynamic, deps: strs_view(deps@) }),
            decreases e.variants@.len() - i,
        {
            let ghost t = vv.take(i + 1);
            assert(t.drop_last() =~= vv.take(i as int));
            assert(t.last() == e.variants@[i as int]@);
            let v = match self.size_of_fields(current_module, &e.variants[i].fields) {
                Ok(l) => l,
                Err(err) => {
                    assert(lay_variants(r0, s0, current_module@, t) == Err::<LayoutV, LayoutErrorV>(err@));
                    proof {
                        lemma_lay_variants_err(r0, s0, current_module@, vv, i + 1);
                    }
                    return Err(err);
                },
            };
            if v.size > max_variant_size {
                max_variant_size = v.size;
            }
            if v.dynamic {
                dynamic = true;
            }
            let ghost d0 = strs_view(deps@);
            let mut vd = v.dependencies;
            deps.append(&mut vd);
            assert(strs_view(deps@) =~= d0 + v@.deps);
            i += 1;
        }
        assert(vv.take(e.variants@.len() as int) =~= vv);
        if max_variant_size == usize::MAX {
            return Err(LayoutError::Overflow);
        }
        Ok(LayoutInfo { size: 1 + max_variant_size, dynamic, dependencies: deps })
    }
}

} // verus!

verus! {

// ---------------------------------------------------------------------------
// What an enum's size is.

proof fn lemma_variants_max(r: Defs, s: Seq<Seq<char>>, m: Seq<char>, vs: Seq<VariantV>)
    requires
        lay_variants(r, s, m, vs) is Ok,
    ensures
        forall|i: int| 0 <= i < vs.len() ==> (#[trigger] lay_fields(r, s, m, vs[i].fields)) is Ok
            && lay_fields(r, s, m, vs[i].fields)->Ok_0.size <= lay_variants(r, s, m, vs)->Ok_0.size,
        lay_variants(r, s, m, vs)->Ok_0.size == 0 || exists|i: int| 0 <= i < vs.len()
            && (#[trigger] lay_fields(r, s, m, vs[i].fields))->Ok_0.size == lay_variants(r, s, m, vs)->Ok_0.size,
        lay_variants(r, s, m, vs)->Ok_0.dynamic == exists|i: int| 0 <= i < vs.len()
            && (#[trigger] lay_fields(r, s, m, vs[i].fields))->Ok_0.dynamic,
    decreases vs.len(),
{
    if vs.len() > 0 {
        let vd = vs.drop_last();
        lemma_variants_max(r, s, m, vd);
        let total = lay_variants(r, s, m, vs)->Ok_0.size;
        assert forall|i: int| 0 <= i < vs.len() implies (#[trigger] lay_fields(r, s, m, vs[i].fields)) is Ok
            && lay_fields(r, s, m, vs[i].fields)->Ok_0.size <= total by {
            if i < vs.len() - 1 {
                assert(vd[i] == vs[i]);
            }
        }
        let last = vs.len() - 1;
        assert(vs.last() == vs[last]);
        if lay_variants(r, s, m, vd)->Ok_0.dynamic {
            let j = choose|j: int| 0 <= j < vd.len() && (#[trigger] lay_fields(r, s, m, vd[j].fields))->Ok_0.dynamic;
            assert(vs[j] == vd[j]);
        }
        if exists|i: int| 0 <= i < vs.len() && (#[trigger] lay_fields(r, s, m, vs[i].fields))->Ok_0.dynamic {
            let j = choose|j: int| 0 <= j < vs.len() && (#[trigger] lay_fields(r, s, m, vs[j].fields))->Ok_0.dynamic;
            if j < last {
                assert(vd[j] == vs[j]);
            }
        }
        let prev = lay_variants(r, s, m, vd)->Ok_0;
        let v = lay_fields(r, s, m, vs[last].fields)->Ok_0;
        assert(total == if v.size > prev.size { v.size } else { prev.size });
        if v.size >= prev.size {
            assert(lay_fields(r, s, m, vs[last].fields)->Ok_0.size == total);
        } else if prev.size != 0 {
            let j = choose|j: int| 0 <= j < vd.len() && (#[trigger] lay_fields(r, s, m, vd[j].fields))->Ok_0.size
                == lay_variants(r, s, m, vd)->Ok_0.size;
            assert(vs[j] == vd[j]);
            assert(lay_fields(r, s, m, vs[j].fields)->Ok_0.size == total);
        }
    }
}

/// The layout of an enum is a one-byte tag followed by room for its largest
/// variant: every variant's fields fit in the size less one byte, and some
/// variant fills it exactly unless the enum takes that one byte alone (as
/// one without variants does). The enum is dynamic exactly when some variant
/// is.
pub proof fn law_enum_size_is_tag_plus_largest_variant(r: Defs, s: Seq<Seq<char>>, p: Seq<char>, e: EnumV)
    requires
        lookup(r, p) == Some(TypeDefV::Enum(e)),
        lay_path(r, s, p) is Ok,
    ensures
        ({
            let size = lay_path(r, s, p)->Ok_0.size;
            let inner = s.push(p);
            let m = crate::text::parent_module(p);
            &&& forall|i: int| 0 <= i < e.variants.len() ==> (#[trigger] lay_fields(r, inner, m, e.variants[i].fields)) is Ok
                && lay_fields(r, inner, m, e.variants[i].fields)->Ok_0.size + 1 <= size
            &&& e.variants.len() == 0 ==> size == 1
            &&& size == 1 || exists|i: int| 0 <= i < e.variants.len()
                && (#[trigger] lay_fields(r, inner, m, e.variants[i].fields))->Ok_0.size + 1 == size
            &&& lay_path(r, s, p)->Ok_0.dynamic == exists|i: int| 0 <= i < e.variants.len()
                && (#[trigger] lay_fields(r, inner, m, e.variants[i].fields))->Ok_0.dynamic
        }),
{
    let inner = s.push(p);
    let m = crate::text::parent_module(p);
    assert(!s.contains(p));
    assert(lay_enum(r, inner, m, e) is Ok);
    lemma_variants_max(r, inner, m, e.variants);
}

/// The layout of a struct is its fields laid end to end, after an 8-byte
/// discriminator when the struct is an account.
pub proof fn law_struct_size_is_discriminator_plus_fields(r: Defs, s: Seq<Seq<char>>, p: Seq<char>, st: StructV)
    requires
        lookup(r, p) == Some(TypeDefV::Struct(st)),
        lay_path(r, s, p) is Ok,
    ensures
        lay_fields(r, s.push(p), crate::text::parent_module(p), st.fields) is Ok,
        lay_path(r, s, p)->Ok_0.size == (if st.is_account { 8int } else { 0int })
            + lay_fields(r, s.push(p), crate::text::parent_module(p), st.fields)->Ok_0.size,
{
    assert(!s.contains(p));
}

} // verus!
