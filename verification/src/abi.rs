//! ABI fingerprints of registered types and the diff between two workspaces.
use vstd::prelude::*;
use vstd::utf8::encode_utf8;
use vstd::string::StringSliceAdditionalSpecFns;
use crate::maps::lookup;
use crate::layout::{Defs, unvisited, lemma_unvisited_push, strings_contain};
use crate::types::{
    TypeRegistry, TypeRef, TypeRefV, TypeDef, TypeDefV, FieldDef, FieldV, VariantV, ResolveError,
    ResolveErrorV, strs_view, fields_view,
};
use sha2::{Digest, Sha256};

verus! {

// ---------------------------------------------------------------------------
// Digest primitives.

/// The SHA-256 digest of `data`.
pub uninterp spec fn sha256_spec(data: Seq<u8>) -> Seq<u8>;

/// SHA-256 of `data` (`sha2::Sha256`, one `update` with all of `data`, then
/// `finalize`). Claimed: the result is the digest of exactly `data`, which is
/// 32 bytes long. The digest function itself is left unnamed beyond that.
#[verifier::external_body]
fn sha256_digest(data: &[u8]) -> (r: Vec<u8>)
    ensures
        r@ == sha256_spec(data@),
        r@.len() == 32,
{
    let mut hasher = Sha256::new();
    hasher.update(data);
    hasher.finalize().to_vec()
}

/// Lower-case hexadecimal digit for `n < 16`.
pub open spec fn hex_digit(n: int) -> char {
    if n == 0 { '0' } else if n == 1 { '1' } else if n == 2 { '2' } else if n == 3 { '3' }
    else if n == 4 { '4' } else if n == 5 { '5' } else if n == 6 { '6' } else if n == 7 { '7' }
    else if n == 8 { '8' } else if n == 9 { '9' } else if n == 10 { 'a' } else if n == 11 { 'b' }
    else if n == 12 { 'c' } else if n == 13 { 'd' } else if n == 14 { 'e' } else { 'f' }
}

/// Lower-case hexadecimal rendering: two digits per byte, high nibble first.
pub open spec fn hex_lower(b: Seq<u8>) -> Seq<char>
    decreases b.len(),
{
    if b.len() == 0 {
        Seq::empty()
    } else {
        seq![hex_digit(b[0] as int / 16), hex_digit(b[0] as int % 16)] + hex_lower(b.drop_first())
    }
}

/// `hex::encode`: the lower-case hexadecimal text of `data`, two digits per
/// byte, high nibble first (as the crate's `encode` documents and its
/// `HEX_CHARS_LOWER` table shows).
#[verifier::external_body]
fn hex_encode(data: &[u8]) -> (r: String)
    ensures
        r@ == hex_lower(data@),
{
    hex::encode(data)
}

/// The fingerprint of a byte string: hex of its SHA-256.
pub open spec fn fingerprint(data: Seq<u8>) -> Seq<char> {
    hex_lower(sha256_spec(data))
}

/// Fingerprint of `data`.
fn fingerprint_exec(data: &Vec<u8>) -> (r: String)
    ensures
        r@ == fingerprint(data@),
{
    let d = sha256_digest(data.as_slice());
    hex_encode(d.as_slice())
}

/// The UTF-8 bytes of a text.
pub open spec fn enc(s: Seq<char>) -> Seq<u8> {
    encode_utf8(s)
}

/// Appends the UTF-8 bytes of `s` to `v`.
fn push_bytes(v: &mut Vec<u8>, s: &str)
    ensures
        final(v)@ == old(v)@ + enc(s@),
{
    let b = s.as_bytes();
    let ghost v0 = v@;
    let mut i: usize = 0;
    while i < b.len()
        invariant
            i <= b@.len(),
            b@ == s.spec_bytes(),
            v@ == v0 + b@.subrange(0, i as int),
        decreases b@.len() - i,
    {
        v.push(b[i]);
        i += 1;
        assert(v@ =~= v0 + b@.subrange(0, i as int));
    }
    assert(b@.subrange(0, b@.len() as int) =~= b@);
}

// ---------------------------------------------------------------------------
// Fingerprint specification.

/// Why a fingerprint could not be computed.
#[derive(Debug)]
pub enum AbiError {
    Resolve(ResolveError),
    Cyclic(String),
    Missing(String),
    Unsupported(TypeRef),
}

/// Model of an [`AbiError`].
pub enum AbiErrorV {
    Resolve(ResolveErrorV),
    Cyclic(Seq<char>),
    Missing(Seq<char>),
    Unsupported(TypeRefV),
}

impl View for AbiError {
    type V = AbiErrorV;

    open spec fn view(&self) -> AbiErrorV {
        match self {
            AbiError::Resolve(e) => AbiErrorV::Resolve(e@),
            AbiError::Cyclic(s) => AbiErrorV::Cyclic(s@),
            AbiError::Missing(s) => AbiErrorV::Missing(s@),
            AbiError::Unsupported(t) => AbiErrorV::Unsupported(t@),
        }
    }
}

/// Model of a fingerprint result.
pub open spec fn hash_result_view(r: Result<String, AbiError>) -> Result<Seq<char>, AbiErrorV> {
    match r {
        Ok(s) => Ok(s@),
        Err(e) => Err(e@),
    }
}

/// Fingerprint of type `t` written in `module`, with `s` the paths being hashed.
pub open spec fn fp_ty(reg: TypeRegistry, s: Seq<Seq<char>>, module: Seq<char>, t: TypeRefV) -> Result<Seq<char>, AbiErrorV>
    decreases unvisited(reg.definitions.pairs(), s), 2nat, crate::layout::ty_rank(t),
{
    match t {
        TypeRefV::Primitive(p) => Ok(fingerprint(enc("Primitive"@) + enc(p))),
        TypeRefV::String => Ok(fingerprint(enc("String"@))),
        TypeRefV::Pubkey => Ok(fingerprint(enc("Pubkey"@))),
        TypeRefV::Array(inner, len) => match fp_ty(reg, s, module, *inner) {
            Ok(h) => Ok(fingerprint(enc("Array"@) + enc(h) + enc(crate::text::decimal(len as nat)))),
            Err(e) => Err(e),
        },
        TypeRefV::Vec(inner) => match fp_ty(reg, s, module, *inner) {
            Ok(h) => Ok(fingerprint(enc("Vec"@) + enc(h))),
            Err(e) => Err(e),
        },
        TypeRefV::Option(inner) => match fp_ty(reg, s, module, *inner) {
            Ok(h) => Ok(fingerprint(enc("Option"@) + enc(h))),
            Err(e) => Err(e),
        },
        TypeRefV::Custom(ident) => match reg.spec_resolve(module, ident) {
            Ok(p) => match fp_path(reg, s, p) {
                Ok(h) => Ok(fingerprint(enc(h))),
                Err(e) => Err(e),
            },
            Err(e) => Err(AbiErrorV::Resolve(e)),
        },
        TypeRefV::Resolved(p) => match fp_path(reg, s, p) {
            Ok(h) => Ok(fingerprint(enc(h))),
            Err(e) => Err(e),
        },
        _ => Err(AbiErrorV::Unsupported(t)),
    }
}

/// Bytes hashed for a field list: each name, then its type's fingerprint.
pub open spec fn fp_fields(reg: TypeRegistry, s: Seq<Seq<char>>, module: Seq<char>, fs: Seq<FieldV>) -> Result<Seq<u8>, AbiErrorV>
    decreases unvisited(reg.definitions.pairs(), s), 3nat, fs.len(),
{
    if fs.len() == 0 {
        Ok(Seq::empty())
    } else {
        match fp_fields(reg, s, module, fs.drop_last()) {
            Err(e) => Err(e),
            Ok(prev) => match fp_ty(reg, s, module, fs.last().type_ref) {
                Err(e) => Err(e),
                Ok(h) => Ok(prev + enc(fs.last().name) + enc(h)),
            },
        }
    }
}

/// Bytes hashed for enum variants: each name, then its fields.
pub open spec fn fp_variants(reg: TypeRegistry, s: Seq<Seq<char>>, module: Seq<char>, vs: Seq<VariantV>) -> Result<Seq<u8>, AbiErrorV>
    decreases unvisited(reg.definitions.pairs(), s), 4nat, vs.len(),
{
    if vs.len() == 0 {
        Ok(Seq::empty())
    } else {
        match fp_variants(reg, s, module, vs.drop_last()) {
            Err(e) => Err(e),
            Ok(prev) => match fp_fields(reg, s, module, vs.last().fields) {
                Err(e) => Err(e),
                Ok(b) => Ok(prev + enc(vs.last().name) + b),
            },
        }
    }
}

/// Bytes hashed for a definition.
pub open spec fn fp_def(reg: TypeRegistry, s: Seq<Seq<char>>, module: Seq<char>, def: TypeDefV) -> Result<Seq<u8>, AbiErrorV>
    decreases unvisited(reg.definitions.pairs(), s), 5nat, 0nat,
{
    match def {
        TypeDefV::Struct(st) => match fp_fields(reg, s, module, st.fields) {
            Ok(b) => Ok(enc("Struct"@) + (if st.is_account { enc("Account"@) } else { Seq::empty() }) + b),
            Err(e) => Err(e),
        },
        TypeDefV::Enum(e) => match fp_variants(reg, s, module, e.variants) {
            Ok(b) => Ok(enc("Enum"@) + b),
            Err(err) => Err(err),
        },
        TypeDefV::Alias(a) => match fp_ty(reg, s, module, a.target) {
            Ok(h) => Ok(enc("Alias"@) + enc(h)),
            Err(e) => Err(e),
        },
        TypeDefV::Instruction(inst) => match fp_fields(reg, s, module, inst.args) {
            Ok(b) => Ok(enc("Instruction"@) + enc(inst.name) + b),
            Err(e) => Err(e),
        },
    }
}

/// Fingerprint of the definition registered at absolute path `p`.
pub open spec fn fp_path(reg: TypeRegistry, s: Seq<Seq<char>>, p: Seq<char>) -> Result<Seq<char>, AbiErrorV>
    decreases unvisited(reg.definitions.pairs(), s), 1nat, 0nat,
{
    if s.contains(p) {
        Err(AbiErrorV::Cyclic(p))
    } else {
        match lookup(reg.definitions.pairs(), p) {
            None => Err(AbiErrorV::Missing(p)),
            Some(def) => {
                proof {
                    lemma_unvisited_push(reg.definitions.pairs(), s, p);
                }
                match fp_def(reg, s.push(p), crate::text::parent_module(p), def) {
                    Ok(b) => Ok(fingerprint(b)),
                    Err(e) => Err(e),
                }
            },
        }
    }
}

} // verus!

verus! {

/// Once a prefix of the fields fails, the whole list fails with the same error.
pub proof fn lemma_fp_fields_err(reg: TypeRegistry, s: Seq<Seq<char>>, m: Seq<char>, fs: Seq<FieldV>, k: int)
    requires
        0 <= k <= fs.len(),
        fp_fields(reg, s, m, fs.take(k)) is Err,
    ensures
        fp_fields(reg, s, m, fs) == fp_fields(reg, s, m, fs.take(k)),
    decreases fs.len() - k,
{
    if k < fs.len() {
        assert(fs.take(k + 1).drop_last() =~= fs.take(k));
        lemma_fp_fields_err(reg, s, m, fs, k + 1);
    } else {
        assert(fs.take(k) =~= fs);
    }
}

/// Once a prefix of the variants fails, the whole list fails with the same error.
pub proof fn lemma_fp_variants_err(reg: TypeRegistry, s: Seq<Seq<char>>, m: Seq<char>, vs: Seq<VariantV>, k: int)
    requires
        0 <= k <= vs.len(),
        fp_variants(reg, s, m, vs.take(k)) is Err,
    ensures
        fp_variants(reg, s, m, vs) == fp_variants(reg, s, m, vs.take(k)),
    decreases vs.len() - k,
{
    if k < vs.len() {
        assert(vs.take(k + 1).drop_last() =~= vs.take(k));
        lemma_fp_variants_err(reg, s, m, vs, k + 1);
    } else {
        assert(vs.take(k) =~= vs);
    }
}

/// Computes content fingerprints of registered types, detecting cycles.
pub struct AbiEngine<'a> {
    pub registry: &'a TypeRegistry,
    /// Absolute paths being hashed (innermost last).
    pub resolving: Vec<String>,
}

impl<'a> AbiEngine<'a> {
    /// The paths being hashed.
    pub open spec fn stack(&self) -> Seq<Seq<char>> {
        strs_view(self.resolving@)
    }

    /// An engine over `registry` with nothing being hashed.
    pub fn new(registry: &'a TypeRegistry) -> (r: Self)
        ensures
            r.registry == registry,
            r.resolving@.len() == 0,
    {
        AbiEngine { registry, resolving: Vec::new() }
    }

    /// Resolves a short name seen from `current_module`.
    pub fn resolve_absolute_path(&self, current_module: &str, ident: &str) -> (r: Result<String, ResolveError>)
        ensures
            crate::types::resolve_view(r) == self.registry.spec_resolve(current_module@, ident@),
    {
        self.registry.resolve_absolute_path(current_module, ident)
    }

    /// Fingerprint of type `ty` written in `current_module`.
    pub fn hash_of_type_ref(&mut self, current_module: &str, ty: &TypeRef) -> (r: Result<String, AbiError>)
        ensures
            hash_result_view(r) == fp_ty(*old(self).registry, old(self).stack(), current_module@, ty@),
            final(self).registry == old(self).registry,
            final(self).resolving@ == old(self).resolving@,
        decreases unvisited(old(self).registry.definitions.pairs(), old(self).stack()), 2nat, crate::layout::ty_rank(ty@),
    {
        let mut data: Vec<u8> = Vec::new();
        match ty {
            TypeRef::Primitive(p) => {
                push_bytes(&mut data, "Primitive");
                push_bytes(&mut data, p.as_str());
            },
            TypeRef::String => push_bytes(&mut data, "String"),
            TypeRef::Pubkey => push_bytes(&mut data, "Pubkey"),
            TypeRef::Array(inner, len) => {
                push_bytes(&mut data, "Array");
                let h = self.hash_of_type_ref(current_module, inner)?;
                push_bytes(&mut data, h.as_str());
                let n = crate::text::usize_to_decimal(*len);
                push_bytes(&mut data, n.as_str());
            },
            TypeRef::Vec(inner) => {
                push_bytes(&mut data, "Vec");
                let h = self.hash_of_type_ref(current_module, inner)?;
                push_bytes(&mut data, h.as_str());
            },
            TypeRef::Option(inner) => {
                push_bytes(&mut data, "Option");
                let h = self.hash_of_type_ref(current_module, inner)?;
                push_bytes(&mut data, h.as_str());
            },
            TypeRef::Custom(ident) => {
                let abs_path = match self.resolve_absolute_path(current_module, ident.as_str()) {
                    Ok(p) => p,
                    Err(e) => return Err(AbiError::Resolve(e)),
                };
                let h = self.hash_of_absolute_path(abs_path.as_str())?;
                push_bytes(&mut data, h.as_str());
            },
            TypeRef::Resolved(abs_path) => {
                let h = self.hash_of_absolute_path(abs_path.as_str())?;
                push_bytes(&mut data, h.as_str());
            },
            _ => return Err(AbiError::Unsupported(ty.copy())),
        }
        assert(Seq::<u8>::empty() + enc("Primitive"@) =~= enc("Primitive"@));
        assert(Seq::<u8>::empty() + enc("String"@) =~= enc("String"@));
        assert(Seq::<u8>::empty() + enc("Pubkey"@) =~= enc("Pubkey"@));
        assert(Seq::<u8>::empty() + enc("Array"@) =~= enc("Array"@));
        assert(Seq::<u8>::empty() + enc("Vec"@) =~= enc("Vec"@));
        assert(Seq::<u8>::empty() + enc("Option"@) =~= enc("Option"@));
        Ok(fingerprint_exec(&data))
    }

    /// Bytes for a field list: each name followed by its type's fingerprint.
    fn hash_fields(&mut self, current_module: &str, fields: &Vec<FieldDef>) -> (r: Result<Vec<u8>, AbiError>)
        ensures
            match r {
                Ok(b) => fp_fields(*old(self).registry, old(self).stack(), current_module@, fields_view(fields@)) == Ok::<Seq<u8>, AbiErrorV>(b@),
                Err(e) => fp_fields(*old(self).registry, old(self).stack(), current_module@, fields_view(fields@)) == Err::<Seq<u8>, AbiErrorV>(e@),
            },
            final(self).registry == old(self).registry,
            final(self).resolving@ == old(self).resolving@,
        decreases unvisited(old(self).registry.definitions.pairs(), old(self).stack()), 3nat, fields@.len(),
    {
        let ghost fv = fields_view(fields@);
        let ghost reg0 = self.registry;
        let ghost s0 = self.stack();
        let ghost res0 = self.resolving@;
        let mut data: Vec<u8> = Vec::new();
        let mut i: usize = 0;
        assert(fv.take(0) =~= Seq::<FieldV>::empty());
        while i < fields.len()
            invariant
                i <= fields@.len(),
                fv == fields_view(fields@),
                reg0 == old(self).registry,
                self.registry == reg0,
                res0 == old(self).resolving@,
                self.resolving@ == res0,
                s0 == old(self).stack(),
                s0 == self.stack(),
                fp_fields(*reg0, s0, current_module@, fv.take(i as int)) == Ok::<Seq<u8>, AbiErrorV>(data@),
            decreases fields@.len() - i,
        {
            let ghost t = fv.take(i + 1);
            assert(t.drop_last() =~= fv.take(i as int));
            assert(t.last() == fields@[i as int]@);
            let h = match self.hash_of_type_ref(current_module, &fields[i].type_ref) {
                Ok(h) => h,
                Err(e) => {
                    assert(fp_fields(*reg0, s0, current_module@, t) == Err::<Seq<u8>, AbiErrorV>(e@));
                    proof {
                        lemma_fp_fields_err(*reg0, s0, current_module@, fv, i + 1);
                    }
                    return Err(e);
                },
            };
            let ghost d0 = data@;
            push_bytes(&mut data, fields[i].name.as_str());
            push_bytes(&mut data, h.as_str());
            assert(data@ =~= d0 + enc(fields@[i as int].name@) + enc(h@));
            i += 1;
        }
        assert(fv.take(fields@.len() as int) =~= fv);
        Ok(data)
    }

    /// Fingerprint of the definition registered at `abs_path`. The path is on
    /// the resolving stack only while its definition is hashed: it is taken
    /// off again whether that succeeds or fails. This is deliberate: a stack
    /// that kept a failed path would make a later call on that path, on the
    /// same engine, report a cycle where the real error (such as a missing
    /// definition) is due. No fingerprints are kept between calls; a repeat
    /// call gives the same result.
    pub fn hash_of_absolute_path(&mut self, abs_path: &str) -> (r: Result<String, AbiError>)
        ensures
            hash_result_view(r) == fp_path(*old(self).registry, old(self).stack(), abs_path@),
            final(self).registry == old(self).registry,
            final(self).resolving@ == old(self).resolving@,
        decreases unvisited(old(self).registry.definitions.pairs(), old(self).stack()), 1nat, 0nat,
    {
        if strings_contain(&self.resolving, abs_path) {
            return Err(AbiError::Cyclic(crate::text::lit(abs_path)));
        }
        let registry: &'a TypeRegistry = self.registry;
        let def = match registry.get(abs_path) {
            Some(d) => d,
            None => return Err(AbiError::Missing(crate::text::lit(abs_path))),
        };
        let ghost s0 = self.resolving@;
        proof {
            lemma_unvisited_push(self.registry.definitions.pairs(), self.stack(), abs_path@);
        }
        self.resolving.push(crate::text::lit(abs_path));
        assert(self.stack() =~= strs_view(s0).push(abs_path@));
        let (current_module, _) = crate::text::split_last_sep(abs_path);
        let res = self.hash_def(current_module.as_str(), def);
        self.resolving.pop();
        assert(self.resolving@ =~= s0);
        match res {
            Ok(data) => Ok(fingerprint_exec(&data)),
            Err(e) => Err(e),
        }
    }

    /// Bytes hashed for definition `def` written in `current_module`.
    fn hash_def(&mut self, current_module: &str, def: &TypeDef) -> (r: Result<Vec<u8>, AbiError>)
        ensures
            match r {
                Ok(b) => fp_def(*old(self).registry, old(self).stack(), current_module@, def@) == Ok::<Seq<u8>, AbiErrorV>(b@),
                Err(e) => fp_def(*old(self).registry, old(self).stack(), current_module@, def@) == Err::<Seq<u8>, AbiErrorV>(e@),
            },
            final(self).registry == old(self).registry,
            final(self).resolving@ == old(self).resolving@,
        decreases unvisited(old(self).registry.definitions.pairs(), old(self).stack()), 5nat, 0nat,
    {
        let mut data: Vec<u8> = Vec::new();
        match def {
            TypeDef::Struct(s) => {
                push_bytes(&mut data, "Struct");
                if s.is_account {
                    push_bytes(&mut data, "Account");
                }
                let mut b = self.hash_fields(current_module, &s.fields)?;
                data.append(&mut b);
                assert(Seq::<u8>::empty() + enc("Struct"@) =~= enc("Struct"@));
                assert(enc("Struct"@) + Seq::<u8>::empty() =~= enc("Struct"@));
            },
            TypeDef::Enum(e) => {
                push_bytes(&mut data, "Enum");
                assert(Seq::<u8>::empty() + enc("Enum"@) =~= enc("Enum"@));
                let ghost vv = e@.variants;
                let ghost reg0 = self.registry;
                let ghost s0 = self.stack();
                let ghost res0 = self.resolving@;
                let ghost pre = enc("Enum"@);
                let mut i: usize = 0;
                assert(vv.take(0) =~= Seq::<VariantV>::empty());
                assert(pre + Seq::<u8>::empty() =~= pre);
                while i < e.variants.len()
                    invariant
                        i <= e.variants@.len(),
                        vv == e@.variants,
                        def@ == TypeDefV::Enum(e@),
                        vv.len() == e.variants@.len(),
                        pre == enc("Enum"@),
                        reg0 == old(self).registry,
                        self.registry == reg0,
                        res0 == old(self).resolving@,
                        self.resolving@ == res0,
                        s0 == old(self).stack(),
                        s0 == self.stack(),
                        ({
                            let f = fp_variants(*reg0, s0, current_module@, vv.take(i as int));
                            &&& f is Ok
                            &&& data@ == pre + f->Ok_0
                        }),
                    decreases e.variants@.len() - i,
                {
                    let ghost t = vv.take(i + 1);
                    assert(t.drop_last() =~= vv.take(i as int));
                    assert(t.last() == e.variants@[i as int]@);
                    let ghost prev = fp_variants(*reg0, s0, current_module@, vv.take(i as int))->Ok_0;
                    let ghost d0 = data@;
                    push_bytes(&mut data, e.variants[i].name.as_str());
                    let mut b = match self.hash_fields(current_module, &e.variants[i].fields) {
                        Ok(b) => b,
                        Err(err) => {
                            assert(fp_variants(*reg0, s0, current_module@, t) == Err::<Seq<u8>, AbiErrorV>(err@));
                            proof {
                                lemma_fp_variants_err(*reg0, s0, current_module@, vv, i + 1);
                            }
                            return Err(err);
                        },
                    };
                    let ghost bv = b@;
                    data.append(&mut b);
                    assert(data@ =~= pre + (prev + enc(e.variants@[i as int].name@) + bv));
                    i += 1;
                }
                assert(vv.take(e.variants@.len() as int) =~= vv);
            },
            TypeDef::Alias(a) => {
                push_bytes(&mut data, "Alias");
                let h = self.hash_of_type_ref(current_module, &a.target)?;
                push_bytes(&mut data, h.as_str());
                assert(Seq::<u8>::empty() + enc("Alias"@) =~= enc("Alias"@));
            },
            TypeDef::Instruction(inst) => {
                push_bytes(&mut data, "Instruction");
                push_bytes(&mut data, inst.name.as_str());
                let mut b = self.hash_fields(current_module, &inst.args)?;
                data.append(&mut b);
                assert(Seq::<u8>::empty() + enc("Instruction"@) =~= enc("Instruction"@));
            },
        }
        Ok(data)
    }
}

} // verus!

verus! {

// ---------------------------------------------------------------------------
// Differences between two workspaces.

/// The kind of an interface or layout change.
#[derive(Debug, Clone, Copy, PartialEq, Eq, Structural)]
pub enum ChangeType {
    AccountLayoutChange,
    StructFieldAddition,
    StructFieldRemoval,
    StructFieldReordering,
    TypeChange,
    EnumVariantAddition,
    EnumVariantRemoval,
    EnumVariantReordering,
    InstructionAddition,
    InstructionRemoval,
    PdaAccountDefinitionChange,
    IdlBreakingChange,
}

/// How dangerous a change is for deployed accounts, from least to most.
#[derive(Debug, Clone, Copy, PartialEq, Eq, Structural, PartialOrd, Ord)]
pub enum Severity {
    Safe,
    Minor,
    Major,
    Critical,
}

/// Rank of a severity: `Safe` 0 up to `Critical` 3.
pub open spec fn severity_rank(s: Severity) -> int {
    match s {
        Severity::Safe => 0,
        Severity::Minor => 1,
        Severity::Major => 2,
        Severity::Critical => 3,
    }
}

/// The name of a severity as displayed.
pub open spec fn severity_text(s: Severity) -> Seq<char> {
    match s {
        Severity::Safe => "Safe"@,
        Severity::Minor => "Minor"@,
        Severity::Major => "Major"@,
        Severity::Critical => "Critical"@,
    }
}

impl Severity {
    /// The name of this severity (what `Display` shows).
    pub fn to_string(&self) -> (r: String)
        ensures
            r@ == severity_text(*self),
    {
        match self {
            Severity::Safe => crate::text::lit("Safe"),
            Severity::Minor => crate::text::lit("Minor"),
            Severity::Major => crate::text::lit("Major"),
            Severity::Critical => crate::text::lit("Critical"),
        }
    }

    /// The more severe of two severities.
    pub fn max_with(self, other: Severity) -> (r: Severity)
        ensures
            r == (if severity_rank(other) > severity_rank(self) { other } else { self }),
    {
        let a: u8 = match self { Severity::Safe => 0, Severity::Minor => 1, Severity::Major => 2, Severity::Critical => 3 };
        let b: u8 = match other { Severity::Safe => 0, Severity::Minor => 1, Severity::Major => 2, Severity::Critical => 3 };
        if b > a { other } else { self }
    }
}

/// One detected change of one entity.
#[derive(Debug)]
pub struct DiffResult {
    pub entity: String,
    pub change_type: ChangeType,
    pub severity: Severity,
    pub description: String,
}

/// Model of a [`DiffResult`].
pub struct DiffV {
    pub entity: Seq<char>,
    pub change_type: ChangeType,
    pub severity: Severity,
    pub description: Seq<char>,
}

impl View for DiffResult {
    type V = DiffV;

    open spec fn view(&self) -> DiffV {
        DiffV { entity: self.entity@, change_type: self.change_type, severity: self.severity, description: self.description@ }
    }
}

impl Clone for DiffResult {
    fn clone(&self) -> (r: Self)
        ensures
            r@ == self@,
    {
        DiffResult {
            entity: self.entity.clone(),
            change_type: self.change_type,
            severity: self.severity,
            description: self.description.clone(),
        }
    }
}

/// The models of a list of diffs.
pub open spec fn diffs_view(v: Seq<DiffResult>) -> Seq<DiffV> {
    Seq::new(v.len(), |i: int| v[i]@)
}

/// A diff model.
pub open spec fn dv(e: Seq<char>, ct: ChangeType, sev: Severity, desc: Seq<char>) -> DiffV {
    DiffV { entity: e, change_type: ct, severity: sev, description: desc }
}

/// Builds a diff from its parts.
pub(crate) fn mk(e: &str, ct: ChangeType, sev: Severity, desc: String) -> (r: DiffResult)
    ensures
        r@ == dv(e@, ct, sev, desc@),
{
    DiffResult { entity: crate::text::lit(e), change_type: ct, severity: sev, description: desc }
}

/// `a` + `b` + `c` as a new string.
pub(crate) fn cat3(a: &str, b: &str, c: &str) -> (r: String)
    ensures
        r@ == a@ + b@ + c@,
{
    let mut r = String::new();
    crate::text::append_str(&mut r, a);
    crate::text::append_str(&mut r, b);
    crate::text::append_str(&mut r, c);
    assert(r@ =~= a@ + b@ + c@);
    r
}

/// Struct-like definitions that carry Anchor account constraints.
pub open spec fn spec_is_pda(s: crate::types::StructV) -> bool {
    (exists|i: int| 0 <= i < s.attrs.len() && (crate::text::contains_sub(s.attrs[i], "derive(Accounts)"@)
        || crate::text::contains_sub(s.attrs[i], "Accounts"@)))
    || (exists|i: int, j: int| 0 <= i < s.fields.len() && 0 <= j < s.fields[i].attrs.len()
        && crate::text::contains_sub(s.fields[i].attrs[j], "account"@))
}

/// Whether a struct carries Anchor account constraints: an attribute that
/// mentions `Accounts`, or a field attribute that mentions `account`.
pub fn is_pda_definition(s: &crate::types::StructDef) -> (r: bool)
    ensures
        r == spec_is_pda(s@),
{
    let mut i: usize = 0;
    while i < s.attrs.len()
        invariant
            i <= s.attrs@.len(),
            forall|k: int| 0 <= k < i ==> !(crate::text::contains_sub(#[trigger] s@.attrs[k], "derive(Accounts)"@)
                || crate::text::contains_sub(s@.attrs[k], "Accounts"@)),
        decreases s.attrs@.len() - i,
    {
        if crate::text::contains_str(s.attrs[i].as_str(), "derive(Accounts)") || crate::text::contains_str(s.attrs[i].as_str(), "Accounts") {
            assert(s@.attrs[i as int] == s.attrs@[i as int]@);
            return true;
        }
        assert(s@.attrs[i as int] == s.attrs@[i as int]@);
        i += 1;
    }
    let mut f: usize = 0;
    while f < s.fields.len()
        invariant
            f <= s.fields@.len(),
            forall|k: int| 0 <= k < s@.attrs.len() ==> !(crate::text::contains_sub(#[trigger] s@.attrs[k], "derive(Accounts)"@)
                || crate::text::contains_sub(s@.attrs[k], "Accounts"@)),
            forall|a: int, b: int| 0 <= a < f && 0 <= b < s@.fields[a].attrs.len() ==> !crate::text::contains_sub(#[trigger] s@.fields[a].attrs[b], "account"@),
        decreases s.fields@.len() - f,
    {
        let attrs = &s.fields[f].attrs;
        let mut j: usize = 0;
        while j < attrs.len()
            invariant
                f < s.fields@.len(),
                *attrs == s.fields@[f as int].attrs,
                j <= attrs@.len(),
                forall|b: int| 0 <= b < j ==> !crate::text::contains_sub(#[trigger] s@.fields[f as int].attrs[b], "account"@),
            decreases attrs@.len() - j,
        {
            assert(s@.fields[f as int].attrs[j as int] == attrs@[j as int]@);
            if crate::text::contains_str(attrs[j].as_str(), "account") {
                return true;
            }
            j += 1;
        }
        f += 1;
    }
    false
}

/// The diff reported for a definition present only in the old workspace.
pub open spec fn removal_diff(key: Seq<char>, def: TypeDefV) -> DiffV {
    match def {
        TypeDefV::Instruction(_) => dv(key, ChangeType::InstructionRemoval, Severity::Critical, "Instruction '"@ + key + "' was removed"@),
        TypeDefV::Struct(s) => dv(key,
            if spec_is_pda(s) { ChangeType::PdaAccountDefinitionChange } else if s.is_account { ChangeType::AccountLayoutChange } else { ChangeType::StructFieldRemoval },
            Severity::Critical, "Struct '"@ + key + "' was removed"@),
        TypeDefV::Enum(_) => dv(key, ChangeType::EnumVariantRemoval, Severity::Critical, "Enum '"@ + key + "' was removed"@),
        TypeDefV::Alias(_) => dv(key, ChangeType::TypeChange, Severity::Critical, "Alias '"@ + key + "' was removed"@),
    }
}

/// The diff reported for a definition present only in the new workspace.
pub open spec fn addition_diff(key: Seq<char>, def: TypeDefV) -> DiffV {
    match def {
        TypeDefV::Instruction(_) => dv(key, ChangeType::InstructionAddition, Severity::Safe, "Instruction '"@ + key + "' was added"@),
        TypeDefV::Struct(s) => dv(key,
            if spec_is_pda(s) { ChangeType::PdaAccountDefinitionChange } else if s.is_account { ChangeType::AccountLayoutChange } else { ChangeType::StructFieldAddition },
            Severity::Safe, "Struct '"@ + key + "' was introduced"@),
        TypeDefV::Enum(_) => dv(key, ChangeType::EnumVariantAddition, Severity::Safe, "Enum '"@ + key + "' was introduced"@),
        TypeDefV::Alias(_) => dv(key, ChangeType::TypeChange, Severity::Safe, "Alias '"@ + key + "' was introduced"@),
    }
}

pub(crate) fn removal_diff_exec(key: &str, def: &TypeDef) -> (r: DiffResult)
    ensures
        r@ == removal_diff(key@, def@),
{
    match def {
        TypeDef::Instruction(_) => mk(key, ChangeType::InstructionRemoval, Severity::Critical, cat3("Instruction '", key, "' was removed")),
        TypeDef::Struct(s) => {
            let ct = if is_pda_definition(s) { ChangeType::PdaAccountDefinitionChange } else if s.is_account { ChangeType::AccountLayoutChange } else { ChangeType::StructFieldRemoval };
            mk(key, ct, Severity::Critical, cat3("Struct '", key, "' was removed"))
        },
        TypeDef::Enum(_) => mk(key, ChangeType::EnumVariantRemoval, Severity::Critical, cat3("Enum '", key, "' was removed")),
        TypeDef::Alias(_) => mk(key, ChangeType::TypeChange, Severity::Critical, cat3("Alias '", key, "' was removed")),
    }
}

pub(crate) fn addition_diff_exec(key: &str, def: &TypeDef) -> (r: DiffResult)
    ensures
        r@ == addition_diff(key@, def@),
{
    match def {
        TypeDef::Instruction(_) => mk(key, ChangeType::InstructionAddition, Severity::Safe, cat3("Instruction '", key, "' was added")),
        TypeDef::Struct(s) => {
            let ct = if is_pda_definition(s) { ChangeType::PdaAccountDefinitionChange } else if s.is_account { ChangeType::AccountLayoutChange } else { ChangeType::StructFieldAddition };
            mk(key, ct, Severity::Safe, cat3("Struct '", key, "' was introduced"))
        },
        TypeDef::Enum(_) => mk(key, ChangeType::EnumVariantAddition, Severity::Safe, cat3("Enum '", key, "' was introduced")),
        TypeDef::Alias(_) => mk(key, ChangeType::TypeChange, Severity::Safe, cat3("Alias '", key, "' was introduced")),
    }
}

} // verus!

verus! {

/// Position of the last name equal to `n`, or -1.
pub open spec fn last_index(names: Seq<Seq<char>>, n: Seq<char>) -> int
    decreases names.len(),
{
    if names.len() == 0 {
        -1
    } else if names.last() == n {
        names.len() - 1
    } else {
        last_index(names.drop_last(), n)
    }
}

/// `last_index` is -1 or a position holding `n`, with no later one.
pub proof fn lemma_last_index(names: Seq<Seq<char>>, n: Seq<char>)
    ensures
        -1 <= last_index(names, n) < names.len(),
        last_index(names, n) >= 0 ==> names[last_index(names, n)] == n,
        forall|k: int| last_index(names, n) < k < names.len() ==> names[k] != n,
    decreases names.len(),
{
    if names.len() > 0 && names.last() != n {
        lemma_last_index(names.drop_last(), n);
        assert forall|k: int| last_index(names, n) < k < names.len() implies names[k] != n by {
            if k < names.len() - 1 {
                assert(names.drop_last()[k] == names[k]);
            }
        }
    }
}

/// Position of the last of `names` equal to `n`.
pub(crate) fn last_index_exec(names: &Vec<String>, n: &str) -> (r: Option<usize>)
    ensures
        match r {
            Some(j) => last_index(strs_view(names@), n@) == j as int,
            None => last_index(strs_view(names@), n@) == -1,
        },
{
    let ghost nv = strs_view(names@);
    let mut k: usize = names.len();
    assert(nv.take(k as int) =~= nv);
    while k > 0
        invariant
            k <= names@.len(),
            nv == strs_view(names@),
            last_index(nv, n@) == last_index(nv.take(k as int), n@),
        decreases k,
    {
        let ghost t = nv.take(k as int);
        assert(t.drop_last() =~= nv.take(k - 1));
        assert(t.last() == names@[k - 1]@);
        if crate::text::str_eq(names[k - 1].as_str(), n) {
            return Some(k - 1);
        }
        k -= 1;
    }
    None
}

/// Names of a field list.
pub open spec fn field_names(fs: Seq<FieldV>) -> Seq<Seq<char>> {
    Seq::new(fs.len(), |i: int| fs[i].name)
}

/// Names of a variant list.
pub open spec fn variant_names(vs: Seq<VariantV>) -> Seq<Seq<char>> {
    Seq::new(vs.len(), |i: int| vs[i].name)
}

/// Diffs for old item `i`: moved (reordered) or removed.
pub open spec fn move_item(old: Seq<Seq<char>>, new: Seq<Seq<char>>, e: Seq<char>, i: int, is_enum: bool) -> Seq<DiffV> {
    let n = old[i];
    let j = last_index(new, n);
    if j >= 0 {
        if j != i {
            if is_enum {
                seq![dv(e, ChangeType::EnumVariantReordering, Severity::Critical,
                    "Enum variant '"@ + n + "' reordered from #"@ + crate::text::decimal(i as nat) + " → #"@ + crate::text::decimal(j as nat))]
            } else {
                seq![dv(e, ChangeType::StructFieldReordering, Severity::Critical,
                    "field '"@ + n + "' moved from field #"@ + crate::text::decimal(i as nat) + " → #"@ + crate::text::decimal(j as nat))]
            }
        } else {
            Seq::empty()
        }
    } else if is_enum {
        seq![dv(e, ChangeType::EnumVariantRemoval, Severity::Critical, "Enum variant '"@ + n + "' removed"@)]
    } else {
        seq![dv(e, ChangeType::StructFieldRemoval, Severity::Critical, "Field '"@ + n + "' was removed"@)]
    }
}

/// Diffs of the first `k` old items.
pub open spec fn moves_part(old: Seq<Seq<char>>, new: Seq<Seq<char>>, e: Seq<char>, k: int, is_enum: bool) -> Seq<DiffV>
    decreases k,
{
    if k <= 0 {
        Seq::empty()
    } else {
        moves_part(old, new, e, k - 1, is_enum) + move_item(old, new, e, k - 1, is_enum)
    }
}

/// Diffs for new item `i`: added in the middle/front or appended at the end.
pub open spec fn add_item(old: Seq<Seq<char>>, new: Seq<Seq<char>>, e: Seq<char>, i: int, is_enum: bool) -> Seq<DiffV> {
    let n = new[i];
    if last_index(old, n) < 0 {
        if i < old.len() {
            if is_enum {
                seq![dv(e, ChangeType::EnumVariantAddition, Severity::Critical, "Enum variant '"@ + n + "' inserted in middle/front"@)]
            } else {
                seq![dv(e, ChangeType::StructFieldAddition, Severity::Critical, "Field '"@ + n + "' was inserted in the middle/front"@)]
            }
        } else if is_enum {
            seq![dv(e, ChangeType::EnumVariantAddition, Severity::Minor, "Enum variant '"@ + n + "' appended at end"@)]
        } else {
            seq![dv(e, ChangeType::StructFieldAddition, Severity::Minor, "Field '"@ + n + "' appended at end"@)]
        }
    } else {
        Seq::empty()
    }
}

/// Diffs of the first `k` new items.
pub open spec fn adds_part(old: Seq<Seq<char>>, new: Seq<Seq<char>>, e: Seq<char>, k: int, is_enum: bool) -> Seq<DiffV>
    decreases k,
{
    if k <= 0 {
        Seq::empty()
    } else {
        adds_part(old, new, e, k - 1, is_enum) + add_item(old, new, e, k - 1, is_enum)
    }
}

/// Appends `"<a><n><b><d1><c><d2>"` pieces; used for messages with two numbers.
pub(crate) fn msg_nums(a: &str, n: &str, b: &str, x: usize, c: &str, y: usize, d: &str) -> (r: String)
    ensures
        r@ == a@ + n@ + b@ + crate::text::decimal(x as nat) + c@ + crate::text::decimal(y as nat) + d@,
{
    let mut r = String::new();
    crate::text::append_str(&mut r, a);
    crate::text::append_str(&mut r, n);
    crate::text::append_str(&mut r, b);
    let dx = crate::text::usize_to_decimal(x);
    crate::text::append_str(&mut r, dx.as_str());
    crate::text::append_str(&mut r, c);
    let dy = crate::text::usize_to_decimal(y);
    crate::text::append_str(&mut r, dy.as_str());
    crate::text::append_str(&mut r, d);
    assert(r@ =~= a@ + n@ + b@ + crate::text::decimal(x as nat) + c@ + crate::text::decimal(y as nat) + d@);
    r
}

/// Appends the move/removal diffs of all old items.
pub(crate) fn push_moves(diffs: &mut Vec<DiffResult>, olds: &Vec<String>, news: &Vec<String>, e: &str, is_enum: bool)
    ensures
        diffs_view(final(diffs)@) == diffs_view(old(diffs)@) + moves_part(strs_view(olds@), strs_view(news@), e@, olds@.len() as int, is_enum),
{
    let ghost d0 = diffs_view(diffs@);
    let ghost ov = strs_view(olds@);
    let ghost nv = strs_view(news@);
    let mut i: usize = 0;
    while i < olds.len()
        invariant
            i <= olds@.len(),
            ov == strs_view(olds@),
            nv == strs_view(news@),
            diffs_view(diffs@) == d0 + moves_part(ov, nv, e@, i as int, is_enum),
        decreases olds@.len() - i,
    {
        let ghost before = diffs_view(diffs@);
        let name = &olds[i];
        assert(ov[i as int] == name@);
        match last_index_exec(news, name.as_str()) {
            Some(j) => {
                if j != i {
                    let d = if is_enum {
                        mk(e, ChangeType::EnumVariantReordering, Severity::Critical,
                            msg_nums("Enum variant '", name.as_str(), "' reordered from #", i, " → #", j, ""))
                    } else {
                        mk(e, ChangeType::StructFieldReordering, Severity::Critical,
                            msg_nums("field '", name.as_str(), "' moved from field #", i, " → #", j, ""))
                    };
                    diffs.push(d);
                    proof {
                        reveal_strlit("");
                    }
                    assert(""@ =~= Seq::<char>::empty());
                    assert(diffs_view(diffs@) =~= before + move_item(ov, nv, e@, i as int, is_enum));
                } else {
                    assert(diffs_view(diffs@) =~= before + move_item(ov, nv, e@, i as int, is_enum));
                }
            },
            None => {
                let d = if is_enum {
                    mk(e, ChangeType::EnumVariantRemoval, Severity::Critical, cat3("Enum variant '", name.as_str(), "' removed"))
                } else {
                    mk(e, ChangeType::StructFieldRemoval, Severity::Critical, cat3("Field '", name.as_str(), "' was removed"))
                };
                diffs.push(d);
                assert(diffs_view(diffs@) =~= before + move_item(ov, nv, e@, i as int, is_enum));
            },
        }
        i += 1;
    }
}

/// Appends the addition diffs of all new items.
pub(crate) fn push_adds(diffs: &mut Vec<DiffResult>, olds: &Vec<String>, news: &Vec<String>, e: &str, is_enum: bool)
    ensures
        diffs_view(final(diffs)@) == diffs_view(old(diffs)@) + adds_part(strs_view(olds@), strs_view(news@), e@, news@.len() as int, is_enum),
{
    let ghost d0 = diffs_view(diffs@);
    let ghost ov = strs_view(olds@);
    let ghost nv = strs_view(news@);
    let mut i: usize = 0;
    while i < news.len()
        invariant
            i <= news@.len(),
            ov == strs_view(olds@),
            nv == strs_view(news@),
            diffs_view(diffs@) == d0 + adds_part(ov, nv, e@, i as int, is_enum),
        decreases news@.len() - i,
    {
        let ghost before = diffs_view(diffs@);
        let name = &news[i];
        assert(nv[i as int] == name@);
        match last_index_exec(olds, name.as_str()) {
            Some(_) => {
                assert(diffs_view(diffs@) =~= before + add_item(ov, nv, e@, i as int, is_enum));
            },
            None => {
                let d = if i < olds.len() {
                    if is_enum {
                        mk(e, ChangeType::EnumVariantAddition, Severity::Critical, cat3("Enum variant '", name.as_str(), "' inserted in middle/front"))
                    } else {
                        mk(e, ChangeType::StructFieldAddition, Severity::Critical, cat3("Field '", name.as_str(), "' was inserted in the middle/front"))
                    }
                } else if is_enum {
                    mk(e, ChangeType::EnumVariantAddition, Severity::Minor, cat3("Enum variant '", name.as_str(), "' appended at end"))
                } else {
                    mk(e, ChangeType::StructFieldAddition, Severity::Minor, cat3("Field '", name.as_str(), "' appended at end"))
                };
                diffs.push(d);
                assert(diffs_view(diffs@) =~= before + add_item(ov, nv, e@, i as int, is_enum));
            },
        }
        i += 1;
    }
}

/// The names of a field list, as strings.
pub(crate) fn names_of_fields(fs: &Vec<FieldDef>) -> (r: Vec<String>)
    ensures
        strs_view(r@) == field_names(fields_view(fs@)),
{
    let mut r: Vec<String> = Vec::new();
    let mut i: usize = 0;
    while i < fs.len()
        invariant
            i <= fs@.len(),
            r@.len() == i,
            forall|k: int| 0 <= k < i ==> #[trigger] r@[k]@ == fs@[k].name@,
        decreases fs@.len() - i,
    {
        r.push(fs[i].name.clone());
        i += 1;
    }
    assert(strs_view(r@) =~= field_names(fields_view(fs@)));
    r
}

/// The names of a variant list, as strings.
pub(crate) fn names_of_variants(vs: &Vec<crate::types::VariantDef>) -> (r: Vec<String>)
    ensures
        strs_view(r@) == variant_names(Seq::new(vs@.len(), |i: int| vs@[i]@)),
{
    let mut r: Vec<String> = Vec::new();
    let mut i: usize = 0;
    while i < vs.len()
        invariant
            i <= vs@.len(),
            r@.len() == i,
            forall|k: int| 0 <= k < i ==> #[trigger] r@[k]@ == vs@[k].name@,
        decreases vs@.len() - i,
    {
        r.push(vs[i].name.clone());
        i += 1;
    }
    assert(strs_view(r@) =~= variant_names(Seq::new(vs@.len(), |i: int| vs@[i]@)));
    r
}

} // verus!
