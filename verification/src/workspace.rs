//! A workspace: the registry of every definition found in a program's sources.
use vstd::prelude::*;
use crate::maps::{StrMap, assoc_insert};
use crate::text::join_sep;
use crate::types::{TypeRegistry, TypeDef, TypeDefV, ImportList, strs_view, TypeRef, TypeRefV, FieldDef, FieldV, StructDef, StructV,
    EnumDef, VariantDef, VariantV, AliasDef, AliasV, InstructionDef};
use crate::source::{SourceType, SourceTypeKind, SourceGenericArg, SourceAttr, SourceField, SourceVariant, SourceFnParam};

verus! {

/// All definitions of one program version.
pub struct Workspace {
    pub registry: TypeRegistry,
}

/// A definition found in a source file, with the modules it is nested in
/// within the file (for an instruction handler, ending with its `#[program]` module).
#[derive(Debug)]
pub struct DefinitionSite {
    pub modules: Vec<String>,
    pub def: TypeDef,
}

/// Model of a [`DefinitionSite`].
pub struct SiteV {
    pub modules: Seq<Seq<char>>,
    pub def: TypeDefV,
}

impl View for DefinitionSite {
    type V = SiteV;

    open spec fn view(&self) -> SiteV {
        SiteV { modules: strs_view(self.modules@), def: self.def@ }
    }
}

/// The models of a list of definition sites.
pub open spec fn sites_view(v: Seq<DefinitionSite>) -> Seq<SiteV> {
    Seq::new(v.len(), |i: int| v[i]@)
}

/// The name a definition is declared with.
pub open spec fn def_name(d: TypeDefV) -> Seq<char> {
    match d {
        TypeDefV::Struct(s) => s.name,
        TypeDefV::Enum(e) => e.name,
        TypeDefV::Alias(a) => a.name,
        TypeDefV::Instruction(i) => i.name,
    }
}

/// The absolute path of a definition of a file of module `module` of `program`.
pub open spec fn site_path(program: Seq<char>, module: Seq<Seq<char>>, s: SiteV) -> Seq<char> {
    join_sep(seq![program] + module + s.modules + seq![def_name(s.def)])
}

/// The definitions after recording `sites[..k]`.
pub open spec fn add_defs(defs: Seq<(Seq<char>, TypeDefV)>, program: Seq<char>, module: Seq<Seq<char>>, sites: Seq<SiteV>, k: int)
    -> Seq<(Seq<char>, TypeDefV)>
    decreases k,
{
    if k <= 0 || k > sites.len() {
        defs
    } else {
        assoc_insert(add_defs(defs, program, module, sites, k - 1), site_path(program, module, sites[k - 1]), sites[k - 1].def)
    }
}

/// The file of each path after recording `sites[..k]` as defined in `file`.
pub open spec fn add_files(t: Seq<(Seq<char>, Seq<char>)>, program: Seq<char>, module: Seq<Seq<char>>, sites: Seq<SiteV>, k: int,
    file: Seq<char>) -> Seq<(Seq<char>, Seq<char>)>
    decreases k,
{
    if k <= 0 || k > sites.len() {
        t
    } else {
        assoc_insert(add_files(t, program, module, sites, k - 1, file), site_path(program, module, sites[k - 1]), file)
    }
}

/// The declared name of each path after recording `sites[..k]`.
pub open spec fn add_names(t: Seq<(Seq<char>, Seq<char>)>, program: Seq<char>, module: Seq<Seq<char>>, sites: Seq<SiteV>, k: int)
    -> Seq<(Seq<char>, Seq<char>)>
    decreases k,
{
    if k <= 0 || k > sites.len() {
        t
    } else {
        assoc_insert(add_names(t, program, module, sites, k - 1), site_path(program, module, sites[k - 1]), def_name(sites[k - 1].def))
    }
}

/// The name a definition is declared with.
fn def_name_exec(d: &TypeDef) -> (r: &String)
    ensures
        r@ == def_name(d@),
{
    match d {
        TypeDef::Struct(s) => &s.name,
        TypeDef::Enum(e) => &e.name,
        TypeDef::Alias(a) => &a.name,
        TypeDef::Instruction(i) => &i.name,
    }
}

impl Workspace {
    /// An empty workspace.
    pub fn new() -> (r: Self)
        ensures
            r.registry.definitions.pairs().len() == 0,
            r.registry.file_paths.pairs().len() == 0,
            r.registry.module_paths.pairs().len() == 0,
            r.registry.symbol_names.pairs().len() == 0,
            r.registry.file_imports.pairs().len() == 0,
    {
        Workspace { registry: TypeRegistry::new() }
    }

    /// Parses `content` as a source file of module `module_segments` of
    /// `program_name` and records what it defines: its definitions under
    /// their absolute paths and, with the file's path, which file and name
    /// each path has, the file's module and its top-level imports. A text
    /// that does not parse leaves the workspace as it was.
    pub fn add_file(&mut self, program_name: &str, module_segments: &Vec<String>, content: &str, file_path: Option<&str>)
        -> (r: Result<(), crate::syntax::ParseFailed>)
        ensures
            match crate::syntax::file_of(content@) {
                None => r is Err && *final(self) == *old(self),
                Some(f) => {
                    &&& r is Ok
                    &&& final(self).registry.definitions.pairs() == add_defs(old(self).registry.definitions.pairs(), program_name@,
                        strs_view(module_segments@), crate::files::file_sites(f), crate::files::file_sites(f).len() as int)
                    &&& match file_path {
                        Some(fp) => {
                            &&& final(self).registry.file_paths.pairs() == add_files(old(self).registry.file_paths.pairs(), program_name@,
                                strs_view(module_segments@), crate::files::file_sites(f), crate::files::file_sites(f).len() as int, fp@)
                            &&& final(self).registry.symbol_names.pairs() == add_names(old(self).registry.symbol_names.pairs(),
                                program_name@, strs_view(module_segments@), crate::files::file_sites(f),
                                crate::files::file_sites(f).len() as int)
                            &&& exists|v: Seq<String>| strs_view(v) == seq![program_name@] + strs_view(module_segments@)
                                && final(self).registry.module_paths.pairs() == assoc_insert(old(self).registry.module_paths.pairs(), fp@, v)
                            &&& final(self).registry.file_imports.pairs() == assoc_insert(old(self).registry.file_imports.pairs(), fp@,
                                crate::files::file_import_paths(f.items@))
                        },
                        None => {
                            &&& final(self).registry.file_paths.pairs() == old(self).registry.file_paths.pairs()
                            &&& final(self).registry.symbol_names.pairs() == old(self).registry.symbol_names.pairs()
                            &&& final(self).registry.module_paths == old(self).registry.module_paths
                            &&& final(self).registry.file_imports == old(self).registry.file_imports
                        },
                    }
                },
            },
    {
        match crate::syntax::parse_source_file(content) {
            None => Err(crate::syntax::ParseFailed),
            Some(f) => {
                let mut sites: Vec<DefinitionSite> = Vec::new();
                let top: Vec<String> = Vec::new();
                assert(strs_view(top@) =~= Seq::<Seq<char>>::empty());
                crate::files::push_item_sites(&f.items, &top, &mut sites);
                assert(sites_view(sites@) =~= crate::files::file_sites(f));
                let paths = crate::files::import_paths_of(&f.items);
                let imports = ImportList { paths };
                self.add_sites(program_name, module_segments, sites, imports, file_path);
                Ok(())
            },
        }
    }

    /// Records the definitions of a source file of module `module_segments`
    /// of `program_name` under their absolute paths; with the file's path,
    /// also which file and name each path has, the file's module and its imports.
    pub fn add_sites(&mut self, program_name: &str, module_segments: &Vec<String>, sites: Vec<DefinitionSite>, imports: ImportList,
        file_path: Option<&str>)
        ensures
            final(self).registry.definitions.pairs() == add_defs(old(self).registry.definitions.pairs(), program_name@,
                strs_view(module_segments@), sites_view(sites@), sites@.len() as int),
            match file_path {
                Some(fp) => {
                    &&& final(self).registry.file_paths.pairs() == add_files(old(self).registry.file_paths.pairs(), program_name@,
                        strs_view(module_segments@), sites_view(sites@), sites@.len() as int, fp@)
                    &&& final(self).registry.symbol_names.pairs() == add_names(old(self).registry.symbol_names.pairs(), program_name@,
                        strs_view(module_segments@), sites_view(sites@), sites@.len() as int)
                    &&& exists|v: Seq<String>| strs_view(v) == seq![program_name@] + strs_view(module_segments@)
                        && final(self).registry.module_paths.pairs() == assoc_insert(old(self).registry.module_paths.pairs(), fp@, v)
                    &&& final(self).registry.file_imports.pairs() == assoc_insert(old(self).registry.file_imports.pairs(), fp@, imports@)
                },
                None => {
                    &&& final(self).registry.file_paths.pairs() == old(self).registry.file_paths.pairs()
                    &&& final(self).registry.symbol_names.pairs() == old(self).registry.symbol_names.pairs()
                    &&& final(self).registry.module_paths == old(self).registry.module_paths
                    &&& final(self).registry.file_imports == old(self).registry.file_imports
                },
            },
    {
        let ghost sv = sites_view(sites@);
        let ghost mp = strs_view(module_segments@);
        let ghost p = program_name@;
        let ghost d0 = self.registry.definitions.pairs();
        let ghost f0 = self.registry.file_paths.pairs();
        let ghost n0 = self.registry.symbol_names.pairs();
        let ghost m0 = self.registry.module_paths;
        let ghost i0 = self.registry.file_imports;
        let n = sites.len();
        let mut pending = sites;
        // Taken from the back, so reversed first.
        let mut rev: Vec<DefinitionSite> = Vec::new();
        while pending.len() > 0
            invariant
                pending@.len() + rev@.len() == n,
                n == sv.len(),
                forall|i: int| 0 <= i < pending@.len() ==> pending@[i]@ == sv[i],
                forall|i: int| 0 <= i < rev@.len() ==> rev@[i]@ == sv[n - 1 - i],
            decreases pending@.len(),
        {
            let x = pending.pop().unwrap();
            rev.push(x);
        }
        let mut k: usize = 0;
        while rev.len() > 0
            invariant
                k + rev@.len() == n,
                n == sv.len(),
                forall|i: int| 0 <= i < rev@.len() ==> rev@[i]@ == sv[n - 1 - i],
                self.registry.definitions.pairs() == add_defs(d0, p, mp, sv, k as int),
                match file_path {
                    Some(fp) => self.registry.file_paths.pairs() == add_files(f0, p, mp, sv, k as int, fp@)
                        && self.registry.symbol_names.pairs() == add_names(n0, p, mp, sv, k as int),
                    None => self.registry.file_paths.pairs() == f0 && self.registry.symbol_names.pairs() == n0,
                },
                self.registry.module_paths == m0,
                self.registry.file_imports == i0,
                mp == strs_view(module_segments@),
                p == program_name@,
            decreases rev@.len(),
        {
            let site = rev.pop().unwrap();
            assert(site@ == sv[k as int]);
            let mut parts: Vec<String> = Vec::new();
            parts.push(crate::text::lit(program_name));
            let mut j: usize = 0;
            while j < module_segments.len()
                invariant
                    j <= module_segments@.len(),
                    mp == strs_view(module_segments@),
                    strs_view(parts@) == seq![program_name@] + mp.subrange(0, j as int),
                decreases module_segments@.len() - j,
            {
                let ghost prev = strs_view(parts@);
                parts.push(module_segments[j].clone());
                assert(strs_view(parts@) =~= prev.push(module_segments@[j as int]@));
                assert(mp.subrange(0, j + 1) =~= mp.subrange(0, j as int).push(module_segments@[j as int]@));
                j += 1;
            }
            assert(mp.subrange(0, mp.len() as int) =~= mp);
            let ghost base = strs_view(parts@);
            let mut q: usize = 0;
            while q < site.modules.len()
                invariant
                    q <= site.modules@.len(),
                    strs_view(parts@) == base + strs_view(site.modules@).subrange(0, q as int),
                decreases site.modules@.len() - q,
            {
                let ghost prev = strs_view(parts@);
                parts.push(site.modules[q].clone());
                assert(strs_view(parts@) =~= prev.push(site.modules@[q as int]@));
                assert(strs_view(site.modules@).subrange(0, q + 1)
                    =~= strs_view(site.modules@).subrange(0, q as int).push(site.modules@[q as int]@));
                q += 1;
            }
            assert(strs_view(site.modules@).subrange(0, site.modules@.len() as int) =~= strs_view(site.modules@));
            let name = def_name_exec(&site.def).clone();
            let ghost prev = strs_view(parts@);
            parts.push(name.clone());
            assert(strs_view(parts@) =~= seq![p] + mp + site@.modules + seq![def_name(site@.def)]);
            let path = crate::text::join_segments(&parts);
            assert(Seq::new(parts@.len() as nat, |k: int| parts@[k]@) =~= strs_view(parts@));
            match file_path {
                Some(fp) => {
                    self.registry.file_paths.insert(path.clone(), crate::text::lit(fp));
                    self.registry.symbol_names.insert(path.clone(), name);
                },
                None => {},
            }
            self.registry.insert(path, site.def);
            k += 1;
        }
        match file_path {
            Some(fp) => {
                let mut mv: Vec<String> = Vec::new();
                mv.push(crate::text::lit(program_name));
                let mut j: usize = 0;
                while j < module_segments.len()
                    invariant
                        j <= module_segments@.len(),
                        mp == strs_view(module_segments@),
                        strs_view(mv@) == seq![program_name@] + mp.subrange(0, j as int),
                    decreases module_segments@.len() - j,
                {
                    let ghost prev = strs_view(mv@);
                    mv.push(module_segments[j].clone());
                    assert(strs_view(mv@) =~= prev.push(module_segments@[j as int]@));
                    assert(mp.subrange(0, j + 1) =~= mp.subrange(0, j as int).push(module_segments@[j as int]@));
                    j += 1;
                }
                assert(mp.subrange(0, mp.len() as int) =~= mp);
                let ghost mvv = mv@;
                self.registry.module_paths.insert(crate::text::lit(fp), mv);
                self.registry.file_imports.insert(crate::text::lit(fp), imports);
                assert(strs_view(mvv) == seq![program_name@] + strs_view(module_segments@));
                assert(self.registry.module_paths.pairs() == assoc_insert(m0.pairs(), fp@, mvv));
            },
            None => {},
        }
    }
}

} // verus!

verus! {

// ---------------------------------------------------------------------------
// Definitions from parsed items.

/// The primitive type names.
pub open spec fn is_primitive_name(n: Seq<char>) -> bool {
    n == "u8"@ || n == "u16"@ || n == "u32"@ || n == "u64"@ || n == "u128"@ || n == "i8"@ || n == "i16"@ || n == "i32"@
        || n == "i64"@ || n == "i128"@ || n == "f32"@ || n == "f64"@ || n == "bool"@
}

/// The type reference a parsed type stands for: primitives, `String`,
/// `Pubkey`, `Vec`/`Option` of a type, `Box` of a type (as that type) and
/// arrays; anything else by its text.
pub open spec fn type_of(t: SourceType) -> TypeRefV
    decreases t,
{
    match t.kind {
        SourceTypeKind::Path { ident, args } => {
            let n = ident@;
            if is_primitive_name(n) {
                TypeRefV::Primitive(n)
            } else if n == "String"@ {
                TypeRefV::String
            } else if n == "Pubkey"@ {
                TypeRefV::Pubkey
            } else if n == "Vec"@ {
                if args@.len() > 0 {
                    match args@[0] {
                        SourceGenericArg::Type(x) => {
                            proof {
                                assert(decreases_to!(t => t.kind));
                                assert(decreases_to!(t.kind => args));
                                assert(decreases_to!(args => args@));
                                assert(decreases_to!(args@ => args@[0]));
                                assert(decreases_to!(args@[0] => x));
                            }
                            TypeRefV::Vec(Box::new(type_of(x)))
                        },
                        SourceGenericArg::Other => TypeRefV::Custom(t.tokens()),
                    }
                } else {
                    TypeRefV::Custom(t.tokens())
                }
            } else if n == "Option"@ {
                if args@.len() > 0 {
                    match args@[0] {
                        SourceGenericArg::Type(x) => {
                            proof {
                                assert(decreases_to!(t => t.kind));
                                assert(decreases_to!(t.kind => args));
                                assert(decreases_to!(args => args@));
                                assert(decreases_to!(args@ => args@[0]));
                                assert(decreases_to!(args@[0] => x));
                            }
                            TypeRefV::Option(Box::new(type_of(x)))
                        },
                        SourceGenericArg::Other => TypeRefV::Custom(t.tokens()),
                    }
                } else {
                    TypeRefV::Custom(t.tokens())
                }
            } else if n == "Box"@ {
                if args@.len() > 0 {
                    match args@[0] {
                        SourceGenericArg::Type(x) => {
                            proof {
                                assert(decreases_to!(t => t.kind));
                                assert(decreases_to!(t.kind => args));
                                assert(decreases_to!(args => args@));
                                assert(decreases_to!(args@ => args@[0]));
                                assert(decreases_to!(args@[0] => x));
                            }
                            type_of(x)
                        },
                        SourceGenericArg::Other => TypeRefV::Custom(t.tokens()),
                    }
                } else {
                    TypeRefV::Custom(t.tokens())
                }
            } else {
                TypeRefV::Custom(t.tokens())
            }
        },
        SourceTypeKind::Array { elem, len } => TypeRefV::Array(Box::new(type_of(*elem)), match len {
            Some(l) => l,
            None => 0,
        }),
        SourceTypeKind::Other => TypeRefV::Custom(t.tokens()),
    }
}

/// Whether a name is a primitive type name.
fn is_primitive_exec(n: &str) -> (r: bool)
    ensures
        r == is_primitive_name(n@),
{
    crate::text::str_eq(n, "u8") || crate::text::str_eq(n, "u16") || crate::text::str_eq(n, "u32") || crate::text::str_eq(n, "u64")
        || crate::text::str_eq(n, "u128") || crate::text::str_eq(n, "i8") || crate::text::str_eq(n, "i16")
        || crate::text::str_eq(n, "i32") || crate::text::str_eq(n, "i64") || crate::text::str_eq(n, "i128")
        || crate::text::str_eq(n, "f32") || crate::text::str_eq(n, "f64") || crate::text::str_eq(n, "bool")
}

/// The type reference a parsed type stands for.
pub fn parse_type(ty: &SourceType) -> (r: TypeRef)
    ensures
        r@ == type_of(*ty),
    decreases ty,
{
    match &ty.kind {
        SourceTypeKind::Path { ident, args } => {
            let n = ident.as_str();
            if is_primitive_exec(n) {
                TypeRef::Primitive(ident.clone())
            } else if crate::text::str_eq(n, "String") {
                TypeRef::String
            } else if crate::text::str_eq(n, "Pubkey") {
                TypeRef::Pubkey
            } else if crate::text::str_eq(n, "Vec") {
                if args.len() > 0 {
                    match &args[0] {
                        SourceGenericArg::Type(x) => {
                            proof {
                                assert(decreases_to!(ty.kind => ty.kind->Path_args));
                                assert(decreases_to!(ty.kind->Path_args => ty.kind->Path_args@));
                                assert(decreases_to!(ty.kind->Path_args@ => ty.kind->Path_args@[0]));
                            }
                            TypeRef::Vec(Box::new(parse_type(x)))
                        },
                        SourceGenericArg::Other => TypeRef::Custom(ty.token_text()),
                    }
                } else {
                    TypeRef::Custom(ty.token_text())
                }
            } else if crate::text::str_eq(n, "Option") {
                if args.len() > 0 {
                    match &args[0] {
                        SourceGenericArg::Type(x) => {
                            proof {
                                assert(decreases_to!(ty.kind => ty.kind->Path_args));
                                assert(decreases_to!(ty.kind->Path_args => ty.kind->Path_args@));
                                assert(decreases_to!(ty.kind->Path_args@ => ty.kind->Path_args@[0]));
                            }
                            TypeRef::Option(Box::new(parse_type(x)))
                        },
                        SourceGenericArg::Other => TypeRef::Custom(ty.token_text()),
                    }
                } else {
                    TypeRef::Custom(ty.token_text())
                }
            } else if crate::text::str_eq(n, "Box") {
                if args.len() > 0 {
                    match &args[0] {
                        SourceGenericArg::Type(x) => {
                            proof {
                                assert(decreases_to!(ty.kind => ty.kind->Path_args));
                                assert(decreases_to!(ty.kind->Path_args => ty.kind->Path_args@));
                                assert(decreases_to!(ty.kind->Path_args@ => ty.kind->Path_args@[0]));
                            }
                            parse_type(x)
                        },
                        SourceGenericArg::Other => TypeRef::Custom(ty.token_text()),
                    }
                } else {
                    TypeRef::Custom(ty.token_text())
                }
            } else {
                TypeRef::Custom(ty.token_text())
            }
        },
        SourceTypeKind::Array { elem, len } => {
            let l: usize = match len {
                Some(l) => *l,
                None => 0,
            };
            TypeRef::Array(Box::new(parse_type(elem)), l)
        },
        SourceTypeKind::Other => TypeRef::Custom(ty.token_text()),
    }
}

/// The texts of the attributes other than doc comments, in order.
pub open spec fn kept_attrs(attrs: Seq<SourceAttr>, k: int) -> Seq<Seq<char>>
    decreases k,
{
    if k <= 0 || k > attrs.len() {
        Seq::empty()
    } else if attr_is(attrs[k - 1], "doc"@) {
        kept_attrs(attrs, k - 1)
    } else {
        kept_attrs(attrs, k - 1).push(attrs[k - 1].tokens())
    }
}

/// An attribute whose path is the identifier `name`.
pub open spec fn attr_is(a: SourceAttr, name: Seq<char>) -> bool {
    match a.ident {
        Some(x) => x@ == name,
        None => false,
    }
}

/// Some attribute's path is the identifier `name`.
pub open spec fn has_attr(attrs: Seq<SourceAttr>, name: Seq<char>) -> bool {
    exists|i: int| 0 <= i < attrs.len() && attr_is(#[trigger] attrs[i], name)
}

/// The named fields, with their types and kept attributes.
pub open spec fn named_fields(fs: Seq<SourceField>, k: int) -> Seq<FieldV>
    decreases k,
{
    if k <= 0 || k > fs.len() {
        Seq::empty()
    } else {
        match fs[k - 1].ident {
            Some(n) => named_fields(fs, k - 1).push(FieldV {
                name: n@,
                type_ref: type_of(fs[k - 1].ty),
                attrs: kept_attrs(fs[k - 1].attrs@, fs[k - 1].attrs@.len() as int),
            }),
            None => named_fields(fs, k - 1),
        }
    }
}

/// The texts of the attributes other than doc comments.
fn kept_attrs_exec(attrs: &Vec<SourceAttr>) -> (r: Vec<String>)
    ensures
        strs_view(r@) == kept_attrs(attrs@, attrs@.len() as int),
{
    let mut out: Vec<String> = Vec::new();
    let mut i: usize = 0;
    assert(strs_view(out@) =~= Seq::<Seq<char>>::empty());
    while i < attrs.len()
        invariant
            i <= attrs@.len(),
            strs_view(out@) == kept_attrs(attrs@, i as int),
        decreases attrs@.len() - i,
    {
        let is_doc = match &attrs[i].ident {
            Some(x) => crate::text::str_eq(x.as_str(), "doc"),
            None => false,
        };
        if !is_doc {
            let ghost o0 = strs_view(out@);
            out.push(attrs[i].token_text());
            assert(strs_view(out@) =~= o0.push(attrs@[i as int].tokens()));
        }
        i += 1;
    }
    out
}

/// Whether some attribute's path is the identifier `name`.
pub fn has_attr_exec(attrs: &Vec<SourceAttr>, name: &str) -> (r: bool)
    ensures
        r == has_attr(attrs@, name@),
{
    let mut i: usize = 0;
    while i < attrs.len()
        invariant
            i <= attrs@.len(),
            forall|j: int| 0 <= j < i ==> !attr_is(#[trigger] attrs@[j], name@),
        decreases attrs@.len() - i,
    {
        match &attrs[i].ident {
            Some(x) => {
                if crate::text::str_eq(x.as_str(), name) {
                    assert(attr_is(attrs@[i as int], name@));
                    return true;
                }
            },
            None => {},
        }
        i += 1;
    }
    false
}

/// The named fields of a parsed field list.
pub fn field_defs(fields: &Vec<SourceField>) -> (r: Vec<FieldDef>)
    ensures
        crate::types::fields_view(r@) == named_fields(fields@, fields@.len() as int),
{
    let mut out: Vec<FieldDef> = Vec::new();
    let mut i: usize = 0;
    assert(crate::types::fields_view(out@) =~= Seq::<FieldV>::empty());
    while i < fields.len()
        invariant
            i <= fields@.len(),
            crate::types::fields_view(out@) == named_fields(fields@, i as int),
        decreases fields@.len() - i,
    {
        let f = &fields[i];
        match &f.ident {
            Some(n) => {
                let ghost o0 = crate::types::fields_view(out@);
                let fd = FieldDef { name: n.clone(), type_ref: parse_type(&f.ty), attrs: kept_attrs_exec(&f.attrs) };
                out.push(fd);
                assert(crate::types::fields_view(out@) =~= o0.push(fd@));
            },
            None => {},
        }
        i += 1;
    }
    out
}

/// The definition of a parsed struct: an account when marked `#[account]`.
pub fn struct_def_of(name: String, attrs: &Vec<SourceAttr>, fields: &Vec<SourceField>) -> (r: StructDef)
    ensures
        r@ == (StructV {
            name: name@,
            is_account: has_attr(attrs@, "account"@),
            fields: named_fields(fields@, fields@.len() as int),
            attrs: kept_attrs(attrs@, attrs@.len() as int),
        }),
{
    StructDef { name, is_account: has_attr_exec(attrs, "account"), fields: field_defs(fields), attrs: kept_attrs_exec(attrs) }
}

/// The definition of a parsed enum.
pub fn enum_def_of(name: String, variants: &Vec<SourceVariant>) -> (r: EnumDef)
    ensures
        r@.name == name@,
        r@.variants.len() == variants@.len(),
        forall|i: int| 0 <= i < variants@.len() ==> #[trigger] r@.variants[i] == (VariantV {
            name: variants@[i].name@,
            fields: named_fields(variants@[i].fields@, variants@[i].fields@.len() as int),
        }),
{
    let mut out: Vec<VariantDef> = Vec::new();
    let mut i: usize = 0;
    while i < variants.len()
        invariant
            i <= variants@.len(),
            out@.len() == i,
            forall|j: int| 0 <= j < i ==> #[trigger] out@[j]@ == (VariantV {
                name: variants@[j].name@,
                fields: named_fields(variants@[j].fields@, variants@[j].fields@.len() as int),
            }),
        decreases variants@.len() - i,
    {
        out.push(VariantDef { name: variants[i].name.clone(), fields: field_defs(&variants[i].fields) });
        i += 1;
    }
    EnumDef { name, variants: out }
}

/// The definition of a parsed type alias.
pub fn alias_def_of(name: String, target: &SourceType) -> (r: AliasDef)
    ensures
        r@ == (AliasV { name: name@, target: type_of(*target) }),
{
    AliasDef { name, target: parse_type(target) }
}

/// The definition of an instruction handler of a `#[program]` module.
pub fn instruction_def_of(name: String, params: &Vec<SourceFnParam>) -> (r: InstructionDef)
    ensures
        r@.name == name@,
        r@.args == Seq::new(params@.len(), |i: int| FieldV { name: params@[i].name@, type_ref: type_of(params@[i].ty), attrs: Seq::empty() }),
{
    let mut args: Vec<FieldDef> = Vec::new();
    let mut i: usize = 0;
    while i < params.len()
        invariant
            i <= params@.len(),
            crate::types::fields_view(args@) == Seq::new(i as nat, |j: int| FieldV {
                name: params@[j].name@,
                type_ref: type_of(params@[j].ty),
                attrs: Seq::empty(),
            }),
        decreases params@.len() - i,
    {
        let a = FieldDef { name: params[i].name.clone(), type_ref: parse_type(&params[i].ty), attrs: Vec::new() };
        let ghost o0 = crate::types::fields_view(args@);
        assert(a@.attrs =~= Seq::<Seq<char>>::empty());
        assert(a@ == (FieldV { name: params@[i as int].name@, type_ref: type_of(params@[i as int].ty), attrs: Seq::empty() }));
        args.push(a);
        assert(crate::types::fields_view(args@) =~= o0.push(a@));
        assert(crate::types::fields_view(args@) =~= Seq::new((i + 1) as nat, |j: int| FieldV {
            name: params@[j].name@,
            type_ref: type_of(params@[j].ty),
            attrs: Seq::empty(),
        }));
        i += 1;
    }
    InstructionDef { name, args }
}

} // verus!
