//! What a parsed source file defines: the definitions a workspace records,
//! and the paths its `use` items bring in.
use vstd::prelude::*;
use crate::source::{SourceItem, SourceFile, SourceAttr, SourceField, SourceVariant, SourceFnParam};
use crate::types::{TypeDef, TypeDefV, StructV, EnumV, VariantV, AliasV, InstructionV, InstructionDef, FieldDef, FieldV, strs_view,
    fields_view};
use crate::workspace::{SiteV, DefinitionSite, sites_view, type_of, has_attr, named_fields, kept_attrs};

verus! {

/// The model of a struct item's definition.
pub open spec fn struct_item_def(name: Seq<char>, attrs: Seq<SourceAttr>, fields: Seq<SourceField>) -> TypeDefV {
    TypeDefV::Struct(StructV {
        name,
        is_account: has_attr(attrs, "account"@),
        fields: named_fields(fields, fields.len() as int),
        attrs: kept_attrs(attrs, attrs.len() as int),
    })
}

/// The model of an enum item's definition.
pub open spec fn enum_item_def(name: Seq<char>, vs: Seq<SourceVariant>) -> TypeDefV {
    TypeDefV::Enum(EnumV {
        name,
        variants: Seq::new(vs.len(), |i: int| VariantV { name: vs[i].name@, fields: named_fields(vs[i].fields@, vs[i].fields@.len() as int) }),
    })
}

/// The arguments of an instruction: its typed parameters with a plain name.
pub open spec fn instr_args(ps: Seq<Option<SourceFnParam>>) -> Seq<FieldV>
    decreases ps.len(),
{
    if ps.len() == 0 {
        Seq::empty()
    } else {
        instr_args(ps.drop_last()) + match ps.last() {
            Some(p) => seq![FieldV { name: p.name@, type_ref: type_of(p.ty), attrs: Seq::empty() }],
            None => Seq::empty(),
        }
    }
}

/// The instructions of a `#[program]` module: its functions, in order.
pub open spec fn program_sites(items: Seq<SourceItem>, mods: Seq<Seq<char>>) -> Seq<SiteV>
    decreases items.len(),
{
    if items.len() == 0 {
        Seq::empty()
    } else {
        program_sites(items.drop_last(), mods) + match items.last() {
            SourceItem::Fn { name, params, .. } =>
                seq![SiteV { modules: mods, def: TypeDefV::Instruction(InstructionV { name: name@, args: instr_args(params@) }) }],
            _ => Seq::empty(),
        }
    }
}

/// The definitions of `items`, nested in modules `mods`: structs, enums and
/// type aliases where they stand; for an inline module, the instructions of
/// a `#[program]` module, then what the module defines.
pub open spec fn items_sites(items: Seq<SourceItem>, mods: Seq<Seq<char>>) -> Seq<SiteV>
    decreases items,
{
    if items.len() == 0 {
        Seq::empty()
    } else {
        let last = items[items.len() - 1];
        let here = match last {
            SourceItem::Struct { name, attrs, fields } => seq![SiteV { modules: mods, def: struct_item_def(name@, attrs@, fields@) }],
            SourceItem::Enum { name, variants } => seq![SiteV { modules: mods, def: enum_item_def(name@, variants@) }],
            SourceItem::TypeAlias { name, ty } => seq![SiteV { modules: mods, def: TypeDefV::Alias(AliasV { name: name@, target: type_of(ty) }) }],
            SourceItem::Mod { name, attrs, items: inner } => match inner {
                Some(v) => {
                    proof {
                        assert(decreases_to!(items => items[items.len() - 1]));
                        assert(decreases_to!(items[items.len() - 1] => v));
                        assert(decreases_to!(v => v@));
                    }
                    (if has_attr(attrs@, "program"@) { program_sites(v@, mods.push(name@)) } else { Seq::empty() })
                        + items_sites(v@, mods.push(name@))
                },
                None => Seq::empty(),
            },
            _ => Seq::empty(),
        };
        items_sites(items.drop_last(), mods) + here
    }
}

/// The definitions of a file, at its top level.
pub open spec fn file_sites(f: SourceFile) -> Seq<SiteV> {
    items_sites(f.items@, Seq::empty())
}

/// The paths the top-level `use` items of `items` bring in, in order.
pub open spec fn file_import_paths(items: Seq<SourceItem>) -> Seq<Seq<Seq<char>>>
    decreases items.len(),
{
    if items.len() == 0 {
        Seq::empty()
    } else {
        file_import_paths(items.drop_last()) + match items.last() {
            SourceItem::Use(t) => crate::types::use_paths(t, Seq::empty()),
            _ => Seq::empty(),
        }
    }
}

/// The instruction definition of a function of a `#[program]` module.
pub fn instruction_of_item(name: String, params: &Vec<Option<SourceFnParam>>) -> (r: InstructionDef)
    ensures
        r@ == (InstructionV { name: name@, args: instr_args(params@) }),
{
    let mut args: Vec<FieldDef> = Vec::new();
    let mut i: usize = 0;
    while i < params.len()
        invariant
            i <= params@.len(),
            fields_view(args@) == instr_args(params@.take(i as int)),
        decreases params@.len() - i,
    {
        assert(params@.take(i + 1).drop_last() =~= params@.take(i as int));
        match &params[i] {
            Some(p) => {
                let a = FieldDef { name: crate::text::copy_string(&p.name), type_ref: crate::workspace::parse_type(&p.ty), attrs: Vec::new() };
                let ghost o0 = fields_view(args@);
                assert(a@.attrs =~= Seq::<Seq<char>>::empty());
                args.push(a);
                assert(fields_view(args@) =~= o0.push(a@));
            },
            None => {},
        }
        assert(fields_view(args@) =~= instr_args(params@.take(i + 1)));
        i += 1;
    }
    assert(params@.take(params@.len() as int) =~= params@);
    InstructionDef { name, args }
}

/// Appends the instruction sites of a `#[program]` module's items.
fn push_program_sites(items: &Vec<SourceItem>, mods: &Vec<String>, out: &mut Vec<DefinitionSite>)
    ensures
        sites_view(final(out)@) == sites_view(old(out)@) + program_sites(items@, strs_view(mods@)),
{
    let ghost o0 = sites_view(out@);
    let mut i: usize = 0;
    assert(o0 + program_sites(items@.take(0), strs_view(mods@)) =~= o0);
    while i < items.len()
        invariant
            i <= items@.len(),
            sites_view(out@) == o0 + program_sites(items@.take(i as int), strs_view(mods@)),
        decreases items@.len() - i,
    {
        assert(items@.take(i + 1).drop_last() =~= items@.take(i as int));
        let ghost before = sites_view(out@);
        match &items[i] {
            SourceItem::Fn { name, params, .. } => {
                let d = instruction_of_item(crate::text::copy_string(name), params);
                let site = DefinitionSite { modules: crate::types::copy_strings(mods), def: TypeDef::Instruction(d) };
                out.push(site);
                assert(sites_view(out@) =~= before.push(site@));
            },
            _ => {},
        }
        assert(sites_view(out@) =~= o0 + program_sites(items@.take(i + 1), strs_view(mods@)));
        i += 1;
    }
    assert(items@.take(items@.len() as int) =~= items@);
}

/// Appends the definition sites of `items` nested in modules `mods`.
pub fn push_item_sites(items: &Vec<SourceItem>, mods: &Vec<String>, out: &mut Vec<DefinitionSite>)
    ensures
        sites_view(final(out)@) == sites_view(old(out)@) + items_sites(items@, strs_view(mods@)),
    decreases items@,
{
    let ghost o0 = sites_view(out@);
    let ghost mv = strs_view(mods@);
    let mut i: usize = 0;
    assert(o0 + items_sites(items@.take(0), mv) =~= o0);
    while i < items.len()
        invariant
            i <= items@.len(),
            mv == strs_view(mods@),
            sites_view(out@) == o0 + items_sites(items@.take(i as int), mv),
        decreases items@.len() - i,
    {
        let ghost t = items@.take(i + 1);
        assert(t.drop_last() =~= items@.take(i as int));
        assert(t[t.len() - 1] == items@[i as int]);
        let ghost before = sites_view(out@);
        match &items[i] {
            SourceItem::Struct { name, attrs, fields } => {
                let d = crate::workspace::struct_def_of(crate::text::copy_string(name), attrs, fields);
                let site = DefinitionSite { modules: crate::types::copy_strings(mods), def: TypeDef::Struct(d) };
                out.push(site);
                assert(sites_view(out@) =~= before.push(site@));
            },
            SourceItem::Enum { name, variants } => {
                let d = crate::workspace::enum_def_of(crate::text::copy_string(name), variants);
                let site = DefinitionSite { modules: crate::types::copy_strings(mods), def: TypeDef::Enum(d) };
                assert(d@.variants =~= Seq::new(variants@.len(), |j: int| VariantV {
                    name: variants@[j].name@,
                    fields: named_fields(variants@[j].fields@, variants@[j].fields@.len() as int),
                }));
                out.push(site);
                assert(sites_view(out@) =~= before.push(site@));
            },
            SourceItem::TypeAlias { name, ty } => {
                let d = crate::workspace::alias_def_of(crate::text::copy_string(name), ty);
                let site = DefinitionSite { modules: crate::types::copy_strings(mods), def: TypeDef::Alias(d) };
                out.push(site);
                assert(sites_view(out@) =~= before.push(site@));
            },
            SourceItem::Mod { name, attrs, items: inner } => {
                match inner {
                    Some(v) => {
                        let mut m2 = crate::types::copy_strings(mods);
                        m2.push(crate::text::copy_string(name));
                        assert(strs_view(m2@) =~= mv.push(name@));
                        if crate::workspace::has_attr_exec(attrs, "program") {
                            push_program_sites(v, &m2, out);
                        }
                        proof {
                            assert(decreases_to!(items@ => items@[i as int]));
                            assert(decreases_to!(items@[i as int] => *v));
                            assert(decreases_to!(*v => v@));
                        }
                        let ghost mid = sites_view(out@);
                        push_item_sites(v, &m2, out);
                        assert(sites_view(out@) =~= before + ((if has_attr(attrs@, "program"@) {
                            program_sites(v@, mv.push(name@))
                        } else {
                            Seq::empty()
                        }) + items_sites(v@, mv.push(name@))));
                    },
                    None => {},
                }
            },
            _ => {},
        }
        assert(sites_view(out@) =~= o0 + items_sites(items@.take(i + 1), mv));
        i += 1;
    }
    assert(items@.take(items@.len() as int) =~= items@);
}

/// The paths the top-level `use` items of a file bring in.
pub fn import_paths_of(items: &Vec<SourceItem>) -> (r: Vec<Vec<String>>)
    ensures
        crate::types::paths_view(r@) == file_import_paths(items@),
{
    let mut out: Vec<Vec<String>> = Vec::new();
    let mut i: usize = 0;
    assert(crate::types::paths_view(out@) =~= Seq::<Seq<Seq<char>>>::empty());
    while i < items.len()
        invariant
            i <= items@.len(),
            crate::types::paths_view(out@) == file_import_paths(items@.take(i as int)),
        decreases items@.len() - i,
    {
        assert(items@.take(i + 1).drop_last() =~= items@.take(i as int));
        let ghost before = crate::types::paths_view(out@);
        match &items[i] {
            SourceItem::Use(t) => {
                let mut prefix: Vec<String> = Vec::new();
                assert(strs_view(prefix@) =~= Seq::<Seq<char>>::empty());
                crate::types::collect_use_tree(t, &mut prefix, &mut out);
            },
            _ => {
                assert(before + Seq::<Seq<Seq<char>>>::empty() =~= before);
            },
        }
        assert(crate::types::paths_view(out@) =~= file_import_paths(items@.take(i + 1)));
        i += 1;
    }
    assert(items@.take(items@.len() as int) =~= items@);
    out
}

} // verus!
