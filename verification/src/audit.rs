//! Running the rules over a program: finding the accounts struct of a
//! handler, giving its names symbols, and building everything the rules read.
use vstd::prelude::*;
use crate::text::{occurs_at, contains_sub, is_prefix, is_suffix, join_sep};
use crate::guards::{trim_start, trim_end};
use crate::maps::lookup;
use crate::types::{TypeDef, TypeDefV, TypeRef, TypeRefV, StructDef, StructV, TypeRegistry};
use crate::maps::StrMap;
use crate::guards::{SymbolId, GuardFact, FactProvenance, FactV, ProvV, CtxV, InstructionAnalysisContext, facts_view};
use crate::source::{MetaItem, SourceExpr};
use crate::cfg::GraphV;
use crate::rules::{ResolverV, RuleDiagnostic, DiagV, SymbolResolver, DominanceChecker, Rule, diags_view};

verus! {

// ---------------------------------------------------------------------------
// The accounts struct named by a `Context<...>` type.

/// The first index at which `p` occurs in `s`.
pub open spec fn first_index(s: Seq<char>, p: Seq<char>) -> int {
    choose|i: int| occurs_at(s, p, i) && forall|j: int| 0 <= j < i ==> !occurs_at(s, p, j)
}

/// The first occurrence is unique.
pub proof fn lemma_first_index(s: Seq<char>, p: Seq<char>, i: int)
    requires
        occurs_at(s, p, i),
        forall|j: int| 0 <= j < i ==> !occurs_at(s, p, j),
    ensures
        first_index(s, p) == i,
{
    let k = first_index(s, p);
    assert(occurs_at(s, p, k) && forall|j: int| 0 <= j < k ==> !occurs_at(s, p, j));
    if k < i {
        assert(!occurs_at(s, p, k));
    } else if k > i {
        assert(!occurs_at(s, p, i));
    }
}

/// The text after the last comma of `s` (all of `s` without a comma).
pub open spec fn after_last_comma(s: Seq<char>) -> Seq<char>
    decreases s.len(),
{
    if s.len() == 0 {
        s
    } else if s.last() == ',' {
        Seq::empty()
    } else {
        after_last_comma(s.drop_last()).push(s.last())
    }
}

/// The last comma-separated argument of a generic argument list, trimmed,
/// unless it is a lifetime.
pub open spec fn last_type_arg(inner: Seq<char>) -> Option<Seq<char>> {
    let last = trim_end(trim_start(after_last_comma(inner)));
    if last.len() > 0 && last[0] == '\'' { None } else { Some(last) }
}

/// The generic argument of a text that is `Context<..>` as a whole.
#[verifier::opaque]
pub open spec fn whole_context_arg_spec(name: Seq<char>) -> Option<Seq<char>> {
    if is_prefix("Context<"@, name) && name.len() > 0 && name.last() == '>' {
        last_type_arg(name.subrange(8, name.len() - 1))
    } else {
        None
    }
}

/// The generic argument of the first `Context<..>` inside a text.
#[verifier::opaque]
pub open spec fn inner_context_arg_spec(name: Seq<char>) -> Option<Seq<char>> {
    if contains_sub(name, "Context<"@) {
        let rest = name.subrange(first_index(name, "Context<"@) + 8, name.len() as int);
        if contains_sub(rest, ">"@) {
            last_type_arg(rest.subrange(0, first_index(rest, ">"@)))
        } else {
            None
        }
    } else {
        None
    }
}

/// The accounts struct name of a `Context<..>` type: the last type argument
/// of a type that is `Context<..>` itself, else of the first `Context<` in it.
pub open spec fn context_struct_name(t: TypeRefV) -> Option<Seq<char>> {
    match t {
        TypeRefV::Custom(name) => match whole_context_arg_spec(name) {
            Some(x) => Some(x),
            None => inner_context_arg_spec(name),
        },
        _ => None,
    }
}

/// The trimmed text after the last comma of `cs[from..to]`, unless it is a lifetime.
fn last_type_arg_exec(cs: &Vec<char>, from: usize, to: usize) -> (r: Option<String>)
    requires
        from <= to <= cs@.len(),
    ensures
        match r {
            Some(s) => last_type_arg(cs@.subrange(from as int, to as int)) == Some(s@),
            None => last_type_arg(cs@.subrange(from as int, to as int)) is None,
        },
{
    let ghost inner = cs@.subrange(from as int, to as int);
    // Start of the last segment.
    let mut a: usize = to;
    assert(after_last_comma(cs@.subrange(from as int, to as int)) =~= after_last_comma(cs@.subrange(from as int, a as int))
        + cs@.subrange(a as int, to as int));
    while a > from && cs[a - 1] != ','
        invariant
            from <= a <= to <= cs@.len(),
            after_last_comma(inner) == after_last_comma(cs@.subrange(from as int, a as int)) + cs@.subrange(a as int, to as int),
            inner == cs@.subrange(from as int, to as int),
        decreases a,
    {
        let ghost pre = cs@.subrange(from as int, a as int);
        assert(pre.drop_last() =~= cs@.subrange(from as int, a - 1));
        assert(pre.last() == cs@[a - 1]);
        assert(cs@.subrange(a - 1, to as int) =~= seq![cs@[a - 1]] + cs@.subrange(a as int, to as int));
        assert(after_last_comma(pre) =~= after_last_comma(pre.drop_last()).push(cs@[a - 1]));
        assert(after_last_comma(pre) + cs@.subrange(a as int, to as int)
            =~= after_last_comma(cs@.subrange(from as int, a - 1)) + cs@.subrange(a - 1, to as int));
        a -= 1;
    }
    proof {
        let pre = cs@.subrange(from as int, a as int);
        if a > from {
            assert(pre.last() == ',');
        } else {
            assert(pre =~= Seq::<char>::empty());
        }
        assert(after_last_comma(pre) =~= Seq::<char>::empty());
        assert(after_last_comma(inner) =~= cs@.subrange(a as int, to as int));
    }
    // Trim both ends.
    let mut b: usize = a;
    assert(cs@.subrange(b as int, to as int) =~= cs@.subrange(a as int, to as int));
    while b < to && crate::guards::is_ws_exec(cs[b])
        invariant
            a <= b <= to <= cs@.len(),
            trim_start(cs@.subrange(a as int, to as int)) == trim_start(cs@.subrange(b as int, to as int)),
        decreases to - b,
    {
        assert(cs@.subrange(b as int, to as int).drop_first() =~= cs@.subrange(b + 1, to as int));
        b += 1;
    }
    let mut e: usize = to;
    let ghost t = cs@.subrange(b as int, to as int);
    assert(t == trim_start(cs@.subrange(a as int, to as int)));
    while e > b && crate::guards::is_ws_exec(cs[e - 1])
        invariant
            b <= e <= to <= cs@.len(),
            t == cs@.subrange(b as int, to as int),
            trim_end(t) == trim_end(cs@.subrange(b as int, e as int)),
        decreases e,
    {
        assert(cs@.subrange(b as int, e as int).drop_last() =~= cs@.subrange(b as int, e - 1));
        e -= 1;
    }
    let s = crate::text::substring(cs, b, e);
    assert(trim_end(t) == s@);
    if b < e && cs[b] == '\'' {
        None
    } else {
        Some(s)
    }
}

/// The generic argument of a text that is `Context<..>` as a whole.
fn whole_context_arg(cs: &Vec<char>) -> (r: Option<String>)
    ensures
        match r {
            Some(s) => whole_context_arg_spec(cs@) == Some(s@),
            None => whole_context_arg_spec(cs@) is None,
        },
{
    let pat = crate::text::chars_of("Context<");
    proof {
        reveal_strlit("Context<");
        reveal(whole_context_arg_spec);
    }
    let n = cs.len();
    if crate::text::occurs_at_exec(cs, &pat, 0) && n > 0 && cs[n - 1] == '>' {
        assert(is_prefix("Context<"@, cs@));
        assert(cs@.subrange(0, 8)[7] == '<');
        last_type_arg_exec(cs, 8, n - 1)
    } else {
        assert(!(is_prefix("Context<"@, cs@) && cs@.len() > 0 && cs@.last() == '>')) by {
            if is_prefix("Context<"@, cs@) {
                assert(cs@.subrange(0, 8) =~= "Context<"@);
            }
        }
        None
    }
}

/// The characters of `cs` from index `start` on.
fn chars_from(cs: &Vec<char>, start: usize) -> (r: Vec<char>)
    requires
        start <= cs@.len(),
    ensures
        r@ == cs@.subrange(start as int, cs@.len() as int),
{
    let n = cs.len();
    let mut rest: Vec<char> = Vec::new();
    let mut i = start;
    while i < n
        invariant
            start <= i <= n,
            n == cs@.len(),
            rest@ == cs@.subrange(start as int, i as int),
        decreases n - i,
    {
        rest.push(cs[i]);
        i += 1;
        assert(rest@ =~= cs@.subrange(start as int, i as int));
    }
    rest
}

/// The generic argument of the first `Context<..>` inside a text.
fn inner_context_arg(cs: &Vec<char>) -> (r: Option<String>)
    ensures
        match r {
            Some(s) => inner_context_arg_spec(cs@) == Some(s@),
            None => inner_context_arg_spec(cs@) is None,
        },
{
    let pat = crate::text::chars_of("Context<");
    proof {
        reveal_strlit("Context<");
        reveal_strlit(">");
        reveal(inner_context_arg_spec);
    }
    let n = cs.len();
    match crate::text::find_first(cs, &pat) {
        Some(st) => {
            proof {
                lemma_first_index(cs@, "Context<"@, st as int);
            }
            let start = st + 8;
            let gt = crate::text::chars_of(">");
            let rest = chars_from(cs, start);
            match crate::text::find_first(&rest, &gt) {
                Some(end) => {
                    proof {
                        lemma_first_index(rest@, ">"@, end as int);
                    }
                    last_type_arg_exec(&rest, 0, end)
                },
                None => None,
            }
        },
        None => None,
    }
}

/// The accounts struct named by a `Context<..>` type reference.
pub fn extract_context_struct_name(type_ref: &TypeRef) -> (r: Option<String>)
    ensures
        match r {
            Some(s) => context_struct_name(type_ref@) == Some(s@),
            None => context_struct_name(type_ref@) is None,
        },
{
    match type_ref {
        TypeRef::Custom(name) => {
            let cs = crate::text::chars_of(name.as_str());
            match whole_context_arg(&cs) {
                Some(x) => Some(x),
                None => inner_context_arg(&cs),
            }
        },
        _ => None,
    }
}

// ---------------------------------------------------------------------------
// Looking a struct up by name.

/// The first struct whose path is `name` or ends in `::name`.
pub open spec fn first_suffix_struct(defs: Seq<(Seq<char>, TypeDefV)>, name: Seq<char>) -> Option<StructV>
    decreases defs.len(),
{
    if defs.len() == 0 {
        None
    } else {
        match defs[0].1 {
            TypeDefV::Struct(s) => if defs[0].0 == name || is_suffix("::"@ + name, defs[0].0) {
                Some(s)
            } else {
                first_suffix_struct(defs.drop_first(), name)
            },
            _ => first_suffix_struct(defs.drop_first(), name),
        }
    }
}

/// The struct at `program::module::name`, else the first struct whose path
/// ends in `name`.
pub open spec fn struct_by_name(defs: Seq<(Seq<char>, TypeDefV)>, program: Seq<char>, module: Seq<Seq<char>>, name: Seq<char>)
    -> Option<StructV>
{
    match lookup(defs, join_sep(seq![program] + module + seq![name])) {
        Some(TypeDefV::Struct(s)) => Some(s),
        _ => first_suffix_struct(defs, name),
    }
}

/// Finds the struct `name` of `program`: first at its full module path,
/// then by path suffix.
pub fn find_struct_by_name<'a>(registry: &'a TypeRegistry, program_name: &str, module_segments: &Vec<String>, name: &str)
    -> (r: Option<&'a StructDef>)
    ensures
        match r {
            Some(s) => struct_by_name(registry.definitions.pairs(), program_name@, crate::types::strs_view(module_segments@), name@)
                == Some(s@),
            None => struct_by_name(registry.definitions.pairs(), program_name@, crate::types::strs_view(module_segments@), name@) is None,
        },
{
    let ghost mp = crate::types::strs_view(module_segments@);
    let mut parts: Vec<String> = Vec::new();
    parts.push(crate::text::lit(program_name));
    let mut i: usize = 0;
    while i < module_segments.len()
        invariant
            i <= module_segments@.len(),
            mp == crate::types::strs_view(module_segments@),
            Seq::new(parts@.len() as nat, |k: int| parts@[k]@) == seq![program_name@] + mp.subrange(0, i as int),
        decreases module_segments@.len() - i,
    {
        let ghost prev = Seq::new(parts@.len() as nat, |k: int| parts@[k]@);
        parts.push(module_segments[i].clone());
        assert(Seq::new(parts@.len() as nat, |k: int| parts@[k]@) =~= prev.push(module_segments@[i as int]@));
        assert(mp.subrange(0, i + 1) =~= mp.subrange(0, i as int).push(module_segments@[i as int]@));
        i += 1;
    }
    let ghost prev = Seq::new(parts@.len() as nat, |k: int| parts@[k]@);
    parts.push(crate::text::lit(name));
    assert(Seq::new(parts@.len() as nat, |k: int| parts@[k]@) =~= seq![program_name@] + mp + seq![name@]) by {
        assert(mp.subrange(0, mp.len() as int) =~= mp);
        assert(Seq::new(parts@.len() as nat, |k: int| parts@[k]@) =~= prev.push(name@));
    }
    let full = crate::text::join_segments(&parts);
    match registry.get(full.as_str()) {
        Some(TypeDef::Struct(s)) => return Some(s),
        _ => {},
    }
    assert(struct_by_name(registry.definitions.pairs(), program_name@, mp, name@)
        == first_suffix_struct(registry.definitions.pairs(), name@));
    let defs = &registry.definitions;
    let ghost ds = defs.pairs();
    let n = defs.len();
    let mut suffix = crate::text::lit("::");
    crate::text::append_str(&mut suffix, name);
    proof {
        reveal_strlit("::");
    }
    let mut k: usize = 0;
    assert(ds.skip(0) =~= ds);
    while k < n
        invariant
            ds == defs.pairs(),
            n == ds.len(),
            k <= n,
            suffix@ == "::"@ + name@,
            first_suffix_struct(ds, name@) == first_suffix_struct(ds.skip(k as int), name@),
            struct_by_name(registry.definitions.pairs(), program_name@, mp, name@) == first_suffix_struct(ds, name@),
            mp == crate::types::strs_view(module_segments@),
        decreases n - k,
    {
        let path = defs.key_at(k);
        let def = defs.value_at(k);
        assert(ds.skip(k as int)[0] == (path@, def@));
        assert(ds.skip(k as int).drop_first() =~= ds.skip(k + 1));
        match def {
            TypeDef::Struct(s) => {
                if crate::text::str_eq(path.as_str(), name) || crate::text::ends_with(path.as_str(), suffix.as_str()) {
                    assert(first_suffix_struct(ds.skip(k as int), name@) == Some(s@));
                    return Some(s);
                }
            },
            _ => {},
        }
        k += 1;
    }
    None
}

} // verus!

verus! {

// ---------------------------------------------------------------------------
// Where a source file sits in a program.

/// The stem of a file name: the name without its last extension (a leading
/// dot does not start an extension).
pub open spec fn file_stem(name: Seq<char>) -> Seq<char> {
    if contains_sub(name, "."@) {
        let i = crate::audit::last_dot(name);
        if i == 0 { name } else { name.subrange(0, i) }
    } else {
        name
    }
}

/// The index of the last `.` of `s`.
pub open spec fn last_dot(s: Seq<char>) -> int {
    choose|i: int| 0 <= i < s.len() && s[i] == '.' && forall|j: int| i < j < s.len() ==> s[j] != '.'
}

/// The stems of `comps[from..]` other than `lib` and `mod`, in order.
pub open spec fn module_stems(comps: Seq<Seq<char>>, from: int, k: int) -> Seq<Seq<char>>
    decreases k - from,
{
    if k <= from || k > comps.len() || from < 0 {
        Seq::empty()
    } else {
        let prev = module_stems(comps, from, k - 1);
        let st = file_stem(comps[k - 1]);
        if st == "lib"@ || st == "mod"@ { prev } else { prev.push(st) }
    }
}

/// The program and module path of a source file from its path below the
/// workspace root (`programs/<name>/src/..`, `src/..`, or anything else),
/// and its file name.
pub open spec fn location_of(comps: Option<Seq<Seq<char>>>, file_name: Seq<char>) -> (Seq<char>, Seq<Seq<char>>) {
    match comps {
        Some(cs) => if cs.len() >= 4 && cs[0] == "programs"@ && cs[2] == "src"@ {
            (cs[1], module_stems(cs, 3, cs.len() as int))
        } else if cs.len() >= 2 && cs[0] == "src"@ {
            ("program"@, module_stems(cs, 1, cs.len() as int))
        } else {
            let st = file_stem(file_name);
            ("program"@, if st == "lib"@ || st == "mod"@ { Seq::empty() } else { seq![st] })
        },
        None => ("program"@, Seq::empty()),
    }
}

/// The stem of a file name.
fn file_stem_exec(name: &str) -> (r: String)
    ensures
        r@ == file_stem(name@),
{
    let cs = crate::text::chars_of(name);
    let mut i: usize = cs.len();
    while i > 0 && cs[i - 1] != '.'
        invariant
            i <= cs@.len(),
            cs@ == name@,
            forall|j: int| i <= j < cs@.len() ==> cs@[j] != '.',
        decreases i,
    {
        i -= 1;
    }
    proof {
        reveal_strlit(".");
    }
    if i == 0 {
        assert(!contains_sub(name@, "."@)) by {
            if contains_sub(name@, "."@) {
                let k = choose|k: int| occurs_at(name@, "."@, k);
                assert(name@.subrange(k, k + 1)[0] == '.');
            }
        }
        return crate::text::lit(name);
    }
    let d = i - 1;
    assert(occurs_at(name@, "."@, d as int)) by {
        assert(name@.subrange(d as int, d + 1) =~= "."@);
    }
    let ghost ld = last_dot(name@);
    assert(0 <= d < name@.len() && name@[d as int] == '.' && forall|j: int| d < j < name@.len() ==> name@[j] != '.');
    assert(ld == d as int) by {
        if ld < d {
            assert(name@[d as int] != '.');
        } else if ld > d {
            assert(name@[ld] != '.');
        }
    }
    if d == 0 {
        crate::text::lit(name)
    } else {
        crate::text::substring(&cs, 0, d)
    }
}

/// The program and module path of a source file from its path components
/// below the workspace root (none when it is not below it) and its file name.
pub fn module_location(components: Option<&Vec<String>>, file_name: &str) -> (r: (String, Vec<String>))
    ensures
        (r.0@, crate::types::strs_view(r.1@)) == location_of(match components {
            Some(c) => Some(crate::types::strs_view(c@)),
            None => None,
        }, file_name@),
{
    match components {
        Some(cs) => {
            let ghost cv = crate::types::strs_view(cs@);
            let n = cs.len();
            if n >= 4 && crate::text::str_eq(cs[0].as_str(), "programs") && crate::text::str_eq(cs[2].as_str(), "src") {
                let program = cs[1].clone();
                let m = stems_from(cs, 3);
                (program, m)
            } else if n >= 2 && crate::text::str_eq(cs[0].as_str(), "src") {
                let m = stems_from(cs, 1);
                (crate::text::lit("program"), m)
            } else {
                let st = file_stem_exec(file_name);
                let mut m: Vec<String> = Vec::new();
                if !(crate::text::str_eq(st.as_str(), "lib") || crate::text::str_eq(st.as_str(), "mod")) {
                    m.push(st);
                    assert(crate::types::strs_view(m@) =~= seq![file_stem(file_name@)]);
                } else {
                    assert(crate::types::strs_view(m@) =~= Seq::<Seq<char>>::empty());
                }
                (crate::text::lit("program"), m)
            }
        },
        None => {
            let m: Vec<String> = Vec::new();
            assert(crate::types::strs_view(m@) =~= Seq::<Seq<char>>::empty());
            (crate::text::lit("program"), m)
        },
    }
}

/// The stems of `cs[from..]` other than `lib` and `mod`.
fn stems_from(cs: &Vec<String>, from: usize) -> (r: Vec<String>)
    requires
        from <= cs@.len(),
    ensures
        crate::types::strs_view(r@) == module_stems(crate::types::strs_view(cs@), from as int, cs@.len() as int),
{
    let ghost cv = crate::types::strs_view(cs@);
    let mut out: Vec<String> = Vec::new();
    let mut k: usize = from;
    assert(crate::types::strs_view(out@) =~= Seq::<Seq<char>>::empty());
    while k < cs.len()
        invariant
            from <= k <= cs@.len(),
            cv == crate::types::strs_view(cs@),
            crate::types::strs_view(out@) == module_stems(cv, from as int, k as int),
        decreases cs@.len() - k,
    {
        let st = file_stem_exec(cs[k].as_str());
        assert(cv[k as int] == cs@[k as int]@);
        if !(crate::text::str_eq(st.as_str(), "lib") || crate::text::str_eq(st.as_str(), "mod")) {
            let ghost o0 = crate::types::strs_view(out@);
            out.push(st);
            assert(crate::types::strs_view(out@) =~= o0.push(file_stem(cv[k as int])));
        }
        k += 1;
    }
    out
}

} // verus!

verus! {

// ---------------------------------------------------------------------------
// Handlers found in sources.

/// A handler function: one whose parameters include a `Context<..>`.
#[derive(Debug)]
pub struct RawFunction {
    pub name: String,
    pub file_path: String,
    pub signature: Vec<crate::ast::ParameterNode>,
    pub stmts: Vec<crate::source::SourceStmt>,
    pub context_var_name: String,
    pub context_struct_name: String,
    pub program_name: String,
    /// The module segments below the program.
    pub modules: Vec<String>,
}

/// A typed parameter with a plain name, and the accounts struct it names
/// when its type is `Context<..>`.
#[derive(Debug)]
pub struct SourceParam {
    pub name: String,
    pub type_ref: TypeRef,
    pub context_type: Option<String>,
}

/// Collects the handlers of one source file.
#[derive(Debug)]
pub struct RawFunctionVisitor {
    pub file_path: String,
    pub program_name: String,
    pub modules: Vec<String>,
    pub functions: Vec<RawFunction>,
}

/// The last-segment identifier of the last of `args` that is a path type.
pub open spec fn last_path_arg(args: Seq<crate::source::SourceGenericArg>) -> Option<Seq<char>>
    decreases args.len(),
{
    if args.len() == 0 {
        None
    } else {
        match args.last() {
            crate::source::SourceGenericArg::Type(t) => match t.kind {
                crate::source::SourceTypeKind::Path { ident, .. } => Some(ident@),
                _ => last_path_arg(args.drop_last()),
            },
            _ => last_path_arg(args.drop_last()),
        }
    }
}

/// The accounts struct a `Context<..>` type names: the last of its generic
/// arguments that is a path type (by its last segment).
pub open spec fn context_type_of(t: crate::source::SourceType) -> Option<Seq<char>> {
    match t.kind {
        crate::source::SourceTypeKind::Path { ident, args, .. } =>
            if ident@ == "Context"@ { last_path_arg(args@) } else { None },
        _ => None,
    }
}

/// The accounts struct a parameter type names, when it is a `Context<..>`.
pub fn context_generic_type(ty: &crate::source::SourceType) -> (r: Option<String>)
    ensures
        match r {
            Some(s) => context_type_of(*ty) == Some(s@),
            None => context_type_of(*ty) is None,
        },
{
    match &ty.kind {
        crate::source::SourceTypeKind::Path { ident, args, .. } => {
            if !crate::text::str_eq(ident.as_str(), "Context") {
                return None;
            }
            let mut i: usize = args.len();
            assert(args@.take(args@.len() as int) =~= args@);
            while i > 0
                invariant
                    i <= args@.len(),
                    context_type_of(*ty) == last_path_arg(args@.take(i as int)),
                decreases i,
            {
                let ghost t = args@.take(i as int);
                assert(t.drop_last() =~= args@.take(i - 1));
                assert(t.last() == args@[i - 1]);
                match &args[i - 1] {
                    crate::source::SourceGenericArg::Type(t) => match &t.kind {
                        crate::source::SourceTypeKind::Path { ident, .. } => {
                            return Some(crate::text::copy_string(ident));
                        },
                        _ => {},
                    },
                    _ => {},
                }
                i -= 1;
            }
            None
        },
        _ => None,
    }
}

/// A handler parameter: its name, its parsed type, and the accounts struct
/// it names when its type is a `Context<..>`.
pub fn handler_param(name: String, ty: &crate::source::SourceType) -> (r: SourceParam)
    ensures
        r.name == name,
        r.type_ref@ == crate::workspace::type_of(*ty),
        match r.context_type {
            Some(s) => context_type_of(*ty) == Some(s@),
            None => context_type_of(*ty) is None,
        },
{
    SourceParam { name, type_ref: crate::workspace::parse_type(ty), context_type: context_generic_type(ty) }
}

/// The parameter that names the accounts struct: the last one with a context type.
pub open spec fn context_param(ps: Seq<SourceParam>) -> Option<(Seq<char>, Seq<char>)>
    decreases ps.len(),
{
    if ps.len() == 0 {
        None
    } else {
        match ps.last().context_type {
            Some(t) => Some((ps.last().name@, t@)),
            None => context_param(ps.drop_last()),
        }
    }
}

/// `f` is the handler that function `fn_name` with parameters `params` and
/// body `stmts` of the visitor's file is: its parameters in order, its body,
/// the last context parameter's name and struct, and the file's location.
pub open spec fn handler_of(v: RawFunctionVisitor, fn_name: Seq<char>, params: Seq<SourceParam>,
    stmts: Seq<crate::source::SourceStmt>, f: RawFunction) -> bool
{
    match context_param(params) {
        Some((var, st)) => {
            &&& f.name@ == fn_name
            &&& f.file_path@ == v.file_path@
            &&& crate::ssa::params_view(f.signature@) == Seq::new(params.len(), |i: int| crate::ast::ParamV {
                name: params[i].name@,
                type_ref: params[i].type_ref@,
            })
            &&& f.stmts@ == stmts
            &&& f.context_var_name@ == var
            &&& f.context_struct_name@ == st
            &&& f.program_name@ == v.program_name@
            &&& crate::types::strs_view(f.modules@) == crate::types::strs_view(v.modules@)
        },
        None => false,
    }
}

impl RawFunctionVisitor {
    /// A visitor for the file `file_path` of module `modules` of `program_name`.
    pub fn new(file_path: String, program_name: String, modules: Vec<String>) -> (r: Self)
        ensures
            r.file_path == file_path,
            r.program_name == program_name,
            r.modules == modules,
            r.functions@.len() == 0,
    {
        RawFunctionVisitor { file_path, program_name, modules, functions: Vec::new() }
    }

    /// The handler a function is, if one of its parameters is a `Context<..>`.
    pub fn process_fn(&self, fn_name: &str, params: &Vec<SourceParam>, stmts: Vec<crate::source::SourceStmt>) -> (r: Option<RawFunction>)
        ensures
            match context_param(params@) {
                Some(_) => r matches Some(f) && handler_of(*self, fn_name@, params@, stmts@, f),
                None => r is None,
            },
    {
        let mut signature: Vec<crate::ast::ParameterNode> = Vec::new();
        let mut ctx: Option<(String, String)> = None;
        let mut i: usize = 0;
        assert(params@.take(0) =~= Seq::<SourceParam>::empty());
        while i < params.len()
            invariant
                i <= params@.len(),
                signature@.len() == i,
                forall|j: int| 0 <= j < i ==> (#[trigger] signature@[j])@ == (crate::ast::ParamV {
                    name: params@[j].name@,
                    type_ref: params@[j].type_ref@,
                }),
                match context_param(params@.take(i as int)) {
                    Some((var, st)) => ctx matches Some(c) && c.0@ == var && c.1@ == st,
                    None => ctx is None,
                },
            decreases params@.len() - i,
        {
            let p = &params[i];
            assert(params@.take(i + 1).drop_last() =~= params@.take(i as int));
            assert(params@.take(i + 1).last() == params@[i as int]);
            signature.push(crate::ast::ParameterNode { name: p.name.clone(), type_ref: p.type_ref.copy() });
            match &p.context_type {
                Some(t) => {
                    ctx = Some((p.name.clone(), t.clone()));
                },
                None => {},
            }
            i += 1;
        }
        assert(params@.take(params@.len() as int) =~= params@);
        assert(crate::ssa::params_view(signature@) =~= Seq::new(params@.len(), |i: int| crate::ast::ParamV {
            name: params@[i].name@,
            type_ref: params@[i].type_ref@,
        }));
        match ctx {
            Some((var, st)) => Some(RawFunction {
                name: crate::text::lit(fn_name),
                file_path: self.file_path.clone(),
                signature,
                stmts,
                context_var_name: var,
                context_struct_name: st,
                program_name: self.program_name.clone(),
                modules: crate::types::copy_strings(&self.modules),
            }),
            None => None,
        }
    }

    /// Records a function of the file when it is a handler.
    pub fn visit_fn(&mut self, fn_name: &str, params: &Vec<SourceParam>, stmts: Vec<crate::source::SourceStmt>)
        ensures
            final(self).file_path == old(self).file_path,
            final(self).program_name == old(self).program_name,
            final(self).modules == old(self).modules,
            context_param(params@) is Some ==> final(self).functions@.len() == old(self).functions@.len() + 1
                && final(self).functions@.take(old(self).functions@.len() as int) == old(self).functions@
                && handler_of(*old(self), fn_name@, params@, stmts@, final(self).functions@.last()),
            context_param(params@) is None ==> final(self).functions@ == old(self).functions@,
    {
        match self.process_fn(fn_name, params, stmts) {
            Some(f) => {
                self.functions.push(f);
                assert(self.functions@.take(old(self).functions@.len() as int) =~= old(self).functions@);
            },
            None => {},
        }
    }
}

// ---------------------------------------------------------------------------
// Names bound by `let`.

/// The names `let` binds in `ss`, also inside block statements, in order.
pub open spec fn let_vars(ss: Seq<crate::source::SourceStmt>) -> Seq<Seq<char>>
    decreases ss,
{
    if ss.len() == 0 {
        Seq::empty()
    } else {
        let_vars(ss.subrange(0, ss.len() - 1)) + stmt_lets(ss[ss.len() - 1])
    }
}

/// The names a statement binds: a plain `let`, or those of a block statement.
pub open spec fn stmt_lets(s: crate::source::SourceStmt) -> Seq<Seq<char>>
    decreases s,
{
    match s.kind {
        crate::source::SourceStmtKind::Local { binding: Some(n), .. } => seq![n@],
        crate::source::SourceStmtKind::Expr { expr, .. } => match expr.kind {
            crate::source::SourceExprKind::Block(inner) => let_vars(inner@),
            _ => Seq::empty(),
        },
        _ => Seq::empty(),
    }
}

/// Appends the names a statement binds.
fn collect_stmt_lets(s: &crate::source::SourceStmt, vars: &mut Vec<String>)
    ensures
        crate::types::strs_view(final(vars)@) == crate::types::strs_view(old(vars)@) + stmt_lets(*s),
    decreases s,
{
    let ghost v0 = crate::types::strs_view(vars@);
    match &s.kind {
        crate::source::SourceStmtKind::Local { binding: Some(n), .. } => {
            vars.push(n.clone());
            assert(crate::types::strs_view(vars@) =~= v0 + seq![n@]);
        },
        crate::source::SourceStmtKind::Expr { expr, .. } => match &expr.kind {
            crate::source::SourceExprKind::Block(inner) => {
                let mut i: usize = 0;
                assert(inner@.subrange(0, 0) =~= Seq::<crate::source::SourceStmt>::empty());
                assert(v0 + let_vars(inner@.subrange(0, 0)) =~= v0);
                while i < inner.len()
                    invariant
                        s.kind is Expr,
                        s.kind->Expr_expr.kind == crate::source::SourceExprKind::Block(*inner),
                        i <= inner@.len(),
                        crate::types::strs_view(vars@) == v0 + let_vars(inner@.subrange(0, i as int)),
                    decreases inner@.len() - i,
                {
                    proof {
                        assert(decreases_to!(s => s.kind));
                        assert(decreases_to!(s.kind => s.kind->Expr_expr));
                        assert(decreases_to!(s.kind->Expr_expr => s.kind->Expr_expr.kind));
                        assert(decreases_to!(s.kind->Expr_expr.kind => s.kind->Expr_expr.kind->Block_0));
                        assert(decreases_to!(s.kind->Expr_expr.kind->Block_0 => s.kind->Expr_expr.kind->Block_0@));
                        assert(decreases_to!(s.kind->Expr_expr.kind->Block_0@ => s.kind->Expr_expr.kind->Block_0@[i as int]));
                    }
                    collect_stmt_lets(&inner[i], vars);
                    let ghost sub = inner@.subrange(0, i + 1);
                    assert(sub.subrange(0, sub.len() - 1) =~= inner@.subrange(0, i as int));
                    assert(sub[sub.len() - 1] == inner@[i as int]);
                    i += 1;
                }
                assert(inner@.subrange(0, inner@.len() as int) =~= inner@);
            },
            _ => {
                assert(v0 + Seq::<Seq<char>>::empty() =~= v0);
            },
        },
        _ => {
            assert(v0 + Seq::<Seq<char>>::empty() =~= v0);
        },
    }
}

/// The names `let` binds in a handler body, also inside block statements.
pub fn collect_let_variables(stmts: &Vec<crate::source::SourceStmt>) -> (r: Vec<String>)
    ensures
        crate::types::strs_view(r@) == let_vars(stmts@),
{
    let mut vars: Vec<String> = Vec::new();
    let mut i: usize = 0;
    assert(stmts@.subrange(0, 0) =~= Seq::<crate::source::SourceStmt>::empty());
    assert(crate::types::strs_view(vars@) =~= Seq::<Seq<char>>::empty());
    while i < stmts.len()
        invariant
            i <= stmts@.len(),
            crate::types::strs_view(vars@) == let_vars(stmts@.subrange(0, i as int)),
        decreases stmts@.len() - i,
    {
        collect_stmt_lets(&stmts[i], &mut vars);
        let ghost sub = stmts@.subrange(0, i + 1);
        assert(sub.subrange(0, sub.len() - 1) =~= stmts@.subrange(0, i as int));
        assert(sub[sub.len() - 1] == stmts@[i as int]);
        i += 1;
    }
    assert(stmts@.subrange(0, stmts@.len() as int) =~= stmts@);
    vars
}

} // verus!

verus! {

// ---------------------------------------------------------------------------
// The analysis of one handler.

/// Symbols for the fields `fs[..k]`, one new id each from `next` on.
pub open spec fn field_symbols(t: Seq<(Seq<char>, SymbolId)>, next: int, fs: Seq<crate::types::FieldV>, k: int)
    -> (Seq<(Seq<char>, SymbolId)>, int)
    decreases k,
{
    if k <= 0 || k > fs.len() {
        (t, next)
    } else {
        let (t1, n1) = field_symbols(t, next, fs, k - 1);
        (crate::maps::assoc_insert(t1, fs[k - 1].name, SymbolId(n1 as usize)), n1 + 1)
    }
}

/// Symbols for the names `names[..k]` not yet in the table, one new id each.
pub open spec fn let_symbols(t: Seq<(Seq<char>, SymbolId)>, next: int, names: Seq<Seq<char>>, k: int)
    -> (Seq<(Seq<char>, SymbolId)>, int)
    decreases k,
{
    if k <= 0 || k > names.len() {
        (t, next)
    } else {
        let (t1, n1) = let_symbols(t, next, names, k - 1);
        if crate::maps::has_key(t1, names[k - 1]) {
            (t1, n1)
        } else {
            (crate::maps::assoc_insert(t1, names[k - 1], SymbolId(n1 as usize)), n1 + 1)
        }
    }
}

/// The facts with their source file set to `file`.
pub open spec fn relabel(facts: Seq<(FactV, ProvV)>, file: Seq<char>) -> Seq<(FactV, ProvV)> {
    Seq::new(facts.len(), |i: int| (facts[i].0, ProvV { source_file: file, ..facts[i].1 }))
}

/// Symbol ids for the fields and names of a handler fit a machine word.
pub open spec fn symbols_fit(fields: nat, names: nat) -> bool {
    fields <= usize::MAX / 4 && names <= usize::MAX / 4
}

/// What the rules read of a handler: its accounts struct's symbols and
/// declared facts, its control-flow graph with imperative checks and SSA
/// states; none when its accounts struct is unknown, its graph cannot be
/// built, or its symbols would not fit a machine word.
pub open spec fn handler_context(defs: Seq<(Seq<char>, TypeDefV)>, raw: RawFunction) -> Option<CtxV>
{
    match struct_by_name(defs, raw.program_name@, crate::types::strs_view(raw.modules@), raw.context_struct_name@) {
        None => None,
        Some(sd) => {
            let lets = let_vars(raw.stmts@);
            if !symbols_fit(sd.fields.len(), lets.len()) {
                None
            } else {
                let (t1, n1) = field_symbols(Seq::empty(), 1, sd.fields, sd.fields.len() as int);
                let (t2, n2) = let_symbols(t1, n1, lets, lets.len() as int);
                let (t3, _) = crate::guards::register_fields(t2, n2 as usize, sd.fields, sd.fields.len() as int);
                let declared = relabel(crate::guards::fields_facts(sd.fields, t3, sd.fields.len() as int), raw.file_path@);
                match crate::cfg::compile_block(crate::cfg::initial_build(), raw.stmts@, 0) {
                    None => None,
                    Some((b, _)) => {
                        let g = b.g;
                        let imperative = crate::guards::imperative_facts(g, t3, raw.file_path@);
                        let infos = crate::ssa::ssa_result(g, Seq::empty(), Seq::empty(), crate::ssa::params_view(raw.signature@)).1;
                        Some(CtxV {
                            name: raw.name@,
                            facts: declared + imperative,
                            cfg: GraphV { ssa: infos, ..g },
                            table: t3,
                            file: raw.file_path@,
                            ctx_var: raw.context_var_name@,
                        })
                    },
                }
            }
        },
    }
}

/// The findings of the owner rule, then of the invocation rule, in a handler.
pub open spec fn handler_findings(defs: Seq<(Seq<char>, TypeDefV)>, raw: RawFunction) -> Seq<DiagV>
{
    match handler_context(defs, raw) {
        None => Seq::empty(),
        Some(ctx) => {
            let r = ResolverV { names: ctx.table, aliases: Seq::empty(), ctx: ctx.ctx_var };
            crate::owner_rule::owner_findings(ctx, r, ctx.cfg) + crate::cpi_rule::cpi_findings(defs, raw.program_name@, ctx, r, ctx.cfg)
        },
    }
}

/// Sets the source file of each fact to `file`.
fn relabel_exec(facts: Vec<(GuardFact, FactProvenance)>, file: &String) -> (r: Vec<(GuardFact, FactProvenance)>)
    ensures
        facts_view(r@) == relabel(facts_view(facts@), file@),
{
    let ghost fv = facts_view(facts@);
    let mut facts = facts;
    let mut rev: Vec<(GuardFact, FactProvenance)> = Vec::new();
    while facts.len() > 0
        invariant
            facts@.len() + rev@.len() == fv.len(),
            forall|i: int| 0 <= i < facts@.len() ==> (facts@[i].0@, facts@[i].1@) == fv[i],
            forall|i: int| 0 <= i < rev@.len() ==> (rev@[i].0@, rev@[i].1@) == relabel(fv, file@)[fv.len() - 1 - i],
        decreases facts@.len(),
    {
        let (f, mut p) = facts.pop().unwrap();
        p.source_file = file.clone();
        rev.push((f, p));
    }
    let mut out: Vec<(GuardFact, FactProvenance)> = Vec::new();
    while rev.len() > 0
        invariant
            out@.len() + rev@.len() == fv.len(),
            forall|i: int| 0 <= i < rev@.len() ==> (rev@[i].0@, rev@[i].1@) == relabel(fv, file@)[fv.len() - 1 - i],
            forall|i: int| 0 <= i < out@.len() ==> (out@[i].0@, out@[i].1@) == relabel(fv, file@)[i],
        decreases rev@.len(),
    {
        let x = rev.pop().unwrap();
        out.push(x);
    }
    assert(facts_view(out@) =~= relabel(fv, file@));
    out
}

/// Builds the symbol table of a handler: a new id for each field of its
/// accounts struct, then for each `let` name not yet known.
fn handler_symbols(fields: &Vec<crate::types::FieldDef>, lets: &Vec<String>) -> (r: (StrMap<SymbolId>, usize))
    requires
        symbols_fit(fields@.len(), lets@.len()),
    ensures
        ({
            let (t1, n1) = field_symbols(Seq::empty(), 1, crate::types::fields_view(fields@), fields@.len() as int);
            let (t2, n2) = let_symbols(t1, n1, crate::types::strs_view(lets@), lets@.len() as int);
            r.0.pairs() == t2 && r.1 as int == n2
        }),
        r.1 <= 1 + fields@.len() + lets@.len(),
{
    let ghost fv = crate::types::fields_view(fields@);
    let ghost lv = crate::types::strs_view(lets@);
    let mut table: StrMap<SymbolId> = StrMap::new();
    let mut next: usize = 1;
    let mut i: usize = 0;
    assert(table.pairs() =~= Seq::<(Seq<char>, SymbolId)>::empty());
    while i < fields.len()
        invariant
            symbols_fit(fields@.len(), lets@.len()),
            fv == crate::types::fields_view(fields@),
            i <= fields@.len(),
            next == 1 + i,
            (table.pairs(), next as int) == field_symbols(Seq::empty(), 1, fv, i as int),
        decreases fields@.len() - i,
    {
        table.insert(fields[i].name.clone(), SymbolId(next));
        next += 1;
        i += 1;
    }
    let ghost t1 = table.pairs();
    let ghost n1 = next as int;
    let mut k: usize = 0;
    while k < lets.len()
        invariant
            symbols_fit(fields@.len(), lets@.len()),
            lv == crate::types::strs_view(lets@),
            k <= lets@.len(),
            next <= 1 + fields@.len() + k,
            (table.pairs(), next as int) == let_symbols(t1, n1, lv, k as int),
        decreases lets@.len() - k,
    {
        assert(lv[k as int] == lets@[k as int]@);
        if !table.contains_key(lets[k].as_str()) {
            table.insert(lets[k].clone(), SymbolId(next));
            next += 1;
        }
        k += 1;
    }
    (table, next)
}

/// Runs the owner and invocation rules over one handler.
pub fn analyze_function(registry: &TypeRegistry, raw_fn: &RawFunction) -> (r: Vec<RuleDiagnostic>)
    ensures
        diags_view(r@) == handler_findings(registry.definitions.pairs(), *raw_fn),
{
    let struct_def = match find_struct_by_name(registry, raw_fn.program_name.as_str(), &raw_fn.modules,
        raw_fn.context_struct_name.as_str()) {
        Some(s) => s,
        None => {
            let v: Vec<RuleDiagnostic> = Vec::new();
            assert(diags_view(v@) =~= Seq::<DiagV>::empty());
            return v;
        },
    };
    let lets = collect_let_variables(&raw_fn.stmts);
    if !(struct_def.fields.len() <= usize::MAX / 4 && lets.len() <= usize::MAX / 4) {
        let v: Vec<RuleDiagnostic> = Vec::new();
        assert(diags_view(v@) =~= Seq::<DiagV>::empty());
        return v;
    }
    let (mut symbol_table, mut next_symbol_id) = handler_symbols(&struct_def.fields, &lets);
    let declared = crate::guards::extract_guards_from_accounts_struct(struct_def, &mut symbol_table, &mut next_symbol_id);
    let mut guard_facts = relabel_exec(declared, &raw_fn.file_path);
    let mut builder = crate::cfg::CFGBuilder::new();
    proof {
        assert(crate::maps::has_key(builder@.g.nodes, 0usize)) by {
            assert(builder@.g.nodes[0].0 == 0);
        }
    }
    proof {
        crate::cfg::lemma_existing_start_node(builder@, raw_fn.stmts@, 0);
    }
    match builder.compile_statements(&raw_fn.stmts, 0) {
        Ok(_) => {},
        Err(_) => {
            let v: Vec<RuleDiagnostic> = Vec::new();
            assert(diags_view(v@) =~= Seq::<DiagV>::empty());
            return v;
        },
    }
    let mut cfg = builder.graph;
    let mut imperative = crate::guards::extract_imperative_checks(&cfg, &symbol_table, raw_fn.file_path.as_str());
    let ghost d0 = facts_view(guard_facts@);
    let ghost i0 = facts_view(imperative@);
    guard_facts.append(&mut imperative);
    assert(facts_view(guard_facts@) =~= d0 + i0);
    let ghost g = cfg@;
    let states = {
        let mut computer = crate::ssa::SSAComputer::new(registry, &cfg);
        assert(computer.version_counters.pairs() =~= Seq::<(Seq<char>, usize)>::empty());
        assert(computer.node_states.pairs() =~= Seq::<(usize, crate::ssa::InfoV)>::empty());
        computer.compute(&raw_fn.signature)
    };
    cfg.ssa_states = states;
    cfg.nodes.keys_distinct();
    proof {
        crate::ssa::lemma_ssa_covers(g, Seq::empty(), crate::ssa::params_view(raw_fn.signature@));
        assert(cfg@ == GraphV { ssa: crate::ssa::ssa_result(g, Seq::empty(), Seq::empty(), crate::ssa::params_view(raw_fn.signature@)).1, ..g });
    }
    let context = InstructionAnalysisContext {
        name: raw_fn.name.clone(),
        guard_facts,
        cfg,
        symbol_table,
        file_path: raw_fn.file_path.clone(),
        context_var_name: raw_fn.context_var_name.clone(),
    };
    let resolver = SymbolResolver::new(&context);
    assert(resolver@.aliases =~= Seq::<(crate::guards::SSAVersionId, SymbolId)>::empty());
    assert(resolver@ == (ResolverV { names: context@.table, aliases: Seq::empty(), ctx: context@.ctx_var }));
    let dom_checker = DominanceChecker::new(&context.cfg);
    let owner = crate::owner_rule::OwnerValidationRule;
    let cpi = crate::cpi_rule::ArbitraryCpiTargetRule::new(registry, raw_fn.program_name.clone());
    let mut findings = owner.check(&context, &resolver, &dom_checker);
    let mut more = cpi.check(&context, &resolver, &dom_checker);
    let ghost f0 = findings@;
    let ghost m0 = more@;
    findings.append(&mut more);
    assert(diags_view(findings@) =~= diags_view(f0) + diags_view(m0));
    findings
}

} // verus!

verus! {

/// The findings in the handlers `fns[..k]`, handler by handler.
pub open spec fn audit_findings(defs: Seq<(Seq<char>, TypeDefV)>, fns: Seq<RawFunction>, k: int) -> Seq<DiagV>
    decreases k,
{
    if k <= 0 || k > fns.len() {
        Seq::empty()
    } else {
        audit_findings(defs, fns, k - 1) + handler_findings(defs, fns[k - 1])
    }
}

/// Runs the rules over every handler found in a workspace, in order.
pub fn audit_functions(workspace: &crate::workspace::Workspace, raw_functions: &Vec<RawFunction>) -> (r: Vec<RuleDiagnostic>)
    ensures
        diags_view(r@) == audit_findings(workspace.registry.definitions.pairs(), raw_functions@, raw_functions@.len() as int),
{
    let mut diagnostics: Vec<RuleDiagnostic> = Vec::new();
    let mut i: usize = 0;
    assert(diags_view(diagnostics@) =~= Seq::<DiagV>::empty());
    while i < raw_functions.len()
        invariant
            i <= raw_functions@.len(),
            diags_view(diagnostics@) == audit_findings(workspace.registry.definitions.pairs(), raw_functions@, i as int),
        decreases raw_functions@.len() - i,
    {
        let mut found = analyze_function(&workspace.registry, &raw_functions[i]);
        let ghost d0 = diagnostics@;
        let ghost f0 = found@;
        diagnostics.append(&mut found);
        assert(diags_view(diagnostics@) =~= diags_view(d0) + diags_view(f0));
        i += 1;
    }
    diagnostics
}

} // verus!

verus! {

// ---------------------------------------------------------------------------
// The handlers of a parsed file.

/// A function of a source file: its name, parameters and body.
pub type FnSrc = (Seq<char>, Seq<Option<crate::source::SourceFnParam>>, Seq<crate::source::SourceStmt>);

/// The functions of `items`: free functions, those of inline modules and
/// those of `impl` blocks, in order.
pub open spec fn items_fns(items: Seq<crate::source::SourceItem>) -> Seq<FnSrc>
    decreases items,
{
    if items.len() == 0 {
        Seq::empty()
    } else {
        let last = items[items.len() - 1];
        let here = match last {
            crate::source::SourceItem::Fn { name, params, stmts } => seq![(name@, params@, stmts@)],
            crate::source::SourceItem::Mod { items: inner, .. } => match inner {
                Some(v) => {
                    proof {
                        assert(decreases_to!(items => items[items.len() - 1]));
                        assert(decreases_to!(items[items.len() - 1] => v));
                        assert(decreases_to!(v => v@));
                    }
                    items_fns(v@)
                },
                None => Seq::empty(),
            },
            crate::source::SourceItem::Impl(v) => {
                proof {
                    assert(decreases_to!(items => items[items.len() - 1]));
                    assert(decreases_to!(items[items.len() - 1] => v));
                    assert(decreases_to!(v => v@));
                }
                items_fns(v@)
            },
            _ => Seq::empty(),
        };
        items_fns(items.drop_last()) + here
    }
}

/// The typed parameters with a plain name.
pub open spec fn given_params(ps: Seq<Option<crate::source::SourceFnParam>>) -> Seq<crate::source::SourceFnParam>
    decreases ps.len(),
{
    if ps.len() == 0 {
        Seq::empty()
    } else {
        given_params(ps.drop_last()) + match ps.last() {
            Some(p) => seq![p],
            None => Seq::empty(),
        }
    }
}

/// The last parameter of `ps` whose type is a `Context<..>`: its name and
/// the accounts struct it names.
pub open spec fn fn_context(ps: Seq<crate::source::SourceFnParam>) -> Option<(Seq<char>, Seq<char>)>
    decreases ps.len(),
{
    if ps.len() == 0 {
        None
    } else {
        match context_type_of(ps.last().ty) {
            Some(t) => Some((ps.last().name@, t)),
            None => fn_context(ps.drop_last()),
        }
    }
}

/// `f` is the handler that the function `g` of file `file_path`, in module
/// `modules` of program `program`, is (as [`handler_of`] describes it, over
/// the function's parsed parameters).
#[verifier::opaque]
pub open spec fn handler_named(file_path: Seq<char>, program: Seq<char>, modules: Seq<Seq<char>>, g: FnSrc,
    f: RawFunction) -> bool {
    let ps = given_params(g.1);
    match fn_context(ps) {
        Some((var, st)) => {
            &&& f.name@ == g.0
            &&& f.file_path@ == file_path
            &&& crate::ssa::params_view(f.signature@) == Seq::new(ps.len(), |i: int| crate::ast::ParamV {
                name: ps[i].name@,
                type_ref: crate::workspace::type_of(ps[i].ty),
            })
            &&& f.stmts@ == g.2
            &&& f.context_var_name@ == var
            &&& f.context_struct_name@ == st
            &&& f.program_name@ == program
            &&& crate::types::strs_view(f.modules@) == modules
        },
        None => false,
    }
}

/// `f` is the handler that the function `g` of the visitor's file is.
#[verifier::opaque]
pub open spec fn handler_from(v: RawFunctionVisitor, g: FnSrc, f: RawFunction) -> bool {
    handler_named(v.file_path@, v.program_name@, crate::types::strs_view(v.modules@), g, f)
}

/// The functions of `fs` that are handlers (a parameter names a context struct).
pub open spec fn handler_fns(fs: Seq<FnSrc>) -> Seq<FnSrc>
    decreases fs.len(),
{
    if fs.len() == 0 {
        Seq::empty()
    } else {
        handler_fns(fs.drop_last()) + if fn_context(given_params(fs.last().1)) is Some { seq![fs.last()] } else { Seq::empty() }
    }
}

/// Handler parameters, in order, for the typed parameters with a plain name.
fn handler_params(ps: &Vec<Option<crate::source::SourceFnParam>>) -> (r: Vec<SourceParam>)
    ensures
        r@.len() == given_params(ps@).len(),
        forall|i: int| 0 <= i < r@.len() ==> {
            &&& (#[trigger] r@[i]).name@ == given_params(ps@)[i].name@
            &&& r@[i].type_ref@ == crate::workspace::type_of(given_params(ps@)[i].ty)
            &&& match r@[i].context_type {
                Some(s) => context_type_of(given_params(ps@)[i].ty) == Some(s@),
                None => context_type_of(given_params(ps@)[i].ty) is None,
            }
        },
{
    let mut out: Vec<SourceParam> = Vec::new();
    let mut i: usize = 0;
    while i < ps.len()
        invariant
            i <= ps@.len(),
            out@.len() == given_params(ps@.take(i as int)).len(),
            forall|j: int| 0 <= j < out@.len() ==> {
                &&& (#[trigger] out@[j]).name@ == given_params(ps@.take(i as int))[j].name@
                &&& out@[j].type_ref@ == crate::workspace::type_of(given_params(ps@.take(i as int))[j].ty)
                &&& match out@[j].context_type {
                    Some(s) => context_type_of(given_params(ps@.take(i as int))[j].ty) == Some(s@),
                    None => context_type_of(given_params(ps@.take(i as int))[j].ty) is None,
                }
            },
        decreases ps@.len() - i,
    {
        assert(ps@.take(i + 1).drop_last() =~= ps@.take(i as int));
        let ghost g0 = given_params(ps@.take(i as int));
        match &ps[i] {
            Some(p) => {
                let sp = handler_param(crate::text::copy_string(&p.name), &p.ty);
                out.push(sp);
                assert(given_params(ps@.take(i + 1)) =~= g0.push(*p));
            },
            None => {
                assert(given_params(ps@.take(i + 1)) =~= g0);
            },
        }
        i += 1;
    }
    assert(ps@.take(ps@.len() as int) =~= ps@);
    out
}

proof fn lemma_context_param(r: Seq<SourceParam>, g: Seq<crate::source::SourceFnParam>)
    requires
        r.len() == g.len(),
        forall|i: int| 0 <= i < r.len() ==> {
            &&& (#[trigger] r[i]).name@ == g[i].name@
            &&& match r[i].context_type {
                Some(s) => context_type_of(g[i].ty) == Some(s@),
                None => context_type_of(g[i].ty) is None,
            }
        },
    ensures
        context_param(r) == fn_context(g),
    decreases r.len(),
{
    if r.len() > 0 {
        lemma_context_param(r.drop_last(), g.drop_last());
        assert(r.last() == r[r.len() - 1]);
    }
}

/// Whether `f` records `g` depends on the visitor's names only.
proof fn lemma_handler_from_same(v: RawFunctionVisitor, w: RawFunctionVisitor, g: FnSrc, f: RawFunction)
    requires
        v.file_path == w.file_path,
        v.program_name == w.program_name,
        v.modules == w.modules,
    ensures
        handler_from(v, g, f) == handler_from(w, g, f),
{
    reveal(handler_from);
}

impl RawFunctionVisitor {
    /// Records one function of a file when it is a handler.
    fn visit_src_fn(&mut self, name: String, params: Vec<Option<crate::source::SourceFnParam>>,
        stmts: Vec<crate::source::SourceStmt>)
        ensures
            final(self).file_path == old(self).file_path,
            final(self).program_name == old(self).program_name,
            final(self).modules == old(self).modules,
            fn_context(given_params(params@)) is Some ==> final(self).functions@.len() == old(self).functions@.len() + 1
                && final(self).functions@.take(old(self).functions@.len() as int) == old(self).functions@
                && handler_from(*old(self), (name@, params@, stmts@), final(self).functions@.last()),
            fn_context(given_params(params@)) is None ==> final(self).functions@ == old(self).functions@,
    {
        let ghost v0 = *self;
        let sp = handler_params(&params);
        proof {
            lemma_context_param(sp@, given_params(params@));
        }
        let ghost g: FnSrc = (name@, params@, stmts@);
        self.visit_fn(name.as_str(), &sp, stmts);
        proof {
            if fn_context(given_params(params@)) is Some {
                let ps = given_params(params@);
                let f = self.functions@.last();
                assert(crate::ssa::params_view(f.signature@) =~= Seq::new(ps.len(), |i: int| crate::ast::ParamV {
                    name: ps[i].name@,
                    type_ref: crate::workspace::type_of(ps[i].ty),
                }));
                reveal(handler_named);
                reveal(handler_from);
                assert(handler_from(v0, g, f));
            }
        }
    }

    /// Records the handlers among the functions of `items` (free functions,
    /// those of inline modules and of `impl` blocks), in order.
    #[verifier::loop_isolation(false)]
    #[verifier::rlimit(100)]
    #[verifier::spinoff_prover]
    pub fn visit_items(&mut self, items: Vec<crate::source::SourceItem>)
        ensures
            final(self).file_path == old(self).file_path,
            final(self).program_name == old(self).program_name,
            final(self).modules == old(self).modules,
            final(self).functions@.len() == old(self).functions@.len() + handler_fns(items_fns(items@)).len(),
            final(self).functions@.take(old(self).functions@.len() as int) == old(self).functions@,
            forall|i: int| 0 <= i < handler_fns(items_fns(items@)).len() ==> handler_from(*old(self),
                #[trigger] handler_fns(items_fns(items@))[i], final(self).functions@[old(self).functions@.len() + i]),
        decreases items@,
    {
        let ghost all = items@;
        let ghost v0 = *self;
        let ghost n0 = self.functions@.len();
        let n = items.len();
        let mut pending = items;
        let mut rev: Vec<crate::source::SourceItem> = Vec::new();
        while pending.len() > 0
            invariant
                pending@.len() + rev@.len() == n,
                n == all.len(),
                forall|i: int| 0 <= i < pending@.len() ==> pending@[i] == all[i],
                forall|i: int| 0 <= i < rev@.len() ==> rev@[i] == all[n - 1 - i],
            decreases pending@.len(),
        {
            let x = pending.pop().unwrap();
            rev.push(x);
        }
        let mut k: usize = 0;
        assert(all.take(0) =~= Seq::<crate::source::SourceItem>::empty());
        while rev.len() > 0
            invariant
                k + rev@.len() == n,
                n == all.len(),
                forall|i: int| 0 <= i < rev@.len() ==> rev@[i] == all[n - 1 - i],
                self.file_path == v0.file_path,
                self.program_name == v0.program_name,
                self.modules == v0.modules,
                self.functions@.len() == n0 + handler_fns(items_fns(all.take(k as int))).len(),
                self.functions@.take(n0 as int) == v0.functions@,
                n0 == v0.functions@.len(),
                forall|i: int| 0 <= i < handler_fns(items_fns(all.take(k as int))).len() ==> handler_from(v0,
                    #[trigger] handler_fns(items_fns(all.take(k as int)))[i], self.functions@[n0 + i]),
            decreases rev@.len(),
        {
            let item = rev.pop().unwrap();
            assert(item == all[k as int]);
            let ghost t = all.take(k + 1);
            assert(t.drop_last() =~= all.take(k as int));
            assert(t[t.len() - 1] == all[k as int]);
            let ghost before = self.functions@;
            let ghost vb = *self;
            let ghost hb = handler_fns(items_fns(all.take(k as int)));
            match item {
                crate::source::SourceItem::Fn { name, params, stmts } => {
                    let ghost g: FnSrc = (name@, params@, stmts@);
                    assert(items_fns(t) =~= items_fns(all.take(k as int)).push(g));
                    assert(items_fns(t).drop_last() =~= items_fns(all.take(k as int)));
                    assert(items_fns(t).last() == g);
                    self.visit_src_fn(name, params, stmts);
                    proof {
                        if fn_context(given_params(g.1)) is Some {
                            assert(handler_fns(items_fns(t)) =~= hb.push(g));
                            assert forall|i: int| 0 <= i < handler_fns(items_fns(t)).len() implies handler_from(v0,
                                #[trigger] handler_fns(items_fns(t))[i], self.functions@[n0 + i]) by {
                                if i < hb.len() {
                                    assert(self.functions@[n0 + i] == before[n0 + i]);
                                } else {
                                    lemma_handler_from_same(v0, vb, g, self.functions@[n0 + i]);
                                }
                            }
                            assert(self.functions@.take(n0 as int) =~= before.take(n0 as int));
                        } else {
                            assert(handler_fns(items_fns(t)) =~= hb);
                        }
                    }
                },
                crate::source::SourceItem::Mod { items: inner, .. } => {
                    match inner {
                        Some(v) => {
                            proof {
                                assert(decreases_to!(all => all[k as int]));
                                assert(decreases_to!(all[k as int] => v));
                                assert(decreases_to!(v => v@));
                            }
                            let ghost vs = v@;
                            self.visit_items(v);
                            let ghost inner_h = handler_fns(items_fns(vs));
                            assert(items_fns(t) =~= items_fns(all.take(k as int)) + items_fns(vs));
                            proof {
                                lemma_handler_fns_append(items_fns(all.take(k as int)), items_fns(vs));
                            }
                            assert forall|i: int| 0 <= i < handler_fns(items_fns(t)).len() implies handler_from(v0,
                                #[trigger] handler_fns(items_fns(t))[i], self.functions@[n0 + i]) by {
                                if i < hb.len() {
                                    assert(self.functions@[n0 + i] == before[n0 + i]);
                                } else {
                                    assert(handler_fns(items_fns(t))[i] == inner_h[i - hb.len()]);
                                    lemma_handler_from_same(v0, vb, inner_h[i - hb.len()], self.functions@[n0 + i]);
                                }
                            }
                            assert(self.functions@.take(n0 as int) =~= before.take(n0 as int));
                        },
                        None => {
                            assert(items_fns(t) =~= items_fns(all.take(k as int)));
                        },
                    }
                },
                crate::source::SourceItem::Impl(v) => {
                    proof {
                        assert(decreases_to!(all => all[k as int]));
                        assert(decreases_to!(all[k as int] => v));
                        assert(decreases_to!(v => v@));
                    }
                    let ghost vs = v@;
                    self.visit_items(v);
                    let ghost inner_h = handler_fns(items_fns(vs));
                    assert(items_fns(t) =~= items_fns(all.take(k as int)) + items_fns(vs));
                    proof {
                        lemma_handler_fns_append(items_fns(all.take(k as int)), items_fns(vs));
                    }
                    assert forall|i: int| 0 <= i < handler_fns(items_fns(t)).len() implies handler_from(v0,
                        #[trigger] handler_fns(items_fns(t))[i], self.functions@[n0 + i]) by {
                        if i < hb.len() {
                            assert(self.functions@[n0 + i] == before[n0 + i]);
                        } else {
                            assert(handler_fns(items_fns(t))[i] == inner_h[i - hb.len()]);
                            lemma_handler_from_same(v0, vb, inner_h[i - hb.len()], self.functions@[n0 + i]);
                        }
                    }
                    assert(self.functions@.take(n0 as int) =~= before.take(n0 as int));
                },
                _ => {
                    assert(items_fns(t) =~= items_fns(all.take(k as int)));
                },
            }
            k += 1;
        }
        assert(all.take(n as int) =~= all);
    }

    /// Records the handlers of a parsed source file.
    pub fn visit_file(&mut self, file: crate::source::SourceFile)
        ensures
            final(self).file_path == old(self).file_path,
            final(self).program_name == old(self).program_name,
            final(self).modules == old(self).modules,
            final(self).functions@.len() == old(self).functions@.len() + handler_fns(items_fns(file.items@)).len(),
            final(self).functions@.take(old(self).functions@.len() as int) == old(self).functions@,
            forall|i: int| 0 <= i < handler_fns(items_fns(file.items@)).len() ==> handler_from(*old(self),
                #[trigger] handler_fns(items_fns(file.items@))[i], final(self).functions@[old(self).functions@.len() + i]),
    {
        self.visit_items(file.items);
    }
}

proof fn lemma_handler_fns_append(a: Seq<FnSrc>, b: Seq<FnSrc>)
    ensures
        handler_fns(a + b) == handler_fns(a) + handler_fns(b),
    decreases b.len(),
{
    if b.len() == 0 {
        assert(a + b =~= a);
        assert(handler_fns(a) + handler_fns(b) =~= handler_fns(a));
    } else {
        lemma_handler_fns_append(a, b.drop_last());
        assert((a + b).drop_last() =~= a + b.drop_last());
        assert((a + b).last() == b.last());
        assert(handler_fns(a + b) =~= handler_fns(a) + handler_fns(b));
    }
}

/// The handlers of a file's source text, for the file `file_path` of module
/// `modules` of program `program_name`: `None` when the text does not parse
/// as a source file, else one handler for each function of the file that is
/// one, in order.
pub fn handlers_of_source(text: &str, file_path: String, program_name: String, modules: Vec<String>)
    -> (r: Option<Vec<RawFunction>>)
    ensures
        match crate::syntax::file_of(text@) {
            None => r is None,
            Some(f) => r matches Some(v) && v@.len() == handler_fns(items_fns(f.items@)).len()
                && forall|i: int| 0 <= i < v@.len() ==> handler_named(file_path@, program_name@,
                    crate::types::strs_view(modules@), #[trigger] handler_fns(items_fns(f.items@))[i], v@[i]),
        },
{
    match crate::syntax::parse_source_file(text) {
        None => None,
        Some(file) => {
            let mut visitor = RawFunctionVisitor::new(file_path, program_name, modules);
            let ghost v0 = visitor;
            let ghost fs = handler_fns(items_fns(file.items@));
            visitor.visit_file(file);
            assert(visitor.functions@.take(0) =~= Seq::<RawFunction>::empty());
            assert forall|i: int| 0 <= i < visitor.functions@.len() implies #[trigger] handler_named(file_path@,
                program_name@, crate::types::strs_view(modules@), fs[i], visitor.functions@[i]) by {
                assert(handler_from(v0, fs[i], visitor.functions@[0 + i]));
                reveal(handler_from);
            }
            Some(visitor.functions)
        },
    }
}

} // verus!
