use parser_v2::source::{SourceGenericArg, SourceType, SourceTypeKind, SourceUseTree};
use parser_v2::spike::{AccountField, WorkspaceAnalysis};
use parser_v2::types::{imports_of, ImportList, ResolveError, StructDef, TypeDef, TypeRef, TypeRegistry};
use parser_v2::workspace::{parse_type, struct_def_of, DefinitionSite};
use parser_v2::Workspace;

fn strings(v: &[&str]) -> Vec<String> {
    v.iter().map(|s| s.to_string()).collect()
}

fn path_ty(ident: &str, arg: Option<SourceType>, text: &str) -> SourceType {
    SourceType { kind: SourceTypeKind::Path { ident: ident.to_string(), args: arg.map(SourceGenericArg::Type).into_iter().collect() }, text: text.to_string() }
}

fn empty_struct(name: &str) -> TypeDef {
    TypeDef::Struct(StructDef { name: name.to_string(), is_account: false, fields: vec![], attrs: vec![] })
}

#[test]
fn types_are_parsed_by_shape() {
    assert_eq!(parse_type(&path_ty("u64", None, "u64")), TypeRef::Primitive("u64".to_string()));
    assert_eq!(parse_type(&path_ty("Pubkey", None, "Pubkey")), TypeRef::Pubkey);
    assert_eq!(parse_type(&path_ty("String", None, "String")), TypeRef::String);
    assert_eq!(
        parse_type(&path_ty("Vec", Some(path_ty("u8", None, "u8")), "Vec<u8>")),
        TypeRef::Vec(Box::new(TypeRef::Primitive("u8".to_string())))
    );
    assert_eq!(
        parse_type(&path_ty("Option", Some(path_ty("Pubkey", None, "Pubkey")), "Option<Pubkey>")),
        TypeRef::Option(Box::new(TypeRef::Pubkey))
    );
    assert_eq!(parse_type(&path_ty("Box", Some(path_ty("u8", None, "u8")), "Box<u8>")), TypeRef::Primitive("u8".to_string()));
    let arr = SourceType { kind: SourceTypeKind::Array { elem: Box::new(path_ty("u8", None, "u8")), len: Some(32) }, text: "[u8;32]".to_string() };
    assert_eq!(parse_type(&arr), TypeRef::Array(Box::new(TypeRef::Primitive("u8".to_string())), 32));
    assert_eq!(parse_type(&path_ty("Thing", None, "Thing")), TypeRef::Custom("Thing".to_string()));
}

#[test]
fn doc_attributes_are_dropped_and_account_is_detected() {
    let attrs = vec![
        parser_v2::source::SourceAttr { ident: Some("doc".to_string()), text: "#[doc=\"x\"]".to_string() },
        parser_v2::source::SourceAttr { ident: Some("account".to_string()), text: "#[account]".to_string() },
    ];
    let s = struct_def_of("Vault".to_string(), &attrs, &vec![]);
    assert!(s.is_account);
    assert_eq!(s.attrs, strings(&["#[account]"]));
    let plain = struct_def_of("Plain".to_string(), &vec![], &vec![]);
    assert!(!plain.is_account);
}

#[test]
fn use_trees_flatten_to_paths() {
    // use crate::state::{Vault, config::*, Other as O};
    let tree = SourceUseTree::Path {
        ident: "crate".to_string(),
        tree: Box::new(SourceUseTree::Path {
            ident: "state".to_string(),
            tree: Box::new(SourceUseTree::Group(vec![
                SourceUseTree::Name("Vault".to_string()),
                SourceUseTree::Path { ident: "config".to_string(), tree: Box::new(SourceUseTree::Glob) },
                SourceUseTree::Rename("Other".to_string()),
            ])),
        }),
    };
    let imports = imports_of(&vec![tree]);
    assert_eq!(
        imports.paths,
        vec![
            strings(&["crate", "state", "Vault"]),
            strings(&["crate", "state", "config", "*"]),
            strings(&["crate", "state", "Other"]),
        ]
    );
}

#[test]
fn direct_path_resolves_and_missing_is_an_error() {
    let mut registry = TypeRegistry::new();
    registry.insert("prog::state::Vault".to_string(), empty_struct("Vault"));
    assert_eq!(registry.resolve_absolute_path("prog::state", "Vault").unwrap(), "prog::state::Vault");
    assert!(registry.get("prog::state::Vault").is_some());
    assert!(matches!(registry.resolve_absolute_path("prog::state", "Nope"), Err(ResolveError::Unknown(_))));
}

#[test]
fn file_paths_are_recorded_when_given() {
    let mut ws = Workspace::new();
    let sites = vec![DefinitionSite { modules: vec![], def: empty_struct("Vault") }];
    ws.add_sites("prog", &strings(&["state"]), sites, ImportList { paths: vec![] }, Some("programs/prog/src/state.rs"));
    assert_eq!(ws.registry.file_paths.get("prog::state::Vault"), Some(&"programs/prog/src/state.rs".to_string()));
    assert_eq!(ws.registry.find_file_path_for_module("prog::state"), Some("programs/prog/src/state.rs".to_string()));
}

#[test]
fn merging_analyses_keeps_accounts_in_order() {
    let mut a = WorkspaceAnalysis::new();
    a.add_struct("Vault".to_string(), true, vec![AccountField { name: "owner".to_string(), type_text: "Pubkey".to_string() }]);
    a.add_struct("Helper".to_string(), false, vec![]);
    let mut b = WorkspaceAnalysis::new();
    b.add_struct("Config".to_string(), true, vec![]);
    b.add_alias("Amount".to_string(), "u64".to_string());
    a.merge(b);
    assert_eq!(a.accounts.len(), 2);
    assert_eq!(a.accounts[0].name, "Vault");
    assert_eq!(a.accounts[1].name, "Config");
    assert!(a.structs.get("Helper").is_some());
    assert!(a.structs.get("Config").is_some());
    assert_eq!(a.aliases.get("Amount"), Some(&"u64".to_string()));
}

#[test]
fn spike_lists_structs_accounts_and_aliases_of_a_text() {
    let src = r#"
        #[account]
        pub struct Vault { pub owner: Pubkey, pub data: Vec<u8> }
        pub struct Helper(u8);
        pub type Amount = u64;
        mod inner { pub struct Deep { pub x: Option < u32 > } }
    "#;
    let a = parser_v2::spike::parse_source(src).unwrap();
    assert_eq!(a.accounts.len(), 1);
    assert_eq!(a.accounts[0].name, "Vault");
    assert_eq!(a.accounts[0].fields[1].type_text, "Vec<u8>");
    assert!(a.structs.get("Helper").unwrap().is_empty());
    assert_eq!(a.structs.get("Deep").unwrap()[0].type_text, "Option<u32>");
    assert_eq!(a.aliases.get("Amount"), Some(&"u64".to_string()));
    assert!(parser_v2::spike::parse_source("struct {").is_none());
}

#[test]
fn imports_of_a_file_are_its_top_level_uses() {
    let mut ws = Workspace::new();
    let src = "use crate::state::{Vault, config::*};\nmod m { use crate::other::Hidden; }\npub struct A {}";
    ws.add_file("prog", &strings(&["lib"]), src, Some("src/lib.rs")).unwrap();
    let imports = ws.registry.file_imports.get("src/lib.rs").unwrap();
    assert_eq!(imports.paths, vec![strings(&["crate", "state", "Vault"]), strings(&["crate", "state", "config", "*"])]);
    assert_eq!(ws.registry.file_paths.get("prog::lib::A"), Some(&"src/lib.rs".to_string()));
}
