use parser_v2::abi::{AbiEngine, AbiError};
use parser_v2::types::TypeRef;
use parser_v2::Workspace;

fn workspace_of(source: &str) -> Workspace {
    let mut workspace = Workspace::new();
    workspace.add_file("program", &vec!["test_mod".to_string()], source, None).unwrap();
    workspace
}

fn get_fingerprint(source: &str, struct_name: &str) -> String {
    let workspace = workspace_of(source);
    let mut abi_engine = AbiEngine::new(&workspace.registry);
    abi_engine.hash_of_absolute_path(&format!("program::test_mod::{}", struct_name)).unwrap()
}

#[test]
fn test_field_reorder_changes_fingerprint() {
    let source1 = r#"
        #[account]
        pub struct MyAccount {
            pub a: u64,
            pub b: u32,
        }
    "#;

    let source2 = r#"
        #[account]
        pub struct MyAccount {
            pub b: u32,
            pub a: u64,
        }
    "#;

    let hash1 = get_fingerprint(source1, "MyAccount");
    let hash2 = get_fingerprint(source2, "MyAccount");
    assert_ne!(hash1, hash2, "Field reorder should change fingerprint");
}

#[test]
fn test_field_added_changes_fingerprint() {
    let source1 = r#"
        #[account]
        pub struct MyAccount {
            pub a: u64,
        }
    "#;

    let source2 = r#"
        #[account]
        pub struct MyAccount {
            pub a: u64,
            pub b: u32,
        }
    "#;

    let hash1 = get_fingerprint(source1, "MyAccount");
    let hash2 = get_fingerprint(source2, "MyAccount");
    assert_ne!(hash1, hash2, "Field addition should change fingerprint");
}

#[test]
fn test_field_removed_changes_fingerprint() {
    let source1 = r#"
        #[account]
        pub struct MyAccount {
            pub a: u64,
            pub b: u32,
        }
    "#;

    let source2 = r#"
        #[account]
        pub struct MyAccount {
            pub a: u64,
        }
    "#;

    let hash1 = get_fingerprint(source1, "MyAccount");
    let hash2 = get_fingerprint(source2, "MyAccount");
    assert_ne!(hash1, hash2, "Field removal should change fingerprint");
}

#[test]
fn test_type_changes_changes_fingerprint() {
    let source1 = r#"
        #[account]
        pub struct MyAccount {
            pub a: u64,
        }
    "#;

    let source2 = r#"
        #[account]
        pub struct MyAccount {
            pub a: u32,
        }
    "#;

    let hash1 = get_fingerprint(source1, "MyAccount");
    let hash2 = get_fingerprint(source2, "MyAccount");
    assert_ne!(hash1, hash2, "Type change should change fingerprint");
}

#[test]
fn test_nested_struct_changes_fingerprint() {
    let source1 = r#"
        pub struct Nested {
            pub inner: u64,
        }
        #[account]
        pub struct MyAccount {
            pub n: Nested,
        }
    "#;

    let source2 = r#"
        pub struct Nested {
            pub inner: u32,
        }
        #[account]
        pub struct MyAccount {
            pub n: Nested,
        }
    "#;

    let hash1 = get_fingerprint(source1, "MyAccount");
    let hash2 = get_fingerprint(source2, "MyAccount");
    assert_ne!(
        hash1, hash2,
        "Nested struct change should cascade to parent fingerprint"
    );
}

#[test]
fn test_enum_changes_fingerprint() {
    let source1 = r#"
        pub enum MyEnum {
            A,
            B,
        }
        #[account]
        pub struct MyAccount {
            pub e: MyEnum,
        }
    "#;

    let source2 = r#"
        pub enum MyEnum {
            A,
            B,
            C,
        }
        #[account]
        pub struct MyAccount {
            pub e: MyEnum,
        }
    "#;

    let hash1 = get_fingerprint(source1, "MyAccount");
    let hash2 = get_fingerprint(source2, "MyAccount");
    assert_ne!(
        hash1, hash2,
        "Enum change should cascade to parent fingerprint"
    );
}

#[test]
fn test_alias_target_changes_fingerprint() {
    let source1 = r#"
        pub type MyAlias = u64;
        #[account]
        pub struct MyAccount {
            pub a: MyAlias,
        }
    "#;

    let source2 = r#"
        pub type MyAlias = u32;
        #[account]
        pub struct MyAccount {
            pub a: MyAlias,
        }
    "#;

    let hash1 = get_fingerprint(source1, "MyAccount");
    let hash2 = get_fingerprint(source2, "MyAccount");
    assert_ne!(
        hash1, hash2,
        "Alias target change should cascade to parent fingerprint"
    );
}

#[test]
fn fingerprint_is_stable_and_hex_encoded() {
    let src = "#[account] pub struct MyAccount { pub a: u64 }";
    let hash1 = get_fingerprint(src, "MyAccount");
    let hash2 = get_fingerprint(src, "MyAccount");
    assert_eq!(hash1, hash2);
    assert_eq!(hash1.len(), 64);
    assert!(hash1.chars().all(|c| c.is_ascii_hexdigit() && !c.is_ascii_uppercase()));
}

#[test]
fn primitive_fingerprint_is_sha256_of_its_name() {
    let workspace = workspace_of("");
    let mut engine = AbiEngine::new(&workspace.registry);
    let h = engine.hash_of_type_ref("program::test_mod", &TypeRef::Primitive("u64".to_string())).unwrap();
    // SHA-256 of the bytes "Primitiveu64", hex-encoded
    assert_eq!(h, "604b408b766161f8bdd0106ad13e5984b791b65de5f630e38d16cc5f7a5dfdc3");
}

#[test]
fn unknown_path_is_an_error() {
    let workspace = workspace_of("");
    let mut engine = AbiEngine::new(&workspace.registry);
    assert!(matches!(engine.hash_of_absolute_path("program::test_mod::Missing"), Err(AbiError::Missing(_))));
}

#[test]
fn self_referential_struct_is_a_cycle() {
    let workspace = workspace_of("#[account] pub struct Node { pub next: Node }");
    let mut engine = AbiEngine::new(&workspace.registry);
    assert!(matches!(engine.hash_of_absolute_path("program::test_mod::Node"), Err(AbiError::Cyclic(_))));
}
