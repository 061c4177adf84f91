use parser_v2::abi::{AbiEngine, AbiError};
use parser_v2::layout::{LayoutEngine, LayoutError};
use parser_v2::types::{
    AliasDef, EnumDef, FieldDef, InstructionDef, StructDef, TypeDef, TypeRef, TypeRegistry, VariantDef,
};

fn field(name: &str, t: TypeRef) -> FieldDef {
    FieldDef { name: name.to_string(), type_ref: t, attrs: vec![] }
}

fn prim(p: &str) -> TypeRef {
    TypeRef::Primitive(p.to_string())
}

fn registry() -> TypeRegistry {
    let mut r = TypeRegistry::new();
    r.insert(
        "program::state::Vault".to_string(),
        TypeDef::Struct(StructDef {
            name: "Vault".to_string(),
            is_account: true,
            fields: vec![field("owner", TypeRef::Pubkey), field("amount", prim("u64")), field("bump", prim("u8"))],
            attrs: vec!["#[account]".to_string()],
        }),
    );
    r.insert(
        "program::state::Status".to_string(),
        TypeDef::Enum(EnumDef {
            name: "Status".to_string(),
            variants: vec![
                VariantDef { name: "Idle".to_string(), fields: vec![] },
                VariantDef { name: "Locked".to_string(), fields: vec![field("until", prim("i64")), field("by", TypeRef::Pubkey)] },
            ],
        }),
    );
    r.insert("program::state::Amount".to_string(), TypeDef::Alias(AliasDef { name: "Amount".to_string(), target: prim("u128") }));
    r.insert(
        "program::state::Position".to_string(),
        TypeDef::Struct(StructDef {
            name: "Position".to_string(),
            is_account: false,
            fields: vec![
                field("status", TypeRef::Custom("Status".to_string())),
                field("size", TypeRef::Custom("Amount".to_string())),
                field("memo", TypeRef::String),
            ],
            attrs: vec![],
        }),
    );
    r.insert(
        "program::state::Loop".to_string(),
        TypeDef::Struct(StructDef {
            name: "Loop".to_string(),
            is_account: false,
            fields: vec![field("next", TypeRef::Option(Box::new(TypeRef::Custom("Loop".to_string()))))],
            attrs: vec![],
        }),
    );
    r.insert(
        "program::my_program::initialize".to_string(),
        TypeDef::Instruction(InstructionDef { name: "initialize".to_string(), args: vec![] }),
    );
    r
}

#[test]
fn account_size_counts_the_discriminator() {
    let r = registry();
    let mut engine = LayoutEngine::new(&r);
    let info = engine.size_of_absolute_path("program::state::Vault").unwrap();
    assert_eq!(info.size, 8 + 32 + 8 + 1);
    assert!(!info.dynamic);
    assert_eq!(info.dependencies, vec!["program::state::Vault".to_string()]);
}

#[test]
fn enum_is_tag_plus_largest_variant_and_string_is_dynamic() {
    let r = registry();
    let mut engine = LayoutEngine::new(&r);
    let status = engine.size_of_absolute_path("program::state::Status").unwrap();
    assert_eq!(status.size, 1 + 8 + 32);
    let position = engine.size_of_absolute_path("program::state::Position").unwrap();
    assert_eq!(position.size, (1 + 8 + 32) + 16 + 4);
    assert!(position.dynamic);
    assert!(position.dependencies.contains(&"program::state::Status".to_string()));
    assert!(position.dependencies.contains(&"program::state::Amount".to_string()));
}

#[test]
fn type_ref_sizes() {
    let r = registry();
    let mut engine = LayoutEngine::new(&r);
    assert_eq!(engine.size_of_type_ref("program::state", &prim("u16")).unwrap().size, 2);
    assert_eq!(engine.size_of_type_ref("program::state", &TypeRef::Array(Box::new(prim("u32")), 5)).unwrap().size, 20);
    assert_eq!(engine.size_of_type_ref("program::state", &TypeRef::Option(Box::new(TypeRef::Pubkey))).unwrap().size, 33);
    let v = engine.size_of_type_ref("program::state", &TypeRef::Vec(Box::new(prim("u8")))).unwrap();
    assert_eq!(v.size, 4);
    assert!(v.dynamic);
}

#[test]
fn layout_errors() {
    let r = registry();
    let mut engine = LayoutEngine::new(&r);
    assert!(matches!(engine.size_of_type_ref("program::state", &prim("usize")), Err(LayoutError::UnknownPrimitive(_))));
    assert!(matches!(engine.size_of_absolute_path("program::state::Nope"), Err(LayoutError::Missing(_))));
    assert!(matches!(engine.size_of_absolute_path("program::state::Loop"), Err(LayoutError::Cyclic(_))));
    assert!(matches!(engine.size_of_absolute_path("program::my_program::initialize"), Err(LayoutError::NotALayout(_))));
    assert!(matches!(
        engine.size_of_type_ref("program::state", &TypeRef::Tuple(vec![prim("u8")])),
        Err(LayoutError::Unsupported(_))
    ));
    assert!(matches!(
        engine.size_of_type_ref("program::state", &TypeRef::Custom("Ghost".to_string())),
        Err(LayoutError::Resolve(_))
    ));
    assert!(matches!(
        engine.size_of_type_ref("program::state", &TypeRef::Array(Box::new(prim("u128")), usize::MAX)),
        Err(LayoutError::Overflow)
    ));
}

#[test]
fn abi_errors() {
    let r = registry();
    let mut engine = AbiEngine::new(&r);
    assert!(matches!(
        engine.hash_of_type_ref("program::state", &TypeRef::HashSet(Box::new(prim("u8")))),
        Err(AbiError::Unsupported(_))
    ));
    assert!(matches!(
        engine.hash_of_type_ref("program::state", &TypeRef::Custom("Ghost".to_string())),
        Err(AbiError::Resolve(_))
    ));
    assert!(engine.hash_of_absolute_path("program::state::Position").is_ok());
}
