use parser_v2::diff::deployment_recommendation;
use parser_v2::{compare_workspaces, format_diff_results, ChangeType, DiffResult, Severity, Workspace};

fn run_diff(old_source: &str, new_source: &str) -> Vec<DiffResult> {
    let mut old_ws = Workspace::new();
    old_ws.add_file("program", &vec!["test_mod".to_string()], old_source, None).unwrap();

    let mut new_ws = Workspace::new();
    new_ws.add_file("program", &vec!["test_mod".to_string()], new_source, None).unwrap();

    compare_workspaces(&old_ws, &new_ws)
}

#[test]
fn test_safe_changes() {
    // 1. New optional instruction addition
    let old_program = r#"
        #[program]
        pub mod my_program {
            pub fn initialize(ctx: Context<Init>) -> Result<()> { Ok(()) }
        }
    "#;
    let new_program = r#"
        #[program]
        pub mod my_program {
            pub fn initialize(ctx: Context<Init>) -> Result<()> { Ok(()) }
            pub fn optional_ix(ctx: Context<Opt>) -> Result<()> { Ok(()) }
        }
    "#;
    let diffs = run_diff(old_program, new_program);
    let instr_add = diffs
        .iter()
        .find(|d| d.change_type == ChangeType::InstructionAddition)
        .unwrap();
    assert_eq!(instr_add.severity, Severity::Safe);
    assert!(instr_add.description.contains("Instruction"));
    assert!(instr_add.description.contains("added"));

    // 2. New account type introduced
    let old_accounts = r#"
        #[account]
        pub struct UserPosition {
            pub authority: Pubkey,
        }
    "#;
    let new_accounts = r#"
        #[account]
        pub struct UserPosition {
            pub authority: Pubkey,
        }
        #[account]
        pub struct ProtocolConfig {
            pub admin: Pubkey,
        }
    "#;
    let diffs2 = run_diff(old_accounts, new_accounts);
    let struct_add = diffs2
        .iter()
        .find(|d| d.entity.contains("ProtocolConfig"))
        .unwrap();
    assert_eq!(struct_add.severity, Severity::Safe);
}

#[test]
fn test_minor_changes() {
    // 1. New field appended at end of a non-account struct (safe layout expansion)
    let old_struct = r#"
        pub struct Position {
            pub owner: Pubkey,
        }
    "#;
    let new_struct = r#"
        pub struct Position {
            pub owner: Pubkey,
            pub score: u64,
        }
    "#;
    let diffs = run_diff(old_struct, new_struct);
    let field_add = diffs
        .iter()
        .find(|d| d.change_type == ChangeType::StructFieldAddition)
        .unwrap();
    assert_eq!(field_add.severity, Severity::Minor);
    assert!(field_add.description.contains("appended at end"));

    // 2. New enum variant appended
    let old_enum = r#"
        pub enum Status {
            Active,
            Inactive,
        }
    "#;
    let new_enum = r#"
        pub enum Status {
            Active,
            Inactive,
            Suspended,
        }
    "#;
    let diffs2 = run_diff(old_enum, new_enum);
    let var_add = diffs2
        .iter()
        .find(|d| d.change_type == ChangeType::EnumVariantAddition)
        .unwrap();
    assert_eq!(var_add.severity, Severity::Minor);
    assert!(var_add.description.contains("appended at end"));
}

#[test]
fn test_major_changes() {
    // 1. Account size changed
    let old_account = r#"
        #[account]
        pub struct UserPosition {
            pub owner: Pubkey,
        }
    "#;
    let new_account = r#"
        #[account]
        pub struct UserPosition {
            pub owner: Pubkey,
            pub score: u64,
        }
    "#;
    let diffs = run_diff(old_account, new_account);
    let size_change = diffs
        .iter()
        .find(|d| d.change_type == ChangeType::AccountLayoutChange)
        .unwrap();
    assert_eq!(size_change.severity, Severity::Major);
    assert!(size_change.description.contains("layout changed"));

    // 2. Type width changed
    let old_type = r#"
        pub struct Config {
            pub limit: u32,
        }
    "#;
    let new_type = r#"
        pub struct Config {
            pub limit: u64,
        }
    "#;
    let diffs2 = run_diff(old_type, new_type);
    let type_change = diffs2
        .iter()
        .find(|d| d.change_type == ChangeType::TypeChange)
        .unwrap();
    assert_eq!(type_change.severity, Severity::Major);
    assert!(type_change.description.contains("type width changed"));
}

#[test]
fn test_critical_changes() {
    // 1. Field reordering
    let old_reorder = r#"
        pub struct Position {
            pub owner: Pubkey,
            pub score: u64,
        }
    "#;
    let new_reorder = r#"
        pub struct Position {
            pub score: u64,
            pub owner: Pubkey,
        }
    "#;
    let diffs = run_diff(old_reorder, new_reorder);
    let reorder = diffs
        .iter()
        .find(|d| d.change_type == ChangeType::StructFieldReordering)
        .unwrap();
    assert_eq!(reorder.severity, Severity::Critical);
    assert!(reorder.description.contains("moved from field"));

    // 2. Field removal
    let old_removal = r#"
        pub struct Position {
            pub owner: Pubkey,
            pub score: u64,
        }
    "#;
    let new_removal = r#"
        pub struct Position {
            pub owner: Pubkey,
        }
    "#;
    let diffs2 = run_diff(old_removal, new_removal);
    let removal = diffs2
        .iter()
        .find(|d| d.change_type == ChangeType::StructFieldRemoval)
        .unwrap();
    assert_eq!(removal.severity, Severity::Critical);
    assert!(removal.description.contains("removed"));

    // 3. Enum variant reordering
    let old_enum = r#"
        pub enum Status {
            Active,
            Inactive,
        }
    "#;
    let new_enum = r#"
        pub enum Status {
            Inactive,
            Active,
        }
    "#;
    let diffs3 = run_diff(old_enum, new_enum);
    let enum_reorder = diffs3
        .iter()
        .find(|d| d.change_type == ChangeType::EnumVariantReordering)
        .unwrap();
    assert_eq!(enum_reorder.severity, Severity::Critical);
    assert!(enum_reorder.description.contains("reordered"));

    // 4. Instruction removal
    let old_program = r#"
        #[program]
        pub mod my_program {
            pub fn initialize(ctx: Context<Init>) -> Result<()> { Ok(()) }
            pub fn cancel(ctx: Context<Cancel>) -> Result<()> { Ok(()) }
        }
    "#;
    let new_program = r#"
        #[program]
        pub mod my_program {
            pub fn initialize(ctx: Context<Init>) -> Result<()> { Ok(()) }
        }
    "#;
    let diffs4 = run_diff(old_program, new_program);
    let inst_removal = diffs4
        .iter()
        .find(|d| d.change_type == ChangeType::InstructionRemoval)
        .unwrap();
    assert_eq!(inst_removal.severity, Severity::Critical);
    assert!(inst_removal.description.contains("removed"));

    // 5. PDA/account validation constraint change
    let old_pda = r#"
        #[derive(Accounts)]
        pub struct Initialize<'info> {
            #[account(init, payer = user, space = 8 + 32)]
            pub my_account: Account<'info, MyAccount>,
        }
    "#;
    let new_pda = r#"
        #[derive(Accounts)]
        pub struct Initialize<'info> {
            #[account(init, payer = user, space = 8 + 64)]
            pub my_account: Account<'info, MyAccount>,
        }
    "#;
    let diffs5 = run_diff(old_pda, new_pda);
    let pda_change = diffs5
        .iter()
        .find(|d| d.change_type == ChangeType::PdaAccountDefinitionChange)
        .unwrap();
    assert_eq!(pda_change.severity, Severity::Critical);
    assert!(pda_change.description.contains("constraints changed"));
}

#[test]
fn test_human_readable_output() {
    let old_reorder = r#"
        #[account]
        pub struct UserPosition {
            pub owner: Pubkey,
            pub score: u64,
        }
    "#;
    let new_reorder = r#"
        #[account]
        pub struct UserPosition {
            pub score: u64,
            pub owner: Pubkey,
        }
    "#;
    let diffs = run_diff(old_reorder, new_reorder);
    let output = format_diff_results(&diffs);

    assert!(output.contains("⚠ UserPosition"));
    assert!(output.contains("Severity: Critical"));
    assert!(output.contains("Changes:"));
    assert!(output.contains("field 'owner' moved from field #0 → #1"));
    assert!(output.contains("Impact:"));
    assert!(output.contains("Existing accounts incompatible"));
}

#[test]
fn identical_workspaces_have_no_diffs() {
    let src = r#"
        #[account]
        pub struct UserPosition { pub owner: Pubkey }
        pub enum Status { Active }
        #[program]
        pub mod my_program {
            pub fn initialize(ctx: Context<Init>) -> Result<()> { Ok(()) }
        }
    "#;
    let diffs = run_diff(src, src);
    assert!(diffs.is_empty());
    assert_eq!(format_diff_results(&diffs), "No layout or interface changes detected.");
}

#[test]
fn removed_account_is_critical() {
    let diffs = run_diff("#[account] pub struct Gone { pub owner: Pubkey }", "");
    assert_eq!(diffs.len(), 1);
    assert_eq!(diffs[0].severity, Severity::Critical);
    assert_eq!(diffs[0].entity, "program::test_mod::Gone");
}

#[test]
fn definitions_are_keyed_by_module_path() {
    let mut ws = Workspace::new();
    let src = r#"
        #[account] pub struct UserPosition {}
        #[program] pub mod my_program { pub fn initialize(ctx: Context<Init>) -> Result<()> { Ok(()) } }
        mod inner { pub type Amount = u64; }
    "#;
    ws.add_file("program", &vec!["test_mod".to_string()], src, None).unwrap();
    assert!(ws.registry.get("program::test_mod::UserPosition").is_some());
    assert!(ws.registry.get("program::test_mod::my_program::initialize").is_some());
    assert!(ws.registry.get("program::test_mod::inner::Amount").is_some());
    assert!(ws.registry.get("UserPosition").is_none());
}

#[test]
fn unparsable_text_leaves_the_workspace_unchanged() {
    let mut ws = Workspace::new();
    assert!(ws.add_file("program", &vec![], "pub struct {", None).is_err());
    assert_eq!(ws.registry.definitions.len(), 0);
}

#[test]
fn duplicate_member_names_are_reported_even_against_themselves() {
    // Outside valid Rust: two fields named `a`. Each is matched with the first
    // `a` of the other version, so the second one is reported as moved.
    let src = "pub struct Odd { pub a: u8, pub a: u16 }";
    let diffs = run_diff(src, src);
    assert!(!diffs.is_empty());
}

fn diff(entity: &str, change_type: ChangeType, severity: Severity, description: &str) -> DiffResult {
    DiffResult {
        entity: entity.to_string(),
        change_type,
        severity,
        description: description.to_string(),
    }
}

#[test]
fn report_does_not_depend_on_diff_order() {
    let a = || diff("prog::state::Vault", ChangeType::AccountLayoutChange, Severity::Major, "size grew");
    let b = || diff("prog::state::Vault", ChangeType::StructFieldReordering, Severity::Critical, "field 'x' moved");
    let c = || diff("prog::state::Alpha", ChangeType::StructFieldAddition, Severity::Minor, "field 'y' added");
    let forward = vec![a(), b(), c()];
    let backward = vec![c(), b(), a()];
    let text = format_diff_results(&forward);
    assert_eq!(text, format_diff_results(&backward));
    assert!(text.starts_with("⚠ Alpha\nSeverity: Minor"));
    assert!(text.contains("⚠ Vault\nSeverity: Critical\n\nChanges:\n* field 'x' moved\n* size grew\n"));
}

#[test]
fn deployment_recommendation_follows_the_highest_severity() {
    let none: Vec<DiffResult> = vec![];
    assert_eq!(deployment_recommendation(&none), (Severity::Safe, "**APPROVE**".to_string()));
    let major = vec![
        diff("p::A", ChangeType::StructFieldAddition, Severity::Minor, "a"),
        diff("p::B", ChangeType::AccountLayoutChange, Severity::Major, "b"),
    ];
    let (s, text) = deployment_recommendation(&major);
    assert_eq!(s, Severity::Major);
    assert!(text.starts_with("**WARNING**"));
    let critical = vec![
        diff("p::B", ChangeType::AccountLayoutChange, Severity::Major, "b"),
        diff("p::C", ChangeType::StructFieldReordering, Severity::Critical, "c"),
        diff("p::A", ChangeType::StructFieldAddition, Severity::Minor, "a"),
    ];
    assert_eq!(deployment_recommendation(&critical), (Severity::Critical, "**BLOCK**".to_string()));
}
