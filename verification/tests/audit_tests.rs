use parser_v2::audit::{
    analyze_function, audit_functions, collect_let_variables, extract_context_struct_name, find_struct_by_name,
    handlers_of_source, module_location, RawFunction, RawFunctionVisitor,
};
use parser_v2::source::{SourceExpr, SourceExprKind, SourceStmt, SourceStmtKind};
use parser_v2::syntax::parse_source_file;
use parser_v2::types::TypeRef;
use parser_v2::Workspace;

fn strings(v: &[&str]) -> Vec<String> {
    v.iter().map(|s| s.to_string()).collect()
}

fn lit(v: &str) -> SourceExpr {
    SourceExpr { kind: SourceExprKind::Lit, text: v.to_string() }
}

fn local(name: &str, init: SourceExpr, line: usize) -> SourceStmt {
    SourceStmt { kind: SourceStmtKind::Local { binding: Some(name.to_string()), mutable: false, init: Some(init) }, line }
}

fn assign(name: &str, value: &str, line: usize) -> SourceStmt {
    let e = SourceExpr {
        kind: SourceExprKind::Assign {
            left: Box::new(SourceExpr { kind: SourceExprKind::Path, text: name.to_string() }),
            right: Box::new(lit(value)),
        },
        text: format!("{}={}", name, value),
    };
    SourceStmt { kind: SourceStmtKind::Expr { expr: e, semi: true }, line }
}

/// The handlers of a source text, as a file of module `modules` of `program`.
fn handlers(file_path: &str, program: &str, modules: &[&str], src: &str) -> Vec<RawFunction> {
    handlers_of_source(src, file_path.to_string(), program.to_string(), strings(modules)).unwrap()
}

/// The same through a visitor and a separate parse.
fn handlers_by_visitor(file_path: &str, program: &str, modules: &[&str], src: &str) -> Vec<RawFunction> {
    let mut visitor = RawFunctionVisitor::new(file_path.to_string(), program.to_string(), strings(modules));
    visitor.visit_file(parse_source_file(src).unwrap());
    visitor.functions
}

fn workspace(program: &str, modules: &[&str], src: &str) -> Workspace {
    let mut ws = Workspace::new();
    ws.add_file(program, &strings(modules), src, None).unwrap();
    ws
}

#[test]
fn module_location_follows_anchor_layout() {
    let c = strings(&["programs", "vault", "src", "state", "user.rs"]);
    assert_eq!(module_location(Some(&c), "user.rs"), ("vault".to_string(), strings(&["state", "user"])));

    let c = strings(&["programs", "vault", "src", "lib.rs"]);
    assert_eq!(module_location(Some(&c), "lib.rs"), ("vault".to_string(), vec![]));

    let c = strings(&["src", "instructions", "mod.rs"]);
    assert_eq!(module_location(Some(&c), "mod.rs"), ("program".to_string(), strings(&["instructions"])));

    let c = strings(&["other", "thing.rs"]);
    assert_eq!(module_location(Some(&c), "thing.rs"), ("program".to_string(), strings(&["thing"])));

    assert_eq!(module_location(None, "thing.rs"), ("program".to_string(), vec![]));
}

#[test]
fn context_struct_names() {
    assert_eq!(extract_context_struct_name(&TypeRef::Custom("Context<Initialize>".to_string())), Some("Initialize".to_string()));
    assert_eq!(
        extract_context_struct_name(&TypeRef::Custom("Context<'_, '_, '_, 'info, Withdraw<'info>>".to_string())),
        Some("Withdraw<'info>".to_string())
    );
    assert_eq!(extract_context_struct_name(&TypeRef::Custom("Signer<'info>".to_string())), None);
    assert_eq!(extract_context_struct_name(&TypeRef::Pubkey), None);
}

#[test]
fn let_variables_are_collected_in_order() {
    let inner = vec![local("b", lit("2"), 3)];
    let stmts = vec![
        local("a", lit("1"), 2),
        SourceStmt {
            kind: SourceStmtKind::Expr { expr: SourceExpr { kind: SourceExprKind::Block(inner), text: "{}".to_string() }, semi: false },
            line: 3,
        },
        assign("a", "3", 4),
    ];
    assert_eq!(collect_let_variables(&stmts), strings(&["a", "b"]));
}

#[test]
fn visitor_keeps_only_context_handlers() {
    let src = r#"
        fn helper(x: u64) {}
        pub mod ix {
            pub fn withdraw(ctx: Context<Withdraw>, amount: u64) -> Result<()> { vault = 1; Ok(()) }
        }
        impl Thing {
            fn deposit(&self, ctx: Context<'_, '_, '_, 'info, Deposit<'info>>) {}
        }
    "#;
    let fs = handlers("src/lib.rs", "vault", &["ix"], src);
    assert_eq!(fs.len(), 2);
    let f = &fs[0];
    assert_eq!(f.name, "withdraw");
    assert_eq!(f.context_var_name, "ctx");
    assert_eq!(f.context_struct_name, "Withdraw");
    assert_eq!(f.program_name, "vault");
    assert_eq!(f.modules, strings(&["ix"]));
    assert_eq!(f.file_path, "src/lib.rs");
    assert_eq!(f.signature.len(), 2);
    assert_eq!(f.signature[1].type_ref, TypeRef::Primitive("u64".to_string()));
    assert_eq!(f.stmts.len(), 2);
    assert_eq!(fs[1].name, "deposit");
    assert_eq!(fs[1].context_struct_name, "Deposit");
    assert_eq!(fs[1].signature.len(), 1);
}

#[test]
fn last_context_argument_that_is_a_path_names_the_struct() {
    let fs = handlers("lib.rs", "p", &[], "fn a(ctx: Context<A, B>) {} fn b(acc: Account<'info, Vault>) {}");
    assert_eq!(fs.len(), 1);
    assert_eq!(fs[0].context_struct_name, "B");
}

#[test]
fn struct_lookup_prefers_full_path_then_suffix() {
    let ws = workspace("vault", &["ix"], "pub struct Withdraw<'info> { pub vault: UncheckedAccount<'info> }");
    assert_eq!(find_struct_by_name(&ws.registry, "vault", &strings(&["ix"]), "Withdraw").unwrap().fields.len(), 1);
    assert!(find_struct_by_name(&ws.registry, "vault", &vec![], "Withdraw").is_some());
    assert!(find_struct_by_name(&ws.registry, "vault", &vec![], "Deposit").is_none());
}

const UNCHECKED: &str = r#"
    #[derive(Accounts)]
    pub struct Withdraw<'info> {
        #[account(mut)]
        pub vault: UncheckedAccount<'info>,
    }
    pub fn withdraw(ctx: Context<Withdraw>) -> Result<()> {
        let x = 0;
        vault = 1;
        Ok(())
    }
"#;

#[test]
fn unchecked_account_write_is_reported_end_to_end() {
    let ws = workspace("vault", &[], UNCHECKED);
    let fs = handlers("programs/vault/src/lib.rs", "vault", &[], UNCHECKED);
    assert_eq!(fs.len(), 1);
    let diags = analyze_function(&ws.registry, &fs[0]);
    assert_eq!(diags.len(), 1);
    assert_eq!(diags[0].rule_id, "EPIC-SEC-001");
    assert_eq!(diags[0].location.line, 9);
    assert_eq!(diags[0].location.file, "programs/vault/src/lib.rs");

    let all = audit_functions(&ws, &fs);
    assert_eq!(all.len(), 1);
}

#[test]
fn typed_account_write_is_not_reported() {
    let src = UNCHECKED.replace("UncheckedAccount<'info>", "Account<'info, VaultState>");
    let ws = workspace("vault", &[], &src);
    let fs = handlers("programs/vault/src/lib.rs", "vault", &[], &src);
    assert!(analyze_function(&ws.registry, &fs[0]).is_empty());
}

#[test]
fn require_of_the_owner_guards_the_write() {
    let src = UNCHECKED.replace("let x = 0;", "require_keys_eq!(vault.owner, program_id);");
    let ws = workspace("vault", &[], &src);
    let fs = handlers("programs/vault/src/lib.rs", "vault", &[], &src);
    // The statement's argument text as quoting yields it starts with the macro
    // path, so the assertion is not read as an owner check.
    assert_eq!(analyze_function(&ws.registry, &fs[0]).len(), 1);
}

#[test]
fn branch_on_the_owner_guards_the_write() {
    let src = UNCHECKED.replace("let x = 0;", "if vault.owner != program_id { return Err(e); }");
    let ws = workspace("vault", &[], &src);
    let fs = handlers("programs/vault/src/lib.rs", "vault", &[], &src);
    assert!(analyze_function(&ws.registry, &fs[0]).is_empty());
}

#[test]
fn handler_without_accounts_struct_yields_nothing() {
    let ws = Workspace::new();
    let fs = handlers("lib.rs", "vault", &[], "fn withdraw(ctx: Context<Missing>) { vault = 1; }");
    assert!(analyze_function(&ws.registry, &fs[0]).is_empty());
}

#[test]
fn handlers_of_unparsable_source_are_none() {
    assert!(handlers_of_source("pub fn broken( {", "f.rs".to_string(), "p".to_string(), strings(&["m"])).is_none());
}

#[test]
fn handlers_of_source_match_the_visitor() {
    let src = r#"
        pub mod my_program {
            pub fn initialize(ctx: Context<Init>, amount: u64) -> Result<()> { Ok(()) }
            fn helper(x: u8) {}
        }
        impl Thing { pub fn act(ctx: Context<Act>) -> Result<()> { Ok(()) } }
    "#;
    let a = handlers("src/lib.rs", "prog", &["lib"], src);
    let b = handlers_by_visitor("src/lib.rs", "prog", &["lib"], src);
    assert_eq!(a.len(), 2);
    assert_eq!(a.len(), b.len());
    assert_eq!(a[0].name, "initialize");
    assert_eq!(a[0].context_struct_name, "Init");
    assert_eq!(a[1].name, "act");
    assert_eq!(a[1].file_path, "src/lib.rs");
    assert_eq!(b[1].name, "act");
}
