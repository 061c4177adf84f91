//! Parsing Rust source text with `syn`, and the plain values the analyses
//! read from what it parses.
//!
//! Each parse is a trusted item: its result is named (`expr_of_text`,
//! `meta_items_of`, `file_of`) and depends on the text alone. The functions
//! below the parses turn `syn`'s tree into the library's types one node at a
//! time; token texts are the node's tokens as `quote` prints them.
use vstd::prelude::*;
use crate::source::{
    MetaItem, SourceAttr, SourceExpr, SourceExprKind, SourceField, SourceFile, SourceFnParam, SourceGenericArg, SourceItem,
    SourceStmt, SourceStmtKind, SourceType, SourceTypeKind, SourceUseTree, SourceVariant,
};
use quote::ToTokens;
use syn::parse::Parser;
use syn::spanned::Spanned;

verus! {

/// A text without its spaces.
pub fn strip_spaces(s: String) -> (r: String)
    ensures
        r@ == crate::guards::no_spaces(s@),
{
    let cs = crate::text::chars_of(s.as_str());
    let mut out = String::new();
    let mut i: usize = 0;
    while i < cs.len()
        invariant
            i <= cs@.len(),
            cs@ == s@,
            out@ == crate::guards::no_spaces(cs@.take(i as int)),
        decreases cs@.len() - i,
    {
        assert(cs@.take(i + 1).drop_last() =~= cs@.take(i as int));
        if cs[i] != ' ' {
            crate::text::push_char(&mut out, cs[i]);
        }
        assert(out@ =~= crate::guards::no_spaces(cs@.take(i + 1)));
        i += 1;
    }
    assert(cs@.take(cs@.len() as int) =~= cs@);
    out
}

// ---------------------------------------------------------------------------
// The `syn` types read here.

#[verifier::external_type_specification]
#[verifier::external_body]
pub struct ExSynExpr(syn::Expr);

#[verifier::external_type_specification]
#[verifier::external_body]
pub struct ExSynMember(syn::Member);

#[verifier::external_type_specification]
#[verifier::external_body]
pub struct ExSynBlock(syn::Block);

#[verifier::external_type_specification]
#[verifier::external_body]
pub struct ExSynMacro(syn::Macro);

#[verifier::external_type_specification]
#[verifier::external_body]
pub struct ExSynStmt(syn::Stmt);

#[verifier::external_type_specification]
#[verifier::external_body]
pub struct ExSynLocal(syn::Local);

#[verifier::external_type_specification]
#[verifier::external_body]
pub struct ExSynType(syn::Type);

#[verifier::external_type_specification]
#[verifier::external_body]
pub struct ExSynPathArguments(syn::PathArguments);

#[verifier::external_type_specification]
#[verifier::external_body]
pub struct ExSynGenericArgument(syn::GenericArgument);

#[verifier::external_type_specification]
#[verifier::external_body]
pub struct ExSynAttribute(syn::Attribute);

#[verifier::external_type_specification]
#[verifier::external_body]
pub struct ExSynFields(syn::Fields);

#[verifier::external_type_specification]
#[verifier::external_body]
pub struct ExSynField(syn::Field);

#[verifier::external_type_specification]
#[verifier::external_body]
pub struct ExSynVariant(syn::Variant);

#[verifier::external_type_specification]
#[verifier::external_body]
pub struct ExSynUseTree(syn::UseTree);

#[verifier::external_type_specification]
#[verifier::external_body]
pub struct ExSynFnArg(syn::FnArg);

#[verifier::external_type_specification]
#[verifier::external_body]
pub struct ExSynItem(syn::Item);

#[verifier::external_type_specification]
#[verifier::external_body]
pub struct ExSynImplItem(syn::ImplItem);

#[verifier::external_type_specification]
#[verifier::external_body]
pub struct ExSynMeta(syn::Meta);

// ---------------------------------------------------------------------------
// The parses.

/// A text that `syn` does not parse as a source file.
#[derive(Debug)]
pub struct ParseFailed;

/// What `syn` parses a text into as an expression, as the library's tree.
pub uninterp spec fn expr_of_text(text: Seq<char>) -> Option<SourceExpr>;

/// What `syn` parses a text into as a comma-separated list of attribute
/// entries (`syn::Meta`), as the library's entries.
pub uninterp spec fn meta_items_of(text: Seq<char>) -> Option<Seq<MetaItem>>;

/// What `syn` parses a text into as a source file, as the library's items.
pub uninterp spec fn file_of(text: Seq<char>) -> Option<SourceFile>;

/// `syn::parse_str::<syn::Expr>`: `None` when the text is not an
/// expression. Claimed: the result depends on the text alone.
#[verifier::external_body]
pub fn parse_expr_text(text: &str) -> (r: Option<SourceExpr>)
    ensures
        r == expr_of_text(text@),
{
    match syn::parse_str::<syn::Expr>(text) {
        Ok(e) => Some(conv_expr(&e)),
        Err(_) => None,
    }
}

/// The text parsed into tokens (`str::parse::<proc_macro2::TokenStream>`),
/// then by `Punctuated::<syn::Meta, Comma>::parse_terminated`; `None` when
/// either fails. Claimed: the result depends on the text alone.
#[verifier::external_body]
pub fn parse_meta_items(text: &str) -> (r: Option<Vec<MetaItem>>)
    ensures
        match r {
            Some(v) => meta_items_of(text@) == Some(v@),
            None => meta_items_of(text@) is None,
        },
{
    let tokens: proc_macro2::TokenStream = match text.parse() {
        Ok(t) => t,
        Err(_) => return None,
    };
    let parser = syn::punctuated::Punctuated::<syn::Meta, syn::token::Comma>::parse_terminated;
    match parser.parse2(tokens) {
        Ok(list) => Some(list.iter().map(conv_meta).collect()),
        Err(_) => None,
    }
}

/// `syn::parse_str::<syn::File>`: `None` when the text is not a source
/// file. Claimed: the result depends on the text alone.
#[verifier::external_body]
pub fn parse_source_file(text: &str) -> (r: Option<SourceFile>)
    ensures
        r == file_of(text@),
{
    match syn::parse_str::<syn::File>(text) {
        Ok(f) => Some(SourceFile { items: f.items.iter().map(conv_item).collect() }),
        Err(_) => None,
    }
}

// ---------------------------------------------------------------------------
// One `syn` node into one library node.

#[verifier::external_body]
fn conv_meta(m: &syn::Meta) -> MetaItem {
    match m {
        syn::Meta::Path(p) => MetaItem::Path { ident: p.get_ident().map(|i| i.to_string()) },
        syn::Meta::NameValue(nv) => MetaItem::NameValue { ident: nv.path.get_ident().map(|i| i.to_string()), value: conv_expr(&nv.value) },
        syn::Meta::List(_) => MetaItem::List,
    }
}

#[verifier::external_body]
fn conv_expr(e: &syn::Expr) -> SourceExpr {
    SourceExpr { kind: expr_kind_a(e), text: e.to_token_stream().to_string() }
}

#[verifier::external_body]
fn member_text(m: &syn::Member) -> String {
    match m {
        syn::Member::Named(ident) => ident.to_string(),
        syn::Member::Unnamed(index) => index.index.to_string(),
    }
}

#[verifier::external_body]
fn expr_kind_a(e: &syn::Expr) -> SourceExprKind {
    match e {
        syn::Expr::Path(_) => SourceExprKind::Path,
        syn::Expr::Lit(_) => SourceExprKind::Lit,
        syn::Expr::Field(f) => SourceExprKind::Field { base: Box::new(conv_expr(&f.base)), member: member_text(&f.member) },
        syn::Expr::MethodCall(m) => SourceExprKind::MethodCall {
            receiver: Box::new(conv_expr(&m.receiver)),
            method: m.method.to_string(),
            args: m.args.iter().map(conv_expr).collect(),
        },
        _ => expr_kind_b(e),
    }
}

#[verifier::external_body]
fn expr_kind_b(e: &syn::Expr) -> SourceExprKind {
    match e {
        syn::Expr::Binary(b) => SourceExprKind::Binary {
            op: b.op.to_token_stream().to_string(),
            left: Box::new(conv_expr(&b.left)),
            right: Box::new(conv_expr(&b.right)),
        },
        syn::Expr::Reference(r) => SourceExprKind::Reference { expr: Box::new(conv_expr(&r.expr)), mutable: r.mutability.is_some() },
        syn::Expr::Try(t) => SourceExprKind::Try(Box::new(conv_expr(&t.expr))),
        _ => expr_kind_c(e),
    }
}

#[verifier::external_body]
fn expr_kind_c(e: &syn::Expr) -> SourceExprKind {
    match e {
        syn::Expr::Assign(a) => SourceExprKind::Assign { left: Box::new(conv_expr(&a.left)), right: Box::new(conv_expr(&a.right)) },
        syn::Expr::Cast(c) => SourceExprKind::Cast(Box::new(conv_expr(&c.expr))),
        syn::Expr::Index(i) => SourceExprKind::Index { expr: Box::new(conv_expr(&i.expr)), index: Box::new(conv_expr(&i.index)) },
        syn::Expr::Call(c) => SourceExprKind::Call { func: Box::new(conv_expr(&c.func)), args: c.args.iter().map(conv_expr).collect() },
        _ => expr_kind_d(e),
    }
}

#[verifier::external_body]
fn expr_kind_d(e: &syn::Expr) -> SourceExprKind {
    match e {
        syn::Expr::If(i) => SourceExprKind::If {
            cond: Box::new(conv_expr(&i.cond)),
            then_branch: conv_block(&i.then_branch),
            else_branch: i.else_branch.as_ref().map(|pair| Box::new(conv_expr(&pair.1))),
        },
        syn::Expr::Block(b) => SourceExprKind::Block(conv_block(&b.block)),
        _ => expr_kind_e(e),
    }
}

#[verifier::external_body]
fn expr_kind_e(e: &syn::Expr) -> SourceExprKind {
    match e {
        syn::Expr::Return(_) => SourceExprKind::Return,
        syn::Expr::Macro(m) => SourceExprKind::Macro { name: macro_name(&m.mac) },
        syn::Expr::Loop(_) => SourceExprKind::Loop,
        syn::Expr::While(_) => SourceExprKind::While,
        syn::Expr::ForLoop(_) => SourceExprKind::ForLoop,
        syn::Expr::Match(_) => SourceExprKind::Match,
        _ => SourceExprKind::Other,
    }
}

#[verifier::external_body]
fn macro_name(mac: &syn::Macro) -> String {
    match mac.path.segments.last() {
        Some(s) => s.ident.to_string(),
        None => String::new(),
    }
}

#[verifier::external_body]
fn conv_block(b: &syn::Block) -> Vec<SourceStmt> {
    b.stmts.iter().map(conv_stmt).collect()
}

#[verifier::external_body]
fn conv_stmt(s: &syn::Stmt) -> SourceStmt {
    SourceStmt { kind: stmt_kind(s), line: s.span().start().line }
}

#[verifier::external_body]
fn stmt_kind(s: &syn::Stmt) -> SourceStmtKind {
    match s {
        syn::Stmt::Local(l) => SourceStmtKind::Local {
            binding: local_binding(l),
            mutable: local_mutable(l),
            init: l.init.as_ref().map(|i| conv_expr(&i.expr)),
        },
        syn::Stmt::Expr(e, semi) => SourceStmtKind::Expr { expr: conv_expr(e), semi: semi.is_some() },
        syn::Stmt::Macro(m) => SourceStmtKind::Macro { name: macro_name(&m.mac), raw_args: m.to_token_stream().to_string() },
        syn::Stmt::Item(_) => SourceStmtKind::Item,
    }
}

#[verifier::external_body]
fn local_binding(l: &syn::Local) -> Option<String> {
    match &l.pat {
        syn::Pat::Ident(p) => Some(p.ident.to_string()),
        _ => None,
    }
}

#[verifier::external_body]
fn local_mutable(l: &syn::Local) -> bool {
    match &l.pat {
        syn::Pat::Ident(p) => p.mutability.is_some(),
        _ => false,
    }
}

#[verifier::external_body]
fn conv_type(t: &syn::Type) -> SourceType {
    SourceType { kind: type_kind(t), text: t.to_token_stream().to_string() }
}

#[verifier::external_body]
fn type_kind(t: &syn::Type) -> SourceTypeKind {
    match t {
        syn::Type::Path(p) => match p.path.segments.last() {
            Some(s) => SourceTypeKind::Path { ident: s.ident.to_string(), args: conv_args(&s.arguments) },
            None => SourceTypeKind::Other,
        },
        syn::Type::Array(a) => SourceTypeKind::Array { elem: Box::new(conv_type(&a.elem)), len: array_len(&a.len) },
        _ => SourceTypeKind::Other,
    }
}

#[verifier::external_body]
fn array_len(e: &syn::Expr) -> Option<usize> {
    match e {
        syn::Expr::Lit(syn::ExprLit { lit: syn::Lit::Int(i), .. }) => i.base10_parse::<usize>().ok(),
        _ => None,
    }
}

#[verifier::external_body]
fn conv_args(a: &syn::PathArguments) -> Vec<SourceGenericArg> {
    match a {
        syn::PathArguments::AngleBracketed(b) => b.args.iter().map(conv_generic_arg).collect(),
        _ => Vec::new(),
    }
}

#[verifier::external_body]
fn conv_generic_arg(g: &syn::GenericArgument) -> SourceGenericArg {
    match g {
        syn::GenericArgument::Type(t) => SourceGenericArg::Type(conv_type(t)),
        _ => SourceGenericArg::Other,
    }
}

#[verifier::external_body]
fn conv_attrs(v: &Vec<syn::Attribute>) -> Vec<SourceAttr> {
    v.iter().map(conv_attr).collect()
}

#[verifier::external_body]
fn conv_attr(a: &syn::Attribute) -> SourceAttr {
    SourceAttr { ident: a.path().get_ident().map(|i| i.to_string()), text: a.to_token_stream().to_string() }
}

#[verifier::external_body]
fn conv_fields(f: &syn::Fields) -> Vec<SourceField> {
    f.iter().map(conv_field).collect()
}

#[verifier::external_body]
fn conv_field(f: &syn::Field) -> SourceField {
    SourceField { ident: f.ident.as_ref().map(|i| i.to_string()), ty: conv_type(&f.ty), attrs: conv_attrs(&f.attrs) }
}

#[verifier::external_body]
fn conv_variant(v: &syn::Variant) -> SourceVariant {
    SourceVariant { name: v.ident.to_string(), fields: conv_fields(&v.fields) }
}

#[verifier::external_body]
fn conv_use_tree(t: &syn::UseTree) -> SourceUseTree {
    match t {
        syn::UseTree::Path(p) => SourceUseTree::Path { ident: p.ident.to_string(), tree: Box::new(conv_use_tree(&p.tree)) },
        syn::UseTree::Name(n) => SourceUseTree::Name(n.ident.to_string()),
        syn::UseTree::Rename(r) => SourceUseTree::Rename(r.ident.to_string()),
        syn::UseTree::Glob(_) => SourceUseTree::Glob,
        syn::UseTree::Group(g) => SourceUseTree::Group(g.items.iter().map(conv_use_tree).collect()),
    }
}

#[verifier::external_body]
fn conv_fn_arg(a: &syn::FnArg) -> Option<SourceFnParam> {
    match a {
        syn::FnArg::Typed(p) => match &*p.pat {
            syn::Pat::Ident(i) => Some(SourceFnParam { name: i.ident.to_string(), ty: conv_type(&p.ty) }),
            _ => None,
        },
        syn::FnArg::Receiver(_) => None,
    }
}

#[verifier::external_body]
fn conv_item(i: &syn::Item) -> SourceItem {
    match i {
        syn::Item::Struct(s) => SourceItem::Struct { name: s.ident.to_string(), attrs: conv_attrs(&s.attrs), fields: conv_fields(&s.fields) },
        syn::Item::Enum(e) => SourceItem::Enum { name: e.ident.to_string(), variants: e.variants.iter().map(conv_variant).collect() },
        syn::Item::Type(t) => SourceItem::TypeAlias { name: t.ident.to_string(), ty: conv_type(&t.ty) },
        syn::Item::Use(u) => SourceItem::Use(conv_use_tree(&u.tree)),
        _ => conv_item_b(i),
    }
}

#[verifier::external_body]
fn conv_item_b(i: &syn::Item) -> SourceItem {
    match i {
        syn::Item::Mod(m) => SourceItem::Mod {
            name: m.ident.to_string(),
            attrs: conv_attrs(&m.attrs),
            items: m.content.as_ref().map(|c| c.1.iter().map(conv_item).collect()),
        },
        syn::Item::Fn(f) => SourceItem::Fn { name: f.sig.ident.to_string(), params: f.sig.inputs.iter().map(conv_fn_arg).collect(), stmts: conv_block(&f.block) },
        syn::Item::Impl(b) => SourceItem::Impl(b.items.iter().map(conv_impl_item).collect()),
        _ => SourceItem::Other,
    }
}

#[verifier::external_body]
fn conv_impl_item(i: &syn::ImplItem) -> SourceItem {
    match i {
        syn::ImplItem::Fn(f) => SourceItem::Fn { name: f.sig.ident.to_string(), params: f.sig.inputs.iter().map(conv_fn_arg).collect(), stmts: conv_block(&f.block) },
        _ => SourceItem::Other,
    }
}

} // verus!
