//! The items of a Rust file as the symbol extraction reads them: names,
//! visibility, lines, and the token text of types and generics, converted from
//! the syn AST.
use vstd::prelude::*;
use quote::ToTokens;
use syn::spanned::Spanned;
use crate::parser::rust::{expr_parts, stmt_parts, SynPart};

verus! {

#[verifier::external_type_specification]
#[verifier::external_body]
pub struct ExSynSignature(syn::Signature);

#[verifier::external_type_specification]
#[verifier::external_body]
pub struct ExSynAttribute(syn::Attribute);

#[verifier::external_type_specification]
#[verifier::external_body]
pub struct ExSynItemStruct(syn::ItemStruct);

#[verifier::external_type_specification]
#[verifier::external_body]
pub struct ExSynItemEnum(syn::ItemEnum);

#[verifier::external_type_specification]
#[verifier::external_body]
pub struct ExSynIdent(proc_macro2::Ident);

#[verifier::external_type_specification]
#[verifier::external_body]
pub struct ExSynSpan(proc_macro2::Span);

#[verifier::external_type_specification]
#[verifier::external_body]
pub struct ExSynGenerics(syn::Generics);

#[verifier::external_type_specification]
#[verifier::external_body]
pub struct ExSynFnArg(syn::FnArg);

#[verifier::external_type_specification]
#[verifier::external_body]
pub struct ExSynReturnType(syn::ReturnType);

#[verifier::external_type_specification]
#[verifier::external_body]
pub struct ExSynItemFn(syn::ItemFn);

#[verifier::external_type_specification]
#[verifier::external_body]
pub struct ExSynItemType(syn::ItemType);

#[verifier::external_type_specification]
#[verifier::external_body]
pub struct ExSynItemConst(syn::ItemConst);

#[verifier::external_type_specification]
#[verifier::external_body]
pub struct ExSynItemStatic(syn::ItemStatic);

#[verifier::external_type_specification]
#[verifier::external_body]
pub struct ExSynItemMod(syn::ItemMod);

#[verifier::external_type_specification]
#[verifier::external_body]
pub struct ExSynImplItem(syn::ImplItem);

#[verifier::external_type_specification]
#[verifier::external_body]
pub struct ExSynTraitItem(syn::TraitItem);

/// An attribute: its path when that is a single name, the string literal it is
/// set to when it is written `path = "text"`, and the whole attribute written out
/// as tokens.
#[derive(Debug)]
pub struct RustAttr {
    pub ident: Option<String>,
    pub str_value: Option<String>,
    pub text: String,
}

/// A function input: `self`, or a typed argument with its name when the pattern
/// is a plain identifier, and its type written out.
#[derive(Debug)]
pub enum RustInput {
    Receiver,
    Typed(Option<String>, String),
}

/// A function signature: name, the lines it spans, generic parameters written
/// out, inputs, return type written out, and whether it is `async`.
#[derive(Debug)]
pub struct RustSig {
    pub name: String,
    pub lines: [usize; 2],
    pub generics: Vec<String>,
    pub inputs: Vec<RustInput>,
    pub output: Option<String>,
    pub is_async: bool,
}

/// A struct field: its name when it has one, its lines, its type written out,
/// and whether it is public.
#[derive(Debug)]
pub struct RustField {
    pub name: Option<String>,
    pub lines: [usize; 2],
    pub ty: String,
    pub public: bool,
}

/// A named type item (struct, enum, trait, type alias, const, static): whether
/// it is public, its name, the lines of its name and of its keyword, its generic
/// parameters and its attributes.
#[derive(Debug)]
pub struct RustHead {
    pub public: bool,
    pub name: String,
    pub name_lines: [usize; 2],
    pub keyword_lines: [usize; 2],
    pub generics: Vec<String>,
    pub attrs: Vec<RustAttr>,
}

/// An item of a Rust file.
#[derive(Debug)]
pub enum RustDecl {
    /// A function: public or not, its signature, attributes, and the items in its body.
    Fn(bool, RustSig, Vec<RustAttr>, Vec<RustDecl>),
    Struct(RustHead, Vec<RustField>),
    /// An enum and its variants: name and lines.
    Enum(RustHead, Vec<(String, [usize; 2])>),
    /// A trait and the items in its default method bodies.
    Trait(RustHead, Vec<RustDecl>),
    /// A type alias and its type written out.
    TypeAlias(RustHead, String),
    /// A constant, its type written out, and the items written in its value.
    Const(RustHead, String, Vec<RustDecl>),
    /// A static, its type written out, and the items written in its value.
    Static(RustHead, String, Vec<RustDecl>),
    /// An `impl` block: its self type written out, its methods (public or not,
    /// signature, attributes), and the items in the method bodies.
    Impl(String, Vec<RustImplItem>, Vec<RustDecl>),
    /// Items nested in an inline module, a function body or a block.
    Nested(Vec<RustDecl>),
    Other,
}

/// An item of an `impl` block: a method (public or not, its signature and its
/// attributes), or anything else.
#[derive(Debug)]
pub enum RustImplItem {
    Method(bool, RustSig, Vec<RustAttr>),
    Other,
}

/// Converts attributes, one for one.
#[verifier::external_body]
fn rust_attrs(attrs: &Vec<syn::Attribute>) -> (r: Vec<RustAttr>) {
    attrs.iter().map(|a| RustAttr {
        ident: a.path().get_ident().map(|i| i.to_string()),
        str_value: match &a.meta {
            syn::Meta::NameValue(syn::MetaNameValue { value: syn::Expr::Lit(syn::ExprLit { lit: syn::Lit::Str(s), .. }), .. }) => Some(s.value()),
            _ => None,
        },
        text: a.to_token_stream().to_string(),
    }).collect()
}

/// Converts a function input.
#[verifier::external_body]
fn rust_input(i: &syn::FnArg) -> (r: RustInput) {
    match i {
        syn::FnArg::Receiver(_) => RustInput::Receiver,
        syn::FnArg::Typed(t) => RustInput::Typed(
            match &*t.pat {
                syn::Pat::Ident(p) => Some(p.ident.to_string()),
                _ => None,
            },
            t.ty.to_token_stream().to_string(),
        ),
    }
}

/// Converts a return type.
#[verifier::external_body]
fn rust_output(o: &syn::ReturnType) -> (r: Option<String>) {
    match o {
        syn::ReturnType::Default => None,
        syn::ReturnType::Type(_, t) => Some(t.to_token_stream().to_string()),
    }
}

/// Converts a function signature.
#[verifier::external_body]
fn rust_sig(sig: &syn::Signature) -> (r: RustSig) {
    RustSig {
        name: sig.ident.to_string(),
        lines: span_lines(sig.span()),
        generics: sig.generics.params.iter().map(|p| p.to_token_stream().to_string()).collect(),
        inputs: sig.inputs.iter().map(rust_input).collect(),
        output: rust_output(&sig.output),
        is_async: sig.asyncness.is_some(),
    }
}

/// Converts a part of a function body: an item, or the items written in an
/// expression or a block.
#[verifier::external_body]
fn part_decl(p: SynPart) -> (r: RustDecl) {
    match p {
        SynPart::Item(i) => rust_decl(i),
        SynPart::Expr(e) => RustDecl::Nested(expr_parts(e).into_iter().map(part_decl).collect()),
        SynPart::Block(b) => RustDecl::Nested(rust_block(b)),
    }
}

/// Converts the statements of a block: each becomes the items written in it, at
/// any depth.
#[verifier::external_body]
fn rust_block(b: &syn::Block) -> (r: Vec<RustDecl>) {
    b.stmts.iter().map(|s| RustDecl::Nested(stmt_parts(s).into_iter().map(part_decl).collect())).collect()
}

/// The lines of a span: those of its start and of its end.
#[verifier::external_body]
fn span_lines(sp: proc_macro2::Span) -> (r: [usize; 2]) {
    [sp.start().line, sp.end().line]
}

/// Converts the head of a named item.
#[verifier::external_body]
fn rust_head(public: bool, ident: &proc_macro2::Ident, keyword: proc_macro2::Span, generics: &syn::Generics, attrs: &Vec<syn::Attribute>) -> (r: RustHead) {
    RustHead {
        public,
        name: ident.to_string(),
        name_lines: span_lines(ident.span()),
        keyword_lines: span_lines(keyword),
        generics: generics.params.iter().map(|p| p.to_token_stream().to_string()).collect(),
        attrs: rust_attrs(attrs),
    }
}

/// Converts the fields of a struct.
#[verifier::external_body]
fn rust_fields(s: &syn::ItemStruct) -> (r: Vec<RustField>) {
    s.fields.iter().map(|f| RustField {
        name: f.ident.as_ref().map(|i| i.to_string()),
        lines: span_lines(f.span()),
        ty: f.ty.to_token_stream().to_string(),
        public: matches!(f.vis, syn::Visibility::Public(_)),
    }).collect()
}

/// Converts the variants of an enum.
#[verifier::external_body]
fn rust_variants(e: &syn::ItemEnum) -> (r: Vec<(String, [usize; 2])>) {
    e.variants.iter().map(|v| (v.ident.to_string(), span_lines(v.span()))).collect()
}

/// Converts one item of an `impl` block: the items in a method's body.
#[verifier::external_body]
fn impl_nested(i: &syn::ImplItem) -> (r: RustDecl) {
    match i {
        syn::ImplItem::Fn(f) => RustDecl::Nested(rust_block(&f.block)),
        syn::ImplItem::Const(c) => part_decl(SynPart::Expr(&c.expr)),
        _ => RustDecl::Other,
    }
}

/// Converts one item of an `impl` block: a method with its visibility, signature
/// and attributes, or `Other`.
#[verifier::external_body]
fn impl_method(i: &syn::ImplItem) -> (r: RustImplItem) {
    match i {
        syn::ImplItem::Fn(f) => RustImplItem::Method(matches!(f.vis, syn::Visibility::Public(_)), rust_sig(&f.sig), rust_attrs(&f.attrs)),
        _ => RustImplItem::Other,
    }
}

/// Converts one item of a trait: the items in a default method body.
#[verifier::external_body]
fn trait_nested(i: &syn::TraitItem) -> (r: RustDecl) {
    match i {
        syn::TraitItem::Fn(f) => RustDecl::Nested(f.default.as_ref().map_or(Vec::new(), rust_block)),
        syn::TraitItem::Const(c) => RustDecl::Nested(c.default.iter().map(|d| part_decl(SynPart::Expr(&d.1))).collect()),
        _ => RustDecl::Other,
    }
}

/// Converts a function item.
#[verifier::external_body]
fn rust_fn(f: &syn::ItemFn) -> (r: RustDecl) {
    RustDecl::Fn(matches!(f.vis, syn::Visibility::Public(_)), rust_sig(&f.sig), rust_attrs(&f.attrs), rust_block(&f.block))
}

/// Converts a struct.
#[verifier::external_body]
fn rust_struct(s: &syn::ItemStruct) -> (r: RustDecl) {
    let public = matches!(s.vis, syn::Visibility::Public(_));
    RustDecl::Struct(rust_head(public, &s.ident, s.struct_token.span(), &s.generics, &s.attrs), rust_fields(s))
}

/// Converts an enum.
#[verifier::external_body]
fn rust_enum(e: &syn::ItemEnum) -> (r: RustDecl) {
    let public = matches!(e.vis, syn::Visibility::Public(_));
    RustDecl::Enum(rust_head(public, &e.ident, e.enum_token.span(), &e.generics, &e.attrs), rust_variants(e))
}

/// Converts a trait.
#[verifier::external_body]
fn rust_trait(t: &syn::ItemTrait) -> (r: RustDecl) {
    let public = matches!(t.vis, syn::Visibility::Public(_));
    let head = rust_head(public, &t.ident, t.trait_token.span(), &t.generics, &t.attrs);
    RustDecl::Trait(head, t.items.iter().map(trait_nested).collect())
}

/// Converts a type alias.
#[verifier::external_body]
fn rust_type(t: &syn::ItemType) -> (r: RustDecl) {
    let public = matches!(t.vis, syn::Visibility::Public(_));
    RustDecl::TypeAlias(rust_head(public, &t.ident, t.type_token.span(), &t.generics, &t.attrs), t.ty.to_token_stream().to_string())
}

/// Converts a constant.
#[verifier::external_body]
fn rust_const(c: &syn::ItemConst) -> (r: RustDecl) {
    let public = matches!(c.vis, syn::Visibility::Public(_));
    let head = rust_head(public, &c.ident, c.const_token.span(), &c.generics, &c.attrs);
    RustDecl::Const(head, c.ty.to_token_stream().to_string(), vec![part_decl(SynPart::Expr(&c.expr))])
}

/// Converts a static.
#[verifier::external_body]
fn rust_static(c: &syn::ItemStatic) -> (r: RustDecl) {
    let public = matches!(c.vis, syn::Visibility::Public(_));
    let head = rust_head(public, &c.ident, c.static_token.span(), &syn::Generics::default(), &c.attrs);
    RustDecl::Static(head, c.ty.to_token_stream().to_string(), vec![part_decl(SynPart::Expr(&c.expr))])
}

/// Converts an `impl` block: each of its items, as a method and as the items of
/// its body.
#[verifier::external_body]
fn rust_impl(b: &syn::ItemImpl) -> (r: RustDecl) {
    let methods = b.items.iter().map(impl_method).collect();
    RustDecl::Impl(b.self_ty.to_token_stream().to_string(), methods, b.items.iter().map(impl_nested).collect())
}

/// Converts a module: its inline items.
#[verifier::external_body]
fn rust_mod(m: &syn::ItemMod) -> (r: RustDecl) {
    RustDecl::Nested(m.content.as_ref().map_or(Vec::new(), |c| c.1.iter().map(rust_decl).collect()))
}

/// Converts one item.
#[verifier::external_body]
fn rust_decl(i: &syn::Item) -> (r: RustDecl) {
    match i {
        syn::Item::Fn(f) => rust_fn(f),
        syn::Item::Struct(s) => rust_struct(s),
        syn::Item::Enum(e) => rust_enum(e),
        syn::Item::Trait(t) => rust_trait(t),
        syn::Item::Type(t) => rust_type(t),
        syn::Item::Const(c) => rust_const(c),
        syn::Item::Static(c) => rust_static(c),
        syn::Item::Impl(b) => rust_impl(b),
        syn::Item::Mod(m) => rust_mod(m),
        _ => RustDecl::Other,
    }
}

/// The items that `syn::parse_file` reads in `source`, or its error message.
pub uninterp spec fn syn_decls(source: Seq<char>) -> Result<Seq<RustDecl>, Seq<char>>;

/// `syn::parse_file` on `source`: its items converted, with the items written
/// inside function bodies and initializers at any depth (not those inside types,
/// patterns or enum discriminants), or the text of its error. Lines come from
/// `proc_macro2` span locations. The parse itself is named, not stated.
#[verifier::external_body]
pub(crate) fn parse_rust_decls(source: &str) -> (r: Result<Vec<RustDecl>, String>)
    ensures
        match r {
            Ok(v) => syn_decls(source@) == Ok::<Seq<RustDecl>, Seq<char>>(v@),
            Err(m) => syn_decls(source@) == Err::<Seq<RustDecl>, Seq<char>>(m@),
        },
{
    match syn::parse_file(source) {
        Ok(f) => Ok(f.items.iter().map(rust_decl).collect()),
        Err(e) => Err(e.to_string()),
    }
}

} // verus!
