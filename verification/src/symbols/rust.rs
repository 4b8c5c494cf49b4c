//! The public symbols and the API of a Rust module, from its items.
use vstd::prelude::*;
use crate::parser::ParseError;
use crate::parser::rust::push_text;
use crate::symbols::{ApiContract, ApiExport, Param, Symbol, SymbolIndex, SymbolParam, Visibility};
use crate::symbols::rust_items::{RustAttr, RustDecl, RustImplItem, RustField, RustHead, RustInput, RustSig, parse_rust_decls, syn_decls};
use crate::symbols::typescript::{
    ExportSpec, Extracted, SymbolSpec, absorb, clone_strings, export_view, extracted_view, nothing, opt_view, param_view,
    plain_export, plain_symbol, push_export, push_symbol, single, symbol_id, symbol_id_exec, symbol_param_triple, symbol_param_view, no_defaults, lemma_no_defaults,
    symbol_view, symbol_views,
};
use crate::text::{chars_of, string_of, trim_chars, trim_spec, views};

verus! {

// ---------------------------------------------------------------------------
// Pieces
// ---------------------------------------------------------------------------

/// A doc comment: an attribute whose path is the name `doc`.
pub open spec fn is_doc(a: RustAttr) -> bool {
    a.ident matches Some(n) && n@ == "doc"@
}

fn is_doc_exec(a: &RustAttr) -> (r: bool)
    ensures
        r == is_doc(*a),
{
    match &a.ident {
        Some(n) => crate::naming::same_chars(&chars_of(n.as_str()), &chars_of("doc")),
        None => false,
    }
}

/// The doc lines of the attributes (the text of each doc comment set to a string),
/// each trimmed, in order.
pub open spec fn doc_lines(attrs: Seq<RustAttr>) -> Seq<Seq<char>>
    decreases attrs.len(),
{
    if attrs.len() == 0 {
        Seq::empty()
    } else {
        doc_lines(attrs.drop_last()) + match attrs.last().str_value {
            Some(t) => if is_doc(attrs.last()) {
                seq![trim_spec(t@)]
            } else {
                Seq::empty()
            },
            None => Seq::empty(),
        }
    }
}

/// Texts joined by `sep`.
pub open spec fn join(v: Seq<Seq<char>>, sep: Seq<char>) -> Seq<char>
    decreases v.len(),
{
    if v.len() == 0 {
        Seq::empty()
    } else if v.len() == 1 {
        v[0]
    } else {
        join(v.drop_last(), sep) + sep + v.last()
    }
}

/// The doc comment of an item: its doc lines joined by spaces, if it has any.
pub open spec fn doc_comment(attrs: Seq<RustAttr>) -> Option<Seq<char>> {
    if doc_lines(attrs).len() == 0 {
        None
    } else {
        Some(join(doc_lines(attrs), " "@))
    }
}

/// The attributes of an item other than its doc comments, written out.
pub open spec fn other_attrs(attrs: Seq<RustAttr>) -> Seq<Seq<char>>
    decreases attrs.len(),
{
    if attrs.len() == 0 {
        Seq::empty()
    } else {
        other_attrs(attrs.drop_last()) + if is_doc(attrs.last()) {
            Seq::empty()
        } else {
            seq![attrs.last().text@]
        }
    }
}

/// `<a, b>` for generic parameters, nothing when there are none.
pub open spec fn generics_text(g: Seq<String>) -> Seq<char> {
    if g.len() == 0 {
        Seq::empty()
    } else {
        "<"@ + join(views(g), ", "@) + ">"@
    }
}

pub open spec fn input_name(i: RustInput) -> Seq<char> {
    match i {
        RustInput::Receiver => "self"@,
        RustInput::Typed(Some(n), _) => n@,
        RustInput::Typed(None, _) => "_"@,
    }
}

/// An input written in a signature: `self`, or `name: type`.
pub open spec fn input_text(i: RustInput) -> Seq<char> {
    match i {
        RustInput::Receiver => "self"@,
        RustInput::Typed(_, t) => input_name(i) + ": "@ + t@,
    }
}

pub open spec fn inputs_text(v: Seq<RustInput>) -> Seq<char> {
    join(v.map_values(|i: RustInput| input_text(i)), ", "@)
}

/// The parameters of an export: `self` of type `Self` for the receiver.
pub open spec fn input_param(i: RustInput) -> (Seq<char>, Seq<char>, bool) {
    match i {
        RustInput::Receiver => ("self"@, "Self"@, false),
        RustInput::Typed(_, t) => (input_name(i), t@, false),
    }
}

/// The parameters of a symbol: the typed inputs only.
pub open spec fn symbol_params(v: Seq<RustInput>) -> Seq<(Seq<char>, Seq<char>, bool)>
    decreases v.len(),
{
    if v.len() == 0 {
        Seq::empty()
    } else {
        symbol_params(v.drop_last()) + match v.last() {
            RustInput::Receiver => Seq::empty(),
            RustInput::Typed(_, _) => seq![input_param(v.last())],
        }
    }
}

pub open spec fn fn_signature(s: RustSig) -> Seq<char> {
    "pub fn "@ + s.name@ + generics_text(s.generics@) + "("@ + inputs_text(s.inputs@) + ")"@ + match s.output {
        Some(t) => " -> "@ + t@,
        None => Seq::empty(),
    }
}

// ---------------------------------------------------------------------------
// What each item gives
// ---------------------------------------------------------------------------

pub open spec fn fn_out(module: Seq<char>, s: RustSig, attrs: Seq<RustAttr>) -> (Seq<SymbolSpec>, Seq<ExportSpec>) {
    (seq![SymbolSpec {
        signature: Some(fn_signature(s)),
        doc_comment: doc_comment(attrs),
        attributes: other_attrs(attrs),
        is_async: Some(s.is_async),
        return_type: opt_view(s.output),
        params: Some(no_defaults(symbol_params(s.inputs@))),
        ..plain_symbol(symbol_id(module, s.name@), s.name@, "function"@, s.lines@)
    }], seq![ExportSpec {
        generics: views(s.generics@),
        params: s.inputs@.map_values(|i: RustInput| input_param(i)),
        return_type: opt_view(s.output),
        description: doc_comment(attrs),
        ..plain_export(s.name@, "function"@, fn_signature(s), s.lines@)
    }])
}

/// The symbol and export of a named item of the given kind, signature and members.
pub open spec fn head_out(module: Seq<char>, h: RustHead, kind: Seq<char>, signature: Seq<char>, children: Seq<SymbolSpec>) -> (Seq<SymbolSpec>, Seq<ExportSpec>) {
    (seq![SymbolSpec {
        children,
        doc_comment: doc_comment(h.attrs@),
        attributes: other_attrs(h.attrs@),
        ..plain_symbol(symbol_id(module, h.name@), h.name@, kind, h.name_lines@)
    }], seq![ExportSpec {
        generics: views(h.generics@),
        description: doc_comment(h.attrs@),
        ..plain_export(h.name@, kind, signature, h.name_lines@)
    }])
}

/// The symbol and export of a constant or static of type `ty`.
pub open spec fn value_out(module: Seq<char>, h: RustHead, kind: Seq<char>, ty: Seq<char>) -> (Seq<SymbolSpec>, Seq<ExportSpec>) {
    (seq![SymbolSpec {
        signature: Some("pub "@ + kind + " "@ + h.name@ + ": "@ + ty),
        doc_comment: doc_comment(h.attrs@),
        attributes: other_attrs(h.attrs@),
        return_type: Some(ty),
        ..plain_symbol(symbol_id(module, h.name@), h.name@, kind, h.name_lines@)
    }], seq![ExportSpec {
        return_type: Some(ty),
        description: doc_comment(h.attrs@),
        ..plain_export(h.name@, kind, "pub "@ + kind + " "@ + h.name@ + ": "@ + ty, h.name_lines@)
    }])
}

/// The field symbols of a struct: its named fields, in order.
pub open spec fn field_symbols(id: Seq<char>, fs: Seq<RustField>) -> Seq<SymbolSpec>
    decreases fs.len(),
{
    if fs.len() == 0 {
        Seq::empty()
    } else {
        field_symbols(id, fs.drop_last()) + match fs.last().name {
            Some(n) => seq![SymbolSpec {
                return_type: Some(fs.last().ty@),
                ..plain_symbol(id + "."@ + n@, n@, "field"@, fs.last().lines@)
            }],
            None => Seq::empty(),
        }
    }
}

/// The variant symbols of an enum, in order.
pub open spec fn variant_symbols(id: Seq<char>, vs: Seq<(String, [usize; 2])>) -> Seq<SymbolSpec> {
    vs.map_values(|v: (String, [usize; 2])| plain_symbol(id + "::"@ + v.0@, v.0@, "variant"@, v.1@))
}

/// The public methods of an `impl` block: each gives a symbol and an export
/// named after the self type.
pub open spec fn methods_out(self_ty: Seq<char>, ms: Seq<RustImplItem>) -> (Seq<SymbolSpec>, Seq<ExportSpec>)
    decreases ms.len(),
{
    if ms.len() == 0 {
        (Seq::empty(), Seq::empty())
    } else {
        let a = methods_out(self_ty, ms.drop_last());
        match ms.last() {
            RustImplItem::Method(public, s, attrs) => if public {
            (a.0.push(SymbolSpec {
                signature: Some(fn_signature(s)),
                doc_comment: doc_comment(attrs@),
                attributes: other_attrs(attrs@),
                is_async: Some(s.is_async),
                return_type: opt_view(s.output),
                params: Some(no_defaults(symbol_params(s.inputs@))),
                ..plain_symbol(self_ty + "::impl:"@ + s.name@, s.name@, "method"@, s.lines@)
            }), a.1.push(ExportSpec {
                generics: views(s.generics@),
                params: s.inputs@.map_values(|i: RustInput| input_param(i)),
                return_type: opt_view(s.output),
                description: doc_comment(attrs@),
                ..plain_export(self_ty + "::"@ + s.name@, "method"@, fn_signature(s), s.lines@)
            }))
        } else {
            a
        },
            RustImplItem::Other => a,
        }
    }
}

pub open spec fn pair_add(a: (Seq<SymbolSpec>, Seq<ExportSpec>), b: (Seq<SymbolSpec>, Seq<ExportSpec>)) -> (Seq<SymbolSpec>, Seq<ExportSpec>) {
    (a.0 + b.0, a.1 + b.1)
}

pub open spec fn none_out() -> (Seq<SymbolSpec>, Seq<ExportSpec>) {
    (Seq::empty(), Seq::empty())
}

/// What an item gives: its own symbol and export when it is public (for an
/// `impl`, those of its public methods), then those of the items nested in it.
pub open spec fn decl_out(module: Seq<char>, d: RustDecl) -> (Seq<SymbolSpec>, Seq<ExportSpec>)
    decreases d,
{
    match d {
        RustDecl::Fn(public, s, attrs, nested) => pair_add(
            if public { fn_out(module, s, attrs@) } else { none_out() },
            decls_out(module, nested@),
        ),
        RustDecl::Struct(h, fs) => if h.public {
            head_out(module, h, "struct"@, "pub struct "@ + h.name@ + generics_text(h.generics@) + " { ... }"@,
                field_symbols(symbol_id(module, h.name@), fs@))
        } else {
            none_out()
        },
        RustDecl::Enum(h, vs) => if h.public {
            head_out(module, h, "enum"@, "pub enum "@ + h.name@ + generics_text(h.generics@) + " { ... }"@,
                variant_symbols(symbol_id(module, h.name@), vs@))
        } else {
            none_out()
        },
        RustDecl::Trait(h, nested) => pair_add(
            if h.public {
                head_out(module, h, "trait"@, "pub trait "@ + h.name@ + generics_text(h.generics@) + " { ... }"@, Seq::empty())
            } else {
                none_out()
            },
            decls_out(module, nested@),
        ),
        RustDecl::TypeAlias(h, ty) => if h.public {
            head_out(module, h, "type_alias"@, "pub type "@ + h.name@ + generics_text(h.generics@) + " = "@ + ty@, Seq::empty())
        } else {
            none_out()
        },
        RustDecl::Const(h, ty, nested) => pair_add(
            if h.public { value_out(module, h, "const"@, ty@) } else { none_out() },
            decls_out(module, nested@),
        ),
        RustDecl::Static(h, ty, nested) => pair_add(
            if h.public { value_out(module, h, "static"@, ty@) } else { none_out() },
            decls_out(module, nested@),
        ),
        RustDecl::Impl(self_ty, methods, nested) => pair_add(methods_out(self_ty@, methods@), decls_out(module, nested@)),
        RustDecl::Nested(v) => decls_out(module, v@),
        RustDecl::Other => none_out(),
    }
}

/// What a list of items gives, in order.
pub open spec fn decls_out(module: Seq<char>, v: Seq<RustDecl>) -> (Seq<SymbolSpec>, Seq<ExportSpec>)
    decreases v,
{
    if v.len() == 0 {
        none_out()
    } else {
        pair_add(decls_out(module, v.drop_last()), decl_out(module, v.last()))
    }
}

// ---------------------------------------------------------------------------
// Computing the pieces
// ---------------------------------------------------------------------------

fn clone_opt(o: &Option<String>) -> (r: Option<String>)
    ensures
        opt_view(r) == opt_view(*o),
{
    match o {
        Some(t) => Some(t.clone()),
        None => None,
    }
}

fn join_exec(v: &Vec<String>, sep: &str) -> (r: String)
    ensures
        r@ == join(views(v@), sep@),
{
    let mut out = String::from_str("");
    proof {
        reveal_strlit("");
    }
    let mut i: usize = 0;
    while i < v.len()
        invariant
            i <= v.len(),
            out@ == join(views(v@.subrange(0, i as int)), sep@),
        decreases v.len() - i,
    {
        proof {
            assert(views(v@.subrange(0, i + 1)).drop_last() =~= views(v@.subrange(0, i as int)));
            assert(views(v@.subrange(0, i + 1)).last() == v@[i as int]@);
        }
        if i > 0 {
            push_text(&mut out, sep);
        }
        push_text(&mut out, v[i].as_str());
        proof {
            if i == 0 {
                assert(out@ =~= join(views(v@.subrange(0, 1)), sep@));
            } else {
                assert(out@ =~= join(views(v@.subrange(0, i + 1)), sep@));
            }
        }
        i = i + 1;
    }
    proof {
        assert(v@.subrange(0, v.len() as int) =~= v@);
    }
    out
}

fn doc_comment_exec(attrs: &Vec<RustAttr>) -> (r: Option<String>)
    ensures
        opt_view(r) == doc_comment(attrs@),
{
    let mut lines: Vec<String> = Vec::new();
    let mut i: usize = 0;
    while i < attrs.len()
        invariant
            i <= attrs.len(),
            views(lines@) == doc_lines(attrs@.subrange(0, i as int)),
        decreases attrs.len() - i,
    {
        proof {
            assert(attrs@.subrange(0, i + 1).drop_last() =~= attrs@.subrange(0, i as int));
        }
        let ghost l0 = lines@;
        let doc = is_doc_exec(&attrs[i]);
        match &attrs[i].str_value {
            Some(t) => {
                if doc {
                    let trimmed = string_of(trim_chars(chars_of(t.as_str()).as_slice()).as_slice());
                    lines.push(trimmed);
                    proof {
                        assert(views(lines@) =~= views(l0).push(trimmed@));
                    }
                }
            },
            None => {},
        }
        proof {
            assert(views(lines@) =~= doc_lines(attrs@.subrange(0, i + 1)));
        }
        i = i + 1;
    }
    proof {
        assert(attrs@.subrange(0, attrs.len() as int) =~= attrs@);
    }
    if lines.len() == 0 {
        None
    } else {
        Some(join_exec(&lines, " "))
    }
}

fn other_attrs_exec(attrs: &Vec<RustAttr>) -> (r: Vec<String>)
    ensures
        views(r@) == other_attrs(attrs@),
{
    let mut out: Vec<String> = Vec::new();
    let mut i: usize = 0;
    while i < attrs.len()
        invariant
            i <= attrs.len(),
            views(out@) == other_attrs(attrs@.subrange(0, i as int)),
        decreases attrs.len() - i,
    {
        proof {
            assert(attrs@.subrange(0, i + 1).drop_last() =~= attrs@.subrange(0, i as int));
        }
        let ghost o0 = out@;
        if !is_doc_exec(&attrs[i]) {
            let t = attrs[i].text.clone();
            out.push(t);
            proof {
                assert(views(out@) =~= views(o0).push(attrs@[i as int].text@));
            }
        }
        proof {
            assert(views(out@) =~= other_attrs(attrs@.subrange(0, i + 1)));
        }
        i = i + 1;
    }
    proof {
        assert(attrs@.subrange(0, attrs.len() as int) =~= attrs@);
    }
    out
}

fn generics_text_exec(g: &Vec<String>) -> (r: String)
    ensures
        r@ == generics_text(g@),
{
    if g.len() == 0 {
        proof {
            reveal_strlit("");
        }
        String::from_str("")
    } else {
        let mut r = String::from_str("<");
        let inner = join_exec(g, ", ");
        push_text(&mut r, inner.as_str());
        push_text(&mut r, ">");
        r
    }
}

fn input_name_exec(i: &RustInput) -> (r: String)
    ensures
        r@ == input_name(*i),
{
    match i {
        RustInput::Receiver => String::from_str("self"),
        RustInput::Typed(Some(n), _) => n.clone(),
        RustInput::Typed(None, _) => String::from_str("_"),
    }
}

fn inputs_text_exec(v: &Vec<RustInput>) -> (r: String)
    ensures
        r@ == inputs_text(v@),
{
    let mut texts: Vec<String> = Vec::new();
    let mut i: usize = 0;
    while i < v.len()
        invariant
            i <= v.len(),
            views(texts@) == v@.subrange(0, i as int).map_values(|x: RustInput| input_text(x)),
        decreases v.len() - i,
    {
        let t = match &v[i] {
            RustInput::Receiver => String::from_str("self"),
            RustInput::Typed(_, ty) => {
                let mut t = input_name_exec(&v[i]);
                push_text(&mut t, ": ");
                push_text(&mut t, ty.as_str());
                t
            },
        };
        let ghost t0 = texts@;
        texts.push(t);
        proof {
            assert(views(texts@) =~= views(t0).push(t@));
            assert(v@.subrange(0, i + 1).map_values(|x: RustInput| input_text(x))
                =~= v@.subrange(0, i as int).map_values(|x: RustInput| input_text(x)).push(input_text(v@[i as int])));
        }
        i = i + 1;
    }
    proof {
        assert(v@.subrange(0, v.len() as int) =~= v@);
    }
    join_exec(&texts, ", ")
}

fn export_params_exec(v: &Vec<RustInput>) -> (r: Vec<Param>)
    ensures
        r@.map_values(|p: Param| param_view(p)) == v@.map_values(|i: RustInput| input_param(i)),
{
    let mut out: Vec<Param> = Vec::new();
    let mut i: usize = 0;
    while i < v.len()
        invariant
            i <= v.len(),
            out@.map_values(|p: Param| param_view(p)) == v@.subrange(0, i as int).map_values(|x: RustInput| input_param(x)),
        decreases v.len() - i,
    {
        let p = match &v[i] {
            RustInput::Receiver => Param { name: String::from_str("self"), ty: String::from_str("Self"), optional: false },
            RustInput::Typed(_, ty) => Param { name: input_name_exec(&v[i]), ty: ty.clone(), optional: false },
        };
        let ghost o0 = out@;
        out.push(p);
        proof {
            assert(out@.map_values(|p: Param| param_view(p)) =~= o0.map_values(|p: Param| param_view(p)).push(param_view(p)));
            assert(v@.subrange(0, i + 1).map_values(|x: RustInput| input_param(x))
                =~= v@.subrange(0, i as int).map_values(|x: RustInput| input_param(x)).push(input_param(v@[i as int])));
        }
        i = i + 1;
    }
    proof {
        assert(v@.subrange(0, v.len() as int) =~= v@);
    }
    out
}

fn symbol_params_exec(v: &Vec<RustInput>) -> (r: Vec<SymbolParam>)
    ensures
        r@.map_values(|p: SymbolParam| symbol_param_triple(p)) == symbol_params(v@),
        r@.map_values(|p: SymbolParam| symbol_param_view(p)) == no_defaults(symbol_params(v@)),
        forall|i: int| 0 <= i < r@.len() ==> (#[trigger] r@[i]).default_value is None,
{
    let mut out: Vec<SymbolParam> = Vec::new();
    let mut i: usize = 0;
    while i < v.len()
        invariant
            i <= v.len(),
            out@.map_values(|p: SymbolParam| symbol_param_triple(p)) == symbol_params(v@.subrange(0, i as int)),
            forall|j: int| 0 <= j < out@.len() ==> (#[trigger] out@[j]).default_value is None,
        decreases v.len() - i,
    {
        proof {
            assert(v@.subrange(0, i + 1).drop_last() =~= v@.subrange(0, i as int));
        }
        let ghost o0 = out@;
        match &v[i] {
            RustInput::Receiver => {},
            RustInput::Typed(_, ty) => {
                let p = SymbolParam { name: input_name_exec(&v[i]), ty: ty.clone(), optional: false, default_value: None };
                out.push(p);
                proof {
                    assert(out@.map_values(|p: SymbolParam| symbol_param_triple(p)) =~= o0.map_values(|p: SymbolParam| symbol_param_triple(p)).push(symbol_param_triple(p)));
                }
            },
        }
        proof {
            assert(out@.map_values(|p: SymbolParam| symbol_param_triple(p)) =~= symbol_params(v@.subrange(0, i + 1)));
        }
        i = i + 1;
    }
    proof {
        assert(v@.subrange(0, v.len() as int) =~= v@);
        lemma_no_defaults(out@, symbol_params(v@));
    }
    out
}

fn fn_signature_exec(s: &RustSig) -> (r: String)
    ensures
        r@ == fn_signature(*s),
{
    let mut r = String::from_str("pub fn ");
    push_text(&mut r, s.name.as_str());
    let g = generics_text_exec(&s.generics);
    push_text(&mut r, g.as_str());
    push_text(&mut r, "(");
    let ins = inputs_text_exec(&s.inputs);
    push_text(&mut r, ins.as_str());
    push_text(&mut r, ")");
    match &s.output {
        Some(t) => {
            push_text(&mut r, " -> ");
            push_text(&mut r, t.as_str());
        },
        None => {},
    }
    proof {
        reveal_strlit("");
        assert(r@ =~= fn_signature(*s));
    }
    r
}

// ---------------------------------------------------------------------------
// Building the symbols and exports
// ---------------------------------------------------------------------------

fn emit_fn(module: &str, s: &RustSig, attrs: &Vec<RustAttr>) -> (r: Extracted)
    ensures
        extracted_view(r) == fn_out(module@, *s, attrs@),
{
    let sig = fn_signature_exec(s);
    let sym = Symbol {
        id: symbol_id_exec(module, s.name.as_str()),
        name: s.name.clone(),
        kind: String::from_str("function"),
        line_range: s.lines,
        children: Vec::new(),
        partial_analysis: false,
        partial_reason: None,
        visibility: Some(Visibility::Public),
        value: None,
        signature: Some(sig.clone()),
        doc_comment: doc_comment_exec(attrs),
        attributes: other_attrs_exec(attrs),
        is_async: Some(s.is_async),
        return_type: clone_opt(&s.output),
        params: Some(symbol_params_exec(&s.inputs)),
    };
    proof {
        assert(symbol_views(sym.children@) =~= Seq::<SymbolSpec>::empty());
    }
    let e = ApiExport {
        name: s.name.clone(),
        kind: String::from_str("function"),
        generics: clone_strings(&s.generics),
        signature: sig,
        params: export_params_exec(&s.inputs),
        return_type: clone_opt(&s.output),
        description: doc_comment_exec(attrs),
        line_range: s.lines,
        partial_analysis: false,
    };
    let r = single(sym, Some(e));
    proof {
        assert(extracted_view(r).0 =~= fn_out(module@, *s, attrs@).0);
        assert(extracted_view(r).1 =~= fn_out(module@, *s, attrs@).1);
    }
    r
}

fn emit_head(module: &str, h: &RustHead, kind: &str, signature: String, children: Vec<Symbol>) -> (r: Extracted)
    ensures
        extracted_view(r) == head_out(module@, *h, kind@, signature@, symbol_views(children@)),
{
    let doc = doc_comment_exec(&h.attrs);
    let sym = Symbol {
        id: symbol_id_exec(module, h.name.as_str()),
        name: h.name.clone(),
        kind: String::from_str(kind),
        line_range: h.name_lines,
        children,
        partial_analysis: false,
        partial_reason: None,
        visibility: Some(Visibility::Public),
        value: None,
        signature: None,
        doc_comment: clone_opt(&doc),
        attributes: other_attrs_exec(&h.attrs),
        is_async: None,
        return_type: None,
        params: None,
    };
    let e = ApiExport {
        name: h.name.clone(),
        kind: String::from_str(kind),
        generics: clone_strings(&h.generics),
        signature,
        params: Vec::new(),
        return_type: None,
        description: doc,
        line_range: h.name_lines,
        partial_analysis: false,
    };
    proof {
        assert(e.params@.map_values(|p: Param| param_view(p)) =~= Seq::<(Seq<char>, Seq<char>, bool)>::empty());
    }
    let r = single(sym, Some(e));
    proof {
        assert(extracted_view(r).0 =~= head_out(module@, *h, kind@, signature@, symbol_views(children@)).0);
        assert(extracted_view(r).1 =~= head_out(module@, *h, kind@, signature@, symbol_views(children@)).1);
    }
    r
}

fn emit_value(module: &str, h: &RustHead, kind: &str, ty: &String) -> (r: Extracted)
    ensures
        extracted_view(r) == value_out(module@, *h, kind@, ty@),
{
    let mut sig = String::from_str("pub ");
    push_text(&mut sig, kind);
    push_text(&mut sig, " ");
    push_text(&mut sig, h.name.as_str());
    push_text(&mut sig, ": ");
    push_text(&mut sig, ty.as_str());
    let doc = doc_comment_exec(&h.attrs);
    let sym = Symbol {
        id: symbol_id_exec(module, h.name.as_str()),
        name: h.name.clone(),
        kind: String::from_str(kind),
        line_range: h.name_lines,
        children: Vec::new(),
        partial_analysis: false,
        partial_reason: None,
        visibility: Some(Visibility::Public),
        value: None,
        signature: Some(sig.clone()),
        doc_comment: clone_opt(&doc),
        attributes: other_attrs_exec(&h.attrs),
        is_async: None,
        return_type: Some(ty.clone()),
        params: None,
    };
    proof {
        assert(symbol_views(sym.children@) =~= Seq::<SymbolSpec>::empty());
    }
    let e = ApiExport {
        name: h.name.clone(),
        kind: String::from_str(kind),
        generics: Vec::new(),
        signature: sig,
        params: Vec::new(),
        return_type: Some(ty.clone()),
        description: doc,
        line_range: h.name_lines,
        partial_analysis: false,
    };
    proof {
        assert(e.params@.map_values(|p: Param| param_view(p)) =~= Seq::<(Seq<char>, Seq<char>, bool)>::empty());
        assert(views(e.generics@) =~= Seq::<Seq<char>>::empty());
    }
    let r = single(sym, Some(e));
    proof {
        assert(extracted_view(r).0 =~= value_out(module@, *h, kind@, ty@).0);
        assert(extracted_view(r).1 =~= value_out(module@, *h, kind@, ty@).1);
    }
    r
}

fn field_symbols_exec(id: &String, fs: &Vec<RustField>) -> (r: Vec<Symbol>)
    ensures
        symbol_views(r@) == field_symbols(id@, fs@),
{
    let mut out: Vec<Symbol> = Vec::new();
    let mut i: usize = 0;
    while i < fs.len()
        invariant
            i <= fs.len(),
            symbol_views(out@) == field_symbols(id@, fs@.subrange(0, i as int)),
        decreases fs.len() - i,
    {
        proof {
            assert(fs@.subrange(0, i + 1).drop_last() =~= fs@.subrange(0, i as int));
            assert(fs@.subrange(0, i + 1).last() == fs@[i as int]);
        }
        match &fs[i].name {
            Some(n) => {
                let mut fid = id.clone();
                push_text(&mut fid, ".");
                push_text(&mut fid, n.as_str());
                let sym = Symbol {
                    id: fid,
                    name: n.clone(),
                    kind: String::from_str("field"),
                    line_range: fs[i].lines,
                    children: Vec::new(),
                    partial_analysis: false,
                    partial_reason: None,
                    visibility: Some(Visibility::Public),
                    value: None,
                    signature: None,
                    doc_comment: None,
                    attributes: Vec::new(),
                    is_async: None,
                    return_type: Some(fs[i].ty.clone()),
                    params: None,
                };
                proof {
                    assert(symbol_views(sym.children@) =~= Seq::<SymbolSpec>::empty());
                    assert(views(sym.attributes@) =~= Seq::<Seq<char>>::empty());
                }
                push_symbol(&mut out, sym);
            },
            None => {},
        }
        proof {
            assert(symbol_views(out@) =~= field_symbols(id@, fs@.subrange(0, i + 1)));
        }
        i = i + 1;
    }
    proof {
        assert(fs@.subrange(0, fs.len() as int) =~= fs@);
    }
    out
}

fn variant_symbols_exec(id: &String, vs: &Vec<(String, [usize; 2])>) -> (r: Vec<Symbol>)
    ensures
        symbol_views(r@) == variant_symbols(id@, vs@),
{
    let mut out: Vec<Symbol> = Vec::new();
    let mut i: usize = 0;
    while i < vs.len()
        invariant
            i <= vs.len(),
            symbol_views(out@) == variant_symbols(id@, vs@.subrange(0, i as int)),
        decreases vs.len() - i,
    {
        let mut vid = id.clone();
        push_text(&mut vid, "::");
        push_text(&mut vid, vs[i].0.as_str());
        let sym = Symbol {
            id: vid,
            name: vs[i].0.clone(),
            kind: String::from_str("variant"),
            line_range: vs[i].1,
            children: Vec::new(),
            partial_analysis: false,
            partial_reason: None,
            visibility: Some(Visibility::Public),
            value: None,
            signature: None,
            doc_comment: None,
            attributes: Vec::new(),
            is_async: None,
            return_type: None,
            params: None,
        };
        proof {
            assert(symbol_views(sym.children@) =~= Seq::<SymbolSpec>::empty());
            assert(views(sym.attributes@) =~= Seq::<Seq<char>>::empty());
        }
        push_symbol(&mut out, sym);
        proof {
            assert(variant_symbols(id@, vs@.subrange(0, i + 1)) =~= variant_symbols(id@, vs@.subrange(0, i as int)).push(
                plain_symbol(id@ + "::"@ + vs@[i as int].0@, vs@[i as int].0@, "variant"@, vs@[i as int].1@)));
            assert(symbol_views(out@) =~= variant_symbols(id@, vs@.subrange(0, i + 1)));
        }
        i = i + 1;
    }
    proof {
        assert(vs@.subrange(0, vs.len() as int) =~= vs@);
    }
    out
}

fn emit_methods(self_ty: &String, ms: &Vec<RustImplItem>) -> (r: Extracted)
    ensures
        extracted_view(r) == methods_out(self_ty@, ms@),
{
    let mut out = nothing();
    let mut i: usize = 0;
    proof {
        assert(ms@.subrange(0, 0) =~= Seq::<RustImplItem>::empty());
    }
    while i < ms.len()
        invariant
            i <= ms.len(),
            extracted_view(out) == methods_out(self_ty@, ms@.subrange(0, i as int)),
        decreases ms.len() - i,
    {
        proof {
            assert(ms@.subrange(0, i + 1).drop_last() =~= ms@.subrange(0, i as int));
            assert(ms@.subrange(0, i + 1).last() == ms@[i as int]);
        }
        let (public, s, attrs) = match &ms[i] {
            RustImplItem::Method(p, s, a) => (*p, s, a),
            RustImplItem::Other => {
                i = i + 1;
                continue;
            },
        };
        if public {
            let sig = fn_signature_exec(s);
            let mut id = self_ty.clone();
            push_text(&mut id, "::impl:");
            push_text(&mut id, s.name.as_str());
            let sym = Symbol {
                id,
                name: s.name.clone(),
                kind: String::from_str("method"),
                line_range: s.lines,
                children: Vec::new(),
                partial_analysis: false,
                partial_reason: None,
                visibility: Some(Visibility::Public),
                value: None,
                signature: Some(sig.clone()),
                doc_comment: doc_comment_exec(attrs),
                attributes: other_attrs_exec(attrs),
                is_async: Some(s.is_async),
                return_type: clone_opt(&s.output),
                params: Some(symbol_params_exec(&s.inputs)),
            };
            proof {
                assert(symbol_views(sym.children@) =~= Seq::<SymbolSpec>::empty());
            }
            let mut ename = self_ty.clone();
            push_text(&mut ename, "::");
            push_text(&mut ename, s.name.as_str());
            let e = ApiExport {
                name: ename,
                kind: String::from_str("method"),
                generics: clone_strings(&s.generics),
                signature: sig,
                params: export_params_exec(&s.inputs),
                return_type: clone_opt(&s.output),
                description: doc_comment_exec(attrs),
                line_range: s.lines,
                partial_analysis: false,
            };
            let ghost o0 = extracted_view(out);
            push_symbol(&mut out.symbols, sym);
            push_export(&mut out.exports, e);
            proof {
                assert(extracted_view(out).0 =~= methods_out(self_ty@, ms@.subrange(0, i + 1)).0);
                assert(extracted_view(out).1 =~= methods_out(self_ty@, ms@.subrange(0, i + 1)).1);
            }
        }
        i = i + 1;
    }
    proof {
        assert(ms@.subrange(0, ms.len() as int) =~= ms@);
    }
    out
}

fn emit_decl(module: &str, d: &RustDecl) -> (r: Extracted)
    ensures
        extracted_view(r) == decl_out(module@, *d),
    decreases d,
{
    match d {
        RustDecl::Fn(public, s, attrs, nested) => {
            let mut r = if *public { emit_fn(module, s, attrs) } else { nothing() };
            let rest = emit_decls(module, nested);
            absorb(&mut r, rest);
            r
        },
        RustDecl::Struct(h, fs) => {
            if h.public {
                let mut sig = String::from_str("pub struct ");
                push_text(&mut sig, h.name.as_str());
                let g = generics_text_exec(&h.generics);
                push_text(&mut sig, g.as_str());
                push_text(&mut sig, " { ... }");
                let id = symbol_id_exec(module, h.name.as_str());
                let children = field_symbols_exec(&id, fs);
                emit_head(module, h, "struct", sig, children)
            } else {
                nothing()
            }
        },
        RustDecl::Enum(h, vs) => {
            if h.public {
                let mut sig = String::from_str("pub enum ");
                push_text(&mut sig, h.name.as_str());
                let g = generics_text_exec(&h.generics);
                push_text(&mut sig, g.as_str());
                push_text(&mut sig, " { ... }");
                let id = symbol_id_exec(module, h.name.as_str());
                let children = variant_symbols_exec(&id, vs);
                emit_head(module, h, "enum", sig, children)
            } else {
                nothing()
            }
        },
        RustDecl::Trait(h, nested) => {
            let mut r = if h.public {
                let mut sig = String::from_str("pub trait ");
                push_text(&mut sig, h.name.as_str());
                let g = generics_text_exec(&h.generics);
                push_text(&mut sig, g.as_str());
                push_text(&mut sig, " { ... }");
                let children: Vec<Symbol> = Vec::new();
                proof {
                    assert(symbol_views(children@) =~= Seq::<SymbolSpec>::empty());
                }
                emit_head(module, h, "trait", sig, children)
            } else {
                nothing()
            };
            let rest = emit_decls(module, nested);
            absorb(&mut r, rest);
            r
        },
        RustDecl::TypeAlias(h, ty) => {
            if h.public {
                let mut sig = String::from_str("pub type ");
                push_text(&mut sig, h.name.as_str());
                let g = generics_text_exec(&h.generics);
                push_text(&mut sig, g.as_str());
                push_text(&mut sig, " = ");
                push_text(&mut sig, ty.as_str());
                let children: Vec<Symbol> = Vec::new();
                proof {
                    assert(symbol_views(children@) =~= Seq::<SymbolSpec>::empty());
                }
                emit_head(module, h, "type_alias", sig, children)
            } else {
                nothing()
            }
        },
        RustDecl::Const(h, ty, nested) => {
            let mut r = if h.public { emit_value(module, h, "const", ty) } else { nothing() };
            let rest = emit_decls(module, nested);
            absorb(&mut r, rest);
            r
        },
        RustDecl::Static(h, ty, nested) => {
            let mut r = if h.public { emit_value(module, h, "static", ty) } else { nothing() };
            let rest = emit_decls(module, nested);
            absorb(&mut r, rest);
            r
        },
        RustDecl::Impl(self_ty, methods, nested) => {
            let mut r = emit_methods(self_ty, methods);
            let rest = emit_decls(module, nested);
            absorb(&mut r, rest);
            r
        },
        RustDecl::Nested(v) => emit_decls(module, v),
        RustDecl::Other => nothing(),
    }
}

fn emit_decls(module: &str, v: &Vec<RustDecl>) -> (r: Extracted)
    ensures
        extracted_view(r) == decls_out(module@, v@),
    decreases v,
{
    let mut out = nothing();
    let mut i: usize = 0;
    proof {
        assert(v@.subrange(0, 0) =~= Seq::<RustDecl>::empty());
    }
    while i < v.len()
        invariant
            i <= v.len(),
            extracted_view(out) == decls_out(module@, v@.subrange(0, i as int)),
        decreases v.len() - i,
    {
        proof {
            assert(v@.subrange(0, i + 1).drop_last() =~= v@.subrange(0, i as int));
            assert(v@.subrange(0, i + 1).last() == v@[i as int]);
            assert(decreases_to!(*v => v@[i as int]));
        }
        let one = emit_decl(module, &v[i]);
        absorb(&mut out, one);
        i = i + 1;
    }
    proof {
        assert(v@.subrange(0, v.len() as int) =~= v@);
    }
    out
}

/// The public symbols and the API of Rust source, in the order the items are
/// written: each public function, struct (with its named fields), enum (with
/// its variants), trait, type alias, constant and static, and each public method
/// of an `impl` (named after the self type), then what is nested in each item.
/// Source that `syn` cannot parse gives its error.
pub fn extract(module: &str, source: &str) -> (r: Result<(SymbolIndex, ApiContract), ParseError>)
    ensures
        match syn_decls(source@) {
            Ok(items) => r matches Ok(x) && {
                &&& x.0.module@ == module@
                &&& x.1.module@ == module@
                &&& symbol_views(x.0.symbols@) == decls_out(module@, items).0
                &&& x.1.exports@.map_values(|e: ApiExport| export_view(e)) == decls_out(module@, items).1
            },
            Err(msg) => r matches Err(e) && e.message@ == msg,
        },
{
    match parse_rust_decls(source) {
        Ok(items) => {
            let out = emit_decls(module, &items);
            Ok((
                SymbolIndex { module: String::from_str(module), symbols: out.symbols },
                ApiContract { module: String::from_str(module), exports: out.exports },
            ))
        },
        Err(m) => Err(ParseError { message: m }),
    }
}

// ---------------------------------------------------------------------------
// The single-reading variant
// ---------------------------------------------------------------------------

/// The field symbols of a struct in a single reading: every field, named or not
/// (an unnamed one has the empty name), public or private as declared.
pub open spec fn all_field_symbols(id: Seq<char>, fs: Seq<RustField>) -> Seq<SymbolSpec> {
    fs.map_values(|f: RustField| SymbolSpec {
        visibility: if f.public { Some(Visibility::Public) } else { Some(Visibility::Private) },
        ..plain_symbol(id + ":"@ + match f.name { Some(n) => n@, None => Seq::<char>::empty() }, match f.name {
            Some(n) => n@,
            None => Seq::<char>::empty(),
        }, "field"@, f.lines@)
    })
}

/// The symbols that a single reading of a Rust file records for an item: a
/// public function (its body is not entered), a public struct with all its
/// fields, a public enum or trait (each at the line of its keyword); the items
/// in private function bodies, `impl` blocks, constant and static values and
/// inline modules.
pub open spec fn unified_decl(module: Seq<char>, d: RustDecl) -> Seq<SymbolSpec>
    decreases d,
{
    match d {
        RustDecl::Fn(public, s, _, nested) => if public {
            seq![SymbolSpec {
                signature: Some(fn_signature(s)),
                is_async: Some(s.is_async),
                return_type: opt_view(s.output),
                params: Some(no_defaults(s.inputs@.map_values(|i: RustInput| input_param(i)))),
                ..plain_symbol(symbol_id(module, s.name@), s.name@, "function"@, s.lines@)
            }]
        } else {
            unified_decls(module, nested@)
        },
        RustDecl::Struct(h, fs) => if h.public {
            seq![SymbolSpec {
                children: all_field_symbols(symbol_id(module, h.name@), fs@),
                ..plain_symbol(symbol_id(module, h.name@), h.name@, "struct"@, h.keyword_lines@)
            }]
        } else {
            Seq::empty()
        },
        RustDecl::Enum(h, _) => if h.public {
            seq![plain_symbol(symbol_id(module, h.name@), h.name@, "enum"@, h.keyword_lines@)]
        } else {
            Seq::empty()
        },
        RustDecl::Trait(h, _) => if h.public {
            seq![plain_symbol(symbol_id(module, h.name@), h.name@, "trait"@, h.keyword_lines@)]
        } else {
            Seq::empty()
        },
        RustDecl::Impl(_, _, nested) => unified_decls(module, nested@),
        RustDecl::Const(_, _, nested) => unified_decls(module, nested@),
        RustDecl::Static(_, _, nested) => unified_decls(module, nested@),
        RustDecl::Nested(v) => unified_decls(module, v@),
        _ => Seq::empty(),
    }
}

pub open spec fn unified_decls(module: Seq<char>, v: Seq<RustDecl>) -> Seq<SymbolSpec>
    decreases v,
{
    if v.len() == 0 {
        Seq::empty()
    } else {
        unified_decls(module, v.drop_last()) + unified_decl(module, v.last())
    }
}

fn all_field_symbols_exec(id: &String, fs: &Vec<RustField>) -> (r: Vec<Symbol>)
    ensures
        symbol_views(r@) == all_field_symbols(id@, fs@),
{
    let mut out: Vec<Symbol> = Vec::new();
    let mut i: usize = 0;
    while i < fs.len()
        invariant
            i <= fs.len(),
            symbol_views(out@) == all_field_symbols(id@, fs@.subrange(0, i as int)),
        decreases fs.len() - i,
    {
        let name = match &fs[i].name {
            Some(n) => n.clone(),
            None => {
                proof {
                    reveal_strlit("");
                }
                String::from_str("")
            },
        };
        proof {
            reveal_strlit("");
            assert(name@ == match fs@[i as int].name {
                Some(n) => n@,
                None => Seq::<char>::empty(),
            });
        }
        let mut fid = id.clone();
        push_text(&mut fid, ":");
        push_text(&mut fid, name.as_str());
        let sym = Symbol {
            id: fid,
            name,
            kind: String::from_str("field"),
            line_range: fs[i].lines,
            children: Vec::new(),
            partial_analysis: false,
            partial_reason: None,
            visibility: if fs[i].public { Some(Visibility::Public) } else { Some(Visibility::Private) },
            value: None,
            signature: None,
            doc_comment: None,
            attributes: Vec::new(),
            is_async: None,
            return_type: None,
            params: None,
        };
        proof {
            assert(symbol_views(sym.children@) =~= Seq::<SymbolSpec>::empty());
            assert(views(sym.attributes@) =~= Seq::<Seq<char>>::empty());
        }
        push_symbol(&mut out, sym);
        proof {
            let f = fs@[i as int];
            assert(fs@.subrange(0, i + 1) =~= fs@.subrange(0, i as int).push(f));
            assert(all_field_symbols(id@, fs@.subrange(0, i + 1)) =~= all_field_symbols(id@, fs@.subrange(0, i as int)).push(
                all_field_symbols(id@, seq![f])[0]));
            assert(symbol_view(sym) == all_field_symbols(id@, seq![f])[0]);
            assert(symbol_views(out@) =~= all_field_symbols(id@, fs@.subrange(0, i + 1)));
        }
        i = i + 1;
    }
    proof {
        assert(fs@.subrange(0, fs.len() as int) =~= fs@);
    }
    out
}

fn plain_keyword_symbol(module: &str, h: &RustHead, kind: &str, children: Vec<Symbol>) -> (r: Symbol)
    ensures
        symbol_view(r) == (SymbolSpec {
            children: symbol_views(children@),
            ..plain_symbol(symbol_id(module@, h.name@), h.name@, kind@, h.keyword_lines@)
        }),
{
    let r = Symbol {
        id: symbol_id_exec(module, h.name.as_str()),
        name: h.name.clone(),
        kind: String::from_str(kind),
        line_range: h.keyword_lines,
        children,
        partial_analysis: false,
        partial_reason: None,
        visibility: Some(Visibility::Public),
        value: None,
        signature: None,
        doc_comment: None,
        attributes: Vec::new(),
        is_async: None,
        return_type: None,
        params: None,
    };
    proof {
        assert(views(r.attributes@) =~= Seq::<Seq<char>>::empty());
    }
    r
}

fn unified_decl_exec(module: &str, d: &RustDecl, out: &mut Vec<Symbol>)
    ensures
        symbol_views(final(out)@) == symbol_views(old(out)@) + unified_decl(module@, *d),
    decreases d,
{
    let ghost o0 = symbol_views(out@);
    match d {
        RustDecl::Fn(public, s, _, nested) => {
            if *public {
                let sym = Symbol {
                    id: symbol_id_exec(module, s.name.as_str()),
                    name: s.name.clone(),
                    kind: String::from_str("function"),
                    line_range: s.lines,
                    children: Vec::new(),
                    partial_analysis: false,
                    partial_reason: None,
                    visibility: Some(Visibility::Public),
                    value: None,
                    signature: Some(fn_signature_exec(s)),
                    doc_comment: None,
                    attributes: Vec::new(),
                    is_async: Some(s.is_async),
                    return_type: clone_opt(&s.output),
                    params: Some(receiver_params_exec(&s.inputs)),
                };
                proof {
                    assert(symbol_views(sym.children@) =~= Seq::<SymbolSpec>::empty());
                    assert(views(sym.attributes@) =~= Seq::<Seq<char>>::empty());
                }
                push_symbol(out, sym);
                proof {
                    assert(symbol_views(out@) =~= o0 + unified_decl(module@, *d));
                }
            } else {
                unified_decls_exec(module, nested, out);
            }
        },
        RustDecl::Struct(h, fs) => {
            if h.public {
                let id = symbol_id_exec(module, h.name.as_str());
                let children = all_field_symbols_exec(&id, fs);
                let sym = plain_keyword_symbol(module, h, "struct", children);
                push_symbol(out, sym);
                proof {
                    assert(symbol_views(out@) =~= o0 + unified_decl(module@, *d));
                }
            } else {
                proof {
                    assert(o0 + unified_decl(module@, *d) =~= o0);
                }
            }
        },
        RustDecl::Enum(h, _) => {
            if h.public {
                let children: Vec<Symbol> = Vec::new();
                proof {
                    assert(symbol_views(children@) =~= Seq::<SymbolSpec>::empty());
                }
                let sym = plain_keyword_symbol(module, h, "enum", children);
                push_symbol(out, sym);
                proof {
                    assert(symbol_views(out@) =~= o0 + unified_decl(module@, *d));
                }
            } else {
                proof {
                    assert(o0 + unified_decl(module@, *d) =~= o0);
                }
            }
        },
        RustDecl::Trait(h, _) => {
            if h.public {
                let children: Vec<Symbol> = Vec::new();
                proof {
                    assert(symbol_views(children@) =~= Seq::<SymbolSpec>::empty());
                }
                let sym = plain_keyword_symbol(module, h, "trait", children);
                push_symbol(out, sym);
                proof {
                    assert(symbol_views(out@) =~= o0 + unified_decl(module@, *d));
                }
            } else {
                proof {
                    assert(o0 + unified_decl(module@, *d) =~= o0);
                }
            }
        },
        RustDecl::Impl(_, _, nested) => {
            unified_decls_exec(module, nested, out);
        },
        RustDecl::Const(_, _, nested) => {
            unified_decls_exec(module, nested, out);
        },
        RustDecl::Static(_, _, nested) => {
            unified_decls_exec(module, nested, out);
        },
        RustDecl::Nested(v) => {
            unified_decls_exec(module, v, out);
        },
        _ => {
            proof {
                assert(o0 + unified_decl(module@, *d) =~= o0);
            }
        },
    }
}

fn unified_decls_exec(module: &str, v: &Vec<RustDecl>, out: &mut Vec<Symbol>)
    ensures
        symbol_views(final(out)@) == symbol_views(old(out)@) + unified_decls(module@, v@),
    decreases v,
{
    let ghost o0 = symbol_views(out@);
    let mut i: usize = 0;
    proof {
        assert(o0 + unified_decls(module@, v@.subrange(0, 0)) =~= o0);
    }
    while i < v.len()
        invariant
            i <= v.len(),
            symbol_views(out@) == o0 + unified_decls(module@, v@.subrange(0, i as int)),
        decreases v.len() - i,
    {
        proof {
            assert(v@.subrange(0, i + 1).drop_last() =~= v@.subrange(0, i as int));
            assert(v@.subrange(0, i + 1).last() == v@[i as int]);
            assert(decreases_to!(*v => v@[i as int]));
        }
        unified_decl_exec(module, &v[i], out);
        proof {
            assert(symbol_views(out@) =~= o0 + unified_decls(module@, v@.subrange(0, i + 1)));
        }
        i = i + 1;
    }
    proof {
        assert(v@.subrange(0, v.len() as int) =~= v@);
    }
}

fn receiver_params_exec(v: &Vec<RustInput>) -> (r: Vec<SymbolParam>)
    ensures
        r@.map_values(|p: SymbolParam| symbol_param_triple(p)) == v@.map_values(|i: RustInput| input_param(i)),
        r@.map_values(|p: SymbolParam| symbol_param_view(p)) == no_defaults(v@.map_values(|i: RustInput| input_param(i))),
        forall|i: int| 0 <= i < r@.len() ==> (#[trigger] r@[i]).default_value is None,
{
    let ps = export_params_exec(v);
    let mut out: Vec<SymbolParam> = Vec::new();
    let mut i: usize = 0;
    while i < ps.len()
        invariant
            i <= ps.len(),
            out@.map_values(|p: SymbolParam| symbol_param_triple(p)) == ps@.subrange(0, i as int).map_values(|p: Param| param_view(p)),
            forall|j: int| 0 <= j < out@.len() ==> (#[trigger] out@[j]).default_value is None,
        decreases ps.len() - i,
    {
        let p = SymbolParam { name: ps[i].name.clone(), ty: ps[i].ty.clone(), optional: ps[i].optional, default_value: None };
        let ghost o0 = out@;
        out.push(p);
        proof {
            assert(out@.map_values(|p: SymbolParam| symbol_param_triple(p)) =~= o0.map_values(|p: SymbolParam| symbol_param_triple(p)).push(symbol_param_triple(p)));
            assert(ps@.subrange(0, i + 1).map_values(|p: Param| param_view(p))
                =~= ps@.subrange(0, i as int).map_values(|p: Param| param_view(p)).push(param_view(ps@[i as int])));
        }
        i = i + 1;
    }
    proof {
        assert(ps@.subrange(0, ps.len() as int) =~= ps@);
        lemma_no_defaults(out@, v@.map_values(|i: RustInput| input_param(i)));
    }
    out
}

/// The public symbols of Rust source as a single reading records them (see
/// `unified_decl`), or the error of `syn`.
pub fn unified_symbols(module: &str, source: &str) -> (r: Result<Vec<Symbol>, ParseError>)
    ensures
        match syn_decls(source@) {
            Ok(items) => r matches Ok(v) && symbol_views(v@) == unified_decls(module@, items),
            Err(msg) => r matches Err(e) && e.message@ == msg,
        },
{
    match parse_rust_decls(source) {
        Ok(items) => {
            let mut out: Vec<Symbol> = Vec::new();
            proof {
                assert(symbol_views(out@) =~= Seq::<SymbolSpec>::empty());
            }
            unified_decls_exec(module, &items, &mut out);
            proof {
                assert(Seq::<SymbolSpec>::empty() + unified_decls(module@, items@) =~= unified_decls(module@, items@));
            }
            Ok(out)
        },
        Err(m) => Err(ParseError { message: m }),
    }
}

} // verus!
