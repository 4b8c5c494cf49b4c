//! The symbols and the API of a TypeScript or JavaScript module, from its
//! top-level statements.
use vstd::prelude::*;
use crate::symbols::{ApiContract, ApiExport, Param, Symbol, SymbolIndex, SymbolParam, Visibility};
use crate::symbols::script_ast::{
    ByteSpan, ScriptClass, ScriptClassElement, ScriptDecl, ScriptDeclarator, ScriptDefault, ScriptFunction,
    ScriptInit, ScriptInterface, ScriptKey, ScriptMember, ScriptParam, ScriptStatement,
};
use crate::parser::rust::push_text;
use crate::text::{chars_of, string_of, trim_chars, trim_spec};
use vstd::string::{StrSliceExecFns, StringSliceAdditionalSpecFns};

verus! {

// ---------------------------------------------------------------------------
// Views
// ---------------------------------------------------------------------------

/// A symbol, its strings taken as character sequences.
pub struct SymbolSpec {
    pub id: Seq<char>,
    pub name: Seq<char>,
    pub kind: Seq<char>,
    pub lines: Seq<usize>,
    pub children: Seq<SymbolSpec>,
    pub partial_analysis: bool,
    pub partial_reason: Option<Seq<char>>,
    pub visibility: Option<Visibility>,
    pub value: Option<Seq<char>>,
    pub signature: Option<Seq<char>>,
    pub doc_comment: Option<Seq<char>>,
    pub attributes: Seq<Seq<char>>,
    pub is_async: Option<bool>,
    pub return_type: Option<Seq<char>>,
    pub params: Option<Seq<(Seq<char>, Seq<char>, bool, Option<Seq<char>>)>>,
}

/// An exported item, its strings taken as character sequences.
pub struct ExportSpec {
    pub name: Seq<char>,
    pub kind: Seq<char>,
    pub generics: Seq<Seq<char>>,
    pub signature: Seq<char>,
    pub params: Seq<(Seq<char>, Seq<char>, bool)>,
    pub return_type: Option<Seq<char>>,
    pub description: Option<Seq<char>>,
    pub lines: Seq<usize>,
    pub partial_analysis: bool,
}

pub open spec fn opt_view(o: Option<String>) -> Option<Seq<char>> {
    match o {
        Some(s) => Some(s@),
        None => None,
    }
}

pub open spec fn param_view(p: Param) -> (Seq<char>, Seq<char>, bool) {
    (p.name@, p.ty@, p.optional)
}

/// A symbol parameter's name, type and optionality.
pub open spec fn symbol_param_triple(p: SymbolParam) -> (Seq<char>, Seq<char>, bool) {
    (p.name@, p.ty@, p.optional)
}

/// A symbol parameter: name, type, optionality and default value.
pub open spec fn symbol_param_view(p: SymbolParam) -> (Seq<char>, Seq<char>, bool, Option<Seq<char>>) {
    (p.name@, p.ty@, p.optional, opt_view(p.default_value))
}

/// Parameters given by name, type and optionality, none with a default value.
pub open spec fn no_defaults(ts: Seq<(Seq<char>, Seq<char>, bool)>) -> Seq<(Seq<char>, Seq<char>, bool, Option<Seq<char>>)> {
    ts.map_values(|t: (Seq<char>, Seq<char>, bool)| (t.0, t.1, t.2, None::<Seq<char>>))
}

/// Parameters without default values are viewed as `no_defaults` of their triples.
pub proof fn lemma_no_defaults(ps: Seq<SymbolParam>, ts: Seq<(Seq<char>, Seq<char>, bool)>)
    requires
        ps.map_values(|p: SymbolParam| symbol_param_triple(p)) == ts,
        forall|i: int| 0 <= i < ps.len() ==> (#[trigger] ps[i]).default_value is None,
    ensures
        ps.map_values(|p: SymbolParam| symbol_param_view(p)) == no_defaults(ts),
{
    let quads = ps.map_values(|p: SymbolParam| symbol_param_view(p));
    let want = no_defaults(ts);
    assert forall|i: int| 0 <= i < ps.len() implies #[trigger] quads[i] == want[i] by {
        assert(ts[i] == symbol_param_triple(ps[i]));
    }
    assert(quads =~= want);
}

pub open spec fn symbol_view(s: Symbol) -> SymbolSpec
    decreases s,
{
    SymbolSpec {
        id: s.id@,
        name: s.name@,
        kind: s.kind@,
        lines: s.line_range@,
        children: symbol_views(s.children@),
        partial_analysis: s.partial_analysis,
        partial_reason: opt_view(s.partial_reason),
        visibility: s.visibility,
        value: opt_view(s.value),
        signature: opt_view(s.signature),
        doc_comment: opt_view(s.doc_comment),
        attributes: crate::text::views(s.attributes@),
        is_async: s.is_async,
        return_type: opt_view(s.return_type),
        params: match s.params {
            Some(ps) => Some(ps@.map_values(|p: SymbolParam| symbol_param_view(p))),
            None => None,
        },
    }
}

pub open spec fn symbol_views(v: Seq<Symbol>) -> Seq<SymbolSpec>
    decreases v,
{
    if v.len() == 0 {
        Seq::empty()
    } else {
        symbol_views(v.drop_last()).push(symbol_view(v.last()))
    }
}

pub open spec fn export_view(e: ApiExport) -> ExportSpec {
    ExportSpec {
        name: e.name@,
        kind: e.kind@,
        generics: crate::text::views(e.generics@),
        signature: e.signature@,
        params: e.params@.map_values(|p: Param| param_view(p)),
        return_type: opt_view(e.return_type),
        description: opt_view(e.description),
        lines: e.line_range@,
        partial_analysis: e.partial_analysis,
    }
}

// ---------------------------------------------------------------------------
// Text pieces
// ---------------------------------------------------------------------------

/// The number of line feeds among the first `k` bytes.
pub open spec fn newlines(bytes: Seq<u8>, k: int) -> int
    decreases k,
{
    if k <= 0 || k > bytes.len() {
        0
    } else {
        newlines(bytes, k - 1) + if bytes[k - 1] == 10u8 {
            1int
        } else {
            0
        }
    }
}

/// The line of byte offset `off`: one more than the line feeds before it.
pub open spec fn line_at(bytes: Seq<u8>, off: int) -> int {
    1 + newlines(bytes, if off < bytes.len() { off } else { bytes.len() as int })
}

/// The lines that a span covers.
pub open spec fn span_lines(bytes: Seq<u8>, sp: ByteSpan) -> Seq<usize> {
    seq![line_at(bytes, sp.start as int) as usize, line_at(bytes, sp.end as int) as usize]
}

/// The text with its leading `:` characters removed.
pub open spec fn strip_colons(t: Seq<char>) -> Seq<char>
    decreases t.len(),
{
    if t.len() > 0 && t[0] == ':' {
        strip_colons(t.drop_first())
    } else {
        t
    }
}

/// The type that an annotation's text writes: without its `:` and surrounding
/// whitespace.
pub open spec fn annotation_type(t: Seq<char>) -> Seq<char> {
    trim_spec(strip_colons(t))
}

pub open spec fn param_name(p: ScriptParam) -> Seq<char> {
    match p.name {
        Some(n) => n@,
        None => "_"@,
    }
}

pub open spec fn param_type(p: ScriptParam) -> Seq<char> {
    match p.type_text {
        Some(t) => annotation_type(t@),
        None => "unknown"@,
    }
}

pub open spec fn param_triple(p: ScriptParam) -> (Seq<char>, Seq<char>, bool) {
    (param_name(p), param_type(p), p.optional)
}

pub open spec fn params_triples(ps: Seq<ScriptParam>) -> Seq<(Seq<char>, Seq<char>, bool)> {
    ps.map_values(|p: ScriptParam| param_triple(p))
}

/// `name: type` for each parameter, separated by `, `.
pub open spec fn params_text(ps: Seq<ScriptParam>) -> Seq<char>
    decreases ps.len(),
{
    if ps.len() == 0 {
        Seq::empty()
    } else if ps.len() == 1 {
        param_name(ps[0]) + ": "@ + param_type(ps[0])
    } else {
        params_text(ps.drop_last()) + ", "@ + param_name(ps.last()) + ": "@ + param_type(ps.last())
    }
}

pub open spec fn return_type_of(r: Option<String>) -> Option<Seq<char>> {
    match r {
        Some(t) => Some(annotation_type(t@)),
        None => None,
    }
}

pub open spec fn return_or_void(r: Option<String>) -> Seq<char> {
    match r {
        Some(t) => annotation_type(t@),
        None => "void"@,
    }
}

pub open spec fn key_text(k: ScriptKey) -> Seq<char> {
    match k {
        ScriptKey::Static(n) => n@,
        ScriptKey::Private(n) => "#"@ + n@,
        ScriptKey::Computed => "[expr]"@,
    }
}

/// The type a type alias declares: what follows the first `=` of its text,
/// trimmed; `unknown` when there is no `=`.
pub open spec fn alias_type(text: Seq<char>) -> Seq<char> {
    match crate::text::find_spec(text, seq!['=']) {
        Some(i) => trim_spec(text.subrange(i + 1, text.len() as int)),
        None => "unknown"@,
    }
}

pub open spec fn visibility_of(exported: bool) -> Option<Visibility> {
    if exported {
        Some(Visibility::Public)
    } else {
        Some(Visibility::Private)
    }
}

pub open spec fn plain_symbol(id: Seq<char>, name: Seq<char>, kind: Seq<char>, lines: Seq<usize>) -> SymbolSpec {
    SymbolSpec {
        id,
        name,
        kind,
        lines,
        children: Seq::empty(),
        partial_analysis: false,
        partial_reason: None,
        visibility: Some(Visibility::Public),
        value: None,
        signature: None,
        doc_comment: None,
        attributes: Seq::empty(),
        is_async: None,
        return_type: None,
        params: None,
    }
}

pub open spec fn plain_export(name: Seq<char>, kind: Seq<char>, signature: Seq<char>, lines: Seq<usize>) -> ExportSpec {
    ExportSpec {
        name,
        kind,
        generics: Seq::empty(),
        signature,
        params: Seq::empty(),
        return_type: None,
        description: None,
        lines,
        partial_analysis: false,
    }
}

// ---------------------------------------------------------------------------
// What each declaration gives
// ---------------------------------------------------------------------------

pub open spec fn symbol_id(module: Seq<char>, name: Seq<char>) -> Seq<char> {
    module + ":"@ + name
}

pub open spec fn function_signature(name: Seq<char>, f: ScriptFunction) -> Seq<char> {
    "export function "@ + name + "("@ + params_text(f.params@) + ") -> "@ + return_or_void(f.return_text)
}

pub open spec fn function_symbol(module: Seq<char>, bytes: Seq<u8>, name: Seq<char>, f: ScriptFunction, exported: bool) -> SymbolSpec {
    SymbolSpec {
        id: symbol_id(module, name),
        name,
        kind: "function"@,
        lines: span_lines(bytes, f.span),
        children: Seq::empty(),
        partial_analysis: false,
        partial_reason: None,
        visibility: visibility_of(exported),
        value: None,
        signature: Some(function_signature(name, f)),
        doc_comment: None,
        attributes: Seq::empty(),
        is_async: Some(f.is_async),
        return_type: return_type_of(f.return_text),
        params: Some(no_defaults(params_triples(f.params@))),
    }
}

pub open spec fn function_export(bytes: Seq<u8>, name: Seq<char>, f: ScriptFunction) -> ExportSpec {
    ExportSpec {
        name,
        kind: "function"@,
        generics: crate::text::views(f.type_params@),
        signature: function_signature(name, f),
        params: params_triples(f.params@),
        return_type: return_type_of(f.return_text),
        description: None,
        lines: span_lines(bytes, f.span),
        partial_analysis: false,
    }
}

/// A function gives its symbol, and, when exported, its export.
pub open spec fn function_out(module: Seq<char>, bytes: Seq<u8>, name: Seq<char>, f: ScriptFunction, exported: bool) -> (Seq<SymbolSpec>, Seq<ExportSpec>) {
    (seq![function_symbol(module, bytes, name, f, exported)], if exported {
        seq![function_export(bytes, name, f)]
    } else {
        Seq::empty()
    })
}

/// The member symbols of a class body, in order: methods and properties.
pub open spec fn class_children(module: Seq<char>, bytes: Seq<u8>, class_name: Seq<char>, es: Seq<ScriptClassElement>) -> Seq<SymbolSpec>
    decreases es.len(),
{
    if es.len() == 0 {
        Seq::empty()
    } else {
        class_children(module, bytes, class_name, es.drop_last()) + match es.last() {
            ScriptClassElement::Method(k, sp, _, f) => seq![SymbolSpec {
                id: symbol_id(module, class_name) + ":"@ + key_text(k),
                name: key_text(k),
                kind: "method"@,
                lines: span_lines(bytes, sp),
                children: Seq::empty(),
                partial_analysis: false,
                partial_reason: None,
                visibility: Some(Visibility::Public),
                value: None,
                signature: None,
                doc_comment: None,
                attributes: Seq::empty(),
                is_async: Some(f.is_async),
                return_type: return_type_of(f.return_text),
                params: Some(no_defaults(params_triples(f.params@))),
            }],
            ScriptClassElement::Property(k, sp, has_value) => seq![SymbolSpec {
                value: if has_value { Some(Seq::empty()) } else { None },
                ..plain_symbol(symbol_id(module, class_name) + ":"@ + key_text(k), key_text(k), "property"@, span_lines(bytes, sp))
            }],
            ScriptClassElement::Other => Seq::empty(),
        }
    }
}

/// The method exports of a class body, in order.
pub open spec fn class_methods(bytes: Seq<u8>, class_name: Seq<char>, es: Seq<ScriptClassElement>) -> Seq<ExportSpec>
    decreases es.len(),
{
    if es.len() == 0 {
        Seq::empty()
    } else {
        class_methods(bytes, class_name, es.drop_last()) + match es.last() {
            ScriptClassElement::Method(k, sp, _, f) => seq![ExportSpec {
                name: key_text(k),
                kind: "method"@,
                generics: crate::text::views(f.type_params@),
                signature: class_name + "::"@ + key_text(k) + "("@ + params_text(f.params@) + ") -> "@ + return_or_void(f.return_text),
                params: params_triples(f.params@),
                return_type: return_type_of(f.return_text),
                description: None,
                lines: span_lines(bytes, sp),
                partial_analysis: false,
            }],
            _ => Seq::empty(),
        }
    }
}

/// The parameters of the last constructor of a class body, if it has one.
pub open spec fn constructor_params(es: Seq<ScriptClassElement>) -> Seq<(Seq<char>, Seq<char>, bool)>
    decreases es.len(),
{
    if es.len() == 0 {
        Seq::empty()
    } else {
        match es.last() {
            ScriptClassElement::Method(_, _, true, f) => params_triples(f.params@),
            _ => constructor_params(es.drop_last()),
        }
    }
}

/// A class gives its symbol with its members, and, when exported, its export
/// followed by those of its methods.
pub open spec fn class_out(module: Seq<char>, bytes: Seq<u8>, name: Seq<char>, c: ScriptClass, exported: bool) -> (Seq<SymbolSpec>, Seq<ExportSpec>) {
    (seq![SymbolSpec {
        children: class_children(module, bytes, name, c.elements@),
        visibility: visibility_of(exported),
        ..plain_symbol(symbol_id(module, name), name, "class"@, span_lines(bytes, c.span))
    }], if exported {
        seq![ExportSpec {
            generics: crate::text::views(c.type_params@),
            params: constructor_params(c.elements@),
            ..plain_export(name, "class"@, "export class "@ + name + " { ... }"@, span_lines(bytes, c.span))
        }] + class_methods(bytes, name, c.elements@)
    } else {
        Seq::empty()
    })
}

/// What the initial value of a variable tells: its parameters, return type and
/// `async` flag when it is a function.
pub open spec fn init_params(i: ScriptInit) -> Seq<(Seq<char>, Seq<char>, bool)> {
    match i {
        ScriptInit::Arrow(_, ps, _) => params_triples(ps@),
        ScriptInit::Function(f) => params_triples(f.params@),
        _ => Seq::empty(),
    }
}

pub open spec fn init_return(i: ScriptInit) -> Option<Seq<char>> {
    match i {
        ScriptInit::Arrow(_, _, r) => return_type_of(r),
        ScriptInit::Function(f) => return_type_of(f.return_text),
        _ => None,
    }
}

pub open spec fn init_async(i: ScriptInit) -> Option<bool> {
    match i {
        ScriptInit::Arrow(a, _, _) => Some(a),
        ScriptInit::Function(f) => Some(f.is_async),
        _ => None,
    }
}

pub open spec fn init_symbol_params(i: ScriptInit) -> Option<Seq<(Seq<char>, Seq<char>, bool, Option<Seq<char>>)>> {
    match i {
        ScriptInit::Arrow(_, ps, _) => Some(no_defaults(params_triples(ps@))),
        ScriptInit::Function(f) => Some(no_defaults(params_triples(f.params@))),
        _ => None,
    }
}

/// A variable that binds a plain name gives its symbol and, when exported, its
/// export; any other binding gives nothing.
pub open spec fn declarator_out(module: Seq<char>, bytes: Seq<u8>, d: ScriptDeclarator, exported: bool) -> (Seq<SymbolSpec>, Seq<ExportSpec>) {
    match d.name {
        Some(n) => (seq![SymbolSpec {
            visibility: visibility_of(exported),
            value: if d.init is Absent { None } else { Some(Seq::empty()) },
            is_async: init_async(d.init),
            return_type: init_return(d.init),
            params: init_symbol_params(d.init),
            ..plain_symbol(symbol_id(module, n@), n@, "variable"@, span_lines(bytes, d.span))
        }], if exported {
            seq![ExportSpec {
                params: init_params(d.init),
                return_type: init_return(d.init),
                ..plain_export(n@, "variable"@, "export const "@ + n@ + ": unknown"@, span_lines(bytes, d.span))
            }]
        } else {
            Seq::empty()
        }),
        None => (Seq::empty(), Seq::empty()),
    }
}

pub open spec fn declarators_out(module: Seq<char>, bytes: Seq<u8>, ds: Seq<ScriptDeclarator>, exported: bool) -> (Seq<SymbolSpec>, Seq<ExportSpec>)
    decreases ds.len(),
{
    if ds.len() == 0 {
        (Seq::empty(), Seq::empty())
    } else {
        let a = declarators_out(module, bytes, ds.drop_last(), exported);
        let b = declarator_out(module, bytes, ds.last(), exported);
        (a.0 + b.0, a.1 + b.1)
    }
}

/// A type alias gives its symbol, the aliased type as its value, and, when
/// exported, its export.
pub open spec fn alias_out(module: Seq<char>, bytes: Seq<u8>, name: Seq<char>, sp: ByteSpan, tps: Seq<String>, text: Seq<char>, exported: bool) -> (Seq<SymbolSpec>, Seq<ExportSpec>) {
    (seq![SymbolSpec {
        visibility: visibility_of(exported),
        value: Some(alias_type(text)),
        ..plain_symbol(symbol_id(module, name), name, "type_alias"@, span_lines(bytes, sp))
    }], if exported {
        seq![ExportSpec {
            generics: crate::text::views(tps),
            ..plain_export(name, "type_alias"@, "export type "@ + name + " = "@ + alias_type(text), span_lines(bytes, sp))
        }]
    } else {
        Seq::empty()
    })
}

pub open spec fn member_type(t: Option<String>) -> Seq<char> {
    match t {
        Some(x) => x@,
        None => "unknown"@,
    }
}

/// The property symbols of an interface, in order.
pub open spec fn interface_children(module: Seq<char>, bytes: Seq<u8>, name: Seq<char>, ms: Seq<ScriptMember>) -> Seq<SymbolSpec>
    decreases ms.len(),
{
    if ms.len() == 0 {
        Seq::empty()
    } else {
        interface_children(module, bytes, name, ms.drop_last()) + match ms.last() {
            ScriptMember::Property(k, sp, _, t) => seq![SymbolSpec {
                return_type: opt_view(t),
                ..plain_symbol(symbol_id(module, name) + ":"@ + key_text(k), key_text(k), "property"@, span_lines(bytes, sp))
            }],
            ScriptMember::Other => Seq::empty(),
        }
    }
}

/// The property exports of an interface, in order.
pub open spec fn interface_members(bytes: Seq<u8>, ms: Seq<ScriptMember>) -> Seq<ExportSpec>
    decreases ms.len(),
{
    if ms.len() == 0 {
        Seq::empty()
    } else {
        interface_members(bytes, ms.drop_last()) + match ms.last() {
            ScriptMember::Property(k, sp, optional, t) => seq![ExportSpec {
                return_type: opt_view(t),
                ..plain_export(
                    key_text(k),
                    "property"@,
                    key_text(k) + (if optional { "?"@ } else { Seq::empty() }) + ": "@ + member_type(t),
                    span_lines(bytes, sp),
                )
            }],
            ScriptMember::Other => Seq::empty(),
        }
    }
}

/// An interface gives its symbol with its properties and, when exported, its
/// export followed by those of its properties.
pub open spec fn interface_out(module: Seq<char>, bytes: Seq<u8>, i: ScriptInterface, exported: bool) -> (Seq<SymbolSpec>, Seq<ExportSpec>) {
    (seq![SymbolSpec {
        children: interface_children(module, bytes, i.name@, i.members@),
        visibility: visibility_of(exported),
        ..plain_symbol(symbol_id(module, i.name@), i.name@, "interface"@, span_lines(bytes, i.span))
    }], if exported {
        seq![ExportSpec {
            generics: crate::text::views(i.type_params@),
            ..plain_export(i.name@, "interface"@, "export interface "@ + i.name@ + " { ... }"@, span_lines(bytes, i.span))
        }] + interface_members(bytes, i.members@)
    } else {
        Seq::empty()
    })
}

pub open spec fn enum_out(module: Seq<char>, bytes: Seq<u8>, name: Seq<char>, sp: ByteSpan, exported: bool) -> (Seq<SymbolSpec>, Seq<ExportSpec>) {
    (seq![SymbolSpec {
        visibility: visibility_of(exported),
        ..plain_symbol(symbol_id(module, name), name, "enum"@, span_lines(bytes, sp))
    }], if exported {
        seq![plain_export(name, "enum"@, "export enum "@ + name + " { ... }"@, span_lines(bytes, sp))]
    } else {
        Seq::empty()
    })
}

/// What a declaration gives; functions and classes without a name give nothing.
pub open spec fn decl_out(module: Seq<char>, bytes: Seq<u8>, d: ScriptDecl, exported: bool) -> (Seq<SymbolSpec>, Seq<ExportSpec>) {
    match d {
        ScriptDecl::Function(f) => match f.name {
            Some(n) => function_out(module, bytes, n@, f, exported),
            None => (Seq::empty(), Seq::empty()),
        },
        ScriptDecl::Class(c) => match c.name {
            Some(n) => class_out(module, bytes, n@, c, exported),
            None => (Seq::empty(), Seq::empty()),
        },
        ScriptDecl::Variables(ds) => declarators_out(module, bytes, ds@, exported),
        ScriptDecl::TypeAlias(n, sp, tps, text) => alias_out(module, bytes, n@, sp, tps@, text@, exported),
        ScriptDecl::Interface(i) => interface_out(module, bytes, i, exported),
        ScriptDecl::Enum(n, sp) => enum_out(module, bytes, n@, sp, exported),
        ScriptDecl::Other => (Seq::empty(), Seq::empty()),
    }
}

pub open spec fn name_or_default(n: Option<String>) -> Seq<char> {
    match n {
        Some(x) => x@,
        None => "default"@,
    }
}

/// What an `export default` gives: a function or class under its name (else
/// `default`), an interface, or for anything else an export `default` of kind
/// `default_export`, marked partly analyzed.
pub open spec fn default_out(module: Seq<char>, bytes: Seq<u8>, d: ScriptDefault) -> (Seq<SymbolSpec>, Seq<ExportSpec>) {
    match d {
        ScriptDefault::Function(f) => function_out(module, bytes, name_or_default(f.name), f, true),
        ScriptDefault::Class(c) => class_out(module, bytes, name_or_default(c.name), c, true),
        ScriptDefault::Interface(i) => interface_out(module, bytes, i, true),
        ScriptDefault::Other(sp) => (Seq::empty(), seq![ExportSpec {
            partial_analysis: true,
            ..plain_export("default"@, "default_export"@, "export default ..."@, span_lines(bytes, sp))
        }]),
    }
}

pub open spec fn statement_out(module: Seq<char>, bytes: Seq<u8>, s: ScriptStatement) -> (Seq<SymbolSpec>, Seq<ExportSpec>) {
    match s {
        ScriptStatement::Decl(d) => decl_out(module, bytes, d, false),
        ScriptStatement::ExportNamed(Some(d)) => decl_out(module, bytes, d, true),
        ScriptStatement::ExportDefault(d) => default_out(module, bytes, d),
        _ => (Seq::empty(), Seq::empty()),
    }
}

/// The symbols and exports of a module's statements, in order.
pub open spec fn script_out(module: Seq<char>, bytes: Seq<u8>, stmts: Seq<ScriptStatement>) -> (Seq<SymbolSpec>, Seq<ExportSpec>)
    decreases stmts.len(),
{
    if stmts.len() == 0 {
        (Seq::empty(), Seq::empty())
    } else {
        let a = script_out(module, bytes, stmts.drop_last());
        let b = statement_out(module, bytes, stmts.last());
        (a.0 + b.0, a.1 + b.1)
    }
}

// ---------------------------------------------------------------------------
// Computing the pieces
// ---------------------------------------------------------------------------

fn line_of(bytes: &Vec<u8>, off: u32) -> (r: usize)
    requires
        bytes@.len() < usize::MAX,
    ensures
        r as int == line_at(bytes@, off as int),
{
    let k: usize = if (off as usize) < bytes.len() { off as usize } else { bytes.len() };
    let mut n: usize = 0;
    let mut i: usize = 0;
    while i < k
        invariant
            i <= k <= bytes.len(),
            bytes@.len() < usize::MAX,
            n as int == newlines(bytes@, i as int),
            n <= i,
        decreases k - i,
    {
        if bytes[i] == 10u8 {
            n = n + 1;
        }
        i = i + 1;
    }
    n + 1
}

pub(crate) fn lines_of(bytes: &Vec<u8>, sp: ByteSpan) -> (r: [usize; 2])
    requires
        bytes@.len() < usize::MAX,
    ensures
        r@ == span_lines(bytes@, sp),
{
    let a = line_of(bytes, sp.start);
    let b = line_of(bytes, sp.end);
    let r = [a, b];
    proof {
        assert(r@ =~= span_lines(bytes@, sp));
    }
    r
}

fn strip_colons_exec(t: &Vec<char>) -> (r: Vec<char>)
    ensures
        r@ == strip_colons(t@),
{
    let mut i: usize = 0;
    proof {
        assert(t@.subrange(0, t@.len() as int) =~= t@);
    }
    while i < t.len() && t[i] == ':'
        invariant
            i <= t.len(),
            strip_colons(t@) == strip_colons(t@.subrange(i as int, t@.len() as int)),
        decreases t.len() - i,
    {
        proof {
            let u = t@.subrange(i as int, t@.len() as int);
            assert(u.drop_first() =~= t@.subrange(i + 1, t@.len() as int));
        }
        i = i + 1;
    }
    let r = crate::text::slice_copy(t.as_slice(), i, t.len());
    proof {
        assert(r@ == t@.subrange(i as int, t@.len() as int));
        if r@.len() > 0 {
            assert(r@[0] == t@[i as int]);
        }
    }
    r
}

fn annotation_type_exec(t: &String) -> (r: String)
    ensures
        r@ == annotation_type(t@),
{
    let stripped = strip_colons_exec(&chars_of(t.as_str()));
    string_of(trim_chars(stripped.as_slice()).as_slice())
}

pub(crate) fn param_name_exec(p: &ScriptParam) -> (r: String)
    ensures
        r@ == param_name(*p),
{
    match &p.name {
        Some(n) => n.clone(),
        None => String::from_str("_"),
    }
}

fn param_type_exec(p: &ScriptParam) -> (r: String)
    ensures
        r@ == param_type(*p),
{
    match &p.type_text {
        Some(t) => annotation_type_exec(t),
        None => String::from_str("unknown"),
    }
}

fn params_exec(ps: &Vec<ScriptParam>) -> (r: (Vec<Param>, Vec<SymbolParam>))
    ensures
        r.0@.map_values(|p: Param| param_view(p)) == params_triples(ps@),
        r.1@.map_values(|p: SymbolParam| symbol_param_triple(p)) == params_triples(ps@),
        r.1@.map_values(|p: SymbolParam| symbol_param_view(p)) == no_defaults(params_triples(ps@)),
        forall|i: int| 0 <= i < r.1@.len() ==> (#[trigger] r.1@[i]).default_value is None,
{
    let mut a: Vec<Param> = Vec::new();
    let mut b: Vec<SymbolParam> = Vec::new();
    let mut i: usize = 0;
    while i < ps.len()
        invariant
            i <= ps.len(),
            a@.map_values(|p: Param| param_view(p)) == params_triples(ps@.subrange(0, i as int)),
            b@.map_values(|p: SymbolParam| symbol_param_triple(p)) == params_triples(ps@.subrange(0, i as int)),
            forall|j: int| 0 <= j < b@.len() ==> (#[trigger] b@[j]).default_value is None,
        decreases ps.len() - i,
    {
        let name = param_name_exec(&ps[i]);
        let ty = param_type_exec(&ps[i]);
        let ghost a0 = a@;
        let ghost b0 = b@;
        a.push(Param { name: name.clone(), ty: ty.clone(), optional: ps[i].optional });
        b.push(SymbolParam { name, ty, optional: ps[i].optional, default_value: None });
        proof {
            assert(params_triples(ps@.subrange(0, i + 1)) =~= params_triples(ps@.subrange(0, i as int)).push(param_triple(ps@[i as int])));
            assert(a@.map_values(|p: Param| param_view(p)) =~= a0.map_values(|p: Param| param_view(p)).push(param_triple(ps@[i as int])));
            assert(b@.map_values(|p: SymbolParam| symbol_param_triple(p)) =~= b0.map_values(|p: SymbolParam| symbol_param_triple(p)).push(param_triple(ps@[i as int])));
        }
        i = i + 1;
    }
    proof {
        assert(ps@.subrange(0, ps.len() as int) =~= ps@);
        lemma_no_defaults(b@, params_triples(ps@));
    }
    (a, b)
}

fn params_text_exec(ps: &Vec<ScriptParam>) -> (r: String)
    ensures
        r@ == params_text(ps@),
{
    let mut out = String::from_str("");
    proof {
        reveal_strlit("");
    }
    let mut i: usize = 0;
    while i < ps.len()
        invariant
            i <= ps.len(),
            out@ == params_text(ps@.subrange(0, i as int)),
        decreases ps.len() - i,
    {
        proof {
            assert(ps@.subrange(0, i + 1).drop_last() =~= ps@.subrange(0, i as int));
        }
        if i > 0 {
            push_text(&mut out, ", ");
        }
        let n = param_name_exec(&ps[i]);
        let t = param_type_exec(&ps[i]);
        push_text(&mut out, n.as_str());
        push_text(&mut out, ": ");
        push_text(&mut out, t.as_str());
        proof {
            if i == 0 {
                assert(out@ =~= params_text(ps@.subrange(0, 1)));
            } else {
                assert(out@ =~= params_text(ps@.subrange(0, i + 1)));
            }
        }
        i = i + 1;
    }
    proof {
        assert(ps@.subrange(0, ps.len() as int) =~= ps@);
    }
    out
}

fn return_type_exec(r: &Option<String>) -> (o: Option<String>)
    ensures
        opt_view(o) == return_type_of(*r),
{
    match r {
        Some(t) => Some(annotation_type_exec(t)),
        None => None,
    }
}

fn return_or_void_exec(r: &Option<String>) -> (o: String)
    ensures
        o@ == return_or_void(*r),
{
    match r {
        Some(t) => annotation_type_exec(t),
        None => String::from_str("void"),
    }
}

fn key_text_exec(k: &ScriptKey) -> (r: String)
    ensures
        r@ == key_text(*k),
{
    match k {
        ScriptKey::Static(n) => n.clone(),
        ScriptKey::Private(n) => {
            let mut r = String::from_str("#");
            push_text(&mut r, n.as_str());
            r
        },
        ScriptKey::Computed => String::from_str("[expr]"),
    }
}

fn alias_type_exec(text: &String) -> (r: String)
    ensures
        r@ == alias_type(text@),
{
    let cs = chars_of(text.as_str());
    let eq = crate::text::find_char(cs.as_slice(), '=');
    proof {
        crate::text::lemma_find_char_spec(cs@, '=', eq);
    }
    match eq {
        Some(i) => {
            let rest = crate::text::slice_copy(cs.as_slice(), i + 1, cs.len());
            string_of(trim_chars(rest.as_slice()).as_slice())
        },
        None => String::from_str("unknown"),
    }
}

pub(crate) fn clone_strings(v: &Vec<String>) -> (r: Vec<String>)
    ensures
        crate::text::views(r@) == crate::text::views(v@),
{
    let mut r: Vec<String> = Vec::new();
    let mut i: usize = 0;
    while i < v.len()
        invariant
            i <= v.len(),
            crate::text::views(r@) == crate::text::views(v@.subrange(0, i as int)),
        decreases v.len() - i,
    {
        r.push(v[i].clone());
        proof {
            assert(crate::text::views(v@.subrange(0, i + 1)) =~= crate::text::views(v@.subrange(0, i as int)).push(v@[i as int]@));
        }
        i = i + 1;
    }
    proof {
        assert(v@.subrange(0, v.len() as int) =~= v@);
    }
    r
}

pub(crate) fn symbol_id_exec(module: &str, name: &str) -> (r: String)
    ensures
        r@ == symbol_id(module@, name@),
{
    let mut r = String::from_str(module);
    push_text(&mut r, ":");
    push_text(&mut r, name);
    r
}

// ---------------------------------------------------------------------------
// Building the symbols and exports
// ---------------------------------------------------------------------------

/// Symbols and exports built so far.
pub struct Extracted {
    pub symbols: Vec<Symbol>,
    pub exports: Vec<ApiExport>,
}

pub open spec fn extracted_view(e: Extracted) -> (Seq<SymbolSpec>, Seq<ExportSpec>) {
    (symbol_views(e.symbols@), e.exports@.map_values(|x: ApiExport| export_view(x)))
}

pub proof fn lemma_symbol_views_add(a: Seq<Symbol>, b: Seq<Symbol>)
    ensures
        symbol_views(a + b) == symbol_views(a) + symbol_views(b),
    decreases b.len(),
{
    if b.len() == 0 {
        assert(a + b =~= a);
        assert(symbol_views(a) + symbol_views(b) =~= symbol_views(a));
    } else {
        lemma_symbol_views_add(a, b.drop_last());
        assert((a + b).drop_last() =~= a + b.drop_last());
        assert(symbol_views(a) + symbol_views(b) =~= (symbol_views(a) + symbol_views(b.drop_last())).push(symbol_view(b.last())));
    }
}

/// Appends `b` to `a`.
pub(crate) fn absorb(a: &mut Extracted, b: Extracted)
    ensures
        extracted_view(*final(a)) == (extracted_view(*old(a)).0 + extracted_view(b).0, extracted_view(*old(a)).1 + extracted_view(b).1),
{
    let ghost s0 = a.symbols@;
    let ghost e0 = a.exports@;
    let mut bs = b.symbols;
    let mut be = b.exports;
    let ghost bs0 = bs@;
    let ghost be0 = be@;
    a.symbols.append(&mut bs);
    a.exports.append(&mut be);
    proof {
        lemma_symbol_views_add(s0, bs0);
        assert(a.exports@.map_values(|x: ApiExport| export_view(x)) =~= e0.map_values(|x: ApiExport| export_view(x)) + be0.map_values(|x: ApiExport| export_view(x)));
    }
}

pub(crate) fn nothing() -> (r: Extracted)
    ensures
        extracted_view(r) == (Seq::<SymbolSpec>::empty(), Seq::<ExportSpec>::empty()),
{
    let r = Extracted { symbols: Vec::new(), exports: Vec::new() };
    proof {
        assert(extracted_view(r).1 =~= Seq::<ExportSpec>::empty());
    }
    r
}

pub(crate) fn single(sym: Symbol, export: Option<ApiExport>) -> (r: Extracted)
    ensures
        extracted_view(r).0 == seq![symbol_view(sym)],
        extracted_view(r).1 == match export {
            Some(e) => seq![export_view(e)],
            None => Seq::<ExportSpec>::empty(),
        },
{
    let mut symbols: Vec<Symbol> = Vec::new();
    symbols.push(sym);
    let mut exports: Vec<ApiExport> = Vec::new();
    match export {
        Some(e) => {
            exports.push(e);
        },
        None => {},
    }
    let r = Extracted { symbols, exports };
    proof {
        assert(r.symbols@ =~= seq![sym]);
        assert(r.symbols@.drop_last() =~= Seq::<Symbol>::empty());
        assert(symbol_views(r.symbols@) == symbol_views(r.symbols@.drop_last()).push(symbol_view(sym)));
        assert(extracted_view(r).0 =~= seq![symbol_view(sym)]);
        assert(extracted_view(r).1 =~= match export {
            Some(e) => seq![export_view(e)],
            None => Seq::<ExportSpec>::empty(),
        });
    }
    r
}

fn emit_function(module: &str, bytes: &Vec<u8>, name: String, f: &ScriptFunction, exported: bool) -> (r: Extracted)
    requires
        bytes@.len() < usize::MAX,
    ensures
        extracted_view(r) == function_out(module@, bytes@, name@, *f, exported),
{
    let lines = lines_of(bytes, f.span);
    let (params, sparams) = params_exec(&f.params);
    let mut sig = String::from_str("export function ");
    push_text(&mut sig, name.as_str());
    push_text(&mut sig, "(");
    let pt = params_text_exec(&f.params);
    push_text(&mut sig, pt.as_str());
    push_text(&mut sig, ") -> ");
    let rv = return_or_void_exec(&f.return_text);
    push_text(&mut sig, rv.as_str());
    proof {
        assert(sig@ =~= function_signature(name@, *f));
    }
    let sym = Symbol {
        id: symbol_id_exec(module, name.as_str()),
        name: name.clone(),
        kind: String::from_str("function"),
        line_range: lines,
        children: Vec::new(),
        partial_analysis: false,
        partial_reason: None,
        visibility: if exported { Some(Visibility::Public) } else { Some(Visibility::Private) },
        value: None,
        signature: Some(sig.clone()),
        doc_comment: None,
        attributes: Vec::new(),
        is_async: Some(f.is_async),
        return_type: return_type_exec(&f.return_text),
        params: Some(sparams),
    };
    proof {
        assert(symbol_views(sym.children@) =~= Seq::<SymbolSpec>::empty());
        assert(crate::text::views(sym.attributes@) =~= Seq::<Seq<char>>::empty());
        assert(symbol_view(sym) == function_symbol(module@, bytes@, name@, *f, exported));
    }
    let export = if exported {
        let e = ApiExport {
            name,
            kind: String::from_str("function"),
            generics: clone_strings(&f.type_params),
            signature: sig,
            params,
            return_type: return_type_exec(&f.return_text),
            description: None,
            line_range: lines,
            partial_analysis: false,
        };
        proof {
            assert(export_view(e) == function_export(bytes@, name@, *f));
        }
        Some(e)
    } else {
        None
    };
    single(sym, export)
}

fn member_id(module: &str, owner: &String, key: &String) -> (r: String)
    ensures
        r@ == symbol_id(module@, owner@) + ":"@ + key@,
{
    let mut r = symbol_id_exec(module, owner.as_str());
    push_text(&mut r, ":");
    push_text(&mut r, key.as_str());
    r
}

pub(crate) fn push_symbol(v: &mut Vec<Symbol>, s: Symbol)
    ensures
        symbol_views(final(v)@) == symbol_views(old(v)@).push(symbol_view(s)),
{
    let ghost v0 = v@;
    v.push(s);
    proof {
        assert(v@.drop_last() =~= v0);
    }
}

pub(crate) fn push_export(v: &mut Vec<ApiExport>, e: ApiExport)
    ensures
        final(v)@.map_values(|x: ApiExport| export_view(x)) == old(v)@.map_values(|x: ApiExport| export_view(x)).push(export_view(e)),
{
    let ghost v0 = v@;
    v.push(e);
    proof {
        assert(v@.map_values(|x: ApiExport| export_view(x)) =~= v0.map_values(|x: ApiExport| export_view(x)).push(export_view(e)));
    }
}

fn emit_class(module: &str, bytes: &Vec<u8>, name: String, c: &ScriptClass, exported: bool) -> (r: Extracted)
    requires
        bytes@.len() < usize::MAX,
    ensures
        extracted_view(r) == class_out(module@, bytes@, name@, *c, exported),
{
    let ghost es = c.elements@;
    let lines = lines_of(bytes, c.span);
    let mut children: Vec<Symbol> = Vec::new();
    let mut methods: Vec<ApiExport> = Vec::new();
    let mut ctor: Vec<Param> = Vec::new();
    let mut i: usize = 0;
    proof {
        assert(methods@.map_values(|x: ApiExport| export_view(x)) =~= Seq::<ExportSpec>::empty());
        assert(ctor@.map_values(|p: Param| param_view(p)) =~= Seq::<(Seq<char>, Seq<char>, bool)>::empty());
        assert(es.subrange(0, 0) =~= Seq::<ScriptClassElement>::empty());
    }
    while i < c.elements.len()
        invariant
            i <= c.elements.len(),
            es == c.elements@,
            bytes@.len() < usize::MAX,
            symbol_views(children@) == class_children(module@, bytes@, name@, es.subrange(0, i as int)),
            methods@.map_values(|x: ApiExport| export_view(x)) == class_methods(bytes@, name@, es.subrange(0, i as int)),
            ctor@.map_values(|p: Param| param_view(p)) == constructor_params(es.subrange(0, i as int)),
        decreases c.elements.len() - i,
    {
        proof {
            assert(es.subrange(0, i + 1).drop_last() =~= es.subrange(0, i as int));
            assert(es.subrange(0, i + 1).last() == es[i as int]);
        }
        match &c.elements[i] {
            ScriptClassElement::Method(k, sp, is_ctor, f) => {
                let key = key_text_exec(k);
                let mlines = lines_of(bytes, *sp);
                let (ps, sps) = params_exec(&f.params);
                let child = Symbol {
                    id: member_id(module, &name, &key),
                    name: key.clone(),
                    kind: String::from_str("method"),
                    line_range: mlines,
                    children: Vec::new(),
                    partial_analysis: false,
                    partial_reason: None,
                    visibility: Some(Visibility::Public),
                    value: None,
                    signature: None,
                    doc_comment: None,
                    attributes: Vec::new(),
                    is_async: Some(f.is_async),
                    return_type: return_type_exec(&f.return_text),
                    params: Some(sps),
                };
                proof {
                    assert(symbol_views(child.children@) =~= Seq::<SymbolSpec>::empty());
                    assert(crate::text::views(child.attributes@) =~= Seq::<Seq<char>>::empty());
                }
                push_symbol(&mut children, child);
                let mut sig = name.clone();
                push_text(&mut sig, "::");
                push_text(&mut sig, key.as_str());
                push_text(&mut sig, "(");
                let pt = params_text_exec(&f.params);
                push_text(&mut sig, pt.as_str());
                push_text(&mut sig, ") -> ");
                let rv = return_or_void_exec(&f.return_text);
                push_text(&mut sig, rv.as_str());
                let (ps2, _) = params_exec(&f.params);
                let m = ApiExport {
                    name: key,
                    kind: String::from_str("method"),
                    generics: clone_strings(&f.type_params),
                    signature: sig,
                    params: ps2,
                    return_type: return_type_exec(&f.return_text),
                    description: None,
                    line_range: mlines,
                    partial_analysis: false,
                };
                push_export(&mut methods, m);
                if *is_ctor {
                    ctor = ps;
                }
                proof {
                    assert(symbol_views(children@) =~= class_children(module@, bytes@, name@, es.subrange(0, i + 1)));
                    assert(methods@.map_values(|x: ApiExport| export_view(x)) =~= class_methods(bytes@, name@, es.subrange(0, i + 1)));
                }
            },
            ScriptClassElement::Property(k, sp, has_value) => {
                let key = key_text_exec(k);
                let child = Symbol {
                    id: member_id(module, &name, &key),
                    name: key,
                    kind: String::from_str("property"),
                    line_range: lines_of(bytes, *sp),
                    children: Vec::new(),
                    partial_analysis: false,
                    partial_reason: None,
                    visibility: Some(Visibility::Public),
                    value: if *has_value {
                        Some(String::from_str(""))
                    } else {
                        None
                    },
                    signature: None,
                    doc_comment: None,
                    attributes: Vec::new(),
                    is_async: None,
                    return_type: None,
                    params: None,
                };
                proof {
                    reveal_strlit("");
                    assert(symbol_views(child.children@) =~= Seq::<SymbolSpec>::empty());
                    assert(crate::text::views(child.attributes@) =~= Seq::<Seq<char>>::empty());
                    assert(opt_view(child.value) == if *has_value { Some(Seq::<char>::empty()) } else { None::<Seq<char>> });
                }
                push_symbol(&mut children, child);
                proof {
                    assert(symbol_views(children@) =~= class_children(module@, bytes@, name@, es.subrange(0, i + 1)));
                    assert(methods@.map_values(|x: ApiExport| export_view(x)) =~= class_methods(bytes@, name@, es.subrange(0, i + 1)));
                }
            },
            ScriptClassElement::Other => {
                proof {
                    assert(symbol_views(children@) =~= class_children(module@, bytes@, name@, es.subrange(0, i + 1)));
                    assert(methods@.map_values(|x: ApiExport| export_view(x)) =~= class_methods(bytes@, name@, es.subrange(0, i + 1)));
                }
            },
        }
        i = i + 1;
    }
    proof {
        assert(es.subrange(0, i as int) =~= es);
    }
    let sym = Symbol {
        id: symbol_id_exec(module, name.as_str()),
        name: name.clone(),
        kind: String::from_str("class"),
        line_range: lines,
        children,
        partial_analysis: false,
        partial_reason: None,
        visibility: if exported { Some(Visibility::Public) } else { Some(Visibility::Private) },
        value: None,
        signature: None,
        doc_comment: None,
        attributes: Vec::new(),
        is_async: None,
        return_type: None,
        params: None,
    };
    proof {
        assert(crate::text::views(sym.attributes@) =~= Seq::<Seq<char>>::empty());
    }
    if !exported {
        return single(sym, None);
    }
    let mut sig = String::from_str("export class ");
    push_text(&mut sig, name.as_str());
    push_text(&mut sig, " { ... }");
    let e = ApiExport {
        name,
        kind: String::from_str("class"),
        generics: clone_strings(&c.type_params),
        signature: sig,
        params: ctor,
        return_type: None,
        description: None,
        line_range: lines,
        partial_analysis: false,
    };
    let mut r = single(sym, Some(e));
    let ghost r0 = extracted_view(r);
    let mut rest = Extracted { symbols: Vec::new(), exports: methods };
    proof {
        assert(symbol_views(rest.symbols@) =~= Seq::<SymbolSpec>::empty());
    }
    absorb(&mut r, rest);
    proof {
        assert(r0.0 + Seq::<SymbolSpec>::empty() =~= r0.0);
    }
    r
}

fn emit_declarator(module: &str, bytes: &Vec<u8>, d: &ScriptDeclarator, exported: bool) -> (r: Extracted)
    requires
        bytes@.len() < usize::MAX,
    ensures
        extracted_view(r) == declarator_out(module@, bytes@, *d, exported),
{
    let name = match &d.name {
        Some(n) => n,
        None => {
            return nothing();
        },
    };
    let lines = lines_of(bytes, d.span);
    let (params, sparams, return_type, is_async): (Vec<Param>, Option<Vec<SymbolParam>>, Option<String>, Option<bool>) = match &d.init {
        ScriptInit::Arrow(a, ps, ret) => {
            let (p1, p2) = params_exec(ps);
            (p1, Some(p2), return_type_exec(ret), Some(*a))
        },
        ScriptInit::Function(f) => {
            let (p1, p2) = params_exec(&f.params);
            (p1, Some(p2), return_type_exec(&f.return_text), Some(f.is_async))
        },
        _ => (Vec::new(), None, None, None),
    };
    proof {
        reveal_strlit("");
        assert(params@.map_values(|p: Param| param_view(p)) =~= init_params(d.init));
    }
    let value = match &d.init {
        ScriptInit::Absent => None,
        _ => Some(String::from_str("")),
    };
    let sym = Symbol {
        id: symbol_id_exec(module, name.as_str()),
        name: name.clone(),
        kind: String::from_str("variable"),
        line_range: lines,
        children: Vec::new(),
        partial_analysis: false,
        partial_reason: None,
        visibility: if exported { Some(Visibility::Public) } else { Some(Visibility::Private) },
        value,
        signature: None,
        doc_comment: None,
        attributes: Vec::new(),
        is_async,
        return_type: match &return_type {
            Some(t) => Some(t.clone()),
            None => None,
        },
        params: sparams,
    };
    proof {
        assert(symbol_views(sym.children@) =~= Seq::<SymbolSpec>::empty());
        assert(crate::text::views(sym.attributes@) =~= Seq::<Seq<char>>::empty());
        assert(opt_view(sym.return_type) == init_return(d.init));
        assert(sym.is_async == init_async(d.init));
        assert(opt_view(sym.value) == (if d.init is Absent { None } else { Some(Seq::<char>::empty()) }));
        assert(symbol_view(sym).params == init_symbol_params(d.init));
    }
    let export = if exported {
        let mut sig = String::from_str("export const ");
        push_text(&mut sig, name.as_str());
        push_text(&mut sig, ": unknown");
        Some(ApiExport {
            name: name.clone(),
            kind: String::from_str("variable"),
            generics: Vec::new(),
            signature: sig,
            params,
            return_type,
            description: None,
            line_range: lines,
            partial_analysis: false,
        })
    } else {
        None
    };
    let r = single(sym, export);
    proof {
        assert(extracted_view(r).0 =~= declarator_out(module@, bytes@, *d, exported).0);
        assert(extracted_view(r).1 =~= declarator_out(module@, bytes@, *d, exported).1);
    }
    r
}

fn emit_declarators(module: &str, bytes: &Vec<u8>, ds: &Vec<ScriptDeclarator>, exported: bool) -> (r: Extracted)
    requires
        bytes@.len() < usize::MAX,
    ensures
        extracted_view(r) == declarators_out(module@, bytes@, ds@, exported),
{
    let mut r = nothing();
    let mut i: usize = 0;
    proof {
        assert(ds@.subrange(0, 0) =~= Seq::<ScriptDeclarator>::empty());
    }
    while i < ds.len()
        invariant
            i <= ds.len(),
            bytes@.len() < usize::MAX,
            extracted_view(r) == declarators_out(module@, bytes@, ds@.subrange(0, i as int), exported),
        decreases ds.len() - i,
    {
        proof {
            assert(ds@.subrange(0, i + 1).drop_last() =~= ds@.subrange(0, i as int));
        }
        let one = emit_declarator(module, bytes, &ds[i], exported);
        absorb(&mut r, one);
        i = i + 1;
    }
    proof {
        assert(ds@.subrange(0, i as int) =~= ds@);
    }
    r
}

fn emit_alias(module: &str, bytes: &Vec<u8>, name: &String, sp: ByteSpan, tps: &Vec<String>, text: &String, exported: bool) -> (r: Extracted)
    requires
        bytes@.len() < usize::MAX,
    ensures
        extracted_view(r) == alias_out(module@, bytes@, name@, sp, tps@, text@, exported),
{
    let lines = lines_of(bytes, sp);
    let ty = alias_type_exec(text);
    let sym = Symbol {
        id: symbol_id_exec(module, name.as_str()),
        name: name.clone(),
        kind: String::from_str("type_alias"),
        line_range: lines,
        children: Vec::new(),
        partial_analysis: false,
        partial_reason: None,
        visibility: if exported { Some(Visibility::Public) } else { Some(Visibility::Private) },
        value: Some(ty.clone()),
        signature: None,
        doc_comment: None,
        attributes: Vec::new(),
        is_async: None,
        return_type: None,
        params: None,
    };
    proof {
        assert(symbol_views(sym.children@) =~= Seq::<SymbolSpec>::empty());
        assert(crate::text::views(sym.attributes@) =~= Seq::<Seq<char>>::empty());
    }
    let export = if exported {
        let mut sig = String::from_str("export type ");
        push_text(&mut sig, name.as_str());
        push_text(&mut sig, " = ");
        push_text(&mut sig, ty.as_str());
        let e = ApiExport {
            name: name.clone(),
            kind: String::from_str("type_alias"),
            generics: clone_strings(tps),
            signature: sig,
            params: Vec::new(),
            return_type: None,
            description: None,
            line_range: lines,
            partial_analysis: false,
        };
        proof {
            assert(e.params@.map_values(|p: Param| param_view(p)) =~= Seq::<(Seq<char>, Seq<char>, bool)>::empty());
        }
        Some(e)
    } else {
        None
    };
    let r = single(sym, export);
    proof {
        assert(extracted_view(r).0 =~= alias_out(module@, bytes@, name@, sp, tps@, text@, exported).0);
        assert(extracted_view(r).1 =~= alias_out(module@, bytes@, name@, sp, tps@, text@, exported).1);
    }
    r
}

fn emit_enum(module: &str, bytes: &Vec<u8>, name: &String, sp: ByteSpan, exported: bool) -> (r: Extracted)
    requires
        bytes@.len() < usize::MAX,
    ensures
        extracted_view(r) == enum_out(module@, bytes@, name@, sp, exported),
{
    let lines = lines_of(bytes, sp);
    let sym = Symbol {
        id: symbol_id_exec(module, name.as_str()),
        name: name.clone(),
        kind: String::from_str("enum"),
        line_range: lines,
        children: Vec::new(),
        partial_analysis: false,
        partial_reason: None,
        visibility: if exported { Some(Visibility::Public) } else { Some(Visibility::Private) },
        value: None,
        signature: None,
        doc_comment: None,
        attributes: Vec::new(),
        is_async: None,
        return_type: None,
        params: None,
    };
    proof {
        assert(symbol_views(sym.children@) =~= Seq::<SymbolSpec>::empty());
        assert(crate::text::views(sym.attributes@) =~= Seq::<Seq<char>>::empty());
    }
    let export = if exported {
        let mut sig = String::from_str("export enum ");
        push_text(&mut sig, name.as_str());
        push_text(&mut sig, " { ... }");
        let e = ApiExport {
            name: name.clone(),
            kind: String::from_str("enum"),
            generics: Vec::new(),
            signature: sig,
            params: Vec::new(),
            return_type: None,
            description: None,
            line_range: lines,
            partial_analysis: false,
        };
        proof {
            assert(e.params@.map_values(|p: Param| param_view(p)) =~= Seq::<(Seq<char>, Seq<char>, bool)>::empty());
            assert(crate::text::views(e.generics@) =~= Seq::<Seq<char>>::empty());
        }
        Some(e)
    } else {
        None
    };
    let r = single(sym, export);
    proof {
        assert(extracted_view(r).0 =~= enum_out(module@, bytes@, name@, sp, exported).0);
        assert(extracted_view(r).1 =~= enum_out(module@, bytes@, name@, sp, exported).1);
    }
    r
}

fn emit_interface(module: &str, bytes: &Vec<u8>, i: &ScriptInterface, exported: bool) -> (r: Extracted)
    requires
        bytes@.len() < usize::MAX,
    ensures
        extracted_view(r) == interface_out(module@, bytes@, *i, exported),
{
    let ghost ms = i.members@;
    let name = &i.name;
    let lines = lines_of(bytes, i.span);
    let mut children: Vec<Symbol> = Vec::new();
    let mut members: Vec<ApiExport> = Vec::new();
    let mut k: usize = 0;
    proof {
        assert(members@.map_values(|x: ApiExport| export_view(x)) =~= Seq::<ExportSpec>::empty());
        assert(ms.subrange(0, 0) =~= Seq::<ScriptMember>::empty());
    }
    while k < i.members.len()
        invariant
            k <= i.members.len(),
            ms == i.members@,
            name@ == i.name@,
            bytes@.len() < usize::MAX,
            symbol_views(children@) == interface_children(module@, bytes@, i.name@, ms.subrange(0, k as int)),
            members@.map_values(|x: ApiExport| export_view(x)) == interface_members(bytes@, ms.subrange(0, k as int)),
        decreases i.members.len() - k,
    {
        proof {
            assert(ms.subrange(0, k + 1).drop_last() =~= ms.subrange(0, k as int));
            assert(ms.subrange(0, k + 1).last() == ms[k as int]);
        }
        match &i.members[k] {
            ScriptMember::Property(key, sp, optional, t) => {
                let kt = key_text_exec(key);
                let plines = lines_of(bytes, *sp);
                let ty: Option<String> = match t {
                    Some(x) => Some(x.clone()),
                    None => None,
                };
                let child = Symbol {
                    id: member_id(module, name, &kt),
                    name: kt.clone(),
                    kind: String::from_str("property"),
                    line_range: plines,
                    children: Vec::new(),
                    partial_analysis: false,
                    partial_reason: None,
                    visibility: Some(Visibility::Public),
                    value: None,
                    signature: None,
                    doc_comment: None,
                    attributes: Vec::new(),
                    is_async: None,
                    return_type: match &ty {
                        Some(x) => Some(x.clone()),
                        None => None,
                    },
                    params: None,
                };
                proof {
                    assert(symbol_views(child.children@) =~= Seq::<SymbolSpec>::empty());
                    assert(crate::text::views(child.attributes@) =~= Seq::<Seq<char>>::empty());
                    assert(opt_view(child.return_type) == opt_view(*t));
                    assert(child.id@ == symbol_id(module@, i.name@) + ":"@ + key_text(*key));
                    assert(symbol_view(child) == SymbolSpec {
                        return_type: opt_view(*t),
                        ..plain_symbol(symbol_id(module@, i.name@) + ":"@ + key_text(*key), key_text(*key), "property"@, span_lines(bytes@, *sp))
                    });
                }
                push_symbol(&mut children, child);
                let mut sig = kt.clone();
                if *optional {
                    push_text(&mut sig, "?");
                }
                push_text(&mut sig, ": ");
                match &ty {
                    Some(x) => push_text(&mut sig, x.as_str()),
                    None => push_text(&mut sig, "unknown"),
                }
                proof {
                    reveal_strlit("?");
                    assert(sig@ =~= key_text(*key) + (if *optional { "?"@ } else { Seq::<char>::empty() }) + ": "@ + member_type(*t));
                }
                let e = ApiExport {
                    name: kt,
                    kind: String::from_str("property"),
                    generics: Vec::new(),
                    signature: sig,
                    params: Vec::new(),
                    return_type: ty,
                    description: None,
                    line_range: plines,
                    partial_analysis: false,
                };
                proof {
                    assert(e.params@.map_values(|p: Param| param_view(p)) =~= Seq::<(Seq<char>, Seq<char>, bool)>::empty());
                    assert(crate::text::views(e.generics@) =~= Seq::<Seq<char>>::empty());
                }
                push_export(&mut members, e);
                proof {
                    assert(symbol_views(children@) =~= interface_children(module@, bytes@, i.name@, ms.subrange(0, k + 1)));
                    assert(members@.map_values(|x: ApiExport| export_view(x)) =~= interface_members(bytes@, ms.subrange(0, k + 1)));
                }
            },
            ScriptMember::Other => {
                proof {
                    assert(symbol_views(children@) =~= interface_children(module@, bytes@, i.name@, ms.subrange(0, k + 1)));
                    assert(members@.map_values(|x: ApiExport| export_view(x)) =~= interface_members(bytes@, ms.subrange(0, k + 1)));
                }
            },
        }
        k = k + 1;
    }
    proof {
        assert(ms.subrange(0, k as int) =~= ms);
    }
    let sym = Symbol {
        id: symbol_id_exec(module, name.as_str()),
        name: name.clone(),
        kind: String::from_str("interface"),
        line_range: lines,
        children,
        partial_analysis: false,
        partial_reason: None,
        visibility: if exported { Some(Visibility::Public) } else { Some(Visibility::Private) },
        value: None,
        signature: None,
        doc_comment: None,
        attributes: Vec::new(),
        is_async: None,
        return_type: None,
        params: None,
    };
    proof {
        assert(crate::text::views(sym.attributes@) =~= Seq::<Seq<char>>::empty());
    }
    if !exported {
        let r = single(sym, None);
        proof {
            assert(extracted_view(r).0 =~= interface_out(module@, bytes@, *i, exported).0);
            assert(extracted_view(r).1 =~= interface_out(module@, bytes@, *i, exported).1);
        }
        return r;
    }
    let mut sig = String::from_str("export interface ");
    push_text(&mut sig, name.as_str());
    push_text(&mut sig, " { ... }");
    let e = ApiExport {
        name: name.clone(),
        kind: String::from_str("interface"),
        generics: clone_strings(&i.type_params),
        signature: sig,
        params: Vec::new(),
        return_type: None,
        description: None,
        line_range: lines,
        partial_analysis: false,
    };
    proof {
        assert(e.params@.map_values(|p: Param| param_view(p)) =~= Seq::<(Seq<char>, Seq<char>, bool)>::empty());
    }
    let mut r = single(sym, Some(e));
    let ghost r0 = extracted_view(r);
    let rest = Extracted { symbols: Vec::new(), exports: members };
    proof {
        assert(symbol_views(rest.symbols@) =~= Seq::<SymbolSpec>::empty());
    }
    absorb(&mut r, rest);
    proof {
        assert(r0.0 + Seq::<SymbolSpec>::empty() =~= r0.0);
        assert(extracted_view(r).0 =~= interface_out(module@, bytes@, *i, exported).0);
        assert(extracted_view(r).1 =~= interface_out(module@, bytes@, *i, exported).1);
    }
    r
}

fn emit_decl(module: &str, bytes: &Vec<u8>, d: &ScriptDecl, exported: bool) -> (r: Extracted)
    requires
        bytes@.len() < usize::MAX,
    ensures
        extracted_view(r) == decl_out(module@, bytes@, *d, exported),
{
    match d {
        ScriptDecl::Function(f) => match &f.name {
            Some(n) => emit_function(module, bytes, n.clone(), f, exported),
            None => nothing(),
        },
        ScriptDecl::Class(c) => match &c.name {
            Some(n) => emit_class(module, bytes, n.clone(), c, exported),
            None => nothing(),
        },
        ScriptDecl::Variables(ds) => emit_declarators(module, bytes, ds, exported),
        ScriptDecl::TypeAlias(n, sp, tps, text) => emit_alias(module, bytes, n, *sp, tps, text, exported),
        ScriptDecl::Interface(i) => emit_interface(module, bytes, i, exported),
        ScriptDecl::Enum(n, sp) => emit_enum(module, bytes, n, *sp, exported),
        ScriptDecl::Other => nothing(),
    }
}

fn name_or_default_exec(n: &Option<String>) -> (r: String)
    ensures
        r@ == name_or_default(*n),
{
    match n {
        Some(x) => x.clone(),
        None => String::from_str("default"),
    }
}

fn emit_default(module: &str, bytes: &Vec<u8>, d: &ScriptDefault) -> (r: Extracted)
    requires
        bytes@.len() < usize::MAX,
    ensures
        extracted_view(r) == default_out(module@, bytes@, *d),
{
    match d {
        ScriptDefault::Function(f) => emit_function(module, bytes, name_or_default_exec(&f.name), f, true),
        ScriptDefault::Class(c) => emit_class(module, bytes, name_or_default_exec(&c.name), c, true),
        ScriptDefault::Interface(i) => emit_interface(module, bytes, i, true),
        ScriptDefault::Other(sp) => {
            let e = ApiExport {
                name: String::from_str("default"),
                kind: String::from_str("default_export"),
                generics: Vec::new(),
                signature: String::from_str("export default ..."),
                params: Vec::new(),
                return_type: None,
                description: None,
                line_range: lines_of(bytes, *sp),
                partial_analysis: true,
            };
            let mut exports: Vec<ApiExport> = Vec::new();
            push_export(&mut exports, e);
            let r = Extracted { symbols: Vec::new(), exports };
            proof {
                assert(e.params@.map_values(|p: Param| param_view(p)) =~= Seq::<(Seq<char>, Seq<char>, bool)>::empty());
                assert(crate::text::views(e.generics@) =~= Seq::<Seq<char>>::empty());
                assert(symbol_views(r.symbols@) =~= Seq::<SymbolSpec>::empty());
                assert(extracted_view(r).1 =~= default_out(module@, bytes@, *d).1);
            }
            r
        },
    }
}

fn emit_statement(module: &str, bytes: &Vec<u8>, s: &ScriptStatement) -> (r: Extracted)
    requires
        bytes@.len() < usize::MAX,
    ensures
        extracted_view(r) == statement_out(module@, bytes@, *s),
{
    match s {
        ScriptStatement::Decl(d) => emit_decl(module, bytes, d, false),
        ScriptStatement::ExportNamed(Some(d)) => emit_decl(module, bytes, d, true),
        ScriptStatement::ExportDefault(d) => emit_default(module, bytes, d),
        _ => nothing(),
    }
}

/// The symbols and the API of a module from its top-level statements: for each
/// declaration, in order, its symbol (public when exported) with its members, and
/// for each exported one its export, then those of its members; a default export
/// of anything but a function, class or interface is exported as `default`, partly
/// analyzed. Lines are counted in the source's bytes.
pub fn extract_statements(module: &str, source: &str, stmts: &Vec<ScriptStatement>) -> (r: (SymbolIndex, ApiContract))
    requires
        source.spec_bytes().len() < usize::MAX,
    ensures
        r.0.module@ == module@,
        r.1.module@ == module@,
        symbol_views(r.0.symbols@) == script_out(module@, source.spec_bytes(), stmts@).0,
        r.1.exports@.map_values(|x: ApiExport| export_view(x)) == script_out(module@, source.spec_bytes(), stmts@).1,
{
    let bytes = source.as_bytes_vec();
    let mut out = nothing();
    let mut i: usize = 0;
    proof {
        assert(stmts@.subrange(0, 0) =~= Seq::<ScriptStatement>::empty());
    }
    while i < stmts.len()
        invariant
            i <= stmts.len(),
            bytes@ == source.spec_bytes(),
            bytes@.len() < usize::MAX,
            extracted_view(out) == script_out(module@, bytes@, stmts@.subrange(0, i as int)),
        decreases stmts.len() - i,
    {
        proof {
            assert(stmts@.subrange(0, i + 1).drop_last() =~= stmts@.subrange(0, i as int));
        }
        let one = emit_statement(module, &bytes, &stmts[i]);
        absorb(&mut out, one);
        i = i + 1;
    }
    proof {
        assert(stmts@.subrange(0, i as int) =~= stmts@);
    }
    (
        SymbolIndex { module: String::from_str(module), symbols: out.symbols },
        ApiContract { module: String::from_str(module), exports: out.exports },
    )
}

} // verus!
