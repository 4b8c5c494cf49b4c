//! The symbols and the API of a JavaScript module, from its top-level statements.
//! Parameters are untyped (`any`), and a class's methods are symbols of their own.
use vstd::prelude::*;
use crate::symbols::{ApiContract, ApiExport, Param, Symbol, SymbolIndex, SymbolParam, Visibility};
use crate::symbols::script_ast::{ByteSpan, ScriptFunction, ScriptParam};
use crate::symbols::typescript::{
    absorb, export_view, extracted_view, lines_of, nothing, param_name, param_name_exec, push_export, push_symbol,
    span_lines, symbol_id, symbol_id_exec, symbol_view, symbol_views, Extracted, ExportSpec, SymbolSpec,
};
use crate::parser::rust::push_text;
use vstd::string::{StrSliceExecFns, StringSliceAdditionalSpecFns};

verus! {

// ---------------------------------------------------------------------------
// The statements, as the extraction reads them
// ---------------------------------------------------------------------------

/// The key of a class method.
#[derive(Debug)]
pub enum JsKey {
    /// A key written as a name, a string or a number: that text.
    Text(String),
    /// Any other key.
    Computed,
}

/// A method of a class body: its key, whether it is static, whether it is the
/// constructor, its span, and its function.
#[derive(Debug)]
pub struct JsMethod {
    pub key: JsKey,
    pub is_static: bool,
    pub is_constructor: bool,
    pub span: ByteSpan,
    pub function: ScriptFunction,
}

/// A class: its name, span and methods.
#[derive(Debug)]
pub struct JsClass {
    pub name: Option<String>,
    pub span: ByteSpan,
    pub methods: Vec<JsMethod>,
}

/// A variable declarator: the name it binds (through a default value), and its span.
#[derive(Debug)]
pub struct JsDeclarator {
    pub name: Option<String>,
    pub span: ByteSpan,
}

/// A declaration.
#[derive(Debug)]
pub enum JsDecl {
    Function(ScriptFunction),
    Class(JsClass),
    Variables(Vec<JsDeclarator>),
    Other,
}

/// What an `export default` exports.
#[derive(Debug)]
pub enum JsDefault {
    /// A function expression.
    Function(ScriptFunction),
    /// A class expression.
    Class(JsClass),
    Other,
}

/// A top-level statement.
#[derive(Debug)]
pub enum JsStatement {
    Decl(JsDecl),
    /// `export` of a declaration, or of names only.
    ExportNamed(Option<JsDecl>),
    ExportDefault(JsDefault),
    /// `export * from source`, with its span.
    ExportAll(String, ByteSpan),
    Other,
}

// ---------------------------------------------------------------------------
// What each statement gives
// ---------------------------------------------------------------------------

pub open spec fn any_triple(p: ScriptParam) -> (Seq<char>, Seq<char>, bool) {
    (param_name(p), "any"@, p.optional)
}

pub open spec fn any_triples(ps: Seq<ScriptParam>) -> Seq<(Seq<char>, Seq<char>, bool)> {
    ps.map_values(|p: ScriptParam| any_triple(p))
}

/// `name: any` for each parameter, separated by `, `.
pub open spec fn any_params_text(ps: Seq<ScriptParam>) -> Seq<char>
    decreases ps.len(),
{
    if ps.len() == 0 {
        Seq::empty()
    } else if ps.len() == 1 {
        param_name(ps[0]) + ": any"@
    } else {
        any_params_text(ps.drop_last()) + ", "@ + param_name(ps.last()) + ": any"@
    }
}

pub open spec fn function_kind(f: ScriptFunction) -> Seq<char> {
    if f.is_async {
        "async_function"@
    } else {
        "function"@
    }
}

/// `name(a: any, b: any)`, the name empty for an anonymous function.
pub open spec fn function_sig(f: ScriptFunction) -> Seq<char> {
    let name = match f.name {
        Some(n) => n@,
        None => Seq::empty(),
    };
    name + "("@ + any_params_text(f.params@) + ")"@
}

pub open spec fn public_if(exported: bool) -> Option<Visibility> {
    if exported {
        Some(Visibility::Public)
    } else {
        None
    }
}

pub open spec fn bare_symbol(
    module: Seq<char>,
    name: Seq<char>,
    kind: Seq<char>,
    lines: Seq<usize>,
    visibility: Option<Visibility>,
    signature: Option<Seq<char>>,
) -> SymbolSpec {
    SymbolSpec {
        id: symbol_id(module, name),
        name,
        kind,
        lines,
        children: Seq::empty(),
        partial_analysis: false,
        partial_reason: None,
        visibility,
        value: None,
        signature,
        doc_comment: None,
        attributes: Seq::empty(),
        is_async: None,
        return_type: None,
        params: None,
    }
}

pub open spec fn bare_export(name: Seq<char>, kind: Seq<char>, signature: Seq<char>, lines: Seq<usize>) -> ExportSpec {
    ExportSpec {
        name,
        kind,
        generics: Seq::empty(),
        signature,
        params: Seq::empty(),
        return_type: None,
        description: None,
        lines,
        partial_analysis: false,
    }
}

/// The symbol of a named function.
pub open spec fn js_function_symbol(module: Seq<char>, bytes: Seq<u8>, name: Seq<char>, f: ScriptFunction, exported: bool) -> SymbolSpec {
    SymbolSpec {
        is_async: Some(f.is_async),
        params: Some(crate::symbols::typescript::no_defaults(any_triples(f.params@))),
        ..bare_symbol(module, name, function_kind(f), span_lines(bytes, f.span), public_if(exported), Some(function_sig(f)))
    }
}

pub open spec fn js_function_export(bytes: Seq<u8>, name: Seq<char>, f: ScriptFunction) -> ExportSpec {
    ExportSpec {
        params: any_triples(f.params@),
        ..bare_export(name, function_kind(f), function_sig(f), span_lines(bytes, f.span))
    }
}

pub open spec fn key_name(k: JsKey) -> Seq<char> {
    match k {
        JsKey::Text(t) => t@,
        JsKey::Computed => "computed"@,
    }
}

pub open spec fn method_kind(m: JsMethod) -> Seq<char> {
    if m.is_constructor {
        "constructor"@
    } else {
        "method"@
    }
}

/// `static method name()`, `method name()` or `constructor name()`.
pub open spec fn method_sig(m: JsMethod) -> Seq<char> {
    (if m.is_static { "static "@ } else { Seq::empty() }) + method_kind(m) + " "@ + key_name(m.key) + "()"@
}

pub open spec fn method_symbol(module: Seq<char>, bytes: Seq<u8>, m: JsMethod) -> SymbolSpec {
    SymbolSpec {
        is_async: Some(m.function.is_async),
        params: Some(crate::symbols::typescript::no_defaults(any_triples(m.function.params@))),
        ..bare_symbol(module, key_name(m.key), method_kind(m), span_lines(bytes, m.span), Some(Visibility::Public), Some(method_sig(m)))
    }
}

/// The symbols of a class's methods, in order.
pub open spec fn methods_out(module: Seq<char>, bytes: Seq<u8>, ms: Seq<JsMethod>) -> Seq<SymbolSpec>
    decreases ms.len(),
{
    if ms.len() == 0 {
        Seq::empty()
    } else {
        methods_out(module, bytes, ms.drop_last()).push(method_symbol(module, bytes, ms.last()))
    }
}

/// A declarator binds a name other than `_`.
pub open spec fn binds(d: JsDeclarator) -> bool {
    d.name matches Some(n) && n@ != "_"@
}

pub open spec fn declarator_name(d: JsDeclarator) -> Seq<char> {
    match d.name {
        Some(n) => n@,
        None => "_"@,
    }
}

pub open spec fn variable_sig(name: Seq<char>) -> Seq<char> {
    "const "@ + name + ": unknown"@
}

pub open spec fn variables_out(module: Seq<char>, bytes: Seq<u8>, ds: Seq<JsDeclarator>, exported: bool) -> (Seq<SymbolSpec>, Seq<ExportSpec>)
    decreases ds.len(),
{
    if ds.len() == 0 {
        (Seq::empty(), Seq::empty())
    } else {
        let r = variables_out(module, bytes, ds.drop_last(), exported);
        let d = ds.last();
        if binds(d) {
            let n = declarator_name(d);
            let lines = span_lines(bytes, d.span);
            (
                r.0.push(bare_symbol(module, n, "variable"@, lines, public_if(exported), Some(variable_sig(n)))),
                if exported {
                    r.1.push(bare_export(n, "variable"@, variable_sig(n), lines))
                } else {
                    r.1
                },
            )
        } else {
            r
        }
    }
}

pub open spec fn decl_out(module: Seq<char>, bytes: Seq<u8>, d: JsDecl, exported: bool) -> (Seq<SymbolSpec>, Seq<ExportSpec>) {
    match d {
        JsDecl::Function(f) => match f.name {
            Some(n) => (
                seq![js_function_symbol(module, bytes, n@, f, exported)],
                if exported { seq![js_function_export(bytes, n@, f)] } else { Seq::empty() },
            ),
            None => (Seq::empty(), Seq::empty()),
        },
        JsDecl::Class(c) => match c.name {
            Some(n) => (
                seq![bare_symbol(module, n@, "class"@, span_lines(bytes, c.span), public_if(exported), None)]
                    + methods_out(module, bytes, c.methods@),
                if exported { seq![bare_export(n@, "class"@, Seq::empty(), span_lines(bytes, c.span))] } else { Seq::empty() },
            ),
            None => (Seq::empty(), Seq::empty()),
        },
        JsDecl::Variables(ds) => variables_out(module, bytes, ds@, exported),
        JsDecl::Other => (Seq::empty(), Seq::empty()),
    }
}

pub open spec fn name_or_default(n: Option<String>) -> Seq<char> {
    match n {
        Some(x) => x@,
        None => "default"@,
    }
}

/// A default export gives an export named after its function or class (or
/// `default`), and the symbols of a class's methods.
pub open spec fn default_out(module: Seq<char>, bytes: Seq<u8>, d: JsDefault) -> (Seq<SymbolSpec>, Seq<ExportSpec>) {
    match d {
        JsDefault::Function(f) => (Seq::empty(), seq![js_function_export(bytes, name_or_default(f.name), f)]),
        JsDefault::Class(c) => (
            methods_out(module, bytes, c.methods@),
            seq![bare_export(name_or_default(c.name), "class"@, Seq::empty(), span_lines(bytes, c.span))],
        ),
        JsDefault::Other => (Seq::empty(), seq![bare_export("default"@, "expression"@, Seq::empty(), seq![1usize, 1usize])]),
    }
}

pub open spec fn statement_out(module: Seq<char>, bytes: Seq<u8>, s: JsStatement) -> (Seq<SymbolSpec>, Seq<ExportSpec>) {
    match s {
        JsStatement::Decl(d) => decl_out(module, bytes, d, false),
        JsStatement::ExportNamed(Some(d)) => decl_out(module, bytes, d, true),
        JsStatement::ExportNamed(None) => (Seq::empty(), Seq::empty()),
        JsStatement::ExportDefault(d) => default_out(module, bytes, d),
        JsStatement::ExportAll(src, sp) => (
            Seq::empty(),
            seq![bare_export("* from "@ + src@, "re-export"@, Seq::empty(), span_lines(bytes, sp))],
        ),
        JsStatement::Other => (Seq::empty(), Seq::empty()),
    }
}

/// The symbols and exports of a list of statements, in order.
pub open spec fn module_out(module: Seq<char>, bytes: Seq<u8>, stmts: Seq<JsStatement>) -> (Seq<SymbolSpec>, Seq<ExportSpec>)
    decreases stmts.len(),
{
    if stmts.len() == 0 {
        (Seq::empty(), Seq::empty())
    } else {
        let r = module_out(module, bytes, stmts.drop_last());
        let s = statement_out(module, bytes, stmts.last());
        (r.0 + s.0, r.1 + s.1)
    }
}

// ---------------------------------------------------------------------------
// Building the symbols and exports
// ---------------------------------------------------------------------------

fn any_params(ps: &Vec<ScriptParam>) -> (r: (Vec<Param>, Vec<SymbolParam>))
    ensures
        r.0@.map_values(|p: Param| crate::symbols::typescript::param_view(p)) == any_triples(ps@),
        r.1@.map_values(|p: SymbolParam| crate::symbols::typescript::symbol_param_triple(p)) == any_triples(ps@),
        r.1@.map_values(|p: SymbolParam| crate::symbols::typescript::symbol_param_view(p)) == crate::symbols::typescript::no_defaults(any_triples(ps@)),
        forall|i: int| 0 <= i < r.1@.len() ==> (#[trigger] r.1@[i]).default_value is None,
{
    let mut a: Vec<Param> = Vec::new();
    let mut b: Vec<SymbolParam> = Vec::new();
    let mut i: usize = 0;
    while i < ps.len()
        invariant
            i <= ps.len(),
            a@.map_values(|p: Param| crate::symbols::typescript::param_view(p)) == any_triples(ps@.subrange(0, i as int)),
            b@.map_values(|p: SymbolParam| crate::symbols::typescript::symbol_param_triple(p)) == any_triples(ps@.subrange(0, i as int)),
            forall|j: int| 0 <= j < b@.len() ==> (#[trigger] b@[j]).default_value is None,
        decreases ps.len() - i,
    {
        let name = param_name_exec(&ps[i]);
        let ghost a0 = a@;
        let ghost b0 = b@;
        a.push(Param { name: name.clone(), ty: String::from_str("any"), optional: ps[i].optional });
        b.push(SymbolParam { name, ty: String::from_str("any"), optional: ps[i].optional, default_value: None });
        proof {
            assert(any_triples(ps@.subrange(0, i + 1)) =~= any_triples(ps@.subrange(0, i as int)).push(any_triple(ps@[i as int])));
            assert(a@.map_values(|p: Param| crate::symbols::typescript::param_view(p)) =~= a0.map_values(
                |p: Param| crate::symbols::typescript::param_view(p),
            ).push(any_triple(ps@[i as int])));
            assert(b@.map_values(|p: SymbolParam| crate::symbols::typescript::symbol_param_triple(p)) =~= b0.map_values(
                |p: SymbolParam| crate::symbols::typescript::symbol_param_triple(p),
            ).push(any_triple(ps@[i as int])));
        }
        i = i + 1;
    }
    proof {
        assert(ps@.subrange(0, ps.len() as int) =~= ps@);
        crate::symbols::typescript::lemma_no_defaults(b@, any_triples(ps@));
    }
    (a, b)
}

fn any_params_text_exec(ps: &Vec<ScriptParam>) -> (r: String)
    ensures
        r@ == any_params_text(ps@),
{
    let mut out = String::from_str("");
    proof {
        reveal_strlit("");
    }
    let mut i: usize = 0;
    while i < ps.len()
        invariant
            i <= ps.len(),
            out@ == any_params_text(ps@.subrange(0, i as int)),
        decreases ps.len() - i,
    {
        proof {
            assert(ps@.subrange(0, i + 1).drop_last() =~= ps@.subrange(0, i as int));
        }
        if i > 0 {
            push_text(&mut out, ", ");
        }
        let n = param_name_exec(&ps[i]);
        push_text(&mut out, n.as_str());
        push_text(&mut out, ": any");
        proof {
            if i == 0 {
                assert(out@ =~= any_params_text(ps@.subrange(0, 1)));
            } else {
                assert(out@ =~= any_params_text(ps@.subrange(0, i + 1)));
            }
        }
        i = i + 1;
    }
    proof {
        assert(ps@.subrange(0, ps.len() as int) =~= ps@);
    }
    out
}

fn function_sig_exec(f: &ScriptFunction) -> (r: String)
    ensures
        r@ == function_sig(*f),
{
    let mut sig = match &f.name {
        Some(n) => n.clone(),
        None => {
            proof {
                reveal_strlit("");
            }
            String::from_str("")
        },
    };
    push_text(&mut sig, "(");
    let pt = any_params_text_exec(&f.params);
    push_text(&mut sig, pt.as_str());
    push_text(&mut sig, ")");
    proof {
        assert(sig@ =~= function_sig(*f));
    }
    sig
}

fn function_kind_exec(f: &ScriptFunction) -> (r: String)
    ensures
        r@ == function_kind(*f),
{
    if f.is_async {
        String::from_str("async_function")
    } else {
        String::from_str("function")
    }
}

fn function_export(bytes: &Vec<u8>, name: String, f: &ScriptFunction) -> (r: ApiExport)
    requires
        bytes@.len() < usize::MAX,
    ensures
        export_view(r) == js_function_export(bytes@, name@, *f),
{
    let (params, _) = any_params(&f.params);
    let e = ApiExport {
        name,
        kind: function_kind_exec(f),
        generics: Vec::new(),
        signature: function_sig_exec(f),
        params,
        return_type: None,
        description: None,
        line_range: lines_of(bytes, f.span),
        partial_analysis: false,
    };
    proof {
        assert(crate::text::views(e.generics@) =~= Seq::<Seq<char>>::empty());
    }
    e
}

fn function_symbol(module: &str, bytes: &Vec<u8>, name: &String, f: &ScriptFunction, exported: bool) -> (r: Symbol)
    requires
        bytes@.len() < usize::MAX,
    ensures
        symbol_view(r) == js_function_symbol(module@, bytes@, name@, *f, exported),
{
    let (_, sparams) = any_params(&f.params);
    let s = Symbol {
        id: symbol_id_exec(module, name.as_str()),
        name: name.clone(),
        kind: function_kind_exec(f),
        line_range: lines_of(bytes, f.span),
        children: Vec::new(),
        partial_analysis: false,
        partial_reason: None,
        visibility: if exported { Some(Visibility::Public) } else { None },
        value: None,
        signature: Some(function_sig_exec(f)),
        doc_comment: None,
        attributes: Vec::new(),
        is_async: Some(f.is_async),
        return_type: None,
        params: Some(sparams),
    };
    proof {
        assert(symbol_views(s.children@) =~= Seq::<SymbolSpec>::empty());
        assert(crate::text::views(s.attributes@) =~= Seq::<Seq<char>>::empty());
    }
    s
}

fn bare_symbol_exec(
    module: &str,
    name: &String,
    kind: &str,
    lines: [usize; 2],
    visibility: Option<Visibility>,
    signature: Option<String>,
) -> (r: Symbol)
    ensures
        symbol_view(r) == bare_symbol(module@, name@, kind@, lines@, visibility, match signature {
            Some(t) => Some(t@),
            None => None,
        }),
{
    let s = Symbol {
        id: symbol_id_exec(module, name.as_str()),
        name: name.clone(),
        kind: String::from_str(kind),
        line_range: lines,
        children: Vec::new(),
        partial_analysis: false,
        partial_reason: None,
        visibility,
        value: None,
        signature,
        doc_comment: None,
        attributes: Vec::new(),
        is_async: None,
        return_type: None,
        params: None,
    };
    proof {
        assert(symbol_views(s.children@) =~= Seq::<SymbolSpec>::empty());
        assert(crate::text::views(s.attributes@) =~= Seq::<Seq<char>>::empty());
    }
    s
}

fn bare_export_exec(name: String, kind: &str, signature: String, lines: [usize; 2]) -> (r: ApiExport)
    ensures
        export_view(r) == bare_export(name@, kind@, signature@, lines@),
{
    let e = ApiExport {
        name,
        kind: String::from_str(kind),
        generics: Vec::new(),
        signature,
        params: Vec::new(),
        return_type: None,
        description: None,
        line_range: lines,
        partial_analysis: false,
    };
    proof {
        assert(crate::text::views(e.generics@) =~= Seq::<Seq<char>>::empty());
        assert(e.params@.map_values(|p: Param| crate::symbols::typescript::param_view(p)) =~= Seq::<(Seq<char>, Seq<char>, bool)>::empty());
    }
    e
}

fn key_name_exec(k: &JsKey) -> (r: String)
    ensures
        r@ == key_name(*k),
{
    match k {
        JsKey::Text(t) => t.clone(),
        JsKey::Computed => String::from_str("computed"),
    }
}

fn method_symbol_exec(module: &str, bytes: &Vec<u8>, m: &JsMethod) -> (r: Symbol)
    requires
        bytes@.len() < usize::MAX,
    ensures
        symbol_view(r) == method_symbol(module@, bytes@, *m),
{
    let name = key_name_exec(&m.key);
    let kind = if m.is_constructor { String::from_str("constructor") } else { String::from_str("method") };
    let mut sig = if m.is_static {
        String::from_str("static ")
    } else {
        proof {
            reveal_strlit("");
        }
        String::from_str("")
    };
    push_text(&mut sig, kind.as_str());
    push_text(&mut sig, " ");
    push_text(&mut sig, name.as_str());
    push_text(&mut sig, "()");
    proof {
        assert(sig@ =~= method_sig(*m));
    }
    let (_, sparams) = any_params(&m.function.params);
    let s = Symbol {
        id: symbol_id_exec(module, name.as_str()),
        name,
        kind,
        line_range: lines_of(bytes, m.span),
        children: Vec::new(),
        partial_analysis: false,
        partial_reason: None,
        visibility: Some(Visibility::Public),
        value: None,
        signature: Some(sig),
        doc_comment: None,
        attributes: Vec::new(),
        is_async: Some(m.function.is_async),
        return_type: None,
        params: Some(sparams),
    };
    proof {
        assert(symbol_views(s.children@) =~= Seq::<SymbolSpec>::empty());
        assert(crate::text::views(s.attributes@) =~= Seq::<Seq<char>>::empty());
    }
    s
}

/// Appends the symbols of a class's methods.
fn push_methods(out: &mut Vec<Symbol>, module: &str, bytes: &Vec<u8>, ms: &Vec<JsMethod>)
    requires
        bytes@.len() < usize::MAX,
    ensures
        symbol_views(final(out)@) == symbol_views(old(out)@) + methods_out(module@, bytes@, ms@),
{
    let ghost s0 = symbol_views(out@);
    let mut i: usize = 0;
    proof {
        assert(ms@.subrange(0, 0) =~= Seq::<JsMethod>::empty());
        assert(s0 + methods_out(module@, bytes@, ms@.subrange(0, 0)) =~= s0);
    }
    while i < ms.len()
        invariant
            i <= ms.len(),
            bytes@.len() < usize::MAX,
            symbol_views(out@) == s0 + methods_out(module@, bytes@, ms@.subrange(0, i as int)),
        decreases ms.len() - i,
    {
        proof {
            assert(ms@.subrange(0, i + 1).drop_last() =~= ms@.subrange(0, i as int));
        }
        let s = method_symbol_exec(module, bytes, &ms[i]);
        push_symbol(out, s);
        proof {
            assert(symbol_views(out@) =~= s0 + methods_out(module@, bytes@, ms@.subrange(0, i + 1)));
        }
        i = i + 1;
    }
    proof {
        assert(ms@.subrange(0, i as int) =~= ms@);
    }
}

fn no_text() -> (r: String)
    ensures
        r@ == Seq::<char>::empty(),
{
    let r = String::from_str("");
    proof {
        reveal_strlit("");
        assert(r@ =~= Seq::<char>::empty());
    }
    r
}

fn fresh() -> (r: Extracted)
    ensures
        r.symbols@.len() == 0,
        r.exports@.len() == 0,
        extracted_view(r) == (Seq::<SymbolSpec>::empty(), Seq::<ExportSpec>::empty()),
{
    let r = Extracted { symbols: Vec::new(), exports: Vec::new() };
    proof {
        assert(extracted_view(r).1 =~= Seq::<ExportSpec>::empty());
    }
    r
}

fn emit_variables(module: &str, bytes: &Vec<u8>, ds: &Vec<JsDeclarator>, exported: bool) -> (r: Extracted)
    requires
        bytes@.len() < usize::MAX,
    ensures
        extracted_view(r) == variables_out(module@, bytes@, ds@, exported),
{
    let mut out = fresh();
    let mut i: usize = 0;
    proof {
        assert(ds@.subrange(0, 0) =~= Seq::<JsDeclarator>::empty());
    }
    while i < ds.len()
        invariant
            i <= ds.len(),
            bytes@.len() < usize::MAX,
            extracted_view(out) == variables_out(module@, bytes@, ds@.subrange(0, i as int), exported),
        decreases ds.len() - i,
    {
        proof {
            assert(ds@.subrange(0, i + 1).drop_last() =~= ds@.subrange(0, i as int));
            assert(ds@.subrange(0, i + 1).last() == ds@[i as int]);
        }
        match &ds[i].name {
            Some(n) => {
                if !crate::naming::same_chars(&crate::text::chars_of(n.as_str()), &crate::text::chars_of("_")) {
                    let lines = lines_of(bytes, ds[i].span);
                    let mut sig = String::from_str("const ");
                    push_text(&mut sig, n.as_str());
                    push_text(&mut sig, ": unknown");
                    let sym = bare_symbol_exec(
                        module,
                        n,
                        "variable",
                        lines,
                        if exported { Some(Visibility::Public) } else { None },
                        Some(sig.clone()),
                    );
                    push_symbol(&mut out.symbols, sym);
                    if exported {
                        let e = bare_export_exec(n.clone(), "variable", sig, lines);
                        push_export(&mut out.exports, e);
                    }
                }
            },
            None => {
                proof {
                    reveal_strlit("_");
                }
            },
        }
        i = i + 1;
    }
    proof {
        assert(ds@.subrange(0, i as int) =~= ds@);
    }
    out
}

fn emit_decl(module: &str, bytes: &Vec<u8>, d: &JsDecl, exported: bool) -> (r: Extracted)
    requires
        bytes@.len() < usize::MAX,
    ensures
        extracted_view(r) == decl_out(module@, bytes@, *d, exported),
{
    match d {
        JsDecl::Function(f) => match &f.name {
            Some(n) => {
                let mut out = fresh();
                push_symbol(&mut out.symbols, function_symbol(module, bytes, n, f, exported));
                if exported {
                    push_export(&mut out.exports, function_export(bytes, n.clone(), f));
                }
                proof {
                    assert(extracted_view(out).0 =~= decl_out(module@, bytes@, *d, exported).0);
                    assert(extracted_view(out).1 =~= decl_out(module@, bytes@, *d, exported).1);
                }
                out
            },
            None => nothing(),
        },
        JsDecl::Class(c) => match &c.name {
            Some(n) => {
                let mut out = fresh();
                let lines = lines_of(bytes, c.span);
                let sym = bare_symbol_exec(module, n, "class", lines, if exported { Some(Visibility::Public) } else { None }, None);
                push_symbol(&mut out.symbols, sym);
                if exported {
                    proof {
                        reveal_strlit("");
                    }
                    push_export(&mut out.exports, bare_export_exec(n.clone(), "class", no_text(), lines));
                }
                push_methods(&mut out.symbols, module, bytes, &c.methods);
                proof {
                    reveal_strlit("");
                    assert(extracted_view(out).0 =~= decl_out(module@, bytes@, *d, exported).0);
                    assert(extracted_view(out).1 =~= decl_out(module@, bytes@, *d, exported).1);
                }
                out
            },
            None => nothing(),
        },
        JsDecl::Variables(ds) => emit_variables(module, bytes, ds, exported),
        JsDecl::Other => nothing(),
    }
}

fn name_or_default_exec(n: &Option<String>) -> (r: String)
    ensures
        r@ == name_or_default(*n),
{
    match n {
        Some(x) => x.clone(),
        None => String::from_str("default"),
    }
}

fn emit_default(module: &str, bytes: &Vec<u8>, d: &JsDefault) -> (r: Extracted)
    requires
        bytes@.len() < usize::MAX,
    ensures
        extracted_view(r) == default_out(module@, bytes@, *d),
{
    let mut out = fresh();
    proof {
        reveal_strlit("");
    }
    match d {
        JsDefault::Function(f) => {
            let e = function_export(bytes, name_or_default_exec(&f.name), f);
            push_export(&mut out.exports, e);
        },
        JsDefault::Class(c) => {
            let lines = lines_of(bytes, c.span);
            push_export(&mut out.exports, bare_export_exec(name_or_default_exec(&c.name), "class", no_text(), lines));
            push_methods(&mut out.symbols, module, bytes, &c.methods);
        },
        JsDefault::Other => {
            let empty = String::from_str("");
            proof {
                reveal_strlit("");
                assert(empty@ =~= Seq::<char>::empty());
            }
            let e = bare_export_exec(String::from_str("default"), "expression", empty, [1, 1]);
            proof {
                assert([1usize, 1usize]@ =~= seq![1usize, 1usize]);
                assert(export_view(e) == bare_export("default"@, "expression"@, Seq::empty(), seq![1usize, 1usize]));
            }
            push_export(&mut out.exports, e);
        },
    }
    proof {
        assert(extracted_view(out).0 =~= default_out(module@, bytes@, *d).0);
        assert(extracted_view(out).1 =~= default_out(module@, bytes@, *d).1);
    }
    out
}

fn emit_statement(module: &str, bytes: &Vec<u8>, s: &JsStatement) -> (r: Extracted)
    requires
        bytes@.len() < usize::MAX,
    ensures
        extracted_view(r) == statement_out(module@, bytes@, *s),
{
    match s {
        JsStatement::Decl(d) => emit_decl(module, bytes, d, false),
        JsStatement::ExportNamed(Some(d)) => emit_decl(module, bytes, d, true),
        JsStatement::ExportDefault(d) => emit_default(module, bytes, d),
        JsStatement::ExportAll(src, sp) => {
            let mut out = fresh();
            let mut name = String::from_str("* from ");
            push_text(&mut name, src.as_str());
            proof {
                reveal_strlit("");
            }
            push_export(&mut out.exports, bare_export_exec(name, "re-export", no_text(), lines_of(bytes, *sp)));
            proof {
                assert(extracted_view(out).0 =~= statement_out(module@, bytes@, *s).0);
                assert(extracted_view(out).1 =~= statement_out(module@, bytes@, *s).1);
            }
            out
        },
        _ => nothing(),
    }
}

/// The symbols and the API of a JavaScript module from its top-level statements.
/// Each function, class and variable (other than `_`) gives a symbol, public when
/// exported and without visibility otherwise; a class's methods follow it as
/// symbols of their own; each exported one gives an export. A default export is
/// named after its function or class expression, or `default`; `export *` gives a
/// re-export. Parameters are typed `any`. Lines are counted in the source's bytes.
pub fn extract_statements(module: &str, source: &str, stmts: &Vec<JsStatement>) -> (r: (SymbolIndex, ApiContract))
    requires
        source.spec_bytes().len() < usize::MAX,
    ensures
        r.0.module@ == module@,
        r.1.module@ == module@,
        symbol_views(r.0.symbols@) == module_out(module@, source.spec_bytes(), stmts@).0,
        r.1.exports@.map_values(|x: ApiExport| export_view(x)) == module_out(module@, source.spec_bytes(), stmts@).1,
{
    let bytes = source.as_bytes_vec();
    let mut out = fresh();
    let mut i: usize = 0;
    proof {
        assert(stmts@.subrange(0, 0) =~= Seq::<JsStatement>::empty());
    }
    while i < stmts.len()
        invariant
            i <= stmts.len(),
            bytes@ == source.spec_bytes(),
            bytes@.len() < usize::MAX,
            extracted_view(out) == module_out(module@, bytes@, stmts@.subrange(0, i as int)),
        decreases stmts.len() - i,
    {
        proof {
            assert(stmts@.subrange(0, i + 1).drop_last() =~= stmts@.subrange(0, i as int));
        }
        let one = emit_statement(module, &bytes, &stmts[i]);
        absorb(&mut out, one);
        i = i + 1;
    }
    proof {
        assert(stmts@.subrange(0, i as int) =~= stmts@);
    }
    (
        SymbolIndex { module: String::from_str(module), symbols: out.symbols },
        ApiContract { module: String::from_str(module), exports: out.exports },
    )
}

} // verus!
