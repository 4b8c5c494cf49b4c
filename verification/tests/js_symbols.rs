use migration_assessor::symbols::javascript::{
    extract_statements, JsClass, JsDecl, JsDeclarator, JsDefault, JsKey, JsMethod, JsStatement,
};
use migration_assessor::symbols::script_ast::{ByteSpan, ScriptFunction, ScriptParam};
use migration_assessor::symbols::Visibility;

fn span(start: u32, end: u32) -> ByteSpan {
    ByteSpan { start, end }
}

fn param(name: &str) -> ScriptParam {
    ScriptParam { name: Some(name.to_string()), type_text: None, optional: false }
}

fn function(name: Option<&str>, start: u32, end: u32, is_async: bool, params: Vec<ScriptParam>) -> ScriptFunction {
    ScriptFunction {
        name: name.map(|n| n.to_string()),
        span: span(start, end),
        is_async,
        params,
        return_text: None,
        type_params: vec![],
    }
}

#[test]
fn plain_function_declaration() {
    let source = "function add(a, b) { return a + b; }";
    let stmts = vec![JsStatement::Decl(JsDecl::Function(function(Some("add"), 0, 37, false, vec![param("a"), param("b")])))];
    let (index, api) = extract_statements("test.js", source, &stmts);
    assert_eq!(index.symbols.len(), 1);
    let s = &index.symbols[0];
    assert_eq!(s.name, "add");
    assert_eq!(s.id, "test.js:add");
    assert_eq!(s.kind, "function");
    assert_eq!(s.visibility, None);
    assert_eq!(s.signature.as_deref(), Some("add(a: any, b: any)"));
    assert_eq!(s.params.as_ref().unwrap()[1].ty, "any");
    assert_eq!(s.line_range, [1, 1]);
    assert!(api.exports.is_empty());
}

#[test]
fn async_function_kind() {
    let source = "async function fetchData() { return await fetch('/data'); }";
    let stmts = vec![JsStatement::Decl(JsDecl::Function(function(Some("fetchData"), 0, 60, true, vec![])))];
    let (index, _) = extract_statements("test.js", source, &stmts);
    assert_eq!(index.symbols[0].is_async, Some(true));
    assert_eq!(index.symbols[0].kind, "async_function");
}

#[test]
fn exported_function_and_variables() {
    let source = "export function greet(name) {}\nexport const a = 1, _ = 2;\nlet b = 2;";
    let stmts = vec![
        JsStatement::ExportNamed(Some(JsDecl::Function(function(Some("greet"), 7, 30, false, vec![param("name")])))),
        JsStatement::ExportNamed(Some(JsDecl::Variables(vec![
            JsDeclarator { name: Some("a".to_string()), span: span(44, 49) },
            JsDeclarator { name: Some("_".to_string()), span: span(51, 56) },
        ]))),
        JsStatement::Decl(JsDecl::Variables(vec![JsDeclarator { name: Some("b".to_string()), span: span(62, 67) }])),
    ];
    let (index, api) = extract_statements("test.js", source, &stmts);
    assert_eq!(index.symbols.len(), 3);
    assert_eq!(index.symbols[0].visibility, Some(Visibility::Public));
    assert_eq!(index.symbols[1].name, "a");
    assert_eq!(index.symbols[1].kind, "variable");
    assert_eq!(index.symbols[1].signature.as_deref(), Some("const a: unknown"));
    assert_eq!(index.symbols[1].line_range, [2, 2]);
    assert_eq!(index.symbols[2].name, "b");
    assert_eq!(index.symbols[2].visibility, None);
    assert_eq!(api.exports.len(), 2);
    assert_eq!(api.exports[0].name, "greet");
    assert_eq!(api.exports[0].signature, "greet(name: any)");
    assert_eq!(api.exports[1].name, "a");
    assert_eq!(api.exports[1].kind, "variable");
}

#[test]
fn class_with_methods() {
    let source = "export class Animal { constructor(n) {} static make() {} speak() {} }";
    let methods = vec![
        JsMethod {
            key: JsKey::Text("constructor".to_string()),
            is_static: false,
            is_constructor: true,
            span: span(22, 39),
            function: function(None, 33, 39, false, vec![param("n")]),
        },
        JsMethod {
            key: JsKey::Text("make".to_string()),
            is_static: true,
            is_constructor: false,
            span: span(40, 56),
            function: function(None, 51, 56, false, vec![]),
        },
        JsMethod {
            key: JsKey::Computed,
            is_static: false,
            is_constructor: false,
            span: span(57, 67),
            function: function(None, 62, 67, true, vec![]),
        },
    ];
    let class = JsClass { name: Some("Animal".to_string()), span: span(7, 69), methods };
    let stmts = vec![JsStatement::ExportNamed(Some(JsDecl::Class(class)))];
    let (index, api) = extract_statements("a.js", source, &stmts);
    assert_eq!(index.symbols.len(), 4);
    assert_eq!(index.symbols[0].name, "Animal");
    assert_eq!(index.symbols[0].kind, "class");
    assert!(index.symbols[0].children.is_empty());
    assert_eq!(index.symbols[1].kind, "constructor");
    assert_eq!(index.symbols[1].signature.as_deref(), Some("constructor constructor()"));
    assert_eq!(index.symbols[1].id, "a.js:constructor");
    assert_eq!(index.symbols[2].signature.as_deref(), Some("static method make()"));
    assert_eq!(index.symbols[3].name, "computed");
    assert_eq!(index.symbols[3].is_async, Some(true));
    assert_eq!(api.exports.len(), 1);
    assert_eq!(api.exports[0].kind, "class");
    assert_eq!(api.exports[0].signature, "");
}

#[test]
fn default_exports_and_reexports() {
    let source = "export default function() {}\nexport * from './x';";
    let stmts = vec![
        JsStatement::ExportDefault(JsDefault::Other),
        JsStatement::ExportAll("./x".to_string(), span(29, 49)),
        JsStatement::ExportDefault(JsDefault::Function(function(None, 0, 10, false, vec![]))),
    ];
    let (index, api) = extract_statements("m.js", source, &stmts);
    assert!(index.symbols.is_empty());
    assert_eq!(api.exports.len(), 3);
    assert_eq!(api.exports[0].name, "default");
    assert_eq!(api.exports[0].kind, "expression");
    assert_eq!(api.exports[0].line_range, [1, 1]);
    assert_eq!(api.exports[1].name, "* from ./x");
    assert_eq!(api.exports[1].kind, "re-export");
    assert_eq!(api.exports[1].line_range, [2, 2]);
    assert_eq!(api.exports[2].name, "default");
    assert_eq!(api.exports[2].signature, "()");
}

#[test]
fn empty_module() {
    let (index, api) = extract_statements("test.js", "", &vec![]);
    assert!(index.symbols.is_empty());
    assert!(api.exports.is_empty());
}
