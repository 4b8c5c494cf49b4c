use migration_assessor::ast::script_output;
use migration_assessor::symbols::script_ast::{
    ByteSpan, ScriptClass, ScriptClassElement, ScriptDecl, ScriptDeclarator, ScriptDefault, ScriptFunction,
    ScriptInit, ScriptInterface, ScriptKey, ScriptMember, ScriptParam, ScriptStatement,
};
use migration_assessor::symbols::typescript::extract_statements;
use migration_assessor::symbols::Visibility;

fn span(start: u32, end: u32) -> ByteSpan {
    ByteSpan { start, end }
}

fn greet() -> ScriptFunction {
    ScriptFunction {
        name: Some("greet".to_string()),
        span: span(7, 63),
        is_async: false,
        params: vec![ScriptParam { name: Some("name".to_string()), type_text: Some(": string".to_string()), optional: false }],
        return_text: Some(": string".to_string()),
        type_params: vec![],
    }
}

#[test]
fn exported_function_gives_symbol_and_export() {
    let source = "export function greet(name: string): string {\n  return name;\n}";
    let stmts = vec![ScriptStatement::ExportNamed(Some(ScriptDecl::Function(greet())))];
    let (index, api) = extract_statements("test.ts", source, &stmts);
    assert_eq!(index.symbols.len(), 1);
    let s = &index.symbols[0];
    assert_eq!(s.id, "test.ts:greet");
    assert_eq!(s.kind, "function");
    assert_eq!(s.visibility, Some(Visibility::Public));
    assert_eq!(s.line_range, [1, 3]);
    assert_eq!(s.signature.as_deref(), Some("export function greet(name: string) -> string"));
    assert_eq!(s.return_type.as_deref(), Some("string"));
    assert_eq!(s.is_async, Some(false));
    assert_eq!(api.exports.len(), 1);
    assert_eq!(api.exports[0].params[0].ty, "string");
}

#[test]
fn private_function_has_no_export() {
    let mut f = greet();
    f.return_text = None;
    f.params[0].type_text = None;
    f.params[0].name = None;
    let stmts = vec![ScriptStatement::Decl(ScriptDecl::Function(f))];
    let (index, api) = extract_statements("m", "function greet(x) {}", &stmts);
    assert_eq!(index.symbols.len(), 1);
    assert_eq!(index.symbols[0].visibility, Some(Visibility::Private));
    assert_eq!(index.symbols[0].signature.as_deref(), Some("export function greet(_: unknown) -> void"));
    assert!(api.exports.is_empty());
}

#[test]
fn class_members_and_constructor() {
    let ctor = ScriptFunction {
        name: None,
        span: span(0, 0),
        is_async: false,
        params: vec![ScriptParam { name: Some("n".to_string()), type_text: Some(":number".to_string()), optional: true }],
        return_text: None,
        type_params: vec![],
    };
    let run = ScriptFunction {
        name: None,
        span: span(0, 0),
        is_async: true,
        params: vec![],
        return_text: Some(": Promise<void>".to_string()),
        type_params: vec!["T".to_string()],
    };
    let class = ScriptClass {
        name: Some("Svc".to_string()),
        span: span(0, 10),
        type_params: vec![],
        elements: vec![
            ScriptClassElement::Method(ScriptKey::Static("constructor".to_string()), span(1, 2), true, ctor),
            ScriptClassElement::Method(ScriptKey::Private("run".to_string()), span(3, 4), false, run),
            ScriptClassElement::Property(ScriptKey::Computed, span(5, 6), true),
            ScriptClassElement::Other,
        ],
    };
    let stmts = vec![ScriptStatement::ExportNamed(Some(ScriptDecl::Class(class)))];
    let (index, api) = extract_statements("m", "class Svc {}", &stmts);
    let c = &index.symbols[0];
    assert_eq!(c.kind, "class");
    assert_eq!(c.children.len(), 3);
    assert_eq!(c.children[1].id, "m:Svc:#run");
    assert_eq!(c.children[1].is_async, Some(true));
    assert_eq!(c.children[2].name, "[expr]");
    assert_eq!(c.children[2].value.as_deref(), Some(""));
    assert_eq!(api.exports.len(), 3);
    assert_eq!(api.exports[0].signature, "export class Svc { ... }");
    assert_eq!(api.exports[0].params.len(), 1);
    assert!(api.exports[0].params[0].optional);
    assert_eq!(api.exports[2].signature, "Svc::#run() -> Promise<void>");
    assert_eq!(api.exports[2].generics, vec!["T".to_string()]);
}

#[test]
fn variables_aliases_interfaces_enums_and_defaults() {
    let arrow = ScriptDeclarator {
        name: Some("add".to_string()),
        span: span(0, 5),
        init: ScriptInit::Arrow(false, vec![ScriptParam { name: Some("a".to_string()), type_text: Some(": number".to_string()), optional: false }], Some(": number".to_string())),
    };
    let plain = ScriptDeclarator { name: Some("x".to_string()), span: span(0, 1), init: ScriptInit::Absent };
    let pattern = ScriptDeclarator { name: None, span: span(0, 1), init: ScriptInit::Other };
    let iface = ScriptInterface {
        name: "User".to_string(),
        span: span(0, 3),
        type_params: vec![],
        members: vec![
            ScriptMember::Property(ScriptKey::Static("id".to_string()), span(1, 2), false, Some(": number".to_string())),
            ScriptMember::Property(ScriptKey::Static("nick".to_string()), span(2, 3), true, None),
            ScriptMember::Other,
        ],
    };
    let stmts = vec![
        ScriptStatement::ExportNamed(Some(ScriptDecl::Variables(vec![arrow, plain, pattern]))),
        ScriptStatement::ExportNamed(Some(ScriptDecl::TypeAlias("Id".to_string(), span(0, 2), vec![], "type Id =  string | number ;".to_string()))),
        ScriptStatement::ExportNamed(Some(ScriptDecl::Interface(iface))),
        ScriptStatement::Decl(ScriptDecl::Enum("Color".to_string(), span(0, 1))),
        ScriptStatement::ExportDefault(ScriptDefault::Other(span(0, 3))),
        ScriptStatement::ExportNamed(None),
        ScriptStatement::Other,
    ];
    let (index, api) = extract_statements("m", "a\nb\nc\n", &stmts);
    let names: Vec<&str> = index.symbols.iter().map(|s| s.name.as_str()).collect();
    assert_eq!(names, vec!["add", "x", "Id", "User", "Color"]);
    assert_eq!(index.symbols[0].params.as_ref().unwrap().len(), 1);
    assert_eq!(index.symbols[1].value, None);
    assert_eq!(index.symbols[2].value.as_deref(), Some("string | number ;"));
    assert_eq!(index.symbols[3].children[0].return_type.as_deref(), Some(": number"));
    assert_eq!(index.symbols[4].visibility, Some(Visibility::Private));
    let sigs: Vec<&str> = api.exports.iter().map(|e| e.signature.as_str()).collect();
    assert_eq!(
        sigs,
        vec![
            "export const add: unknown",
            "export const x: unknown",
            "export type Id = string | number ;",
            "export interface User { ... }",
            "id: : number",
            "nick?: unknown",
            "export default ...",
        ]
    );
    assert!(api.exports[6].partial_analysis);
    assert_eq!(api.exports[6].line_range, [1, 2]);
}

#[test]
fn script_output_reports_a_parser_failure() {
    let out = script_output("}{", Some("src\\a.ts"), None);
    assert_eq!(out.file_path, "src/a.ts");
    assert!(out.symbols.is_empty());
    assert_eq!(out.diagnostics.len(), 1);
    assert_eq!(out.diagnostics[0].message, "Parser panicked");
}

#[test]
fn script_output_holds_symbols_and_imports() {
    let source = "import { helper } from './utils';\nexport function greet(name: string): string { return \"hello\"; }";
    let stmts = vec![
        ScriptStatement::Other,
        ScriptStatement::ExportNamed(Some(ScriptDecl::Function(greet()))),
    ];
    let out = script_output(source, Some("test.ts"), Some(&stmts));
    assert_eq!(out.file_path, "test.ts");
    assert_eq!(out.symbols.len(), 1);
    assert_eq!(out.symbols[0].name, "greet");
    assert!(out.imports.relative_imports.contains(&"./utils".to_string()));
    assert_eq!(out.api_contract.exports.len(), out.exports.len());
}
