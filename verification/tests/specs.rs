use migration_assessor::ast::AstOutput;
use migration_assessor::parser::ModuleReferences;
use migration_assessor::spec_writer::build_spec;
use migration_assessor::symbols::{ApiContract, ApiExport, Symbol, SymbolIndex, SymbolParam, Visibility};

fn make_symbol(name: &str, children: Vec<Symbol>) -> Symbol {
    Symbol {
        id: format!("test:{}", name),
        name: name.to_string(),
        kind: "function".to_string(),
        line_range: [1, 1],
        children,
        partial_analysis: false,
        partial_reason: None,
        visibility: None,
        value: None,
        signature: None,
        doc_comment: None,
        attributes: vec![],
        is_async: None,
        return_type: None,
        params: None,
    }
}

fn make_test_ast() -> AstOutput {
    AstOutput {
        file_path: "src/utils/format.ts".to_string(),
        source: "export function formatPrice(price: number): string {\n  return price.toFixed(2);\n}".to_string(),
        language: "typescript".to_string(),
        symbols: vec![Symbol {
            id: "src/utils/format.ts:formatPrice".to_string(),
            name: "formatPrice".to_string(),
            kind: "function".to_string(),
            line_range: [1, 3],
            children: vec![],
            partial_analysis: false,
            partial_reason: None,
            visibility: Some(Visibility::Public),
            value: None,
            signature: Some("export function formatPrice(price: number) -> string".to_string()),
            doc_comment: None,
            attributes: vec![],
            is_async: Some(false),
            return_type: Some("string".to_string()),
            params: Some(vec![SymbolParam {
                name: "price".to_string(),
                ty: "number".to_string(),
                optional: false,
                default_value: None,
            }]),
        }],
        exports: vec![ApiExport {
            name: "formatPrice".to_string(),
            kind: "function".to_string(),
            generics: vec![],
            signature: "export function formatPrice(price: number) -> string".to_string(),
            params: vec![],
            return_type: Some("string".to_string()),
            description: None,
            line_range: [1, 3],
            partial_analysis: false,
        }],
        api_contract: ApiContract {
            module: "src/utils/format.ts".to_string(),
            exports: vec![],
        },
        imports: ModuleReferences {
            relative_imports: vec!["./types".to_string()],
            external_imports: vec!["lodash".to_string()],
        },
        diagnostics: vec![],
    }
}

#[test]
fn test_build_spec_basic() {
    let ast = make_test_ast();
    let spec = build_spec(&ast, vec![], 0, "trivial", false);

    assert_eq!(spec.file, "src/utils/format.ts");
    assert_eq!(spec.target_path, "src/utils/format.rs");
    assert_eq!(spec.layer, 0);
    assert_eq!(spec.migration_effort, "trivial");
    assert_eq!(spec.symbols.len(), 1);
    assert_eq!(spec.symbols[0].target_name, "format_price");
    assert_eq!(spec.imports.relative.len(), 1);
    assert_eq!(spec.imports.external.len(), 1);
}

#[test]
fn build_spec_keeps_public_symbols_only_and_notes_imports() {
    let mut ast = make_test_ast();
    let mut private = make_symbol("helperFn", vec![]);
    private.visibility = Some(Visibility::Private);
    ast.symbols.insert(0, private);
    let spec = build_spec(&ast, vec!["src/a.ts".to_string()], 2, "moderate", true);
    assert_eq!(spec.symbols.len(), 1);
    assert_eq!(spec.symbols[0].name, "formatPrice");
    assert_eq!(spec.symbols[0].visibility, "Some(Public)");
    assert_eq!(spec.symbols[0].params.len(), 1);
    assert_eq!(spec.symbols[0].params[0].ty, "number");
    assert_eq!(spec.exports[0].return_type, Some("string".to_string()));
    assert_eq!(spec.referenced_by, vec!["src/a.ts".to_string()]);
    assert_eq!(spec.imports.relative[0].migration_note.as_deref(), Some("Resolve relative path during migration"));
    assert_eq!(spec.imports.external[0].migration_note.as_deref(), Some("Check compatibility matrix for equivalent crate"));
    assert!(spec.has_tests);
    assert_eq!(spec.layer, 2);
}

#[test]
fn test_symbol_index_all_symbols_no_children() {
    let si = SymbolIndex {
        module: "test".into(),
        symbols: vec![make_symbol("foo", vec![]), make_symbol("bar", vec![])],
    };
    let all = si.all_symbols();
    assert_eq!(all.len(), 2);
    assert_eq!(all[0].name, "foo");
    assert_eq!(all[1].name, "bar");
}

#[test]
fn test_symbol_index_all_symbols_with_children() {
    let child = make_symbol("inner", vec![]);
    let parent = make_symbol("outer", vec![child]);
    let si = SymbolIndex {
        module: "test".into(),
        symbols: vec![parent],
    };
    let all = si.all_symbols();
    assert_eq!(all.len(), 2);
}

#[test]
fn test_symbol_all_symbols_nested() {
    let grandchild = make_symbol("gc", vec![]);
    let child = make_symbol("child", vec![grandchild]);
    let parent = make_symbol("parent", vec![child]);
    let results = parent.all_symbols();
    assert_eq!(results.len(), 2);
    assert_eq!(results[0].name, "child");
    assert_eq!(results[1].name, "gc");
}

#[test]
fn test_symbol_all_symbols_no_children() {
    let sym = make_symbol("solo", vec![]);
    let results = sym.all_symbols();
    assert!(results.is_empty());
}
