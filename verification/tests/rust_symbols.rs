use migration_assessor::ast::rust_output;
use migration_assessor::symbols::rust::extract;
use migration_assessor::symbols::Visibility;

#[test]
fn test_extract_pub_fn() {
    let source = "pub fn add(x: i32, y: i32) -> i32 { x + y }";
    let (index, contract) = extract("lib.rs", source).unwrap();
    assert_eq!(index.symbols.len(), 1);
    assert_eq!(index.symbols[0].name, "add");
    assert_eq!(index.symbols[0].kind, "function");
    assert_eq!(contract.exports.len(), 1);
}

#[test]
fn test_extract_private_fn_skipped() {
    let source = "fn hidden() -> u32 { 42 }";
    let (index, contract) = extract("lib.rs", source).unwrap();
    assert!(index.symbols.is_empty());
    assert!(contract.exports.is_empty());
}

#[test]
fn test_extract_pub_struct() {
    let source = "pub struct User { pub name: String, pub age: u32 }";
    let (index, contract) = extract("lib.rs", source).unwrap();
    assert_eq!(index.symbols.len(), 1);
    assert_eq!(index.symbols[0].name, "User");
    assert_eq!(index.symbols[0].kind, "struct");
    assert_eq!(contract.exports.len(), 1);
}

#[test]
fn test_extract_pub_enum() {
    let source = "pub enum Color { Red, Green, Blue }";
    let (index, contract) = extract("lib.rs", source).unwrap();
    assert_eq!(index.symbols.len(), 1);
    assert_eq!(index.symbols[0].name, "Color");
    assert_eq!(index.symbols[0].kind, "enum");
    assert_eq!(contract.exports.len(), 1);
}

#[test]
fn test_extract_pub_trait() {
    let source = "pub trait Runnable { fn run(&self); }";
    let (index, _contract) = extract("lib.rs", source).unwrap();
    assert_eq!(index.symbols.len(), 1);
    assert_eq!(index.symbols[0].name, "Runnable");
    assert_eq!(index.symbols[0].kind, "trait");
}

#[test]
fn test_extract_pub_type_alias() {
    let source = "pub type Callback = Box<dyn Fn()>;";
    let (index, _contract) = extract("lib.rs", source).unwrap();
    assert_eq!(index.symbols.len(), 1);
    assert_eq!(index.symbols[0].name, "Callback");
    assert_eq!(index.symbols[0].kind, "type_alias");
}

#[test]
fn test_extract_pub_const() {
    let source = "pub const MAX_SIZE: usize = 1024;";
    let (index, _contract) = extract("lib.rs", source).unwrap();
    assert_eq!(index.symbols.len(), 1);
    assert_eq!(index.symbols[0].name, "MAX_SIZE");
    assert_eq!(index.symbols[0].kind, "const");
}

#[test]
fn test_extract_pub_static() {
    let source = "pub static GREETING: &str = \"hello\";";
    let (index, _contract) = extract("lib.rs", source).unwrap();
    assert_eq!(index.symbols.len(), 1);
    assert_eq!(index.symbols[0].name, "GREETING");
    assert_eq!(index.symbols[0].kind, "static");
}

#[test]
fn rust_test_extract_empty_source() {
    let source = "";
    let (index, contract) = extract("lib.rs", source).unwrap();
    assert!(index.symbols.is_empty());
    assert!(contract.exports.is_empty());
}

#[test]
fn test_extract_multiple_items() {
    let source = "pub fn a() {} pub struct B {} pub enum C { X }";
    let (index, contract) = extract("lib.rs", source).unwrap();
    assert_eq!(index.symbols.len(), 3);
    assert_eq!(contract.exports.len(), 3);
}

#[test]
fn test_extract_impl_method() {
    let source = "pub struct Counter { count: i32 }
impl Counter {
    pub fn increment(&mut self) { self.count += 1; }
    fn private_helper(&self) -> i32 { self.count }
}";
    let (index, contract) = extract("lib.rs", source).unwrap();
    assert_eq!(index.symbols.len(), 2);
    let method = &index.symbols[1];
    assert_eq!(method.name, "increment");
    assert_eq!(method.kind, "method");
    assert_eq!(contract.exports.len(), 2);
}

#[test]
fn rust_test_parse_exported_function() {
    let source = "pub fn greet(name: &str) -> String { format!(\"hello {}\", name) }";
    let result = rust_output(source, "lib.rs").unwrap();
    assert_eq!(result.symbols.len(), 1);
    assert_eq!(result.symbols[0].name, "greet");
    assert_eq!(result.symbols[0].kind, "function");
}

#[test]
fn rust_test_parse_with_imports() {
    let source = "use std::collections::HashMap;\nuse crate::helper::foo;\npub fn bar() {}";
    let result = rust_output(source, "lib.rs").unwrap();
    assert!(result.imports.external_imports.iter().any(|i| i.contains("HashMap")));
    assert!(result.imports.relative_imports.iter().any(|i| i.contains("crate::helper")));
    assert_eq!(result.symbols.len(), 1);
}

#[test]
fn test_parse_private_function() {
    let source = "fn hidden() -> i32 { 42 }";
    let result = rust_output(source, "lib.rs").unwrap();
    assert_eq!(result.symbols.len(), 0);
}

#[test]
fn test_parse_struct() {
    let source = "pub struct User { pub name: String, age: u32 }";
    let result = rust_output(source, "lib.rs").unwrap();
    assert_eq!(result.symbols.len(), 1);
    assert_eq!(result.symbols[0].kind, "struct");
    assert_eq!(result.symbols[0].children.len(), 2);
}

#[test]
fn test_parse_mod_decl() {
    let source = "mod foo;\npub fn bar() {}";
    let result = rust_output(source, "lib.rs").unwrap();
    assert!(result.imports.relative_imports.contains(&"self::foo".to_string()));
}

// Further cases.

#[test]
fn signatures_docs_attributes_and_lines() {
    let source = "/// Adds.\n///  Twice.\n#[inline]\npub async fn add<T: Copy>(&self, x: T, (a, b): (u8, u8)) -> T {\n    x\n}";
    let (index, contract) = extract("m.rs", source).unwrap();
    let f = &index.symbols[0];
    assert_eq!(f.id, "m.rs:add");
    assert_eq!(f.signature.as_deref(), Some("pub fn add<T : Copy>(self, x: T, _: (u8 , u8)) -> T"));
    assert_eq!(f.doc_comment.as_deref(), Some("Adds. Twice."));
    assert_eq!(f.attributes, vec!["# [inline]".to_string()]);
    assert_eq!(f.is_async, Some(true));
    assert_eq!(f.line_range, [4, 4]);
    assert_eq!(f.params.as_ref().unwrap().len(), 2);
    let e = &contract.exports[0];
    assert_eq!(e.params.len(), 3);
    assert_eq!(e.params[0].ty, "Self");
    assert_eq!(e.generics, vec!["T : Copy".to_string()]);
}

#[test]
fn nested_items_follow_their_container() {
    let source = "fn outer() { pub fn inner() {} }\npub mod m { pub const C: u8 = 1; }\npub struct S(u8);\nimpl S { pub fn f(&self) { pub struct Local; } }";
    let (index, contract) = extract("x", source).unwrap();
    let ids: Vec<&str> = index.symbols.iter().map(|s| s.id.as_str()).collect();
    assert_eq!(ids, vec!["x:inner", "x:C", "x:S", "S::impl:f", "x:Local"]);
    assert!(index.symbols[2].children.is_empty());
    assert_eq!(contract.exports[1].signature, "pub const C: u8");
    assert_eq!(contract.exports[3].name, "S::f");
}

#[test]
fn single_reading_records_fields_and_keyword_lines() {
    let source = "pub\nstruct P { pub a: u8, b: u8 }\npub enum E { A }\npub fn f(&self) {}";
    let out = rust_output(source, "src\\p.rs").unwrap();
    assert_eq!(out.file_path, "src/p.rs");
    let p = &out.symbols[0];
    assert_eq!(p.line_range, [2, 2]);
    assert_eq!(p.children[0].id, "src/p.rs:P:a");
    assert_eq!(p.children[1].visibility, Some(Visibility::Private));
    assert_eq!(out.symbols[2].params.as_ref().unwrap()[0].name, "self");
    assert_eq!(out.exports.len(), 3);
    assert_eq!(out.exports[0].signature, "");
    assert_eq!(out.api_contract.exports.len(), 3);
}

#[test]
fn rust_extract_reports_syntax_errors() {
    assert!(extract("x", "pub fn (").is_err());
    assert!(rust_output("pub fn (", "x.rs").is_err());
}

#[test]
fn items_inside_expressions_are_found() {
    let source = "fn outer() {\n    let f = || {\n        pub fn inner() {}\n    };\n    if true { pub struct Deep; }\n}\npub const C: u32 = { pub fn in_const() {} 1 };";
    let (index, _) = extract("lib.rs", source).unwrap();
    let names: Vec<&str> = index.symbols.iter().map(|s| s.name.as_str()).collect();
    assert_eq!(names, vec!["inner", "Deep", "C", "in_const"]);
}

#[test]
fn single_reading_skips_public_bodies() {
    let source = "pub fn open() { use std::fmt; pub fn hidden() {} }\nfn closed() { match 1 { _ => { use std::io; } } }";
    let out = rust_output(source, "lib.rs").unwrap();
    assert_eq!(out.imports.external_imports, vec!["std::io"]);
    let names: Vec<&str> = out.symbols.iter().map(|s| s.name.as_str()).collect();
    assert_eq!(names, vec!["open"]);
}
