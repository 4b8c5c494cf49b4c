use migration_assessor::diff::by_name::{assemble_mapping, rename_candidates};
use migration_assessor::diff::doc;
use migration_assessor::diff::signature;
use migration_assessor::symbols::{Symbol, SymbolParam, Visibility};

fn doc_sym(name: &str, doc: Option<&str>, deprecated: bool) -> Symbol {
    Symbol {
        id: name.to_string(),
        name: name.to_string(),
        kind: "function".to_string(),
        line_range: [1, 10],
        children: vec![],
        partial_analysis: false,
        partial_reason: None,
        visibility: Some(Visibility::Public),
        value: None,
        signature: None,
        doc_comment: doc.map(|s| s.to_string()),
        attributes: if deprecated { vec!["#[deprecated]".to_string()] } else { vec![] },
        is_async: None,
        return_type: None,
        params: None,
    }
}

fn sig_sym(name: &str, params: Option<Vec<SymbolParam>>, return_type: Option<String>) -> Symbol {
    Symbol {
        id: name.to_string(),
        name: name.to_string(),
        kind: "function".to_string(),
        line_range: [1, 10],
        children: vec![],
        partial_analysis: false,
        partial_reason: None,
        visibility: Some(Visibility::Public),
        value: None,
        signature: None,
        doc_comment: None,
        attributes: vec![],
        is_async: None,
        return_type,
        params,
    }
}

#[test]
fn test_same_doc() {
    let s = doc_sym("foo", Some("hello"), false);
    assert!(doc::diff(&s, &s).is_none());
}

#[test]
fn test_doc_changed() {
    let old = doc_sym("foo", Some("old"), false);
    let new = doc_sym("foo", Some("new"), false);
    let result = doc::diff(&old, &new);
    assert!(result.is_some());
    assert_eq!(result.unwrap().change_type, "changed");
}

#[test]
fn test_doc_added() {
    let old = doc_sym("foo", None, false);
    let new = doc_sym("foo", Some("new"), false);
    let result = doc::diff(&old, &new);
    assert!(result.is_some());
    assert_eq!(result.unwrap().change_type, "added");
}

#[test]
fn test_doc_removed() {
    let old = doc_sym("foo", Some("old"), false);
    let new = doc_sym("foo", None, false);
    let result = doc::diff(&old, &new);
    assert!(result.is_some());
    assert_eq!(result.unwrap().change_type, "removed");
}

#[test]
fn test_deprecated_added() {
    let old = doc_sym("foo", None, false);
    let new = doc_sym("foo", None, true);
    let result = doc::diff(&old, &new);
    assert!(result.is_some());
    assert!(result.unwrap().is_deprecated);
}

#[test]
fn doc_diff_keeps_both_texts() {
    let old = doc_sym("foo", Some("TODO: fix"), false);
    let new = doc_sym("foo", Some("SAFETY: ok"), false);
    let c = doc::diff(&old, &new).unwrap();
    assert_eq!(c.symbol, "foo");
    assert!(!c.has_todo);
    assert!(c.has_safety_note);
    assert_eq!(c.old_doc.as_deref(), Some("TODO: fix"));
    assert_eq!(c.new_doc.as_deref(), Some("SAFETY: ok"));
}

#[test]
fn test_identical_symbols() {
    let s = sig_sym("foo", None, None);
    assert!(signature::diff(&s, &s).is_none());
}

#[test]
fn test_params_changed() {
    let old = sig_sym(
        "foo",
        Some(vec![SymbolParam { name: "x".into(), ty: "u32".into(), optional: false, default_value: None }]),
        None,
    );
    let new = sig_sym(
        "foo",
        Some(vec![SymbolParam { name: "y".into(), ty: "String".into(), optional: false, default_value: None }]),
        None,
    );
    let result = signature::diff(&old, &new);
    assert!(result.is_some());
}

#[test]
fn test_return_type_changed() {
    let old = sig_sym("foo", None, Some("u32".into()));
    let new = sig_sym("foo", None, Some("String".into()));
    let result = signature::diff(&old, &new);
    assert!(result.is_some());
}

use migration_assessor::diff::engine::{assemble_file_diff, compute_summary, diff_symbols, FileDiffResult, SymbolMapping};
use migration_assessor::diff::logic::diff_value;
use migration_assessor::diff::{ImportChange, Ratio, SymbolChange};
use migration_assessor::language::{JavaScriptDiffAnalyzer, RustDiffAnalyzer, TypeScriptDiffAnalyzer};

#[test]
fn test_compute_summary_empty() {
    let summary = compute_summary(&[]);
    assert_eq!(summary.total_files_changed, 0);
    assert_eq!(summary.symbols_added, 0);
}

#[test]
fn test_compute_summary_counts() {
    let changes = vec![FileDiffResult {
        file: "test.ts".into(),
        status: "modified".into(),
        symbol_changes: vec![
            SymbolChange::new("foo".into(), "function".into(), "added".into(), "low".into(), None, None, vec![]),
            SymbolChange::new("bar".into(), "function".into(), "removed".into(), "breaking".into(), None, None, vec![]),
        ],
        import_changes: vec![ImportChange {
            change_type: "added".into(),
            package: "lodash".into(),
            old_path: None,
            new_path: Some("lodash".into()),
            is_external: true,
            compatibility: None,
        }],
        doc_changes: vec![],
    }];
    let summary = compute_summary(&changes);
    assert_eq!(summary.total_files_changed, 1);
    assert_eq!(summary.symbols_added, 1);
    assert_eq!(summary.symbols_removed, 1);
    assert_eq!(summary.breaking_changes, 1);
    assert_eq!(summary.new_dependencies, 1);
}

fn valued(name: &str, kind: &str, value: Option<&str>) -> Symbol {
    let mut s = sig_sym(name, None, None);
    s.kind = kind.to_string();
    s.value = value.map(|v| v.to_string());
    s
}

#[test]
fn value_change_of_a_const() {
    let old = valued("LIMIT", "const", Some("1"));
    let new = valued("LIMIT", "const", Some("2"));
    let c = diff_value(&old, &new).unwrap();
    assert_eq!(c.change_type, "modified");
    assert_eq!(c.severity, "compatible");
    assert_eq!(c.details.len(), 1);
    assert_eq!(c.details[0].aspect, "value");
    assert_eq!(c.details[0].description, "value changed from '1' to '2'");
    assert_eq!(c.old_line_range, Some([1, 10]));
}

#[test]
fn value_change_to_none_and_of_functions() {
    let old = valued("LIMIT", "static", Some("1"));
    let new = valued("LIMIT", "static", None);
    let c = diff_value(&old, &new).unwrap();
    assert_eq!(c.details[0].description, "value changed from '1' to ''");
    let f_old = valued("f", "function", Some("1"));
    let f_new = valued("f", "function", Some("2"));
    assert!(diff_value(&f_old, &f_new).is_none());
    assert!(diff_value(&old, &old).is_none());
}

#[test]
fn symbol_diff_records_documentation() {
    let old = doc_sym("foo", Some("old"), false);
    let new = doc_sym("foo", Some("new"), false);
    let changes = diff_symbols(&old, &new);
    assert_eq!(changes.len(), 1);
    assert_eq!(changes[0].details[0].aspect, "documentation");
    assert_eq!(changes[0].details[0].change_type, "changed");
    assert_eq!(changes[0].details[0].old_value.as_deref(), Some("old"));
}

#[test]
fn file_diff_from_a_mapping() {
    let old_syms = vec![sig_sym("a", None, None), sig_sym("gone", None, None), sig_sym("keep", None, Some("u32".into()))];
    let new_syms = vec![sig_sym("b", None, None), sig_sym("fresh", None, None), sig_sym("keep", None, Some("u64".into()))];
    let mapping = SymbolMapping {
        renamed: vec![("a".to_string(), "b".to_string())],
        added: vec![1],
        removed: vec![1],
        stable: vec![(2, 2)],
        confidence: vec![],
    };
    let old_imports = vec!["serde".to_string(), "anyhow".to_string()];
    let new_imports = vec!["serde".to_string(), "tokio".to_string(), "tokio".to_string()];
    let r = assemble_file_diff("lib.rs", &old_syms, &new_syms, &mapping, &old_imports, &new_imports, true);
    assert_eq!(r.file, "lib.rs");
    assert_eq!(r.status, "modified");
    assert_eq!(r.symbol_changes.len(), 4);
    assert_eq!(r.symbol_changes[0].change_type, "renamed");
    assert_eq!(r.symbol_changes[0].old_name.as_deref(), Some("a"));
    assert_eq!(r.symbol_changes[0].rename_confidence, Some(Ratio { num: 3, den: 4 }));
    assert_eq!(r.symbol_changes[0].target_symbol.as_deref(), Some("b"));
    assert_eq!(r.symbol_changes[1].change_type, "added");
    assert_eq!(r.symbol_changes[1].symbol, "fresh");
    assert_eq!(r.symbol_changes[2].change_type, "removed");
    assert_eq!(r.symbol_changes[2].severity, "breaking");
    assert_eq!(r.symbol_changes[3].symbol, "keep");
    assert_eq!(r.symbol_changes[3].details[0].description, "return type changed from 'u32' to 'u64'");
    assert_eq!(r.import_changes.len(), 2);
    assert_eq!(r.import_changes[0].change_type, "added");
    assert_eq!(r.import_changes[0].package, "tokio");
    assert_eq!(r.import_changes[1].change_type, "removed");
    assert_eq!(r.import_changes[1].package, "anyhow");
}

#[test]
fn typescript_file_diff_has_no_targets_or_imports() {
    let old_syms = vec![sig_sym("a", None, None)];
    let new_syms = vec![sig_sym("b", None, None)];
    let mapping = SymbolMapping {
        renamed: vec![("a".to_string(), "b".to_string())],
        added: vec![],
        removed: vec![],
        stable: vec![],
        confidence: vec![("a".to_string(), Ratio { num: 9, den: 10 })],
    };
    let r = TypeScriptDiffAnalyzer.diff_files("x.ts", &old_syms, &new_syms, &mapping);
    assert_eq!(r.symbol_changes.len(), 1);
    assert_eq!(r.symbol_changes[0].rename_confidence, Some(Ratio { num: 9, den: 10 }));
    assert_eq!(r.symbol_changes[0].target_symbol, None);
    assert!(r.import_changes.is_empty());
    assert!(TypeScriptDiffAnalyzer.extract_imports().is_empty());
}

#[test]
fn rust_imports_for_diff() {
    let src = "use std::collections::{HashMap, HashSet};\nuse serde::Serialize as S;\nfn f() { use a::b; }\nuse serde::Serialize;\n";
    let v = RustDiffAnalyzer.extract_imports(src).unwrap();
    assert_eq!(v, vec!["a::b".to_string(), "serde::Serialize".to_string(), "std::collections::HashMap, HashSet".to_string()]);
    assert!(RustDiffAnalyzer.extract_imports("fn {").is_err());
}

#[test]
fn javascript_imports_for_diff() {
    let src = "import x from 'react';\nimport y from './local';\nexport * from 'lodash';\nimport z from 'react';\n";
    let v = JavaScriptDiffAnalyzer.extract_imports(src, "a.js");
    assert_eq!(v, vec!["lodash".to_string(), "react".to_string()]);
}

#[test]
fn pure_parameter_rename_is_one_change() {
    let old = sig_sym("foo", Some(vec![SymbolParam { name: "x".into(), ty: "u32".into(), optional: false, default_value: None }]), None);
    let new = sig_sym("foo", Some(vec![SymbolParam { name: "y".into(), ty: "u32".into(), optional: false, default_value: None }]), None);
    let v = signature::diff(&old, &new).unwrap();
    assert_eq!(v.len(), 1);
    assert_eq!(v[0].symbol, "foo");
    assert_eq!(v[0].change_type, "modified");
    assert_eq!(v[0].severity, "compatible");
    assert_eq!(v[0].details.len(), 1);
    assert_eq!(v[0].details[0].change_type, "renamed");
    assert_eq!(v[0].details[0].old_value.as_deref(), Some("x"));
    assert_eq!(v[0].details[0].new_value.as_deref(), Some("y"));
}

fn named(id: &str, name: &str) -> Symbol {
    let mut s = sig_sym(name, None, None);
    s.id = id.to_string();
    s
}

#[test]
fn mapping_matches_by_name_around_renames() {
    let old = vec![named("m::a", "a"), named("m::b", "b"), named("m::c", "c"), named("m::a2", "a")];
    let new = vec![named("m::a", "a"), named("m::bb", "bb"), named("m::d", "d")];
    let renamed = vec![("m::b".to_string(), "m::bb".to_string())];
    let confidence = vec![("m::b".to_string(), Ratio { num: 9000, den: 10000 })];
    let m = assemble_mapping(&old, &new, renamed.clone(), confidence);
    assert_eq!(m.renamed, renamed);
    assert_eq!(m.stable, vec![(0, 0), (3, 0)]);
    assert_eq!(m.removed, vec![2]);
    assert_eq!(m.added, vec![2]);
    assert_eq!(m.confidence.len(), 1);
}

#[test]
fn rename_candidates_pair_unmatched_symbols_of_one_kind() {
    let mut t = named("m::T", "T");
    t.kind = "struct".to_string();
    let old = vec![named("m::a", "a"), named("m::b", "b"), t];
    let new = vec![named("m::a", "a"), named("m::x", "x"), named("m::y", "y")];
    assert_eq!(rename_candidates(&old, &new), vec![(1, 1), (1, 2)]);
}
