use migration_assessor::deps::{
    default_dep_type, extract_external_specifiers, extract_rust_external, lock_entries, merge_dependencies,
    module_external_specifiers, DepMap, LockRecord, ResolvedDependency,
};
use migration_assessor::project::SourceLanguage;
use migration_assessor::diff::{compare_versions, diff_dependencies, is_major_bump, parse_major_version, parse_minor_version};

fn dep(name: &str, version: &str) -> ResolvedDependency {
    ResolvedDependency {
        name: name.into(),
        version: version.into(),
        resolved: None,
        dependencies: vec![],
        children: vec![],
        dep_type: "prod".into(),
    }
}

#[test]
fn test_merge_dependencies_adds_prod() {
    let mut merged = DepMap::new();
    let deps = vec![("react".to_string(), "^18.0".to_string())];
    merge_dependencies(&mut merged, &deps, "prod");
    assert_eq!(merged.len(), 1);
    assert_eq!(merged.get("react").unwrap().dep_type, "prod");
}

#[test]
fn test_merge_dependencies_overwrites_type() {
    let mut merged = DepMap::new();
    let deps = vec![("react".to_string(), "^18.0".to_string())];
    merge_dependencies(&mut merged, &deps, "dev");
    assert_eq!(merged.get("react").unwrap().dep_type, "dev");
}

#[test]
fn merge_replaces_an_earlier_entry() {
    let mut merged = DepMap::new();
    merge_dependencies(&mut merged, &[("react".to_string(), "^17.0".to_string())], "prod");
    merge_dependencies(&mut merged, &[("react".to_string(), "^18.0".to_string())], "dev");
    assert_eq!(merged.len(), 1);
    let react = merged.get("react").unwrap();
    assert_eq!(react.version, "^18.0");
    assert_eq!(react.dep_type, "dev");
}

#[test]
fn test_resolved_dependency_defaults() {
    let dep = ResolvedDependency {
        name: "test".into(),
        version: "1.0".into(),
        resolved: None,
        dependencies: vec![],
        children: vec![],
        dep_type: "prod".into(),
    };
    assert_eq!(dep.name, "test");
    assert_eq!(dep.version, "1.0");
}

#[test]
fn test_default_dep_type() {
    assert_eq!(default_dep_type(), "prod");
}

#[test]
fn test_resolved_dependency_with_children() {
    let child = ResolvedDependency {
        name: "child-lib".into(),
        version: "0.5".into(),
        resolved: None,
        dependencies: vec![],
        children: vec![],
        dep_type: "prod".into(),
    };
    let parent = ResolvedDependency {
        name: "parent".into(),
        version: "2.0".into(),
        resolved: Some("https://example.com/parent".into()),
        dependencies: vec!["child-lib".into()],
        children: vec![child],
        dep_type: "prod".into(),
    };
    assert_eq!(parent.resolved.as_deref(), Some("https://example.com/parent"));
    assert_eq!(parent.children.len(), 1);
    assert_eq!(parent.children[0].name, "child-lib");
}

#[test]
fn test_compare_versions_same() {
    assert_eq!(compare_versions("1.2.3", "1.2.3"), "patch");
}

#[test]
fn test_compare_versions_major_upgrade() {
    assert_eq!(compare_versions("1.2.3", "2.0.0"), "upgraded");
}

#[test]
fn test_compare_versions_minor_upgrade() {
    assert_eq!(compare_versions("1.2.3", "1.3.0"), "upgraded");
}

#[test]
fn test_compare_versions_major_downgrade() {
    assert_eq!(compare_versions("2.0.0", "1.2.3"), "downgraded");
}

#[test]
fn test_is_major_bump_true() {
    assert!(is_major_bump("1.0.0", "2.0.0"));
}

#[test]
fn test_is_major_bump_false() {
    assert!(!is_major_bump("1.0.0", "1.1.0"));
}

#[test]
fn test_parse_major_version_with_v_prefix() {
    assert_eq!(parse_major_version("v2.0.0"), 2);
}

#[test]
fn version_parts_that_are_no_numbers_read_as_zero() {
    assert_eq!(parse_major_version("^1.2.3"), 0);
    assert_eq!(parse_major_version("+7"), 7);
    assert_eq!(parse_major_version("99999999999.1"), 0);
    assert_eq!(parse_minor_version("1.x.3"), 0);
    assert_eq!(parse_minor_version("1"), 0);
    assert_eq!(parse_minor_version("1.12.3"), 12);
}

#[test]
fn test_version_added_and_removed() {
    let old = vec![dep("foo", "1.0.0")];
    let new = vec![dep("bar", "2.0.0")];
    let changes = diff_dependencies(&old, &new);
    assert_eq!(changes.len(), 2);
    assert!(changes.iter().any(|c| c.package == "foo" && c.change_type == "removed"));
    assert!(changes.iter().any(|c| c.package == "bar" && c.change_type == "added"));
}

#[test]
fn diff_reports_version_changes_after_additions_and_removals() {
    let old = vec![dep("a", "1.0.0"), dep("b", "1.0.0"), dep("c", "1.0.0")];
    let new = vec![dep("d", "1.0.0"), dep("b", "2.1.0"), dep("c", "1.0.0")];
    let changes = diff_dependencies(&old, &new);
    let kinds: Vec<(&str, &str)> = changes.iter().map(|c| (c.package.as_str(), c.change_type.as_str())).collect();
    assert_eq!(kinds, vec![("d", "added"), ("a", "removed"), ("b", "upgraded")]);
    assert!(changes[2].compatibility.is_high_risk);
    assert_eq!(changes[1].compatibility.effort, "low");
}

#[test]
fn external_specifiers_of_a_source() {
    let source = "import React from 'react';\nimport { x } from \"./local\";\nexport * from '@scope/pkg/sub';\nimport 'lodash/fp'; // side effect\nimport a from 'react';\n";
    let pkgs = extract_external_specifiers(source);
    assert_eq!(pkgs, vec!["react".to_string(), "@scope/pkg".to_string()]);
}

#[test]
fn extracts_ts_external_packages() {
    let src = r#"
import express from 'express';
import { foo } from 'lodash';
import { Bar } from '@scope/pkg/sub';
import './local';
import something from '../relative';
import x from '#alias/x';
"#;
    let mut pkgs = module_external_specifiers(src, SourceLanguage::TypeScript);
    pkgs.sort();
    assert_eq!(pkgs, vec!["@scope/pkg", "express", "lodash"]);
}

#[test]
fn extracts_rust_external_crates() {
    let src = r#"
use serde::Serialize;
use tokio::sync::Mutex;
use crate::local_mod;
use self::inner;
use super::parent;
use std::collections::HashMap;
"#;
    let mut pkgs = module_external_specifiers(src, SourceLanguage::Rust);
    pkgs.sort();
    assert_eq!(pkgs, vec!["serde", "std", "tokio"]);
}

#[test]
fn rust_crates_keep_first_appearance_order() {
    let src = "use tokio::spawn;\r\n  use serde as sd;\nuse tokio::sync::Mutex;\nfn main() {}\nuse anyhow;";
    assert_eq!(extract_rust_external(src), vec!["tokio", "serde", "anyhow"]);
}

#[test]
fn lock_children_are_described_by_their_records() {
    let records = vec![
        (
            "a".to_string(),
            LockRecord { version: "1.0.0".into(), resolved: Some("https://r/a".into()), dependencies: vec!["b".into(), "c".into()] },
        ),
        ("b".to_string(), LockRecord { version: "2.0.0".into(), resolved: None, dependencies: vec!["a".into()] }),
    ];
    let entries = lock_entries(&records);
    assert_eq!(entries.len(), 2);
    assert_eq!(entries[0].0, "a");
    assert_eq!(entries[0].1.version, "1.0.0");
    assert_eq!(entries[0].1.resolved.as_deref(), Some("https://r/a"));
    let kids = &entries[0].1.children;
    assert_eq!(kids.len(), 2);
    assert_eq!(kids[0].name, "b");
    assert_eq!(kids[0].version, "2.0.0");
    assert_eq!(kids[0].dependencies, vec!["a".to_string()]);
    assert!(kids[0].children.is_empty());
    assert_eq!(kids[0].dep_type, "prod");
    assert_eq!(kids[1].name, "c");
    assert_eq!(kids[1].version, "");
    assert!(kids[1].resolved.is_none());
    assert_eq!(entries[1].1.children[0].name, "a");
    assert_eq!(entries[1].1.children[0].version, "1.0.0");
}

#[test]
fn only_major_bumps_are_high_risk() {
    let old = vec![dep("a", "1.0.0"), dep("b", "1.0.0"), dep("c", "2.0.0")];
    let new = vec![dep("a", "2.0.0"), dep("b", "1.1.0"), dep("d", "1.0.0")];
    let changes = diff_dependencies(&old, &new);
    let risk: Vec<(&str, &str, bool)> = changes
        .iter()
        .map(|c| (c.package.as_str(), c.change_type.as_str(), c.compatibility.is_high_risk))
        .collect();
    assert_eq!(
        risk,
        vec![("d", "added", false), ("c", "removed", false), ("a", "upgraded", true), ("b", "upgraded", false)]
    );
}
