use migration_assessor::compat::{
    derive_risk_tags, parse_compatibility_str, parse_effort_str, CompatibilityLevel, MigrationEffort,
};
use migration_assessor::deps::ResolvedDependency;
use migration_assessor::matrix::CompatibilityMatrix;

fn dep(name: &str, version: &str) -> ResolvedDependency {
    ResolvedDependency {
        name: name.to_string(),
        version: version.to_string(),
        resolved: None,
        dependencies: vec![],
        children: vec![],
        dep_type: "prod".to_string(),
    }
}

#[test]
fn test_compatibility_level_ordering() {
    assert!(CompatibilityLevel::Full > CompatibilityLevel::Partial);
    assert!(CompatibilityLevel::Partial > CompatibilityLevel::Incompatible);
    assert!(CompatibilityLevel::Incompatible > CompatibilityLevel::Unknown);
}

#[test]
fn test_parse_compatibility_str() {
    assert_eq!(parse_compatibility_str("full"), CompatibilityLevel::Full);
    assert_eq!(parse_compatibility_str("partial"), CompatibilityLevel::Partial);
    assert_eq!(parse_compatibility_str("none"), CompatibilityLevel::Incompatible);
    assert_eq!(parse_compatibility_str("anything_else"), CompatibilityLevel::Unknown);
    assert_eq!(parse_compatibility_str(""), CompatibilityLevel::Unknown);
}

#[test]
fn test_compatibility_matrix_loads_ts_to_rust_entries() {
    let matrix = CompatibilityMatrix::new("typescript".to_string(), "rust".to_string());
    assert!(matrix.has_builtin("express"), "express should be in TS registry");
    assert!(matrix.has_builtin("axios"), "axios should be in TS registry");
    assert!(!matrix.has_builtin("axum"), "axum is a Rust lib, not in TS registry");
}

#[test]
fn test_compatibility_matrix_loads_rust_to_ts_entries() {
    let matrix = CompatibilityMatrix::new("rust".to_string(), "typescript".to_string());
    assert!(matrix.has_builtin("axum"), "axum should be in Rust registry");
    assert!(matrix.has_builtin("tokio"), "tokio should be in Rust registry");
    assert!(!matrix.has_builtin("express"), "express is a TS lib, not in Rust registry");
}

#[test]
fn test_detect_dep_changes_added() {
    let matrix = CompatibilityMatrix::new("typescript".to_string(), "rust".to_string());
    let old_deps = vec![];
    let new_deps = vec![dep("express", "4.18.0")];
    let changes = matrix.detect_dep_changes(&old_deps, &new_deps);
    assert_eq!(changes.len(), 1);
    assert_eq!(changes[0].package, "express");
    assert_eq!(changes[0].change_type, "added");
}

#[test]
fn test_detect_dep_changes_removed() {
    let matrix = CompatibilityMatrix::new("typescript".to_string(), "rust".to_string());
    let old_deps = vec![dep("express", "4.18.0")];
    let new_deps = vec![];
    let changes = matrix.detect_dep_changes(&old_deps, &new_deps);
    assert_eq!(changes.len(), 1);
    assert_eq!(changes[0].package, "express");
    assert_eq!(changes[0].change_type, "removed");
}

#[test]
fn express_ports_partially_to_axum() {
    let matrix = CompatibilityMatrix::new("typescript".to_string(), "rust".to_string());
    let e = matrix.lookup("express").unwrap();
    assert_eq!(e.compatibility, CompatibilityLevel::Partial);
    assert_eq!(e.effort, MigrationEffort::Moderate);
    assert_eq!(e.equivalent.as_deref(), Some("axum"));
    // 0.8 * 2/6 + 0.2 = 0.4666...
    assert_eq!(
        e.guidance.as_deref(),
        Some("Best match: `axum` (similarity 46%). Ergonomic web framework built on tokio and tower")
    );
}

#[test]
fn crate_without_match_is_unmapped() {
    let matrix = CompatibilityMatrix::new("rust".to_string(), "typescript".to_string());
    let e = matrix.lookup("tokio").unwrap();
    assert_eq!(e.compatibility, CompatibilityLevel::Unknown);
    assert_eq!(e.equivalent, None);
    assert_eq!(e.risk_tags, vec!["unmapped".to_string()]);
    assert_eq!(e.note.as_deref(), Some("`tokio` has no recognizable equivalent in typescript."));
}

#[test]
fn unknown_language_has_no_entries() {
    let matrix = CompatibilityMatrix::new("cobol".to_string(), "rust".to_string());
    assert!(matrix.lookup("express").is_none());
    let evaluated = matrix.evaluate(&[dep("express", "1"), dep("express", "2")]);
    assert_eq!(evaluated.len(), 1);
    assert_eq!(evaluated[0].1.risk_tags, vec!["unmapped".to_string()]);
    assert_eq!(evaluated[0].1.note.as_deref(), Some("No compatibility mapping available."));
}

#[test]
fn dep_changes_are_sorted_and_versions_compared_as_text() {
    let matrix = CompatibilityMatrix::new("typescript".to_string(), "rust".to_string());
    let old_deps = vec![dep("zod", "1.0"), dep("axios", "1.2"), dep("same", "1")];
    let new_deps = vec![dep("axios", "1.10"), dep("zod", "2.0"), dep("same", "1"), dep("express", "4")];
    let changes = matrix.detect_dep_changes(&old_deps, &new_deps);
    let names: Vec<&str> = changes.iter().map(|c| c.package.as_str()).collect();
    assert_eq!(names, vec!["axios", "express", "zod"]);
    // "1.2" < "1.10" is false as text, so this reads as a downgrade
    assert_eq!(changes[0].change_type, "downgraded");
    assert_eq!(changes[1].change_type, "added");
    assert_eq!(changes[2].change_type, "upgraded");
    assert!(!changes[1].needs_review);
}

#[test]
fn risk_tags_flag_rewrite_and_ffi() {
    let tags = vec!["FFI".to_string(), "async".to_string(), "ffi".to_string()];
    let r = derive_risk_tags(
        MigrationEffort::Rewrite,
        CompatibilityLevel::Incompatible,
        Some(tags.as_slice()),
        Some("Uses unsafe bindings"),
    );
    assert_eq!(r, vec!["rewrite".to_string(), "no-equivalent".to_string(), "ffi".to_string(), "async".to_string()]);
}

#[test]
fn effort_words_are_trimmed_and_lowercased() {
    assert_eq!(parse_effort_str("  Heavy "), MigrationEffort::Heavy);
    assert_eq!(parse_effort_str("lots"), MigrationEffort::Unknown);
    assert_eq!(CompatibilityLevel::Partial.default_effort(), MigrationEffort::Moderate);
    assert!(MigrationEffort::Rewrite.is_high_impact());
    assert!(!MigrationEffort::Trivial.is_high_impact());
}

#[test]
fn level_and_effort_names_read_back() {
    for level in [
        CompatibilityLevel::Full,
        CompatibilityLevel::Partial,
        CompatibilityLevel::Incompatible,
        CompatibilityLevel::Unknown,
    ] {
        assert_eq!(parse_compatibility_str(level.as_str()), level);
    }
    for effort in [
        MigrationEffort::Trivial,
        MigrationEffort::Moderate,
        MigrationEffort::Heavy,
        MigrationEffort::Rewrite,
        MigrationEffort::Unknown,
    ] {
        assert_eq!(parse_effort_str(effort.as_str()), effort);
    }
    assert_eq!(parse_compatibility_str(" FULL\n"), CompatibilityLevel::Full);
}

#[test]
fn reading_normalized_text_gives_the_same() {
    for s in ["  Partial\t", "NONE", " full ", "x", ""] {
        let normalized = s.trim().to_lowercase();
        assert_eq!(parse_compatibility_str(s), parse_compatibility_str(&normalized));
        assert_eq!(parse_effort_str(s), parse_effort_str(&normalized));
    }
}
