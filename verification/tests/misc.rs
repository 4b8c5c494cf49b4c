use migration_assessor::config::{Config, ConfigError};
use migration_assessor::language::RustLanguage;
use migration_assessor::output::OutputFormat;
use migration_assessor::project::{Project, SourceLanguage};
use migration_assessor::recommendation::build_recommendations;
use migration_assessor::matrix::CompatibilityMatrix;
use migration_assessor::compat::CompatibilityLevel;
use migration_assessor::deps::ResolvedDependency;
use migration_assessor::references::{ImportBinding, Location, ReferenceKind, SymbolReference};
use migration_assessor::spec_writer::{derive_target_path, to_snake_case};
use migration_assessor::output_paths;

#[test]
fn test_rust_language_name() {
    assert_eq!(RustLanguage.name(), "rust");
}

#[test]
fn test_rust_file_extensions() {
    let exts = RustLanguage.file_extensions();
    assert_eq!(exts, &["rs"]);
}

#[test]
fn test_output_format_from_cli_json() {
    assert_eq!(OutputFormat::from_cli("json").unwrap(), OutputFormat::Json);
    assert_eq!(OutputFormat::from_cli("JSON").unwrap(), OutputFormat::Json);
}

#[test]
fn test_output_format_from_cli_ndjson() {
    assert_eq!(OutputFormat::from_cli("ndjson").unwrap(), OutputFormat::Ndjson);
}

#[test]
fn test_output_format_from_cli_invalid() {
    let err = OutputFormat::from_cli("xml").unwrap_err();
    assert!(err.to_string().contains("unsupported"));
}

#[test]
fn test_output_writer_default_format() {
    let format = OutputFormat::default();
    assert_eq!(format, OutputFormat::Json);
}

fn dep(name: &str) -> ResolvedDependency {
    ResolvedDependency {
        name: name.to_string(),
        version: "1.0.0".to_string(),
        resolved: None,
        dependencies: vec![],
        children: vec![],
        dep_type: "prod".to_string(),
    }
}

#[test]
fn builds_recommendations_for_express() {
    let matrix = CompatibilityMatrix::new("typescript".to_string(), "rust".to_string());
    let deps = vec![dep("express"), dep("unknown-pkg")];
    let module_deps: Vec<(String, Vec<String>)> = vec![
        ("src/server.ts".to_string(), vec!["express".to_string()]),
        ("src/x.ts".to_string(), vec!["unknown-pkg".to_string()]),
    ];
    let report = build_recommendations(&deps, &matrix, Some(&module_deps));
    let express = report.dependencies.iter().find(|d| d.package == "express").unwrap();
    assert_eq!(express.compatibility, CompatibilityLevel::Partial);
    assert_eq!(express.affected_module_count, 1);
    assert!(!express.is_high_impact);
    let unknown = report.dependencies.iter().find(|d| d.package == "unknown-pkg").unwrap();
    assert_eq!(unknown.compatibility, CompatibilityLevel::Unknown);
    assert_eq!(report.unmapped_count, 1);
}

#[test]
fn recommendations_put_high_impact_first() {
    let matrix = CompatibilityMatrix::new("typescript".to_string(), "rust".to_string());
    let deps = vec![dep("express"), dep("left-pad"), dep("aaa")];
    let mut module_deps: Vec<(String, Vec<String>)> = Vec::new();
    for i in 0..6 {
        module_deps.push((format!("src/m{}.ts", i), vec!["left-pad".to_string(), "left-pad".to_string()]));
    }
    let report = build_recommendations(&deps, &matrix, Some(&module_deps));
    let names: Vec<&str> = report.dependencies.iter().map(|d| d.package.as_str()).collect();
    assert_eq!(names, vec!["left-pad", "aaa", "express"]);
    assert!(report.dependencies[0].is_high_impact);
    assert_eq!(report.dependencies[0].affected_module_count, 6);
    assert_eq!(report.unmapped_count, 2);
}

#[test]
fn test_import_binding_struct() {
    let binding = ImportBinding {
        local_name: "myLocal".into(),
        source_module: "./myModule".into(),
        exported_name: "myExport".into(),
    };
    assert_eq!(binding.local_name, "myLocal");
    assert_eq!(binding.source_module, "./myModule");
    assert_eq!(binding.exported_name, "myExport");
}

#[test]
fn test_symbol_reference_struct() {
    let sr = SymbolReference {
        symbol: "file.ts:foo".into(),
        location: Location { file: "test.ts".into(), line: 10, column: 5 },
        kind: ReferenceKind::Call,
    };
    assert_eq!(sr.symbol, "file.ts:foo");
    assert_eq!(sr.location.line, 10);
}

#[test]
fn test_reference_kind_variants() {
    assert_ne!(ReferenceKind::Call, ReferenceKind::Usage);
    assert_ne!(ReferenceKind::Instantiation, ReferenceKind::TypeReference);
    assert_eq!(ReferenceKind::Extends, ReferenceKind::Extends);
    assert_eq!(ReferenceKind::Implements, ReferenceKind::Implements);
    assert_eq!(ReferenceKind::PropertyAccess, ReferenceKind::PropertyAccess);
}

#[test]
fn test_location_struct() {
    let loc = Location { file: "src/main.rs".into(), line: 42, column: 7 };
    assert_eq!(loc.file, "src/main.rs");
    assert_eq!(loc.line, 42);
    assert_eq!(loc.column, 7);
}

#[test]
fn test_derive_target_path() {
    assert_eq!(derive_target_path("src/utils/format.ts"), "src/utils/format.rs");
    assert_eq!(derive_target_path("src/utils/format.tsx"), "src/utils/format.rs");
    assert_eq!(derive_target_path("models/user.ts"), "models/user.rs");
    assert_eq!(derive_target_path("lib.rs"), "lib.rs");
}

#[test]
fn test_to_snake_case() {
    assert_eq!(to_snake_case("formatPrice"), "format_price");
    assert_eq!(to_snake_case("getUserById"), "get_user_by_id");
    assert_eq!(to_snake_case("simple"), "simple");
    assert_eq!(to_snake_case("XMLParser"), "xml_parser");
    assert_eq!(to_snake_case("APP_NAME"), "app_name");
    assert_eq!(to_snake_case("API_PREFIX"), "api_prefix");
    assert_eq!(to_snake_case("HTTP_STATUS"), "http_status");
    assert_eq!(to_snake_case("DBConnection"), "db_connection");
    assert_eq!(to_snake_case("parseXML"), "parse_xml");
    assert_eq!(to_snake_case("parseXMLDocument"), "parse_xml_document");
}

#[test]
fn config_defaults_and_validation() {
    let config = Config::default_with_target("go".to_string());
    assert_eq!(config.project.target_lang, "go");
    assert_eq!(config.output.directory, ".migration");
    assert_eq!(config.scoring.weights.in_degree, 30);
    assert!(config.validate().is_ok());
    let mut bad = Config::default();
    bad.project.source_lang = Some("cobol".to_string());
    bad.project.target_lang = "fortran".to_string();
    match bad.validate() {
        Err(e @ ConfigError::InvalidSourceLanguage(_)) => assert_eq!(
            e.message(),
            "Invalid source_language 'cobol'. Valid values: typescript, rust, python, go, java, kotlin"
        ),
        _ => panic!("expected an invalid source language"),
    }
    bad.project.source_lang = None;
    assert!(matches!(bad.validate(), Err(ConfigError::InvalidTargetLanguage(_))));
}

#[test]
fn project_detection() {
    let p = Project::detect("/p".to_string(), "rust".to_string(), None, true, false).unwrap();
    assert_eq!(p.source_language, SourceLanguage::TypeScript);
    assert_eq!(p.source_language_str(), "typescript");
    let p = Project::detect("/p".to_string(), "ts".to_string(), Some("rust".to_string()), true, false).unwrap();
    assert_eq!(p.source_language, SourceLanguage::Rust);
    let e = Project::detect("/p".to_string(), "rust".to_string(), None, true, true).unwrap_err();
    assert!(e.message().contains("Both package.json"));
    let e = Project::detect("/p".to_string(), "rust".to_string(), None, false, false).unwrap_err();
    assert_eq!(e.message(), "No package.json or Cargo.toml found in /p");
}

#[test]
fn output_paths_of_reports() {
    assert_eq!(output_paths::spec::for_file("src/a.ts"), "spec/src/a.ts.json");
    assert_eq!(output_paths::symbols::for_module("m"), "symbols/m/symbols.json");
    assert_eq!(output_paths::symbols::api_for_module("m"), "symbols/m/api.json");
    assert_eq!(output_paths::references::forward_for("f"), "references/forward/f.json");
    assert_eq!(output_paths::references::reverse_for("f"), "references/reverse/f.json");
    assert_eq!(output_paths::diffs::dated("2024.json"), "diffs/2024.json");
}
