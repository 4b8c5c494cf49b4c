use migration_assessor::parser::{extension_of, parse_file_references};
use migration_assessor::parser::javascript;
use migration_assessor::parser::typescript;
use migration_assessor::parser::rust;
use migration_assessor::references::parse_import_bindings;

#[test]
fn test_js_parse_references_relative() {
    let source = r#"import { foo } from './helper';"#;
    let refs = javascript::parse_references(source, Some("test.js")).unwrap();
    assert_eq!(refs.relative_imports, vec!["./helper"]);
    assert!(refs.external_imports.is_empty());
}

#[test]
fn test_js_parse_references_external() {
    let source = r#"import fs from 'fs';"#;
    let refs = javascript::parse_references(source, Some("test.js")).unwrap();
    assert!(refs.relative_imports.is_empty());
    assert_eq!(refs.external_imports, vec!["fs"]);
}

#[test]
fn test_js_parse_references_no_imports() {
    let source = "const x = 1;";
    let refs = javascript::parse_references(source, Some("test.js")).unwrap();
    assert!(refs.relative_imports.is_empty());
    assert!(refs.external_imports.is_empty());
}

#[test]
fn test_js_parse_import_bindings_default() {
    let source = r#"import foo from './bar';"#;
    let bindings = javascript::parse_import_bindings(source, Some("test.js")).unwrap();
    assert_eq!(bindings.len(), 1);
    assert_eq!(bindings[0].local_name, "foo");
    assert_eq!(bindings[0].exported_name, "default");
    assert_eq!(bindings[0].source_module, "./bar");
}

#[test]
fn test_js_parse_import_bindings_named() {
    let source = r#"import { a, b } from './mod';"#;
    let bindings = javascript::parse_import_bindings(source, Some("test.js")).unwrap();
    assert_eq!(bindings.len(), 2);
    assert_eq!(bindings[0].local_name, "a");
    assert_eq!(bindings[0].exported_name, "a");
    assert_eq!(bindings[1].local_name, "b");
}

#[test]
fn test_parse_file_references_ts() {
    let source = "import { foo } from './helper';\nimport fs from 'fs';\nexport { bar } from 'lodash';";
    let refs = parse_file_references("test.ts", source).unwrap();
    assert!(refs.relative_imports.contains(&"./helper".to_string()));
    assert!(refs.external_imports.contains(&"fs".to_string()));
    assert!(refs.external_imports.contains(&"lodash".to_string()));
}

#[test]
fn test_parse_file_references_rs() {
    let source = "use std::collections::HashMap;\nuse crate::helper::foo;\nmod bar;";
    let refs = parse_file_references("lib.rs", source).unwrap();
    assert!(refs.external_imports.iter().any(|i| i.contains("HashMap")));
    assert!(refs.relative_imports.iter().any(|i| i.contains("crate::helper")));
    assert!(refs.relative_imports.iter().any(|i| i == "self::bar"));
}

#[test]
fn test_parse_file_references_unknown_extension() {
    let source = "anything";
    let refs = parse_file_references("foo.py", source).unwrap();
    assert!(refs.relative_imports.is_empty());
    assert!(refs.external_imports.is_empty());
}

#[test]
fn test_parse_file_references_no_imports() {
    let source = "const x = 1;\nlet y = 2;";
    let refs = parse_file_references("test.ts", source).unwrap();
    assert!(refs.relative_imports.is_empty());
    assert!(refs.external_imports.is_empty());
}

#[test]
fn test_ts_parse_references() {
    let source = r#"
import { Component } from 'react';
import { helper } from './utils';
export type { Props } from './types';
export * from 'lodash';
"#;
    let refs = typescript::parse_references(source, Some("test.tsx")).unwrap();
    assert!(refs.external_imports.contains(&"react".to_string()));
    assert!(refs.external_imports.contains(&"lodash".to_string()));
    assert!(refs.relative_imports.contains(&"./utils".to_string()));
    assert!(refs.relative_imports.contains(&"./types".to_string()));
}

#[test]
fn test_ts_parse_references_no_imports() {
    let source = "const x: number = 1;\nconsole.log(x);";
    let refs = typescript::parse_references(source, Some("test.ts")).unwrap();
    assert!(refs.relative_imports.is_empty());
    assert!(refs.external_imports.is_empty());
}

#[test]
fn test_classify_import_relative() {
    let mut rel = Vec::new();
    let mut ext = Vec::new();
    typescript::classify_import("./foo", &mut rel, &mut ext);
    assert_eq!(rel, vec!["./foo"]);
    assert!(ext.is_empty());
}

#[test]
fn test_classify_import_external() {
    let mut rel = Vec::new();
    let mut ext = Vec::new();
    typescript::classify_import("lodash", &mut rel, &mut ext);
    assert!(rel.is_empty());
    assert_eq!(ext, vec!["lodash"]);
}

#[test]
fn test_parse_ts_imports() {
    let source = r#"import { foo } from "./bar";"#;
    let result = parse_import_bindings(source, Some("test.ts")).unwrap();
    assert_eq!(result.len(), 1);
    assert_eq!(result[0].local_name, "foo");
    assert_eq!(result[0].source_module, "./bar");
}

#[test]
fn test_parse_tsx_imports() {
    let source = r#"import React from "./Component";"#;
    let result = parse_import_bindings(source, Some("test.tsx")).unwrap();
    assert_eq!(result.len(), 1);
    assert_eq!(result[0].local_name, "React");
}

#[test]
fn test_parse_rust_imports() {
    let source = "use crate::models::User;";
    let result = parse_import_bindings(source, Some("lib.rs")).unwrap();
    assert_eq!(result.len(), 1);
    assert_eq!(result[0].local_name, "User");
}

#[test]
fn test_parse_unknown_extension_returns_empty() {
    let source = "some random content";
    let result = parse_import_bindings(source, Some("foo.txt")).unwrap();
    assert!(result.is_empty());
}

#[test]
fn test_parse_default_extension_ts() {
    let source = r#"import { a } from "./b";"#;
    let result = parse_import_bindings(source, None).unwrap();
    assert_eq!(result.len(), 1);
}

// Further cases.

#[test]
fn references_are_sorted_and_without_repeats() {
    let source = "import a from './z';\nimport b from './a';\nimport c from './z';\nexport * from 'x';\nimport 'b-lib';";
    let refs = parse_file_references("m.js", source).unwrap();
    assert_eq!(refs.relative_imports, vec!["./a", "./z"]);
    assert_eq!(refs.external_imports, vec!["b-lib", "x"]);
}

#[test]
fn namespace_import_binds_star_in_javascript_only() {
    let source = "import * as ns from './m';";
    let js = javascript::parse_import_bindings(source, Some("a.js")).unwrap();
    assert_eq!(js.len(), 1);
    assert_eq!(js[0].exported_name, "*");
    let ts = parse_import_bindings(source, Some("a.ts")).unwrap();
    assert!(ts.is_empty());
}

#[test]
fn typescript_bindings_keep_relative_and_alias_imports() {
    let source = "import { a } from 'lodash';\nimport { b } from '#utils';\nimport { c as d } from '@scope/pkg';\nexport { e as f } from './g';";
    let ts = parse_import_bindings(source, Some("x.ts")).unwrap();
    assert_eq!(ts.len(), 3);
    assert_eq!(ts[0].local_name, "b");
    assert_eq!(ts[1].local_name, "d");
    assert_eq!(ts[1].exported_name, "c");
    assert_eq!(ts[2].local_name, "f");
    assert_eq!(ts[2].exported_name, "e");
    assert_eq!(ts[2].source_module, "./g");
}

#[test]
fn rust_references_keep_order_and_write_trees() {
    let source = "use ::std::io;\nuse crate::a::{b, c as d, e::*};\nmod inner { use super::x; }\nfn f() { use self::y::z; }";
    let refs = rust::parse_references(source).unwrap();
    assert_eq!(refs.external_imports, vec!["::std::io"]);
    assert_eq!(refs.relative_imports, vec!["crate::a::{b, c as d, e::*}", "super::x", "self::y::z"]);
}

#[test]
fn rust_bindings_skip_external_self_and_globs() {
    let source = "use std::fmt::Display;\nuse crate::m::{self, A, B as C, d::*};\nuse super::q::R;";
    let b = parse_import_bindings(source, Some("x.rs")).unwrap();
    assert_eq!(b.len(), 3);
    assert_eq!((b[0].local_name.as_str(), b[0].source_module.as_str(), b[0].exported_name.as_str()), ("A", "crate::m", "A"));
    assert_eq!((b[1].local_name.as_str(), b[1].exported_name.as_str()), ("C", "B"));
    assert_eq!(b[2].source_module, "super::q");
}

#[test]
fn rust_parse_error_is_reported() {
    assert!(rust::parse_references("fn (").is_err());
    assert!(parse_file_references("x.rs", "use ;").is_err());
}

#[test]
fn extension_follows_the_last_dot_of_the_file_name() {
    assert_eq!(extension_of("a/b.c/d.ts"), Some("ts".to_string()));
    assert_eq!(extension_of("a/b.c/d"), None);
    assert_eq!(extension_of(".gitignore"), None);
    assert_eq!(extension_of("x.tar.gz"), Some("gz".to_string()));
    assert_eq!(extension_of(".."), None);
}

#[test]
fn rust_references_inside_expressions() {
    let source = "fn f() {\n    let x = { use std::io::Read; 1 };\n    call(|| { mod helper; });\n}\nimpl S { const K: u8 = { use crate::k::K; K }; }";
    let refs = rust::parse_references(source).unwrap();
    assert_eq!(refs.external_imports, vec!["std::io::Read"]);
    assert_eq!(refs.relative_imports, vec!["self::helper", "crate::k::K"]);
}
