use migration_assessor::graph::Cycle;
use migration_assessor::manifest::{checklist_target_of, count_statuses, module_checklist, todo_item};
use migration_assessor::references::{Location, ReferenceKind, SymbolReference};
use migration_assessor::scores::{max_cycle_count, max_in_degree, module_counts, module_cycle_count, module_in_degree};
use migration_assessor::spec_writer::{MigrationSpec, SpecImports, SpecSymbol};

fn reference(file: &str) -> SymbolReference {
    SymbolReference {
        symbol: "x".to_string(),
        location: Location { file: file.to_string(), line: 1, column: 1 },
        kind: ReferenceKind::Call,
    }
}

fn reverse() -> Vec<(String, Vec<SymbolReference>)> {
    vec![
        ("src/a.ts:foo".to_string(), vec![reference("src/b.ts"), reference("src/c.ts"), reference("src/b.ts")]),
        ("src/a.ts:bar".to_string(), vec![reference("src/b.ts")]),
        ("src/d.ts:baz".to_string(), vec![reference("src/a.ts")]),
        ("nocolon".to_string(), vec![reference("src/a.ts")]),
    ]
}

#[test]
fn in_degree_counts_distinct_files_per_symbol() {
    let rev = reverse();
    assert_eq!(module_in_degree(&rev, "src/a.ts"), 3);
    assert_eq!(module_in_degree(&rev, "src/d.ts"), 1);
    assert_eq!(module_in_degree(&rev, "src/e.ts"), 0);
}

#[test]
fn cycle_count_counts_every_occurrence() {
    let cycles = vec![
        Cycle { nodes: vec!["a".to_string(), "b".to_string(), "a".to_string()] },
        Cycle { nodes: vec!["b".to_string(), "c".to_string()] },
    ];
    assert_eq!(module_cycle_count(&cycles, "a"), 2);
    assert_eq!(module_cycle_count(&cycles, "b"), 2);
    assert_eq!(module_cycle_count(&cycles, "z"), 0);
}

#[test]
fn module_counts_list_each_module_once() {
    let rev = reverse();
    let cycles = vec![Cycle { nodes: vec!["src/a.ts".to_string(), "src/d.ts".to_string(), "src/a.ts".to_string()] }];
    let modules = vec!["src/a.ts".to_string(), "src/d.ts".to_string(), "src/a.ts".to_string()];
    let tested = vec!["src/d.ts".to_string()];
    let counts = module_counts(&modules, &rev, &cycles, &tested);
    assert_eq!(counts.len(), 2);
    assert_eq!(counts[0].module, "src/a.ts");
    assert_eq!(counts[0].in_degree, 3);
    assert_eq!(counts[0].cycle_count, 2);
    assert!(!counts[0].has_tests);
    assert_eq!(counts[1].module, "src/d.ts");
    assert!(counts[1].has_tests);
    assert_eq!(max_in_degree(&counts), 3);
    assert_eq!(max_cycle_count(&counts), 2);
    assert_eq!(max_in_degree(&Vec::new()), 1);
}

#[test]
fn checklist_target_replaces_script_extensions() {
    assert_eq!(checklist_target_of("src/a.ts"), "src/a.rs");
    assert_eq!(checklist_target_of("src/b.js"), "src/b.rs");
    assert_eq!(checklist_target_of("src/c.tsx"), "src/c.rsx");
    assert_eq!(checklist_target_of("src/x.jsonl"), "src/x.rsonl");
}

#[test]
fn module_checklist_marks_presence_by_status() {
    let spec = MigrationSpec {
        file: "src/a.ts".to_string(),
        target_path: "src/a.rs".to_string(),
        layer: 1,
        migration_effort: "trivial".to_string(),
        has_tests: false,
        source: String::new(),
        exports: vec![],
        symbols: vec![SpecSymbol {
            name: "fooBar".to_string(),
            kind: "function".to_string(),
            visibility: "Some(Public)".to_string(),
            line_range: [1, 2],
            signature: None,
            target_name: "foo_bar".to_string(),
            target_signature: None,
            params: vec![],
            return_type: None,
            is_async: None,
            migration_note: None,
        }],
        imports: SpecImports { relative: vec![], external: vec![] },
        referenced_by: vec![],
    };
    let path = "src/a.ts".to_string();
    let effort = "trivial".to_string();
    let verified = module_checklist(&path, 1, &effort, &"verified".to_string(), &spec);
    assert_eq!(verified.target, "src/a.rs");
    assert_eq!(verified.symbols[0].target, "foo_bar");
    assert_eq!(verified.symbols[0].present, Some(true));
    let failed = module_checklist(&path, 1, &effort, &"failed".to_string(), &spec);
    assert_eq!(failed.symbols[0].present, Some(false));
    let pending = module_checklist(&path, 1, &effort, &"pending".to_string(), &spec);
    assert_eq!(pending.symbols[0].present, None);
    let todo = todo_item(&path, 1, &effort, 4);
    assert_eq!(todo.target, "src/a.rs");
    assert_eq!(todo.depends_on_count, 4);
}

#[test]
fn statuses_are_counted() {
    let s: Vec<String> = ["pending", "verified", "pending", "failed", "in_progress", "other"]
        .iter()
        .map(|x| x.to_string())
        .collect();
    assert_eq!(count_statuses(&s), (2, 1, 1, 1));
}
