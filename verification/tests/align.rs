use migration_assessor::api_map::ApiMapRegistry;
use migration_assessor::naming::{CaseTransform, NamingRegistry};

#[test]
fn test_translate_db_call() {
    let reg = ApiMapRegistry::new("typescript", "rust");
    assert_eq!(reg.translate_call("db.findOne"), Some("db.find_one"));
}

#[test]
fn test_translate_fetch() {
    let reg = ApiMapRegistry::new("typescript", "rust");
    assert_eq!(reg.translate_call("fetch"), Some("reqwest::get"));
}

#[test]
fn test_translate_unknown_call() {
    let reg = ApiMapRegistry::new("typescript", "rust");
    assert_eq!(reg.translate_call("foo.bar"), None);
}

#[test]
fn test_translate_call_chain() {
    let reg = ApiMapRegistry::new("typescript", "rust");
    let calls = vec!["db.findOne".to_string(), "db.save".to_string()];
    let result = reg.translate_call_chain(&calls);
    assert_eq!(result[0], "db.find_one");
    assert_eq!(result[1], "db.insert");
}

#[test]
fn api_map_test_default_registry() {
    let reg = ApiMapRegistry::new("unknown", "unknown");
    assert!(reg.translate_call("db.findOne").is_none());
}

#[test]
fn test_translate_name_strips_i_prefix() {
    let reg = NamingRegistry::new("typescript", "rust");
    assert_eq!(reg.translate_name("IUser"), "user");
}

#[test]
fn test_translate_name_camel_to_snake() {
    let reg = NamingRegistry::new("typescript", "rust");
    assert_eq!(reg.translate_name("displayName"), "display_name");
}

#[test]
fn test_translate_name_no_change() {
    let reg = NamingRegistry::new("typescript", "rust");
    assert_eq!(reg.translate_name("login"), "login");
}

#[test]
fn test_candidates() {
    let reg = NamingRegistry::new("typescript", "rust");
    let candidates = reg.candidates("IUser");
    assert!(candidates.contains(&"User".to_string()));
    assert!(candidates.contains(&"user".to_string()));
}

#[test]
fn test_translate_type_promise() {
    let reg = NamingRegistry::new("typescript", "rust");
    assert_eq!(reg.translate_type("Promise<User>"), "Result<User>");
}

#[test]
fn test_translate_type_array() {
    let reg = NamingRegistry::new("typescript", "rust");
    assert_eq!(reg.translate_type("Array<string>"), "Vec<String>");
}

#[test]
fn test_translate_type_no_match() {
    let reg = NamingRegistry::new("typescript", "rust");
    assert_eq!(reg.translate_type("CustomType"), "CustomType");
}

#[test]
fn test_translate_type_string() {
    let reg = NamingRegistry::new("typescript", "rust");
    assert_eq!(reg.translate_type("string"), "String");
}

#[test]
fn naming_test_default_registry() {
    let reg = NamingRegistry::new("unknown", "unknown");
    assert_eq!(reg.translate_name("IUser"), "IUser");
    assert_eq!(reg.translate_type("string"), "string");
}

#[test]
fn test_snake_to_camel() {
    let reg = NamingRegistry::new("rust", "typescript");
    assert_eq!(reg.translate_name("display_name"), "displayName");
}

#[test]
fn call_chain_keeps_unknown_calls() {
    let reg = ApiMapRegistry::new("typescript", "rust");
    let calls = vec!["console.log".to_string(), "JSON.parse".to_string()];
    let result = reg.translate_call_chain(&calls);
    assert_eq!(result, vec!["console.log".to_string(), "serde_json::from_str".to_string()]);
}

#[test]
fn reverse_direction_translates_back() {
    let reg = ApiMapRegistry::new("rust", "typescript");
    assert_eq!(reg.translate_call("db.insert"), Some("db.save"));
    let naming = NamingRegistry::new("rust", "typescript");
    assert_eq!(naming.translate_type("Vec<String>"), "Array<string>");
}

#[test]
fn candidates_start_with_the_name_itself() {
    let reg = NamingRegistry::new("typescript", "rust");
    let candidates = reg.candidates("IUser");
    assert_eq!(candidates[0], "IUser");
}

use migration_assessor::diff::{ChangeDetail, Ratio};
use migration_assessor::matcher::{default_target_file, find_candidate_files, match_by_name, resolve_child_context, unmatched, NameMatch};
use migration_assessor::symbols::{ApiContract, Symbol, SymbolIndex};

fn target_symbol(name: &str, line_range: [usize; 2], children: Vec<Symbol>) -> Symbol {
    Symbol {
        id: format!("src/user.rs::{}", name),
        name: name.into(),
        kind: "struct".into(),
        line_range,
        children,
        partial_analysis: false,
        partial_reason: None,
        visibility: None,
        value: None,
        signature: None,
        doc_comment: None,
        attributes: vec![],
        is_async: None,
        return_type: None,
        params: None,
    }
}

fn target_project() -> Vec<(SymbolIndex, ApiContract)> {
    vec![(
        SymbolIndex {
            module: "src/user.rs".into(),
            symbols: vec![target_symbol("User", [1, 10], vec![target_symbol("display_name", [3, 3], vec![])])],
        },
        ApiContract { module: "src/user.rs".into(), exports: vec![] },
    )]
}

#[test]
fn default_target_swaps_extension() {
    assert_eq!(default_target_file("src\\models\\user.ts").as_deref(), Some("src/models/user.rs"));
    assert_eq!(default_target_file("a/b.tsx").as_deref(), Some("a/b.rs"));
    assert_eq!(default_target_file("c.vue").as_deref(), Some("c.rs"));
    assert_eq!(default_target_file("lib.rs"), None);
}

#[test]
fn candidate_files_prefer_the_default_file() {
    let mut project = target_project();
    project.push((
        SymbolIndex { module: "src/models/user.rs".into(), symbols: vec![] },
        ApiContract { module: "src/models/user.rs".into(), exports: vec![] },
    ));
    assert_eq!(find_candidate_files("src/models/user.ts", &project), vec![1]);
    assert_eq!(find_candidate_files("src/other.ts", &project), vec![0, 1]);
}

#[test]
fn match_by_name_finds_renamed_interface() {
    let naming = NamingRegistry::new("typescript", "rust");
    let targets = target_project();
    match match_by_name("src/models/user.ts", "IUser", &targets, &naming) {
        NameMatch::Found(m) => {
            assert_eq!(m.target_file.as_deref(), Some("src/user.rs"));
            assert_eq!(m.target_symbol.as_deref(), Some("User"));
            assert_eq!(m.target_line_range, Some([1, 10]));
            assert_eq!(m.confidence, Ratio { num: 85, den: 100 });
        },
        NameMatch::Candidates(_) => panic!("expected a match by name"),
    }
    match match_by_name("src/models/user.ts", "Order", &targets, &naming) {
        NameMatch::Candidates(files) => assert_eq!(files, vec![0]),
        NameMatch::Found(_) => panic!("expected no match by name"),
    }
}

#[test]
fn match_by_name_without_targets_falls_back() {
    let naming = NamingRegistry::new("typescript", "rust");
    match match_by_name("src/models/user.ts", "NonExistent", &[], &naming) {
        NameMatch::Found(m) => {
            assert_eq!(m.target_file.as_deref(), Some("src/models/user.rs"));
            assert!(m.target_symbol.is_none());
            assert_eq!(m.confidence, Ratio { num: 0, den: 1 });
        },
        NameMatch::Candidates(_) => panic!("expected the default file"),
    }
    assert_eq!(unmatched("x.js").target_file.as_deref(), Some("x.rs"));
}

fn member_detail(new_value: Option<&str>) -> ChangeDetail {
    ChangeDetail {
        aspect: "member".into(),
        change_type: "added".into(),
        description: String::new(),
        old_value: None,
        new_value: new_value.map(|v| v.to_string()),
        migration_note: None,
    }
}

#[test]
fn child_context_finds_translated_member() {
    let naming = NamingRegistry::new("typescript", "rust");
    let targets = target_project();
    let found = resolve_child_context("IUser", &[member_detail(Some("displayName"))], Some("src/user.rs"), Some("User"), &targets, &naming);
    assert_eq!(found, (Some("display_name".to_string()), Some([3, 3])));
    let missing = resolve_child_context("IUser", &[member_detail(Some("emailAddress"))], Some("src/user.rs"), Some("User"), &targets, &naming);
    assert_eq!(missing, (Some("email_address".to_string()), Some([1, 10])));
    let none = resolve_child_context("IUser", &[member_detail(None)], Some("src/user.rs"), Some("User"), &targets, &naming);
    assert_eq!(none, (None, None));
    let no_file = resolve_child_context("IUser", &[member_detail(Some("x"))], None, Some("User"), &targets, &naming);
    assert_eq!(no_file, (None, None));
}

#[test]
fn camel_to_snake_and_back_gives_the_name() {
    let to_snake = NamingRegistry { strip_prefixes: vec![], case: CaseTransform::CamelToSnake, type_map: vec![] };
    let to_camel = NamingRegistry { strip_prefixes: vec![], case: CaseTransform::SnakeToCamel, type_map: vec![] };
    for name in ["displayName", "x", "getHTTPResponse2", "user"] {
        let snake = to_snake.translate_name(name);
        assert_eq!(to_camel.translate_name(&snake), name);
    }
    assert_eq!(to_snake.translate_name("displayName"), "display_name");
}
