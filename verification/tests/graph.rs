use migration_assessor::graph::{DependencyGraph, Edge, GraphBuilder, Node};

#[test]
fn test_detect_cycle_two_nodes() {
    let mut graph = DependencyGraph {
        nodes: vec![
            Node {
                id: "a".into(),
                in_degree: 1,
                out_degree: 1,
                top_dir: "".into(),
                dir_path: "".into(),
                in_cycle: false,
            },
            Node {
                id: "b".into(),
                in_degree: 1,
                out_degree: 1,
                top_dir: "".into(),
                dir_path: "".into(),
                in_cycle: false,
            },
        ],
        edges: vec![
            Edge { from: "a".into(), to: "b".into() },
            Edge { from: "b".into(), to: "a".into() },
        ],
    };
    let result = graph.detect_cycles();
    assert!(result.has_cycles);
    assert_eq!(result.cycles.len(), 1);
    assert_eq!(result.cycles[0].nodes.len(), 3);
}

#[test]
fn self_loop_is_reported_and_marked() {
    let mut graph = GraphBuilder::assemble(&["a".to_string()], vec![Edge { from: "a".into(), to: "a".into() }]);
    let result = graph.detect_cycles();
    assert!(result.has_cycles);
    assert_eq!(result.self_loops, vec!["a".to_string()]);
    assert!(graph.nodes[0].in_cycle);
}

#[test]
fn acyclic_graph_has_no_cycles() {
    let mut graph = GraphBuilder::assemble(
        &["src/a.ts".to_string(), "src/b.ts".to_string()],
        vec![Edge { from: "src/a.ts".into(), to: "src/b.ts".into() }],
    );
    let result = graph.detect_cycles();
    assert!(!result.has_cycles);
    assert!(result.cycles.is_empty());
    assert!(graph.nodes.iter().all(|n| !n.in_cycle));
}

#[test]
fn assembled_nodes_are_sorted_with_degrees() {
    let graph = GraphBuilder::assemble(
        &["src/index.ts".to_string(), "lib/x/helper.ts".to_string()],
        vec![
            Edge { from: "src/index.ts".into(), to: "lib/x/helper.ts".into() },
            Edge { from: "src/index.ts".into(), to: "other.ts".into() },
        ],
    );
    let ids: Vec<&str> = graph.nodes.iter().map(|n| n.id.as_str()).collect();
    assert_eq!(ids, vec!["lib/x/helper.ts", "other.ts", "src/index.ts"]);
    assert_eq!(graph.nodes[0].in_degree, 1);
    assert_eq!(graph.nodes[0].top_dir, "lib");
    assert_eq!(graph.nodes[0].dir_path, "lib/x");
    assert_eq!(graph.nodes[1].top_dir, "other.ts");
    assert_eq!(graph.nodes[1].dir_path, "");
    assert_eq!(graph.nodes[2].out_degree, 2);
}

#[test]
fn test_detect_self_loop() {
    let mut graph = DependencyGraph {
        nodes: vec![Node {
            id: "a".into(),
            in_degree: 1,
            out_degree: 1,
            top_dir: "".into(),
            dir_path: "".into(),
            in_cycle: false,
        }],
        edges: vec![Edge {
            from: "a".into(),
            to: "a".into(),
        }],
    };
    let result = graph.detect_cycles();
    assert!(result.has_cycles);
    assert!(!result.self_loops.is_empty());
    assert_eq!(result.self_loops[0], "a");
    assert!(graph.nodes[0].in_cycle);
}

use migration_assessor::graph::resolve::{
    javascript_import_candidates, module_id, rust_import_candidates, rust_module_id, typescript_import_candidates,
};

fn strings(v: &[&str]) -> Vec<String> {
    v.iter().map(|s| s.to_string()).collect()
}

#[test]
fn module_ids_are_normalized() {
    assert_eq!(module_id("src/./a/../b.ts"), "src/b.ts");
    assert_eq!(module_id("src//index.ts"), "src/index.ts");
    assert_eq!(module_id("../up.ts"), "../up.ts");
}

#[test]
fn typescript_candidates_in_order() {
    let c = typescript_import_candidates("src/index.ts", "./helper");
    assert_eq!(
        c,
        strings(&[
            "src/helper",
            "src/helper.ts",
            "src/helper.tsx",
            "src/helper.js",
            "src/helper/index.ts",
            "src/helper/index.tsx",
            "src/helper/index.js",
        ])
    );
    let d = typescript_import_candidates("src/a/b.ts", "../lib/util.js");
    assert_eq!(d[0], "src/lib/util.js");
    assert_eq!(d[1], "src/lib/util.ts");
    assert_eq!(d[4], "src/lib/util.js/index.ts");
    let e = typescript_import_candidates("index.ts", "../x");
    assert_eq!(e[0], "../x");
}

#[test]
fn javascript_candidates_in_order() {
    let c = javascript_import_candidates("lib/a.js", "./b");
    assert_eq!(c.len(), 9);
    assert_eq!(c[1], "lib/b.js");
    assert_eq!(c[4], "lib/b.cjs");
    assert_eq!(c[8], "lib/b/index.cjs");
}

#[test]
fn rust_candidates() {
    let c = rust_import_candidates("src/main.rs", "crate::foo::bar").unwrap();
    assert_eq!(c.base, strings(&["src"]));
    assert_eq!(c.module_file, strings(&["src", "foo", "bar.rs"]));
    assert_eq!(c.module_dir, strings(&["src", "foo", "bar", "mod.rs"]));
    let s = rust_import_candidates("src/main.rs", "self::lib").unwrap();
    assert_eq!(s.module_file, strings(&["src", "lib.rs"]));
    let u = rust_import_candidates("src/a/b.rs", "super::x").unwrap();
    assert_eq!(u.base, strings(&["src"]));
    assert_eq!(u.module_file, strings(&["src", "x.rs"]));
    assert!(rust_import_candidates("src/main.rs", "std::io").is_none());
    assert!(rust_import_candidates("src/main.rs", "crate::").is_none());
    assert_eq!(rust_module_id(&c.module_file, 1), "foo/bar.rs");
    assert_eq!(rust_module_id(&s.module_file, 1), "lib.rs");
}

fn node(id: &str) -> Node {
    Node {
        id: id.into(),
        in_degree: 0,
        out_degree: 0,
        top_dir: "".into(),
        dir_path: "".into(),
        in_cycle: false,
    }
}

fn edge(from: &str, to: &str) -> Edge {
    Edge { from: from.into(), to: to.into() }
}

#[test]
fn two_node_cycle_starts_at_first_node() {
    let mut graph = DependencyGraph {
        nodes: vec![node("a"), node("b")],
        edges: vec![edge("a", "b"), edge("b", "a")],
    };
    let result = graph.detect_cycles();
    assert_eq!(result.cycles.len(), 1);
    assert_eq!(result.cycles[0].nodes, vec!["a".to_string(), "b".to_string(), "a".to_string()]);
    assert!(result.self_loops.is_empty());
    assert!(graph.nodes[0].in_cycle);
    assert!(graph.nodes[1].in_cycle);
}

#[test]
fn separate_cycles_are_all_reported() {
    let mut graph = DependencyGraph {
        nodes: vec![node("a"), node("b"), node("c"), node("d"), node("e")],
        edges: vec![edge("a", "b"), edge("b", "a"), edge("c", "d"), edge("d", "c")],
    };
    let result = graph.detect_cycles();
    assert_eq!(result.cycles.len(), 2);
    assert_eq!(result.cycles[0].nodes, vec!["a".to_string(), "b".to_string(), "a".to_string()]);
    assert_eq!(result.cycles[1].nodes, vec!["c".to_string(), "d".to_string(), "c".to_string()]);
    let flagged: Vec<bool> = graph.nodes.iter().map(|n| n.in_cycle).collect();
    assert_eq!(flagged, vec![true, true, true, true, false]);
}

#[test]
fn each_back_edge_closes_its_own_cycle() {
    // a -> b -> c -> a and c -> b: two back edges, two cycles in the order found
    let mut graph = DependencyGraph {
        nodes: vec![node("a"), node("b"), node("c")],
        edges: vec![edge("a", "b"), edge("b", "c"), edge("c", "a"), edge("c", "b")],
    };
    let result = graph.detect_cycles();
    assert_eq!(result.cycles.len(), 2);
    assert_eq!(
        result.cycles[0].nodes,
        vec!["a".to_string(), "b".to_string(), "c".to_string(), "a".to_string()]
    );
    assert_eq!(result.cycles[1].nodes, vec!["b".to_string(), "c".to_string(), "b".to_string()]);
}
