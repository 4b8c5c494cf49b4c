//! Built-in mapping tables between TypeScript/JavaScript and Rust.
use vstd::prelude::*;
use crate::naming::{
    first_pos, last_pos, map_views, marker, prefix_views, template_ok, template_prefix, template_suffix,
    type_map_ok, CaseTransform, NamingRegistry,
};
use crate::text::seq_has;
use crate::compat::{LibraryEntry, LibView};

verus! {

// ---------------------------------------------------------------------------
// Call translations
// ---------------------------------------------------------------------------

pub open spec fn ts_to_rust_calls() -> Seq<(Seq<char>, Seq<char>)> {
    seq![
        ("db.findOne"@, "db.find_one"@),
        ("db.find"@, "db.find"@),
        ("db.save"@, "db.insert"@),
        ("db.delete"@, "db.delete"@),
        ("fetch"@, "reqwest::get"@),
        ("JSON.parse"@, "serde_json::from_str"@),
        ("JSON.stringify"@, "serde_json::to_string"@),
    ]
}

pub open spec fn rust_to_ts_calls() -> Seq<(Seq<char>, Seq<char>)> {
    seq![
        ("db.find_one"@, "db.findOne"@),
        ("db.insert"@, "db.save"@),
        ("reqwest::get"@, "fetch"@),
        ("serde_json::from_str"@, "JSON.parse"@),
        ("serde_json::to_string"@, "JSON.stringify"@),
    ]
}

pub fn ts_to_rust_calls_exec() -> (r: Vec<(String, String)>)
    ensures
        crate::api_map::pair_views(r@) == ts_to_rust_calls(),
{
    let r = vec![
        pair("db.findOne", "db.find_one"),
        pair("db.find", "db.find"),
        pair("db.save", "db.insert"),
        pair("db.delete", "db.delete"),
        pair("fetch", "reqwest::get"),
        pair("JSON.parse", "serde_json::from_str"),
        pair("JSON.stringify", "serde_json::to_string"),
    ];
    proof {
        assert(crate::api_map::pair_views(r@) =~= ts_to_rust_calls());
    }
    r
}

pub fn rust_to_ts_calls_exec() -> (r: Vec<(String, String)>)
    ensures
        crate::api_map::pair_views(r@) == rust_to_ts_calls(),
{
    let r = vec![
        pair("db.find_one", "db.findOne"),
        pair("db.insert", "db.save"),
        pair("reqwest::get", "fetch"),
        pair("serde_json::from_str", "JSON.parse"),
        pair("serde_json::to_string", "JSON.stringify"),
    ];
    proof {
        assert(crate::api_map::pair_views(r@) =~= rust_to_ts_calls());
    }
    r
}

// ---------------------------------------------------------------------------
// Naming conventions
// ---------------------------------------------------------------------------

pub open spec fn ts_to_rust_prefixes() -> Seq<Seq<char>> {
    seq!["I"@]
}

pub open spec fn ts_to_rust_types() -> Seq<(Seq<char>, Seq<char>)> {
    seq![
        ("string"@, "String"@),
        ("number"@, "f64"@),
        ("boolean"@, "bool"@),
        ("void"@, "()"@),
        ("Promise<{T}>"@, "Result<{T}>"@),
        ("Array<{T}>"@, "Vec<{T}>"@),
    ]
}

pub open spec fn rust_to_ts_types() -> Seq<(Seq<char>, Seq<char>)> {
    seq![
        ("String"@, "string"@),
        ("f64"@, "number"@),
        ("bool"@, "boolean"@),
        ("()"@, "void"@),
        ("Result<{T}>"@, "Promise<{T}>"@),
        ("Vec<{T}>"@, "Array<{T}>"@),
    ]
}

fn s(lit: &str) -> (r: String)
    ensures
        r@ == lit@,
{
    String::from_str(lit)
}

fn pair(a: &str, b: &str) -> (r: (String, String))
    ensures
        r.0@ == a@,
        r.1@ == b@,
{
    (s(a), s(b))
}

/// A template `X{T}Y` where `X` holds neither `{` nor the first character of `Y`.
proof fn lemma_wrapped_template_ok(p: Seq<char>, i: int)
    requires
        0 <= i,
        i + 3 <= p.len(),
        p[i] == '{',
        p[i + 1] == 'T',
        p[i + 2] == '}',
        forall|j: int| 0 <= j < i ==> p[j] != '{',
        forall|j: int| i + 2 < j < p.len() ==> p[j] != '}',
        i + (p.len() - i - 3) > 0,
        p.len() == i + 3 || forall|j: int| 0 <= j < i ==> #[trigger] p[j] != p[i + 3],
    ensures
        template_ok(p),
{
    assert(p.subrange(i, i + 3) =~= marker('T'));
    assert(seq_has(p, marker('T')));
    let f = first_pos(p, '{');
    let l = last_pos(p, '}');
    assert(exists|k: int| 0 <= k < p.len() && p[k] == '{' && forall|j: int| 0 <= j < k ==> p[j] != '{');
    assert(exists|k: int| 0 <= k < p.len() && p[k] == '}' && forall|j: int| k < j < p.len() ==> p[j] != '}');
    assert(f == i);
    assert(l == i + 2) by {
        if l < i + 2 {
            assert(p[i + 2] == '}');
        }
    }
    let pre = template_prefix(p);
    let suf = template_suffix(p);
    if suf.len() > 0 {
        assert(suf[0] == p[i + 3]);
        if pre.contains(suf[0]) {
            let j = choose|j: int| 0 <= j < pre.len() && pre[j] == suf[0];
            assert(p[j] == p[i + 3]);
        }
    }
}

/// A plain type name without `{` has no template parameter.
proof fn lemma_plain_template_ok(p: Seq<char>)
    requires
        forall|j: int| 0 <= j < p.len() ==> p[j] != '{',
    ensures
        template_ok(p),
{
    assert forall|c: char| !seq_has(p, marker(c)) by {
        if seq_has(p, marker(c)) {
            let i = choose|i: int| 0 <= i <= p.len() - 3 && #[trigger] p.subrange(i, i + 3) == marker(c);
            assert(p[i] == p.subrange(i, i + 3)[0]);
        }
    }
}

proof fn lemma_plain_ok_0()
    ensures
        template_ok("string"@),
{
    reveal_strlit("string");
    lemma_plain_template_ok("string"@);
}

proof fn lemma_plain_ok_1()
    ensures
        template_ok("number"@),
{
    reveal_strlit("number");
    lemma_plain_template_ok("number"@);
}

proof fn lemma_plain_ok_2()
    ensures
        template_ok("boolean"@),
{
    reveal_strlit("boolean");
    lemma_plain_template_ok("boolean"@);
}

proof fn lemma_plain_ok_3()
    ensures
        template_ok("void"@),
{
    reveal_strlit("void");
    lemma_plain_template_ok("void"@);
}

proof fn lemma_plain_ok_4()
    ensures
        template_ok("String"@),
{
    reveal_strlit("String");
    lemma_plain_template_ok("String"@);
}

proof fn lemma_plain_ok_5()
    ensures
        template_ok("f64"@),
{
    reveal_strlit("f64");
    lemma_plain_template_ok("f64"@);
}

proof fn lemma_plain_ok_6()
    ensures
        template_ok("bool"@),
{
    reveal_strlit("bool");
    lemma_plain_template_ok("bool"@);
}

proof fn lemma_plain_ok_7()
    ensures
        template_ok("()"@),
{
    reveal_strlit("()");
    lemma_plain_template_ok("()"@);
}

proof fn lemma_wrapped_ok_0()
    ensures
        template_ok("Promise<{T}>"@),
{
    reveal_strlit("Promise<{T}>");
    lemma_wrapped_template_ok("Promise<{T}>"@, 8);
}

proof fn lemma_wrapped_ok_1()
    ensures
        template_ok("Array<{T}>"@),
{
    reveal_strlit("Array<{T}>");
    lemma_wrapped_template_ok("Array<{T}>"@, 6);
}

proof fn lemma_wrapped_ok_2()
    ensures
        template_ok("Result<{T}>"@),
{
    reveal_strlit("Result<{T}>");
    lemma_wrapped_template_ok("Result<{T}>"@, 7);
}

proof fn lemma_wrapped_ok_3()
    ensures
        template_ok("Vec<{T}>"@),
{
    reveal_strlit("Vec<{T}>");
    lemma_wrapped_template_ok("Vec<{T}>"@, 4);
}

pub proof fn lemma_ts_to_rust_types_ok()
    ensures
        type_map_ok(ts_to_rust_types()),
{
    lemma_plain_ok_0();
    lemma_plain_ok_1();
    lemma_plain_ok_2();
    lemma_plain_ok_3();
    lemma_wrapped_ok_0();
    lemma_wrapped_ok_1();
    let m = ts_to_rust_types();
    assert forall|k: int| 0 <= k < m.len() implies template_ok(#[trigger] m[k].0) by {
        if k == 0 {} else if k == 1 {} else if k == 2 {} else if k == 3 {} else if k == 4 {} else {}
    }
}

pub proof fn lemma_rust_to_ts_types_ok()
    ensures
        type_map_ok(rust_to_ts_types()),
{
    lemma_plain_ok_4();
    lemma_plain_ok_5();
    lemma_plain_ok_6();
    lemma_plain_ok_7();
    lemma_wrapped_ok_2();
    lemma_wrapped_ok_3();
    let m = rust_to_ts_types();
    assert forall|k: int| 0 <= k < m.len() implies template_ok(#[trigger] m[k].0) by {
        if k == 0 {} else if k == 1 {} else if k == 2 {} else if k == 3 {} else if k == 4 {} else {}
    }
}

/// The TypeScript/JavaScript to Rust naming rules.
pub fn ts_to_rust_naming() -> (r: NamingRegistry)
    ensures
        prefix_views(r) == ts_to_rust_prefixes(),
        r.case == CaseTransform::CamelToSnake,
        map_views(r.type_map@) == ts_to_rust_types(),
        r.wf(),
{
    let prefixes = vec![s("I")];
    let type_map = vec![
        pair("string", "String"),
        pair("number", "f64"),
        pair("boolean", "bool"),
        pair("void", "()"),
        pair("Promise<{T}>", "Result<{T}>"),
        pair("Array<{T}>", "Vec<{T}>"),
    ];
    let r = NamingRegistry { strip_prefixes: prefixes, case: CaseTransform::CamelToSnake, type_map };
    proof {
        assert(prefix_views(r) =~= ts_to_rust_prefixes());
        assert(map_views(r.type_map@) =~= ts_to_rust_types());
        lemma_ts_to_rust_types_ok();
    }
    r
}

/// The Rust to TypeScript/JavaScript naming rules.
pub fn rust_to_ts_naming() -> (r: NamingRegistry)
    ensures
        prefix_views(r) == Seq::<Seq<char>>::empty(),
        r.case == CaseTransform::SnakeToCamel,
        map_views(r.type_map@) == rust_to_ts_types(),
        r.wf(),
{
    let type_map = vec![
        pair("String", "string"),
        pair("f64", "number"),
        pair("bool", "boolean"),
        pair("()", "void"),
        pair("Result<{T}>", "Promise<{T}>"),
        pair("Vec<{T}>", "Array<{T}>"),
    ];
    let r = NamingRegistry { strip_prefixes: Vec::new(), case: CaseTransform::SnakeToCamel, type_map };
    proof {
        assert(prefix_views(r) =~= Seq::<Seq<char>>::empty());
        assert(map_views(r.type_map@) =~= rust_to_ts_types());
        lemma_rust_to_ts_types_ok();
    }
    r
}

// ---------------------------------------------------------------------------
// Library registries
// ---------------------------------------------------------------------------

pub open spec fn lib(lib_type: Seq<char>, description: Seq<char>, tags: Seq<Seq<char>>) -> LibView {
    LibView { lib_type, description, tags }
}

/// The known TypeScript/JavaScript libraries.
pub open spec fn ts_libraries() -> Seq<(Seq<char>, LibView)> {
    seq![
        ("express"@, lib("framework"@, "Minimal web framework for Node.js"@, seq!["http"@, "server"@, "middleware"@, "routing"@])),
        ("axios"@, lib("library"@, "Promise-based HTTP client"@, seq!["http"@, "client"@, "promise"@])),
        ("lodash"@, lib("library"@, "Utility functions for collections and objects"@, seq!["utility"@, "functional"@])),
    ]
}

/// The known Rust crates.
pub open spec fn rust_libraries() -> Seq<(Seq<char>, LibView)> {
    seq![
        ("axum"@, lib("framework"@, "Ergonomic web framework built on tokio and tower"@, seq!["http"@, "server"@, "async"@, "tower"@])),
        ("tokio"@, lib("runtime"@, "Asynchronous runtime for Rust"@, seq!["async"@, "runtime"@, "io"@])),
        ("reqwest"@, lib("library"@, "Ergonomic HTTP client"@, seq!["http"@, "client"@, "async"@])),
    ]
}

/// The registry of a language: none for a language without one.
pub open spec fn registry_spec(language: Seq<char>) -> Seq<(Seq<char>, LibView)> {
    if language == "typescript"@ {
        ts_libraries()
    } else if language == "rust"@ {
        rust_libraries()
    } else {
        Seq::empty()
    }
}

pub open spec fn lib_pairs(v: Seq<(String, LibraryEntry)>) -> Seq<(Seq<char>, LibView)> {
    v.map_values(|p: (String, LibraryEntry)| (p.0@, p.1@))
}

fn library(name: &str, lib_type: &str, description: &str, tags: Vec<String>) -> (r: (String, LibraryEntry))
    ensures
        r.0@ == name@,
        r.1@ == lib(lib_type@, description@, crate::text::views(tags@)),
{
    (s(name), LibraryEntry { lib_type: s(lib_type), description: s(description), tags })
}

fn ts_libraries_exec() -> (r: Vec<(String, LibraryEntry)>)
    ensures
        lib_pairs(r@) == ts_libraries(),
{
    let t0 = vec![s("http"), s("server"), s("middleware"), s("routing")];
    proof {
        assert(crate::text::views(t0@) =~= seq!["http"@, "server"@, "middleware"@, "routing"@]);
    }
    let e0 = library("express", "framework", "Minimal web framework for Node.js", t0);
    let t1 = vec![s("http"), s("client"), s("promise")];
    proof {
        assert(crate::text::views(t1@) =~= seq!["http"@, "client"@, "promise"@]);
    }
    let e1 = library("axios", "library", "Promise-based HTTP client", t1);
    let t2 = vec![s("utility"), s("functional")];
    proof {
        assert(crate::text::views(t2@) =~= seq!["utility"@, "functional"@]);
    }
    let e2 = library("lodash", "library", "Utility functions for collections and objects", t2);
    let r = vec![e0, e1, e2];
    proof {
        assert(lib_pairs(r@) =~= ts_libraries());
    }
    r
}

fn rust_libraries_exec() -> (r: Vec<(String, LibraryEntry)>)
    ensures
        lib_pairs(r@) == rust_libraries(),
{
    let t0 = vec![s("http"), s("server"), s("async"), s("tower")];
    proof {
        assert(crate::text::views(t0@) =~= seq!["http"@, "server"@, "async"@, "tower"@]);
    }
    let e0 = library("axum", "framework", "Ergonomic web framework built on tokio and tower", t0);
    let t1 = vec![s("async"), s("runtime"), s("io")];
    proof {
        assert(crate::text::views(t1@) =~= seq!["async"@, "runtime"@, "io"@]);
    }
    let e1 = library("tokio", "runtime", "Asynchronous runtime for Rust", t1);
    let t2 = vec![s("http"), s("client"), s("async")];
    proof {
        assert(crate::text::views(t2@) =~= seq!["http"@, "client"@, "async"@]);
    }
    let e2 = library("reqwest", "library", "Ergonomic HTTP client", t2);
    let r = vec![e0, e1, e2];
    proof {
        assert(lib_pairs(r@) =~= rust_libraries());
    }
    r
}

/// The registry of libraries known for `language` (`"typescript"` or `"rust"`).
pub fn registry_for(language: &str) -> (r: Vec<(String, LibraryEntry)>)
    ensures
        lib_pairs(r@) == registry_spec(language@),
{
    let l = crate::text::chars_of(language);
    if crate::naming::same_chars(&l, &crate::text::chars_of("typescript")) {
        ts_libraries_exec()
    } else if crate::naming::same_chars(&l, &crate::text::chars_of("rust")) {
        rust_libraries_exec()
    } else {
        let r: Vec<(String, LibraryEntry)> = Vec::new();
        proof {
            assert(lib_pairs(r@) =~= Seq::<(Seq<char>, LibView)>::empty());
        }
        r
    }
}

} // verus!
