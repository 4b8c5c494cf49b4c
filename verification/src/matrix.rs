//! The compatibility matrix: what is known of each dependency's port to the target
//! language, from the built-in library registries and from user overrides.
use vstd::prelude::*;
use crate::compat::{
    default_effort_spec, opt_view, risk_tags_spec, CompatibilityEntry, CompatibilityLevel, EntryView,
    LibView, LibraryEntry, MigrationEffort,
};
use crate::data::{lib_pairs, registry_for, registry_spec, rust_libraries, ts_libraries};
use crate::graph::contains_string;
use crate::text::{chars_of, push_all, string_of, views};
use crate::compat::{dedup_first, DepChangeInfo, DepChangeView};
use crate::text::lex_lt;
use crate::deps::{dep_names, ResolvedDependency};

verus! {

// ---------------------------------------------------------------------------
// Similarity of two libraries
// ---------------------------------------------------------------------------

/// Number of distinct tags of `a` or `b`.
pub open spec fn union_count(a: Seq<Seq<char>>, b: Seq<Seq<char>>) -> nat {
    a.to_set().union(b.to_set()).len()
}

/// Number of distinct tags of both `a` and `b`.
pub open spec fn common_count(a: Seq<Seq<char>>, b: Seq<Seq<char>>) -> nat {
    a.to_set().intersect(b.to_set()).len()
}

/// Similarity of two libraries, `0.8 * jaccard(tags) + 0.2 * [same kind]`, held as the
/// fraction `sim_num / sim_den`; the Jaccard index of two empty tag sets is 0.
pub open spec fn sim_num(s: LibView, t: LibView) -> int {
    let u = union_count(s.tags, t.tags);
    let c = common_count(s.tags, t.tags);
    if u == 0 {
        if s.lib_type == t.lib_type { 1 } else { 0 }
    } else if s.lib_type == t.lib_type {
        (4 * c + u) as int
    } else {
        (4 * c) as int
    }
}

pub open spec fn sim_den(s: LibView, t: LibView) -> int {
    let u = union_count(s.tags, t.tags);
    if u == 0 { 5 } else { (5 * u) as int }
}

/// `n1 / d1 < n2 / d2` for positive denominators.
pub open spec fn frac_lt(n1: int, d1: int, n2: int, d2: int) -> bool {
    n1 * d2 < n2 * d1
}

/// The level a similarity score gives: full from one half, partial from one
/// quarter, incompatible above zero, unknown at zero.
pub open spec fn level_of_score(n: int, d: int) -> crate::compat::CompatibilityLevel {
    if 2 * n >= d {
        crate::compat::CompatibilityLevel::Full
    } else if 4 * n >= d {
        crate::compat::CompatibilityLevel::Partial
    } else if n > 0 {
        crate::compat::CompatibilityLevel::Incompatible
    } else {
        crate::compat::CompatibilityLevel::Unknown
    }
}

/// A registry whose tag lists are small enough to count with machine integers.
pub open spec fn small_registry(reg: Seq<(Seq<char>, LibView)>) -> bool {
    forall|i: int| 0 <= i < reg.len() ==> #[trigger] reg[i].1.tags.len() <= 1000
}

/// Add `x` to the duplicate-free `seen`, unless it is there.
fn add_distinct(seen: &mut Vec<String>, x: &String)
    requires
        views(old(seen)@).no_duplicates(),
    ensures
        views(final(seen)@).no_duplicates(),
        views(final(seen)@).to_set() == views(old(seen)@).to_set().insert(x@),
        final(seen).len() <= old(seen).len() + 1,
{
    let ghost before = views(seen@);
    if !contains_string(seen, x) {
        seen.push(x.clone());
        proof {
            assert(views(seen@) =~= before.push(x@));
            before.lemma_push_to_set_commute(x@);
        }
    } else {
        proof {
            assert(before.to_set().contains(x@));
            assert(before.to_set().insert(x@) =~= before.to_set());
        }
    }
}

pub proof fn lemma_prefix_set_step_pub(a: Seq<Seq<char>>, i: int)
    requires
        0 <= i < a.len(),
    ensures
        a.subrange(0, i + 1).to_set() == a.subrange(0, i).to_set().insert(a[i]),
{
    lemma_prefix_set_step(a, i);
}

proof fn lemma_prefix_set_step(a: Seq<Seq<char>>, i: int)
    requires
        0 <= i < a.len(),
    ensures
        a.subrange(0, i + 1).to_set() == a.subrange(0, i).to_set().insert(a[i]),
{
    assert(a.subrange(0, i + 1) =~= a.subrange(0, i).push(a[i]));
    a.subrange(0, i).lemma_push_to_set_commute(a[i]);
}

/// The numbers of distinct shared tags and of distinct tags in all.
fn tag_counts(a: &Vec<String>, b: &Vec<String>) -> (r: (u64, u64))
    requires
        a.len() <= 1000,
        b.len() <= 1000,
    ensures
        r.0 == common_count(views(a@), views(b@)),
        r.1 == union_count(views(a@), views(b@)),
        r.0 <= r.1 <= 2000,
{
    let ghost va = views(a@);
    let ghost vb = views(b@);
    let mut uni: Vec<String> = Vec::new();
    let mut com: Vec<String> = Vec::new();
    proof {
        assert(views(uni@) =~= Seq::<Seq<char>>::empty());
        assert(va.subrange(0, 0) =~= Seq::<Seq<char>>::empty());
        assert(views(uni@).to_set() =~= Set::<Seq<char>>::empty());
        assert(Seq::<Seq<char>>::empty().to_set() =~= Set::<Seq<char>>::empty());
    }
    let mut i: usize = 0;
    while i < a.len()
        invariant
            i <= a.len() <= 1000,
            va == views(a@),
            vb == views(b@),
            views(uni@).no_duplicates(),
            views(com@).no_duplicates(),
            views(uni@).to_set() == va.subrange(0, i as int).to_set(),
            views(com@).to_set() == va.subrange(0, i as int).to_set().intersect(vb.to_set()),
            uni.len() <= i,
            com.len() <= i,
        decreases a.len() - i,
    {
        proof {
            lemma_prefix_set_step(va, i as int);
            assert(va[i as int] == a@[i as int]@);
        }
        add_distinct(&mut uni, &a[i]);
        if contains_string(b, &a[i]) {
            add_distinct(&mut com, &a[i]);
            proof {
                assert(vb.contains(va[i as int]));
                assert(views(com@).to_set() =~= va.subrange(0, i + 1).to_set().intersect(vb.to_set()));
            }
        } else {
            proof {
                assert(!vb.to_set().contains(va[i as int]));
                assert(views(com@).to_set() =~= va.subrange(0, i + 1).to_set().intersect(vb.to_set()));
            }
        }
        i = i + 1;
    }
    proof {
        assert(va.subrange(0, i as int) =~= va);
        assert(vb.subrange(0, 0) =~= Seq::<Seq<char>>::empty());
        assert(va.to_set().union(Seq::<Seq<char>>::empty().to_set()) =~= va.to_set());
    }
    let mut j: usize = 0;
    while j < b.len()
        invariant
            j <= b.len() <= 1000,
            a.len() <= 1000,
            va == views(a@),
            vb == views(b@),
            views(uni@).no_duplicates(),
            views(uni@).to_set() == va.to_set().union(vb.subrange(0, j as int).to_set()),
            uni.len() <= a.len() + j,
        decreases b.len() - j,
    {
        proof {
            lemma_prefix_set_step(vb, j as int);
            assert(vb[j as int] == b@[j as int]@);
        }
        add_distinct(&mut uni, &b[j]);
        proof {
            assert(views(uni@).to_set() =~= va.to_set().union(vb.subrange(0, j + 1).to_set()));
        }
        j = j + 1;
    }
    proof {
        assert(vb.subrange(0, j as int) =~= vb);
        views(uni@).unique_seq_to_set();
        views(com@).unique_seq_to_set();
        assert(views(com@).to_set().subset_of(views(uni@).to_set()));
        vstd::set_lib::lemma_len_subset(views(com@).to_set(), views(uni@).to_set());
    }
    (com.len() as u64, uni.len() as u64)
}

/// The similarity of two libraries, as numerator and denominator.
fn similarity(s: &LibraryEntry, t: &LibraryEntry) -> (r: (u64, u64))
    requires
        s@.tags.len() <= 1000,
        t@.tags.len() <= 1000,
    ensures
        r.0 == sim_num(s@, t@),
        r.1 == sim_den(s@, t@),
        0 <= r.0 <= r.1 <= 10000,
        r.1 > 0,
{
    let (c, u) = tag_counts(&s.tags, &t.tags);
    let same = crate::naming::same_chars(&crate::text::chars_of(s.lib_type.as_str()), &crate::text::chars_of(t.lib_type.as_str()));
    if u == 0 {
        if same { (1, 5) } else { (0, 5) }
    } else if same {
        (4 * c + u, 5 * u)
    } else {
        (4 * c, 5 * u)
    }
}


proof fn lemma_frac_le_lt(n1: int, d1: int, n2: int, d2: int, n3: int, d3: int)
    requires
        d1 > 0,
        d2 > 0,
        d3 > 0,
        !frac_lt(n2, d2, n1, d1),
        frac_lt(n2, d2, n3, d3),
    ensures
        frac_lt(n1, d1, n3, d3),
{
    assert(n1 * d2 * d3 <= n2 * d1 * d3) by (nonlinear_arith)
        requires
            n1 * d2 <= n2 * d1,
            d3 > 0,
    ;
    assert(n2 * d3 * d1 < n3 * d2 * d1) by (nonlinear_arith)
        requires
            n2 * d3 < n3 * d2,
            d1 > 0,
    ;
    assert(n1 * d3 < n3 * d1) by (nonlinear_arith)
        requires
            n1 * d2 * d3 <= n2 * d1 * d3,
            n2 * d3 * d1 < n3 * d2 * d1,
            d2 > 0,
    ;
}

proof fn lemma_frac_zero_below(n1: int, d1: int, n2: int, d2: int)
    requires
        d1 > 0,
        d2 > 0,
        n1 == 0,
        n2 > 0,
    ensures
        frac_lt(n1, d1, n2, d2),
{
    assert(n2 * d1 > 0) by (nonlinear_arith)
        requires
            n2 > 0,
            d1 > 0,
    ;
}

proof fn lemma_frac_nonneg(n1: int, d1: int, n2: int, d2: int)
    requires
        d1 > 0,
        d2 > 0,
        n1 >= 0,
        n2 == 0,
    ensures
        !frac_lt(n1, d1, n2, d2),
{
    assert(n1 * d2 >= 0) by (nonlinear_arith)
        requires
            n1 >= 0,
            d2 > 0,
    ;
}

pub open spec fn sim_lt(src: LibView, a: LibView, b: LibView) -> bool {
    frac_lt(sim_num(src, a), sim_den(src, a), sim_num(src, b), sim_den(src, b))
}

/// `j` is the best match of `src` in `reg`: the first target of greatest similarity,
/// and that similarity is above zero.
pub open spec fn is_best_match(src: LibView, reg: Seq<(Seq<char>, LibView)>, j: int) -> bool {
    &&& 0 <= j < reg.len()
    &&& sim_num(src, reg[j].1) > 0
    &&& forall|k: int| 0 <= k < reg.len() ==> !sim_lt(src, #[trigger] reg[j].1, reg[k].1)
    &&& forall|k: int| 0 <= k < j ==> sim_lt(src, #[trigger] reg[k].1, reg[j].1)
}

/// Some target shares a tag or the kind with `src`.
pub open spec fn has_match(src: LibView, reg: Seq<(Seq<char>, LibView)>) -> bool {
    exists|k: int| 0 <= k < reg.len() && sim_num(src, #[trigger] reg[k].1) > 0
}

pub open spec fn best_match(src: LibView, reg: Seq<(Seq<char>, LibView)>) -> Option<int> {
    if has_match(src, reg) {
        Some(choose|j: int| is_best_match(src, reg, j))
    } else {
        None
    }
}

proof fn lemma_best_match_unique(src: LibView, reg: Seq<(Seq<char>, LibView)>, j1: int, j2: int)
    requires
        is_best_match(src, reg, j1),
        is_best_match(src, reg, j2),
    ensures
        j1 == j2,
{
    if j1 < j2 {
        assert(sim_lt(src, reg[j1].1, reg[j2].1));
        assert(!sim_lt(src, reg[j1].1, reg[j2].1));
    } else if j2 < j1 {
        assert(sim_lt(src, reg[j2].1, reg[j1].1));
        assert(!sim_lt(src, reg[j2].1, reg[j1].1));
    }
}

pub open spec fn registry_ok(reg: Seq<(String, LibraryEntry)>) -> bool {
    forall|i: int| 0 <= i < reg.len() ==> #[trigger] reg[i].1@.tags.len() <= 1000
}

/// The best match of `src` among the `target` libraries, with its similarity.
fn find_best_match(src: &LibraryEntry, target: &Vec<(String, LibraryEntry)>) -> (r: Option<(usize, u64, u64)>)
    requires
        src@.tags.len() <= 1000,
        registry_ok(target@),
    ensures
        match r {
            Some((j, n, d)) => best_match(src@, crate::data::lib_pairs(target@)) == Some(j as int)
                && j < target.len()
                && n == sim_num(src@, target@[j as int].1@) && d == sim_den(src@, target@[j as int].1@)
                && n <= d <= 10000 && d > 0,
            None => best_match(src@, crate::data::lib_pairs(target@)) is None,
        },
{
    let ghost reg = crate::data::lib_pairs(target@);
    let mut best: Option<(usize, u64, u64)> = None;
    let mut i: usize = 0;
    while i < target.len()
        invariant
            i <= target.len(),
            reg == crate::data::lib_pairs(target@),
            src@.tags.len() <= 1000,
            registry_ok(target@),
            best is None ==> forall|k: int| 0 <= k < i ==> sim_num(src@, #[trigger] reg[k].1) == 0,
            best matches Some((b, bn, bd)) ==> {
                &&& b < i
                &&& bn == sim_num(src@, reg[b as int].1)
                &&& bd == sim_den(src@, reg[b as int].1)
                &&& bn > 0
                &&& bn <= bd <= 10000
                &&& forall|k: int| 0 <= k < i ==> !sim_lt(src@, #[trigger] reg[b as int].1, reg[k].1)
                &&& forall|k: int| 0 <= k < b ==> sim_lt(src@, #[trigger] reg[k].1, reg[b as int].1)
            },
        decreases target.len() - i,
    {
        proof {
            assert(reg[i as int].1 == target@[i as int].1@);
            assert(target@[i as int].1@.tags.len() <= 1000);
        }
        let (n, d) = similarity(src, &target[i].1);
        let ghost ti = reg[i as int].1;
        match best {
            None => {
                if n > 0 {
                    proof {
                        assert forall|k: int| 0 <= k < i implies sim_lt(src@, #[trigger] reg[k].1, ti) by {
                            lemma_frac_zero_below(sim_num(src@, reg[k].1), sim_den(src@, reg[k].1), n as int, d as int);
                        }
                        assert forall|k: int| 0 <= k < i + 1 implies !sim_lt(src@, ti, #[trigger] reg[k].1) by {
                            if k < i {
                                lemma_frac_zero_below(sim_num(src@, reg[k].1), sim_den(src@, reg[k].1), n as int, d as int);
                            }
                        }
                    }
                    best = Some((i, n, d));
                } else {
                    proof {
                        assert(sim_num(src@, reg[i as int].1) == 0);
                        assert forall|k: int| 0 <= k < i + 1 implies sim_num(src@, #[trigger] reg[k].1) == 0 by {
                        }
                    }
                }
            },
            Some((b, bn, bd)) => {
                proof {
                    assert(n * bd <= 10000 * 10000) by (nonlinear_arith)
                        requires
                            n <= 10000,
                            bd <= 10000,
                    ;
                    assert(bn * d <= 10000 * 10000) by (nonlinear_arith)
                        requires
                            bn <= 10000,
                            d <= 10000,
                    ;
                }
                if n * bd > bn * d {
                    proof {
                        assert(n > 0) by (nonlinear_arith)
                            requires
                                n * bd > bn * d,
                                bn >= 0,
                                d >= 0,
                        ;
                        let tb = reg[b as int].1;
                        assert(sim_lt(src@, tb, ti));
                        assert forall|k: int| 0 <= k < i implies sim_lt(src@, #[trigger] reg[k].1, ti) by {
                            lemma_frac_le_lt(
                                sim_num(src@, reg[k].1), sim_den(src@, reg[k].1),
                                bn as int, bd as int,
                                n as int, d as int,
                            );
                        }
                        assert forall|k: int| 0 <= k < i + 1 implies !sim_lt(src@, ti, #[trigger] reg[k].1) by {
                            if k < i {
                                assert(sim_lt(src@, reg[k].1, ti));
                            }
                        }
                    }
                    best = Some((i, n, d));
                } else {
                    proof {
                        assert forall|k: int| 0 <= k < i + 1 implies !sim_lt(src@, reg[b as int].1, #[trigger] reg[k].1) by {
                        }
                    }
                }
            },
        }
        i = i + 1;
    }
    match best {
        Some((b, bn, bd)) => {
            proof {
                assert(is_best_match(src@, reg, b as int));
                assert(has_match(src@, reg));
                let c = choose|j: int| is_best_match(src@, reg, j);
                lemma_best_match_unique(src@, reg, c, b as int);
                assert(reg[b as int].1 == target@[b as int].1@);
            }
        },
        None => {
            proof {
                if has_match(src@, reg) {
                    let k = choose|k: int| 0 <= k < reg.len() && sim_num(src@, #[trigger] reg[k].1) > 0;
                    assert(sim_num(src@, reg[k].1) == 0);
                }
            }
        },
    }
    best
}

// ---------------------------------------------------------------------------
// Decimal numbers
// ---------------------------------------------------------------------------

pub open spec fn digit_char(d: nat) -> char {
    ((d + 48) as u8) as char
}

/// The decimal digits of `n`.
pub open spec fn decimal(n: nat) -> Seq<char>
    decreases n,
{
    if n < 10 {
        seq![digit_char(n)]
    } else {
        decimal(n / 10).push(digit_char(n % 10))
    }
}

pub fn decimal_chars(n: u64) -> (r: Vec<char>)
    ensures
        r@ == decimal(n as nat),
    decreases n,
{
    if n < 10 {
        let c = ((n as u8) + 48) as char;
        vec![c]
    } else {
        let mut r = decimal_chars(n / 10);
        let c = (((n % 10) as u8) + 48) as char;
        r.push(c);
        r
    }
}


// ---------------------------------------------------------------------------
// Built-in entries
// ---------------------------------------------------------------------------

/// Guidance of an entry matched in the target registry.
pub open spec fn matched_guidance(target: Seq<char>, percent: nat, description: Seq<char>) -> Seq<char> {
    "Best match: `"@ + target + "` (similarity "@ + decimal(percent) + "%). "@ + description
}

/// Note of an entry with no match in the target registry.
pub open spec fn unmatched_note(name: Seq<char>, target_language: Seq<char>) -> Seq<char> {
    "`"@ + name + "` has no recognizable equivalent in "@ + target_language + "."@
}

/// The built-in entry of the library `name` of the source registry.
pub open spec fn builtin_entry(
    source_language: Seq<char>,
    target_language: Seq<char>,
    name: Seq<char>,
    lib: LibView,
    target: Seq<(Seq<char>, LibView)>,
) -> EntryView {
    match best_match(lib, target) {
        Some(j) => {
            let n = sim_num(lib, target[j].1);
            let d = sim_den(lib, target[j].1);
            let level = level_of_score(n, d);
            let effort = default_effort_spec(level);
            let guidance = matched_guidance(target[j].0, (100 * n / d) as nat, target[j].1.description);
            EntryView {
                source_language,
                target_language,
                equivalent: Some(target[j].0),
                compatibility: level,
                effort,
                guidance: Some(guidance),
                note: None,
                tags: Some(lib.tags),
                risk_tags: risk_tags_spec(effort, level, Some(lib.tags), Some(guidance)),
            }
        },
        None => EntryView {
            source_language,
            target_language,
            equivalent: None,
            compatibility: CompatibilityLevel::Unknown,
            effort: MigrationEffort::Unknown,
            guidance: Some("No matching library found in target language."@),
            note: Some(unmatched_note(name, target_language)),
            tags: Some(lib.tags),
            risk_tags: seq!["unmapped"@],
        },
    }
}

/// The built-in entries of a migration: one per library of the source registry.
pub open spec fn builtin_entries(source_language: Seq<char>, target_language: Seq<char>) -> Seq<(Seq<char>, EntryView)> {
    registry_spec(source_language).map_values(
        |p: (Seq<char>, LibView)|
            (p.0, builtin_entry(source_language, target_language, p.0, p.1, registry_spec(target_language))),
    )
}

pub open spec fn entry_pairs(v: Seq<(String, CompatibilityEntry)>) -> Seq<(Seq<char>, EntryView)> {
    v.map_values(|p: (String, CompatibilityEntry)| (p.0@, p.1@))
}

/// The libraries of a registry have distinct names.
proof fn lemma_registry_keys(source_language: Seq<char>, target_language: Seq<char>)
    ensures
        keys_unique(builtin_entries(source_language, target_language)),
{
    reveal_strlit("express");
    reveal_strlit("axios");
    reveal_strlit("lodash");
    reveal_strlit("axum");
    reveal_strlit("tokio");
    reveal_strlit("reqwest");
    assert("express"@[0] == 'e' && "axios"@[0] == 'a' && "lodash"@[0] == 'l');
    assert("axum"@[0] == 'a' && "tokio"@[0] == 't' && "reqwest"@[0] == 'r');
    let b = builtin_entries(source_language, target_language);
    let reg = registry_spec(source_language);
    assert forall|i: int, j: int| 0 <= i < j < b.len() implies b[i].0 != b[j].0 by {
        assert(b[i].0 == reg[i].0 && b[j].0 == reg[j].0);
    }
}

proof fn lemma_registry_small(language: Seq<char>)
    ensures
        small_registry(registry_spec(language)),
{
    assert(small_registry(ts_libraries()));
    assert(small_registry(rust_libraries()));
}

fn level_exec(n: u64, d: u64) -> (r: CompatibilityLevel)
    requires
        n <= 10000,
        d <= 10000,
    ensures
        r == level_of_score(n as int, d as int),
{
    if 2 * n >= d {
        CompatibilityLevel::Full
    } else if 4 * n >= d {
        CompatibilityLevel::Partial
    } else if n > 0 {
        CompatibilityLevel::Incompatible
    } else {
        CompatibilityLevel::Unknown
    }
}

fn lit(s: &str) -> (r: String)
    ensures
        r@ == s@,
{
    String::from_str(s)
}

fn matched_guidance_exec(target: &String, percent: u64, description: &String) -> (r: String)
    ensures
        r@ == matched_guidance(target@, percent as nat, description@),
{
    let mut g: Vec<char> = chars_of("Best match: `");
    push_all(&mut g, &chars_of(target.as_str()));
    push_all(&mut g, &chars_of("` (similarity "));
    push_all(&mut g, &decimal_chars(percent));
    push_all(&mut g, &chars_of("%). "));
    push_all(&mut g, &chars_of(description.as_str()));
    string_of(&g)
}

fn unmatched_note_exec(name: &String, target_language: &String) -> (r: String)
    ensures
        r@ == unmatched_note(name@, target_language@),
{
    let mut g: Vec<char> = chars_of("`");
    push_all(&mut g, &chars_of(name.as_str()));
    push_all(&mut g, &chars_of("` has no recognizable equivalent in "));
    push_all(&mut g, &chars_of(target_language.as_str()));
    push_all(&mut g, &chars_of("."));
    string_of(&g)
}

fn builtin_entry_exec(
    source_language: &String,
    target_language: &String,
    name: &String,
    lib: &LibraryEntry,
    target: &Vec<(String, LibraryEntry)>,
) -> (e: CompatibilityEntry)
    requires
        lib@.tags.len() <= 1000,
        registry_ok(target@),
    ensures
        e@ == builtin_entry(source_language@, target_language@, name@, lib@, lib_pairs(target@)),
{
    match find_best_match(lib, target) {
        Some((j, n, d)) => {
            let level = level_exec(n, d);
            let effort = level.default_effort();
            let guidance = matched_guidance_exec(&target[j].0, (100 * n) / d, &target[j].1.description);
            let risk_tags = crate::compat::derive_risk_tags(effort, level, Some(lib.tags.as_slice()), Some(guidance.as_str()));
            proof {
                assert(lib_pairs(target@)[j as int] == (target@[j as int].0@, target@[j as int].1@));
            }
            CompatibilityEntry {
                source_language: source_language.clone(),
                target_language: target_language.clone(),
                equivalent: Some(target[j].0.clone()),
                compatibility: level,
                effort,
                guidance: Some(guidance),
                note: None,
                tags: Some(crate::compat::copy_strings(&lib.tags)),
                risk_tags,
            }
        },
        None => {
            let mut risk_tags: Vec<String> = Vec::new();
            risk_tags.push(lit("unmapped"));
            proof {
                assert(views(risk_tags@) =~= seq!["unmapped"@]);
            }
            CompatibilityEntry {
                source_language: source_language.clone(),
                target_language: target_language.clone(),
                equivalent: None,
                compatibility: CompatibilityLevel::Unknown,
                effort: MigrationEffort::Unknown,
                guidance: Some(lit("No matching library found in target language.")),
                note: Some(unmatched_note_exec(name, target_language)),
                tags: Some(crate::compat::copy_strings(&lib.tags)),
                risk_tags,
            }
        },
    }
}

// ---------------------------------------------------------------------------
// The matrix
// ---------------------------------------------------------------------------

/// What is known of the port of each dependency from one language to another:
/// built-in entries from the library registries, and user overrides, which win.
pub struct CompatibilityMatrix {
    source_language: String,
    target_language: String,
    built_in: Vec<(String, CompatibilityEntry)>,
    overrides: Vec<(String, CompatibilityEntry)>,
}

impl CompatibilityMatrix {
    pub closed spec fn src_lang(&self) -> Seq<char> {
        self.source_language@
    }

    pub closed spec fn tgt_lang(&self) -> Seq<char> {
        self.target_language@
    }

    /// The built-in entries, keyed by package name.
    pub closed spec fn builtin(&self) -> Seq<(Seq<char>, EntryView)> {
        entry_pairs(self.built_in@)
    }

    /// The user overrides, keyed by package name.
    pub closed spec fn overridden(&self) -> Seq<(Seq<char>, EntryView)> {
        entry_pairs(self.overrides@)
    }

    /// Built-in entries and overrides are each keyed by distinct package names.
    pub open spec fn wf(&self) -> bool {
        keys_unique(self.builtin()) && keys_unique(self.overridden())
    }

    /// The matrix of a migration, with the built-in entries of every library of the
    /// source language's registry and no overrides.
    pub fn new(source_language: String, target_language: String) -> (m: Self)
        ensures
            m.src_lang() == source_language@,
            m.tgt_lang() == target_language@,
            m.builtin() == builtin_entries(source_language@, target_language@),
            m.overridden().len() == 0,
            m.wf(),
    {
        let source = registry_for(source_language.as_str());
        let target = registry_for(target_language.as_str());
        proof {
            lemma_registry_small(source_language@);
            lemma_registry_small(target_language@);
            assert forall|i: int| 0 <= i < target@.len() implies #[trigger] target@[i].1@.tags.len() <= 1000 by {
                assert(lib_pairs(target@)[i].1 == target@[i].1@);
            }
        }
        let ghost reg = registry_spec(source_language@);
        let ghost treg = registry_spec(target_language@);
        let mut built_in: Vec<(String, CompatibilityEntry)> = Vec::new();
        let mut i: usize = 0;
        while i < source.len()
            invariant
                i <= source.len(),
                lib_pairs(source@) == reg,
                lib_pairs(target@) == treg,
                reg == registry_spec(source_language@),
                treg == registry_spec(target_language@),
                small_registry(reg),
                registry_ok(target@),
                entry_pairs(built_in@) == builtin_entries(source_language@, target_language@).subrange(0, i as int),
            decreases source.len() - i,
        {
            proof {
                assert(reg[i as int] == (source@[i as int].0@, source@[i as int].1@));
                assert(reg[i as int].1.tags.len() <= 1000);
            }
            let e = builtin_entry_exec(&source_language, &target_language, &source[i].0, &source[i].1, &target);
            let ghost before = entry_pairs(built_in@);
            let key = source[i].0.clone();
            proof {
                let all = builtin_entries(source_language@, target_language@);
                assert(all[i as int] == (key@, e@));
                assert(entry_pairs(built_in@.push((key, e))) =~= before.push((key@, e@)));
            }
            built_in.push((key, e));
            i = i + 1;
            proof {
                assert(entry_pairs(built_in@) =~= builtin_entries(source_language@, target_language@).subrange(0, i as int));
            }
        }
        proof {
            assert(builtin_entries(source_language@, target_language@).subrange(0, i as int) =~= builtin_entries(source_language@, target_language@));
        }
        let overrides: Vec<(String, CompatibilityEntry)> = Vec::new();
        proof {
            assert(entry_pairs(overrides@).len() == 0);
            lemma_registry_keys(source_language@, target_language@);
        }
        CompatibilityMatrix { source_language, target_language, built_in, overrides }
    }

    /// The language migrated from.
    pub fn source_language(&self) -> (r: &str)
        ensures
            r@ == self.src_lang(),
    {
        self.source_language.as_str()
    }

    /// The language migrated to.
    pub fn target_language(&self) -> (r: &str)
        ensures
            r@ == self.tgt_lang(),
    {
        self.target_language.as_str()
    }
}


// ---------------------------------------------------------------------------
// Lookups
// ---------------------------------------------------------------------------

/// The value of the first pair whose key is `k`.
pub open spec fn assoc_get<V>(p: Seq<(Seq<char>, V)>, k: Seq<char>) -> Option<V>
    decreases p.len(),
{
    if p.len() == 0 {
        None
    } else if p[0].0 == k {
        Some(p[0].1)
    } else {
        assoc_get(p.drop_first(), k)
    }
}

proof fn lemma_assoc_step<V>(p: Seq<(Seq<char>, V)>, i: int, k: Seq<char>)
    requires
        0 <= i < p.len(),
    ensures
        assoc_get(p.subrange(i, p.len() as int), k) == if p[i].0 == k {
            Some(p[i].1)
        } else {
            assoc_get(p.subrange(i + 1, p.len() as int), k)
        },
{
    let s = p.subrange(i, p.len() as int);
    assert(s[0] == p[i]);
    assert(s.drop_first() =~= p.subrange(i + 1, p.len() as int));
}

/// Index of the first pair keyed `k`.
fn find_entry(p: &Vec<(String, CompatibilityEntry)>, k: &str) -> (r: Option<usize>)
    ensures
        match r {
            Some(i) => i < p.len() && assoc_get(entry_pairs(p@), k@) == Some(p@[i as int].1@)
                && p@[i as int].0@ == k@,
            None => assoc_get(entry_pairs(p@), k@) is None,
        },
{
    let ghost e = entry_pairs(p@);
    let kc = chars_of(k);
    let mut i: usize = 0;
    proof {
        assert(e.subrange(0, e.len() as int) =~= e);
    }
    while i < p.len()
        invariant
            i <= p.len(),
            e == entry_pairs(p@),
            kc@ == k@,
            assoc_get(e, k@) == assoc_get(e.subrange(i as int, e.len() as int), k@),
        decreases p.len() - i,
    {
        proof {
            lemma_assoc_step(e, i as int, k@);
            assert(e[i as int] == (p@[i as int].0@, p@[i as int].1@));
        }
        if crate::naming::same_chars(&chars_of(p[i].0.as_str()), &kc) {
            return Some(i);
        }
        i = i + 1;
    }
    proof {
        assert(e.subrange(i as int, e.len() as int).len() == 0);
    }
    None
}

/// The entry of a package nobody mapped.
pub open spec fn unmapped_entry(source_language: Seq<char>, target_language: Seq<char>) -> EntryView {
    EntryView {
        source_language,
        target_language,
        equivalent: None,
        compatibility: CompatibilityLevel::Unknown,
        effort: MigrationEffort::Unknown,
        guidance: None,
        note: Some("No compatibility mapping available."@),
        tags: None,
        risk_tags: seq!["unmapped"@],
    }
}

impl CompatibilityMatrix {
    /// The entry of `package`: its override, else its built-in entry.
    pub open spec fn entry_for(&self, package: Seq<char>) -> Option<EntryView> {
        match assoc_get(self.overridden(), package) {
            Some(e) => Some(e),
            None => assoc_get(self.builtin(), package),
        }
    }

    /// What evaluating `package` gives: its entry, or the unmapped entry.
    pub open spec fn evaluated(&self, package: Seq<char>) -> EntryView {
        match self.entry_for(package) {
            Some(e) => e,
            None => unmapped_entry(self.src_lang(), self.tgt_lang()),
        }
    }

    /// The entry of `package`: its override, else its built-in entry.
    pub fn lookup(&self, package: &str) -> (r: Option<&CompatibilityEntry>)
        ensures
            match r {
                Some(e) => self.entry_for(package@) == Some(e@),
                None => self.entry_for(package@) is None,
            },
    {
        match find_entry(&self.overrides, package) {
            Some(i) => Some(&self.overrides[i].1),
            None => match find_entry(&self.built_in, package) {
                Some(i) => Some(&self.built_in[i].1),
                None => None,
            },
        }
    }

    /// Whether the registries give `package` a built-in entry.
    pub fn has_builtin(&self, package: &str) -> (r: bool)
        ensures
            r == (assoc_get(self.builtin(), package@) is Some),
    {
        find_entry(&self.built_in, package).is_some()
    }

    fn unmapped(&self) -> (e: CompatibilityEntry)
        ensures
            e@ == unmapped_entry(self.src_lang(), self.tgt_lang()),
    {
        let mut risk_tags: Vec<String> = Vec::new();
        risk_tags.push(lit("unmapped"));
        proof {
            assert(views(risk_tags@) =~= seq!["unmapped"@]);
        }
        CompatibilityEntry {
            source_language: self.source_language.clone(),
            target_language: self.target_language.clone(),
            equivalent: None,
            compatibility: CompatibilityLevel::Unknown,
            effort: MigrationEffort::Unknown,
            guidance: None,
            note: Some(lit("No compatibility mapping available.")),
            tags: None,
            risk_tags,
        }
    }

    pub(crate) fn evaluate_one(&self, package: &str) -> (e: CompatibilityEntry)
        ensures
            e@ == self.evaluated(package@),
    {
        match self.lookup(package) {
            Some(e) => e.copy(),
            None => self.unmapped(),
        }
    }

    /// The entry of each dependency, keyed by name: each name once, in order of first
    /// appearance.
    pub fn evaluate(&self, dependencies: &[ResolvedDependency]) -> (r: Vec<(String, CompatibilityEntry)>)
        ensures
            entry_pairs(r@) == dedup_first(dep_names(dependencies@)).map_values(
                |n: Seq<char>| (n, self.evaluated(n)),
            ),
    {
        let ghost names = dep_names(dependencies@);
        let mut seen: Vec<String> = Vec::new();
        let mut r: Vec<(String, CompatibilityEntry)> = Vec::new();
        proof {
            assert(names.subrange(0, 0) =~= Seq::<Seq<char>>::empty());
            assert(views(seen@) =~= dedup_first(names.subrange(0, 0)));
            assert(entry_pairs(r@) =~= views(seen@).map_values(|n: Seq<char>| (n, self.evaluated(n))));
        }
        let mut k: usize = 0;
        while k < dependencies.len()
            invariant
                k <= dependencies.len(),
                names == dep_names(dependencies@),
                views(seen@) == dedup_first(names.subrange(0, k as int)),
                entry_pairs(r@) == views(seen@).map_values(|n: Seq<char>| (n, self.evaluated(n))),
            decreases dependencies.len() - k,
        {
            let name = &dependencies[k].name;
            proof {
                assert(names.subrange(0, k + 1).drop_last() =~= names.subrange(0, k as int));
                assert(names[k as int] == name@);
            }
            if !contains_string(&seen, name) {
                let e = self.evaluate_one(name.as_str());
                let ghost before = views(seen@);
                let ghost before_r = entry_pairs(r@);
                let n1 = name.clone();
                let n2 = name.clone();
                proof {
                    assert(n2@ == name@);
                    assert(entry_pairs(r@.push((n2, e))) =~= before_r.push((n2@, e@)));
                }
                seen.push(n1);
                r.push((n2, e));
                proof {
                    assert(views(seen@) =~= before.push(name@));
                    assert(entry_pairs(r@) =~= views(seen@).map_values(|n: Seq<char>| (n, self.evaluated(n))));
                }
            }
            k = k + 1;
        }
        proof {
            assert(names.subrange(0, k as int) =~= names);
        }
        r
    }
}


// ---------------------------------------------------------------------------
// Dependency changes
// ---------------------------------------------------------------------------

/// Version of the last dependency named `n`.
pub open spec fn last_version(deps: Seq<ResolvedDependency>, n: Seq<char>) -> Option<Seq<char>>
    decreases deps.len(),
{
    if deps.len() == 0 {
        None
    } else if deps.last().name@ == n {
        Some(deps.last().version@)
    } else {
        last_version(deps.drop_last(), n)
    }
}

/// How a dependency changed, from its old and new versions: added, removed,
/// upgraded or downgraded (versions compared as text), or not at all.
pub open spec fn change_kind(ov: Option<Seq<char>>, nv: Option<Seq<char>>) -> Option<Seq<char>> {
    match (ov, nv) {
        (None, Some(_)) => Some("added"@),
        (Some(_), None) => Some("removed"@),
        (Some(o), Some(n)) => if o != n {
            if lex_lt(o, n) {
                Some("upgraded"@)
            } else {
                Some("downgraded"@)
            }
        } else {
            None
        },
        (None, None) => None,
    }
}

/// An added package needs review unless it is known to port; a removed one when it
/// ported well; a changed one unless it is known to port fully or not at all.
pub open spec fn review_needed(was: bool, now: bool, old_entry: Option<EntryView>, new_entry: Option<EntryView>) -> bool {
    if !was {
        match new_entry {
            Some(e) => e.compatibility == CompatibilityLevel::Unknown || e.compatibility == CompatibilityLevel::Incompatible,
            None => true,
        }
    } else if !now {
        match old_entry {
            Some(e) => e.compatibility == CompatibilityLevel::Full || e.compatibility == CompatibilityLevel::Partial,
            None => false,
        }
    } else {
        match new_entry {
            Some(e) => e.compatibility == CompatibilityLevel::Partial || e.compatibility == CompatibilityLevel::Unknown,
            None => true,
        }
    }
}

pub open spec fn change_names(v: Seq<DepChangeInfo>) -> Seq<Seq<char>> {
    v.map_values(|c: DepChangeInfo| c.package@)
}

impl CompatibilityMatrix {
    /// The change of package `n` between the dependency lists `old` and `new`.
    pub open spec fn change_view(&self, n: Seq<char>, old: Seq<ResolvedDependency>, new: Seq<ResolvedDependency>) -> DepChangeView {
        let ov = last_version(old, n);
        let nv = last_version(new, n);
        let oe = if ov is Some { self.entry_for(n) } else { None };
        let ne = if nv is Some { self.entry_for(n) } else { None };
        let e = match ne {
            Some(x) => Some(x),
            None => oe,
        };
        DepChangeView {
            package: n,
            old_version: ov,
            new_version: nv,
            change_type: change_kind(ov, nv).unwrap(),
            compatibility_before: match oe {
                Some(x) => Some(x.compatibility),
                None => None,
            },
            compatibility_now: match ne {
                Some(x) => Some(x.compatibility),
                None => None,
            },
            equivalent: match ne {
                Some(x) => x.equivalent,
                None => None,
            },
            needs_review: review_needed(ov is Some, nv is Some, oe, ne),
            effort: match e {
                Some(x) => x.effort,
                None => MigrationEffort::Unknown,
            },
            guidance: match e {
                Some(x) => x.guidance,
                None => None,
            },
            risk_tags: match e {
                Some(x) => x.risk_tags,
                None => Seq::empty(),
            },
        }
    }
}

/// The packages of `old` or `new` that changed between them.
pub open spec fn changed_names(old: Seq<ResolvedDependency>, new: Seq<ResolvedDependency>) -> Set<Seq<char>> {
    Set::new(
        |n: Seq<char>|
            (dep_names(old).contains(n) || dep_names(new).contains(n))
                && change_kind(last_version(old, n), last_version(new, n)) is Some,
    )
}

fn last_version_exec(deps: &[ResolvedDependency], name: &str) -> (r: Option<String>)
    ensures
        opt_view(r) == last_version(deps@, name@),
{
    let n = chars_of(name);
    let mut i: usize = deps.len();
    proof {
        assert(deps@.subrange(0, i as int) =~= deps@);
    }
    while i > 0
        invariant
            i <= deps.len(),
            n@ == name@,
            last_version(deps@, name@) == last_version(deps@.subrange(0, i as int), name@),
        decreases i,
    {
        proof {
            let p = deps@.subrange(0, i as int);
            assert(p.last() == deps@[i - 1]);
            assert(p.drop_last() =~= deps@.subrange(0, i - 1));
        }
        if crate::naming::same_chars(&chars_of(deps[i - 1].name.as_str()), &n) {
            return Some(deps[i - 1].version.clone());
        }
        i = i - 1;
    }
    None
}

fn change_kind_exec(ov: &Option<String>, nv: &Option<String>) -> (r: Option<String>)
    ensures
        opt_view(r) == change_kind(opt_view(*ov), opt_view(*nv)),
{
    match (ov, nv) {
        (None, Some(_)) => Some(lit("added")),
        (Some(_), None) => Some(lit("removed")),
        (Some(o), Some(n)) => {
            if !crate::naming::same_chars(&chars_of(o.as_str()), &chars_of(n.as_str())) {
                if crate::text::str_lt(o.as_str(), n.as_str()) {
                    Some(lit("upgraded"))
                } else {
                    Some(lit("downgraded"))
                }
            } else {
                None
            }
        },
        (None, None) => None,
    }
}

/// The names of the dependencies of `old` and `new`, sorted, each once.
fn sorted_names(old: &[ResolvedDependency], new: &[ResolvedDependency]) -> (r: Vec<String>)
    ensures
        crate::text::strictly_sorted(views(r@)),
        views(r@).to_set() == dep_names(old@).to_set().union(dep_names(new@).to_set()),
{
    let ghost on = dep_names(old@);
    let ghost nn = dep_names(new@);
    let mut r: Vec<String> = Vec::new();
    proof {
        assert(views(r@) =~= Seq::<Seq<char>>::empty());
        assert(on.subrange(0, 0) =~= Seq::<Seq<char>>::empty());
        assert(views(r@).to_set() =~= Set::<Seq<char>>::empty());
        assert(Seq::<Seq<char>>::empty().to_set() =~= Set::<Seq<char>>::empty());
    }
    let mut i: usize = 0;
    while i < old.len()
        invariant
            i <= old.len(),
            on == dep_names(old@),
            crate::text::strictly_sorted(views(r@)),
            views(r@).to_set() == on.subrange(0, i as int).to_set(),
        decreases old.len() - i,
    {
        proof {
            lemma_prefix_set_step(on, i as int);
        }
        crate::text::insert_sorted_unique(&mut r, old[i].name.clone());
        i = i + 1;
    }
    proof {
        assert(on.subrange(0, i as int) =~= on);
        assert(nn.subrange(0, 0) =~= Seq::<Seq<char>>::empty());
        assert(on.to_set().union(Seq::<Seq<char>>::empty().to_set()) =~= on.to_set());
    }
    let mut j: usize = 0;
    while j < new.len()
        invariant
            j <= new.len(),
            on == dep_names(old@),
            nn == dep_names(new@),
            crate::text::strictly_sorted(views(r@)),
            views(r@).to_set() == on.to_set().union(nn.subrange(0, j as int).to_set()),
        decreases new.len() - j,
    {
        proof {
            lemma_prefix_set_step(nn, j as int);
        }
        crate::text::insert_sorted_unique(&mut r, new[j].name.clone());
        proof {
            assert(views(r@).to_set() =~= on.to_set().union(nn.subrange(0, j + 1).to_set()));
        }
        j = j + 1;
    }
    proof {
        assert(nn.subrange(0, j as int) =~= nn);
    }
    r
}

fn opt_level(e: Option<&CompatibilityEntry>) -> (r: Option<CompatibilityLevel>)
    ensures
        r == match e {
            Some(x) => Some(x@.compatibility),
            None => None,
        },
{
    match e {
        Some(x) => Some(x.compatibility),
        None => None,
    }
}

impl CompatibilityMatrix {
    fn change_info(&self, name: &String, old: &[ResolvedDependency], new: &[ResolvedDependency]) -> (r: Option<DepChangeInfo>)
        ensures
            match r {
                Some(c) => change_kind(last_version(old@, name@), last_version(new@, name@)) is Some
                    && c@ == self.change_view(name@, old@, new@),
                None => change_kind(last_version(old@, name@), last_version(new@, name@)) is None,
            },
    {
        let ov = last_version_exec(old, name.as_str());
        let nv = last_version_exec(new, name.as_str());
        let kind = match change_kind_exec(&ov, &nv) {
            Some(k) => k,
            None => return None,
        };
        let was = ov.is_some();
        let now = nv.is_some();
        let found = self.lookup(name.as_str());
        let oe = if was { found } else { None };
        let ne = if now { found } else { None };
        let e = match ne {
            Some(x) => Some(x),
            None => oe,
        };
        let needs_review = if !was {
            match ne {
                Some(x) => x.compatibility == CompatibilityLevel::Unknown || x.compatibility == CompatibilityLevel::Incompatible,
                None => true,
            }
        } else if !now {
            match oe {
                Some(x) => x.compatibility == CompatibilityLevel::Full || x.compatibility == CompatibilityLevel::Partial,
                None => false,
            }
        } else {
            match ne {
                Some(x) => x.compatibility == CompatibilityLevel::Partial || x.compatibility == CompatibilityLevel::Unknown,
                None => true,
            }
        };
        let equivalent = match ne {
            Some(x) => crate::compat::copy_opt_string(&x.equivalent),
            None => None,
        };
        let effort = match e {
            Some(x) => x.effort,
            None => MigrationEffort::Unknown,
        };
        let guidance = match e {
            Some(x) => crate::compat::copy_opt_string(&x.guidance),
            None => None,
        };
        let risk_tags = match e {
            Some(x) => crate::compat::copy_strings(&x.risk_tags),
            None => {
                let v: Vec<String> = Vec::new();
                proof {
                    assert(views(v@) =~= Seq::<Seq<char>>::empty());
                }
                v
            },
        };
        let c = DepChangeInfo {
            package: name.clone(),
            old_version: ov,
            new_version: nv,
            change_type: kind,
            compatibility_before: opt_level(oe),
            compatibility_now: opt_level(ne),
            equivalent,
            needs_review,
            effort,
            guidance,
            risk_tags,
        };
        proof {
            assert(c@ =~~= self.change_view(name@, old@, new@));
        }
        Some(c)
    }

    /// The dependencies that were added, removed, upgraded or downgraded between
    /// `old_deps` and `new_deps` (the last entry of a name counts), sorted by name,
    /// with what the matrix knows of each.
    pub fn detect_dep_changes(&self, old_deps: &[ResolvedDependency], new_deps: &[ResolvedDependency]) -> (r: Vec<DepChangeInfo>)
        ensures
            crate::text::strictly_sorted(change_names(r@)),
            change_names(r@).to_set() == changed_names(old_deps@, new_deps@),
            forall|j: int| 0 <= j < r.len() ==> #[trigger] r@[j]@ == self.change_view(r@[j].package@, old_deps@, new_deps@),
    {
        let names = sorted_names(old_deps, new_deps);
        let ghost ns = views(names@);
        let mut out: Vec<DepChangeInfo> = Vec::new();
        let mut k: usize = 0;
        proof {
            assert(change_names(out@) =~= Seq::<Seq<char>>::empty());
            assert(change_names(out@).to_set() =~= Set::<Seq<char>>::empty());
            assert(Seq::<Seq<char>>::empty().to_set() =~= Set::<Seq<char>>::empty());
        }
        while k < names.len()
            invariant
                k <= names.len(),
                ns == views(names@),
                crate::text::strictly_sorted(ns),
                ns.to_set() == dep_names(old_deps@).to_set().union(dep_names(new_deps@).to_set()),
                crate::text::strictly_sorted(change_names(out@)),
                change_names(out@).to_set() == changed_among(ns.subrange(0, k as int), old_deps@, new_deps@),
                forall|j: int| 0 <= j < out.len() ==> ns.subrange(0, k as int).contains(#[trigger] change_names(out@)[j]),
                forall|j: int| 0 <= j < out.len() ==> #[trigger] out@[j]@ == self.change_view(out@[j].package@, old_deps@, new_deps@),
            decreases names.len() - k,
        {
            let ghost nk = ns[k as int];
            let ghost p0 = ns.subrange(0, k as int);
            let ghost p1 = ns.subrange(0, k + 1);
            proof {
                assert(names@[k as int]@ == nk);
                lemma_prefix_grows(ns, k as int);
                lemma_changed_among_step(ns, k as int, old_deps@, new_deps@);
            }
            match self.change_info(&names[k], old_deps, new_deps) {
                Some(c) => {
                    let ghost before = change_names(out@);
                    out.push(c);
                    proof {
                        assert(change_names(out@) =~= before.push(nk));
                        assert forall|a: int, b: int| 0 <= a < b < change_names(out@).len()
                            implies lex_lt(change_names(out@)[a], change_names(out@)[b]) by {
                            if b == before.len() {
                                lemma_prefix_below(ns, k as int, before[a]);
                            } else {
                                assert(change_names(out@)[a] == before[a]);
                                assert(change_names(out@)[b] == before[b]);
                            }
                        }
                        assert forall|j: int| 0 <= j < out.len() implies p1.contains(#[trigger] change_names(out@)[j]) by {
                            if j < before.len() {
                                assert(change_names(out@)[j] == before[j]);
                                assert(p0.contains(before[j]));
                            }
                        }
                        assert forall|j: int| 0 <= j < out.len() implies #[trigger] out@[j]@ == self.change_view(out@[j].package@, old_deps@, new_deps@) by {
                        }
                        before.lemma_push_to_set_commute(nk);
                        assert(change_names(out@).to_set() =~= changed_among(p1, old_deps@, new_deps@));
                    }
                },
                None => {
                    proof {
                        assert(change_names(out@).to_set() =~= changed_among(p1, old_deps@, new_deps@));
                        assert forall|j: int| 0 <= j < out.len() implies p1.contains(#[trigger] change_names(out@)[j]) by {
                            assert(p0.contains(change_names(out@)[j]));
                        }
                    }
                },
            }
            k = k + 1;
        }
        proof {
            assert(ns.subrange(0, k as int) =~= ns);
            assert forall|n: Seq<char>| ns.contains(n) <==> (dep_names(old_deps@).contains(n) || dep_names(new_deps@).contains(n)) by {
                assert(ns.to_set().contains(n) == ns.contains(n));
            }
            assert(change_names(out@).to_set() =~= changed_names(old_deps@, new_deps@));
        }
        out
    }
}

/// The names of `ns` that changed between `old` and `new`.
pub open spec fn changed_among(ns: Seq<Seq<char>>, old: Seq<ResolvedDependency>, new: Seq<ResolvedDependency>) -> Set<Seq<char>> {
    Set::new(|n: Seq<char>| ns.contains(n) && change_kind(last_version(old, n), last_version(new, n)) is Some)
}

proof fn lemma_prefix_grows(ns: Seq<Seq<char>>, k: int)
    requires
        0 <= k < ns.len(),
    ensures
        forall|n: Seq<char>| #[trigger] ns.subrange(0, k + 1).contains(n) <==> (ns.subrange(0, k).contains(n) || n == ns[k]),
{
    let p0 = ns.subrange(0, k);
    let p1 = ns.subrange(0, k + 1);
    assert(p1 =~= p0.push(ns[k]));
    assert forall|n: Seq<char>| #[trigger] p1.contains(n) <==> (p0.contains(n) || n == ns[k]) by {
        if p1.contains(n) {
            let t = choose|t: int| 0 <= t < p1.len() && p1[t] == n;
            if t < k {
                assert(p0[t] == n);
            }
        }
        if p0.contains(n) {
            let t = choose|t: int| 0 <= t < p0.len() && p0[t] == n;
            assert(p1[t] == n);
        }
        if n == ns[k] {
            assert(p1[k] == n);
        }
    }
}

proof fn lemma_changed_among_step(ns: Seq<Seq<char>>, k: int, old: Seq<ResolvedDependency>, new: Seq<ResolvedDependency>)
    requires
        0 <= k < ns.len(),
    ensures
        changed_among(ns.subrange(0, k + 1), old, new) == if change_kind(last_version(old, ns[k]), last_version(new, ns[k])) is Some {
            changed_among(ns.subrange(0, k), old, new).insert(ns[k])
        } else {
            changed_among(ns.subrange(0, k), old, new)
        },
{
    lemma_prefix_grows(ns, k);
    if change_kind(last_version(old, ns[k]), last_version(new, ns[k])) is Some {
        assert(changed_among(ns.subrange(0, k + 1), old, new) =~= changed_among(ns.subrange(0, k), old, new).insert(ns[k]));
    } else {
        assert(changed_among(ns.subrange(0, k + 1), old, new) =~= changed_among(ns.subrange(0, k), old, new));
    }
}

proof fn lemma_prefix_below(ns: Seq<Seq<char>>, k: int, x: Seq<char>)
    requires
        0 <= k < ns.len(),
        crate::text::strictly_sorted(ns),
        ns.subrange(0, k).contains(x),
    ensures
        lex_lt(x, ns[k]),
{
    let p0 = ns.subrange(0, k);
    let t = choose|t: int| 0 <= t < p0.len() && p0[t] == x;
    assert(ns[t] == x);
}


// ---------------------------------------------------------------------------
// Keyed pairs
// ---------------------------------------------------------------------------

/// The first pair keyed `k` gives what `k` gives.
pub proof fn lemma_assoc_first_pub<V>(p: Seq<(Seq<char>, V)>, k: Seq<char>, i: int)
    requires
        0 <= i < p.len(),
        p[i].0 == k,
        forall|j: int| 0 <= j < i ==> p[j].0 != k,
    ensures
        assoc_get(p, k) == Some(p[i].1),
{
    lemma_assoc_first(p, k, i);
}

proof fn lemma_assoc_first<V>(p: Seq<(Seq<char>, V)>, k: Seq<char>, i: int)
    requires
        0 <= i < p.len(),
        p[i].0 == k,
        forall|j: int| 0 <= j < i ==> p[j].0 != k,
    ensures
        assoc_get(p, k) == Some(p[i].1),
    decreases i,
{
    if i > 0 {
        lemma_assoc_first(p.drop_first(), k, i - 1);
    }
}

proof fn lemma_assoc_absent<V>(p: Seq<(Seq<char>, V)>, k: Seq<char>)
    requires
        forall|j: int| 0 <= j < p.len() ==> p[j].0 != k,
    ensures
        assoc_get(p, k) is None,
    decreases p.len(),
{
    if p.len() > 0 {
        lemma_assoc_absent(p.drop_first(), k);
    }
}

/// Index of the first pair keyed `k`.
fn find_key<V>(p: &Vec<(String, V)>, k: &str) -> (r: Option<usize>)
    ensures
        match r {
            Some(i) => i < p.len() && p@[i as int].0@ == k@ && forall|j: int| 0 <= j < i ==> p@[j].0@ != k@,
            None => forall|j: int| 0 <= j < p.len() ==> p@[j].0@ != k@,
        },
{
    let kc = chars_of(k);
    let mut i: usize = 0;
    while i < p.len()
        invariant
            i <= p.len(),
            kc@ == k@,
            forall|j: int| 0 <= j < i ==> p@[j].0@ != k@,
        decreases p.len() - i,
    {
        if crate::naming::same_chars(&chars_of(p[i].0.as_str()), &kc) {
            return Some(i);
        }
        i = i + 1;
    }
    None
}

pub open spec fn str_pairs(v: Seq<(String, String)>) -> Seq<(Seq<char>, Seq<char>)> {
    v.map_values(|p: (String, String)| (p.0@, p.1@))
}

/// The value for `k` in a list of string pairs.
fn get_str<'a>(p: &'a Vec<(String, String)>, k: &str) -> (r: Option<&'a String>)
    ensures
        match r {
            Some(v) => assoc_get(str_pairs(p@), k@) == Some(v@),
            None => assoc_get(str_pairs(p@), k@) is None,
        },
{
    match find_key(p, k) {
        Some(i) => {
            proof {
                lemma_assoc_first(str_pairs(p@), k@, i as int);
            }
            Some(&p[i].1)
        },
        None => {
            proof {
                lemma_assoc_absent(str_pairs(p@), k@);
            }
            None
        },
    }
}

pub open spec fn module_pairs(v: Seq<(String, Vec<String>)>) -> Seq<(Seq<char>, Seq<Seq<char>>)> {
    v.map_values(|p: (String, Vec<String>)| (p.0@, views(p.1@)))
}

// ---------------------------------------------------------------------------
// Impact of changes
// ---------------------------------------------------------------------------

/// The impact of a change on the modules that import its package: at most twenty of
/// them are listed; it is high when more than five modules import a package whose
/// port is unknown or impossible.
pub open spec fn impact_of(c: DepChangeView, modules: Seq<(Seq<char>, Seq<Seq<char>>)>) -> crate::compat::ImpactView {
    let affected = match assoc_get(modules, c.package) {
        Some(m) => m,
        None => Seq::empty(),
    };
    let compat = match c.compatibility_now {
        Some(l) => l,
        None => CompatibilityLevel::Unknown,
    };
    crate::compat::ImpactView {
        package: c.package,
        affected_module_count: affected.len(),
        affected_modules: if affected.len() <= 20 { affected } else { affected.subrange(0, 20) },
        is_high_impact: affected.len() > 5 && (compat == CompatibilityLevel::Unknown || compat == CompatibilityLevel::Incompatible),
    }
}

fn first_strings(v: &Vec<String>, n: usize) -> (r: Vec<String>)
    ensures
        views(r@) == if v.len() <= n { views(v@) } else { views(v@).subrange(0, n as int) },
{
    let m = if v.len() <= n { v.len() } else { n };
    let mut r: Vec<String> = Vec::new();
    let mut i: usize = 0;
    while i < m
        invariant
            i <= m <= v.len(),
            m == if v.len() <= n { v.len() } else { n },
            views(r@) == views(v@).subrange(0, i as int),
        decreases m - i,
    {
        let ghost before = views(r@);
        let c = v[i].clone();
        r.push(c);
        i = i + 1;
        proof {
            assert(views(r@) =~= before.push(v@[i - 1]@));
            assert(views(r@) =~= views(v@).subrange(0, i as int));
        }
    }
    proof {
        assert(views(v@).subrange(0, v.len() as int) =~= views(v@));
    }
    r
}

impl CompatibilityMatrix {
    /// The modules each changed dependency touches, from the modules that import each
    /// package (`package_modules`, keyed by package).
    pub fn analyze_impact(
        &self,
        dep_changes: &[DepChangeInfo],
        package_modules: &Vec<(String, Vec<String>)>,
    ) -> (r: Vec<crate::compat::DependencyImpact>)
        requires
            keys_unique(module_pairs(package_modules@)),
        ensures
            r.len() == dep_changes.len(),
            forall|i: int| 0 <= i < r.len() ==> #[trigger] r@[i]@ == impact_of(dep_changes@[i]@, module_pairs(package_modules@)),
    {
        let ghost pm = module_pairs(package_modules@);
        let mut r: Vec<crate::compat::DependencyImpact> = Vec::new();
        let mut k: usize = 0;
        while k < dep_changes.len()
            invariant
                k <= dep_changes.len(),
                pm == module_pairs(package_modules@),
                r.len() == k,
                forall|i: int| 0 <= i < k ==> #[trigger] r@[i]@ == impact_of(dep_changes@[i]@, pm),
            decreases dep_changes.len() - k,
        {
            let change = &dep_changes[k];
            let empty: Vec<String> = Vec::new();
            let affected: &Vec<String> = match find_key(package_modules, change.package.as_str()) {
                Some(i) => {
                    proof {
                        lemma_assoc_first(pm, change.package@, i as int);
                    }
                    &package_modules[i].1
                },
                None => {
                    proof {
                        lemma_assoc_absent(pm, change.package@);
                        assert(views(empty@) =~= Seq::<Seq<char>>::empty());
                    }
                    &empty
                },
            };
            let count = affected.len();
            let compat = match change.compatibility_now {
                Some(l) => l,
                None => CompatibilityLevel::Unknown,
            };
            let high = count > 5 && (compat == CompatibilityLevel::Unknown || compat == CompatibilityLevel::Incompatible);
            let impact = crate::compat::DependencyImpact {
                package: change.package.clone(),
                affected_module_count: count,
                affected_modules: first_strings(affected, 20),
                is_high_impact: high,
            };
            proof {
                assert(impact@ =~~= impact_of(dep_changes@[k as int]@, pm));
            }
            r.push(impact);
            k = k + 1;
        }
        r
    }
}


// ---------------------------------------------------------------------------
// Overrides
// ---------------------------------------------------------------------------

/// `p` with `k` bound to `e`: the first pair keyed `k` replaced, or `(k, e)` appended.
pub open spec fn put<V>(p: Seq<(Seq<char>, V)>, k: Seq<char>, e: V) -> Seq<(Seq<char>, V)>
    decreases p.len(),
{
    if p.len() == 0 {
        seq![(k, e)]
    } else if p[0].0 == k {
        p.update(0, (k, e))
    } else {
        seq![p[0]] + put(p.drop_first(), k, e)
    }
}

/// No key occurs twice: the pairs form a map.
pub open spec fn keys_unique<V>(p: Seq<(Seq<char>, V)>) -> bool {
    forall|i: int, j: int| 0 <= i < j < p.len() ==> p[i].0 != p[j].0
}

/// Binding a key keeps the keys of a map unique; the keys after it are the old ones
/// and the bound key.
pub proof fn lemma_put_keys<V>(p: Seq<(Seq<char>, V)>, k: Seq<char>, e: V)
    ensures
        forall|j: int|
            0 <= j < put(p, k, e).len() ==> #[trigger] put(p, k, e)[j].0 == k || exists|i: int|
                0 <= i < p.len() && p[i].0 == put(p, k, e)[j].0,
        keys_unique(p) ==> keys_unique(put(p, k, e)),
    decreases p.len(),
{
    if p.len() == 0 {
        assert(put(p, k, e) =~= seq![(k, e)]);
    } else if p[0].0 == k {
        let q = p.update(0, (k, e));
        assert forall|j: int| 0 <= j < q.len() implies #[trigger] q[j].0 == k || exists|i: int|
            0 <= i < p.len() && p[i].0 == q[j].0 by {
            if j > 0 {
                assert(p[j].0 == q[j].0);
            }
        }
        if keys_unique(p) {
            assert forall|a: int, b: int| 0 <= a < b < q.len() implies q[a].0 != q[b].0 by {
                assert(p[a].0 != p[b].0);
            }
        }
    } else {
        let r = p.drop_first();
        lemma_put_keys(r, k, e);
        let t = put(r, k, e);
        let q = seq![p[0]] + t;
        assert(put(p, k, e) == q);
        assert forall|j: int| 0 <= j < q.len() implies #[trigger] q[j].0 == k || exists|i: int|
            0 <= i < p.len() && p[i].0 == q[j].0 by {
            if j == 0 {
                assert(p[0].0 == q[0].0);
            } else {
                assert(q[j] == t[j - 1]);
                if t[j - 1].0 != k {
                    let i = choose|i: int| 0 <= i < r.len() && r[i].0 == t[j - 1].0;
                    assert(p[i + 1].0 == q[j].0);
                }
            }
        }
        if keys_unique(p) {
            assert(keys_unique(r)) by {
                assert forall|a: int, b: int| 0 <= a < b < r.len() implies r[a].0 != r[b].0 by {
                    assert(p[a + 1].0 != p[b + 1].0);
                }
            }
            assert forall|a: int, b: int| 0 <= a < b < q.len() implies q[a].0 != q[b].0 by {
                assert(q[b] == t[b - 1]);
                if a == 0 {
                    assert(q[0] == p[0]);
                    if t[b - 1].0 != k {
                        let i = choose|i: int| 0 <= i < r.len() && r[i].0 == t[b - 1].0;
                        assert(p[0].0 != p[i + 1].0);
                    }
                } else {
                    assert(q[a] == t[a - 1]);
                }
            }
        }
    }
}

pub proof fn lemma_put_at<V>(p: Seq<(Seq<char>, V)>, k: Seq<char>, e: V, i: int)
    requires
        0 <= i < p.len(),
        p[i].0 == k,
        forall|j: int| 0 <= j < i ==> p[j].0 != k,
    ensures
        put(p, k, e) == p.update(i, (k, e)),
    decreases i,
{
    if i > 0 {
        lemma_put_at::<V>(p.drop_first(), k, e, i - 1);
        assert(seq![p[0]] + p.drop_first().update(i - 1, (k, e)) =~= p.update(i, (k, e)));
    }
}

pub proof fn lemma_put_new<V>(p: Seq<(Seq<char>, V)>, k: Seq<char>, e: V)
    requires
        forall|j: int| 0 <= j < p.len() ==> p[j].0 != k,
    ensures
        put(p, k, e) == p.push((k, e)),
    decreases p.len(),
{
    if p.len() > 0 {
        lemma_put_new(p.drop_first(), k, e);
        assert(seq![p[0]] + p.drop_first().push((k, e)) =~= p.push((k, e)));
    }
}

/// The package name an override entry has in `language`.
pub open spec fn package_for(o: crate::compat::OverrideEntry, language: Seq<char>) -> Option<Seq<char>> {
    match o.packages {
        Some(p) => assoc_get(str_pairs(p@), language),
        None => None,
    }
}

/// The package an override is about: its name in the source language, else its key.
pub open spec fn override_name(key: Seq<char>, o: crate::compat::OverrideEntry, source_language: Seq<char>) -> Seq<char> {
    match package_for(o, source_language) {
        Some(n) => n,
        None => key,
    }
}

pub open spec fn override_level(o: crate::compat::OverrideEntry) -> CompatibilityLevel {
    match o.compatibility {
        Some(c) => crate::compat::level_of_word(crate::text::lowercase_of(crate::text::trim_spec(c@))),
        None => CompatibilityLevel::Unknown,
    }
}

pub open spec fn override_effort(o: crate::compat::OverrideEntry) -> MigrationEffort {
    match o.effort {
        Some(e) => crate::compat::effort_of_word(crate::text::lowercase_of(crate::text::trim_spec(e@))),
        None => default_effort_spec(override_level(o)),
    }
}

/// The key of a migration direction in per-direction guidance.
pub open spec fn direction_key(source_language: Seq<char>, target_language: Seq<char>) -> Seq<char> {
    source_language + "_to_"@ + target_language
}

/// The guidance of an override for a migration: its single text, or its text for the
/// direction, or its only text.
pub open spec fn override_guidance(o: crate::compat::OverrideEntry, source_language: Seq<char>, target_language: Seq<char>) -> Option<Seq<char>> {
    match o.guidance {
        crate::compat::GuidanceOverride::Absent => None,
        crate::compat::GuidanceOverride::Single(g) => Some(g@),
        crate::compat::GuidanceOverride::PerDirection(m) => match assoc_get(str_pairs(m@), direction_key(source_language, target_language)) {
            Some(g) => Some(g),
            None => if m@.len() == 1 {
                Some(m@[0].1@)
            } else {
                None
            },
        },
    }
}

/// The entry an override gives.
pub open spec fn override_entry(o: crate::compat::OverrideEntry, source_language: Seq<char>, target_language: Seq<char>) -> EntryView {
    let level = override_level(o);
    let effort = override_effort(o);
    let guidance = override_guidance(o, source_language, target_language);
    let tags = crate::compat::opt_vec_view(o.tags);
    EntryView {
        source_language,
        target_language,
        equivalent: match package_for(o, target_language) {
            Some(t) => Some(t),
            None => opt_view(o.equivalent),
        },
        compatibility: level,
        effort,
        guidance,
        note: opt_view(o.note),
        tags,
        risk_tags: risk_tags_spec(effort, level, tags, guidance),
    }
}

/// The overrides after applying the first `n` entries of `file`, in order.
pub open spec fn applied(
    ov: Seq<(Seq<char>, EntryView)>,
    file: Seq<(String, crate::compat::OverrideEntry)>,
    n: int,
    source_language: Seq<char>,
    target_language: Seq<char>,
) -> Seq<(Seq<char>, EntryView)>
    decreases n,
{
    if n <= 0 || n > file.len() {
        ov
    } else {
        let prev = applied(ov, file, n - 1, source_language, target_language);
        put(
            prev,
            override_name(file[n - 1].0@, file[n - 1].1, source_language),
            override_entry(file[n - 1].1, source_language, target_language),
        )
    }
}

fn opt_copy_ref(o: Option<&String>) -> (r: Option<String>)
    ensures
        opt_view(r) == match o {
            Some(s) => Some(s@),
            None => None,
        },
{
    match o {
        Some(s) => Some(s.clone()),
        None => None,
    }
}

fn package_for_exec<'a>(o: &'a crate::compat::OverrideEntry, language: &str) -> (r: Option<&'a String>)
    ensures
        match r {
            Some(n) => package_for(*o, language@) == Some(n@),
            None => package_for(*o, language@) is None,
        },
{
    match &o.packages {
        Some(p) => get_str(p, language),
        None => None,
    }
}

impl CompatibilityMatrix {
    fn guidance_for(&self, o: &crate::compat::OverrideEntry) -> (r: Option<String>)
        ensures
            opt_view(r) == override_guidance(*o, self.src_lang(), self.tgt_lang()),
    {
        match &o.guidance {
            crate::compat::GuidanceOverride::Absent => None,
            crate::compat::GuidanceOverride::Single(g) => Some(g.clone()),
            crate::compat::GuidanceOverride::PerDirection(m) => {
                let mut key: Vec<char> = chars_of(self.source_language.as_str());
                push_all(&mut key, &chars_of("_to_"));
                push_all(&mut key, &chars_of(self.target_language.as_str()));
                let key = string_of(&key);
                match get_str(m, key.as_str()) {
                    Some(g) => Some(g.clone()),
                    None => {
                        if m.len() == 1 {
                            proof {
                                assert(str_pairs(m@)[0] == (m@[0].0@, m@[0].1@));
                            }
                            Some(m[0].1.clone())
                        } else {
                            None
                        }
                    },
                }
            },
        }
    }

    fn override_entry_exec(&self, o: &crate::compat::OverrideEntry) -> (e: CompatibilityEntry)
        ensures
            e@ == override_entry(*o, self.src_lang(), self.tgt_lang()),
    {
        let level = match &o.compatibility {
            Some(c) => crate::compat::parse_compatibility_str(c.as_str()),
            None => CompatibilityLevel::Unknown,
        };
        let effort = match &o.effort {
            Some(x) => crate::compat::parse_effort_str(x.as_str()),
            None => level.default_effort(),
        };
        let equivalent = match package_for_exec(o, self.target_language.as_str()) {
            Some(t) => Some(t.clone()),
            None => crate::compat::copy_opt_string(&o.equivalent),
        };
        let guidance = self.guidance_for(o);
        let risk_tags = match &o.tags {
            Some(t) => match &guidance {
                Some(g) => crate::compat::derive_risk_tags(effort, level, Some(t.as_slice()), Some(g.as_str())),
                None => crate::compat::derive_risk_tags(effort, level, Some(t.as_slice()), None),
            },
            None => match &guidance {
                Some(g) => crate::compat::derive_risk_tags(effort, level, None, Some(g.as_str())),
                None => crate::compat::derive_risk_tags(effort, level, None, None),
            },
        };
        let e = CompatibilityEntry {
            source_language: self.source_language.clone(),
            target_language: self.target_language.clone(),
            equivalent,
            compatibility: level,
            effort,
            guidance,
            note: crate::compat::copy_opt_string(&o.note),
            tags: crate::compat::copy_opt_strings(&o.tags),
            risk_tags,
        };
        proof {
            assert(e@ =~~= override_entry(*o, self.src_lang(), self.tgt_lang()));
        }
        e
    }

    fn put_override(&mut self, key: String, e: CompatibilityEntry)
        ensures
            final(self).overridden() == put(old(self).overridden(), key@, e@),
            final(self).builtin() == old(self).builtin(),
            final(self).src_lang() == old(self).src_lang(),
            final(self).tgt_lang() == old(self).tgt_lang(),
    {
        let ghost before = entry_pairs(self.overrides@);
        match find_key(&self.overrides, key.as_str()) {
            Some(i) => {
                proof {
                    lemma_put_at::<EntryView>(before, key@, e@, i as int);
                }
                let ghost k2 = key@;
                self.overrides.set(i, (key, e));
                proof {
                    assert(entry_pairs(self.overrides@) =~= before.update(i as int, (k2, e@)));
                }
            },
            None => {
                proof {
                    lemma_put_new(before, key@, e@);
                }
                let ghost k2 = key@;
                let ghost ev = e@;
                self.overrides.push((key, e));
                proof {
                    assert(entry_pairs(self.overrides@) =~= before.push((k2, ev)));
                }
            },
        }
    }

    /// Apply a user's overrides, in order: each entry, keyed by its package name in the
    /// source language (else by its own key), replaces the override of that package.
    pub fn apply_overrides(&mut self, file: &crate::compat::CompatibilityOverrideFile)
        ensures
            final(self).overridden() == applied(
                old(self).overridden(),
                file.dependencies@,
                file.dependencies@.len() as int,
                old(self).src_lang(),
                old(self).tgt_lang(),
            ),
            final(self).builtin() == old(self).builtin(),
            final(self).src_lang() == old(self).src_lang(),
            final(self).tgt_lang() == old(self).tgt_lang(),
            old(self).wf() ==> final(self).wf(),
    {
        let ghost ov0 = self.overridden();
        let ghost wf0 = self.wf();
        let ghost sl = self.src_lang();
        let ghost tl = self.tgt_lang();
        let ghost b0 = self.builtin();
        let mut k: usize = 0;
        while k < file.dependencies.len()
            invariant
                k <= file.dependencies.len(),
                self.overridden() == applied(ov0, file.dependencies@, k as int, sl, tl),
                self.builtin() == b0,
                self.src_lang() == sl,
                self.tgt_lang() == tl,
                wf0 == old(self).wf(),
                wf0 ==> self.wf(),
            decreases file.dependencies.len() - k,
        {
            let (key, o) = (&file.dependencies[k].0, &file.dependencies[k].1);
            let name = match package_for_exec(o, self.source_language.as_str()) {
                Some(n) => n.clone(),
                None => key.clone(),
            };
            let e = self.override_entry_exec(o);
            let ghost ov = self.overridden();
            let ghost kv = name@;
            let ghost ev = e@;
            self.put_override(name, e);
            proof {
                lemma_put_keys(ov, kv, ev);
            }
            k = k + 1;
        }
    }
}


// ---------------------------------------------------------------------------
// Laws
// ---------------------------------------------------------------------------

/// Index of the first target of greatest similarity among the first `m`, or `-1`
/// when none of them is similar at all.
spec fn best_upto(src: LibView, reg: Seq<(Seq<char>, LibView)>, m: int) -> int
    decreases m,
{
    if m <= 0 {
        -1
    } else {
        let b = best_upto(src, reg, m - 1);
        if sim_num(src, reg[m - 1].1) > 0 && (b < 0 || sim_lt(src, reg[b].1, reg[m - 1].1)) {
            m - 1
        } else {
            b
        }
    }
}

proof fn lemma_sim_den_pos(s: LibView, t: LibView)
    ensures
        sim_den(s, t) > 0,
        sim_num(s, t) >= 0,
{
}

proof fn lemma_best_upto(src: LibView, reg: Seq<(Seq<char>, LibView)>, m: int)
    requires
        0 <= m <= reg.len(),
    ensures
        best_upto(src, reg, m) < 0 ==> forall|k: int| 0 <= k < m ==> sim_num(src, #[trigger] reg[k].1) == 0,
        best_upto(src, reg, m) >= 0 ==> {
            let b = best_upto(src, reg, m);
            &&& b < m
            &&& sim_num(src, reg[b].1) > 0
            &&& forall|k: int| 0 <= k < m ==> !sim_lt(src, reg[b].1, #[trigger] reg[k].1)
            &&& forall|k: int| 0 <= k < b ==> sim_lt(src, #[trigger] reg[k].1, reg[b].1)
        },
    decreases m,
{
    if m > 0 {
        lemma_best_upto(src, reg, m - 1);
        let b = best_upto(src, reg, m - 1);
        let x = reg[m - 1].1;
        lemma_sim_den_pos(src, x);
        if sim_num(src, x) > 0 && (b < 0 || sim_lt(src, reg[b].1, x)) {
            assert forall|k: int| 0 <= k < m implies !sim_lt(src, x, #[trigger] reg[k].1) by {
                lemma_sim_den_pos(src, reg[k].1);
                if k < m - 1 {
                    if b < 0 {
                        lemma_frac_nonneg(sim_num(src, x), sim_den(src, x), sim_num(src, reg[k].1), sim_den(src, reg[k].1));
                    } else {
                        lemma_sim_den_pos(src, reg[b].1);
                        lemma_frac_le_lt(
                            sim_num(src, reg[k].1), sim_den(src, reg[k].1),
                            sim_num(src, reg[b].1), sim_den(src, reg[b].1),
                            sim_num(src, x), sim_den(src, x),
                        );
                    }
                }
            }
            assert forall|k: int| 0 <= k < m - 1 implies sim_lt(src, #[trigger] reg[k].1, x) by {
                lemma_sim_den_pos(src, reg[k].1);
                if b < 0 {
                    lemma_frac_zero_below(sim_num(src, reg[k].1), sim_den(src, reg[k].1), sim_num(src, x), sim_den(src, x));
                } else {
                    lemma_sim_den_pos(src, reg[b].1);
                    lemma_frac_le_lt(
                        sim_num(src, reg[k].1), sim_den(src, reg[k].1),
                        sim_num(src, reg[b].1), sim_den(src, reg[b].1),
                        sim_num(src, x), sim_den(src, x),
                    );
                }
            }
        } else if b >= 0 {
            assert(!sim_lt(src, reg[b].1, x)) by {
                lemma_sim_den_pos(src, reg[b].1);
                if sim_num(src, x) == 0 {
                    lemma_frac_nonneg(sim_num(src, reg[b].1), sim_den(src, reg[b].1), sim_num(src, x), sim_den(src, x));
                }
            }
        }
    }
}

/// When some target is similar at all, the best match exists and is one.
pub proof fn lemma_best_match_found(src: LibView, reg: Seq<(Seq<char>, LibView)>)
    requires
        has_match(src, reg),
    ensures
        best_match(src, reg) matches Some(j) && is_best_match(src, reg, j),
{
    lemma_best_upto(src, reg, reg.len() as int);
    let b = best_upto(src, reg, reg.len() as int);
    let k = choose|k: int| 0 <= k < reg.len() && sim_num(src, #[trigger] reg[k].1) > 0;
    assert(sim_num(src, reg[k].1) > 0);
    assert(b >= 0);
    assert(is_best_match(src, reg, b));
}

/// Every built-in entry is for the matrix's languages; it names an equivalent
/// exactly when its level is known; without one it is tagged `unmapped`; and its
/// effort is its level's default.
pub proof fn law_builtin_entry_shape(source_language: Seq<char>, target_language: Seq<char>, i: int)
    requires
        0 <= i < builtin_entries(source_language, target_language).len(),
    ensures
        ({
            let e = builtin_entries(source_language, target_language)[i].1;
            &&& e.source_language == source_language
            &&& e.target_language == target_language
            &&& (e.equivalent is None <==> e.compatibility == CompatibilityLevel::Unknown)
            &&& (e.equivalent is None ==> e.risk_tags == seq!["unmapped"@])
            &&& e.effort == default_effort_spec(e.compatibility)
        }),
{
    let reg = registry_spec(source_language);
    let lib = reg[i].1;
    let target = registry_spec(target_language);
    if has_match(lib, target) {
        lemma_best_match_found(lib, target);
    }
}

/// Binding `k` to `e` makes `e` what `k` gives, and leaves every other key as it was.
pub proof fn law_put<V>(p: Seq<(Seq<char>, V)>, k: Seq<char>, e: V, other: Seq<char>)
    requires
        other != k,
    ensures
        assoc_get(put(p, k, e), k) == Some(e),
        assoc_get(put(p, k, e), other) == assoc_get(p, other),
    decreases p.len(),
{
    if p.len() > 0 {
        if p[0].0 == k {
            let q = p.update(0, (k, e));
            assert(q[0] == (k, e));
            assert(q.drop_first() =~= p.drop_first());
        } else {
            law_put(p.drop_first(), k, e, other);
            let q = seq![p[0]] + put(p.drop_first(), k, e);
            assert(q[0] == p[0]);
            assert(q.drop_first() =~= put(p.drop_first(), k, e));
        }
    } else {
        let q = seq![(k, e)];
        assert(q[0] == (k, e));
        assert(q.drop_first() =~= Seq::<(Seq<char>, V)>::empty());
        assert(assoc_get(q.drop_first(), other) is None);
    }
}

/// After overrides are applied, a package's override is the entry of the last
/// override about it, whatever the earlier ones said; and the matrix answers a
/// lookup of that package with it, ahead of any built-in entry.
pub proof fn law_last_override_wins(
    m: CompatibilityMatrix,
    file: Seq<(String, crate::compat::OverrideEntry)>,
    i: int,
)
    requires
        0 <= i < file.len(),
        forall|j: int|
            i < j < file.len() ==> #[trigger] override_name(file[j].0@, file[j].1, m.src_lang())
                != override_name(file[i].0@, file[i].1, m.src_lang()),
    ensures
        assoc_get(
            applied(m.overridden(), file, file.len() as int, m.src_lang(), m.tgt_lang()),
            override_name(file[i].0@, file[i].1, m.src_lang()),
        ) == Some(override_entry(file[i].1, m.src_lang(), m.tgt_lang())),
{
    lemma_applied_keeps(m, file, i, file.len() as int);
}

proof fn lemma_applied_keeps(m: CompatibilityMatrix, file: Seq<(String, crate::compat::OverrideEntry)>, i: int, n: int)
    requires
        0 <= i < n <= file.len(),
        forall|j: int|
            i < j < file.len() ==> #[trigger] override_name(file[j].0@, file[j].1, m.src_lang())
                != override_name(file[i].0@, file[i].1, m.src_lang()),
    ensures
        assoc_get(
            applied(m.overridden(), file, n, m.src_lang(), m.tgt_lang()),
            override_name(file[i].0@, file[i].1, m.src_lang()),
        ) == Some(override_entry(file[i].1, m.src_lang(), m.tgt_lang())),
    decreases n,
{
    let k = override_name(file[i].0@, file[i].1, m.src_lang());
    let prev = applied(m.overridden(), file, n - 1, m.src_lang(), m.tgt_lang());
    let kn = override_name(file[n - 1].0@, file[n - 1].1, m.src_lang());
    let en = override_entry(file[n - 1].1, m.src_lang(), m.tgt_lang());
    if n - 1 == i {
        law_put(prev, kn, en, kn + seq!['x']);
    } else {
        lemma_applied_keeps(m, file, i, n - 1);
        assert(kn != k);
        law_put(prev, kn, en, k);
    }
}

/// Comparing a dependency list with itself finds no change.
pub proof fn law_no_changes_against_itself(deps: Seq<ResolvedDependency>)
    ensures
        changed_names(deps, deps) == Set::<Seq<char>>::empty(),
{
    assert(changed_names(deps, deps) =~= Set::<Seq<char>>::empty());
}


/// A changed dependency is high impact exactly when more than five modules import
/// it and its current compatibility is not known to be partial or full (none,
/// unknown, or no entry); the count is that of the modules listed for its package.
pub proof fn law_high_impact(c: DepChangeView, modules: Seq<(Seq<char>, Seq<Seq<char>>)>)
    ensures
        impact_of(c, modules).is_high_impact <==> (impact_of(c, modules).affected_module_count > 5
            && c.compatibility_now != Some(CompatibilityLevel::Partial) && c.compatibility_now != Some(
            CompatibilityLevel::Full,
        )),
        impact_of(c, modules).affected_module_count == match assoc_get(modules, c.package) {
            Some(m) => m.len(),
            None => 0,
        },
        impact_of(c, modules).package == c.package,
{
}

/// Whether a dependency change needs review, from what the matrix knows of its
/// package: a removed package when it was known to port fully or partly; an added
/// one unless it is known to port fully or partly; one whose version changed unless
/// it is known to port fully or not at all.
pub proof fn law_review_needed(m: CompatibilityMatrix, n: Seq<char>, old: Seq<ResolvedDependency>, new: Seq<ResolvedDependency>)
    requires
        change_kind(last_version(old, n), last_version(new, n)) is Some,
    ensures
        ({
            let v = m.change_view(n, old, new);
            &&& v.change_type == "removed"@ ==> (v.needs_review <==> (v.compatibility_before == Some(
                CompatibilityLevel::Full,
            ) || v.compatibility_before == Some(CompatibilityLevel::Partial)))
            &&& v.change_type == "added"@ ==> (v.needs_review <==> !(v.compatibility_now == Some(
                CompatibilityLevel::Full,
            ) || v.compatibility_now == Some(CompatibilityLevel::Partial)))
            &&& (v.change_type == "upgraded"@ || v.change_type == "downgraded"@) ==> (v.needs_review <==> !(
            v.compatibility_now == Some(CompatibilityLevel::Full) || v.compatibility_now == Some(
                CompatibilityLevel::Incompatible,
            )))
        }),
{
    reveal_strlit("added");
    reveal_strlit("removed");
    reveal_strlit("upgraded");
    reveal_strlit("downgraded");
    assert("added"@[0] == 'a' && "removed"@[0] == 'r' && "upgraded"@[0] == 'u' && "downgraded"@[0] == 'd');
}


/// A package is added when only the new list has it, removed when only the old one
/// has it, upgraded or downgraded when both have it in different versions (by the
/// order of the version texts), and unchanged otherwise.
pub proof fn law_change_kind(ov: Option<Seq<char>>, nv: Option<Seq<char>>)
    ensures
        change_kind(ov, nv) == Some("added"@) <==> (ov is None && nv is Some),
        change_kind(ov, nv) == Some("removed"@) <==> (ov is Some && nv is None),
        change_kind(ov, nv) == Some("upgraded"@) <==> (ov matches Some(o) && nv matches Some(n) && o != n && lex_lt(o, n)),
        change_kind(ov, nv) == Some("downgraded"@) <==> (ov matches Some(o) && nv matches Some(n) && o != n && !lex_lt(o, n)),
        change_kind(ov, nv) is None <==> (ov == nv),
{
    reveal_strlit("added");
    reveal_strlit("removed");
    reveal_strlit("upgraded");
    reveal_strlit("downgraded");
    assert("added"@[0] == 'a' && "removed"@[0] == 'r' && "upgraded"@[0] == 'u' && "downgraded"@[0] == 'd');
}

} // verus!
