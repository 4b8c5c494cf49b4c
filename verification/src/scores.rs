//! The counts that a module's migration readiness rests on: how many files refer
//! to it, and how many import cycles it lies on.
use vstd::prelude::*;
use crate::graph::Cycle;
use crate::references::SymbolReference;
use crate::text::{chars_of, insert_sorted_unique, rfind_char, strictly_sorted, views};
use crate::naming::same_chars;

verus! {

/// The module of a reverse-index key `file:symbol`: what precedes its last `:`.
pub open spec fn key_module(k: Seq<char>) -> Option<Seq<char>> {
    match crate::text::rfind_spec(k, seq![':']) {
        Some(i) => Some(k.subrange(0, i)),
        None => None,
    }
}

/// The files that a list of references come from.
pub open spec fn ref_files(refs: Seq<SymbolReference>) -> Set<Seq<char>> {
    Set::new(|f: Seq<char>| exists|i: int| 0 <= i < refs.len() && #[trigger] refs[i].location.file@ == f)
}

/// Over the first `k` entries of a reverse index, the number of files that refer
/// to a symbol of module `m`, counted once per symbol.
pub open spec fn in_degree_upto(rev: Seq<(String, Vec<SymbolReference>)>, k: int, m: Seq<char>) -> int
    decreases k,
{
    if k <= 0 || k > rev.len() {
        0
    } else {
        in_degree_upto(rev, k - 1, m) + if key_module(rev[k - 1].0@) == Some(m) {
            ref_files(rev[k - 1].1@).len() as int
        } else {
            0
        }
    }
}

pub open spec fn in_degree_of(rev: Seq<(String, Vec<SymbolReference>)>, m: Seq<char>) -> int {
    in_degree_upto(rev, rev.len() as int, m)
}

/// The number of references that the first `k` entries hold.
pub open spec fn refs_upto(rev: Seq<(String, Vec<SymbolReference>)>, k: int) -> int
    decreases k,
{
    if k <= 0 || k > rev.len() {
        0
    } else {
        refs_upto(rev, k - 1) + rev[k - 1].1@.len()
    }
}

/// How often `m` occurs in `s`.
pub open spec fn occurrences(s: Seq<Seq<char>>, m: Seq<char>) -> int
    decreases s.len(),
{
    if s.len() == 0 {
        0
    } else {
        occurrences(s.drop_last(), m) + if s.last() == m {
            1int
        } else {
            0
        }
    }
}

/// The number of times `m` is a node of the first `k` cycles.
pub open spec fn cycle_count_upto(cycles: Seq<Cycle>, k: int, m: Seq<char>) -> int
    decreases k,
{
    if k <= 0 || k > cycles.len() {
        0
    } else {
        cycle_count_upto(cycles, k - 1, m) + occurrences(views(cycles[k - 1].nodes@), m)
    }
}

pub open spec fn cycle_count_of(cycles: Seq<Cycle>, m: Seq<char>) -> int {
    cycle_count_upto(cycles, cycles.len() as int, m)
}

/// The number of nodes that the first `k` cycles hold.
pub open spec fn nodes_upto(cycles: Seq<Cycle>, k: int) -> int
    decreases k,
{
    if k <= 0 || k > cycles.len() {
        0
    } else {
        nodes_upto(cycles, k - 1) + cycles[k - 1].nodes@.len()
    }
}

proof fn lemma_refs_monotone(rev: Seq<(String, Vec<SymbolReference>)>, j: int, k: int)
    requires
        0 <= j <= k <= rev.len(),
    ensures
        refs_upto(rev, j) <= refs_upto(rev, k),
    decreases k - j,
{
    if j < k {
        lemma_refs_monotone(rev, j, k - 1);
    }
}

proof fn lemma_in_degree_bound(rev: Seq<(String, Vec<SymbolReference>)>, k: int, m: Seq<char>)
    requires
        0 <= k <= rev.len(),
        forall|i: int| 0 <= i < rev.len() ==> ref_files(#[trigger] rev[i].1@).len() <= rev[i].1@.len(),
    ensures
        0 <= in_degree_upto(rev, k, m) <= refs_upto(rev, k),
    decreases k,
{
    if k > 0 {
        lemma_in_degree_bound(rev, k - 1, m);
    }
}

proof fn lemma_nodes_monotone(cycles: Seq<Cycle>, j: int, k: int)
    requires
        0 <= j <= k <= cycles.len(),
    ensures
        nodes_upto(cycles, j) <= nodes_upto(cycles, k),
    decreases k - j,
{
    if j < k {
        lemma_nodes_monotone(cycles, j, k - 1);
    }
}

proof fn lemma_occurrences_bound(s: Seq<Seq<char>>, m: Seq<char>)
    ensures
        0 <= occurrences(s, m) <= s.len(),
    decreases s.len(),
{
    if s.len() > 0 {
        lemma_occurrences_bound(s.drop_last(), m);
    }
}

proof fn lemma_cycle_count_bound(cycles: Seq<Cycle>, k: int, m: Seq<char>)
    requires
        0 <= k <= cycles.len(),
    ensures
        0 <= cycle_count_upto(cycles, k, m) <= nodes_upto(cycles, k),
    decreases k,
{
    if k > 0 {
        lemma_cycle_count_bound(cycles, k - 1, m);
        lemma_occurrences_bound(views(cycles[k - 1].nodes@), m);
    }
}

/// Whether the module part of a key `file:symbol` is `m`.
fn key_in_module(key: &String, m: &Vec<char>) -> (r: bool)
    ensures
        r == (key_module(key@) == Some(m@)),
{
    let cs = chars_of(key.as_str());
    let colon = rfind_char(cs.as_slice(), ':');
    proof {
        crate::text::lemma_rfind_char_spec(cs@, ':', colon);
    }
    match colon {
        Some(i) => {
            let head = crate::text::slice_copy(cs.as_slice(), 0, i);
            same_chars(&head, m)
        },
        None => false,
    }
}

/// The number of distinct files that a list of references come from.
fn distinct_files(refs: &Vec<SymbolReference>) -> (r: usize)
    ensures
        r == ref_files(refs@).len(),
        r <= refs@.len(),
{
    let mut files: Vec<String> = Vec::new();
    let mut i: usize = 0;
    proof {
        assert(views(files@).to_set() =~= Set::new(|f: Seq<char>| exists|j: int| 0 <= j < 0 && #[trigger] refs@[j].location.file@ == f));
    }
    while i < refs.len()
        invariant
            i <= refs.len(),
            strictly_sorted(views(files@)),
            files@.len() <= i,
            views(files@).to_set() == Set::new(|f: Seq<char>| exists|j: int| 0 <= j < i && #[trigger] refs@[j].location.file@ == f),
        decreases refs.len() - i,
    {
        let ghost before = views(files@).to_set();
        let ghost before_files = files@;
        proof {
            crate::text::lemma_strictly_sorted_set_len(views(files@));
        }
        insert_sorted_unique(&mut files, refs[i].location.file.clone());
        proof {
            assert(views(files@).to_set() =~= Set::new(|f: Seq<char>| exists|j: int| 0 <= j < i + 1 && #[trigger] refs@[j].location.file@ == f)) by {
                assert forall|f: Seq<char>| views(files@).to_set().contains(f) <==> (exists|j: int| 0 <= j < i + 1 && #[trigger] refs@[j].location.file@ == f) by {
                    if views(files@).to_set().contains(f) && f != refs@[i as int].location.file@ {
                        assert(before.contains(f));
                    }
                    if exists|j: int| 0 <= j < i + 1 && #[trigger] refs@[j].location.file@ == f {
                        let j = choose|j: int| 0 <= j < i + 1 && #[trigger] refs@[j].location.file@ == f;
                        if j < i {
                            assert(before.contains(f));
                        }
                    }
                }
            }
            crate::text::lemma_strictly_sorted_set_len(views(files@));
            views(before_files).lemma_cardinality_of_set();
            assert(views(files@).to_set() =~= before.insert(refs@[i as int].location.file@));
        }
        i = i + 1;
    }
    proof {
        crate::text::lemma_strictly_sorted_set_len(views(files@));
        assert(ref_files(refs@) =~= views(files@).to_set());
    }
    files.len()
}

/// The number of files that refer to symbols of `module` (for each symbol of the
/// module, the distinct files its references come from), over a reverse index of
/// `file:symbol` keys.
pub fn module_in_degree(reverse: &Vec<(String, Vec<SymbolReference>)>, module: &str) -> (r: usize)
    requires
        refs_upto(reverse@, reverse@.len() as int) <= usize::MAX,
    ensures
        r == in_degree_of(reverse@, module@),
{
    let m = chars_of(module);
    let mut total: usize = 0;
    let mut k: usize = 0;
    while k < reverse.len()
        invariant
            k <= reverse.len(),
            m@ == module@,
            refs_upto(reverse@, reverse@.len() as int) <= usize::MAX,
            total == in_degree_upto(reverse@, k as int, module@),
        decreases reverse.len() - k,
    {
        proof {
            assert forall|i: int| 0 <= i < reverse@.len() implies ref_files(#[trigger] reverse@[i].1@).len() <= reverse@[i].1@.len() by {
                let refs = reverse@[i].1@;
                let fs = refs.map_values(|x: SymbolReference| x.location.file@);
                assert(ref_files(refs) =~= fs.to_set()) by {
                    assert forall|f: Seq<char>| ref_files(refs).contains(f) <==> fs.to_set().contains(f) by {
                        if ref_files(refs).contains(f) {
                            let j = choose|j: int| 0 <= j < refs.len() && #[trigger] refs[j].location.file@ == f;
                            assert(fs[j] == f);
                        }
                        if fs.to_set().contains(f) {
                            let j = choose|j: int| 0 <= j < fs.len() && fs[j] == f;
                            assert(refs[j].location.file@ == f);
                        }
                    }
                }
                fs.lemma_cardinality_of_set();
            }
            lemma_in_degree_bound(reverse@, k + 1, module@);
            lemma_refs_monotone(reverse@, k + 1, reverse@.len() as int);
        }
        if key_in_module(&reverse[k].0, &m) {
            let n = distinct_files(&reverse[k].1);
            total = total + n;
        }
        k = k + 1;
    }
    total
}

/// The number of times `module` is a node of one of the cycles.
pub fn module_cycle_count(cycles: &Vec<Cycle>, module: &str) -> (r: usize)
    requires
        nodes_upto(cycles@, cycles@.len() as int) <= usize::MAX,
    ensures
        r == cycle_count_of(cycles@, module@),
{
    let m = chars_of(module);
    let mut total: usize = 0;
    let mut k: usize = 0;
    while k < cycles.len()
        invariant
            k <= cycles.len(),
            m@ == module@,
            nodes_upto(cycles@, cycles@.len() as int) <= usize::MAX,
            total == cycle_count_upto(cycles@, k as int, module@),
        decreases cycles.len() - k,
    {
        let nodes = &cycles[k].nodes;
        let ghost nv = views(nodes@);
        let mut c: usize = 0;
        let mut j: usize = 0;
        proof {
            lemma_cycle_count_bound(cycles@, k + 1, module@);
            lemma_nodes_monotone(cycles@, k + 1, cycles@.len() as int);
            assert(nv.subrange(0, 0) =~= Seq::<Seq<char>>::empty());
        }
        while j < nodes.len()
            invariant
                j <= nodes.len(),
                nv == views(nodes@),
                m@ == module@,
                c == occurrences(nv.subrange(0, j as int), module@),
                total + occurrences(nv, module@) <= usize::MAX,
                total == cycle_count_upto(cycles@, k as int, module@),
            decreases nodes.len() - j,
        {
            proof {
                assert(nv.subrange(0, j + 1).drop_last() =~= nv.subrange(0, j as int));
                lemma_occurrences_prefix(nv, j + 1, module@);
            }
            if same_chars(&chars_of(nodes[j].as_str()), &m) {
                c = c + 1;
            }
            j = j + 1;
        }
        proof {
            assert(nv.subrange(0, j as int) =~= nv);
        }
        total = total + c;
        k = k + 1;
    }
    total
}

proof fn lemma_occurrences_prefix(s: Seq<Seq<char>>, j: int, m: Seq<char>)
    requires
        0 <= j <= s.len(),
    ensures
        occurrences(s.subrange(0, j), m) <= occurrences(s, m),
    decreases s.len() - j,
{
    if j < s.len() {
        lemma_occurrences_prefix(s, j + 1, m);
        assert(s.subrange(0, j + 1).drop_last() =~= s.subrange(0, j));
    } else {
        assert(s.subrange(0, j) =~= s);
    }
}

/// The counts of one module.
pub struct ModuleCounts {
    pub module: String,
    /// Files that refer to the module's symbols.
    pub in_degree: usize,
    /// Import cycles through the module.
    pub cycle_count: usize,
    /// The module has a test file.
    pub has_tests: bool,
}

/// The counts of each module, in order of first appearance in `modules`, each
/// listed once; a module has tests when it is one of `tested`.
pub fn module_counts(
    modules: &Vec<String>,
    reverse: &Vec<(String, Vec<SymbolReference>)>,
    cycles: &Vec<Cycle>,
    tested: &Vec<String>,
) -> (r: Vec<ModuleCounts>)
    requires
        refs_upto(reverse@, reverse@.len() as int) <= usize::MAX,
        nodes_upto(cycles@, cycles@.len() as int) <= usize::MAX,
    ensures
        r@.len() == crate::compat::dedup_first(views(modules@)).len(),
        forall|i: int| 0 <= i < r@.len() ==> {
            let c = #[trigger] r@[i];
            &&& c.module@ == crate::compat::dedup_first(views(modules@))[i]
            &&& c.in_degree == in_degree_of(reverse@, c.module@)
            &&& c.cycle_count == cycle_count_of(cycles@, c.module@)
            &&& c.has_tests == views(tested@).contains(c.module@)
        },
{
    let names = crate::compat::dedup_strings(modules);
    let mut r: Vec<ModuleCounts> = Vec::new();
    let mut i: usize = 0;
    while i < names.len()
        invariant
            i <= names.len(),
            views(names@) == crate::compat::dedup_first(views(modules@)),
            refs_upto(reverse@, reverse@.len() as int) <= usize::MAX,
            nodes_upto(cycles@, cycles@.len() as int) <= usize::MAX,
            r@.len() == i,
            forall|j: int| 0 <= j < i ==> {
                let c = #[trigger] r@[j];
                &&& c.module@ == crate::compat::dedup_first(views(modules@))[j]
                &&& c.in_degree == in_degree_of(reverse@, c.module@)
                &&& c.cycle_count == cycle_count_of(cycles@, c.module@)
                &&& c.has_tests == views(tested@).contains(c.module@)
            },
        decreases names.len() - i,
    {
        let name = &names[i];
        proof {
            assert(views(names@)[i as int] == names@[i as int]@);
        }
        let has_tests = crate::graph::contains_string(tested, name);
        proof {
            assert(crate::graph::string_views(tested@) =~= views(tested@));
        }
        r.push(ModuleCounts {
            module: name.clone(),
            in_degree: module_in_degree(reverse, name.as_str()),
            cycle_count: module_cycle_count(cycles, name.as_str()),
            has_tests,
        });
        i = i + 1;
    }
    r
}

/// The largest value of `f` over the counts, and at least 1.
pub open spec fn max_at_least_one(v: Seq<usize>) -> int
    decreases v.len(),
{
    if v.len() == 0 {
        1
    } else {
        let m = max_at_least_one(v.drop_last());
        if v.last() > m {
            v.last() as int
        } else {
            m
        }
    }
}

/// The largest in-degree over the modules, and at least 1.
pub fn max_in_degree(counts: &Vec<ModuleCounts>) -> (r: usize)
    ensures
        r == max_at_least_one(counts@.map_values(|c: ModuleCounts| c.in_degree)),
        r >= 1,
        forall|i: int| 0 <= i < counts@.len() ==> #[trigger] counts@[i].in_degree <= r,
{
    let ghost ds = counts@.map_values(|c: ModuleCounts| c.in_degree);
    let mut m: usize = 1;
    let mut i: usize = 0;
    proof {
        assert(ds.subrange(0, 0) =~= Seq::<usize>::empty());
    }
    while i < counts.len()
        invariant
            i <= counts.len(),
            ds == counts@.map_values(|c: ModuleCounts| c.in_degree),
            m == max_at_least_one(ds.subrange(0, i as int)),
            m >= 1,
            forall|j: int| 0 <= j < i ==> #[trigger] counts@[j].in_degree <= m,
        decreases counts.len() - i,
    {
        proof {
            assert(ds.subrange(0, i + 1).drop_last() =~= ds.subrange(0, i as int));
        }
        if counts[i].in_degree > m {
            m = counts[i].in_degree;
        }
        i = i + 1;
    }
    proof {
        assert(ds.subrange(0, i as int) =~= ds);
    }
    m
}

/// The largest cycle count over the modules, and at least 1.
pub fn max_cycle_count(counts: &Vec<ModuleCounts>) -> (r: usize)
    ensures
        r == max_at_least_one(counts@.map_values(|c: ModuleCounts| c.cycle_count)),
        r >= 1,
        forall|i: int| 0 <= i < counts@.len() ==> #[trigger] counts@[i].cycle_count <= r,
{
    let ghost ds = counts@.map_values(|c: ModuleCounts| c.cycle_count);
    let mut m: usize = 1;
    let mut i: usize = 0;
    proof {
        assert(ds.subrange(0, 0) =~= Seq::<usize>::empty());
    }
    while i < counts.len()
        invariant
            i <= counts.len(),
            ds == counts@.map_values(|c: ModuleCounts| c.cycle_count),
            m == max_at_least_one(ds.subrange(0, i as int)),
            m >= 1,
            forall|j: int| 0 <= j < i ==> #[trigger] counts@[j].cycle_count <= m,
        decreases counts.len() - i,
    {
        proof {
            assert(ds.subrange(0, i + 1).drop_last() =~= ds.subrange(0, i as int));
        }
        if counts[i].cycle_count > m {
            m = counts[i].cycle_count;
        }
        i = i + 1;
    }
    proof {
        assert(ds.subrange(0, i as int) =~= ds);
    }
    m
}

} // verus!
