//! Module dependency graph: nodes, edges and cycle detection.
use vstd::prelude::*;
pub mod resolve;

verus! {

/// A module in the dependency graph.
pub struct Node {
    pub id: String,
    pub in_degree: usize,
    pub out_degree: usize,
    pub top_dir: String,
    pub dir_path: String,
    pub in_cycle: bool,
}

/// A directed import edge `from -> to`.
pub struct Edge {
    pub from: String,
    pub to: String,
}

/// A cycle, written as the closed walk `n0 -> n1 -> ... -> n0`.
pub struct Cycle {
    pub nodes: Vec<String>,
}

/// Result of [`DependencyGraph::detect_cycles`].
pub struct CycleDetectionResult {
    pub has_cycles: bool,
    pub cycles: Vec<Cycle>,
    pub self_loops: Vec<String>,
}

/// The import graph of a project.
pub struct DependencyGraph {
    pub nodes: Vec<Node>,
    pub edges: Vec<Edge>,
}

/// Marker type for building graphs from a project's files.
pub struct GraphBuilder;

// ---------------------------------------------------------------------------
// Graph model over string ids
// ---------------------------------------------------------------------------

/// `a -> b` is one of the edges.
pub open spec fn is_edge(edges: Seq<Edge>, a: Seq<char>, b: Seq<char>) -> bool {
    exists|i: int| 0 <= i < edges.len() && #[trigger] edges[i].from@ == a && edges[i].to@ == b
}

/// Every step of `w` follows an edge between two different modules.
pub open spec fn is_step_walk(edges: Seq<Edge>, w: Seq<Seq<char>>) -> bool {
    forall|i: int|
        0 <= i < w.len() - 1 ==> #[trigger] w[i] != w[i + 1] && is_edge(edges, w[i], w[i + 1])
}

/// `c` is a simple cycle written as a closed walk: at least two distinct modules,
/// first element repeated at the end, no other repetition.
pub open spec fn is_simple_cycle(edges: Seq<Edge>, c: Seq<Seq<char>>) -> bool {
    &&& c.len() >= 3
    &&& c[0] == c[c.len() - 1]
    &&& is_step_walk(edges, c)
    &&& forall|i: int, j: int| 0 <= i < j < c.len() - 1 ==> c[i] != c[j]
}

/// The ids of the listed nodes.
pub open spec fn node_ids(nodes: Seq<Node>) -> Seq<Seq<char>> {
    nodes.map_values(|n: Node| n.id@)
}

/// Some walk that starts at a listed node (and moves between distinct modules)
/// visits a module twice: the graph has a cycle reachable from a listed node.
pub open spec fn has_reachable_cycle(nodes: Seq<Node>, edges: Seq<Edge>) -> bool {
    exists|w: Seq<Seq<char>>|
        {
            &&& w.len() > 0
            &&& node_ids(nodes).contains(w[0])
            &&& is_step_walk(edges, w)
            &&& exists|i: int, j: int| 0 <= i < j < w.len() && w[i] == w[j]
        }
}

/// The modules with an edge to themselves, in order of their first such edge.
pub open spec fn self_loops_upto(edges: Seq<Edge>, k: int) -> Seq<Seq<char>>
    decreases k,
{
    if k <= 0 {
        Seq::empty()
    } else {
        let prev = self_loops_upto(edges, k - 1);
        let e = edges[k - 1];
        if e.from@ == e.to@ && !prev.contains(e.from@) {
            prev.push(e.from@)
        } else {
            prev
        }
    }
}

pub open spec fn self_loop_ids(edges: Seq<Edge>) -> Seq<Seq<char>> {
    self_loops_upto(edges, edges.len() as int)
}

pub open spec fn string_views(v: Seq<String>) -> Seq<Seq<char>> {
    v.map_values(|s: String| s@)
}

pub open spec fn cycle_views(cs: Seq<Cycle>) -> Seq<Seq<Seq<char>>> {
    cs.map_values(|c: Cycle| string_views(c.nodes@))
}

/// A module lies on a reported cycle or has a self-loop.
pub open spec fn lies_on_cycle(r: CycleDetectionResult, id: Seq<char>) -> bool {
    ||| exists|k: int| 0 <= k < r.cycles.len() && string_views(#[trigger] r.cycles[k].nodes@).contains(id)
    ||| string_views(r.self_loops@).contains(id)
}

// ---------------------------------------------------------------------------
// Index-level depth-first search
// ---------------------------------------------------------------------------

pub open spec fn count_unvisited(s: Seq<bool>) -> nat
    decreases s.len(),
{
    if s.len() == 0 {
        0
    } else {
        count_unvisited(s.drop_last()) + if s.last() { 0nat } else { 1nat }
    }
}

pub open spec fn grows(a: Seq<bool>, b: Seq<bool>) -> bool {
    a.len() == b.len() && forall|i: int| 0 <= i < a.len() && #[trigger] a[i] ==> b[i]
}

proof fn lemma_count_grows(a: Seq<bool>, b: Seq<bool>)
    requires
        grows(a, b),
    ensures
        count_unvisited(b) <= count_unvisited(a),
        (exists|i: int| 0 <= i < a.len() && !a[i] && b[i]) ==> count_unvisited(b) < count_unvisited(
            a,
        ),
    decreases a.len(),
{
    if a.len() > 0 {
        let a2 = a.drop_last();
        let b2 = b.drop_last();
        assert(grows(a2, b2)) by {
            assert forall|i: int| 0 <= i < a2.len() && #[trigger] a2[i] implies b2[i] by {
                assert(a[i]);
            }
        }
        lemma_count_grows(a2, b2);
        if exists|i: int| 0 <= i < a.len() && !a[i] && b[i] {
            let i = choose|i: int| 0 <= i < a.len() && !a[i] && b[i];
            if i < a.len() - 1 {
                assert(!a2[i] && b2[i]);
            }
        }
    }
}

pub open spec fn iedge_of(from: Seq<usize>, to: Seq<usize>, u: int, v: int) -> bool {
    exists|i: int| 0 <= i < from.len() && #[trigger] from[i] == u && to[i] == v
}

pub open spec fn valid_index_cycle(n: int, from: Seq<usize>, to: Seq<usize>, c: Seq<usize>) -> bool {
    &&& c.len() >= 3
    &&& c[0] == c[c.len() - 1]
    &&& forall|i: int| 0 <= i < c.len() ==> #[trigger] c[i] < n
    &&& forall|i: int|
        0 <= i < c.len() - 1 ==> #[trigger] c[i] != c[i + 1] && iedge_of(from, to, c[i] as int, c[i + 1] as int)
    &&& forall|i: int, j: int| 0 <= i < j < c.len() - 1 ==> c[i] != c[j]
}

pub open spec fn is_finished(visited: Seq<bool>, on_stack: Seq<bool>, x: int) -> bool {
    visited[x] && !on_stack[x]
}

proof fn lemma_grows_trans(a: Seq<bool>, b: Seq<bool>, c: Seq<bool>)
    requires
        grows(a, b),
        grows(b, c),
    ensures
        grows(a, c),
{
    assert forall|i: int| 0 <= i < a.len() && #[trigger] a[i] implies c[i] by {
        assert(b[i]);
    }
}

/// The state of the index-level search: which modules were reached, the current
/// search path, and the cycles recorded so far.
#[verifier::ext_equal]
pub struct DfsState {
    pub visited: Seq<bool>,
    pub stack: Seq<usize>,
    pub cycles: Seq<Seq<usize>>,
}

/// The cycle closed by an edge from the end of the path `stack` back to `v`, which
/// lies on the path: the path from `v` onwards, then `v` again.
pub open spec fn back_edge_cycle(stack: Seq<usize>, v: usize) -> Seq<usize> {
    stack.subrange(stack.index_of(v), stack.len() as int).push(v)
}

/// Record the cycle closed by an edge back to `v`, unless it was recorded before.
pub open spec fn record_spec(st: DfsState, v: usize) -> DfsState {
    let c = back_edge_cycle(st.stack, v);
    if st.cycles.contains(c) {
        st
    } else {
        DfsState { visited: st.visited, stack: st.stack, cycles: st.cycles.push(c) }
    }
}

/// Depth-first search from `u` (with `fuel` bounding the depth): mark `u`, put it on
/// the path, follow its edges in order, then take it off the path.
pub open spec fn visit_spec(from: Seq<usize>, to: Seq<usize>, fuel: nat, st: DfsState, u: usize) -> DfsState
    decreases fuel, 0int, 0int,
{
    if fuel == 0 {
        st
    } else {
        let entered = DfsState {
            visited: st.visited.update(u as int, true),
            stack: st.stack.push(u),
            cycles: st.cycles,
        };
        let done = scan_spec(from, to, (fuel - 1) as nat, entered, u, 0);
        DfsState { visited: done.visited, stack: st.stack, cycles: done.cycles }
    }
}

/// Follow the edges of `u` from the `i`-th edge on: an edge to another unvisited
/// module is searched from there; an edge to a module on the path closes a cycle.
pub open spec fn scan_spec(from: Seq<usize>, to: Seq<usize>, fuel: nat, st: DfsState, u: usize, i: int) -> DfsState
    decreases fuel, 1int, from.len() - i,
{
    if i < 0 || i >= from.len() {
        st
    } else {
        let next = if from[i] == u && to[i] != u {
            let v = to[i];
            if !st.visited[v as int] {
                visit_spec(from, to, fuel, st, v)
            } else if st.stack.contains(v) {
                record_spec(st, v)
            } else {
                st
            }
        } else {
            st
        };
        scan_spec(from, to, fuel, next, u, i + 1)
    }
}

/// Search from each of `starts`, from the `k`-th on, that was not reached before.
pub open spec fn search_spec(from: Seq<usize>, to: Seq<usize>, n: nat, starts: Seq<usize>, st: DfsState, k: int) -> DfsState
    decreases starts.len() - k,
{
    if k < 0 || k >= starts.len() {
        st
    } else {
        let u = starts[k];
        let next = if !st.visited[u as int] { visit_spec(from, to, n, st, u) } else { st };
        search_spec(from, to, n, starts, next, k + 1)
    }
}

/// `names` with `s` added at the end, unless it is there already.
pub open spec fn push_new(names: Seq<Seq<char>>, s: Seq<char>) -> Seq<Seq<char>> {
    if names.contains(s) { names } else { names.push(s) }
}

/// The module names in order of first mention: the first `k` nodes.
pub open spec fn names_of_nodes(nodes: Seq<Node>, k: int) -> Seq<Seq<char>>
    decreases k,
{
    if k <= 0 { Seq::empty() } else { push_new(names_of_nodes(nodes, k - 1), nodes[k - 1].id@) }
}

/// The module names in order of first mention: all nodes, then the ends of the
/// first `e` edges.
pub open spec fn names_with_edges(nodes: Seq<Node>, edges: Seq<Edge>, e: int) -> Seq<Seq<char>>
    decreases e,
{
    if e <= 0 {
        names_of_nodes(nodes, nodes.len() as int)
    } else {
        push_new(push_new(names_with_edges(nodes, edges, e - 1), edges[e - 1].from@), edges[e - 1].to@)
    }
}

/// Every module of the graph, numbered in order of first mention.
pub open spec fn module_names(nodes: Seq<Node>, edges: Seq<Edge>) -> Seq<Seq<char>> {
    names_with_edges(nodes, edges, edges.len() as int)
}

/// The number of module `s` among `names`.
pub open spec fn number_of(names: Seq<Seq<char>>, s: Seq<char>) -> usize {
    names.index_of(s) as usize
}

/// The edges as pairs of module numbers.
pub open spec fn edge_sources(names: Seq<Seq<char>>, edges: Seq<Edge>) -> Seq<usize> {
    edges.map_values(|e: Edge| number_of(names, e.from@))
}

pub open spec fn edge_targets(names: Seq<Seq<char>>, edges: Seq<Edge>) -> Seq<usize> {
    edges.map_values(|e: Edge| number_of(names, e.to@))
}

/// The state before any search: nothing reached, empty path, no cycle.
pub open spec fn fresh_search(n: nat) -> DfsState {
    DfsState { visited: Seq::new(n, |i: int| false), stack: Seq::empty(), cycles: Seq::empty() }
}

/// The cycles that the search finds: a depth-first search from each node in node
/// order that was not reached before, following each module's edges in edge order;
/// every edge to a module on the current path closes the cycle from that module
/// along the path back to it, recorded once, in the order found.
pub open spec fn found_cycles(nodes: Seq<Node>, edges: Seq<Edge>) -> Seq<Seq<Seq<char>>> {
    let names = module_names(nodes, edges);
    let starts = nodes.map_values(|x: Node| number_of(names, x.id@));
    let done = search_spec(
        edge_sources(names, edges),
        edge_targets(names, edges),
        names.len(),
        starts,
        fresh_search(names.len()),
        0,
    );
    done.cycles.map_values(|c: Seq<usize>| c.map_values(|x: usize| names[x as int]))
}

/// A path of distinct module numbers below `n` has at most `n` entries.
proof fn lemma_distinct_below(s: Seq<usize>, n: int)
    requires
        0 <= n,
        forall|i: int| 0 <= i < s.len() ==> #[trigger] s[i] < n,
        forall|i: int, j: int| 0 <= i < j < s.len() ==> s[i] != s[j],
    ensures
        s.len() <= n,
{
    let t = s.map_values(|x: usize| x as int);
    assert(t.no_duplicates()) by {
        assert forall|i: int, j: int| 0 <= i < t.len() && 0 <= j < t.len() && i != j implies t[i] != t[j] by {
            if i < j {
                assert(s[i] != s[j]);
            } else {
                assert(s[j] != s[i]);
            }
        }
    }
    t.unique_seq_to_set();
    vstd::set_lib::lemma_int_range(0, n);
    assert(t.to_set().subset_of(vstd::set_lib::set_int_range(0, n))) by {
        assert forall|x: int| t.to_set().contains(x) implies vstd::set_lib::set_int_range(0, n).contains(x) by {
            let i = choose|i: int| 0 <= i < t.len() && t[i] == x;
            assert(s[i] < n);
        }
    }
    vstd::set_lib::lemma_len_subset(t.to_set(), vstd::set_lib::set_int_range(0, n));
    assert(t.len() == t.to_set().len());
    assert(t.to_set().len() <= n);
    assert(t.len() == s.len());
}

struct Search {
    from: Vec<usize>,
    to: Vec<usize>,
    n: usize,
    visited: Vec<bool>,
    on_stack: Vec<bool>,
    stack: Vec<usize>,
    cycles: Vec<Vec<usize>>,
    fin: Ghost<Seq<int>>,
    clock: Ghost<int>,
}

impl Search {
    spec fn abs(&self) -> DfsState {
        DfsState {
            visited: self.visited@,
            stack: self.stack@,
            cycles: self.cycles@.map_values(|c: Vec<usize>| c@),
        }
    }

    spec fn iedge(&self, u: int, v: int) -> bool {
        iedge_of(self.from@, self.to@, u, v)
    }

    spec fn finished(&self, x: int) -> bool {
        is_finished(self.visited@, self.on_stack@, x)
    }

    spec fn valid_cycle(&self, c: Seq<usize>) -> bool {
        valid_index_cycle(self.n as int, self.from@, self.to@, c)
    }

    spec fn inv(&self) -> bool {
        &&& self.from.len() == self.to.len()
        &&& forall|i: int| 0 <= i < self.from.len() ==> #[trigger] self.from@[i] < self.n
        &&& forall|i: int| 0 <= i < self.to.len() ==> #[trigger] self.to@[i] < self.n
        &&& self.visited.len() == self.n
        &&& self.on_stack.len() == self.n
        &&& self.fin@.len() == self.n
        &&& 0 <= self.clock@
        // the stack is a simple path of visited nodes, mirrored by `on_stack`
        &&& forall|i: int| 0 <= i < self.stack.len() ==> #[trigger] self.stack@[i] < self.n
        &&& forall|i: int, j: int| 0 <= i < j < self.stack.len() ==> self.stack@[i] != self.stack@[j]
        &&& forall|x: int| 0 <= x < self.n ==> (#[trigger] self.on_stack@[x] <==> self.stack@.contains(x as usize))
        &&& forall|i: int| 0 <= i < self.stack.len() ==> #[trigger] self.visited@[self.stack@[i] as int]
        &&& forall|i: int|
            0 <= i < self.stack.len() - 1 ==> #[trigger] self.stack@[i] != self.stack@[i + 1]
                && self.iedge(self.stack@[i] as int, self.stack@[i + 1] as int)
        // finished nodes carry a finishing time before the clock
        &&& forall|x: int| 0 <= x < self.n && #[trigger] self.finished(x) ==> 0 <= self.fin@[x] < self.clock@
        // every recorded cycle is a genuine simple cycle, and none is recorded twice
        &&& forall|k: int| 0 <= k < self.cycles.len() ==> self.valid_cycle(#[trigger] self.cycles@[k]@)
        &&& forall|k: int, l: int| 0 <= k < l < self.cycles.len() ==> self.cycles@[k]@ != self.cycles@[l]@
        // as long as no cycle was found, finishing times decrease along every edge out of a finished node
        &&& self.cycles.len() == 0 ==> forall|x: int, v: int|
            0 <= x < self.n && 0 <= v < self.n && #[trigger] self.finished(x) && #[trigger] self.iedge(x, v) && x != v
                ==> self.finished(v) && self.fin@[v] < self.fin@[x]
    }

    /// What a nested search leaves alone.
    spec fn keeps(&self, old: &Search) -> bool {
        &&& self.from@ == old.from@
        &&& self.to@ == old.to@
        &&& self.n == old.n
        &&& self.stack@ == old.stack@
        &&& self.on_stack@ == old.on_stack@
        &&& grows(old.visited@, self.visited@)
        &&& old.clock@ <= self.clock@
        &&& forall|x: int| 0 <= x < old.n && old.finished(x) ==> #[trigger] self.fin@[x] == old.fin@[x]
        &&& old.cycles@.len() <= self.cycles@.len()
        &&& forall|k: int| 0 <= k < old.cycles.len() ==> #[trigger] self.cycles@[k] == old.cycles@[k]
    }

    fn same_path(a: &Vec<usize>, b: &Vec<usize>) -> (r: bool)
        ensures
            r == (a@ == b@),
    {
        if a.len() != b.len() {
            return false;
        }
        let mut i: usize = 0;
        while i < a.len()
            invariant
                a.len() == b.len(),
                i <= a.len(),
                forall|j: int| 0 <= j < i ==> a@[j] == b@[j],
            decreases a.len() - i,
        {
            if a[i] != b[i] {
                return false;
            }
            i = i + 1;
        }
        proof {
            assert(a@ =~= b@);
        }
        true
    }

    /// Record the cycle closed by the back edge `top -> v`, where `v` is on the stack.
    #[verifier::spinoff_prover]
    #[verifier::rlimit(30)]
    fn record_cycle(&mut self, v: usize, Ghost(i): Ghost<int>)
        requires
            old(self).inv(),
            v < old(self).n,
            old(self).on_stack@[v as int],
            old(self).stack.len() > 0,
            0 <= i < old(self).from.len(),
            old(self).from@[i] == old(self).stack@[old(self).stack.len() - 1],
            old(self).to@[i] == v,
            v != old(self).stack@[old(self).stack.len() - 1],
        ensures
            final(self).inv(),
            final(self).cycles.len() > 0,
            final(self).from@ == old(self).from@,
            final(self).to@ == old(self).to@,
            final(self).n == old(self).n,
            final(self).stack@ == old(self).stack@,
            final(self).on_stack@ == old(self).on_stack@,
            final(self).visited@ == old(self).visited@,
            final(self).fin@ == old(self).fin@,
            final(self).clock@ == old(self).clock@,
            old(self).cycles@.len() <= final(self).cycles@.len(),
            forall|k: int| 0 <= k < old(self).cycles.len() ==> #[trigger] final(self).cycles@[k] == old(self).cycles@[k],
            final(self).abs() == record_spec(old(self).abs(), v),
    {
        let ghost a0 = self.abs();
        let ghost s = self.stack@;
        let mut pos: usize = 0;
        proof {
            assert(s.contains(v));
        }
        while self.stack[pos] != v
            invariant
                self.inv(),
                s == self.stack@,
                pos < self.stack.len(),
                s.contains(v),
                forall|j: int| 0 <= j < pos ==> s[j] != v,
            decreases self.stack.len() - pos,
        {
            pos = pos + 1;
            proof {
                if pos == self.stack.len() {
                    let j = choose|j: int| 0 <= j < s.len() && s[j] == v;
                    assert(false);
                }
            }
        }
        proof {
            let j = s.index_of(v);
            assert(0 <= j < s.len() && s[j] == v);
            if j < pos {
                assert(s[j] != v);
            } else if pos < j {
                assert(s[pos as int] != s[j]);
            }
        }
        let mut c: Vec<usize> = Vec::new();
        let mut k: usize = pos;
        while k < self.stack.len()
            invariant
                self.inv(),
                s == self.stack@,
                pos <= k <= self.stack.len(),
                c@ == s.subrange(pos as int, k as int),
            decreases self.stack.len() - k,
        {
            c.push(self.stack[k]);
            k = k + 1;
            proof {
                assert(c@ =~= s.subrange(pos as int, k as int));
            }
        }
        c.push(v);
        proof {
            let top = s.len() - 1;
            assert(pos < top) by {
                if pos == top {
                    assert(s[top] == v);
                }
            }
            let cs = c@;
            assert(cs.len() == s.len() - pos + 1);
            assert(cs[0] == v);
            assert forall|a: int| 0 <= a < cs.len() implies #[trigger] cs[a] < self.n by {
                if a < cs.len() - 1 {
                    assert(cs[a] == s[pos + a]);
                }
            }
            assert forall|a: int|
                0 <= a < cs.len() - 1 implies #[trigger] cs[a] != cs[a + 1] && self.iedge(
                    cs[a] as int,
                    cs[a + 1] as int,
                ) by {
                assert(cs[a] == s[pos + a]);
                if a < cs.len() - 2 {
                    assert(cs[a + 1] == s[pos + a + 1]);
                } else {
                    assert(pos + a == top);
                    assert(self.from@[i] == cs[a] && self.to@[i] == cs[a + 1]);
                }
            }
            assert forall|a: int, b: int| 0 <= a < b < cs.len() - 1 implies cs[a] != cs[b] by {
                assert(cs[a] == s[pos + a]);
                assert(cs[b] == s[pos + b]);
            }
            assert(self.valid_cycle(cs));
            assert(cs =~= back_edge_cycle(s, v));
        }
        let mut dup = false;
        let mut k: usize = 0;
        while k < self.cycles.len()
            invariant
                self.inv(),
                self.valid_cycle(c@),
                k <= self.cycles.len(),
                !dup ==> forall|j: int| 0 <= j < k ==> self.cycles@[j]@ != c@,
                dup ==> exists|j: int| 0 <= j < self.cycles.len() && self.cycles@[j]@ == c@,
            decreases self.cycles.len() - k,
        {
            if Self::same_path(&self.cycles[k], &c) {
                dup = true;
            }
            k = k + 1;
        }
        proof {
            if dup {
                let j = choose|j: int| 0 <= j < self.cycles.len() && self.cycles@[j]@ == c@;
                assert(a0.cycles[j] == c@);
                assert(a0.cycles.contains(c@));
                assert(self.abs() =~= a0);
            } else {
                assert forall|j: int| 0 <= j < a0.cycles.len() implies a0.cycles[j] != c@ by {
                    assert(a0.cycles[j] == self.cycles@[j]@);
                }
                assert(!a0.cycles.contains(c@));
            }
        }
        if !dup {
            let ghost old_cycles = self.cycles@;
            let ghost pre = *self;
            let ghost cv = c@;
            self.cycles.push(c);
            proof {
                assert(self.abs().cycles =~= a0.cycles.push(cv));
                assert(self.abs() =~= record_spec(a0, v));
                assert forall|x: int| 0 <= x < self.n && #[trigger] self.finished(x) implies 0 <= self.fin@[x] < self.clock@ by {
                    assert(pre.finished(x));
                }
                assert forall|a: int, b: int| 0 <= a < b < self.cycles.len() implies self.cycles@[a]@
                    != self.cycles@[b]@ by {
                    if b == self.cycles.len() - 1 {
                        assert(old_cycles[a]@ != c@);
                    }
                }
                assert forall|k2: int| 0 <= k2 < self.cycles.len() implies self.valid_cycle(
                    #[trigger] self.cycles@[k2]@,
                ) by {
                    if k2 < old_cycles.len() {
                        assert(self.cycles@[k2] == old_cycles[k2]);
                    } else {
                        assert(self.cycles@[k2] == c);
                    }
                }
            }
        }
    }

    /// Depth-first search from the unvisited node `u`.
    #[verifier::spinoff_prover]
    #[verifier::rlimit(60)]
    fn visit(&mut self, u: usize, Ghost(budget): Ghost<nat>, Ghost(fuel): Ghost<nat>)
        requires
            fuel == old(self).n - old(self).stack.len(),
            old(self).inv(),
            u < old(self).n,
            !old(self).visited@[u as int],
            count_unvisited(old(self).visited@) <= budget,
            old(self).stack.len() > 0 ==> {
                let top = old(self).stack@[old(self).stack.len() - 1] as int;
                top != u && old(self).iedge(top, u as int)
            },
        ensures
            final(self).inv(),
            final(self).keeps(old(self)),
            final(self).visited@[u as int],
            final(self).abs() == visit_spec(old(self).from@, old(self).to@, fuel, old(self).abs(), u),
        decreases budget,
    {
        let ghost old_self = *self;
        proof {
            let p = old_self.stack@.push(u);
            assert forall|i: int, j: int| 0 <= i < j < p.len() implies p[i] != p[j] by {
                if j == p.len() - 1 {
                    assert(old_self.visited@[old_self.stack@[i] as int]);
                } else {
                    assert(old_self.stack@[i] != old_self.stack@[j]);
                }
            }
            assert forall|i: int| 0 <= i < p.len() implies #[trigger] p[i] < old_self.n by {
                if i < p.len() - 1 {
                    assert(old_self.stack@[i] < old_self.n);
                }
            }
            lemma_distinct_below(p, old_self.n as int);
        }
        self.visited.set(u, true);
        self.on_stack.set(u, true);
        self.stack.push(u);
        proof {
            assert forall|x: int| 0 <= x < self.n implies (#[trigger] self.on_stack@[x] <==> self.stack@.contains(x as usize)) by {
                if x == u {
                    assert(self.stack@[self.stack.len() - 1] == u);
                } else {
                    assert(old_self.on_stack@[x] <==> old_self.stack@.contains(x as usize));
                    if old_self.stack@.contains(x as usize) {
                        let j = choose|j: int| 0 <= j < old_self.stack.len() && old_self.stack@[j] == x as usize;
                        assert(self.stack@[j] == x);
                    }
                    if self.stack@.contains(x as usize) {
                        let j = choose|j: int| 0 <= j < self.stack.len() && self.stack@[j] == x as usize;
                        assert(j < old_self.stack.len());
                        assert(old_self.stack@[j] == x);
                    }
                }
            }
            assert forall|i: int, j: int| 0 <= i < j < self.stack.len() implies self.stack@[i] != self.stack@[j] by {
                if j == self.stack.len() - 1 {
                    assert(old_self.visited@[old_self.stack@[i] as int]);
                }
            }
            assert forall|i: int| 0 <= i < self.stack.len() implies #[trigger] self.visited@[self.stack@[i] as int] by {
                if i < old_self.stack.len() {
                    assert(old_self.visited@[old_self.stack@[i] as int]);
                }
            }
            assert forall|i: int|
                0 <= i < self.stack.len() - 1 implies #[trigger] self.stack@[i] != self.stack@[i + 1]
                    && self.iedge(self.stack@[i] as int, self.stack@[i + 1] as int) by {
                if i < old_self.stack.len() - 1 {
                    assert(old_self.stack@[i] != old_self.stack@[i + 1]);
                    assert(old_self.iedge(old_self.stack@[i] as int, old_self.stack@[i + 1] as int));
                }
            }
            assert forall|x: int| 0 <= x < self.n && #[trigger] self.finished(x) implies 0 <= self.fin@[x] < self.clock@ by {
                assert(old_self.finished(x));
            }
            assert(self.cycles.len() == 0 ==> forall|x: int, v: int|
                0 <= x < self.n && 0 <= v < self.n && #[trigger] self.finished(x) && #[trigger] self.iedge(x, v) && x != v
                    ==> self.finished(v) && self.fin@[v] < self.fin@[x]) by {
                if self.cycles.len() == 0 {
                    assert forall|x: int, v: int|
                        0 <= x < self.n && 0 <= v < self.n && #[trigger] self.finished(x) && #[trigger] self.iedge(x, v) && x != v
                        implies self.finished(v) && self.fin@[v] < self.fin@[x] by {
                        assert(old_self.finished(x));
                        assert(old_self.iedge(x, v));
                    }
                }
            }
            assert(!old_self.visited@[u as int] && self.visited@[u as int]);
            lemma_count_grows(old_self.visited@, self.visited@);
            assert(grows(old_self.visited@, self.visited@));
        }
        let ghost entry = *self;
        proof {
            assert(entry.abs() =~= DfsState {
                visited: old_self.abs().visited.update(u as int, true),
                stack: old_self.abs().stack.push(u),
                cycles: old_self.abs().cycles,
            });
        }
        let m = self.from.len();
        let mut i: usize = 0;
        while i < m
            invariant
                self.inv(),
                self.keeps(&entry),
                m == self.from.len(),
                i <= m,
                u < self.n,
                self.stack.len() > 0,
                self.stack@[self.stack.len() - 1] == u,
                self.visited@[u as int],
                count_unvisited(self.visited@) < budget,
                self.cycles.len() == 0 ==> forall|j: int|
                    0 <= j < i && #[trigger] self.from@[j] == u && self.to@[j] != u ==> self.finished(
                        self.to@[j] as int,
                    ) && self.fin@[self.to@[j] as int] < self.clock@,
                fuel > 0,
                fuel - 1 == self.n - self.stack.len(),
                scan_spec(self.from@, self.to@, (fuel - 1) as nat, self.abs(), u, i as int)
                    == scan_spec(entry.from@, entry.to@, (fuel - 1) as nat, entry.abs(), u, 0),
            decreases m - i,
        {
            let ghost pre = self.abs();
            proof {
                assert(pre.stack == self.stack@);
            }
            if self.from[i] == u {
                let v = self.to[i];
                if v != u {
                    if !self.visited[v] {
                        let ghost before = *self;
                        proof {
                            assert(self.iedge(u as int, v as int));
                        }
                        self.visit(v, Ghost(count_unvisited(self.visited@)), Ghost((fuel - 1) as nat));
                        proof {
                            lemma_count_grows(before.visited@, self.visited@);
                            assert forall|x: int| 0 <= x < entry.n && entry.finished(x) implies #[trigger] self.fin@[x] == entry.fin@[x] by {
                                assert(before.finished(x));
                                assert(before.fin@[x] == entry.fin@[x]);
                                assert(self.fin@[x] == before.fin@[x]);
                            }
                            assert(self.finished(v as int));
                            if self.cycles.len() == 0 {
                                assert(before.cycles.len() == 0);
                                assert forall|j: int|
                                    0 <= j < i + 1 && #[trigger] self.from@[j] == u && self.to@[j] != u implies self.finished(
                                        self.to@[j] as int,
                                    ) && self.fin@[self.to@[j] as int] < self.clock@ by {
                                    if j < i {
                                        assert(before.finished(before.to@[j] as int));
                                    }
                                }
                            }
                        }
                    } else if self.on_stack[v] {
                        proof {
                            assert(pre.stack.contains(v));
                        }
                        self.record_cycle(v, Ghost(i as int));
                    } else {
                        proof {
                            assert(self.finished(v as int));
                            assert(!pre.stack.contains(v));
                        }
                    }
                }
            }
            proof {
                assert(scan_spec(self.from@, self.to@, (fuel - 1) as nat, pre, u, i as int)
                    == scan_spec(self.from@, self.to@, (fuel - 1) as nat, self.abs(), u, i + 1));
            }
            i = i + 1;
        }
        proof {
            assert(scan_spec(self.from@, self.to@, (fuel - 1) as nat, self.abs(), u, m as int) == self.abs());
        }
        let ghost before_pop = *self;
        self.stack.pop();
        self.on_stack.set(u, false);
        proof {
            self.fin@ = self.fin@.update(u as int, self.clock@);
            self.clock@ = self.clock@ + 1;
            assert(self.stack@ == entry.stack@.drop_last());
            assert(self.stack@ =~= old_self.stack@);
            assert(self.on_stack@ =~= old_self.on_stack@) by {
                assert forall|x: int| 0 <= x < self.n implies self.on_stack@[x] == old_self.on_stack@[x] by {
                    if x != u {
                        assert(before_pop.on_stack@[x] <==> before_pop.stack@.contains(x as usize));
                        assert(old_self.on_stack@[x] <==> old_self.stack@.contains(x as usize));
                        if old_self.stack@.contains(x as usize) {
                            let j = choose|j: int| 0 <= j < old_self.stack.len() && old_self.stack@[j] == x as usize;
                            assert(before_pop.stack@[j] == x);
                        }
                        if before_pop.stack@.contains(x as usize) {
                            let j = choose|j: int| 0 <= j < before_pop.stack.len() && before_pop.stack@[j] == x as usize;
                            assert(j < before_pop.stack.len() - 1);
                            assert(old_self.stack@[j] == x);
                        }
                    } else {
                        assert(!old_self.on_stack@[x]);
                    }
                }
            }
            assert forall|x: int| 0 <= x < self.n && #[trigger] self.finished(x) implies 0 <= self.fin@[x] < self.clock@ by {
                if x != u {
                    assert(before_pop.visited@[x] == self.visited@[x]);
                    assert(before_pop.on_stack@[x] == self.on_stack@[x]);
                    assert(before_pop.finished(x));
                    assert(self.fin@[x] == before_pop.fin@[x]);
                }
            }
            assert forall|x: int| 0 <= x < old_self.n && old_self.finished(x) implies #[trigger] self.fin@[x] == old_self.fin@[x] by {
                assert(x != u);
                assert(entry.finished(x));
            }
            if self.cycles.len() == 0 {
                assert forall|x: int, v: int|
                    0 <= x < self.n && 0 <= v < self.n && #[trigger] self.finished(x) && #[trigger] self.iedge(x, v) && x != v
                    implies self.finished(v) && self.fin@[v] < self.fin@[x] by {
                    if x == u {
                        let j = choose|j: int| 0 <= j < self.from.len() && #[trigger] self.from@[j] == x && self.to@[j] == v;
                        assert(before_pop.from@[j] == u && before_pop.to@[j] != u);
                        assert(before_pop.finished(v));
                    } else {
                        assert(before_pop.finished(x));
                        assert(before_pop.iedge(x, v));
                        if v == u {
                            // u was on the stack while x was finished: impossible edge case is
                            // excluded because finished nodes only point to finished nodes.
                            assert(before_pop.finished(v));
                        }
                    }
                }
            }
            lemma_grows_trans(old_self.visited@, entry.visited@, self.visited@);
            assert(self.abs() =~= DfsState {
                visited: before_pop.abs().visited,
                stack: old_self.abs().stack,
                cycles: before_pop.abs().cycles,
            });
        }
    }
}


// ---------------------------------------------------------------------------
// From string ids to indices and back
// ---------------------------------------------------------------------------

pub open spec fn distinct_views(ids: Seq<String>) -> bool {
    forall|i: int, j: int| 0 <= i < j < ids.len() ==> ids[i]@ != ids[j]@
}

/// Position of `s` in `v`, compared by value.
pub fn position_of(v: &Vec<String>, s: &String) -> (r: Option<usize>)
    ensures
        match r {
            Some(i) => i < v.len() && v@[i as int]@ == s@,
            None => !string_views(v@).contains(s@),
        },
{
    let mut i: usize = 0;
    while i < v.len()
        invariant
            i <= v.len(),
            forall|j: int| 0 <= j < i ==> v@[j]@ != s@,
        decreases v.len() - i,
    {
        if v[i] == *s {
            return Some(i);
        }
        i = i + 1;
    }
    proof {
        if string_views(v@).contains(s@) {
            let j = choose|j: int| 0 <= j < v.len() && string_views(v@)[j] == s@;
            assert(v@[j]@ == s@);
        }
    }
    None
}

/// Whether `s` occurs in `v`, compared by value.
pub fn contains_string(v: &Vec<String>, s: &String) -> (r: bool)
    ensures
        r == string_views(v@).contains(s@),
{
    match position_of(v, s) {
        Some(i) => {
            proof {
                assert(string_views(v@)[i as int] == s@);
            }
            true
        },
        None => false,
    }
}

fn intern(ids: &mut Vec<String>, s: &String) -> (r: usize)
    requires
        distinct_views(old(ids)@),
    ensures
        distinct_views(final(ids)@),
        r < final(ids).len(),
        final(ids)@[r as int]@ == s@,
        old(ids).len() <= final(ids).len(),
        forall|i: int| 0 <= i < old(ids).len() ==> #[trigger] final(ids)@[i] == old(ids)@[i],
        final(ids).len() <= old(ids).len() + 1,
        string_views(final(ids)@) == push_new(string_views(old(ids)@), s@),
{
    match position_of(ids, s) {
        Some(i) => {
            proof {
                assert(string_views(ids@)[i as int] == s@);
            }
            i
        },
        None => {
            let ghost before = ids@;
            ids.push(s.clone());
            proof {
                assert forall|i: int, j: int| 0 <= i < j < ids.len() implies ids@[i]@ != ids@[j]@ by {
                    if j == ids.len() - 1 {
                        assert(string_views(before)[i] == before[i]@);
                    }
                }
                assert(string_views(ids@) =~= string_views(before).push(s@));
            }
            ids.len() - 1
        },
    }
}

fn strings_at(ids: &Vec<String>, c: &Vec<usize>) -> (r: Vec<String>)
    requires
        forall|i: int| 0 <= i < c.len() ==> #[trigger] c@[i] < ids.len(),
    ensures
        r.len() == c.len(),
        forall|i: int| 0 <= i < c.len() ==> #[trigger] r@[i]@ == ids@[c@[i] as int]@,
{
    let mut r: Vec<String> = Vec::new();
    let mut i: usize = 0;
    while i < c.len()
        invariant
            i <= c.len(),
            forall|k: int| 0 <= k < c.len() ==> #[trigger] c@[k] < ids.len(),
            r.len() == i,
            forall|k: int| 0 <= k < i ==> #[trigger] r@[k]@ == ids@[c@[k] as int]@,
        decreases c.len() - i,
    {
        r.push(ids[c[i]].clone());
        i = i + 1;
    }
    r
}

/// The index of the module named `s`, for a name that occurs in `ids`.
spec fn index_in(ids: Seq<String>, s: Seq<char>) -> int {
    choose|x: int| 0 <= x < ids.len() && ids[x]@ == s
}

/// Along a walk out of a finished node of a search that found no cycle, finishing
/// times strictly decrease, so no module repeats.
proof fn lemma_walk_decreases(
    srch: &Search,
    ids: Seq<String>,
    edges: Seq<Edge>,
    w: Seq<Seq<char>>,
    t: int,
)
    requires
        srch.inv(),
        srch.cycles.len() == 0,
        srch.stack.len() == 0,
        ids.len() == srch.n,
        distinct_views(ids),
        srch.from.len() == edges.len(),
        forall|e: int| 0 <= e < edges.len() ==> ids[#[trigger] srch.from@[e] as int]@ == edges[e].from@,
        forall|e: int| 0 <= e < edges.len() ==> ids[#[trigger] srch.to@[e] as int]@ == edges[e].to@,
        is_step_walk(edges, w),
        0 <= t < w.len(),
        exists|x: int| 0 <= x < ids.len() && ids[x]@ == w[0] && srch.visited@[x],
    ensures
        0 <= index_in(ids, w[t]) < ids.len(),
        ids[index_in(ids, w[t])]@ == w[t],
        srch.finished(index_in(ids, w[t])),
        forall|s: int| 0 <= s < t ==> srch.fin@[index_in(ids, w[t])] < srch.fin@[#[trigger] index_in(ids, w[s])],
    decreases t,
{
    if t == 0 {
        let x = choose|x: int| 0 <= x < ids.len() && ids[x]@ == w[0] && srch.visited@[x];
        assert(srch.on_stack@[x] <==> srch.stack@.contains(x as usize));
    } else {
        lemma_walk_decreases(srch, ids, edges, w, t - 1);
        let a = index_in(ids, w[t - 1]);
        assert(w[t - 1] != w[t] && is_edge(edges, w[t - 1], w[t]));
        let e = choose|e: int| 0 <= e < edges.len() && #[trigger] edges[e].from@ == w[t - 1] && edges[e].to@ == w[t];
        let fx = srch.from@[e] as int;
        let tx = srch.to@[e] as int;
        assert(ids[fx]@ == w[t - 1]);
        assert(fx == a) by {
            if fx < a {
                assert(ids[fx]@ != ids[a]@);
            } else if a < fx {
                assert(ids[a]@ != ids[fx]@);
            }
        }
        assert(ids[tx]@ == w[t]);
        assert(srch.iedge(a, tx));
        assert(tx != a);
        assert(srch.finished(tx) && srch.fin@[tx] < srch.fin@[a]);
        let b = index_in(ids, w[t]);
        assert(b == tx) by {
            if tx < b {
                assert(ids[tx]@ != ids[b]@);
            } else if b < tx {
                assert(ids[b]@ != ids[tx]@);
            }
        }
        assert forall|s: int| 0 <= s < t implies srch.fin@[b] < srch.fin@[#[trigger] index_in(ids, w[s])] by {
            if s < t - 1 {
                assert(srch.fin@[a] < srch.fin@[index_in(ids, w[s])]);
            }
        }
    }
}

/// In a list of distinct names, the number of a listed name is its position.
proof fn lemma_number_of(ids: Seq<String>, x: int, s: Seq<char>)
    requires
        distinct_views(ids),
        0 <= x < ids.len(),
        x <= usize::MAX,
        ids[x]@ == s,
    ensures
        number_of(string_views(ids), s) == x,
{
    let names = string_views(ids);
    assert(names[x] == s);
    let i = names.index_of(s);
    assert(0 <= i < names.len() && names[i] == s);
    if i < x {
        assert(ids[i]@ != ids[x]@);
    } else if x < i {
        assert(ids[x]@ != ids[i]@);
    }
}

pub open spec fn same_but_flag(a: Node, b: Node) -> bool {
    &&& a.id == b.id
    &&& a.in_degree == b.in_degree
    &&& a.out_degree == b.out_degree
    &&& a.top_dir == b.top_dir
    &&& a.dir_path == b.dir_path
}

impl DependencyGraph {
    /// Find the import cycles by depth-first search from each node, in node order.
    ///
    /// The reported cycles are exactly those of [`found_cycles`]: each edge that leads
    /// back to a module on the current search path closes one cycle, recorded once,
    /// in the order found. Every reported cycle is a simple cycle of the graph written
    /// as a closed walk; when some cycle is reachable from a node, at least one cycle
    /// is reported. Self-loops are reported apart, and each node is marked as lying on
    /// a cycle exactly when it lies on a reported cycle or has a self-loop.
    pub fn detect_cycles(&mut self) -> (r: CycleDetectionResult)
        ensures
            final(self).edges@ == old(self).edges@,
            final(self).nodes.len() == old(self).nodes.len(),
            forall|i: int|
                0 <= i < old(self).nodes.len() ==> same_but_flag(#[trigger] final(self).nodes@[i], old(self).nodes@[i])
                    && final(self).nodes@[i].in_cycle == lies_on_cycle(r, old(self).nodes@[i].id@),
            string_views(r.self_loops@) == self_loop_ids(old(self).edges@),
            forall|k: int| 0 <= k < r.cycles.len() ==> is_simple_cycle(old(self).edges@, #[trigger] cycle_views(r.cycles@)[k]),
            forall|k: int, l: int| 0 <= k < l < r.cycles.len() ==> cycle_views(r.cycles@)[k] != cycle_views(r.cycles@)[l],
            has_reachable_cycle(old(self).nodes@, old(self).edges@) ==> r.cycles.len() > 0,
            r.has_cycles == (r.cycles.len() > 0 || r.self_loops.len() > 0),
            cycle_views(r.cycles@) == found_cycles(old(self).nodes@, old(self).edges@),
    {
        // number the modules
        let mut ids: Vec<String> = Vec::new();
        let mut node_idx: Vec<usize> = Vec::new();
        let mut k: usize = 0;
        while k < self.nodes.len()
            invariant
                k <= self.nodes.len(),
                distinct_views(ids@),
                node_idx.len() == k,
                forall|j: int| 0 <= j < k ==> #[trigger] node_idx@[j] < ids.len() && ids@[node_idx@[j] as int]@ == self.nodes@[j].id@,
                string_views(ids@) == names_of_nodes(self.nodes@, k as int),
            decreases self.nodes.len() - k,
        {
            let ghost before = ids@;
            let x = intern(&mut ids, &self.nodes[k].id);
            node_idx.push(x);
            proof {
                assert forall|j: int| 0 <= j < k + 1 implies #[trigger] node_idx@[j] < ids.len() && ids@[node_idx@[j] as int]@ == self.nodes@[j].id@ by {
                    if j < k {
                        assert(ids@[node_idx@[j] as int] == before[node_idx@[j] as int]);
                    }
                }
            }
            k = k + 1;
        }
        let mut from: Vec<usize> = Vec::new();
        let mut to: Vec<usize> = Vec::new();
        let mut e: usize = 0;
        while e < self.edges.len()
            invariant
                e <= self.edges.len(),
                distinct_views(ids@),
                forall|j: int| 0 <= j < self.nodes.len() ==> #[trigger] node_idx@[j] < ids.len() && ids@[node_idx@[j] as int]@ == self.nodes@[j].id@,
                node_idx.len() == self.nodes.len(),
                from.len() == e,
                to.len() == e,
                forall|j: int| 0 <= j < e ==> #[trigger] from@[j] < ids.len() && ids@[from@[j] as int]@ == self.edges@[j].from@,
                forall|j: int| 0 <= j < e ==> #[trigger] to@[j] < ids.len() && ids@[to@[j] as int]@ == self.edges@[j].to@,
                string_views(ids@) == names_with_edges(self.nodes@, self.edges@, e as int),
            decreases self.edges.len() - e,
        {
            let ghost b0 = ids@;
            let a = intern(&mut ids, &self.edges[e].from);
            let ghost b1 = ids@;
            let b = intern(&mut ids, &self.edges[e].to);
            from.push(a);
            to.push(b);
            proof {
                assert forall|j: int| 0 <= j < self.nodes.len() implies #[trigger] node_idx@[j] < ids.len() && ids@[node_idx@[j] as int]@ == self.nodes@[j].id@ by {
                    assert(ids@[node_idx@[j] as int] == b1[node_idx@[j] as int]);
                    assert(b1[node_idx@[j] as int] == b0[node_idx@[j] as int]);
                }
                assert forall|j: int| 0 <= j < e + 1 implies #[trigger] from@[j] < ids.len() && ids@[from@[j] as int]@ == self.edges@[j].from@ by {
                    if j < e {
                        assert(b1[from@[j] as int] == b0[from@[j] as int]);
                    }
                }
                assert forall|j: int| 0 <= j < e + 1 implies #[trigger] to@[j] < ids.len() && ids@[to@[j] as int]@ == self.edges@[j].to@ by {
                    if j < e {
                        assert(b1[to@[j] as int] == b0[to@[j] as int]);
                    }
                }
            }
            e = e + 1;
        }
        let n = ids.len();
        let mut visited: Vec<bool> = Vec::new();
        let mut on_stack: Vec<bool> = Vec::new();
        let mut x: usize = 0;
        while x < n
            invariant
                x <= n,
                visited.len() == x,
                on_stack.len() == x,
                forall|j: int| 0 <= j < x ==> !#[trigger] visited@[j] && !on_stack@[j],
            decreases n - x,
        {
            visited.push(false);
            on_stack.push(false);
            x = x + 1;
        }
        let mut srch = Search {
            from,
            to,
            n,
            visited,
            on_stack,
            stack: Vec::new(),
            cycles: Vec::new(),
            fin: Ghost(Seq::new(n as nat, |i: int| 0)),
            clock: Ghost(0),
        };
        proof {
            assert(srch.visited.len() == srch.n);
            assert(srch.fin@.len() == srch.n);
            assert(forall|i: int| 0 <= i < srch.from.len() ==> #[trigger] srch.from@[i] < srch.n);
            assert(forall|i: int| 0 <= i < srch.to.len() ==> #[trigger] srch.to@[i] < srch.n);
            assert forall|x: int| 0 <= x < srch.n implies (#[trigger] srch.on_stack@[x] <==> srch.stack@.contains(x as usize)) by {
                assert(!srch.visited@[x]);
                assert(!srch.stack@.contains(x as usize));
            }
            assert(forall|x: int| 0 <= x < srch.n && #[trigger] srch.finished(x) ==> 0 <= srch.fin@[x] < srch.clock@);
            assert(srch.abs() =~= fresh_search(n as nat));
        }
        let ghost fresh = srch.abs();
        let mut k: usize = 0;
        while k < node_idx.len()
            invariant
                srch.inv(),
                srch.stack.len() == 0,
                srch.n == ids.len(),
                srch.from.len() == self.edges.len(),
                distinct_views(ids@),
                node_idx.len() == self.nodes.len(),
                forall|j: int| 0 <= j < self.nodes.len() ==> #[trigger] node_idx@[j] < ids.len() && ids@[node_idx@[j] as int]@ == self.nodes@[j].id@,
                forall|j: int| 0 <= j < self.edges.len() ==> #[trigger] srch.from@[j] < ids.len() && ids@[srch.from@[j] as int]@ == self.edges@[j].from@,
                forall|j: int| 0 <= j < self.edges.len() ==> #[trigger] srch.to@[j] < ids.len() && ids@[srch.to@[j] as int]@ == self.edges@[j].to@,
                k <= node_idx.len(),
                forall|j: int| 0 <= j < k ==> srch.visited@[#[trigger] node_idx@[j] as int],
                search_spec(srch.from@, srch.to@, srch.n as nat, node_idx@, srch.abs(), k as int)
                    == search_spec(srch.from@, srch.to@, srch.n as nat, node_idx@, fresh, 0),
            decreases node_idx.len() - k,
        {
            let u = node_idx[k];
            let ghost pre = srch.abs();
            if !srch.visited[u] {
                let ghost before = srch;
                srch.visit(u, Ghost(count_unvisited(srch.visited@)), Ghost(srch.n as nat));
                proof {
                    assert forall|j: int| 0 <= j < k + 1 implies srch.visited@[#[trigger] node_idx@[j] as int] by {
                        if j < k {
                            assert(before.visited@[node_idx@[j] as int]);
                        }
                    }
                }
            }
            proof {
                assert(search_spec(srch.from@, srch.to@, srch.n as nat, node_idx@, pre, k as int)
                    == search_spec(srch.from@, srch.to@, srch.n as nat, node_idx@, srch.abs(), k + 1));
            }
            k = k + 1;
        }
        proof {
            assert(search_spec(srch.from@, srch.to@, srch.n as nat, node_idx@, srch.abs(), node_idx.len() as int)
                == srch.abs());
        }
        // completeness: a reachable cycle would have been met as a back edge
        proof {
            if has_reachable_cycle(self.nodes@, self.edges@) && srch.cycles.len() == 0 {
                let w = choose|w: Seq<Seq<char>>|
                    {
                        &&& w.len() > 0
                        &&& node_ids(self.nodes@).contains(w[0])
                        &&& is_step_walk(self.edges@, w)
                        &&& exists|i: int, j: int| 0 <= i < j < w.len() && w[i] == w[j]
                    };
                let (i, j) = choose|i: int, j: int| 0 <= i < j < w.len() && w[i] == w[j];
                let p = choose|p: int| 0 <= p < self.nodes.len() && node_ids(self.nodes@)[p] == w[0];
                let x0 = node_idx@[p] as int;
                assert(ids@[x0]@ == w[0]);
                assert(srch.visited@[x0]);
                lemma_walk_decreases(&srch, ids@, self.edges@, w, j);
                lemma_walk_decreases(&srch, ids@, self.edges@, w, i);
                assert(index_in(ids@, w[i]) == index_in(ids@, w[j]));
                assert(false);
            }
        }
        // translate cycles back to module names
        let mut cycles: Vec<Cycle> = Vec::new();
        let mut k: usize = 0;
        while k < srch.cycles.len()
            invariant
                srch.inv(),
                srch.n == ids.len(),
                srch.from.len() == self.edges.len(),
                distinct_views(ids@),
                forall|j: int| 0 <= j < self.edges.len() ==> #[trigger] srch.from@[j] < ids.len() && ids@[srch.from@[j] as int]@ == self.edges@[j].from@,
                forall|j: int| 0 <= j < self.edges.len() ==> #[trigger] srch.to@[j] < ids.len() && ids@[srch.to@[j] as int]@ == self.edges@[j].to@,
                k <= srch.cycles.len(),
                cycles.len() == k,
                forall|a: int| 0 <= a < k ==> #[trigger] cycles@[a].nodes.len() == srch.cycles@[a].len(),
                forall|a: int, b: int| 0 <= a < k && 0 <= b < srch.cycles@[a].len() ==> #[trigger] cycles@[a].nodes@[b]@ == ids@[srch.cycles@[a]@[b] as int]@,
            decreases srch.cycles.len() - k,
        {
            proof {
                assert(srch.valid_cycle(srch.cycles@[k as int]@));
            }
            let names = strings_at(&ids, &srch.cycles[k]);
            let ghost nm = names@;
            let ghost before = cycles@;
            cycles.push(Cycle { nodes: names });
            proof {
                assert forall|a: int| 0 <= a < k + 1 implies #[trigger] cycles@[a].nodes.len() == srch.cycles@[a].len() by {
                    if a < k {
                        assert(cycles@[a] == before[a]);
                    } else {
                        assert(cycles@[a].nodes@ == nm);
                    }
                }
                assert forall|a: int, b: int| 0 <= a < k + 1 && 0 <= b < srch.cycles@[a].len() implies #[trigger] cycles@[a].nodes@[b]@ == ids@[srch.cycles@[a]@[b] as int]@ by {
                    if a < k {
                        assert(cycles@[a] == before[a]);
                    } else {
                        assert(cycles@[a].nodes@ == nm);
                        assert(nm[b]@ == ids@[srch.cycles@[k as int]@[b] as int]@);
                    }
                }
            }
            k = k + 1;
        }
        // the reported cycles are those of the search over module numbers
        proof {
            let names = string_views(ids@);
            assert(names == module_names(self.nodes@, self.edges@));
            let starts = self.nodes@.map_values(|x: Node| number_of(names, x.id@));
            assert(srch.from@ =~= edge_sources(names, self.edges@)) by {
                assert forall|j: int| 0 <= j < self.edges.len() implies srch.from@[j] == edge_sources(names, self.edges@)[j] by {
                    lemma_number_of(ids@, srch.from@[j] as int, self.edges@[j].from@);
                }
            }
            assert(srch.to@ =~= edge_targets(names, self.edges@)) by {
                assert forall|j: int| 0 <= j < self.edges.len() implies srch.to@[j] == edge_targets(names, self.edges@)[j] by {
                    lemma_number_of(ids@, srch.to@[j] as int, self.edges@[j].to@);
                }
            }
            assert(node_idx@ =~= starts) by {
                assert forall|j: int| 0 <= j < self.nodes.len() implies node_idx@[j] == starts[j] by {
                    lemma_number_of(ids@, node_idx@[j] as int, self.nodes@[j].id@);
                }
            }
            assert(fresh == fresh_search(names.len()));
            let found = found_cycles(self.nodes@, self.edges@);
            assert(found == srch.abs().cycles.map_values(|c: Seq<usize>| c.map_values(|x: usize| names[x as int])));
            assert(cycle_views(cycles@) =~= found) by {
                assert forall|a: int| 0 <= a < cycles.len() implies #[trigger] cycle_views(cycles@)[a] =~= found[a] by {
                    assert(srch.abs().cycles[a] == srch.cycles@[a]@);
                    assert(cycles@[a].nodes.len() == srch.cycles@[a].len());
                    assert forall|b: int| 0 <= b < cycles@[a].nodes.len() implies cycle_views(cycles@)[a][b] == found[a][b] by {
                        assert(cycles@[a].nodes@[b]@ == ids@[srch.cycles@[a]@[b] as int]@);
                    }
                }
            }
        }
        proof {
            assert forall|k: int| 0 <= k < cycles.len() implies is_simple_cycle(self.edges@, #[trigger] cycle_views(cycles@)[k]) by {
                let c = srch.cycles@[k]@;
                let sc = cycle_views(cycles@)[k];
                assert(srch.valid_cycle(c));
                assert(cycles@[k].nodes.len() == srch.cycles@[k].len());
                assert(sc.len() == c.len());
                assert forall|a: int| 0 <= a < sc.len() implies #[trigger] sc[a] == ids@[c[a] as int]@ by {
                    assert(cycles@[k].nodes@[a]@ == ids@[srch.cycles@[k]@[a] as int]@);
                }
                assert(sc[0] == sc[sc.len() - 1]);
                assert forall|a: int| 0 <= a < sc.len() - 1 implies #[trigger] sc[a] != sc[a + 1] && is_edge(self.edges@, sc[a], sc[a + 1]) by {
                    assert(c[a] != c[a + 1]);
                    assert(srch.iedge(c[a] as int, c[a + 1] as int));
                    let e = choose|e: int| 0 <= e < srch.from.len() && #[trigger] srch.from@[e] == c[a] as int && srch.to@[e] == c[a + 1] as int;
                    assert(self.edges@[e].from@ == sc[a]);
                    if c[a] < c[a + 1] {
                        assert(ids@[c[a] as int]@ != ids@[c[a + 1] as int]@);
                    } else {
                        assert(ids@[c[a + 1] as int]@ != ids@[c[a] as int]@);
                    }
                }
                assert forall|a: int, b: int| 0 <= a < b < sc.len() - 1 implies sc[a] != sc[b] by {
                    assert(c[a] != c[b]);
                    if c[a] < c[b] {
                        assert(ids@[c[a] as int]@ != ids@[c[b] as int]@);
                    } else {
                        assert(ids@[c[b] as int]@ != ids@[c[a] as int]@);
                    }
                }
            }
            assert forall|k: int, l: int| 0 <= k < l < cycles.len() implies cycle_views(cycles@)[k] != cycle_views(cycles@)[l] by {
                let ck = srch.cycles@[k]@;
                let cl = srch.cycles@[l]@;
                assert(cycles@[k].nodes.len() == srch.cycles@[k].len());
                assert(cycles@[l].nodes.len() == srch.cycles@[l].len());
                assert(ck != cl);
                if cycle_views(cycles@)[k] == cycle_views(cycles@)[l] {
                    assert(ck.len() == cl.len());
                    assert forall|a: int| 0 <= a < ck.len() implies ck[a] == cl[a] by {
                        assert(cycle_views(cycles@)[k][a] == ids@[ck[a] as int]@);
                        assert(cycle_views(cycles@)[l][a] == ids@[cl[a] as int]@);
                        assert(srch.valid_cycle(ck));
                        assert(srch.valid_cycle(cl));
                        if ck[a] < cl[a] {
                            assert(ids@[ck[a] as int]@ != ids@[cl[a] as int]@);
                        } else if cl[a] < ck[a] {
                            assert(ids@[cl[a] as int]@ != ids@[ck[a] as int]@);
                        }
                    }
                    assert(ck =~= cl);
                }
            }
        }
        // self-loops, in order of first occurrence
        let mut self_loops: Vec<String> = Vec::new();
        let mut e: usize = 0;
        while e < self.edges.len()
            invariant
                e <= self.edges.len(),
                string_views(self_loops@) == self_loops_upto(self.edges@, e as int),
            decreases self.edges.len() - e,
        {
            if self.edges[e].from == self.edges[e].to {
                if !contains_string(&self_loops, &self.edges[e].from) {
                    self_loops.push(self.edges[e].from.clone());
                    proof {
                        assert(string_views(self_loops@) =~= self_loops_upto(self.edges@, e as int).push(self.edges@[e as int].from@));
                    }
                }
            }
            e = e + 1;
        }
        let has_cycles = cycles.len() > 0 || self_loops.len() > 0;
        let r = CycleDetectionResult { has_cycles, cycles, self_loops };
        // mark the nodes that lie on a cycle
        let mut marked: Vec<Node> = Vec::new();
        let mut i: usize = 0;
        while i < self.nodes.len()
            invariant
                i <= self.nodes.len(),
                marked.len() == i,
                forall|j: int| 0 <= j < i ==> same_but_flag(#[trigger] marked@[j], self.nodes@[j])
                    && marked@[j].in_cycle == lies_on_cycle(r, self.nodes@[j].id@),
            decreases self.nodes.len() - i,
        {
            let id = &self.nodes[i].id;
            let mut on = contains_string(&r.self_loops, id);
            let mut k: usize = 0;
            while k < r.cycles.len()
                invariant
                    k <= r.cycles.len(),
                    on == (string_views(r.self_loops@).contains(id@)
                        || exists|a: int| 0 <= a < k && string_views(#[trigger] r.cycles@[a].nodes@).contains(id@)),
                decreases r.cycles.len() - k,
            {
                if contains_string(&r.cycles[k].nodes, id) {
                    on = true;
                }
                k = k + 1;
            }
            let old_node = &self.nodes[i];
            marked.push(Node {
                id: old_node.id.clone(),
                in_degree: old_node.in_degree,
                out_degree: old_node.out_degree,
                top_dir: old_node.top_dir.clone(),
                dir_path: old_node.dir_path.clone(),
                in_cycle: on,
            });
            i = i + 1;
        }
        self.nodes = marked;
        r
    }
}

// ---------------------------------------------------------------------------
// Assembling a graph
// ---------------------------------------------------------------------------

/// Number of the first `k` edges that leave `id`.
pub open spec fn out_count(edges: Seq<Edge>, id: Seq<char>, k: int) -> nat
    decreases k,
{
    if k <= 0 || k > edges.len() {
        0
    } else {
        out_count(edges, id, k - 1) + if edges[k - 1].from@ == id { 1nat } else { 0nat }
    }
}

/// Number of the first `k` edges that enter `id`.
pub open spec fn in_count(edges: Seq<Edge>, id: Seq<char>, k: int) -> nat
    decreases k,
{
    if k <= 0 || k > edges.len() {
        0
    } else {
        in_count(edges, id, k - 1) + if edges[k - 1].to@ == id { 1nat } else { 0nat }
    }
}

/// The directory part of a module id: what precedes its last `/`, or nothing.
pub open spec fn dir_of(id: Seq<char>) -> Seq<char> {
    match crate::text::rfind_spec(id, seq!['/']) {
        Some(k) => id.subrange(0, k),
        None => Seq::empty(),
    }
}

/// The ids of a graph: the listed modules and the ends of every edge.
pub open spec fn graph_ids(ids: Seq<Seq<char>>, edges: Seq<Edge>) -> Set<Seq<char>> {
    ids.to_set().union(Set::new(|n: Seq<char>| exists|i: int| 0 <= i < edges.len() && (#[trigger] edges[i].from@ == n || edges[i].to@ == n)))
}

/// The node `n` of a graph with these edges: its degrees, its first path segment
/// and its directory, not yet on a cycle.
pub open spec fn is_node_of(n: Node, edges: Seq<Edge>) -> bool {
    &&& n.in_degree == in_count(edges, n.id@, edges.len() as int)
    &&& n.out_degree == out_count(edges, n.id@, edges.len() as int)
    &&& n.top_dir@ == crate::deps::before_first(n.id@, '/')
    &&& n.dir_path@ == dir_of(n.id@)
    &&& !n.in_cycle
}

fn degrees(edges: &Vec<Edge>, id: &String) -> (r: (usize, usize))
    ensures
        r.0 == in_count(edges@, id@, edges@.len() as int),
        r.1 == out_count(edges@, id@, edges@.len() as int),
{
    let c = crate::text::chars_of(id.as_str());
    let mut ins: usize = 0;
    let mut outs: usize = 0;
    let mut k: usize = 0;
    while k < edges.len()
        invariant
            k <= edges.len(),
            c@ == id@,
            ins == in_count(edges@, id@, k as int),
            outs == out_count(edges@, id@, k as int),
            ins <= k,
            outs <= k,
        decreases edges.len() - k,
    {
        if crate::naming::same_chars(&crate::text::chars_of(edges[k].to.as_str()), &c) {
            ins = ins + 1;
        }
        if crate::naming::same_chars(&crate::text::chars_of(edges[k].from.as_str()), &c) {
            outs = outs + 1;
        }
        k = k + 1;
    }
    (ins, outs)
}

fn dir_of_exec(id: &[char]) -> (r: Vec<char>)
    ensures
        r@ == dir_of(id@),
{
    let slash = crate::text::rfind_char(id, '/');
    proof {
        crate::text::lemma_rfind_char_spec(id@, '/', slash);
    }
    match slash {
        Some(k) => crate::text::slice_copy(id, 0, k),
        None => {
            let v: Vec<char> = Vec::new();
            proof {
                assert(v@ =~= Seq::<char>::empty());
            }
            v
        },
    }
}

fn top_dir_exec(id: &[char]) -> (r: Vec<char>)
    ensures
        r@ == crate::deps::before_first(id@, '/'),
{
    match crate::text::find_char(id, '/') {
        Some(i) => {
            proof {
                crate::text::lemma_first_index(id@, '/', i as int);
                assert(id@.contains('/'));
            }
            crate::text::slice_copy(id, 0, i)
        },
        None => crate::text::slice_copy(id, 0, id.len()),
    }
}

impl GraphBuilder {
    /// The graph of the modules `ids` and the import `edges`: one node per module
    /// listed or at an end of an edge, sorted by id, with its in- and out-degree,
    /// its first path segment and its directory.
    pub fn assemble(ids: &[String], edges: Vec<Edge>) -> (g: DependencyGraph)
        ensures
            g.edges == edges,
            crate::text::strictly_sorted(node_ids(g.nodes@)),
            node_ids(g.nodes@).to_set() == graph_ids(crate::text::views(ids@), edges@),
            forall|i: int| 0 <= i < g.nodes.len() ==> is_node_of(#[trigger] g.nodes@[i], edges@),
    {
        let ghost all = graph_ids(crate::text::views(ids@), edges@);
        let mut sorted: Vec<String> = Vec::new();
        proof {
            assert(crate::text::views(sorted@) =~= Seq::<Seq<char>>::empty());
            assert(crate::text::views(sorted@).to_set() =~= Set::<Seq<char>>::empty());
        }
        let mut k: usize = 0;
        while k < ids.len()
            invariant
                k <= ids.len(),
                crate::text::strictly_sorted(crate::text::views(sorted@)),
                crate::text::views(sorted@).to_set() == crate::text::views(ids@).subrange(0, k as int).to_set(),
            decreases ids.len() - k,
        {
            proof {
                crate::matrix::lemma_prefix_set_step_pub(crate::text::views(ids@), k as int);
            }
            crate::text::insert_sorted_unique(&mut sorted, ids[k].clone());
            k = k + 1;
        }
        let ghost base = crate::text::views(ids@).to_set();
        proof {
            assert(crate::text::views(ids@).subrange(0, k as int) =~= crate::text::views(ids@));
        }
        let mut e: usize = 0;
        while e < edges.len()
            invariant
                e <= edges.len(),
                base == crate::text::views(ids@).to_set(),
                crate::text::strictly_sorted(crate::text::views(sorted@)),
                crate::text::views(sorted@).to_set() == base.union(Set::new(
                    |n: Seq<char>| exists|i: int| 0 <= i < e && (#[trigger] edges@[i].from@ == n || edges@[i].to@ == n),
                )),
            decreases edges.len() - e,
        {
            crate::text::insert_sorted_unique(&mut sorted, edges[e].from.clone());
            crate::text::insert_sorted_unique(&mut sorted, edges[e].to.clone());
            proof {
                let prev = Set::new(|n: Seq<char>| exists|i: int| 0 <= i < e && (#[trigger] edges@[i].from@ == n || edges@[i].to@ == n));
                let next = Set::new(|n: Seq<char>| exists|i: int| 0 <= i < e + 1 && (#[trigger] edges@[i].from@ == n || edges@[i].to@ == n));
                assert forall|n: Seq<char>| next.contains(n) <==> (prev.contains(n) || n == edges@[e as int].from@ || n == edges@[e as int].to@) by {
                    if next.contains(n) {
                        let i = choose|i: int| 0 <= i < e + 1 && (#[trigger] edges@[i].from@ == n || edges@[i].to@ == n);
                        if i < e {
                            assert(prev.contains(n));
                        }
                    }
                    if prev.contains(n) {
                        let i = choose|i: int| 0 <= i < e && (#[trigger] edges@[i].from@ == n || edges@[i].to@ == n);
                        assert(next.contains(n));
                    }
                    if n == edges@[e as int].from@ || n == edges@[e as int].to@ {
                        assert(0 <= e < e + 1 && (edges@[e as int].from@ == n || edges@[e as int].to@ == n));
                    }
                }
                assert(crate::text::views(sorted@).to_set() =~= base.union(next));
            }
            e = e + 1;
        }
        proof {
            assert(crate::text::views(sorted@).to_set() =~= all);
        }
        let mut nodes: Vec<Node> = Vec::new();
        let mut i: usize = 0;
        while i < sorted.len()
            invariant
                i <= sorted.len(),
                nodes.len() == i,
                forall|j: int| 0 <= j < i ==> #[trigger] nodes@[j].id@ == sorted@[j]@,
                forall|j: int| 0 <= j < i ==> is_node_of(#[trigger] nodes@[j], edges@),
            decreases sorted.len() - i,
        {
            let id_chars = crate::text::chars_of(sorted[i].as_str());
            let (ins, outs) = degrees(&edges, &sorted[i]);
            let node = Node {
                id: sorted[i].clone(),
                in_degree: ins,
                out_degree: outs,
                top_dir: crate::text::string_of(&top_dir_exec(&id_chars)),
                dir_path: crate::text::string_of(&dir_of_exec(&id_chars)),
                in_cycle: false,
            };
            nodes.push(node);
            i = i + 1;
        }
        proof {
            assert(node_ids(nodes@) =~= crate::text::views(sorted@));
        }
        DependencyGraph { nodes, edges }
    }
}

} // verus!
