//! Resolved dependencies, and the external packages a JavaScript file imports.
use vstd::prelude::*;
use crate::text::{
    chars_of, find_char, find_spec, occurs_at, first_index, lemma_first_index, rfind_spec, rfind_sub, find_sub,
    seq_starts_with, slice_copy, starts_with_chars, string_of, trim_chars, trim_spec, views,
};
use crate::naming::same_chars;

verus! {

/// A dependency of the project, with what its lock file says of it.
pub struct ResolvedDependency {
    pub name: String,
    pub version: String,
    pub resolved: Option<String>,
    pub dependencies: Vec<String>,
    pub children: Vec<ResolvedDependency>,
    pub dep_type: String,
}

/// The dependency type of an entry that does not say: `"prod"`.
pub fn default_dep_type() -> (r: String)
    ensures
        r@ == "prod"@,
{
    String::from_str("prod")
}

// ---------------------------------------------------------------------------
// Dependencies keyed by name
// ---------------------------------------------------------------------------

/// Dependencies keyed by package name; each name occurs once.
pub struct DepMap {
    entries: Vec<ResolvedDependency>,
}

pub open spec fn dep_names(v: Seq<ResolvedDependency>) -> Seq<Seq<char>> {
    v.map_values(|d: ResolvedDependency| d.name@)
}

pub open spec fn names_unique(v: Seq<ResolvedDependency>) -> bool {
    forall|i: int, j: int| 0 <= i < j < v.len() ==> v[i].name@ != v[j].name@
}

impl DepMap {
    pub closed spec fn entries(&self) -> Seq<ResolvedDependency> {
        self.entries@
    }

    #[verifier::type_invariant]
    spec fn unique_names(&self) -> bool {
        names_unique(self.entries@)
    }

    /// The dependencies by name.
    pub closed spec fn view_map(&self) -> Map<Seq<char>, ResolvedDependency> {
        Map::new(
            |n: Seq<char>| dep_names(self.entries@).contains(n),
            |n: Seq<char>| self.entries@[dep_names(self.entries@).index_of(n)],
        )
    }

    pub fn new() -> (r: Self)
        ensures
            r.view_map() =~= Map::<Seq<char>, ResolvedDependency>::empty(),
            r.entries().len() == 0,
    {
        DepMap { entries: Vec::new() }
    }

    pub fn len(&self) -> (r: usize)
        ensures
            r == self.view_map().dom().len(),
    {
        proof {
            use_type_invariant(self);
            lemma_map_size(self.entries@);
        }
        self.entries.len()
    }

    fn position(&self, name: &str) -> (r: Option<usize>)
        ensures
            r matches Some(i) ==> i < self.entries@.len() && self.entries@[i as int].name@ == name@,
            r is None ==> !dep_names(self.entries@).contains(name@),
    {
        let n = chars_of(name);
        let mut i: usize = 0;
        while i < self.entries.len()
            invariant
                i <= self.entries.len(),
                n@ == name@,
                forall|j: int| 0 <= j < i ==> self.entries@[j].name@ != name@,
            decreases self.entries.len() - i,
        {
            if same_chars(&chars_of(self.entries[i].name.as_str()), &n) {
                return Some(i);
            }
            i = i + 1;
        }
        proof {
            if dep_names(self.entries@).contains(name@) {
                let j = choose|j: int| 0 <= j < self.entries.len() && dep_names(self.entries@)[j] == name@;
                assert(self.entries@[j].name@ == name@);
            }
        }
        None
    }

    /// The dependency named `name`.
    pub fn get(&self, name: &str) -> (r: Option<&ResolvedDependency>)
        ensures
            r matches Some(d) ==> self.view_map().dom().contains(name@) && self.view_map()[name@] == *d,
            r is None ==> !self.view_map().dom().contains(name@),
    {
        proof {
            use_type_invariant(self);
        }
        match self.position(name) {
            Some(i) => {
                proof {
                    lemma_index_of_unique(self.entries@, i as int);
                }
                Some(&self.entries[i])
            },
            None => None,
        }
    }

    /// Insert `dep`, replacing the dependency of the same name.
    pub fn insert(&mut self, dep: ResolvedDependency)
        ensures
            final(self).view_map() == old(self).view_map().insert(dep.name@, dep),
    {
        proof {
            use_type_invariant(&*self);
        }
        let ghost old_entries = self.entries@;
        let pos = self.position(dep.name.as_str());
        let mut entries: Vec<ResolvedDependency> = Vec::new();
        std::mem::swap(&mut entries, &mut self.entries);
        match pos {
            Some(i) => {
                entries.set(i, dep);
                proof {
                    assert forall|a: int, b: int| 0 <= a < b < entries@.len() implies entries@[a].name@ != entries@[b].name@ by {
                        assert(old_entries[a].name@ != old_entries[b].name@);
                    }
                    lemma_map_after_set(old_entries, entries@, i as int);
                }
            },
            None => {
                entries.push(dep);
                proof {
                    assert forall|a: int, b: int| 0 <= a < b < entries@.len() implies entries@[a].name@ != entries@[b].name@ by {
                        if b == entries@.len() - 1 {
                            assert(dep_names(old_entries)[a] == old_entries[a].name@);
                        }
                    }
                    assert(entries@.subrange(0, old_entries.len() as int) =~= old_entries);
                    lemma_map_after_push(old_entries, entries@);
                }
            },
        }
        self.entries = entries;
    }

    /// The dependencies in order of insertion of their names.
    pub fn into_vec(self) -> (r: Vec<ResolvedDependency>)
        ensures
            r@ == self.entries(),
            names_unique(r@),
    {
        proof {
            use_type_invariant(&self);
        }
        self.entries
    }
}

proof fn lemma_index_of_unique(v: Seq<ResolvedDependency>, i: int)
    requires
        names_unique(v),
        0 <= i < v.len(),
    ensures
        dep_names(v).contains(v[i].name@),
        dep_names(v).index_of(v[i].name@) == i,
{
    let ns = dep_names(v);
    assert(ns[i] == v[i].name@);
    let k = ns.index_of(v[i].name@);
    assert(ns[k] == v[i].name@);
    if k != i {
        if k < i {
            assert(v[k].name@ != v[i].name@);
        } else {
            assert(v[i].name@ != v[k].name@);
        }
    }
}

proof fn lemma_map_size(v: Seq<ResolvedDependency>)
    requires
        names_unique(v),
    ensures
        Map::new(
            |n: Seq<char>| dep_names(v).contains(n),
            |n: Seq<char>| v[dep_names(v).index_of(n)],
        ).dom().len() == v.len(),
{
    let ns = dep_names(v);
    assert(ns.no_duplicates()) by {
        assert forall|i: int, j: int| 0 <= i < ns.len() && 0 <= j < ns.len() && i != j implies ns[i] != ns[j] by {
            if i < j {
                assert(v[i].name@ != v[j].name@);
            } else {
                assert(v[j].name@ != v[i].name@);
            }
        }
    }
    ns.unique_seq_to_set();
    let m = Map::new(|n: Seq<char>| dep_names(v).contains(n), |n: Seq<char>| v[dep_names(v).index_of(n)]);
    assert(m.dom() =~= ns.to_set());
}

proof fn lemma_map_after_set(a: Seq<ResolvedDependency>, b: Seq<ResolvedDependency>, i: int)
    requires
        names_unique(a),
        names_unique(b),
        0 <= i < a.len(),
        b == a.update(i, b[i]),
        b[i].name@ == a[i].name@,
    ensures
        Map::new(|n: Seq<char>| dep_names(b).contains(n), |n: Seq<char>| b[dep_names(b).index_of(n)])
            == Map::new(|n: Seq<char>| dep_names(a).contains(n), |n: Seq<char>| a[dep_names(a).index_of(n)]).insert(b[i].name@, b[i]),
{
    let ma = Map::new(|n: Seq<char>| dep_names(a).contains(n), |n: Seq<char>| a[dep_names(a).index_of(n)]);
    let mb = Map::new(|n: Seq<char>| dep_names(b).contains(n), |n: Seq<char>| b[dep_names(b).index_of(n)]);
    assert(dep_names(b) =~= dep_names(a));
    assert forall|n: Seq<char>| mb.dom().contains(n) implies mb[n] == ma.insert(b[i].name@, b[i])[n] by {
        let k = dep_names(b).index_of(n);
        lemma_index_of_unique(b, k);
        lemma_index_of_unique(a, k);
        if k == i {
        } else {
            assert(b[k] == a[k]);
            assert(n != b[i].name@) by {
                if k < i {
                    assert(b[k].name@ != b[i].name@);
                } else {
                    assert(b[i].name@ != b[k].name@);
                }
            }
        }
    }
    assert(mb.dom() =~= ma.insert(b[i].name@, b[i]).dom()) by {
        assert(dep_names(a)[i] == a[i].name@);
    }
    assert(mb =~= ma.insert(b[i].name@, b[i]));
}

proof fn lemma_map_after_push(a: Seq<ResolvedDependency>, b: Seq<ResolvedDependency>)
    requires
        names_unique(a),
        names_unique(b),
        b.len() == a.len() + 1,
        b.subrange(0, a.len() as int) == a,
    ensures
        Map::new(|n: Seq<char>| dep_names(b).contains(n), |n: Seq<char>| b[dep_names(b).index_of(n)])
            == Map::new(|n: Seq<char>| dep_names(a).contains(n), |n: Seq<char>| a[dep_names(a).index_of(n)]).insert(b[a.len() as int].name@, b[a.len() as int]),
{
    let last = b[a.len() as int];
    let ma = Map::new(|n: Seq<char>| dep_names(a).contains(n), |n: Seq<char>| a[dep_names(a).index_of(n)]);
    let mb = Map::new(|n: Seq<char>| dep_names(b).contains(n), |n: Seq<char>| b[dep_names(b).index_of(n)]);
    assert forall|k: int| 0 <= k < a.len() implies #[trigger] b[k] == a[k] by {
        assert(b.subrange(0, a.len() as int)[k] == b[k]);
    }
    assert forall|n: Seq<char>| mb.dom().contains(n) <==> ma.insert(last.name@, last).dom().contains(n) by {
        if dep_names(b).contains(n) {
            let k = choose|k: int| 0 <= k < b.len() && dep_names(b)[k] == n;
            if k < a.len() {
                assert(dep_names(a)[k] == n);
            }
        }
        if dep_names(a).contains(n) {
            let k = choose|k: int| 0 <= k < a.len() && dep_names(a)[k] == n;
            assert(dep_names(b)[k] == n);
        }
        if n == last.name@ {
            assert(dep_names(b)[a.len() as int] == n);
        }
    }
    assert forall|n: Seq<char>| mb.dom().contains(n) implies mb[n] == ma.insert(last.name@, last)[n] by {
        let k = dep_names(b).index_of(n);
        lemma_index_of_unique(b, k);
        if k < a.len() {
            lemma_index_of_unique(a, k);
            assert(n != last.name@);
        }
    }
    assert(mb =~= ma.insert(last.name@, last));
}

/// Insert each `(name, version)` as a dependency of type `dep_type`, without lock
/// details, replacing any dependency of the same name; later pairs win.
pub fn merge_dependencies(merged: &mut DepMap, dependencies: &[(String, String)], dep_type: &str)
    ensures
        forall|n: Seq<char>|
            #![trigger final(merged).view_map().dom().contains(n)]
            final(merged).view_map().dom().contains(n) <==> (old(merged).view_map().dom().contains(n)
                || exists|i: int| 0 <= i < dependencies.len() && dependencies@[i].0@ == n),
        forall|i: int|
            0 <= i < dependencies.len() && (forall|j: int| i < j < dependencies.len() ==> dependencies@[j].0@ != dependencies@[i].0@)
                ==> {
                let d = #[trigger] final(merged).view_map()[dependencies@[i].0@];
                &&& d.name@ == dependencies@[i].0@
                &&& d.version@ == dependencies@[i].1@
                &&& d.dep_type@ == dep_type@
                &&& d.resolved is None
                &&& d.dependencies@.len() == 0
                &&& d.children@.len() == 0
            },
        forall|n: Seq<char>|
            old(merged).view_map().dom().contains(n) && (forall|i: int| 0 <= i < dependencies.len() ==> dependencies@[i].0@ != n)
                ==> #[trigger] final(merged).view_map()[n] == old(merged).view_map()[n],
{
    let ghost m0 = merged.view_map();
    let mut k: usize = 0;
    while k < dependencies.len()
        invariant
            k <= dependencies.len(),
            forall|n: Seq<char>|
                #![trigger merged.view_map().dom().contains(n)]
                merged.view_map().dom().contains(n) <==> (m0.dom().contains(n)
                    || exists|i: int| 0 <= i < k && dependencies@[i].0@ == n),
            forall|i: int|
                0 <= i < k && (forall|j: int| i < j < k ==> dependencies@[j].0@ != dependencies@[i].0@)
                    ==> {
                    let d = #[trigger] merged.view_map()[dependencies@[i].0@];
                    &&& d.name@ == dependencies@[i].0@
                    &&& d.version@ == dependencies@[i].1@
                    &&& d.dep_type@ == dep_type@
                    &&& d.resolved is None
                    &&& d.dependencies@.len() == 0
                    &&& d.children@.len() == 0
                },
            forall|n: Seq<char>|
                m0.dom().contains(n) && (forall|i: int| 0 <= i < k ==> dependencies@[i].0@ != n)
                    ==> #[trigger] merged.view_map()[n] == m0[n],
        decreases dependencies.len() - k,
    {
        let d = ResolvedDependency {
            name: dependencies[k].0.clone(),
            version: dependencies[k].1.clone(),
            resolved: None,
            dependencies: Vec::new(),
            children: Vec::new(),
            dep_type: String::from_str(dep_type),
        };
        let ghost before = merged.view_map();
        merged.insert(d);
        proof {
            let nk = dependencies@[k as int].0@;
            assert forall|n: Seq<char>| #![trigger merged.view_map().dom().contains(n)]
                merged.view_map().dom().contains(n) <==> (m0.dom().contains(n)
                    || exists|i: int| 0 <= i < k + 1 && dependencies@[i].0@ == n) by {
                if n == nk {
                    assert(dependencies@[k as int].0@ == n);
                } else if exists|i: int| 0 <= i < k + 1 && dependencies@[i].0@ == n {
                    let i = choose|i: int| 0 <= i < k + 1 && dependencies@[i].0@ == n;
                    assert(i < k);
                }
            }
            assert forall|i: int|
                0 <= i < k + 1 && (forall|j: int| i < j < k + 1 ==> dependencies@[j].0@ != dependencies@[i].0@)
                implies {
                    let d = #[trigger] merged.view_map()[dependencies@[i].0@];
                    &&& d.name@ == dependencies@[i].0@
                    &&& d.version@ == dependencies@[i].1@
                    &&& d.dep_type@ == dep_type@
                    &&& d.resolved is None
                    &&& d.dependencies@.len() == 0
                    &&& d.children@.len() == 0
                } by {
                if i < k {
                    assert(dependencies@[k as int].0@ != dependencies@[i].0@);
                    assert(merged.view_map()[dependencies@[i].0@] == before[dependencies@[i].0@]);
                }
            }
            assert forall|n: Seq<char>|
                m0.dom().contains(n) && (forall|i: int| 0 <= i < k + 1 ==> dependencies@[i].0@ != n)
                implies #[trigger] merged.view_map()[n] == m0[n] by {
                assert(dependencies@[k as int].0@ != n);
                assert(merged.view_map()[n] == before[n]);
            }
        }
        k = k + 1;
    }
}

// ---------------------------------------------------------------------------
// External packages imported by a JavaScript file
// ---------------------------------------------------------------------------

/// `spec` names a file or an alias rather than a package.
pub open spec fn is_relative_or_alias_spec(spec: Seq<char>) -> bool {
    ||| seq_starts_with(spec, seq!['.'])
    ||| seq_starts_with(spec, seq!['/'])
    ||| seq_starts_with(spec, seq!['#'])
    ||| (spec.contains('/') && !seq_starts_with(spec, seq!['@']))
}

/// The text before the first `c` (all of `s` when there is none).
pub open spec fn before_first(s: Seq<char>, c: char) -> Seq<char> {
    if s.contains(c) {
        s.subrange(0, first_index(s, c))
    } else {
        s
    }
}

/// The package of an import: `@scope/name` for a scoped import, the first path
/// segment otherwise.
pub open spec fn package_name_spec(spec: Seq<char>) -> Seq<char> {
    if seq_starts_with(spec, seq!['@']) {
        if spec.contains('/') {
            let i = first_index(spec, '/');
            spec.subrange(0, i) + seq!['/'] + before_first(spec.subrange(i + 1, spec.len() as int), '/')
        } else {
            spec
        }
    } else {
        before_first(spec, '/')
    }
}

/// Add the package of `spec` to `pkgs`, unless it is local or already there.
pub open spec fn add_package(pkgs: Seq<Seq<char>>, spec: Seq<char>) -> Seq<Seq<char>> {
    if is_relative_or_alias_spec(spec) {
        pkgs
    } else if pkgs.contains(package_name_spec(spec)) {
        pkgs
    } else {
        pkgs.push(package_name_spec(spec))
    }
}

pub open spec fn add_packages(pkgs: Seq<Seq<char>>, specs: Seq<Seq<char>>) -> Seq<Seq<char>>
    decreases specs.len(),
{
    if specs.len() == 0 {
        pkgs
    } else {
        add_packages(add_package(pkgs, specs[0]), specs.drop_first())
    }
}

/// The text between the first `q` and the next one.
pub open spec fn quoted(t: Seq<char>, q: char) -> Option<Seq<char>> {
    if t.contains(q) {
        let st = first_index(t, q);
        let rest = t.subrange(st + 1, t.len() as int);
        if rest.contains(q) {
            Some(rest.subrange(0, first_index(rest, q)))
        } else {
            None
        }
    } else {
        None
    }
}

pub open spec fn opt_seq(o: Option<Seq<char>>) -> Seq<Seq<char>> {
    match o {
        Some(x) => seq![x],
        None => Seq::empty(),
    }
}

/// A line without its `//` comment.
pub open spec fn before_comment(s: Seq<char>) -> Seq<char> {
    match find_spec(s, "//"@) {
        Some(i) => s.subrange(0, i),
        None => s,
    }
}

/// The part of a line that can hold an `import`/`export`: trimmed, cut at its
/// `//` comment, trimmed again.
pub open spec fn import_text(line: Seq<char>) -> Seq<char> {
    trim_spec(before_comment(trim_spec(line)))
}

/// The specifier of a `from` clause: the first double-quoted text, else the first
/// single-quoted one.
pub open spec fn from_clause_specs(after: Seq<char>) -> Seq<Seq<char>> {
    match quoted(after, '"') {
        Some(x) => seq![x],
        None => opt_seq(quoted(after, '\'')),
    }
}

/// The module specifiers of an `import`/`export` statement: the quoted text after
/// the last ` from `; without ` from `, the first double-quoted and the first
/// single-quoted text.
pub open spec fn text_specs(t: Seq<char>) -> Seq<Seq<char>> {
    if !seq_starts_with(t, "import "@) && !seq_starts_with(t, "export "@) {
        Seq::empty()
    } else {
        match rfind_spec(t, " from "@) {
            None => opt_seq(quoted(t, '"')) + opt_seq(quoted(t, '\'')),
            Some(i) => from_clause_specs(t.subrange(i + " from "@.len(), t.len() as int)),
        }
    }
}

pub open spec fn line_specs(line: Seq<char>) -> Seq<Seq<char>> {
    text_specs(import_text(line))
}

/// The module specifiers of a source text, line by line. A line ends at `'\n'`; a
/// `'\r'` before it is whitespace and is trimmed with the line.
#[verifier::opaque]
pub open spec fn source_specs(s: Seq<char>) -> Seq<Seq<char>>
    decreases s.len(),
{
    if s.contains('\n') {
        let i = first_index(s, '\n');
        if 0 <= i < s.len() {
            line_specs(s.subrange(0, i)) + source_specs(s.subrange(i + 1, s.len() as int))
        } else {
            line_specs(s)
        }
    } else {
        line_specs(s)
    }
}

pub open spec fn external_specifiers_spec(source: Seq<char>) -> Seq<Seq<char>> {
    add_packages(Seq::empty(), source_specs(source))
}

proof fn lemma_source_specs_line(s: Seq<char>, i: int)
    requires
        0 <= i < s.len(),
        s[i] == '\n',
        forall|j: int| 0 <= j < i ==> s[j] != '\n',
    ensures
        source_specs(s) == line_specs(s.subrange(0, i)) + source_specs(s.subrange(i + 1, s.len() as int)),
{
    lemma_first_index(s, '\n', i);
    reveal(source_specs);
}

proof fn lemma_source_specs_last(s: Seq<char>)
    requires
        !s.contains('\n'),
    ensures
        source_specs(s) == line_specs(s),
{
    reveal(source_specs);
}

proof fn lemma_add_packages_append(p: Seq<Seq<char>>, a: Seq<Seq<char>>, b: Seq<Seq<char>>)
    ensures
        add_packages(p, a + b) == add_packages(add_packages(p, a), b),
    decreases a.len(),
{
    if a.len() == 0 {
        assert(a + b =~= b);
    } else {
        assert((a + b).drop_first() =~= a.drop_first() + b);
        assert((a + b)[0] == a[0]);
        lemma_add_packages_append(add_package(p, a[0]), a.drop_first(), b);
    }
}

/// Whether an import specifier names a file or an alias rather than a package.
pub fn is_relative_or_alias(spec: &str) -> (r: bool)
    ensures
        r == is_relative_or_alias_spec(spec@),
{
    let s = chars_of(spec);
    let dot = vec!['.'];
    let slash = vec!['/'];
    let hash = vec!['#'];
    let at = vec!['@'];
    proof {
        assert(dot@ =~= seq!['.']);
        assert(slash@ =~= seq!['/']);
        assert(hash@ =~= seq!['#']);
        assert(at@ =~= seq!['@']);
    }
    starts_with_chars(&s, &dot) || starts_with_chars(&s, &slash) || starts_with_chars(&s, &hash)
        || (find_char(&s, '/').is_some() && !starts_with_chars(&s, &at))
}

fn before_first_chars(s: &[char], c: char) -> (r: Vec<char>)
    ensures
        r@ == before_first(s@, c),
{
    match find_char(s, c) {
        Some(i) => {
            proof {
                lemma_first_index(s@, c, i as int);
                assert(s@.contains(c));
            }
            slice_copy(s, 0, i)
        },
        None => slice_copy(s, 0, s.len()),
    }
}

fn package_name(spec: &[char]) -> (r: Vec<char>)
    ensures
        r@ == package_name_spec(spec@),
{
    let at = vec!['@'];
    proof {
        assert(at@ =~= seq!['@']);
    }
    if starts_with_chars(spec, &at) {
        match find_char(spec, '/') {
            Some(i) => {
                proof {
                    lemma_first_index(spec@, '/', i as int);
                    assert(spec@.contains('/'));
                }
                let mut r = slice_copy(spec, 0, i);
                r.push('/');
                let rest = slice_copy(spec, i + 1, spec.len());
                let second = before_first_chars(&rest, '/');
                crate::text::push_all(&mut r, &second);
                proof {
                    assert(r@ =~= spec@.subrange(0, i as int) + seq!['/'] + second@);
                }
                r
            },
            None => slice_copy(spec, 0, spec.len()),
        }
    } else {
        before_first_chars(spec, '/')
    }
}

/// Add the package of an import specifier, unless it is local or already listed.
pub fn push_package(packages: &mut Vec<String>, spec: &str)
    ensures
        views(final(packages)@) == add_package(views(old(packages)@), spec@),
{
    if is_relative_or_alias(spec) {
        return;
    }
    let name = string_of(&package_name(&chars_of(spec)));
    if !crate::graph::contains_string(packages, &name) {
        let ghost before = views(packages@);
        packages.push(name);
        proof {
            assert(views(packages@) =~= before.push(package_name_spec(spec@)));
        }
    }
}

fn push_packages(packages: &mut Vec<String>, specs: &Vec<Vec<char>>)
    ensures
        views(final(packages)@) == add_packages(views(old(packages)@), specs@.map_values(|x: Vec<char>| x@)),
{
    let ghost p0 = views(packages@);
    let ghost all = specs@.map_values(|x: Vec<char>| x@);
    let mut k: usize = 0;
    while k < specs.len()
        invariant
            k <= specs.len(),
            all == specs@.map_values(|x: Vec<char>| x@),
            views(packages@) == add_packages(p0, all.subrange(0, k as int)),
        decreases specs.len() - k,
    {
        let sp = string_of(&specs[k]);
        let ghost before = views(packages@);
        push_package(packages, sp.as_str());
        proof {
            let a = all.subrange(0, k as int);
            let one = seq![all[k as int]];
            assert(all[k as int] == sp@);
            assert(all.subrange(0, k + 1) =~= a + one);
            lemma_add_packages_append(p0, a, one);
            assert(one.drop_first() =~= Seq::<Seq<char>>::empty());
            reveal_with_fuel(add_packages, 2);
        }
        k = k + 1;
    }
    proof {
        assert(all.subrange(0, k as int) =~= all);
    }
}

fn quoted_chars(t: &[char], q: char) -> (r: Option<Vec<char>>)
    ensures
        r matches Some(v) ==> quoted(t@, q) == Some(v@),
        r is None ==> quoted(t@, q) is None,
{
    match find_char(t, q) {
        Some(st) => {
            proof {
                lemma_first_index(t@, q, st as int);
                assert(t@.contains(q));
            }
            let rest = slice_copy(t, st + 1, t.len());
            match find_char(&rest, q) {
                Some(en) => {
                    proof {
                        lemma_first_index(rest@, q, en as int);
                        assert(rest@.contains(q));
                    }
                    Some(slice_copy(&rest, 0, en))
                },
                None => None,
            }
        },
        None => None,
    }
}

fn push_opt(v: &mut Vec<Vec<char>>, o: Option<Vec<char>>)
    ensures
        final(v)@.map_values(|x: Vec<char>| x@) == old(v)@.map_values(|x: Vec<char>| x@) + opt_seq(
            match o {
                Some(x) => Some(x@),
                None => None,
            },
        ),
{
    let ghost before = v@.map_values(|x: Vec<char>| x@);
    match o {
        Some(x) => {
            v.push(x);
            proof {
                assert(v@.map_values(|x: Vec<char>| x@) =~= before + opt_seq(Some(v@[v.len() - 1]@)));
            }
        },
        None => {
            proof {
                assert(v@.map_values(|x: Vec<char>| x@) =~= before + Seq::<Seq<char>>::empty());
            }
        },
    }
}

fn import_text_exec(line: &[char]) -> (t: Vec<char>)
    ensures
        t@ == import_text(line@),
{
    let trimmed = trim_chars(line);
    let slashes = chars_of("//");
    let cut = match find_sub(&trimmed, &slashes) {
        Some(i) => slice_copy(&trimmed, 0, i),
        None => trimmed,
    };
    trim_chars(&cut)
}

fn from_clause_exec(after: &[char]) -> (r: Vec<Vec<char>>)
    ensures
        r@.map_values(|x: Vec<char>| x@) == from_clause_specs(after@),
{
    let mut r: Vec<Vec<char>> = Vec::new();
    match quoted_chars(after, '"') {
        Some(x) => {
            r.push(x);
            proof {
                assert(r@.map_values(|x: Vec<char>| x@) =~= seq![r@[0]@]);
            }
        },
        None => {
            push_opt(&mut r, quoted_chars(after, '\''));
            proof {
                assert(r@.map_values(|x: Vec<char>| x@) =~= Seq::<Seq<char>>::empty() + opt_seq(quoted(after@, '\'')));
            }
        },
    }
    r
}

fn bare_specs_exec(t: &[char]) -> (r: Vec<Vec<char>>)
    ensures
        r@.map_values(|x: Vec<char>| x@) == opt_seq(quoted(t@, '"')) + opt_seq(quoted(t@, '\'')),
{
    let mut r: Vec<Vec<char>> = Vec::new();
    proof {
        assert(r@.map_values(|x: Vec<char>| x@) =~= Seq::<Seq<char>>::empty());
    }
    push_opt(&mut r, quoted_chars(t, '"'));
    push_opt(&mut r, quoted_chars(t, '\''));
    proof {
        assert(Seq::<Seq<char>>::empty() + opt_seq(quoted(t@, '"')) =~= opt_seq(quoted(t@, '"')));
    }
    r
}

fn is_import_or_export(t: &[char]) -> (r: bool)
    ensures
        r == (seq_starts_with(t@, "import "@) || seq_starts_with(t@, "export "@)),
{
    starts_with_chars(t, &chars_of("import ")) || starts_with_chars(t, &chars_of("export "))
}

fn text_specs_exec(t: &[char]) -> (r: Vec<Vec<char>>)
    ensures
        r@.map_values(|x: Vec<char>| x@) == text_specs(t@),
{
    if !is_import_or_export(t) {
        let r: Vec<Vec<char>> = Vec::new();
        proof {
            assert(r@.map_values(|x: Vec<char>| x@) =~= Seq::<Seq<char>>::empty());
        }
        return r;
    }
    let from = chars_of(" from ");
    match rfind_sub(t, &from) {
        None => bare_specs_exec(t),
        Some(i) => {
            proof {
                assert(occurs_at(t@, from@, i as int));
                assert(from@.len() == from.len());
                assert(i + from@.len() <= t@.len());
                assert(i + from.len() <= t.len());
            }
            let after = slice_copy(t, i + from.len(), t.len());
            from_clause_exec(&after)
        },
    }
}

/// The external npm packages that a JavaScript source imports or re-exports, in order
/// of first appearance, each once.
pub fn extract_external_specifiers(source: &str) -> (r: Vec<String>)
    ensures
        views(r@) == external_specifiers_spec(source@),
{
    let s = chars_of(source);
    let mut packages: Vec<String> = Vec::new();
    let mut start: usize = 0;
    proof {
        assert(s@.subrange(0, s.len() as int) =~= s@);
        assert(views(packages@) =~= Seq::<Seq<char>>::empty());
    }
    loop
        invariant
            start <= s.len(),
            s@ == source@,
            add_packages(views(packages@), source_specs(s@.subrange(start as int, s.len() as int)))
                == external_specifiers_spec(source@),
        decreases s.len() - start,
    {
        let rest = slice_copy(&s, start, s.len());
        match find_char(&rest, '\n') {
            Some(i) => {
                proof {
                    lemma_source_specs_line(rest@, i as int);
                    assert(rest@.subrange(i + 1, rest.len() as int) =~= s@.subrange(start + i + 1, s.len() as int));
                }
                let line = slice_copy(&rest, 0, i);
                let specs = text_specs_exec(&import_text_exec(&line));
                proof {
                    lemma_add_packages_append(
                        views(packages@),
                        line_specs(line@),
                        source_specs(s@.subrange(start + i + 1, s.len() as int)),
                    );
                }
                push_packages(&mut packages, &specs);
                start = start + i + 1;
            },
            None => {
                proof {
                    lemma_source_specs_last(rest@);
                }
                let specs = text_specs_exec(&import_text_exec(&rest));
                push_packages(&mut packages, &specs);
                return packages;
            },
        }
    }
}


// ---------------------------------------------------------------------------
// The crates a Rust source uses
// ---------------------------------------------------------------------------

/// `s` up to the first occurrence of `p`, or all of `s`.
pub open spec fn before_text(s: Seq<char>, p: Seq<char>) -> Seq<char> {
    match find_spec(s, p) {
        Some(i) => s.subrange(0, i),
        None => s,
    }
}

/// The crate a line of Rust names in a `use` declaration: the trimmed line starts
/// with `use ` but not with `use crate`, `use self` or `use super`; its path is
/// taken up to ` as `, then up to `;`, trimmed, and the crate is the path's first
/// segment before `::`, trimmed, unless that is empty, `crate`, `self` or `super`.
pub open spec fn use_line_crate(line: Seq<char>) -> Seq<Seq<char>> {
    let t = trim_spec(line);
    if !seq_starts_with(t, "use "@) || seq_starts_with(t, "use crate"@) || seq_starts_with(t, "use self"@)
        || seq_starts_with(t, "use super"@) {
        Seq::empty()
    } else {
        let after = t.subrange(4, t.len() as int);
        let path = trim_spec(before_first(before_text(after, " as "@), ';'));
        let name = trim_spec(before_text(path, "::"@));
        if name.len() == 0 || name == "crate"@ || name == "self"@ || name == "super"@ {
            Seq::empty()
        } else {
            seq![name]
        }
    }
}

/// The crates named by the `use` lines of a source, line by line, with repetitions.
#[verifier::opaque]
pub open spec fn source_use_crates(s: Seq<char>) -> Seq<Seq<char>>
    decreases s.len(),
{
    if s.contains('\n') {
        let i = first_index(s, '\n');
        if 0 <= i < s.len() {
            use_line_crate(s.subrange(0, i)) + source_use_crates(s.subrange(i + 1, s.len() as int))
        } else {
            use_line_crate(s)
        }
    } else {
        use_line_crate(s)
    }
}

/// The external crates a Rust source uses, in order of first appearance, each once.
pub open spec fn rust_external_spec(source: Seq<char>) -> Seq<Seq<char>> {
    crate::compat::dedup_first(source_use_crates(source))
}

proof fn lemma_use_crates_line(s: Seq<char>, i: int)
    requires
        0 <= i < s.len(),
        s[i] == '\n',
        forall|j: int| 0 <= j < i ==> s[j] != '\n',
    ensures
        source_use_crates(s) == use_line_crate(s.subrange(0, i)) + source_use_crates(s.subrange(i + 1, s.len() as int)),
{
    lemma_first_index(s, '\n', i);
    reveal(source_use_crates);
}

proof fn lemma_use_crates_last(s: Seq<char>)
    requires
        !s.contains('\n'),
    ensures
        source_use_crates(s) == use_line_crate(s),
{
    reveal(source_use_crates);
}

fn before_text_chars(s: &[char], p: &[char]) -> (r: Vec<char>)
    ensures
        r@ == before_text(s@, p@),
{
    match find_sub(s, p) {
        Some(i) => {
            proof {
                assert(occurs_at(s@, p@, i as int));
            }
            slice_copy(s, 0, i)
        },
        None => slice_copy(s, 0, s.len()),
    }
}

fn use_line_crate_exec(line: &[char]) -> (r: Option<Vec<char>>)
    ensures
        match r {
            Some(x) => use_line_crate(line@) == seq![x@],
            None => use_line_crate(line@) == Seq::<Seq<char>>::empty(),
        },
{
    let t = trim_chars(line);
    proof {
        reveal_strlit("use ");
        if line@.len() == 0 {
            assert(line@.subrange(0, 0) =~= line@);
        }
    }
    if !starts_with_chars(&t, &chars_of("use ")) || starts_with_chars(&t, &chars_of("use crate"))
        || starts_with_chars(&t, &chars_of("use self")) || starts_with_chars(&t, &chars_of("use super")) {
        return None;
    }
    let after = slice_copy(&t, 4, t.len());
    let p1 = before_text_chars(&after, &chars_of(" as "));
    let p2 = before_first_chars(&p1, ';');
    let path = trim_chars(&p2);
    let name = trim_chars(&before_text_chars(&path, &chars_of("::")));
    if name.len() == 0 || same_chars(&name, &chars_of("crate")) || same_chars(&name, &chars_of("self"))
        || same_chars(&name, &chars_of("super")) {
        return None;
    }
    Some(name)
}

/// The external crates that a Rust source names in its `use` declarations, in order
/// of first appearance, each once.
pub fn extract_rust_external(source: &str) -> (r: Vec<String>)
    ensures
        views(r@) == rust_external_spec(source@),
{
    let s = chars_of(source);
    let mut crates: Vec<String> = Vec::new();
    let ghost mut seen: Seq<Seq<char>> = Seq::empty();
    let mut start: usize = 0;
    proof {
        assert(s@.subrange(0, s.len() as int) =~= s@);
        assert(views(crates@) =~= Seq::<Seq<char>>::empty());
        assert(seen + source_use_crates(s@) =~= source_use_crates(s@));
    }
    loop
        invariant
            start <= s.len(),
            s@ == source@,
            views(crates@) == crate::compat::dedup_first(seen),
            seen + source_use_crates(s@.subrange(start as int, s.len() as int)) == source_use_crates(source@),
        decreases s.len() - start,
    {
        let rest = slice_copy(&s, start, s.len());
        let line_end = find_char(&rest, '\n');
        let line = match line_end {
            Some(i) => slice_copy(&rest, 0, i),
            None => slice_copy(&rest, 0, rest.len()),
        };
        proof {
            match line_end {
                Some(i) => {
                    lemma_use_crates_line(rest@, i as int);
                    assert(rest@.subrange(i + 1, rest.len() as int) =~= s@.subrange(start + i + 1, s.len() as int));
                },
                None => {
                    lemma_use_crates_last(rest@);
                    assert(line@ =~= rest@);
                },
            }
        }
        match use_line_crate_exec(&line) {
            Some(x) => {
                let name = string_of(&x);
                let ghost before = views(crates@);
                proof {
                    assert(seq![x@] == seq![name@]);
                }
                if !crate::graph::contains_string(&crates, &name) {
                    crates.push(name);
                    proof {
                        assert(views(crates@) =~= before.push(x@));
                    }
                }
                proof {
                    let s2 = seen.push(x@);
                    assert(s2.drop_last() =~= seen);
                    assert(seen + seq![x@] =~= s2);
                    seen = s2;
                }
            },
            None => {},
        }
        match line_end {
            Some(i) => {
                proof {
                    let tail = source_use_crates(s@.subrange(start + i + 1, s.len() as int));
                    assert(use_line_crate(line@).len() == 0 ==> use_line_crate(line@) + tail =~= tail);
                }
                start = start + i + 1;
            },
            None => {
                proof {
                    assert(seen =~= source_use_crates(source@)) by {
                        assert(s@.subrange(start as int, s.len() as int) =~= rest@);
                    }
                }
                return crates;
            },
        }
    }
}

/// The external packages a source file imports: npm packages for TypeScript,
/// crates for Rust.
pub fn module_external_specifiers(source: &str, lang: crate::project::SourceLanguage) -> (r: Vec<String>)
    ensures
        views(r@) == match lang {
            crate::project::SourceLanguage::TypeScript => external_specifiers_spec(source@),
            crate::project::SourceLanguage::Rust => rust_external_spec(source@),
        },
{
    match lang {
        crate::project::SourceLanguage::TypeScript => extract_external_specifiers(source),
        crate::project::SourceLanguage::Rust => extract_rust_external(source),
    }
}

// ---------------------------------------------------------------------------
// Laws
// ---------------------------------------------------------------------------

/// The package of a specifier that names no file or alias names none either.
proof fn lemma_package_not_relative(spec: Seq<char>)
    requires
        !is_relative_or_alias_spec(spec),
    ensures
        !is_relative_or_alias_spec(package_name_spec(spec)),
{
    let p = package_name_spec(spec);
    if seq_starts_with(spec, seq!['@']) {
        if spec.contains('/') {
            let i = first_index(spec, '/');
            crate::text::lemma_first_index_exists(spec, '/');
            assert(spec.subrange(0, 1)[0] == spec[0]);
            assert(spec[0] == '@');
            assert(i > 0);
            assert(p[0] == spec[0]);
            assert(p.subrange(0, 1) =~= seq!['@']);
        }
    } else {
        if spec.contains('/') {
            assert(false);
        }
        assert(p == spec);
    }
}

/// Adding specifiers to a duplicate-free list of packages, none naming a file or an
/// alias, keeps it so.
proof fn lemma_add_packages_clean(pkgs: Seq<Seq<char>>, specs: Seq<Seq<char>>)
    requires
        pkgs.no_duplicates(),
        forall|i: int| 0 <= i < pkgs.len() ==> !is_relative_or_alias_spec(#[trigger] pkgs[i]),
    ensures
        add_packages(pkgs, specs).no_duplicates(),
        forall|i: int| 0 <= i < add_packages(pkgs, specs).len() ==> !is_relative_or_alias_spec(#[trigger] add_packages(pkgs, specs)[i]),
    decreases specs.len(),
{
    if specs.len() > 0 {
        let next = add_package(pkgs, specs[0]);
        if !is_relative_or_alias_spec(specs[0]) && !pkgs.contains(package_name_spec(specs[0])) {
            lemma_package_not_relative(specs[0]);
            let n = package_name_spec(specs[0]);
            assert forall|a: int, b: int| 0 <= a < next.len() && 0 <= b < next.len() && a != b implies next[a] != next[b] by {
                if a == pkgs.len() {
                    assert(pkgs.contains(pkgs[b]));
                } else if b == pkgs.len() {
                    assert(pkgs.contains(pkgs[a]));
                }
            }
        }
        lemma_add_packages_clean(next, specs.drop_first());
    }
}

/// The external packages of a source are listed once each, and none of them is a
/// relative path or an alias.
pub proof fn law_external_specifiers_clean(source: Seq<char>)
    ensures
        external_specifiers_spec(source).no_duplicates(),
        forall|i: int|
            0 <= i < external_specifiers_spec(source).len() ==> !is_relative_or_alias_spec(
                #[trigger] external_specifiers_spec(source)[i],
            ),
{
    lemma_add_packages_clean(Seq::empty(), source_specs(source));
}

/// After `insert`, looking up the inserted name gives the inserted dependency, and
/// every other name gives what it gave before.
pub proof fn law_insert_then_get(before: Map<Seq<char>, ResolvedDependency>, d: ResolvedDependency, other: Seq<char>)
    requires
        other != d.name@,
    ensures
        before.insert(d.name@, d).dom().contains(d.name@),
        before.insert(d.name@, d)[d.name@] == d,
        before.insert(d.name@, d).dom().contains(other) == before.dom().contains(other),
        before.dom().contains(other) ==> before.insert(d.name@, d)[other] == before[other],
{
}


// ---------------------------------------------------------------------------
// Resolving the dependencies of a JavaScript project
// ---------------------------------------------------------------------------

/// What the resolution reads of one `package.json`.
pub struct PackageJson {
    pub dependencies: Vec<(String, String)>,
    pub dev_dependencies: Vec<(String, String)>,
    pub workspaces: Vec<String>,
}

/// What the lock file records of one package.
pub struct LockEntry {
    pub version: String,
    pub resolved: Option<String>,
    pub children: Vec<ResolvedDependency>,
}

/// Declarations by package name: version and dependency type.
pub type Decls = Seq<(Seq<char>, (Seq<char>, Seq<char>))>;

/// `d` after declaring each pair `(name, version)` with type `t`, in order.
pub open spec fn declare_all(d: Decls, pairs: Seq<(Seq<char>, Seq<char>)>, t: Seq<char>) -> Decls
    decreases pairs.len(),
{
    if pairs.len() == 0 {
        d
    } else {
        crate::matrix::put(declare_all(d, pairs.drop_last(), t), pairs.last().0, (pairs.last().1, t))
    }
}

/// The declarations of the first `k` packages: each package's dependencies as
/// `prod`, then its dev dependencies as `dev`; a later declaration of a name wins.
pub open spec fn declared_upto(pkgs: Seq<PackageJson>, k: int) -> Decls
    decreases k,
{
    if k <= 0 || k > pkgs.len() {
        Seq::empty()
    } else {
        let p = pkgs[k - 1];
        declare_all(
            declare_all(declared_upto(pkgs, k - 1), crate::matrix::str_pairs(p.dependencies@), "prod"@),
            crate::matrix::str_pairs(p.dev_dependencies@),
            "dev"@,
        )
    }
}

pub open spec fn declared(pkgs: Seq<PackageJson>) -> Decls {
    declared_upto(pkgs, pkgs.len() as int)
}

/// The lock file's entry for `n`: the last one of that name.
pub open spec fn lock_for(lock: Seq<(String, LockEntry)>, n: Seq<char>) -> Option<LockEntry>
    decreases lock.len(),
{
    if lock.len() == 0 {
        None
    } else if lock.last().0@ == n {
        Some(lock.last().1)
    } else {
        lock_for(lock.drop_last(), n)
    }
}

/// `d` is the resolution of the declaration `(n, v, t)`: what the lock file
/// records of `n`, when it does, else the declared version.
pub open spec fn resolved_as(d: ResolvedDependency, n: Seq<char>, v: Seq<char>, t: Seq<char>, e: Option<LockEntry>) -> bool {
    &&& d.name@ == n
    &&& d.dep_type@ == t
    &&& d.dependencies@.len() == 0
    &&& match e {
        Some(x) => d.version == x.version && d.resolved == x.resolved && d.children == x.children,
        None => d.version@ == v && d.resolved is None && d.children@.len() == 0,
    }
}

pub open spec fn lock_entry(lock: Option<Seq<(String, LockEntry)>>, n: Seq<char>) -> Option<LockEntry> {
    match lock {
        Some(l) => lock_for(l, n),
        None => None,
    }
}

/// The entries of a lock file, when there is one.
pub open spec fn lock_opt_view(lock: Option<Vec<(String, LockEntry)>>) -> Option<Seq<(String, LockEntry)>> {
    match lock {
        Some(l) => Some(l@),
        None => None,
    }
}

pub open spec fn decl_keys(d: Decls) -> Seq<Seq<char>> {
    d.map_values(|p: (Seq<char>, (Seq<char>, Seq<char>))| p.0)
}

pub open spec fn keys_unique(d: Decls) -> bool {
    forall|i: int, j: int| 0 <= i < j < d.len() ==> d[i].0 != d[j].0
}

proof fn lemma_put_unique(d: Decls, k: Seq<char>, v: (Seq<char>, Seq<char>))
    requires
        keys_unique(d),
    ensures
        keys_unique(crate::matrix::put(d, k, v)),
        decl_keys(crate::matrix::put(d, k, v)).to_set() == decl_keys(d).to_set().insert(k),
{
    if exists|i: int| 0 <= i < d.len() && d[i].0 == k {
        let i = choose|i: int| 0 <= i < d.len() && d[i].0 == k;
        assert forall|j: int| 0 <= j < i implies d[j].0 != k by {
        }
        crate::matrix::lemma_put_at::<(Seq<char>, Seq<char>)>(d, k, v, i);
        let q = d.update(i, (k, v));
        assert(decl_keys(q) =~= decl_keys(d));
        assert(decl_keys(d).to_set().contains(k)) by {
            assert(decl_keys(d)[i] == k);
        }
        assert(decl_keys(d).to_set().insert(k) =~= decl_keys(d).to_set());
    } else {
        crate::matrix::lemma_put_new(d, k, v);
        assert(decl_keys(d.push((k, v))) =~= decl_keys(d).push(k));
        decl_keys(d).lemma_push_to_set_commute(k);
    }
}

/// Declare `(name, (version, t))` in the exec declarations `d`.
fn declare(d: &mut Vec<(String, (String, String))>, name: &String, version: &String, t: &str)
    requires
        keys_unique(decl_views(old(d)@)),
    ensures
        decl_views(final(d)@) == crate::matrix::put(decl_views(old(d)@), name@, (version@, t@)),
        keys_unique(decl_views(final(d)@)),
{
    let ghost before = decl_views(d@);
    proof {
        lemma_put_unique(before, name@, (version@, t@));
    }
    let nc = chars_of(name.as_str());
    let mut i: usize = 0;
    while i < d.len()
        invariant
            i <= d.len(),
            nc@ == name@,
            before == decl_views(d@),
            before == decl_views(old(d)@),
            keys_unique(crate::matrix::put(before, name@, (version@, t@))),
            forall|j: int| 0 <= j < i ==> #[trigger] d@[j].0@ != name@,
        decreases d.len() - i,
    {
        if same_chars(&chars_of(d[i].0.as_str()), &nc) {
            proof {
                assert forall|j: int| 0 <= j < i implies before[j].0 != name@ by {
                    assert(before[j].0 == d@[j].0@);
                }
                crate::matrix::lemma_put_at::<(Seq<char>, Seq<char>)>(before, name@, (version@, t@), i as int);
            }
            d.set(i, (name.clone(), (version.clone(), String::from_str(t))));
            proof {
                assert(decl_views(d@) =~= before.update(i as int, (name@, (version@, t@))));
            }
            return;
        }
        i = i + 1;
    }
    proof {
        assert forall|j: int| 0 <= j < before.len() implies before[j].0 != name@ by {
            assert(before[j].0 == d@[j].0@);
        }
        crate::matrix::lemma_put_new(before, name@, (version@, t@));
    }
    d.push((name.clone(), (version.clone(), String::from_str(t))));
    proof {
        assert(decl_views(d@) =~= before.push((name@, (version@, t@))));
    }
}

pub open spec fn decl_views(v: Seq<(String, (String, String))>) -> Decls {
    v.map_values(|p: (String, (String, String))| (p.0@, (p.1.0@, p.1.1@)))
}

fn declare_pairs(d: &mut Vec<(String, (String, String))>, pairs: &Vec<(String, String)>, t: &str)
    requires
        keys_unique(decl_views(old(d)@)),
    ensures
        decl_views(final(d)@) == declare_all(decl_views(old(d)@), crate::matrix::str_pairs(pairs@), t@),
        keys_unique(decl_views(final(d)@)),
{
    let ghost d0 = decl_views(d@);
    let ghost ps = crate::matrix::str_pairs(pairs@);
    let mut k: usize = 0;
    proof {
        assert(ps.subrange(0, 0) =~= Seq::<(Seq<char>, Seq<char>)>::empty());
    }
    while k < pairs.len()
        invariant
            k <= pairs.len(),
            ps == crate::matrix::str_pairs(pairs@),
            keys_unique(decl_views(d@)),
            decl_views(d@) == declare_all(d0, ps.subrange(0, k as int), t@),
        decreases pairs.len() - k,
    {
        proof {
            assert(ps.subrange(0, k + 1).drop_last() =~= ps.subrange(0, k as int));
            assert(ps.subrange(0, k + 1).last() == (pairs@[k as int].0@, pairs@[k as int].1@));
        }
        declare(d, &pairs[k].0, &pairs[k].1, t);
        k = k + 1;
    }
    proof {
        assert(ps.subrange(0, k as int) =~= ps);
    }
}

proof fn lemma_lock_last(lock: Seq<(String, LockEntry)>, n: Seq<char>, k: int)
    requires
        0 <= k < lock.len(),
        lock[k].0@ == n,
        forall|j: int| k < j < lock.len() ==> lock[j].0@ != n,
    ensures
        lock_for(lock, n) == Some(lock[k].1),
    decreases lock.len(),
{
    if k < lock.len() - 1 {
        lemma_lock_last(lock.drop_last(), n, k);
    }
}

proof fn lemma_lock_none(lock: Seq<(String, LockEntry)>, n: Seq<char>)
    requires
        forall|j: int| 0 <= j < lock.len() ==> lock[j].0@ != n,
    ensures
        lock_for(lock, n) is None,
    decreases lock.len(),
{
    if lock.len() > 0 {
        lemma_lock_none(lock.drop_last(), n);
    }
}

/// Some entry of `lock` at or after `m` is for `n`.
pub open spec fn in_tail(lock: Seq<(String, LockEntry)>, m: int, n: Seq<char>) -> bool {
    exists|j: int| m <= j < lock.len() && #[trigger] lock[j].0@ == n
}

/// The dependency of a declaration, before the lock file is read.
fn fresh(name: &String, version: &String, t: &String) -> (r: ResolvedDependency)
    ensures
        resolved_as(r, name@, version@, t@, None),
{
    ResolvedDependency {
        name: name.clone(),
        version: version.clone(),
        resolved: None,
        dependencies: Vec::new(),
        children: Vec::new(),
        dep_type: t.clone(),
    }
}

fn position_of_decl(d: &Vec<(String, (String, String))>, n: &String) -> (r: Option<usize>)
    ensures
        match r {
            Some(i) => i < d.len() && d@[i as int].0@ == n@,
            None => forall|j: int| 0 <= j < d.len() ==> d@[j].0@ != n@,
        },
{
    let nc = chars_of(n.as_str());
    let mut i: usize = 0;
    while i < d.len()
        invariant
            i <= d.len(),
            nc@ == n@,
            forall|j: int| 0 <= j < i ==> d@[j].0@ != n@,
        decreases d.len() - i,
    {
        if same_chars(&chars_of(d[i].0.as_str()), &nc) {
            return Some(i);
        }
        i = i + 1;
    }
    None
}

/// Apply the lock file to the dependencies `deps` of the declarations `decls`.
fn apply_lock(decls: &Vec<(String, (String, String))>, deps: &mut Vec<ResolvedDependency>, lock: Vec<(String, LockEntry)>)
    requires
        keys_unique(decl_views(decls@)),
        old(deps).len() == decls.len(),
        forall|i: int| 0 <= i < decls.len() ==> resolved_as(
            #[trigger] old(deps)@[i],
            decls@[i].0@,
            decls@[i].1.0@,
            decls@[i].1.1@,
            None,
        ),
    ensures
        final(deps).len() == decls.len(),
        forall|i: int| 0 <= i < decls.len() ==> resolved_as(
            #[trigger] final(deps)@[i],
            decls@[i].0@,
            decls@[i].1.0@,
            decls@[i].1.1@,
            lock_for(lock@, decls@[i].0@),
        ),
{
    let ghost full = lock@;
    let mut rest = lock;
    let mut done: Vec<bool> = Vec::new();
    let mut k: usize = 0;
    while k < decls.len()
        invariant
            k <= decls.len(),
            done.len() == k,
            forall|i: int| 0 <= i < k ==> !done@[i],
        decreases decls.len() - k,
    {
        done.push(false);
        k = k + 1;
    }
    while rest.len() > 0
        invariant
            keys_unique(decl_views(decls@)),
            rest@ == full.subrange(0, rest.len() as int),
            rest.len() <= full.len(),
            deps.len() == decls.len(),
            done.len() == decls.len(),
            forall|i: int| 0 <= i < decls.len() ==> #[trigger] done@[i] == in_tail(full, rest.len() as int, decls@[i].0@),
            forall|i: int| 0 <= i < decls.len() ==> resolved_as(
                #[trigger] deps@[i],
                decls@[i].0@,
                decls@[i].1.0@,
                decls@[i].1.1@,
                if done@[i] { lock_for(full, decls@[i].0@) } else { None },
            ),
        decreases rest.len(),
    {
        let ghost m = rest.len() as int;
        let (n, e) = match rest.pop() {
            Some(x) => x,
            None => {
                return;
            },
        };
        proof {
            assert(full[m - 1] == (n, e));
            assert(rest@ =~= full.subrange(0, m - 1));
        }
        let ghost old_done = done@;
        match position_of_decl(decls, &n) {
            Some(i) => {
                if !done[i] {
                    proof {
                        assert(!in_tail(full, m, n@));
                        assert forall|j: int| m - 1 < j < full.len() implies full[j].0@ != n@ by {
                            if full[j].0@ == n@ {
                                assert(in_tail(full, m, n@));
                            }
                        }
                        lemma_lock_last(full, n@, m - 1);
                    }
                    let mut taken: Vec<ResolvedDependency> = Vec::new();
                    std::mem::swap(&mut taken, deps);
                    let d = taken.remove(i);
                    let nd = ResolvedDependency {
                        name: d.name,
                        version: e.version,
                        resolved: e.resolved,
                        dependencies: d.dependencies,
                        children: e.children,
                        dep_type: d.dep_type,
                    };
                    taken.insert(i, nd);
                    std::mem::swap(&mut taken, deps);
                    done.set(i, true);
                    proof {
                        assert forall|j: int| 0 <= j < decls.len() implies #[trigger] done@[j] == in_tail(full, m - 1, decls@[j].0@) by {
                            if j != i {
                                assert(decls@[j].0@ != n@) by {
                                    let dv = decl_views(decls@);
                                    assert(dv[j].0 == decls@[j].0@ && dv[i as int].0 == decls@[i as int].0@);
                                }
                                if in_tail(full, m - 1, decls@[j].0@) {
                                    let w = choose|w: int| m - 1 <= w < full.len() && #[trigger] full[w].0@ == decls@[j].0@;
                                    assert(w != m - 1);
                                    assert(in_tail(full, m, decls@[j].0@));
                                }
                                if in_tail(full, m, decls@[j].0@) {
                                    let w = choose|w: int| m <= w < full.len() && #[trigger] full[w].0@ == decls@[j].0@;
                                    assert(in_tail(full, m - 1, decls@[j].0@));
                                }
                            } else {
                                assert(full[m - 1].0@ == decls@[j].0@);
                            }
                        }
                        assert forall|j: int| 0 <= j < decls.len() implies resolved_as(
                            #[trigger] deps@[j],
                            decls@[j].0@,
                            decls@[j].1.0@,
                            decls@[j].1.1@,
                            if done@[j] { lock_for(full, decls@[j].0@) } else { None },
                        ) by {
                            if j != i {
                                assert(done@[j] == old_done[j]);
                            }
                        }
                    }
                } else {
                    proof {
                        assert forall|j: int| 0 <= j < decls.len() implies #[trigger] done@[j] == in_tail(full, m - 1, decls@[j].0@) by {
                            if j != i {
                                assert(decls@[j].0@ != n@) by {
                                    let dv = decl_views(decls@);
                                    assert(dv[j].0 == decls@[j].0@ && dv[i as int].0 == decls@[i as int].0@);
                                }
                                if in_tail(full, m - 1, decls@[j].0@) {
                                    let w = choose|w: int| m - 1 <= w < full.len() && #[trigger] full[w].0@ == decls@[j].0@;
                                    assert(w != m - 1);
                                    assert(in_tail(full, m, decls@[j].0@));
                                }
                                if in_tail(full, m, decls@[j].0@) {
                                    let w = choose|w: int| m <= w < full.len() && #[trigger] full[w].0@ == decls@[j].0@;
                                    assert(in_tail(full, m - 1, decls@[j].0@));
                                }
                            } else {
                                assert(full[m - 1].0@ == decls@[j].0@);
                            }
                        }
                    }
                }
            },
            None => {
                proof {
                    assert forall|j: int| 0 <= j < decls.len() implies #[trigger] done@[j] == in_tail(full, m - 1, decls@[j].0@) by {
                        assert(decls@[j].0@ != n@);
                        if in_tail(full, m - 1, decls@[j].0@) {
                            let w = choose|w: int| m - 1 <= w < full.len() && #[trigger] full[w].0@ == decls@[j].0@;
                            assert(w != m - 1);
                            assert(in_tail(full, m, decls@[j].0@));
                        }
                        if in_tail(full, m, decls@[j].0@) {
                            let w = choose|w: int| m <= w < full.len() && #[trigger] full[w].0@ == decls@[j].0@;
                            assert(in_tail(full, m - 1, decls@[j].0@));
                        }
                    }
                }
            },
        }
    }
    proof {
        assert forall|i: int| 0 <= i < decls.len() implies resolved_as(
            #[trigger] deps@[i],
            decls@[i].0@,
            decls@[i].1.0@,
            decls@[i].1.1@,
            lock_for(full, decls@[i].0@),
        ) by {
            if !done@[i] {
                assert forall|j: int| 0 <= j < full.len() implies full[j].0@ != decls@[i].0@ by {
                    if full[j].0@ == decls@[i].0@ {
                        assert(in_tail(full, 0, decls@[i].0@));
                    }
                }
                lemma_lock_none(full, decls@[i].0@);
            }
        }
    }
}


/// Sort dependencies of distinct names by name.
fn sort_by_name(v: Vec<ResolvedDependency>) -> (r: Vec<ResolvedDependency>)
    requires
        names_unique(v@),
    ensures
        crate::text::strictly_sorted(dep_names(r@)),
        forall|x: ResolvedDependency| r@.contains(x) <==> v@.contains(x),
{
    let ghost orig = v@;
    let mut rest = v;
    let mut r: Vec<ResolvedDependency> = Vec::new();
    proof {
        assert(rest@.subrange(0, rest.len() as int) =~= rest@);
    }
    while rest.len() > 0
        invariant
            rest@ == orig.subrange(0, rest.len() as int),
            rest.len() <= orig.len(),
            names_unique(orig),
            crate::text::strictly_sorted(dep_names(r@)),
            forall|x: ResolvedDependency| r@.contains(x) <==> orig.subrange(rest.len() as int, orig.len() as int).contains(x),
        decreases rest.len(),
    {
        let ghost m = rest.len() as int;
        let x = match rest.pop() {
            Some(x) => x,
            None => {
                return r;
            },
        };
        proof {
            assert(orig[m - 1] == x);
            assert(rest@ =~= orig.subrange(0, m - 1));
        }
        let ghost before = r@;
        let ghost xn = x.name@;
        proof {
            assert forall|j: int| 0 <= j < before.len() implies before[j].name@ != xn by {
                assert(r@.contains(before[j]));
                let t = choose|t: int| 0 <= t < orig.subrange(m, orig.len() as int).len() && orig.subrange(m, orig.len() as int)[t] == before[j];
                assert(orig[m + t] == before[j]);
            }
        }
        let mut p: usize = 0;
        while p < r.len() && !crate::text::str_lt(x.name.as_str(), r[p].name.as_str())
            invariant
                p <= r.len(),
                r@ == before,
                xn == x.name@,
                forall|j: int| 0 <= j < before.len() ==> before[j].name@ != xn,
                forall|j: int| 0 <= j < p ==> crate::text::lex_lt(#[trigger] before[j].name@, xn),
            decreases r.len() - p,
        {
            proof {
                crate::text::lemma_lex_total(xn, before[p as int].name@);
            }
            p = p + 1;
        }
        r.insert(p, x);
        proof {
            let nv = dep_names(r@);
            let bv = dep_names(before);
            assert(r@ =~= before.insert(p as int, orig[m - 1]));
            assert forall|a: int, b: int| 0 <= a < b < nv.len() implies crate::text::lex_lt(nv[a], nv[b]) by {
                if b < p {
                    assert(nv[a] == bv[a] && nv[b] == bv[b]);
                } else if b == p {
                    assert(nv[a] == bv[a]);
                } else if a == p {
                    assert(nv[b] == bv[b - 1]);
                    if b - 1 > p {
                        crate::text::lemma_lex_trans(xn, bv[p as int], bv[b - 1]);
                    }
                } else if a < p {
                    assert(nv[a] == bv[a] && nv[b] == bv[b - 1]);
                } else {
                    assert(nv[a] == bv[a - 1] && nv[b] == bv[b - 1]);
                }
            }
            assert forall|y: ResolvedDependency| r@.contains(y) <==> orig.subrange(m - 1, orig.len() as int).contains(y) by {
                let tail = orig.subrange(m, orig.len() as int);
                let tail1 = orig.subrange(m - 1, orig.len() as int);
                assert(tail1 =~= seq![orig[m - 1]] + tail);
                if r@.contains(y) {
                    let k = choose|k: int| 0 <= k < r@.len() && r@[k] == y;
                    if k < p {
                        assert(before.contains(y));
                        let t = choose|t: int| 0 <= t < tail.len() && tail[t] == y;
                        assert(tail1[t + 1] == y);
                    } else if k == p {
                        assert(tail1[0] == y);
                    } else {
                        assert(before[k - 1] == y);
                        assert(before.contains(y));
                        let t = choose|t: int| 0 <= t < tail.len() && tail[t] == y;
                        assert(tail1[t + 1] == y);
                    }
                }
                if tail1.contains(y) {
                    let t = choose|t: int| 0 <= t < tail1.len() && tail1[t] == y;
                    if t == 0 {
                        assert(r@[p as int] == y);
                    } else {
                        assert(tail[t - 1] == y);
                        assert(before.contains(y));
                        let k = choose|k: int| 0 <= k < before.len() && before[k] == y;
                        if k < p {
                            assert(r@[k] == y);
                        } else {
                            assert(r@[k + 1] == y);
                        }
                    }
                }
            }
        }
    }
    proof {
        assert(orig.subrange(0, orig.len() as int) =~= orig);
    }
    r
}

/// The dependencies of a JavaScript project from its `package.json` files (the root
/// one first, then its workspaces) and, when there is one, its lock file: one per
/// declared name, its version and details from the lock file when it records the
/// name, sorted by name.
pub fn resolve(packages: &[PackageJson], lock: Option<Vec<(String, LockEntry)>>) -> (r: Vec<ResolvedDependency>)
    ensures
        crate::text::strictly_sorted(dep_names(r@)),
        dep_names(r@).to_set() == decl_keys(declared(packages@)).to_set(),
        forall|i: int| 0 <= i < r.len() ==> {
            let d = #[trigger] r@[i];
            match crate::matrix::assoc_get(declared(packages@), d.name@) {
                Some(vt) => resolved_as(d, d.name@, vt.0, vt.1, lock_entry(lock_opt_view(lock), d.name@)),
                None => false,
            }
        },
{
    let ghost lock_view = lock_opt_view(lock);
    let mut decls: Vec<(String, (String, String))> = Vec::new();
    proof {
        assert(decl_views(decls@) =~= declared_upto(packages@, 0));
    }
    let mut k: usize = 0;
    while k < packages.len()
        invariant
            k <= packages.len(),
            keys_unique(decl_views(decls@)),
            decl_views(decls@) == declared_upto(packages@, k as int),
        decreases packages.len() - k,
    {
        declare_pairs(&mut decls, &packages[k].dependencies, "prod");
        declare_pairs(&mut decls, &packages[k].dev_dependencies, "dev");
        k = k + 1;
    }
    let ghost dv = decl_views(decls@);
    let mut deps: Vec<ResolvedDependency> = Vec::new();
    let mut i: usize = 0;
    while i < decls.len()
        invariant
            i <= decls.len(),
            deps.len() == i,
            forall|j: int| 0 <= j < i ==> resolved_as(#[trigger] deps@[j], decls@[j].0@, decls@[j].1.0@, decls@[j].1.1@, None),
        decreases decls.len() - i,
    {
        deps.push(fresh(&decls[i].0, &decls[i].1.0, &decls[i].1.1));
        i = i + 1;
    }
    match lock {
        Some(l) => {
            apply_lock(&decls, &mut deps, l);
        },
        None => {},
    }
    proof {
        assert forall|j: int| 0 <= j < decls.len() implies resolved_as(
            #[trigger] deps@[j],
            decls@[j].0@,
            decls@[j].1.0@,
            decls@[j].1.1@,
            lock_entry(lock_view, decls@[j].0@),
        ) by {
        }
        assert(names_unique(deps@)) by {
            assert forall|a: int, b: int| 0 <= a < b < deps@.len() implies deps@[a].name@ != deps@[b].name@ by {
                assert(dv[a].0 == decls@[a].0@ && dv[b].0 == decls@[b].0@);
            }
        }
    }
    let ghost unsorted = deps@;
    let r = sort_by_name(deps);
    proof {
        let ds = declared(packages@);
        assert(dv == ds);
        assert forall|i: int| 0 <= i < r.len() implies {
            let d = #[trigger] r@[i];
            match crate::matrix::assoc_get(ds, d.name@) {
                Some(vt) => resolved_as(d, d.name@, vt.0, vt.1, lock_entry(lock_view, d.name@)),
                None => false,
            }
        } by {
            let d = r@[i];
            assert(r@.contains(d));
            assert(unsorted.contains(d));
            let j = choose|j: int| 0 <= j < unsorted.len() && unsorted[j] == d;
            assert(dv[j] == (decls@[j].0@, (decls@[j].1.0@, decls@[j].1.1@)));
            assert forall|t: int| 0 <= t < j implies dv[t].0 != d.name@ by {
            }
            crate::matrix::lemma_assoc_first_pub(dv, d.name@, j);
        }
        assert(dep_names(r@).to_set() =~= decl_keys(ds).to_set()) by {
            assert forall|n: Seq<char>| dep_names(r@).to_set().contains(n) <==> decl_keys(ds).to_set().contains(n) by {
                if dep_names(r@).contains(n) {
                    let t = choose|t: int| 0 <= t < r@.len() && dep_names(r@)[t] == n;
                    assert(r@.contains(r@[t]));
                    assert(unsorted.contains(r@[t]));
                    let j = choose|j: int| 0 <= j < unsorted.len() && unsorted[j] == r@[t];
                    assert(decl_keys(ds)[j] == n);
                }
                if decl_keys(ds).contains(n) {
                    let j = choose|j: int| 0 <= j < decl_keys(ds).len() && decl_keys(ds)[j] == n;
                    assert(unsorted.contains(unsorted[j]));
                    assert(r@.contains(unsorted[j]));
                    let t = choose|t: int| 0 <= t < r@.len() && r@[t] == unsorted[j];
                    assert(dep_names(r@)[t] == n);
                }
            }
        }
    }
    r
}


/// The dependency that a package of a Cargo workspace's metadata makes: a
/// `workspace` one when the package is a member of the workspace or has no
/// source, else a `prod` one; its source is where it resolves to.
pub fn crate_dependency(
    name: String,
    version: String,
    source: Option<String>,
    dependencies: Vec<String>,
    is_workspace_member: bool,
) -> (r: ResolvedDependency)
    ensures
        r.name == name,
        r.version == version,
        r.resolved == source,
        r.dependencies == dependencies,
        r.children@.len() == 0,
        r.dep_type@ == (if is_workspace_member || source is None {
            "workspace"@
        } else {
            "prod"@
        }),
{
    let dep_type = if is_workspace_member || source.is_none() {
        String::from_str("workspace")
    } else {
        String::from_str("prod")
    };
    ResolvedDependency { name, version, resolved: source, dependencies, children: Vec::new(), dep_type }
}


// ---------------------------------------------------------------------------
// Lock file records
// ---------------------------------------------------------------------------

/// What a lock file records of one package: its version, where it was downloaded
/// from, and the names of the packages it depends on.
pub struct LockRecord {
    pub version: String,
    pub resolved: Option<String>,
    pub dependencies: Vec<String>,
}

/// The record kept under `name`, if any (the first one).
pub open spec fn record_for(records: Seq<(String, LockRecord)>, name: Seq<char>) -> Option<LockRecord>
    decreases records.len(),
{
    if records.len() == 0 {
        None
    } else if records[0].0@ == name {
        Some(records[0].1)
    } else {
        record_for(records.drop_first(), name)
    }
}

/// No package is recorded twice.
pub open spec fn records_unique(records: Seq<(String, LockRecord)>) -> bool {
    forall|i: int, j: int| 0 <= i < j < records.len() ==> records[i].0@ != records[j].0@
}

/// A dependency named `name` of a locked package: the package's own record when the
/// lock file has one, its dependencies named but not followed; else the name alone.
pub open spec fn locked_child(records: Seq<(String, LockRecord)>, name: Seq<char>, d: ResolvedDependency) -> bool {
    &&& d.name@ == name
    &&& d.dep_type@ == "prod"@
    &&& d.children@.len() == 0
    &&& match record_for(records, name) {
        Some(rec) => d.version@ == rec.version@ && crate::compat::opt_view(d.resolved) == crate::compat::opt_view(
            rec.resolved,
        ) && views(d.dependencies@) == views(rec.dependencies@),
        None => d.version@.len() == 0 && d.resolved is None && d.dependencies@.len() == 0,
    }
}

/// The lock entry of a record: its version and download location, and a child for
/// each of its dependencies, in order.
pub open spec fn locked_entry(records: Seq<(String, LockRecord)>, rec: LockRecord, e: LockEntry) -> bool {
    &&& e.version@ == rec.version@
    &&& crate::compat::opt_view(e.resolved) == crate::compat::opt_view(rec.resolved)
    &&& e.children@.len() == rec.dependencies@.len()
    &&& forall|j: int| 0 <= j < e.children@.len() ==> locked_child(records, rec.dependencies@[j]@, #[trigger] e.children@[j])
}

/// Position of the record of `name`, if any.
fn find_record(records: &Vec<(String, LockRecord)>, name: &String) -> (r: Option<usize>)
    ensures
        match r {
            Some(i) => i < records.len() && record_for(records@, name@) == Some(records@[i as int].1),
            None => record_for(records@, name@) is None,
        },
{
    let ghost all = records@;
    let mut i: usize = 0;
    proof {
        assert(all.subrange(0, all.len() as int) =~= all);
    }
    while i < records.len()
        invariant
            i <= records.len(),
            all == records@,
            record_for(all, name@) == record_for(all.subrange(i as int, all.len() as int), name@),
        decreases records.len() - i,
    {
        let ghost rest = all.subrange(i as int, all.len() as int);
        proof {
            assert(rest[0] == all[i as int]);
            assert(rest.drop_first() =~= all.subrange(i + 1, all.len() as int));
        }
        if records[i].0 == *name {
            return Some(i);
        }
        i = i + 1;
    }
    proof {
        assert(all.subrange(i as int, all.len() as int).len() == 0);
    }
    None
}

/// The lock entries of the recorded packages, in record order: each with its
/// version, download location, and a child for each dependency, described by that
/// dependency's own record when there is one.
pub fn lock_entries(records: &Vec<(String, LockRecord)>) -> (r: Vec<(String, LockEntry)>)
    requires
        records_unique(records@),
    ensures
        r.len() == records.len(),
        forall|i: int|
            0 <= i < r.len() ==> (#[trigger] r@[i]).0@ == records@[i].0@ && locked_entry(records@, records@[i].1, r@[i].1),
{
    let mut out: Vec<(String, LockEntry)> = Vec::new();
    let mut i: usize = 0;
    while i < records.len()
        invariant
            i <= records.len(),
            out.len() == i,
            forall|k: int|
                0 <= k < i ==> (#[trigger] out@[k]).0@ == records@[k].0@ && locked_entry(records@, records@[k].1, out@[k].1),
        decreases records.len() - i,
    {
        let rec = &records[i].1;
        let mut children: Vec<ResolvedDependency> = Vec::new();
        let mut j: usize = 0;
        while j < rec.dependencies.len()
            invariant
                j <= rec.dependencies.len(),
                children.len() == j,
                forall|c: int| 0 <= c < j ==> locked_child(records@, rec.dependencies@[c]@, #[trigger] children@[c]),
            decreases rec.dependencies.len() - j,
        {
            let name = &rec.dependencies[j];
            let child = match find_record(records, name) {
                Some(x) => {
                    let cr = &records[x].1;
                    ResolvedDependency {
                        name: name.clone(),
                        version: cr.version.clone(),
                        resolved: crate::compat::copy_opt_string(&cr.resolved),
                        dependencies: crate::compat::copy_strings(&cr.dependencies),
                        children: Vec::new(),
                        dep_type: default_dep_type(),
                    }
                },
                None => ResolvedDependency {
                    name: name.clone(),
                    version: String::new(),
                    resolved: None,
                    dependencies: Vec::new(),
                    children: Vec::new(),
                    dep_type: default_dep_type(),
                },
            };
            children.push(child);
            j = j + 1;
        }
        let entry = LockEntry {
            version: rec.version.clone(),
            resolved: crate::compat::copy_opt_string(&rec.resolved),
            children,
        };
        out.push((records[i].0.clone(), entry));
        i = i + 1;
    }
    out
}

} // verus!
