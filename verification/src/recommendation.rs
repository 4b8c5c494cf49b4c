//! Migration recommendations: per dependency, how it ports, how much work it is,
//! and which modules import it.
use vstd::prelude::*;
use vstd::multiset::Multiset;
use crate::compat::{opt_view, CompatibilityEntry, CompatibilityLevel, EntryView, MigrationEffort};
use crate::deps::ResolvedDependency;
use crate::matrix::{keys_unique, module_pairs, CompatibilityMatrix};
use crate::text::{lex_lt, lemma_lex_total, lemma_lex_trans, views};

verus! {

/// A migration recommendation for one external dependency.
pub struct DependencyRecommendation {
    pub package: String,
    pub version: String,
    pub compatibility: CompatibilityLevel,
    pub effort: MigrationEffort,
    pub equivalent: Option<String>,
    pub guidance: Option<String>,
    pub note: Option<String>,
    pub risk_tags: Vec<String>,
    /// Modules (relative file paths) that import this dependency.
    pub affected_modules: Vec<String>,
    pub affected_module_count: usize,
    /// The dependency is imported by many modules and ports badly.
    pub is_high_impact: bool,
}

/// The recommendations of a project.
pub struct RecommendationReport {
    pub source_language: String,
    pub target_language: String,
    /// Dependencies with no compatibility mapping.
    pub unmapped_count: usize,
    /// Dependencies rated heavy or rewrite effort.
    pub heavy_count: usize,
    pub dependencies: Vec<DependencyRecommendation>,
}

/// The value of a [`DependencyRecommendation`].
pub struct RecView {
    pub package: Seq<char>,
    pub version: Seq<char>,
    pub compatibility: CompatibilityLevel,
    pub effort: MigrationEffort,
    pub equivalent: Option<Seq<char>>,
    pub guidance: Option<Seq<char>>,
    pub note: Option<Seq<char>>,
    pub risk_tags: Seq<Seq<char>>,
    pub affected_modules: Seq<Seq<char>>,
    pub affected_module_count: nat,
    pub is_high_impact: bool,
}

impl View for DependencyRecommendation {
    type V = RecView;

    open spec fn view(&self) -> RecView {
        RecView {
            package: self.package@,
            version: self.version@,
            compatibility: self.compatibility,
            effort: self.effort,
            equivalent: opt_view(self.equivalent),
            guidance: opt_view(self.guidance),
            note: opt_view(self.note),
            risk_tags: views(self.risk_tags@),
            affected_modules: views(self.affected_modules@),
            affected_module_count: self.affected_module_count as nat,
            is_high_impact: self.is_high_impact,
        }
    }
}

/// The modules, in order, whose imports include `package`.
pub open spec fn importers(md: Seq<(Seq<char>, Seq<Seq<char>>)>, package: Seq<char>) -> Seq<Seq<char>>
    decreases md.len(),
{
    if md.len() == 0 {
        Seq::empty()
    } else {
        let rest = importers(md.drop_last(), package);
        if md.last().1.contains(package) {
            rest.push(md.last().0)
        } else {
            rest
        }
    }
}

/// The recommendation for a dependency with compatibility entry `e`, imported by
/// `affected`.
pub open spec fn recommendation(name: Seq<char>, version: Seq<char>, e: EntryView, affected: Seq<Seq<char>>) -> RecView {
    RecView {
        package: name,
        version,
        compatibility: e.compatibility,
        effort: e.effort,
        equivalent: e.equivalent,
        guidance: e.guidance,
        note: e.note,
        risk_tags: e.risk_tags,
        affected_modules: affected,
        affected_module_count: affected.len(),
        is_high_impact: affected.len() > 5 && (e.compatibility == CompatibilityLevel::Unknown
            || e.compatibility == CompatibilityLevel::Incompatible),
    }
}

/// The recommendation for `d`, before sorting.
pub open spec fn rec_for(m: CompatibilityMatrix, d: ResolvedDependency, md: Option<Seq<(Seq<char>, Seq<Seq<char>>)>>) -> RecView {
    recommendation(
        d.name@,
        d.version@,
        m.evaluated(d.name@),
        match md {
            Some(x) => importers(x, d.name@),
            None => Seq::empty(),
        },
    )
}

pub open spec fn module_view(md: Option<&Vec<(String, Vec<String>)>>) -> Option<Seq<(Seq<char>, Seq<Seq<char>>)>> {
    match md {
        Some(x) => Some(module_pairs(x@)),
        None => None,
    }
}

/// The recommendations of `deps`, in their order.
pub open spec fn unsorted_recs(
    m: CompatibilityMatrix,
    deps: Seq<ResolvedDependency>,
    md: Option<Seq<(Seq<char>, Seq<Seq<char>>)>>,
) -> Seq<RecView> {
    deps.map_values(|d: ResolvedDependency| rec_for(m, d, md))
}

/// `a` comes strictly before `b`: high impact first, then more affected modules
/// first, then by package name.
pub open spec fn rec_before(a: RecView, b: RecView) -> bool {
    ||| a.is_high_impact && !b.is_high_impact
    ||| a.is_high_impact == b.is_high_impact && a.affected_module_count > b.affected_module_count
    ||| a.is_high_impact == b.is_high_impact && a.affected_module_count == b.affected_module_count
        && lex_lt(a.package, b.package)
}

pub open spec fn rec_sorted(v: Seq<RecView>) -> bool {
    forall|i: int, j: int| 0 <= i < j < v.len() ==> !rec_before(#[trigger] v[j], #[trigger] v[i])
}

pub open spec fn rec_views(v: Seq<DependencyRecommendation>) -> Seq<RecView> {
    v.map_values(|r: DependencyRecommendation| r@)
}

/// Number of the first `n` dependencies whose entry is unmapped.
pub open spec fn unmapped_upto(m: CompatibilityMatrix, deps: Seq<ResolvedDependency>, n: int) -> nat
    decreases n,
{
    if n <= 0 || n > deps.len() {
        0
    } else {
        unmapped_upto(m, deps, n - 1) + if m.evaluated(deps[n - 1].name@).risk_tags.contains("unmapped"@) {
            1nat
        } else {
            0nat
        }
    }
}

/// Number of the first `n` dependencies rated heavy or rewrite effort.
pub open spec fn heavy_upto(m: CompatibilityMatrix, deps: Seq<ResolvedDependency>, n: int) -> nat
    decreases n,
{
    if n <= 0 || n > deps.len() {
        0
    } else {
        heavy_upto(m, deps, n - 1) + if m.evaluated(deps[n - 1].name@).effort == MigrationEffort::Rewrite
            || m.evaluated(deps[n - 1].name@).effort == MigrationEffort::Heavy {
            1nat
        } else {
            0nat
        }
    }
}

proof fn lemma_before_asym(a: RecView, b: RecView)
    ensures
        !(rec_before(a, b) && rec_before(b, a)),
{
    lemma_lex_total(a.package, b.package);
}

proof fn lemma_before_trans(a: RecView, b: RecView, c: RecView)
    requires
        rec_before(a, b),
        rec_before(b, c),
    ensures
        rec_before(a, c),
{
    if a.is_high_impact == b.is_high_impact && b.is_high_impact == c.is_high_impact
        && a.affected_module_count == b.affected_module_count && b.affected_module_count == c.affected_module_count {
        lemma_lex_trans(a.package, b.package, c.package);
    }
}

/// The modules of `md` that import `package`.
fn importers_exec(md: &Vec<(String, Vec<String>)>, package: &String) -> (r: Vec<String>)
    ensures
        views(r@) == importers(module_pairs(md@), package@),
{
    let ghost mp = module_pairs(md@);
    let mut r: Vec<String> = Vec::new();
    let mut k: usize = 0;
    proof {
        assert(mp.subrange(0, 0) =~= Seq::<(Seq<char>, Seq<Seq<char>>)>::empty());
        assert(views(r@) =~= Seq::<Seq<char>>::empty());
    }
    while k < md.len()
        invariant
            k <= md.len(),
            mp == module_pairs(md@),
            views(r@) == importers(mp.subrange(0, k as int), package@),
        decreases md.len() - k,
    {
        proof {
            assert(mp.subrange(0, k + 1).drop_last() =~= mp.subrange(0, k as int));
            assert(mp.subrange(0, k + 1).last() == (md@[k as int].0@, views(md@[k as int].1@)));
        }
        if crate::graph::contains_string(&md[k].1, package) {
            let ghost before = views(r@);
            let c = md[k].0.clone();
            r.push(c);
            proof {
                assert(views(r@) =~= before.push(md@[k as int].0@));
            }
        }
        k = k + 1;
    }
    proof {
        assert(mp.subrange(0, k as int) =~= mp);
    }
    r
}

fn rec_before_exec(a: &DependencyRecommendation, b: &DependencyRecommendation) -> (r: bool)
    ensures
        r == rec_before(a@, b@),
{
    (a.is_high_impact && !b.is_high_impact)
        || (a.is_high_impact == b.is_high_impact && a.affected_module_count > b.affected_module_count)
        || (a.is_high_impact == b.is_high_impact && a.affected_module_count == b.affected_module_count
            && crate::text::str_lt(a.package.as_str(), b.package.as_str()))
}

/// Insert `x` into the sorted `v` after every recommendation it does not come
/// strictly before.
fn insert_sorted(v: &mut Vec<DependencyRecommendation>, x: DependencyRecommendation)
    requires
        rec_sorted(rec_views(old(v)@)),
    ensures
        rec_sorted(rec_views(final(v)@)),
        rec_views(final(v)@).to_multiset() == rec_views(old(v)@).to_multiset().insert(x@),
{
    let ghost old_v = rec_views(v@);
    let mut p: usize = 0;
    while p < v.len() && !rec_before_exec(&x, &v[p])
        invariant
            p <= v.len(),
            rec_views(v@) == old_v,
            forall|j: int| 0 <= j < p ==> !rec_before(x@, #[trigger] old_v[j]),
        decreases v.len() - p,
    {
        p = p + 1;
    }
    let ghost xv = x@;
    v.insert(p, x);
    proof {
        let nv = rec_views(v@);
        assert(nv =~= old_v.insert(p as int, xv));
        assert forall|i: int, j: int| 0 <= i < j < nv.len() implies !rec_before(#[trigger] nv[j], #[trigger] nv[i]) by {
            if j < p {
                assert(nv[i] == old_v[i] && nv[j] == old_v[j]);
            } else if j == p {
                assert(nv[i] == old_v[i]);
                lemma_before_asym(xv, old_v[i]);
                if rec_before(xv, old_v[i]) {
                    assert(false);
                }
            } else if i == p {
                assert(nv[j] == old_v[j - 1]);
                assert(rec_before(xv, old_v[p as int]));
                if rec_before(old_v[j - 1], xv) {
                    lemma_before_trans(old_v[j - 1], xv, old_v[p as int]);
                    if j - 1 == p {
                        lemma_before_asym(old_v[p as int], old_v[p as int]);
                    }
                }
            } else if i < p {
                assert(nv[i] == old_v[i] && nv[j] == old_v[j - 1]);
            } else {
                assert(nv[i] == old_v[i - 1] && nv[j] == old_v[j - 1]);
            }
        }
        vstd::seq_lib::to_multiset_insert(old_v, p as int, xv);
    }
}

/// Recommendations for every dependency: its compatibility entry (unmapped when the
/// matrix knows nothing of it) and the modules of `module_deps` (module, imported
/// packages) that import it, sorted high impact first, then by most affected modules,
/// then by package name; with the numbers of unmapped and of heavy dependencies.
pub fn build_recommendations(
    dependencies: &[ResolvedDependency],
    matrix: &CompatibilityMatrix,
    module_deps: Option<&Vec<(String, Vec<String>)>>,
) -> (r: RecommendationReport)
    requires
        module_view(module_deps) matches Some(md) ==> keys_unique(md),
    ensures
        r.source_language@ == matrix.src_lang(),
        r.target_language@ == matrix.tgt_lang(),
        r.unmapped_count == unmapped_upto(*matrix, dependencies@, dependencies@.len() as int),
        r.heavy_count == heavy_upto(*matrix, dependencies@, dependencies@.len() as int),
        rec_sorted(rec_views(r.dependencies@)),
        rec_views(r.dependencies@).to_multiset() == unsorted_recs(*matrix, dependencies@, module_view(module_deps)).to_multiset(),
{
    let ghost md = module_view(module_deps);
    let ghost all = unsorted_recs(*matrix, dependencies@, md);
    let mut out: Vec<DependencyRecommendation> = Vec::new();
    let mut unmapped: usize = 0;
    let mut heavy: usize = 0;
    let mut k: usize = 0;
    proof {
        assert(rec_views(out@) =~= Seq::<RecView>::empty());
        assert(all.subrange(0, 0) =~= Seq::<RecView>::empty());
    }
    while k < dependencies.len()
        invariant
            k <= dependencies.len(),
            md == module_view(module_deps),
            all == unsorted_recs(*matrix, dependencies@, md),
            rec_sorted(rec_views(out@)),
            rec_views(out@).to_multiset() == all.subrange(0, k as int).to_multiset(),
            unmapped == unmapped_upto(*matrix, dependencies@, k as int),
            heavy == heavy_upto(*matrix, dependencies@, k as int),
            unmapped <= k,
            heavy <= k,
        decreases dependencies.len() - k,
    {
        let dep = &dependencies[k];
        let entry: CompatibilityEntry = matrix.evaluate_one(dep.name.as_str());
        let affected: Vec<String> = match module_deps {
            Some(x) => importers_exec(x, &dep.name),
            None => {
                let v: Vec<String> = Vec::new();
                proof {
                    assert(views(v@) =~= Seq::<Seq<char>>::empty());
                }
                v
            },
        };
        let count = affected.len();
        let high = count > 5 && (entry.compatibility == CompatibilityLevel::Unknown
            || entry.compatibility == CompatibilityLevel::Incompatible);
        if crate::graph::contains_string(&entry.risk_tags, &String::from_str("unmapped")) {
            unmapped = unmapped + 1;
        }
        if entry.effort == MigrationEffort::Rewrite || entry.effort == MigrationEffort::Heavy {
            heavy = heavy + 1;
        }
        let rec = DependencyRecommendation {
            package: dep.name.clone(),
            version: dep.version.clone(),
            compatibility: entry.compatibility,
            effort: entry.effort,
            equivalent: entry.equivalent,
            guidance: entry.guidance,
            note: entry.note,
            risk_tags: entry.risk_tags,
            affected_modules: affected,
            affected_module_count: count,
            is_high_impact: high,
        };
        proof {
            assert(rec@ =~~= all[k as int]);
            assert(all.subrange(0, k + 1) =~= all.subrange(0, k as int).push(all[k as int]));
            vstd::seq_lib::to_multiset_build(all.subrange(0, k as int), all[k as int]);
        }
        insert_sorted(&mut out, rec);
        k = k + 1;
    }
    proof {
        assert(all.subrange(0, k as int) =~= all);
    }
    RecommendationReport {
        source_language: String::from_str(matrix.source_language()),
        target_language: String::from_str(matrix.target_language()),
        unmapped_count: unmapped,
        heavy_count: heavy,
        dependencies: out,
    }
}


/// An effort that weighs on a migration: heavy, or a rewrite.
pub open spec fn weighs(e: MigrationEffort) -> bool {
    e == MigrationEffort::Heavy || e == MigrationEffort::Rewrite
}

proof fn lemma_heavy_prefix(m: CompatibilityMatrix, deps: Seq<ResolvedDependency>, n: int)
    requires
        0 <= n <= deps.len(),
    ensures
        heavy_upto(m, deps, n) == deps.subrange(0, n).filter(|d: ResolvedDependency| weighs(m.evaluated(d.name@).effort)).len(),
    decreases n,
{
    reveal(Seq::filter);
    let s = deps.subrange(0, n);
    if n > 0 {
        lemma_heavy_prefix(m, deps, n - 1);
        assert(s.drop_last() =~= deps.subrange(0, n - 1));
        assert(s.last() == deps[n - 1]);
    } else {
        assert(s.len() == 0);
    }
}

/// The heavy count of the recommendations is the number of dependencies whose
/// evaluated effort is heavy or a rewrite.
pub proof fn law_heavy_count(m: CompatibilityMatrix, deps: Seq<ResolvedDependency>)
    ensures
        heavy_upto(m, deps, deps.len() as int) == deps.filter(|d: ResolvedDependency| weighs(m.evaluated(d.name@).effort)).len(),
{
    lemma_heavy_prefix(m, deps, deps.len() as int);
    assert(deps.subrange(0, deps.len() as int) =~= deps);
}


proof fn lemma_unmapped_prefix(m: CompatibilityMatrix, deps: Seq<ResolvedDependency>, n: int)
    requires
        0 <= n <= deps.len(),
    ensures
        unmapped_upto(m, deps, n) == deps.subrange(0, n).filter(
            |d: ResolvedDependency| m.evaluated(d.name@).risk_tags.contains("unmapped"@),
        ).len(),
    decreases n,
{
    reveal(Seq::filter);
    let s = deps.subrange(0, n);
    if n > 0 {
        lemma_unmapped_prefix(m, deps, n - 1);
        assert(s.drop_last() =~= deps.subrange(0, n - 1));
        assert(s.last() == deps[n - 1]);
    }
}

/// The unmapped count of the recommendations is the number of dependencies whose
/// evaluated entry is tagged `unmapped`.
pub proof fn law_unmapped_count(m: CompatibilityMatrix, deps: Seq<ResolvedDependency>)
    ensures
        unmapped_upto(m, deps, deps.len() as int) == deps.filter(
            |d: ResolvedDependency| m.evaluated(d.name@).risk_tags.contains("unmapped"@),
        ).len(),
{
    lemma_unmapped_prefix(m, deps, deps.len() as int);
    assert(deps.subrange(0, deps.len() as int) =~= deps);
}

/// A recommendation is high impact exactly when more than five modules import the
/// package and its compatibility is neither partial nor full; it carries the
/// entry's compatibility and effort, and counts the modules it lists.
pub proof fn law_recommendation_impact(name: Seq<char>, version: Seq<char>, e: EntryView, affected: Seq<Seq<char>>)
    ensures
        ({
            let r = recommendation(name, version, e, affected);
            &&& r.is_high_impact <==> (r.affected_module_count > 5 && r.compatibility != CompatibilityLevel::Partial
                && r.compatibility != CompatibilityLevel::Full)
            &&& r.affected_module_count == r.affected_modules.len()
            &&& r.compatibility == e.compatibility
            &&& r.effort == e.effort
        }),
{
}

} // verus!
