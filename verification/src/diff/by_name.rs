//! Matching the symbols of two versions of a file by name, around the renames
//! found between them.
use vstd::prelude::*;
use crate::diff::Ratio;
use crate::diff::engine::SymbolMapping;
use crate::symbols::Symbol;

verus! {

/// The last position among the first `m` symbols of one named `n`, or `-1`.
pub open spec fn last_named_upto(syms: Seq<Symbol>, n: Seq<char>, m: int) -> int
    decreases m,
{
    if m <= 0 {
        -1
    } else if syms[m - 1].name@ == n {
        m - 1
    } else {
        last_named_upto(syms, n, m - 1)
    }
}

/// The last position of a symbol named `n`, or `-1` when there is none: what a
/// map from names to positions, filled in order, holds.
pub open spec fn last_named(syms: Seq<Symbol>, n: Seq<char>) -> int {
    last_named_upto(syms, n, syms.len() as int)
}

/// The old ids of the renames.
pub open spec fn rename_sources(renamed: Seq<(String, String)>) -> Seq<Seq<char>> {
    renamed.map_values(|p: (String, String)| p.0@)
}

/// The new ids of the renames.
pub open spec fn rename_targets(renamed: Seq<(String, String)>) -> Seq<Seq<char>> {
    renamed.map_values(|p: (String, String)| p.1@)
}

/// Positions, in order, of the first `m` new symbols whose name the old version
/// lacks and that are no rename's target.
pub open spec fn added_upto(olds: Seq<Symbol>, news: Seq<Symbol>, renamed: Seq<(String, String)>, m: int) -> Seq<usize>
    decreases m,
{
    if m <= 0 {
        Seq::empty()
    } else {
        let r = added_upto(olds, news, renamed, m - 1);
        let s = news[m - 1];
        if last_named(olds, s.name@) < 0 && !rename_targets(renamed).contains(s.id@) {
            r.push((m - 1) as usize)
        } else {
            r
        }
    }
}

/// Positions, in order, of the first `m` old symbols whose name the new version
/// lacks and that are no rename's source.
pub open spec fn removed_upto(olds: Seq<Symbol>, news: Seq<Symbol>, renamed: Seq<(String, String)>, m: int) -> Seq<usize>
    decreases m,
{
    if m <= 0 {
        Seq::empty()
    } else {
        let r = removed_upto(olds, news, renamed, m - 1);
        let s = olds[m - 1];
        if last_named(news, s.name@) < 0 && !rename_sources(renamed).contains(s.id@) {
            r.push((m - 1) as usize)
        } else {
            r
        }
    }
}

/// For each of the first `m` old symbols whose name the new version has, in order:
/// its position and that of the last new symbol of that name.
pub open spec fn stable_upto(olds: Seq<Symbol>, news: Seq<Symbol>, m: int) -> Seq<(usize, usize)>
    decreases m,
{
    if m <= 0 {
        Seq::empty()
    } else {
        let r = stable_upto(olds, news, m - 1);
        let j = last_named(news, olds[m - 1].name@);
        if j >= 0 {
            r.push(((m - 1) as usize, j as usize))
        } else {
            r
        }
    }
}

/// Position of the last symbol named `n`.
fn last_named_exec(syms: &[Symbol], n: &String) -> (r: Option<usize>)
    ensures
        match r {
            Some(p) => p as int == last_named(syms@, n@) && p < syms.len(),
            None => last_named(syms@, n@) < 0,
        },
{
    let mut found: Option<usize> = None;
    let mut k: usize = 0;
    while k < syms.len()
        invariant
            k <= syms.len(),
            match found {
                Some(p) => p as int == last_named_upto(syms@, n@, k as int) && p < k,
                None => last_named_upto(syms@, n@, k as int) < 0,
            },
        decreases syms.len() - k,
    {
        if syms[k].name == *n {
            found = Some(k);
        }
        k = k + 1;
    }
    found
}

/// Whether some rename has `id` as its source (`sources`) or as its target.
fn rename_mentions(renamed: &Vec<(String, String)>, id: &String, sources: bool) -> (r: bool)
    ensures
        r == if sources { rename_sources(renamed@).contains(id@) } else { rename_targets(renamed@).contains(id@) },
{
    let mut k: usize = 0;
    while k < renamed.len()
        invariant
            k <= renamed.len(),
            forall|j: int| 0 <= j < k ==> (if sources { renamed@[j].0@ } else { renamed@[j].1@ }) != id@,
        decreases renamed.len() - k,
    {
        let hit = if sources { renamed[k].0 == *id } else { renamed[k].1 == *id };
        if hit {
            proof {
                if sources {
                    assert(rename_sources(renamed@)[k as int] == id@);
                } else {
                    assert(rename_targets(renamed@)[k as int] == id@);
                }
            }
            return true;
        }
        k = k + 1;
    }
    proof {
        if sources && rename_sources(renamed@).contains(id@) {
            let j = choose|j: int| 0 <= j < renamed.len() && rename_sources(renamed@)[j] == id@;
            assert(renamed@[j].0@ == id@);
        }
        if !sources && rename_targets(renamed@).contains(id@) {
            let j = choose|j: int| 0 <= j < renamed.len() && rename_targets(renamed@)[j] == id@;
            assert(renamed@[j].1@ == id@);
        }
    }
    false
}

/// For each of the first `m` symbols of `syms` whose name `other` lacks, in order
/// (repeated names included): the position of the last symbol of that name.
pub open spec fn unmatched_upto(syms: Seq<Symbol>, other: Seq<Symbol>, m: int) -> Seq<usize>
    decreases m,
{
    if m <= 0 {
        Seq::empty()
    } else {
        let r = unmatched_upto(syms, other, m - 1);
        let n = syms[m - 1].name@;
        if last_named(other, n) < 0 {
            r.push(last_named(syms, n) as usize)
        } else {
            r
        }
    }
}

/// The pairs `(p, q)` for the first `k` of `qs`, in order, whose symbols have the
/// same kind.
pub open spec fn pairs_with(olds: Seq<Symbol>, news: Seq<Symbol>, p: usize, qs: Seq<usize>, k: int) -> Seq<(usize, usize)>
    decreases k,
{
    if k <= 0 {
        Seq::empty()
    } else {
        let r = pairs_with(olds, news, p, qs, k - 1);
        if olds[p as int].kind@ == news[qs[k - 1] as int].kind@ {
            r.push((p, qs[k - 1]))
        } else {
            r
        }
    }
}

/// The candidate pairs for the first `m` of `ps`, each against all of `qs`.
pub open spec fn candidates_upto(olds: Seq<Symbol>, news: Seq<Symbol>, ps: Seq<usize>, qs: Seq<usize>, m: int) -> Seq<(usize, usize)>
    decreases m,
{
    if m <= 0 {
        Seq::empty()
    } else {
        candidates_upto(olds, news, ps, qs, m - 1) + pairs_with(olds, news, ps[m - 1], qs, qs.len() as int)
    }
}

/// The pairs of symbols that may be a rename, in order: for each old symbol whose
/// name the new version lacks, each new symbol whose name the old version lacks,
/// each taken as the last symbol of its name, when both have the same kind.
pub open spec fn rename_candidates_spec(olds: Seq<Symbol>, news: Seq<Symbol>) -> Seq<(usize, usize)> {
    let ps = unmatched_upto(olds, news, olds.len() as int);
    let qs = unmatched_upto(news, olds, news.len() as int);
    candidates_upto(olds, news, ps, qs, ps.len() as int)
}

proof fn lemma_last_named_range(syms: Seq<Symbol>, n: Seq<char>, m: int)
    requires
        0 <= m <= syms.len(),
    ensures
        -1 <= last_named_upto(syms, n, m) < m,
    decreases m,
{
    if m > 0 {
        lemma_last_named_range(syms, n, m - 1);
    }
}

fn unmatched_positions(syms: &[Symbol], other: &[Symbol]) -> (r: Vec<usize>)
    ensures
        r@ == unmatched_upto(syms@, other@, syms@.len() as int),
        forall|k: int| 0 <= k < r@.len() ==> #[trigger] r@[k] < syms.len(),
{
    let mut r: Vec<usize> = Vec::new();
    let mut i: usize = 0;
    while i < syms.len()
        invariant
            i <= syms.len(),
            r@ == unmatched_upto(syms@, other@, i as int),
            forall|k: int| 0 <= k < r@.len() ==> #[trigger] r@[k] < syms.len(),
        decreases syms.len() - i,
    {
        if last_named_exec(other, &syms[i].name).is_none() {
            match last_named_exec(syms, &syms[i].name) {
                Some(p) => r.push(p),
                None => {
                    proof {
                        assert(syms@[i as int].name@ == syms@[i as int].name@);
                        assert(last_named_upto(syms@, syms@[i as int].name@, i + 1) == i);
                        lemma_last_named_mono(syms@, syms@[i as int].name@, i + 1, syms@.len() as int);
                    }
                },
            }
        }
        i = i + 1;
    }
    r
}

proof fn lemma_last_named_mono(syms: Seq<Symbol>, n: Seq<char>, a: int, b: int)
    requires
        0 <= a <= b <= syms.len(),
    ensures
        last_named_upto(syms, n, a) <= last_named_upto(syms, n, b),
    decreases b - a,
{
    if a < b {
        lemma_last_named_mono(syms, n, a, b - 1);
        lemma_last_named_range(syms, n, b - 1);
    }
}

/// The pairs of symbols whose likeness decides whether they are a rename; see
/// [`rename_candidates_spec`].
pub fn rename_candidates(olds: &[Symbol], news: &[Symbol]) -> (r: Vec<(usize, usize)>)
    ensures
        r@ == rename_candidates_spec(olds@, news@),
        forall|k: int| 0 <= k < r@.len() ==> #[trigger] r@[k].0 < olds.len() && r@[k].1 < news.len(),
{
    let ps = unmatched_positions(olds, news);
    let qs = unmatched_positions(news, olds);
    let mut r: Vec<(usize, usize)> = Vec::new();
    let mut a: usize = 0;
    while a < ps.len()
        invariant
            a <= ps.len(),
            ps@ == unmatched_upto(olds@, news@, olds@.len() as int),
            qs@ == unmatched_upto(news@, olds@, news@.len() as int),
            forall|k: int| 0 <= k < ps@.len() ==> #[trigger] ps@[k] < olds.len(),
            forall|k: int| 0 <= k < qs@.len() ==> #[trigger] qs@[k] < news.len(),
            r@ == candidates_upto(olds@, news@, ps@, qs@, a as int),
            forall|k: int| 0 <= k < r@.len() ==> #[trigger] r@[k].0 < olds.len() && r@[k].1 < news.len(),
        decreases ps.len() - a,
    {
        let p = ps[a];
        let ghost base = r@;
        let mut b: usize = 0;
        while b < qs.len()
            invariant
                b <= qs.len(),
                p == ps@[a as int],
                p < olds.len(),
                forall|k: int| 0 <= k < qs@.len() ==> #[trigger] qs@[k] < news.len(),
                r@ == base + pairs_with(olds@, news@, p, qs@, b as int),
                forall|k: int| 0 <= k < r@.len() ==> #[trigger] r@[k].0 < olds.len() && r@[k].1 < news.len(),
            decreases qs.len() - b,
        {
            let q = qs[b];
            let ghost before = r@;
            if olds[p].kind == news[q].kind {
                r.push((p, q));
                proof {
                    assert(r@ =~= base + pairs_with(olds@, news@, p, qs@, b + 1));
                }
            } else {
                proof {
                    assert(r@ =~= base + pairs_with(olds@, news@, p, qs@, b + 1));
                }
            }
            b = b + 1;
        }
        a = a + 1;
    }
    r
}

/// The mapping between two versions' symbols, given their renames (old id, new id)
/// and how alike each renamed symbol is: a symbol whose name both versions have is
/// stable, matched with the last symbol of that name in the new version; otherwise
/// it is added or removed, unless a rename accounts for it.
pub fn assemble_mapping(
    olds: &[Symbol],
    news: &[Symbol],
    renamed: Vec<(String, String)>,
    confidence: Vec<(String, Ratio)>,
) -> (m: SymbolMapping)
    ensures
        m.renamed@ == renamed@,
        m.confidence@ == confidence@,
        m.added@ == added_upto(olds@, news@, renamed@, news@.len() as int),
        m.removed@ == removed_upto(olds@, news@, renamed@, olds@.len() as int),
        m.stable@ == stable_upto(olds@, news@, olds@.len() as int),
        forall|k: int| 0 <= k < m.added@.len() ==> #[trigger] m.added@[k] < news.len(),
        forall|k: int| 0 <= k < m.removed@.len() ==> #[trigger] m.removed@[k] < olds.len(),
        forall|k: int| 0 <= k < m.stable@.len() ==> #[trigger] m.stable@[k].0 < olds.len() && m.stable@[k].1 < news.len(),
{
    let mut added: Vec<usize> = Vec::new();
    let mut j: usize = 0;
    while j < news.len()
        invariant
            j <= news.len(),
            added@ == added_upto(olds@, news@, renamed@, j as int),
            forall|k: int| 0 <= k < added@.len() ==> #[trigger] added@[k] < j,
        decreases news.len() - j,
    {
        let in_old = last_named_exec(olds, &news[j].name);
        if in_old.is_none() && !rename_mentions(&renamed, &news[j].id, false) {
            added.push(j);
        }
        j = j + 1;
    }
    let mut removed: Vec<usize> = Vec::new();
    let mut stable: Vec<(usize, usize)> = Vec::new();
    let mut i: usize = 0;
    while i < olds.len()
        invariant
            i <= olds.len(),
            removed@ == removed_upto(olds@, news@, renamed@, i as int),
            stable@ == stable_upto(olds@, news@, i as int),
            forall|k: int| 0 <= k < removed@.len() ==> #[trigger] removed@[k] < i,
            forall|k: int| 0 <= k < stable@.len() ==> #[trigger] stable@[k].0 < i && stable@[k].1 < news.len(),
        decreases olds.len() - i,
    {
        match last_named_exec(news, &olds[i].name) {
            Some(p) => {
                stable.push((i, p));
            },
            None => {
                if !rename_mentions(&renamed, &olds[i].id, true) {
                    removed.push(i);
                }
            },
        }
        i = i + 1;
    }
    SymbolMapping { renamed, added, removed, stable, confidence }
}

} // verus!
