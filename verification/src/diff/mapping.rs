//! Likeness of symbol members across versions.
use vstd::prelude::*;

verus! {

/// Length of a longest common subsequence of `a` and `b`.
pub open spec fn lcs_spec(a: Seq<Seq<char>>, b: Seq<Seq<char>>) -> nat
    decreases a.len() + b.len(),
{
    if a.len() == 0 || b.len() == 0 {
        0
    } else if a.last() == b.last() {
        lcs_spec(a.drop_last(), b.drop_last()) + 1
    } else {
        let x = lcs_spec(a.drop_last(), b);
        let y = lcs_spec(a, b.drop_last());
        if x >= y { x } else { y }
    }
}

proof fn lemma_lcs_bound(a: Seq<Seq<char>>, b: Seq<Seq<char>>)
    ensures
        lcs_spec(a, b) <= a.len(),
    decreases a.len() + b.len(),
{
    if a.len() > 0 && b.len() > 0 {
        lemma_lcs_bound(a.drop_last(), b.drop_last());
        lemma_lcs_bound(a.drop_last(), b);
        lemma_lcs_bound(a, b.drop_last());
    }
}

/// The length of a longest common subsequence of two sequences of names.
pub fn lcs(a: &[String], b: &[String]) -> (r: usize)
    ensures
        r == lcs_spec(crate::text::views(a@), crate::text::views(b@)),
{
    let ghost va = crate::text::views(a@);
    let ghost vb = crate::text::views(b@);
    // prev[k] is the length for the first i names of a and the first k of b.
    let mut prev: Vec<usize> = Vec::new();
    prev.push(0);
    let mut j: usize = 0;
    while j < b.len()
        invariant
            j <= b.len(),
            prev.len() == j + 1,
            forall|k: int| 0 <= k <= j ==> #[trigger] prev@[k] == lcs_spec(va.subrange(0, 0), vb.subrange(0, k)),
        decreases b.len() - j,
    {
        prev.push(0);
        j = j + 1;
    }
    let mut i: usize = 0;
    while i < a.len()
        invariant
            i <= a.len(),
            prev.len() == b.len() + 1,
            va == crate::text::views(a@),
            vb == crate::text::views(b@),
            forall|k: int| 0 <= k <= b.len() ==> #[trigger] prev@[k] == lcs_spec(va.subrange(0, i as int), vb.subrange(0, k)),
        decreases a.len() - i,
    {
        let mut cur: Vec<usize> = Vec::new();
        cur.push(0);
        let mut j: usize = 0;
        while j < b.len()
            invariant
                i < a.len(),
                j <= b.len(),
                cur.len() == j + 1,
                prev.len() == b.len() + 1,
                va == crate::text::views(a@),
                vb == crate::text::views(b@),
                forall|k: int| 0 <= k <= b.len() ==> #[trigger] prev@[k] == lcs_spec(va.subrange(0, i as int), vb.subrange(0, k)),
                forall|k: int| 0 <= k <= j ==> #[trigger] cur@[k] == lcs_spec(va.subrange(0, i + 1), vb.subrange(0, k)),
            decreases b.len() - j,
        {
            let ghost x = va.subrange(0, i + 1);
            let ghost y = vb.subrange(0, j + 1);
            proof {
                assert(x.drop_last() =~= va.subrange(0, i as int));
                assert(y.drop_last() =~= vb.subrange(0, j as int));
                assert(x.last() == a@[i as int]@);
                assert(y.last() == b@[j as int]@);
                lemma_lcs_bound(va.subrange(0, i as int), vb.subrange(0, j as int));
            }
            let v = if crate::naming::same_chars(&crate::text::chars_of(a[i].as_str()), &crate::text::chars_of(b[j].as_str())) {
                prev[j] + 1
            } else if prev[j + 1] >= cur[j] {
                prev[j + 1]
            } else {
                cur[j]
            };
            cur.push(v);
            j = j + 1;
        }
        prev = cur;
        i = i + 1;
    }
    proof {
        assert(va.subrange(0, a.len() as int) =~= va);
        assert(vb.subrange(0, b.len() as int) =~= vb);
    }
    prev[b.len()]
}


/// A longest common subsequence does not depend on which sequence comes first.
pub proof fn law_lcs_symmetric(a: Seq<Seq<char>>, b: Seq<Seq<char>>)
    ensures
        lcs_spec(a, b) == lcs_spec(b, a),
    decreases a.len() + b.len(),
{
    if a.len() > 0 && b.len() > 0 {
        law_lcs_symmetric(a.drop_last(), b.drop_last());
        law_lcs_symmetric(a.drop_last(), b);
        law_lcs_symmetric(a, b.drop_last());
    }
}

/// A sequence has itself as longest common subsequence with itself, and a longest
/// common subsequence is no longer than either sequence.
pub proof fn law_lcs_bounds(a: Seq<Seq<char>>, b: Seq<Seq<char>>)
    ensures
        lcs_spec(a, a) == a.len(),
        lcs_spec(a, b) <= a.len(),
        lcs_spec(a, b) <= b.len(),
    decreases a.len(),
{
    lemma_lcs_self(a);
    lemma_lcs_bound(a, b);
    lemma_lcs_bound(b, a);
    law_lcs_symmetric(a, b);
}

proof fn lemma_lcs_self(a: Seq<Seq<char>>)
    ensures
        lcs_spec(a, a) == a.len(),
    decreases a.len(),
{
    if a.len() > 0 {
        lemma_lcs_self(a.drop_last());
    }
}

} // verus!
