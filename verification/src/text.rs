use vstd::prelude::*;
use vstd::string::StringExecFns;

verus! {

/// `String::push` from std: appends one character at the end.
#[verifier::external_body]
pub(crate) fn push_char(s: &mut String, c: char)
    ensures
        final(s)@ == old(s)@.push(c),
{
    s.push(c)
}

/// The characters of a string slice, in order.
pub fn chars_of(s: &str) -> (r: Vec<char>)
    ensures
        r@ == s@,
{
    let mut r: Vec<char> = Vec::new();
    for c in it: s.chars()
        invariant
            r@ == it.seq().take(it.index() as int),
    {
        r.push(c);
    }
    r
}

/// Builds a `String` from a sequence of characters.
pub fn string_of(cs: &[char]) -> (r: String)
    ensures
        r@ == cs@,
{
    let mut r = String::from_str("");
    proof { reveal_strlit(""); }
    let mut i: usize = 0;
    while i < cs.len()
        invariant
            i <= cs.len(),
            r@ == cs@.take(i as int),
        decreases cs.len() - i,
    {
        push_char(&mut r, cs[i]);
        i = i + 1;
        proof { assert(cs@.take(i as int) =~= cs@.take((i - 1) as int).push(cs@[i - 1])); }
    }
    proof { assert(cs@.take(cs.len() as int) =~= cs@); }
    r
}


/// Lexicographic order on character sequences, characters compared by code point.
/// On strings this is the order of `String`'s `Ord` (UTF-8 byte order agrees with
/// code-point order).
pub open spec fn lex_lt(a: Seq<char>, b: Seq<char>) -> bool
    decreases a.len(),
{
    if a.len() == 0 {
        b.len() > 0
    } else if b.len() == 0 {
        false
    } else if a[0] != b[0] {
        (a[0] as int) < (b[0] as int)
    } else {
        lex_lt(a.drop_first(), b.drop_first())
    }
}

pub proof fn lemma_lex_irreflexive(a: Seq<char>)
    ensures
        !lex_lt(a, a),
    decreases a.len(),
{
    if a.len() > 0 {
        lemma_lex_irreflexive(a.drop_first());
    }
}

pub proof fn lemma_lex_total(a: Seq<char>, b: Seq<char>)
    ensures
        a != b ==> (lex_lt(a, b) || lex_lt(b, a)),
        !(lex_lt(a, b) && lex_lt(b, a)),
    decreases a.len(),
{
    if a.len() > 0 && b.len() > 0 {
        lemma_lex_total(a.drop_first(), b.drop_first());
        if a[0] == b[0] && a != b {
            assert(a.drop_first() != b.drop_first()) by {
                if a.drop_first() == b.drop_first() {
                    assert(a =~= seq![a[0]] + a.drop_first());
                    assert(b =~= seq![b[0]] + b.drop_first());
                }
            }
        }
    } else if a.len() == 0 && b.len() == 0 {
        assert(a =~= b);
    }
}

pub proof fn lemma_lex_trans(a: Seq<char>, b: Seq<char>, c: Seq<char>)
    requires
        lex_lt(a, b),
        lex_lt(b, c),
    ensures
        lex_lt(a, c),
    decreases a.len(),
{
    if a.len() > 0 && b.len() > 0 && c.len() > 0 {
        if a[0] == b[0] && b[0] == c[0] {
            lemma_lex_trans(a.drop_first(), b.drop_first(), c.drop_first());
        }
    }
}

/// `a` comes strictly before `b` in string order.
pub fn str_lt(a: &str, b: &str) -> (r: bool)
    ensures
        r == lex_lt(a@, b@),
{
    let x = chars_of(a);
    let y = chars_of(b);
    let mut i: usize = 0;
    proof {
        assert(x@.subrange(0, x.len() as int) =~= x@);
        assert(y@.subrange(0, y.len() as int) =~= y@);
    }
    while i < x.len() && i < y.len() && x[i] == y[i]
        invariant
            i <= x.len(),
            i <= y.len(),
            x@.subrange(0, i as int) == y@.subrange(0, i as int),
            lex_lt(x@, y@) == lex_lt(x@.subrange(i as int, x.len() as int), y@.subrange(i as int, y.len() as int)),
        decreases x.len() - i,
    {
        proof {
            let xs = x@.subrange(i as int, x.len() as int);
            let ys = y@.subrange(i as int, y.len() as int);
            assert(xs.drop_first() =~= x@.subrange(i + 1, x.len() as int));
            assert(ys.drop_first() =~= y@.subrange(i + 1, y.len() as int));
            assert(x@.subrange(0, i + 1) =~= x@.subrange(0, i as int).push(x@[i as int]));
            assert(y@.subrange(0, i + 1) =~= y@.subrange(0, i as int).push(y@[i as int]));
        }
        i = i + 1;
    }
    proof {
        assert(x@.subrange(0, x.len() as int) =~= x@);
        assert(y@.subrange(0, y.len() as int) =~= y@);
    }
    if i == x.len() {
        i < y.len()
    } else if i == y.len() {
        false
    } else {
        x[i] < y[i]
    }
}

/// `v` is strictly increasing in string order.
pub open spec fn strictly_sorted(v: Seq<Seq<char>>) -> bool {
    forall|i: int, j: int| 0 <= i < j < v.len() ==> lex_lt(v[i], v[j])
}

/// A strictly increasing sequence repeats nothing, so it has as many distinct
/// elements as it has elements.
pub proof fn lemma_strictly_sorted_set_len(v: Seq<Seq<char>>)
    requires
        strictly_sorted(v),
    ensures
        v.no_duplicates(),
        v.to_set().len() == v.len(),
{
    assert forall|i: int, j: int| 0 <= i < v.len() && 0 <= j < v.len() && i != j implies v[i] != v[j] by {
        if v[i] == v[j] {
            lemma_lex_irreflexive(v[i]);
        }
    }
    v.unique_seq_to_set();
}

pub open spec fn views(v: Seq<String>) -> Seq<Seq<char>> {
    v.map_values(|s: String| s@)
}

/// Insert `s` into the strictly increasing `v`, unless it is already there.
pub fn insert_sorted_unique(v: &mut Vec<String>, s: String)
    requires
        strictly_sorted(views(old(v)@)),
    ensures
        strictly_sorted(views(final(v)@)),
        views(final(v)@).to_set() == views(old(v)@).to_set().insert(s@),
{
    let mut i: usize = 0;
    while i < v.len() && str_lt(v[i].as_str(), s.as_str())
        invariant
            i <= v.len(),
            strictly_sorted(views(v@)),
            forall|j: int| 0 <= j < i ==> lex_lt(#[trigger] v@[j]@, s@),
        decreases v.len() - i,
    {
        i = i + 1;
    }
    if i < v.len() && v[i] == s {
        proof {
            assert(views(v@).to_set() =~= views(v@).to_set().insert(s@)) by {
                assert(views(v@)[i as int] == s@);
            }
        }
        return;
    }
    let ghost before = v@;
    proof {
        if i < v.len() {
            lemma_lex_total(v@[i as int]@, s@);
        }
    }
    v.insert(i, s);
    proof {
        let vb = views(before);
        let va = views(v@);
        assert(va =~= vb.subrange(0, i as int).push(s@) + vb.subrange(i as int, vb.len() as int));
        assert forall|a: int, b: int| 0 <= a < b < va.len() implies lex_lt(va[a], va[b]) by {
            if b < i {
            } else if b == i {
                assert(lex_lt(before[a]@, s@));
            } else if a == i {
                assert(va[b] == vb[b - 1]);
                if b - 1 > i {
                    lemma_lex_trans(s@, vb[i as int], vb[b - 1]);
                }
            } else if a < i {
                assert(va[b] == vb[b - 1]);
            } else {
                assert(va[a] == vb[a - 1]);
                assert(va[b] == vb[b - 1]);
            }
        }
        assert forall|x: Seq<char>| va.to_set().contains(x) <==> vb.to_set().insert(s@).contains(x) by {
            if va.contains(x) {
                let j = choose|j: int| 0 <= j < va.len() && va[j] == x;
                if j < i {
                    assert(vb[j] == x);
                } else if j > i {
                    assert(vb[j - 1] == x);
                }
            }
            if vb.contains(x) {
                let j = choose|j: int| 0 <= j < vb.len() && vb[j] == x;
                if j < i {
                    assert(va[j] == x);
                } else {
                    assert(va[j + 1] == x);
                }
            }
            if x == s@ {
                assert(va[i as int] == x);
            }
        }
        assert(va.to_set() =~= vb.to_set().insert(s@));
    }
}


// ---------------------------------------------------------------------------
// Characters
// ---------------------------------------------------------------------------

/// Name for `char::is_uppercase`: the Unicode `Uppercase` property.
pub uninterp spec fn unicode_upper(c: char) -> bool;

/// Name for `char::is_lowercase`: the Unicode `Lowercase` property.
pub uninterp spec fn unicode_lower(c: char) -> bool;

pub open spec fn is_ascii_upper(c: char) -> bool {
    'A' <= c <= 'Z'
}

pub open spec fn is_ascii_lower(c: char) -> bool {
    'a' <= c <= 'z'
}

/// `char::is_uppercase` from std. Its result depends on the character alone; on
/// ASCII characters it holds exactly for `A`..=`Z`. The Unicode tables are not stated.
#[verifier::external_body]
pub(crate) fn is_upper(c: char) -> (r: bool)
    ensures
        r == unicode_upper(c),
        (c as u32) < 128 ==> (r == is_ascii_upper(c)),
{
    c.is_uppercase()
}

/// `char::is_lowercase` from std. Its result depends on the character alone; on
/// ASCII characters it holds exactly for `a`..=`z`. The Unicode tables are not stated.
#[verifier::external_body]
pub(crate) fn is_lower(c: char) -> (r: bool)
    ensures
        r == unicode_lower(c),
        (c as u32) < 128 ==> (r == is_ascii_lower(c)),
{
    c.is_lowercase()
}

/// What `char::to_ascii_lowercase` returns.
pub open spec fn ascii_lower(c: char) -> char {
    if is_ascii_upper(c) {
        ((c as u32) + 32) as char
    } else {
        c
    }
}

/// What `char::to_ascii_uppercase` returns.
pub open spec fn ascii_upper(c: char) -> char {
    if is_ascii_lower(c) {
        ((c as u32) - 32) as char
    } else {
        c
    }
}

pub fn to_ascii_lower(c: char) -> (r: char)
    ensures
        r == ascii_lower(c),
{
    if 'A' <= c && c <= 'Z' {
        ((c as u8) + 32) as char
    } else {
        c
    }
}

pub fn to_ascii_upper(c: char) -> (r: char)
    ensures
        r == ascii_upper(c),
{
    if 'a' <= c && c <= 'z' {
        ((c as u8) - 32) as char
    } else {
        c
    }
}


// ---------------------------------------------------------------------------
// Sequences of characters
// ---------------------------------------------------------------------------

pub open spec fn seq_starts_with(s: Seq<char>, p: Seq<char>) -> bool {
    p.len() <= s.len() && s.subrange(0, p.len() as int) == p
}

pub open spec fn seq_ends_with(s: Seq<char>, p: Seq<char>) -> bool {
    p.len() <= s.len() && s.subrange(s.len() - p.len(), s.len() as int) == p
}

/// `p` occurs in `s` as a contiguous piece.
pub open spec fn seq_has(s: Seq<char>, p: Seq<char>) -> bool {
    exists|i: int| 0 <= i <= s.len() - p.len() && #[trigger] s.subrange(i, i + p.len()) == p
}

/// What `str::replace(s, p, r)` returns for a non-empty `p`: every occurrence of `p`,
/// found from the left without overlap, is replaced by `r`.
pub open spec fn replace_all(s: Seq<char>, p: Seq<char>, r: Seq<char>) -> Seq<char>
    decreases s.len(),
{
    if p.len() == 0 || s.len() < p.len() {
        s
    } else if s.subrange(0, p.len() as int) == p {
        r + replace_all(s.subrange(p.len() as int, s.len() as int), p, r)
    } else {
        seq![s[0]] + replace_all(s.drop_first(), p, r)
    }
}

/// A copy of `s[a..b]`.
pub fn slice_copy(s: &[char], a: usize, b: usize) -> (r: Vec<char>)
    requires
        a <= b <= s.len(),
    ensures
        r@ == s@.subrange(a as int, b as int),
{
    let mut r: Vec<char> = Vec::new();
    let mut i: usize = a;
    while i < b
        invariant
            a <= i <= b <= s.len(),
            r@ == s@.subrange(a as int, i as int),
        decreases b - i,
    {
        r.push(s[i]);
        i = i + 1;
        proof {
            assert(r@ =~= s@.subrange(a as int, i as int));
        }
    }
    r
}

/// `s[at..at + p.len()] == p`, for a piece that fits.
pub fn matches_at(s: &[char], p: &[char], at: usize) -> (r: bool)
    requires
        at + p.len() <= s.len(),
    ensures
        r == (s@.subrange(at as int, at + p.len()) == p@),
{
    let mut i: usize = 0;
    while i < p.len()
        invariant
            at + p.len() <= s.len(),
            i <= p.len(),
            forall|j: int| 0 <= j < i ==> s@[at + j] == p@[j],
        decreases p.len() - i,
    {
        if s[at + i] != p[i] {
            proof {
                assert(s@.subrange(at as int, at + p.len())[i as int] != p@[i as int]);
            }
            return false;
        }
        i = i + 1;
    }
    proof {
        assert(s@.subrange(at as int, at + p.len()) =~= p@);
    }
    true
}

pub fn starts_with_chars(s: &[char], p: &[char]) -> (r: bool)
    ensures
        r == seq_starts_with(s@, p@),
{
    if p.len() > s.len() {
        false
    } else {
        matches_at(s, p, 0)
    }
}

pub fn ends_with_chars(s: &[char], p: &[char]) -> (r: bool)
    ensures
        r == seq_ends_with(s@, p@),
{
    if p.len() > s.len() {
        false
    } else {
        matches_at(s, p, s.len() - p.len())
    }
}

/// Whether `p` occurs in `s`.
pub fn has_chars(s: &[char], p: &[char]) -> (r: bool)
    ensures
        r == seq_has(s@, p@),
{
    if p.len() > s.len() {
        proof {
            if seq_has(s@, p@) {
                let i = choose|i: int| 0 <= i <= s.len() - p.len() && #[trigger] s@.subrange(i, i + p.len()) == p@;
            }
        }
        return false;
    }
    let limit = s.len() - p.len();
    let mut i: usize = 0;
    loop
        invariant
            p.len() <= s.len(),
            limit == s.len() - p.len(),
            i <= limit,
            forall|j: int| 0 <= j < i ==> #[trigger] s@.subrange(j, j + p.len()) != p@,
        decreases limit - i,
    {
        if matches_at(s, p, i) {
            return true;
        }
        if i == limit {
            return false;
        }
        i = i + 1;
    }
}

/// Index of the first `c` in `s`.
pub fn find_char(s: &[char], c: char) -> (r: Option<usize>)
    ensures
        match r {
            Some(i) => i < s.len() && s@[i as int] == c && forall|j: int| 0 <= j < i ==> s@[j] != c,
            None => !s@.contains(c),
        },
{
    let mut i: usize = 0;
    while i < s.len()
        invariant
            i <= s.len(),
            forall|j: int| 0 <= j < i ==> s@[j] != c,
        decreases s.len() - i,
    {
        if s[i] == c {
            return Some(i);
        }
        i = i + 1;
    }
    None
}

/// Index of the last `c` in `s`.
pub fn rfind_char(s: &[char], c: char) -> (r: Option<usize>)
    ensures
        match r {
            Some(i) => i < s.len() && s@[i as int] == c && forall|j: int| i < j < s.len() ==> s@[j] != c,
            None => !s@.contains(c),
        },
{
    let mut i: usize = s.len();
    while i > 0
        invariant
            i <= s.len(),
            forall|j: int| i <= j < s.len() ==> s@[j] != c,
        decreases i,
    {
        if s[i - 1] == c {
            return Some(i - 1);
        }
        i = i - 1;
    }
    None
}

/// `str::replace` for a non-empty pattern.
pub fn replace_chars(s: &[char], p: &[char], r: &[char]) -> (out: Vec<char>)
    requires
        p.len() > 0,
    ensures
        out@ == replace_all(s@, p@, r@),
{
    let mut out: Vec<char> = Vec::new();
    let mut i: usize = 0;
    proof {
        assert(s@.subrange(0, s.len() as int) =~= s@);
        assert(out@ + replace_all(s@, p@, r@) =~= replace_all(s@, p@, r@));
    }
    while i < s.len()
        invariant
            p.len() > 0,
            i <= s.len(),
            out@ + replace_all(s@.subrange(i as int, s.len() as int), p@, r@) == replace_all(s@, p@, r@),
        decreases s.len() - i,
    {
        let ghost rest = s@.subrange(i as int, s.len() as int);
        if p.len() <= s.len() - i && matches_at(s, p, i) {
            let mut k: usize = 0;
            let ghost o = out@;
            while k < r.len()
                invariant
                    k <= r.len(),
                    out@ == o + r@.subrange(0, k as int),
                decreases r.len() - k,
            {
                out.push(r[k]);
                k = k + 1;
                proof {
                    assert(out@ =~= o + r@.subrange(0, k as int));
                }
            }
            proof {
                assert(rest.subrange(0, p.len() as int) =~= s@.subrange(i as int, i + p.len()));
                assert(rest.subrange(p.len() as int, rest.len() as int) =~= s@.subrange(i + p.len(), s.len() as int));
                assert(r@.subrange(0, r.len() as int) =~= r@);
                assert(out@ + replace_all(s@.subrange(i + p.len(), s.len() as int), p@, r@) =~= o + (r@ + replace_all(s@.subrange(i + p.len(), s.len() as int), p@, r@)));
            }
            i = i + p.len();
        } else {
            proof {
                if rest.len() >= p.len() {
                    assert(rest.subrange(0, p.len() as int) =~= s@.subrange(i as int, i + p.len()));
                }
                assert(rest.drop_first() =~= s@.subrange(i + 1, s.len() as int));
                assert(rest[0] == s@[i as int]);
            }
            let ghost o = out@;
            out.push(s[i]);
            proof {
                assert(out@ + replace_all(s@.subrange(i + 1, s.len() as int), p@, r@) =~= o + (seq![s@[i as int]] + replace_all(s@.subrange(i + 1, s.len() as int), p@, r@)));
            }
            i = i + 1;
        }
    }
    proof {
        assert(replace_all(s@.subrange(i as int, s.len() as int), p@, r@) =~= Seq::<char>::empty());
        assert(out@ =~= out@ + Seq::<char>::empty());
    }
    out
}


// ---------------------------------------------------------------------------
// Trimming and lowercasing
// ---------------------------------------------------------------------------

/// The characters with the Unicode `White_Space` property (what `char::is_whitespace` tests).
pub open spec fn is_unicode_whitespace(c: char) -> bool {
    ||| '\u{9}' <= c <= '\u{d}'
    ||| c == ' '
    ||| c == '\u{85}'
    ||| c == '\u{a0}'
    ||| c == '\u{1680}'
    ||| '\u{2000}' <= c <= '\u{200a}'
    ||| c == '\u{2028}'
    ||| c == '\u{2029}'
    ||| c == '\u{202f}'
    ||| c == '\u{205f}'
    ||| c == '\u{3000}'
}

pub fn is_whitespace_char(c: char) -> (r: bool)
    ensures
        r == is_unicode_whitespace(c),
{
    ('\u{9}' <= c && c <= '\u{d}') || c == ' ' || c == '\u{85}' || c == '\u{a0}' || c == '\u{1680}'
        || ('\u{2000}' <= c && c <= '\u{200a}') || c == '\u{2028}' || c == '\u{2029}' || c == '\u{202f}'
        || c == '\u{205f}' || c == '\u{3000}'
}

/// Number of leading whitespace characters.
pub open spec fn lead_ws(s: Seq<char>) -> int
    decreases s.len(),
{
    if s.len() > 0 && is_unicode_whitespace(s[0]) {
        1 + lead_ws(s.drop_first())
    } else {
        0
    }
}

/// Number of trailing whitespace characters.
pub open spec fn trail_ws(s: Seq<char>) -> int
    decreases s.len(),
{
    if s.len() > 0 && is_unicode_whitespace(s.last()) {
        1 + trail_ws(s.drop_last())
    } else {
        0
    }
}

/// What `str::trim` returns: `s` without leading and trailing whitespace.
pub open spec fn trim_spec(s: Seq<char>) -> Seq<char> {
    let a = lead_ws(s);
    let rest = s.subrange(a, s.len() as int);
    rest.subrange(0, rest.len() - trail_ws(rest))
}

proof fn lemma_lead_ws_bound(s: Seq<char>)
    ensures
        0 <= lead_ws(s) <= s.len(),
    decreases s.len(),
{
    if s.len() > 0 && is_unicode_whitespace(s[0]) {
        lemma_lead_ws_bound(s.drop_first());
    }
}

proof fn lemma_trail_ws_bound(s: Seq<char>)
    ensures
        0 <= trail_ws(s) <= s.len(),
    decreases s.len(),
{
    if s.len() > 0 && is_unicode_whitespace(s.last()) {
        lemma_trail_ws_bound(s.drop_last());
    }
}

proof fn lemma_lead_ws_stop(s: Seq<char>)
    ensures
        0 <= lead_ws(s) <= s.len(),
        lead_ws(s) < s.len() ==> !is_unicode_whitespace(s[lead_ws(s)]),
    decreases s.len(),
{
    if s.len() > 0 && is_unicode_whitespace(s[0]) {
        lemma_lead_ws_stop(s.drop_first());
        if lead_ws(s) < s.len() {
            assert(s[lead_ws(s)] == s.drop_first()[lead_ws(s.drop_first())]);
        }
    }
}

proof fn lemma_trail_ws_stop(s: Seq<char>)
    ensures
        0 <= trail_ws(s) <= s.len(),
        trail_ws(s) < s.len() ==> !is_unicode_whitespace(s[s.len() - 1 - trail_ws(s)]),
    decreases s.len(),
{
    if s.len() > 0 && is_unicode_whitespace(s.last()) {
        lemma_trail_ws_stop(s.drop_last());
        if trail_ws(s) < s.len() {
            assert(s[s.len() - 1 - trail_ws(s)] == s.drop_last()[s.drop_last().len() - 1 - trail_ws(s.drop_last())]);
        }
    }
}

/// Trimmed text starts and ends with a character that is not whitespace.
pub proof fn lemma_trim_ends(s: Seq<char>)
    ensures
        trim_spec(s).len() > 0 ==> !is_unicode_whitespace(trim_spec(s)[0]) && !is_unicode_whitespace(
            trim_spec(s).last(),
        ),
{
    let a = lead_ws(s);
    lemma_lead_ws_stop(s);
    let rest = s.subrange(a, s.len() as int);
    lemma_trail_ws_stop(rest);
    let t = trim_spec(s);
    if t.len() > 0 {
        assert(t[0] == rest[0]);
        assert(rest[0] == s[a]);
        assert(t.last() == rest[rest.len() - 1 - trail_ws(rest)]);
    }
}

/// Text that starts and ends with a character that is not whitespace is its own
/// trimmed form.
pub proof fn lemma_trim_plain(s: Seq<char>)
    requires
        s.len() > 0 ==> !is_unicode_whitespace(s[0]) && !is_unicode_whitespace(s.last()),
    ensures
        trim_spec(s) == s,
{
    assert(lead_ws(s) == 0);
    let rest = s.subrange(0, s.len() as int);
    assert(rest =~= s);
    assert(trail_ws(rest) == 0);
    assert(trim_spec(s) =~= s);
}

/// `str::trim` on a character sequence.
pub fn trim_chars(s: &[char]) -> (r: Vec<char>)
    ensures
        r@ == trim_spec(s@),
{
    let mut a: usize = 0;
    proof {
        assert(s@.subrange(0, s.len() as int) =~= s@);
    }
    while a < s.len() && is_whitespace_char(s[a])
        invariant
            a <= s.len(),
            lead_ws(s@) == a + lead_ws(s@.subrange(a as int, s.len() as int)),
        decreases s.len() - a,
    {
        proof {
            let t = s@.subrange(a as int, s.len() as int);
            assert(t.drop_first() =~= s@.subrange(a + 1, s.len() as int));
        }
        a = a + 1;
    }
    proof {
        lemma_lead_ws_bound(s@);
        let t = s@.subrange(a as int, s.len() as int);
        assert(lead_ws(t) == 0);
    }
    let rest = slice_copy(s, a, s.len());
    let mut b: usize = rest.len();
    proof {
        assert(rest@.subrange(0, b as int) =~= rest@);
    }
    while b > 0 && is_whitespace_char(rest[b - 1])
        invariant
            b <= rest.len(),
            trail_ws(rest@) == (rest.len() - b) + trail_ws(rest@.subrange(0, b as int)),
        decreases b,
    {
        proof {
            let t = rest@.subrange(0, b as int);
            assert(t.drop_last() =~= rest@.subrange(0, b - 1));
        }
        b = b - 1;
    }
    proof {
        let t = rest@.subrange(0, b as int);
        assert(trail_ws(t) == 0);
        lemma_trail_ws_bound(rest@);
    }
    slice_copy(&rest, 0, b)
}

/// Name for what `str::to_lowercase` returns: the Unicode lowercase mapping of each
/// character (which may expand one character to several).
pub uninterp spec fn lowercase_of(s: Seq<char>) -> Seq<char>;

pub open spec fn is_ascii_seq(s: Seq<char>) -> bool {
    forall|i: int| 0 <= i < s.len() ==> (#[trigger] s[i] as u32) < 128
}

/// `str::to_lowercase` from std. The result depends on the string alone; on ASCII
/// text every character is mapped by `to_ascii_lowercase`. The Unicode case tables
/// for other characters are not stated.
#[verifier::external_body]
pub(crate) fn str_to_lowercase(s: &str) -> (r: String)
    ensures
        r@ == lowercase_of(s@),
        is_ascii_seq(s@) ==> r@ == s@.map_values(|c: char| ascii_lower(c)),
{
    s.to_lowercase()
}


// ---------------------------------------------------------------------------
// Finding pieces
// ---------------------------------------------------------------------------

/// `p` occurs in `s` at `i`.
pub open spec fn occurs_at(s: Seq<char>, p: Seq<char>, i: int) -> bool {
    0 <= i && i + p.len() <= s.len() && s.subrange(i, i + p.len()) == p
}

/// Where `str::find` finds `p` in `s`: the first occurrence, counted in characters.
pub open spec fn find_spec(s: Seq<char>, p: Seq<char>) -> Option<int> {
    if exists|i: int| occurs_at(s, p, i) {
        Some(choose|i: int| occurs_at(s, p, i) && forall|j: int| 0 <= j < i ==> !occurs_at(s, p, j))
    } else {
        None
    }
}

/// Where `str::rfind` finds `p` in `s`: the last occurrence, counted in characters.
pub open spec fn rfind_spec(s: Seq<char>, p: Seq<char>) -> Option<int> {
    if exists|i: int| occurs_at(s, p, i) {
        Some(choose|i: int| occurs_at(s, p, i) && forall|j: int| i < j ==> !occurs_at(s, p, j))
    } else {
        None
    }
}

/// First occurrence of `p` in `s`.
pub fn find_sub(s: &[char], p: &[char]) -> (r: Option<usize>)
    ensures
        r matches Some(i) ==> find_spec(s@, p@) == Some(i as int) && occurs_at(s@, p@, i as int),
        r is None ==> find_spec(s@, p@) is None,
{
    if p.len() > s.len() {
        proof {
            assert(forall|i: int| !occurs_at(s@, p@, i));
        }
        return None;
    }
    let limit = s.len() - p.len();
    let mut i: usize = 0;
    loop
        invariant
            p.len() <= s.len(),
            limit == s.len() - p.len(),
            i <= limit,
            forall|j: int| 0 <= j < i ==> !occurs_at(s@, p@, j),
        decreases limit - i,
    {
        if matches_at(s, p, i) {
            proof {
                assert(occurs_at(s@, p@, i as int));
                let c = choose|c: int| occurs_at(s@, p@, c) && forall|j: int| 0 <= j < c ==> !occurs_at(s@, p@, j);
                assert(c == i as int) by {
                    if c < i {
                    } else if c > i {
                        assert(!occurs_at(s@, p@, i as int));
                    }
                }
            }
            return Some(i);
        }
        if i == limit {
            proof {
                assert forall|j: int| !occurs_at(s@, p@, j) by {
                    if 0 <= j && j + p.len() <= s.len() {
                        assert(j <= i);
                    }
                }
            }
            return None;
        }
        i = i + 1;
    }
}

/// Last occurrence of `p` in `s`.
pub fn rfind_sub(s: &[char], p: &[char]) -> (r: Option<usize>)
    ensures
        r matches Some(i) ==> rfind_spec(s@, p@) == Some(i as int) && occurs_at(s@, p@, i as int),
        r is None ==> rfind_spec(s@, p@) is None,
{
    if p.len() > s.len() {
        proof {
            assert(forall|i: int| !occurs_at(s@, p@, i));
        }
        return None;
    }
    let mut i: usize = s.len() - p.len();
    loop
        invariant
            p.len() <= s.len(),
            i <= s.len() - p.len(),
            forall|j: int| i < j ==> !occurs_at(s@, p@, j),
        decreases i,
    {
        if matches_at(s, p, i) {
            proof {
                assert(occurs_at(s@, p@, i as int));
                let c = choose|c: int| occurs_at(s@, p@, c) && forall|j: int| c < j ==> !occurs_at(s@, p@, j);
                assert(c == i as int) by {
                    if c > i {
                    } else if c < i {
                        assert(!occurs_at(s@, p@, i as int));
                    }
                }
            }
            return Some(i);
        }
        if i == 0 {
            proof {
                assert forall|j: int| !occurs_at(s@, p@, j) by {
                    if j < 0 {
                    }
                }
            }
            return None;
        }
        i = i - 1;
    }
}

/// Index of the first `c` in `s`, for an `s` that holds one.
pub open spec fn first_index(s: Seq<char>, c: char) -> int {
    choose|i: int| 0 <= i < s.len() && s[i] == c && forall|j: int| 0 <= j < i ==> s[j] != c
}

pub proof fn lemma_first_index(s: Seq<char>, c: char, i: int)
    requires
        0 <= i < s.len(),
        s[i] == c,
        forall|j: int| 0 <= j < i ==> s[j] != c,
    ensures
        first_index(s, c) == i,
{
    let f = first_index(s, c);
    assert(0 <= f < s.len() && s[f] == c && forall|j: int| 0 <= j < f ==> s[j] != c);
}

/// Append the characters of `s` to `r`.
pub fn push_all(r: &mut Vec<char>, s: &[char])
    ensures
        final(r)@ == old(r)@ + s@,
{
    let ghost r0 = r@;
    let mut k: usize = 0;
    while k < s.len()
        invariant
            k <= s.len(),
            r@ == r0 + s@.subrange(0, k as int),
        decreases s.len() - k,
    {
        r.push(s[k]);
        k = k + 1;
        proof {
            assert(r@ =~= r0 + s@.subrange(0, k as int));
        }
    }
    proof {
        assert(s@.subrange(0, k as int) =~= s@);
    }
}

/// A one-character pattern occurs exactly where that character stands.
pub proof fn lemma_occurs_char(s: Seq<char>, c: char, j: int)
    ensures
        occurs_at(s, seq![c], j) <==> (0 <= j < s.len() && s[j] == c),
{
    if 0 <= j < s.len() {
        if s[j] == c {
            assert(s.subrange(j, j + 1) =~= seq![c]);
        } else {
            assert(s.subrange(j, j + 1)[0] == s[j]);
        }
    }
}

/// What `find_char` finds, as an occurrence of a one-character pattern.
pub proof fn lemma_find_char_spec(s: Seq<char>, c: char, r: Option<usize>)
    requires
        match r {
            Some(i) => i < s.len() && s[i as int] == c && forall|j: int| 0 <= j < i ==> s[j] != c,
            None => !s.contains(c),
        },
    ensures
        find_spec(s, seq![c]) == match r {
            Some(i) => Some(i as int),
            None => None::<int>,
        },
{
    assert forall|j: int| #[trigger] occurs_at(s, seq![c], j) <==> (0 <= j < s.len() && s[j] == c) by {
        lemma_occurs_char(s, c, j);
    }
    match r {
        Some(i) => {
            assert(occurs_at(s, seq![c], i as int));
            let k = choose|k: int| occurs_at(s, seq![c], k) && forall|j: int| 0 <= j < k ==> !occurs_at(s, seq![c], j);
            assert(occurs_at(s, seq![c], k));
            if k > i {
                assert(!occurs_at(s, seq![c], i as int));
            } else if k < i {
                assert(s[k] != c);
            }
            assert(k == i);
        },
        None => {
            assert forall|j: int| !occurs_at(s, seq![c], j) by {
                if 0 <= j < s.len() && s[j] == c {
                    assert(s.contains(c));
                }
            }
        },
    }
}

/// What `rfind_char` finds, as an occurrence of a one-character pattern.
pub proof fn lemma_rfind_char_spec(s: Seq<char>, c: char, r: Option<usize>)
    requires
        match r {
            Some(i) => i < s.len() && s[i as int] == c && forall|j: int| i < j < s.len() ==> s[j] != c,
            None => !s.contains(c),
        },
    ensures
        rfind_spec(s, seq![c]) == match r {
            Some(i) => Some(i as int),
            None => None::<int>,
        },
{
    match r {
        Some(i) => {
            assert(occurs_at(s, seq![c], i as int)) by {
                assert(s.subrange(i as int, i + 1) =~= seq![c]);
            }
            let k = choose|k: int| occurs_at(s, seq![c], k) && forall|j: int| k < j ==> !occurs_at(s, seq![c], j);
            assert forall|j: int| i < j implies !occurs_at(s, seq![c], j) by {
                if occurs_at(s, seq![c], j) {
                    assert(s.subrange(j, j + 1)[0] == s[j]);
                }
            }
            if k != i {
                if k < i {
                } else {
                    assert(s.subrange(k, k + 1)[0] == s[k]);
                }
            }
        },
        None => {
            assert forall|j: int| !occurs_at(s, seq![c], j) by {
                if occurs_at(s, seq![c], j) {
                    assert(s.subrange(j, j + 1)[0] == s[j]);
                }
            }
        },
    }
}


proof fn lemma_first_from(s: Seq<char>, c: char, k: int)
    requires
        0 <= k < s.len(),
        s[k] == c,
    ensures
        0 <= first_index(s, c) < s.len(),
        s[first_index(s, c)] == c,
        forall|j: int| 0 <= j < first_index(s, c) ==> s[j] != c,
    decreases k,
{
    if exists|j: int| 0 <= j < k && s[j] == c {
        let j = choose|j: int| 0 <= j < k && s[j] == c;
        lemma_first_from(s, c, j);
    } else {
        lemma_first_index(s, c, k);
    }
}

/// A sequence that holds `c` has a first `c`.
pub proof fn lemma_first_index_exists(s: Seq<char>, c: char)
    requires
        s.contains(c),
    ensures
        0 <= first_index(s, c) < s.len(),
        s[first_index(s, c)] == c,
        forall|j: int| 0 <= j < first_index(s, c) ==> s[j] != c,
{
    let k = choose|k: int| 0 <= k < s.len() && s[k] == c;
    lemma_first_from(s, c, k);
}

} // verus!
