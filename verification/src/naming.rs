//! Naming conventions between a source and a target language: prefix stripping,
//! case conversion and type-name templates.
use vstd::prelude::*;
use crate::text::{
    ascii_lower, ascii_upper, chars_of, is_ascii_lower, is_ascii_seq, is_ascii_upper, ends_with_chars, find_char, has_chars, is_upper, replace_all,
    replace_chars, rfind_char, seq_ends_with, seq_has, seq_starts_with, slice_copy, starts_with_chars,
    string_of, to_ascii_lower, to_ascii_upper, unicode_upper, views,
};
use crate::data;

verus! {

/// How identifiers change case on the way to the target language.
#[derive(Debug, Clone, Copy, PartialEq, Eq, Structural)]
pub enum CaseTransform {
    NoChange,
    CamelToSnake,
    SnakeToCamel,
}

/// Naming rules for one direction of migration.
pub struct NamingRegistry {
    pub strip_prefixes: Vec<String>,
    pub case: CaseTransform,
    pub type_map: Vec<(String, String)>,
}

// ---------------------------------------------------------------------------
// Specification
// ---------------------------------------------------------------------------

/// Strip the first prefix (in list order) that is followed by an uppercase letter.
pub open spec fn strip_from(prefixes: Seq<Seq<char>>, name: Seq<char>, k: int) -> Seq<char>
    decreases prefixes.len() - k,
{
    if k >= prefixes.len() || k < 0 {
        name
    } else {
        let p = prefixes[k];
        let rest = name.subrange(p.len() as int, name.len() as int);
        if seq_starts_with(name, p) && rest.len() > 0 && unicode_upper(rest[0]) {
            rest
        } else {
            strip_from(prefixes, name, k + 1)
        }
    }
}

pub open spec fn strip_spec(prefixes: Seq<Seq<char>>, name: Seq<char>) -> Seq<char> {
    strip_from(prefixes, name, 0)
}

/// camelCase to snake_case: an underscore before every uppercase letter except
/// in front, which is lowered.
pub open spec fn camel_to_snake(s: Seq<char>) -> Seq<char>
    decreases s.len(),
{
    if s.len() == 0 {
        Seq::empty()
    } else {
        let i = s.len() - 1;
        let c = s[i];
        camel_to_snake(s.drop_last()) + if unicode_upper(c) {
            (if i > 0 { seq!['_'] } else { Seq::empty() }) + seq![ascii_lower(c)]
        } else {
            seq![c]
        }
    }
}

/// [`camel_to_snake`] on ASCII text, where the uppercase letters are `A`..=`Z`.
pub open spec fn camel_to_snake_ascii(s: Seq<char>) -> Seq<char>
    decreases s.len(),
{
    if s.len() == 0 {
        Seq::empty()
    } else {
        let i = s.len() - 1;
        let c = s[i];
        camel_to_snake_ascii(s.drop_last()) + if is_ascii_upper(c) {
            (if i > 0 { seq!['_'] } else { Seq::empty() }) + seq![ascii_lower(c)]
        } else {
            seq![c]
        }
    }
}

/// An identifier in camelCase: ASCII letters and digits, not starting uppercase.
pub open spec fn is_camel_word(s: Seq<char>) -> bool {
    &&& forall|i: int|
        0 <= i < s.len() ==> is_ascii_upper(#[trigger] s[i]) || is_ascii_lower(s[i]) || ('0' <= s[i] <= '9')
    &&& s.len() > 0 ==> !is_ascii_upper(s[0])
}

/// snake_case to camelCase: underscores dropped, the letter after one raised.
pub open spec fn snake_to_camel(s: Seq<char>, up: bool) -> Seq<char>
    decreases s.len(),
{
    if s.len() == 0 {
        Seq::empty()
    } else if s[0] == '_' {
        snake_to_camel(s.drop_first(), true)
    } else if up {
        seq![ascii_upper(s[0])] + snake_to_camel(s.drop_first(), false)
    } else {
        seq![s[0]] + snake_to_camel(s.drop_first(), false)
    }
}

pub open spec fn apply_case_spec(case: CaseTransform, s: Seq<char>) -> Seq<char> {
    match case {
        CaseTransform::CamelToSnake => camel_to_snake(s),
        CaseTransform::SnakeToCamel => snake_to_camel(s, false),
        CaseTransform::NoChange => s,
    }
}

pub open spec fn prefix_views(r: NamingRegistry) -> Seq<Seq<char>> {
    views(r.strip_prefixes@)
}

pub open spec fn translate_name_spec(r: NamingRegistry, name: Seq<char>) -> Seq<char> {
    apply_case_spec(r.case, strip_spec(prefix_views(r), name))
}

/// The candidate names, in order: the name, the stripped name, the converted name,
/// the stripped-and-converted name, each added only when new.
pub open spec fn candidates_spec(r: NamingRegistry, name: Seq<char>) -> Seq<Seq<char>> {
    let stripped = strip_spec(prefix_views(r), name);
    let transformed = apply_case_spec(r.case, name);
    let st = apply_case_spec(r.case, stripped);
    let l1 = seq![name];
    let l2 = if stripped != name { l1.push(stripped) } else { l1 };
    let l3 = if transformed != name && !l2.contains(transformed) { l2.push(transformed) } else { l2 };
    if st != transformed && !l3.contains(st) { l3.push(st) } else { l3 }
}

pub open spec fn marker(c: char) -> Seq<char> {
    seq!['{', c, '}']
}

pub open spec fn has_marker(p: Seq<char>) -> bool {
    seq_has(p, marker('T')) || seq_has(p, marker('K')) || seq_has(p, marker('V'))
}

/// Index of the first `c` in `s`.
pub open spec fn first_pos(s: Seq<char>, c: char) -> int {
    choose|i: int| 0 <= i < s.len() && s[i] == c && forall|j: int| 0 <= j < i ==> s[j] != c
}

/// Index of the last `c` in `s`.
pub open spec fn last_pos(s: Seq<char>, c: char) -> int {
    choose|i: int| 0 <= i < s.len() && s[i] == c && forall|j: int| i < j < s.len() ==> s[j] != c
}

/// The fixed text in front of a template's parameter.
pub open spec fn template_prefix(p: Seq<char>) -> Seq<char> {
    p.subrange(0, first_pos(p, '{'))
}

/// The fixed text behind a template's parameter.
pub open spec fn template_suffix(p: Seq<char>) -> Seq<char> {
    p.subrange(last_pos(p, '}') + 1, p.len() as int)
}

#[verifier::opaque]
/// Match a type against a template such as `Promise<{T}>`: a template without a
/// parameter matches itself only (capturing nothing); otherwise the type must carry
/// the template's fixed text around a non-empty captured part without `<` or `>`.
pub open spec fn match_template_spec(pattern: Seq<char>, ty: Seq<char>) -> Option<Seq<char>> {
    if !has_marker(pattern) {
        if pattern == ty { Some(Seq::empty()) } else { None }
    } else {
        let pre = template_prefix(pattern);
        let suf = template_suffix(pattern);
        if !seq_starts_with(ty, pre) || !seq_ends_with(ty, suf) {
            None
        } else {
            let inner = ty.subrange(pre.len() as int, ty.len() - suf.len());
            if inner.len() == 0 || inner.contains('<') || inner.contains('>') {
                None
            } else {
                Some(inner)
            }
        }
    }
}

/// A template can be matched without its fixed parts overlapping, and it never
/// captures the whole type.
pub open spec fn template_ok(p: Seq<char>) -> bool {
    has_marker(p) ==> {
        let pre = template_prefix(p);
        let suf = template_suffix(p);
        &&& pre.len() + suf.len() > 0
        &&& (suf.len() == 0 || !pre.contains(suf[0]))
    }
}

/// Where a type carries both fixed parts of a template, they fit side by side in it.
pub open spec fn fits_template(pattern: Seq<char>, ty: Seq<char>) -> bool {
    has_marker(pattern) && seq_starts_with(ty, template_prefix(pattern)) && seq_ends_with(
        ty,
        template_suffix(pattern),
    ) ==> template_prefix(pattern).len() + template_suffix(pattern).len() <= ty.len()
}

pub open spec fn map_views(m: Seq<(String, String)>) -> Seq<(Seq<char>, Seq<char>)> {
    m.map_values(|e: (String, String)| (e.0@, e.1@))
}

pub open spec fn type_map_ok(m: Seq<(Seq<char>, Seq<char>)>) -> bool {
    forall|k: int| 0 <= k < m.len() ==> template_ok(#[trigger] m[k].0)
}

/// Fill a target template with the translated parameter.
pub open spec fn fill_template(to: Seq<char>, inner: Seq<char>) -> Seq<char> {
    replace_all(replace_all(replace_all(to, marker('T'), inner), marker('K'), inner), marker('V'), inner)
}

/// Translate a type by the first matching entry of the type map, from entry `k` on;
/// the captured part of a template is translated in turn.
pub open spec fn translate_from(m: Seq<(Seq<char>, Seq<char>)>, ty: Seq<char>, k: int) -> Seq<char>
    decreases ty.len(), m.len() - k,
{
    if k >= m.len() || k < 0 {
        ty
    } else {
        match match_template_spec(m[k].0, ty) {
            Some(inner) => if inner.len() == 0 {
                m[k].1
            } else if inner.len() < ty.len() {
                fill_template(m[k].1, translate_from(m, inner, 0))
            } else {
                ty
            },
            None => translate_from(m, ty, k + 1),
        }
    }
}

pub open spec fn translate_type_spec(m: Seq<(Seq<char>, Seq<char>)>, ty: Seq<char>) -> Seq<char> {
    translate_from(m, ty, 0)
}

// ---------------------------------------------------------------------------
// Lemmas
// ---------------------------------------------------------------------------

proof fn lemma_first_pos(s: Seq<char>, c: char, i: int)
    requires
        0 <= i < s.len(),
        s[i] == c,
        forall|j: int| 0 <= j < i ==> s[j] != c,
    ensures
        first_pos(s, c) == i,
{
    let f = first_pos(s, c);
    assert(0 <= f < s.len() && s[f] == c && forall|j: int| 0 <= j < f ==> s[j] != c);
}

proof fn lemma_last_pos(s: Seq<char>, c: char, i: int)
    requires
        0 <= i < s.len(),
        s[i] == c,
        forall|j: int| i < j < s.len() ==> s[j] != c,
    ensures
        last_pos(s, c) == i,
{
    let f = last_pos(s, c);
    assert(0 <= f < s.len() && s[f] == c && forall|j: int| f < j < s.len() ==> s[j] != c);
}

proof fn lemma_has_implies_contains(s: Seq<char>, p: Seq<char>, a: int)
    requires
        seq_has(s, p),
        0 <= a < p.len(),
    ensures
        s.contains(p[a]),
{
    let i = choose|i: int| 0 <= i <= s.len() - p.len() && #[trigger] s.subrange(i, i + p.len()) == p;
    assert(s[i + a] == s.subrange(i, i + p.len())[a]);
}

/// A template with a marker has a `{` before its last `}`.
proof fn lemma_marker_positions(p: Seq<char>)
    requires
        has_marker(p),
    ensures
        p.contains('{'),
        p.contains('}'),
        0 <= first_pos(p, '{') < last_pos(p, '}') < p.len(),
{
    let c = if seq_has(p, marker('T')) { 'T' } else if seq_has(p, marker('K')) { 'K' } else { 'V' };
    let m = marker(c);
    assert(seq_has(p, m));
    let i = choose|i: int| 0 <= i <= p.len() - m.len() && #[trigger] p.subrange(i, i + m.len()) == m;
    assert(p[i] == p.subrange(i, i + 3)[0]);
    assert(p[i + 2] == p.subrange(i, i + 3)[2]);
    assert(p[i] == '{');
    assert(p[i + 2] == '}');
    let f = first_pos(p, '{');
    let l = last_pos(p, '}');
    assert(exists|k: int| 0 <= k < p.len() && p[k] == '{' && forall|j: int| 0 <= j < k ==> p[j] != '{') by {
        lemma_exists_first(p, '{', i);
    }
    assert(exists|k: int| 0 <= k < p.len() && p[k] == '}' && forall|j: int| k < j < p.len() ==> p[j] != '}') by {
        lemma_exists_last(p, '}', i + 2);
    }
    assert(f <= i);
    assert(l >= i + 2);
}

proof fn lemma_exists_first(s: Seq<char>, c: char, i: int)
    requires
        0 <= i < s.len(),
        s[i] == c,
    ensures
        exists|k: int| 0 <= k < s.len() && s[k] == c && forall|j: int| 0 <= j < k ==> s[j] != c,
    decreases i,
{
    if exists|j: int| 0 <= j < i && s[j] == c {
        let j = choose|j: int| 0 <= j < i && s[j] == c;
        lemma_exists_first(s, c, j);
    } else {
        assert(forall|j: int| 0 <= j < i ==> s[j] != c);
    }
}

proof fn lemma_exists_last(s: Seq<char>, c: char, i: int)
    requires
        0 <= i < s.len(),
        s[i] == c,
    ensures
        exists|k: int| 0 <= k < s.len() && s[k] == c && forall|j: int| k < j < s.len() ==> s[j] != c,
    decreases s.len() - i,
{
    if exists|j: int| i < j < s.len() && s[j] == c {
        let j = choose|j: int| i < j < s.len() && s[j] == c;
        lemma_exists_last(s, c, j);
    } else {
        assert(forall|j: int| i < j < s.len() ==> s[j] != c);
    }
}

/// For a well-formed template, the fixed parts of a matching type do not overlap.
proof fn lemma_no_overlap(p: Seq<char>, ty: Seq<char>)
    requires
        has_marker(p),
        template_ok(p),
        seq_starts_with(ty, template_prefix(p)),
        seq_ends_with(ty, template_suffix(p)),
    ensures
        template_prefix(p).len() + template_suffix(p).len() <= ty.len(),
{
    let pre = template_prefix(p);
    let suf = template_suffix(p);
    if suf.len() > 0 && pre.len() + suf.len() > ty.len() {
        let q = ty.len() - suf.len();
        assert(ty[q] == ty.subrange(q, ty.len() as int)[0]);
        assert(ty[q] == ty.subrange(0, pre.len() as int)[q]);
        assert(pre[q] == suf[0]);
        assert(pre.contains(suf[0]));
    }
}

// ---------------------------------------------------------------------------
// Implementation
// ---------------------------------------------------------------------------

fn marker_chars(c: char) -> (r: Vec<char>)
    ensures
        r@ == marker(c),
{
    let r = vec!['{', c, '}'];
    proof {
        assert(r@ =~= marker(c));
    }
    r
}

/// Whether a template can be used by [`NamingRegistry::translate_type`].
pub fn template_is_ok(p: &[char]) -> (r: bool)
    ensures
        r == template_ok(p@),
{
    let t = marker_chars('T');
    let k = marker_chars('K');
    let v = marker_chars('V');
    if !has_chars(p, &t) && !has_chars(p, &k) && !has_chars(p, &v) {
        return true;
    }
    proof {
        lemma_marker_positions(p@);
    }
    let st = match find_char(p, '{') {
        Some(i) => i,
        None => {
            return false;
        },
    };
    let en = match rfind_char(p, '}') {
        Some(i) => i,
        None => {
            return false;
        },
    };
    proof {
        lemma_first_pos(p@, '{', st as int);
        lemma_last_pos(p@, '}', en as int);
    }
    let pre_len = st;
    let suf_len = p.len() - en - 1;
    if pre_len + suf_len == 0 {
        return false;
    }
    if suf_len > 0 {
        let first_suf = p[en + 1];
        let pre = slice_copy(p, 0, st);
        proof {
            assert(template_suffix(p@)[0] == first_suf);
            assert(template_prefix(p@) == pre@);
        }
        match find_char(&pre, first_suf) {
            Some(j) => {
                proof {
                    assert(pre@.contains(first_suf)) by {
                        assert(pre@[j as int] == first_suf);
                    }
                }
                false
            },
            None => true,
        }
    } else {
        true
    }
}

/// Whether every template of a type map can be used.
pub fn type_map_is_ok(m: &Vec<(String, String)>) -> (r: bool)
    ensures
        r == type_map_ok(map_views(m@)),
{
    let mut i: usize = 0;
    while i < m.len()
        invariant
            i <= m.len(),
            forall|k: int| 0 <= k < i ==> template_ok(#[trigger] map_views(m@)[k].0),
        decreases m.len() - i,
    {
        let p = chars_of(m[i].0.as_str());
        if !template_is_ok(&p) {
            proof {
                assert(!template_ok(map_views(m@)[i as int].0));
            }
            return false;
        }
        i = i + 1;
    }
    true
}

fn camel_to_snake_chars(s: &[char]) -> (r: Vec<char>)
    ensures
        r@ == camel_to_snake(s@),
        is_ascii_seq(s@) ==> r@ == camel_to_snake_ascii(s@),
{
    let mut r: Vec<char> = Vec::new();
    let mut i: usize = 0;
    while i < s.len()
        invariant
            i <= s.len(),
            r@ == camel_to_snake(s@.subrange(0, i as int)),
            is_ascii_seq(s@) ==> r@ == camel_to_snake_ascii(s@.subrange(0, i as int)),
        decreases s.len() - i,
    {
        let c = s[i];
        let ghost before = r@;
        if is_upper(c) {
            if i > 0 {
                r.push('_');
            }
            r.push(to_ascii_lower(c));
        } else {
            r.push(c);
        }
        proof {
            let t = s@.subrange(0, i + 1);
            assert(t.drop_last() =~= s@.subrange(0, i as int));
            assert(t[i as int] == c);
            assert(r@ =~= camel_to_snake(t));
            if is_ascii_seq(s@) {
                assert((s@[i as int] as u32) < 128);
                assert(r@ =~= camel_to_snake_ascii(t));
            }
        }
        i = i + 1;
    }
    proof {
        assert(s@.subrange(0, s.len() as int) =~= s@);
    }
    r
}

fn snake_to_camel_chars(s: &[char]) -> (r: Vec<char>)
    ensures
        r@ == snake_to_camel(s@, false),
{
    let mut r: Vec<char> = Vec::new();
    let mut up = false;
    let mut i: usize = 0;
    proof {
        assert(s@.subrange(0, s.len() as int) =~= s@);
    }
    while i < s.len()
        invariant
            i <= s.len(),
            r@ + snake_to_camel(s@.subrange(i as int, s.len() as int), up) == snake_to_camel(s@, false),
        decreases s.len() - i,
    {
        let c = s[i];
        let ghost rest = s@.subrange(i as int, s.len() as int);
        let ghost before = r@;
        let ghost up0 = up;
        proof {
            assert(rest.drop_first() =~= s@.subrange(i + 1, s.len() as int));
            assert(rest[0] == c);
        }
        if c == '_' {
            up = true;
        } else if up {
            r.push(to_ascii_upper(c));
            up = false;
            proof {
                assert(r@ + snake_to_camel(s@.subrange(i + 1, s.len() as int), up) =~= before + (seq![ascii_upper(c)] + snake_to_camel(rest.drop_first(), false)));
            }
        } else {
            r.push(c);
            proof {
                assert(r@ + snake_to_camel(s@.subrange(i + 1, s.len() as int), up) =~= before + (seq![c] + snake_to_camel(rest.drop_first(), false)));
            }
        }
        i = i + 1;
    }
    proof {
        assert(r@ + snake_to_camel(s@.subrange(i as int, s.len() as int), up) =~= r@);
    }
    r
}

fn match_template_chars(pattern: &[char], ty: &[char]) -> (r: Option<Vec<char>>)
    requires
        fits_template(pattern@, ty@),
    ensures
        match r {
            Some(v) => match_template_spec(pattern@, ty@) == Some(v@),
            None => match_template_spec(pattern@, ty@).is_none(),
        },
{
    reveal(match_template_spec);
    let t = marker_chars('T');
    let k = marker_chars('K');
    let v = marker_chars('V');
    if !has_chars(pattern, &t) && !has_chars(pattern, &k) && !has_chars(pattern, &v) {
        if pattern.len() == ty.len() && starts_with_chars(ty, pattern) {
            proof {
                assert(ty@.subrange(0, pattern.len() as int) =~= ty@);
            }
            return Some(Vec::new());
        }
        proof {
            if pattern@ == ty@ {
                assert(ty@.subrange(0, pattern.len() as int) =~= ty@);
            }
        }
        return None;
    }
    proof {
        lemma_marker_positions(pattern@);
    }
    let st = match find_char(pattern, '{') {
        Some(i) => i,
        None => {
            return None;
        },
    };
    let en = match rfind_char(pattern, '}') {
        Some(i) => i,
        None => {
            return None;
        },
    };
    proof {
        lemma_first_pos(pattern@, '{', st as int);
        lemma_last_pos(pattern@, '}', en as int);
    }
    let pre = slice_copy(pattern, 0, st);
    let suf = slice_copy(pattern, en + 1, pattern.len());
    if !starts_with_chars(ty, &pre) || !ends_with_chars(ty, &suf) {
        return None;
    }
    let inner = slice_copy(ty, pre.len(), ty.len() - suf.len());
    if inner.len() == 0 {
        return None;
    }
    match find_char(&inner, '<') {
        Some(j) => {
            proof {
                assert(inner@[j as int] == '<');
            }
            return None;
        },
        None => {},
    }
    match find_char(&inner, '>') {
        Some(j) => {
            proof {
                assert(inner@[j as int] == '>');
            }
            return None;
        },
        None => {},
    }
    Some(inner)
}

impl NamingRegistry {
    /// The registry is usable for type translation.
    pub open spec fn wf(&self) -> bool {
        type_map_ok(map_views(self.type_map@))
    }

    /// The naming rules for migrating from `source_lang` to `target_lang`. Known
    /// directions are `typescript_to_rust`, `javascript_to_rust`, `rust_to_typescript`
    /// and `rust_to_javascript`; any other gives the registry that changes nothing.
    pub fn new(source_lang: &str, target_lang: &str) -> (r: Self)
        ensures
            r.wf(),
            is_to_rust_key(dir_key(source_lang@, target_lang@)) ==> {
                &&& prefix_views(r) == data::ts_to_rust_prefixes()
                &&& r.case == CaseTransform::CamelToSnake
                &&& map_views(r.type_map@) == data::ts_to_rust_types()
            },
            is_from_rust_key(dir_key(source_lang@, target_lang@)) ==> {
                &&& prefix_views(r) == Seq::<Seq<char>>::empty()
                &&& r.case == CaseTransform::SnakeToCamel
                &&& map_views(r.type_map@) == data::rust_to_ts_types()
            },
            !is_to_rust_key(dir_key(source_lang@, target_lang@)) && !is_from_rust_key(
                dir_key(source_lang@, target_lang@),
            ) ==> {
                &&& r.strip_prefixes.len() == 0
                &&& r.case == CaseTransform::NoChange
                &&& r.type_map.len() == 0
            },
    {
        let key = dir_key_chars(source_lang, target_lang);
        proof {
            lemma_direction_keys_distinct(key@);
        }
        if key_is_to_rust(&key) {
            data::ts_to_rust_naming()
        } else if key_is_from_rust(&key) {
            data::rust_to_ts_naming()
        } else {
            Self::default()
        }
    }

    /// The registry that changes no name and no type.
    pub fn default() -> (r: Self)
        ensures
            r.strip_prefixes@.len() == 0,
            r.case == CaseTransform::NoChange,
            r.type_map@.len() == 0,
            r.wf(),
    {
        NamingRegistry { strip_prefixes: Vec::new(), case: CaseTransform::NoChange, type_map: Vec::new() }
    }

    /// Translate an identifier: strip a known prefix, then convert its case.
    pub fn translate_name(&self, name: &str) -> (r: String)
        ensures
            r@ == translate_name_spec(*self, name@),
            self.strip_prefixes.len() == 0 && self.case == CaseTransform::CamelToSnake && is_ascii_seq(name@)
                ==> r@ == camel_to_snake_ascii(name@),
    {
        let stripped = self.strip_prefix(name);
        let c = chars_of(stripped.as_str());
        let out = self.apply_case(&c);
        string_of(&out)
    }

    /// All names under which `name` may appear in the target project.
    pub fn candidates(&self, name: &str) -> (r: Vec<String>)
        ensures
            views(r@) == candidates_spec(*self, name@),
    {
        let mut result: Vec<String> = Vec::new();
        result.push(String::from_str(name));
        let stripped = self.strip_prefix(name);
        let nc = chars_of(name);
        let stripped_c = chars_of(stripped.as_str());
        let ghost l1 = views(result@);
        proof {
            assert(l1 =~= seq![name@]);
        }
        if !same_chars(&stripped_c, &nc) {
            result.push(stripped.clone());
        }
        let ghost l2 = views(result@);
        proof {
            assert(l2 =~= (if stripped@ != name@ { l1.push(stripped@) } else { l1 }));
        }
        let transformed = string_of(&self.apply_case(&nc));
        let tc = chars_of(transformed.as_str());
        if !same_chars(&tc, &nc) && !crate::graph::contains_string(&result, &transformed) {
            result.push(transformed.clone());
        }
        let ghost l3 = views(result@);
        proof {
            assert(l3 =~= (if transformed@ != name@ && !l2.contains(transformed@) { l2.push(transformed@) } else { l2 }));
        }
        let st = string_of(&self.apply_case(&stripped_c));
        let stc = chars_of(st.as_str());
        if !same_chars(&stc, &tc) && !crate::graph::contains_string(&result, &st) {
            result.push(st);
        }
        proof {
            assert(views(result@) =~= (if st@ != transformed@ && !l3.contains(st@) { l3.push(st@) } else { l3 }));
        }
        result
    }

    /// Translate a type name through the type map; a template's parameter is
    /// translated in turn, and an unknown type stays as it is.
    pub fn translate_type(&self, ty: &str) -> (r: String)
        requires
            self.wf(),
        ensures
            r@ == translate_type_spec(map_views(self.type_map@), ty@),
    {
        let t = chars_of(ty);
        let out = self.translate_chars(&t, 0);
        string_of(&out)
    }

    #[verifier::spinoff_prover]
    #[verifier::rlimit(40)]
    fn translate_chars(&self, ty: &Vec<char>, k: usize) -> (r: Vec<char>)
        requires
            self.wf(),
            k <= self.type_map.len(),
        ensures
            r@ == translate_from(map_views(self.type_map@), ty@, k as int),
        decreases ty.len(), self.type_map.len() - k,
    {
        if k >= self.type_map.len() {
            return ty.clone();
        }
        let ghost m = map_views(self.type_map@);
        let from = chars_of(self.type_map[k].0.as_str());
        proof {
            assert(m[k as int].0 == from@);
            assert(template_ok(m[k as int].0));
            assert(fits_template(from@, ty@)) by {
                if has_marker(from@) && seq_starts_with(ty@, template_prefix(from@)) && seq_ends_with(
                    ty@,
                    template_suffix(from@),
                ) {
                    lemma_no_overlap(from@, ty@);
                }
            }
        }
        match match_template_chars(&from, ty) {
            Some(inner) => {
                let to = chars_of(self.type_map[k].1.as_str());
                proof {
                    assert(m[k as int].1 == to@);
                }
                if inner.len() == 0 {
                    return to;
                }
                proof {
                    lemma_inner_shorter(from@, ty@);
                }
                let ti = self.translate_chars(&inner, 0);
                let a = replace_chars(&to, &marker_chars('T'), &ti);
                let b = replace_chars(&a, &marker_chars('K'), &ti);
                replace_chars(&b, &marker_chars('V'), &ti)
            },
            None => self.translate_chars(ty, k + 1),
        }
    }

    fn strip_prefix(&self, name: &str) -> (r: String)
        ensures
            r@ == strip_spec(prefix_views(*self), name@),
    {
        let n = chars_of(name);
        let mut k: usize = 0;
        while k < self.strip_prefixes.len()
            invariant
                k <= self.strip_prefixes.len(),
                n@ == name@,
                strip_from(prefix_views(*self), name@, 0) == strip_from(prefix_views(*self), name@, k as int),
            decreases self.strip_prefixes.len() - k,
        {
            let p = chars_of(self.strip_prefixes[k].as_str());
            proof {
                assert(prefix_views(*self)[k as int] == p@);
            }
            if starts_with_chars(&n, &p) && p.len() < n.len() && is_upper(n[p.len()]) {
                let rest = slice_copy(&n, p.len(), n.len());
                return string_of(&rest);
            }
            proof {
                let rest = name@.subrange(p@.len() as int, name@.len() as int);
                if seq_starts_with(name@, p@) && rest.len() > 0 {
                    assert(rest[0] == n@[p.len() as int]);
                }
            }
            k = k + 1;
        }
        String::from_str(name)
    }

    fn apply_case(&self, name: &Vec<char>) -> (r: Vec<char>)
        ensures
            r@ == apply_case_spec(self.case, name@),
            self.case == CaseTransform::CamelToSnake && is_ascii_seq(name@) ==> r@ == camel_to_snake_ascii(name@),
    {
        match self.case {
            CaseTransform::CamelToSnake => camel_to_snake_chars(name),
            CaseTransform::SnakeToCamel => snake_to_camel_chars(name),
            CaseTransform::NoChange => name.clone(),
        }
    }
}

proof fn lemma_inner_shorter(pattern: Seq<char>, ty: Seq<char>)
    requires
        template_ok(pattern),
        match_template_spec(pattern, ty) matches Some(inner) && inner.len() > 0,
    ensures
        match_template_spec(pattern, ty)->0.len() < ty.len(),
{
    reveal(match_template_spec);
    if has_marker(pattern) {
        lemma_no_overlap(pattern, ty);
    }
}

/// Reading snake_case after a piece that ends in something other than `_` starts afresh.
proof fn lemma_snake_split(a: Seq<char>, b: Seq<char>, up: bool)
    requires
        a.len() > 0,
        a.last() != '_',
    ensures
        snake_to_camel(a + b, up) == snake_to_camel(a, up) + snake_to_camel(b, false),
    decreases a.len(),
{
    assert((a + b).drop_first() =~= a.drop_first() + b);
    assert((a + b)[0] == a[0]);
    if a.len() == 1 {
        assert(a.drop_first() =~= Seq::<char>::empty());
        assert(a.drop_first() + b =~= b);
        assert(snake_to_camel(a.drop_first(), false) =~= Seq::<char>::empty());
        assert(snake_to_camel(a.drop_first(), true) =~= Seq::<char>::empty());
        if up {
            assert(snake_to_camel(a, up) =~= seq![ascii_upper(a[0])]);
        } else {
            assert(snake_to_camel(a, up) =~= seq![a[0]]);
        }
    } else {
        assert(a.drop_first().last() == a.last());
        lemma_snake_split(a.drop_first(), b, true);
        lemma_snake_split(a.drop_first(), b, false);
        if a[0] == '_' {
        } else if up {
            assert(seq![ascii_upper(a[0])] + snake_to_camel(a.drop_first(), false) + snake_to_camel(b, false)
                =~= seq![ascii_upper(a[0])] + (snake_to_camel(a.drop_first(), false) + snake_to_camel(b, false)));
        } else {
            assert(seq![a[0]] + snake_to_camel(a.drop_first(), false) + snake_to_camel(b, false)
                =~= seq![a[0]] + (snake_to_camel(a.drop_first(), false) + snake_to_camel(b, false)));
        }
    }
}

/// The snake_case form of a non-empty camelCase word is non-empty and does not end in `_`.
proof fn lemma_snake_ends_plain(s: Seq<char>)
    requires
        s.len() > 0,
        is_camel_word(s),
    ensures
        camel_to_snake_ascii(s).len() > 0,
        camel_to_snake_ascii(s).last() != '_',
{
    let c = s[s.len() - 1];
    assert(is_ascii_upper(c) || is_ascii_lower(c) || ('0' <= c <= '9'));
    if is_ascii_upper(c) {
        assert(ascii_lower(c) != '_');
    }
}

/// camelCase to snake_case and back gives the word again.
pub proof fn law_camel_snake_round_trip(s: Seq<char>)
    requires
        is_camel_word(s),
    ensures
        is_ascii_seq(s),
        snake_to_camel(camel_to_snake_ascii(s), false) == s,
    decreases s.len(),
{
    assert forall|i: int| 0 <= i < s.len() implies (#[trigger] s[i] as u32) < 128 by {
        assert(is_ascii_upper(s[i]) || is_ascii_lower(s[i]) || ('0' <= s[i] <= '9'));
    }
    if s.len() > 0 {
        let i = s.len() - 1;
        let c = s[i];
        let p = s.drop_last();
        assert(is_ascii_upper(c) || is_ascii_lower(c) || ('0' <= c <= '9'));
        let tail = if is_ascii_upper(c) {
            (if i > 0 { seq!['_'] } else { Seq::empty() }) + seq![ascii_lower(c)]
        } else {
            seq![c]
        };
        assert(camel_to_snake_ascii(s) == camel_to_snake_ascii(p) + tail);
        if is_ascii_upper(c) {
            assert(ascii_upper(ascii_lower(c)) == c);
            assert(ascii_lower(c) != '_');
        }
        if i == 0 {
            assert(!is_ascii_upper(c));
            assert(camel_to_snake_ascii(p) =~= Seq::<char>::empty());
            assert(camel_to_snake_ascii(s) =~= seq![c]);
            assert(seq![c].drop_first() =~= Seq::<char>::empty());
            assert(seq![c][0] == c && c != '_');
            assert(snake_to_camel(Seq::<char>::empty(), false) =~= Seq::<char>::empty());
            assert(snake_to_camel(seq![c], false) =~= seq![c]);
            assert(s =~= seq![c]);
        } else {
            assert(is_camel_word(p)) by {
                assert forall|j: int| 0 <= j < p.len() implies is_ascii_upper(#[trigger] p[j]) || is_ascii_lower(p[j])
                    || ('0' <= p[j] <= '9') by {
                    assert(p[j] == s[j]);
                }
                assert(p[0] == s[0]);
            }
            law_camel_snake_round_trip(p);
            lemma_snake_ends_plain(p);
            lemma_snake_split(camel_to_snake_ascii(p), tail, false);
            if is_ascii_upper(c) {
                let t2 = seq!['_', ascii_lower(c)];
                assert(tail =~= t2);
                assert(t2.drop_first() =~= seq![ascii_lower(c)]);
                assert(seq![ascii_lower(c)].drop_first() =~= Seq::<char>::empty());
                assert(seq![ascii_lower(c)][0] == ascii_lower(c));
                assert(t2[0] == '_');
                assert(snake_to_camel(Seq::<char>::empty(), false) =~= Seq::<char>::empty());
                assert(snake_to_camel(seq![ascii_lower(c)], true) =~= seq![c]);
                assert(snake_to_camel(t2, false) =~= seq![c]);
            } else {
                assert(seq![c].drop_first() =~= Seq::<char>::empty());
                assert(seq![c][0] == c && c != '_');
                assert(snake_to_camel(Seq::<char>::empty(), false) =~= Seq::<char>::empty());
                assert(snake_to_camel(seq![c], false) =~= seq![c]);
            }
            assert(s =~= p + seq![c]);
        }
    }
}

/// Equality of two character sequences.
pub fn same_chars(a: &[char], b: &[char]) -> (r: bool)
    ensures
        r == (a@ == b@),
{
    if a.len() != b.len() {
        return false;
    }
    let r = starts_with_chars(a, b);
    proof {
        assert(a@.subrange(0, b.len() as int) =~= a@);
    }
    r
}

/// `"{source}_to_{target}"`, the key of a migration direction.
pub open spec fn dir_key(source: Seq<char>, target: Seq<char>) -> Seq<char> {
    source + seq!['_', 't', 'o', '_'] + target
}

pub open spec fn is_to_rust_key(k: Seq<char>) -> bool {
    k == "typescript_to_rust"@ || k == "javascript_to_rust"@
}

pub open spec fn is_from_rust_key(k: Seq<char>) -> bool {
    k == "rust_to_typescript"@ || k == "rust_to_javascript"@
}

/// A direction key names at most one of the two built-in directions.
pub proof fn lemma_direction_keys_distinct(k: Seq<char>)
    ensures
        !(is_to_rust_key(k) && is_from_rust_key(k)),
{
    reveal_strlit("typescript_to_rust");
    reveal_strlit("javascript_to_rust");
    reveal_strlit("rust_to_typescript");
    reveal_strlit("rust_to_javascript");
    if is_to_rust_key(k) && is_from_rust_key(k) {
        assert(k[0] == 't' || k[0] == 'j');
        assert(k[0] == 'r');
    }
}

pub fn dir_key_chars(source: &str, target: &str) -> (r: Vec<char>)
    ensures
        r@ == dir_key(source@, target@),
{
    let mut k = chars_of(source);
    k.push('_');
    k.push('t');
    k.push('o');
    k.push('_');
    let t = chars_of(target);
    let mut i: usize = 0;
    let ghost k0 = k@;
    while i < t.len()
        invariant
            i <= t.len(),
            k@ == k0 + t@.subrange(0, i as int),
        decreases t.len() - i,
    {
        k.push(t[i]);
        i = i + 1;
        proof {
            assert(k@ =~= k0 + t@.subrange(0, i as int));
        }
    }
    proof {
        assert(k@ =~= dir_key(source@, target@));
    }
    k
}

pub fn key_is_to_rust(k: &Vec<char>) -> (r: bool)
    ensures
        r == is_to_rust_key(k@),
{
    let a = chars_of("typescript_to_rust");
    let b = chars_of("javascript_to_rust");
    same_chars(k, &a) || same_chars(k, &b)
}

pub fn key_is_from_rust(k: &Vec<char>) -> (r: bool)
    ensures
        r == is_from_rust_key(k@),
{
    let a = chars_of("rust_to_typescript");
    let b = chars_of("rust_to_javascript");
    same_chars(k, &a) || same_chars(k, &b)
}


/// The candidate names of `name` start with `name` itself, hold the translated
/// name, and hold no name twice.
pub proof fn law_candidates(r: NamingRegistry, name: Seq<char>)
    ensures
        candidates_spec(r, name).len() >= 1,
        candidates_spec(r, name)[0] == name,
        candidates_spec(r, name).contains(translate_name_spec(r, name)),
        candidates_spec(r, name).no_duplicates(),
{
    let stripped = strip_spec(prefix_views(r), name);
    let transformed = apply_case_spec(r.case, name);
    let st = apply_case_spec(r.case, stripped);
    let l1 = seq![name];
    let l2 = if stripped != name { l1.push(stripped) } else { l1 };
    let l3 = if transformed != name && !l2.contains(transformed) { l2.push(transformed) } else { l2 };
    let c = candidates_spec(r, name);
    assert(l2.no_duplicates());
    assert(l3.no_duplicates()) by {
        if transformed != name && !l2.contains(transformed) {
            assert forall|i: int, j: int| 0 <= i < l3.len() && 0 <= j < l3.len() && i != j implies l3[i] != l3[j] by {
                if j == l3.len() - 1 {
                    assert(l2.contains(l2[i]) || i == l3.len() - 1);
                } else if i == l3.len() - 1 {
                    assert(l2.contains(l2[j]));
                }
            }
        }
    }
    assert(c.no_duplicates()) by {
        if st != transformed && !l3.contains(st) {
            assert forall|i: int, j: int| 0 <= i < c.len() && 0 <= j < c.len() && i != j implies c[i] != c[j] by {
                if j == c.len() - 1 {
                    assert(l3.contains(l3[i]) || i == c.len() - 1);
                } else if i == c.len() - 1 {
                    assert(l3.contains(l3[j]));
                }
            }
        }
    }
    assert(c.contains(st)) by {
        if st != transformed && !l3.contains(st) {
            assert(c[c.len() - 1] == st);
        } else if l3.contains(st) {
            let k = choose|k: int| 0 <= k < l3.len() && l3[k] == st;
            assert(c[k] == st);
        } else {
            if transformed == name {
                assert(c[0] == st);
            } else if l2.contains(transformed) {
                let k = choose|k: int| 0 <= k < l2.len() && l2[k] == transformed;
                assert(c[k] == st);
            } else {
                assert(c[l3.len() - 1] == st);
            }
        }
    }
}

} // verus!
