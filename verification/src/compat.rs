//! Compatibility levels, migration effort, compatibility entries and risk tags.
use vstd::prelude::*;
use crate::text::{
    ascii_lower, chars_of, has_chars, is_ascii_lower, is_ascii_seq, lowercase_of, seq_has, str_to_lowercase, string_of,
    trim_chars, trim_spec, views,
};
use crate::naming::same_chars;

verus! {

/// How well a dependency carries over to the target language, from worst to best.
#[derive(Debug, Clone, Copy, PartialEq, Eq, Structural)]
pub enum CompatibilityLevel {
    Unknown,
    Incompatible,
    Partial,
    Full,
}

/// How much work porting a dependency represents.
#[derive(Debug, Clone, Copy, PartialEq, Eq, Structural)]
pub enum MigrationEffort {
    Unknown,
    Trivial,
    Moderate,
    Heavy,
    Rewrite,
}

/// Position in the order `Unknown < Incompatible < Partial < Full`.
pub open spec fn level_rank(l: CompatibilityLevel) -> int {
    match l {
        CompatibilityLevel::Unknown => 0,
        CompatibilityLevel::Incompatible => 1,
        CompatibilityLevel::Partial => 2,
        CompatibilityLevel::Full => 3,
    }
}

pub open spec fn default_effort_spec(l: CompatibilityLevel) -> MigrationEffort {
    match l {
        CompatibilityLevel::Full => MigrationEffort::Trivial,
        CompatibilityLevel::Partial => MigrationEffort::Moderate,
        CompatibilityLevel::Incompatible => MigrationEffort::Rewrite,
        CompatibilityLevel::Unknown => MigrationEffort::Unknown,
    }
}

pub open spec fn level_name(l: CompatibilityLevel) -> Seq<char> {
    match l {
        CompatibilityLevel::Full => "full"@,
        CompatibilityLevel::Partial => "partial"@,
        CompatibilityLevel::Incompatible => "none"@,
        CompatibilityLevel::Unknown => "unknown"@,
    }
}

pub open spec fn effort_name(e: MigrationEffort) -> Seq<char> {
    match e {
        MigrationEffort::Trivial => "trivial"@,
        MigrationEffort::Moderate => "moderate"@,
        MigrationEffort::Heavy => "heavy"@,
        MigrationEffort::Rewrite => "rewrite"@,
        MigrationEffort::Unknown => "unknown"@,
    }
}

impl CompatibilityLevel {
    pub fn rank(&self) -> (r: u8)
        ensures
            r == level_rank(*self),
    {
        match self {
            CompatibilityLevel::Unknown => 0,
            CompatibilityLevel::Incompatible => 1,
            CompatibilityLevel::Partial => 2,
            CompatibilityLevel::Full => 3,
        }
    }

    /// The effort a dependency of this level takes when nothing else is known.
    pub fn default_effort(&self) -> (r: MigrationEffort)
        ensures
            r == default_effort_spec(*self),
    {
        match self {
            CompatibilityLevel::Full => MigrationEffort::Trivial,
            CompatibilityLevel::Partial => MigrationEffort::Moderate,
            CompatibilityLevel::Incompatible => MigrationEffort::Rewrite,
            CompatibilityLevel::Unknown => MigrationEffort::Unknown,
        }
    }

    /// The level's lowercase name, as written in reports.
    pub fn as_str(&self) -> (r: &'static str)
        ensures
            r@ == level_name(*self),
    {
        match self {
            CompatibilityLevel::Full => "full",
            CompatibilityLevel::Partial => "partial",
            CompatibilityLevel::Incompatible => "none",
            CompatibilityLevel::Unknown => "unknown",
        }
    }
}

impl MigrationEffort {
    /// Heavy and rewrite efforts weigh on a migration.
    pub fn is_high_impact(&self) -> (r: bool)
        ensures
            r == (*self == MigrationEffort::Heavy || *self == MigrationEffort::Rewrite),
    {
        match self {
            MigrationEffort::Heavy | MigrationEffort::Rewrite => true,
            _ => false,
        }
    }

    /// The effort's lowercase name, as written in reports.
    pub fn as_str(&self) -> (r: &'static str)
        ensures
            r@ == effort_name(*self),
    {
        match self {
            MigrationEffort::Trivial => "trivial",
            MigrationEffort::Moderate => "moderate",
            MigrationEffort::Heavy => "heavy",
            MigrationEffort::Rewrite => "rewrite",
            MigrationEffort::Unknown => "unknown",
        }
    }
}

// ---------------------------------------------------------------------------
// Parsing levels and efforts
// ---------------------------------------------------------------------------

pub open spec fn level_of_word(w: Seq<char>) -> CompatibilityLevel {
    if w == "full"@ {
        CompatibilityLevel::Full
    } else if w == "partial"@ {
        CompatibilityLevel::Partial
    } else if w == "none"@ {
        CompatibilityLevel::Incompatible
    } else {
        CompatibilityLevel::Unknown
    }
}

pub open spec fn effort_of_word(w: Seq<char>) -> MigrationEffort {
    if w == "trivial"@ {
        MigrationEffort::Trivial
    } else if w == "moderate"@ {
        MigrationEffort::Moderate
    } else if w == "heavy"@ {
        MigrationEffort::Heavy
    } else if w == "rewrite"@ {
        MigrationEffort::Rewrite
    } else {
        MigrationEffort::Unknown
    }
}

/// The words of a level, already trimmed and lowercased.
pub fn compatibility_from_word(w: &str) -> (r: CompatibilityLevel)
    ensures
        r == level_of_word(w@),
{
    let c = chars_of(w);
    if same_chars(&c, &chars_of("full")) {
        CompatibilityLevel::Full
    } else if same_chars(&c, &chars_of("partial")) {
        CompatibilityLevel::Partial
    } else if same_chars(&c, &chars_of("none")) {
        CompatibilityLevel::Incompatible
    } else {
        CompatibilityLevel::Unknown
    }
}

/// The words of an effort, already trimmed and lowercased.
pub fn effort_from_word(w: &str) -> (r: MigrationEffort)
    ensures
        r == effort_of_word(w@),
{
    let c = chars_of(w);
    if same_chars(&c, &chars_of("trivial")) {
        MigrationEffort::Trivial
    } else if same_chars(&c, &chars_of("moderate")) {
        MigrationEffort::Moderate
    } else if same_chars(&c, &chars_of("heavy")) {
        MigrationEffort::Heavy
    } else if same_chars(&c, &chars_of("rewrite")) {
        MigrationEffort::Rewrite
    } else {
        MigrationEffort::Unknown
    }
}

/// `s` with `A`..=`Z` lowered, as `str::to_lowercase` does on ASCII text.
pub open spec fn ascii_lowercase(s: Seq<char>) -> Seq<char> {
    s.map_values(|c: char| ascii_lower(c))
}

/// A level read from text: trimmed, lowercased, and `full`, `partial` or `none`;
/// anything else is `Unknown`.
pub fn parse_compatibility_str(s: &str) -> (r: CompatibilityLevel)
    ensures
        r == level_of_word(lowercase_of(trim_spec(s@))),
        is_ascii_seq(trim_spec(s@)) ==> r == level_of_word(ascii_lowercase(trim_spec(s@))),
{
    let t = string_of(&trim_chars(&chars_of(s)));
    let l = str_to_lowercase(t.as_str());
    compatibility_from_word(l.as_str())
}

/// An effort read from text: trimmed, lowercased, and `trivial`, `moderate`, `heavy`
/// or `rewrite`; anything else is `Unknown`.
pub fn parse_effort_str(s: &str) -> (r: MigrationEffort)
    ensures
        r == effort_of_word(lowercase_of(trim_spec(s@))),
        is_ascii_seq(trim_spec(s@)) ==> r == effort_of_word(ascii_lowercase(trim_spec(s@))),
{
    let t = string_of(&trim_chars(&chars_of(s)));
    let l = str_to_lowercase(t.as_str());
    effort_from_word(l.as_str())
}

/// A word of lowercase letters is its own trimmed, lowercased form.
proof fn lemma_lower_word(w: Seq<char>)
    requires
        w.len() > 0,
        forall|i: int| 0 <= i < w.len() ==> is_ascii_lower(#[trigger] w[i]),
    ensures
        is_ascii_seq(trim_spec(w)),
        ascii_lowercase(trim_spec(w)) == w,
{
    assert(w[0] == w[0]);
    assert(crate::text::lead_ws(w) == 0);
    let rest = w.subrange(0, w.len() as int);
    assert(rest =~= w);
    assert(w.last() == w[w.len() - 1]);
    assert(crate::text::trail_ws(rest) == 0);
    assert(trim_spec(w) =~= w);
    assert(is_ascii_seq(w)) by {
        assert forall|i: int| 0 <= i < w.len() implies (#[trigger] w[i] as u32) < 128 by {
            assert(is_ascii_lower(w[i]));
        }
    }
    assert(ascii_lowercase(w) =~= w);
}

/// Trimming and lowercasing ASCII text a second time changes nothing.
pub proof fn law_normalized_text_stable(s: Seq<char>)
    requires
        is_ascii_seq(trim_spec(s)),
    ensures
        is_ascii_seq(trim_spec(ascii_lowercase(trim_spec(s)))),
        ascii_lowercase(trim_spec(ascii_lowercase(trim_spec(s)))) == ascii_lowercase(trim_spec(s)),
{
    let x = trim_spec(s);
    let t = ascii_lowercase(x);
    crate::text::lemma_trim_ends(s);
    if x.len() > 0 {
        assert(t[0] == ascii_lower(x[0]));
        assert(t.last() == ascii_lower(x.last()));
        assert((x[0] as u32) < 128 && (x[x.len() - 1] as u32) < 128);
    }
    crate::text::lemma_trim_plain(t);
    assert forall|i: int| 0 <= i < t.len() implies (#[trigger] t[i] as u32) < 128 by {
        assert((x[i] as u32) < 128);
    }
    assert(ascii_lowercase(t) =~= t) by {
        assert forall|i: int| 0 <= i < t.len() implies #[trigger] ascii_lowercase(t)[i] == t[i] by {
            assert(t[i] == ascii_lower(x[i]));
        }
    }
}

/// On ASCII text, reading a level from the trimmed, lowercased text gives what
/// reading the text gives.
pub proof fn law_level_of_normalized_text(s: Seq<char>)
    requires
        is_ascii_seq(trim_spec(s)),
    ensures
        is_ascii_seq(trim_spec(ascii_lowercase(trim_spec(s)))),
        level_of_word(ascii_lowercase(trim_spec(ascii_lowercase(trim_spec(s))))) == level_of_word(
            ascii_lowercase(trim_spec(s)),
        ),
        effort_of_word(ascii_lowercase(trim_spec(ascii_lowercase(trim_spec(s))))) == effort_of_word(
            ascii_lowercase(trim_spec(s)),
        ),
{
    law_normalized_text_stable(s);
}

/// Reading a level's own name (trimmed, lowercased) gives the level back.
pub proof fn law_level_name_round_trip(l: CompatibilityLevel)
    ensures
        is_ascii_seq(trim_spec(level_name(l))),
        level_of_word(ascii_lowercase(trim_spec(level_name(l)))) == l,
{
    reveal_strlit("full");
    reveal_strlit("partial");
    reveal_strlit("none");
    reveal_strlit("unknown");
    let w = level_name(l);
    assert forall|i: int| 0 <= i < w.len() implies is_ascii_lower(#[trigger] w[i]) by {}
    lemma_lower_word(w);
    assert("full"@.len() == 4 && "partial"@.len() == 7 && "none"@.len() == 4 && "unknown"@.len() == 7);
    assert("full"@[0] == 'f' && "partial"@[0] == 'p' && "none"@[0] == 'n' && "unknown"@[0] == 'u');
    assert("none"@[1] == 'o');
}

/// Reading an effort's own name (trimmed, lowercased) gives the effort back.
pub proof fn law_effort_name_round_trip(e: MigrationEffort)
    ensures
        is_ascii_seq(trim_spec(effort_name(e))),
        effort_of_word(ascii_lowercase(trim_spec(effort_name(e)))) == e,
{
    reveal_strlit("trivial");
    reveal_strlit("moderate");
    reveal_strlit("heavy");
    reveal_strlit("rewrite");
    reveal_strlit("unknown");
    let w = effort_name(e);
    assert forall|i: int| 0 <= i < w.len() implies is_ascii_lower(#[trigger] w[i]) by {}
    lemma_lower_word(w);
    assert("trivial"@[0] == 't' && "moderate"@[0] == 'm' && "heavy"@[0] == 'h' && "rewrite"@[0] == 'r'
        && "unknown"@[0] == 'u');
}

// ---------------------------------------------------------------------------
// Risk tags
// ---------------------------------------------------------------------------

/// Library tags that mark a risky area when porting.
pub open spec fn is_risky_tag(t: Seq<char>) -> bool {
    t == "async"@ || t == "ffi"@ || t == "concurrency"@ || t == "unsafe"@ || t == "crypto"@
        || t == "realtime"@ || t == "ssr"@
}

/// Guidance text that hints at foreign-function or unsafe work.
pub open spec fn guidance_hints_ffi(lower: Seq<char>) -> bool {
    seq_has(lower, "unsafe"@) || seq_has(lower, "ffi"@) || seq_has(lower, "no direct"@)
}

/// `s` without repetitions, each element kept at its first occurrence.
pub open spec fn dedup_first(s: Seq<Seq<char>>) -> Seq<Seq<char>>
    decreases s.len(),
{
    if s.len() == 0 {
        Seq::empty()
    } else {
        let d = dedup_first(s.drop_last());
        if d.contains(s.last()) {
            d
        } else {
            d.push(s.last())
        }
    }
}

/// The risky tags among `tags`, lowercased, in order.
pub open spec fn risky_tags_from(tags: Seq<Seq<char>>, acc: Seq<Seq<char>>, k: int) -> Seq<Seq<char>>
    decreases tags.len() - k,
{
    if k < 0 || k >= tags.len() {
        acc
    } else {
        let tl = lowercase_of(tags[k]);
        risky_tags_from(tags, if is_risky_tag(tl) { acc.push(tl) } else { acc }, k + 1)
    }
}

/// The risk tags before removing repetitions.
pub open spec fn risk_list(
    effort: MigrationEffort,
    compat: CompatibilityLevel,
    tags: Option<Seq<Seq<char>>>,
    guidance: Option<Seq<char>>,
) -> Seq<Seq<char>> {
    let a = match effort {
        MigrationEffort::Rewrite => seq!["rewrite"@],
        MigrationEffort::Heavy => seq!["heavy"@],
        _ => Seq::<Seq<char>>::empty(),
    };
    let b = if compat == CompatibilityLevel::Incompatible { a.push("no-equivalent"@) } else { a };
    let c = if compat == CompatibilityLevel::Unknown { b.push("unverified"@) } else { b };
    let d = match tags {
        Some(t) => risky_tags_from(t, c, 0),
        None => c,
    };
    match guidance {
        Some(g) => if guidance_hints_ffi(lowercase_of(g)) && !d.contains("ffi"@) {
            d.push("ffi"@)
        } else {
            d
        },
        None => d,
    }
}

pub open spec fn risk_tags_spec(
    effort: MigrationEffort,
    compat: CompatibilityLevel,
    tags: Option<Seq<Seq<char>>>,
    guidance: Option<Seq<char>>,
) -> Seq<Seq<char>> {
    dedup_first(risk_list(effort, compat, tags, guidance))
}

fn push_lit(v: &mut Vec<String>, lit: &str)
    ensures
        views(final(v)@) == views(old(v)@).push(lit@),
{
    let ghost before = views(v@);
    v.push(String::from_str(lit));
    proof {
        assert(views(v@) =~= before.push(lit@));
    }
}

fn is_risky_tag_exec(t: &str) -> (r: bool)
    ensures
        r == is_risky_tag(t@),
{
    let c = chars_of(t);
    same_chars(&c, &chars_of("async")) || same_chars(&c, &chars_of("ffi")) || same_chars(
        &c,
        &chars_of("concurrency"),
    ) || same_chars(&c, &chars_of("unsafe")) || same_chars(&c, &chars_of("crypto")) || same_chars(
        &c,
        &chars_of("realtime"),
    ) || same_chars(&c, &chars_of("ssr"))
}

/// Remove repetitions, keeping first occurrences.
pub fn dedup_strings(v: &Vec<String>) -> (r: Vec<String>)
    ensures
        views(r@) == dedup_first(views(v@)),
{
    let mut r: Vec<String> = Vec::new();
    let mut i: usize = 0;
    while i < v.len()
        invariant
            i <= v.len(),
            views(r@) == dedup_first(views(v@).subrange(0, i as int)),
        decreases v.len() - i,
    {
        let ghost pre = views(v@).subrange(0, i + 1);
        proof {
            assert(pre.drop_last() =~= views(v@).subrange(0, i as int));
            assert(pre.last() == v@[i as int]@);
        }
        if !crate::graph::contains_string(&r, &v[i]) {
            let ghost before = views(r@);
            r.push(v[i].clone());
            proof {
                assert(views(r@) =~= before.push(v@[i as int]@));
            }
        }
        i = i + 1;
    }
    proof {
        assert(views(v@).subrange(0, v.len() as int) =~= views(v@));
    }
    r
}

pub open spec fn opt_views(t: Option<&[String]>) -> Option<Seq<Seq<char>>> {
    match t {
        Some(v) => Some(views(v@)),
        None => None,
    }
}

pub open spec fn opt_str_view(g: Option<&str>) -> Option<Seq<char>> {
    match g {
        Some(s) => Some(s@),
        None => None,
    }
}

/// Tags that flag risky areas of a dependency's port: heavy or rewrite effort, no
/// equivalent, unverified compatibility, risky library tags, and foreign-function
/// hints in the guidance; each tag once, in that order.
pub fn derive_risk_tags(
    effort: MigrationEffort,
    compat: CompatibilityLevel,
    tags: Option<&[String]>,
    guidance: Option<&str>,
) -> (r: Vec<String>)
    ensures
        views(r@) == risk_tags_spec(effort, compat, opt_views(tags), opt_str_view(guidance)),
{
    let mut risk: Vec<String> = Vec::new();
    match effort {
        MigrationEffort::Rewrite => push_lit(&mut risk, "rewrite"),
        MigrationEffort::Heavy => push_lit(&mut risk, "heavy"),
        _ => {},
    }
    if compat == CompatibilityLevel::Incompatible {
        push_lit(&mut risk, "no-equivalent");
    }
    if compat == CompatibilityLevel::Unknown {
        push_lit(&mut risk, "unverified");
    }
    let ghost c = views(risk@);
    proof {
        let a = match effort {
            MigrationEffort::Rewrite => seq!["rewrite"@],
            MigrationEffort::Heavy => seq!["heavy"@],
            _ => Seq::<Seq<char>>::empty(),
        };
        let b = if compat == CompatibilityLevel::Incompatible { a.push("no-equivalent"@) } else { a };
        let c2 = if compat == CompatibilityLevel::Unknown { b.push("unverified"@) } else { b };
        assert(c =~= c2);
    }
    match tags {
        Some(t) => {
            let mut k: usize = 0;
            while k < t.len()
                invariant
                    k <= t.len(),
                    risky_tags_from(views(t@), c, 0) == risky_tags_from(views(t@), views(risk@), k as int),
                decreases t.len() - k,
            {
                let tl = str_to_lowercase(t[k].as_str());
                proof {
                    assert(views(t@)[k as int] == t@[k as int]@);
                }
                if is_risky_tag_exec(tl.as_str()) {
                    let ghost before = views(risk@);
                    risk.push(tl);
                    proof {
                        assert(views(risk@) =~= before.push(lowercase_of(t@[k as int]@)));
                    }
                }
                k = k + 1;
            }
            proof {
                assert(views(risk@) == risky_tags_from(views(t@), c, 0));
            }
        },
        None => {},
    }
    let ghost d = views(risk@);
    match guidance {
        Some(g) => {
            let gl = chars_of(str_to_lowercase(g).as_str());
            if (has_chars(&gl, &chars_of("unsafe")) || has_chars(&gl, &chars_of("ffi")) || has_chars(
                &gl,
                &chars_of("no direct"),
            )) && !crate::graph::contains_string(&risk, &String::from_str("ffi")) {
                push_lit(&mut risk, "ffi");
            }
            proof {
                reveal_strlit("ffi");
                assert(views(risk@) == (if guidance_hints_ffi(lowercase_of(g@)) && !d.contains("ffi"@) { d.push("ffi"@) } else { d }));
            }
        },
        None => {},
    }
    proof {
        assert(views(risk@) == risk_list(effort, compat, opt_views(tags), opt_str_view(guidance)));
    }
    dedup_strings(&risk)
}

// ---------------------------------------------------------------------------
// Entries
// ---------------------------------------------------------------------------

/// What is known of one dependency's port.
pub struct CompatibilityEntry {
    pub source_language: String,
    pub target_language: String,
    pub equivalent: Option<String>,
    pub compatibility: CompatibilityLevel,
    pub effort: MigrationEffort,
    pub guidance: Option<String>,
    pub note: Option<String>,
    pub tags: Option<Vec<String>>,
    pub risk_tags: Vec<String>,
}

/// The value of a [`CompatibilityEntry`], its strings taken as character sequences.
pub struct EntryView {
    pub source_language: Seq<char>,
    pub target_language: Seq<char>,
    pub equivalent: Option<Seq<char>>,
    pub compatibility: CompatibilityLevel,
    pub effort: MigrationEffort,
    pub guidance: Option<Seq<char>>,
    pub note: Option<Seq<char>>,
    pub tags: Option<Seq<Seq<char>>>,
    pub risk_tags: Seq<Seq<char>>,
}

pub open spec fn opt_view(o: Option<String>) -> Option<Seq<char>> {
    match o {
        Some(s) => Some(s@),
        None => None,
    }
}

pub open spec fn opt_vec_view(o: Option<Vec<String>>) -> Option<Seq<Seq<char>>> {
    match o {
        Some(v) => Some(views(v@)),
        None => None,
    }
}

impl View for CompatibilityEntry {
    type V = EntryView;

    open spec fn view(&self) -> EntryView {
        EntryView {
            source_language: self.source_language@,
            target_language: self.target_language@,
            equivalent: opt_view(self.equivalent),
            compatibility: self.compatibility,
            effort: self.effort,
            guidance: opt_view(self.guidance),
            note: opt_view(self.note),
            tags: opt_vec_view(self.tags),
            risk_tags: views(self.risk_tags@),
        }
    }
}

pub fn copy_opt_string(o: &Option<String>) -> (r: Option<String>)
    ensures
        opt_view(r) == opt_view(*o),
{
    match o {
        Some(s) => Some(s.clone()),
        None => None,
    }
}

pub fn copy_strings(v: &Vec<String>) -> (r: Vec<String>)
    ensures
        views(r@) == views(v@),
{
    let mut r: Vec<String> = Vec::new();
    let mut i: usize = 0;
    while i < v.len()
        invariant
            i <= v.len(),
            views(r@) == views(v@).subrange(0, i as int),
        decreases v.len() - i,
    {
        let c = v[i].clone();
        let ghost before = views(r@);
        r.push(c);
        i = i + 1;
        proof {
            assert(views(r@) =~= before.push(v@[i - 1]@));
            assert(views(r@) =~= views(v@).subrange(0, i as int));
        }
    }
    proof {
        assert(views(v@).subrange(0, i as int) =~= views(v@));
    }
    r
}

pub fn copy_opt_strings(o: &Option<Vec<String>>) -> (r: Option<Vec<String>>)
    ensures
        opt_vec_view(r) == opt_vec_view(*o),
{
    match o {
        Some(v) => Some(copy_strings(v)),
        None => None,
    }
}

impl CompatibilityEntry {
    /// A copy of the entry.
    pub fn copy(&self) -> (r: Self)
        ensures
            r@ == self@,
    {
        CompatibilityEntry {
            source_language: self.source_language.clone(),
            target_language: self.target_language.clone(),
            equivalent: copy_opt_string(&self.equivalent),
            compatibility: self.compatibility,
            effort: self.effort,
            guidance: copy_opt_string(&self.guidance),
            note: copy_opt_string(&self.note),
            tags: copy_opt_strings(&self.tags),
            risk_tags: copy_strings(&self.risk_tags),
        }
    }
}

/// How a dependency changed between two versions of a project.
pub struct DepChangeInfo {
    pub package: String,
    pub old_version: Option<String>,
    pub new_version: Option<String>,
    pub change_type: String,
    pub compatibility_before: Option<CompatibilityLevel>,
    pub compatibility_now: Option<CompatibilityLevel>,
    pub equivalent: Option<String>,
    pub needs_review: bool,
    pub effort: MigrationEffort,
    pub guidance: Option<String>,
    pub risk_tags: Vec<String>,
}

/// The value of a [`DepChangeInfo`].
pub struct DepChangeView {
    pub package: Seq<char>,
    pub old_version: Option<Seq<char>>,
    pub new_version: Option<Seq<char>>,
    pub change_type: Seq<char>,
    pub compatibility_before: Option<CompatibilityLevel>,
    pub compatibility_now: Option<CompatibilityLevel>,
    pub equivalent: Option<Seq<char>>,
    pub needs_review: bool,
    pub effort: MigrationEffort,
    pub guidance: Option<Seq<char>>,
    pub risk_tags: Seq<Seq<char>>,
}

impl View for DepChangeInfo {
    type V = DepChangeView;

    open spec fn view(&self) -> DepChangeView {
        DepChangeView {
            package: self.package@,
            old_version: opt_view(self.old_version),
            new_version: opt_view(self.new_version),
            change_type: self.change_type@,
            compatibility_before: self.compatibility_before,
            compatibility_now: self.compatibility_now,
            equivalent: opt_view(self.equivalent),
            needs_review: self.needs_review,
            effort: self.effort,
            guidance: opt_view(self.guidance),
            risk_tags: views(self.risk_tags@),
        }
    }
}

/// The modules a changed dependency touches.
pub struct DependencyImpact {
    pub package: String,
    pub affected_module_count: usize,
    pub affected_modules: Vec<String>,
    pub is_high_impact: bool,
}

/// The value of a [`DependencyImpact`].
pub struct ImpactView {
    pub package: Seq<char>,
    pub affected_module_count: nat,
    pub affected_modules: Seq<Seq<char>>,
    pub is_high_impact: bool,
}

impl View for DependencyImpact {
    type V = ImpactView;

    open spec fn view(&self) -> ImpactView {
        ImpactView {
            package: self.package@,
            affected_module_count: self.affected_module_count as nat,
            affected_modules: views(self.affected_modules@),
            is_high_impact: self.is_high_impact,
        }
    }
}

/// A library of a language's registry: its kind, a description and topic tags.
pub struct LibraryEntry {
    pub lib_type: String,
    pub description: String,
    pub tags: Vec<String>,
}

/// The value of a [`LibraryEntry`].
pub struct LibView {
    pub lib_type: Seq<char>,
    pub description: Seq<char>,
    pub tags: Seq<Seq<char>>,
}

impl View for LibraryEntry {
    type V = LibView;

    open spec fn view(&self) -> LibView {
        LibView { lib_type: self.lib_type@, description: self.description@, tags: views(self.tags@) }
    }
}

/// A user's compatibility overrides, keyed by dependency name.
pub struct CompatibilityOverrideFile {
    pub dependencies: Vec<(String, OverrideEntry)>,
}

/// One user override.
pub struct OverrideEntry {
    /// Package name per language.
    pub packages: Option<Vec<(String, String)>>,
    pub equivalent: Option<String>,
    pub compatibility: Option<String>,
    pub effort: Option<String>,
    pub guidance: GuidanceOverride,
    pub note: Option<String>,
    pub tags: Option<Vec<String>>,
}

/// Guidance of an override: none, one text, or one text per migration direction.
pub enum GuidanceOverride {
    Absent,
    Single(String),
    PerDirection(Vec<(String, String)>),
}


/// Removing repetitions leaves a sequence with no element twice, and every element
/// of the original still there.
pub proof fn law_dedup_first(s: Seq<Seq<char>>)
    ensures
        dedup_first(s).no_duplicates(),
        forall|x: Seq<char>| #[trigger] dedup_first(s).contains(x) <==> s.contains(x),
    decreases s.len(),
{
    if s.len() > 0 {
        let p = s.drop_last();
        law_dedup_first(p);
        let d = dedup_first(p);
        assert forall|x: Seq<char>| #[trigger] dedup_first(s).contains(x) <==> s.contains(x) by {
            if s.contains(x) {
                let k = choose|k: int| 0 <= k < s.len() && s[k] == x;
                if k < s.len() - 1 {
                    assert(p[k] == x);
                    assert(p.contains(x));
                    assert(d.contains(x));
                    if !d.contains(s.last()) {
                        let t = choose|t: int| 0 <= t < d.len() && d[t] == x;
                        assert(d.push(s.last())[t] == x);
                    }
                } else {
                    if !d.contains(s.last()) {
                        assert(d.push(s.last())[d.len() as int] == x);
                    }
                }
            }
            if dedup_first(s).contains(x) {
                let t = choose|t: int| 0 <= t < dedup_first(s).len() && dedup_first(s)[t] == x;
                if t < d.len() {
                    assert(d[t] == x);
                    assert(d.contains(x));
                    let k = choose|k: int| 0 <= k < p.len() && p[k] == x;
                    assert(s[k] == x);
                } else {
                    assert(s[s.len() - 1] == x);
                }
            }
        }
        if !d.contains(s.last()) {
            assert forall|i: int, j: int| 0 <= i < d.len() + 1 && 0 <= j < d.len() + 1 && i != j
                implies d.push(s.last())[i] != d.push(s.last())[j] by {
                if i == d.len() {
                    assert(d.contains(d[j]));
                } else if j == d.len() {
                    assert(d.contains(d[i]));
                }
            }
        }
    }
}

/// The risk tags of an entry hold no tag twice.
pub proof fn law_risk_tags_distinct(
    effort: MigrationEffort,
    compat: CompatibilityLevel,
    tags: Option<Seq<Seq<char>>>,
    guidance: Option<Seq<char>>,
)
    ensures
        risk_tags_spec(effort, compat, tags, guidance).no_duplicates(),
{
    law_dedup_first(risk_list(effort, compat, tags, guidance));
}

} // verus!
