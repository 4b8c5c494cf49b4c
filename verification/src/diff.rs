//! Differences between two versions of a project: records of changes, and the
//! dependency diff.
pub mod by_name;
pub mod doc;
pub mod engine;
pub mod logic;
pub mod mapping;
pub mod signature;

use vstd::prelude::*;
use crate::compat::{dedup_first, dedup_strings, opt_view};
use crate::deps::{before_first, dep_names, ResolvedDependency};
use crate::matrix::last_version;
use crate::text::{chars_of, views};

verus! {

/// Counts of a diff.
pub struct DiffSummary {
    pub total_files_changed: usize,
    pub symbols_added: usize,
    pub symbols_removed: usize,
    pub symbols_renamed: usize,
    pub symbols_modified: usize,
    pub breaking_changes: usize,
    pub new_dependencies: usize,
    pub removed_dependencies: usize,
}

/// A fraction `num / den`.
#[derive(Debug, Clone, Copy, PartialEq, Eq, Structural)]
pub struct Ratio {
    pub num: u64,
    pub den: u64,
}

/// A change of one symbol.
pub struct SymbolChange {
    pub symbol: String,
    pub kind: String,
    pub change_type: String,
    pub severity: String,
    pub old_name: Option<String>,
    /// How alike a renamed symbol is to its old self, as a fraction.
    pub rename_confidence: Option<Ratio>,
    pub details: Vec<ChangeDetail>,
    pub old_line_range: Option<[usize; 2]>,
    pub new_line_range: Option<[usize; 2]>,
    /// Source of the old version of the symbol.
    pub old_source: Option<String>,
    /// Source of the new version of the symbol.
    pub new_source: Option<String>,
    /// Target file path.
    pub target_file: Option<String>,
    /// Target symbol name.
    pub target_symbol: Option<String>,
    /// Target child (field or method) name.
    pub target_child: Option<String>,
    /// Line range of the matched target symbol or child.
    pub target_line_range: Option<[usize; 2]>,
}

impl SymbolChange {
    /// A change with every optional field left empty.
    pub fn new(
        symbol: String,
        kind: String,
        change_type: String,
        severity: String,
        old_line_range: Option<[usize; 2]>,
        new_line_range: Option<[usize; 2]>,
        details: Vec<ChangeDetail>,
    ) -> (r: Self)
        ensures
            r.symbol == symbol && r.kind == kind && r.change_type == change_type && r.severity == severity,
            r.old_line_range == old_line_range && r.new_line_range == new_line_range,
            r.details == details,
            r.old_name is None && r.rename_confidence is None && r.old_source is None && r.new_source is None,
            r.target_file is None && r.target_symbol is None && r.target_child is None && r.target_line_range is None,
    {
        SymbolChange {
            symbol,
            kind,
            change_type,
            severity,
            old_name: None,
            rename_confidence: None,
            details,
            old_line_range,
            new_line_range,
            old_source: None,
            new_source: None,
            target_file: None,
            target_symbol: None,
            target_child: None,
            target_line_range: None,
        }
    }
}

/// The value of a [`SymbolChange`].
pub struct ChangeView {
    pub symbol: Seq<char>,
    pub kind: Seq<char>,
    pub change_type: Seq<char>,
    pub severity: Seq<char>,
    pub old_name: Option<Seq<char>>,
    pub rename_confidence: Option<Ratio>,
    pub details: Seq<DetailView>,
    pub old_line_range: Option<[usize; 2]>,
    pub new_line_range: Option<[usize; 2]>,
    pub old_source: Option<Seq<char>>,
    pub new_source: Option<Seq<char>>,
    pub target_file: Option<Seq<char>>,
    pub target_symbol: Option<Seq<char>>,
    pub target_child: Option<Seq<char>>,
    pub target_line_range: Option<[usize; 2]>,
}

pub open spec fn detail_views(v: Seq<ChangeDetail>) -> Seq<DetailView> {
    v.map_values(|d: ChangeDetail| d@)
}

impl View for SymbolChange {
    type V = ChangeView;

    open spec fn view(&self) -> ChangeView {
        ChangeView {
            symbol: self.symbol@,
            kind: self.kind@,
            change_type: self.change_type@,
            severity: self.severity@,
            old_name: opt_view(self.old_name),
            rename_confidence: self.rename_confidence,
            details: detail_views(self.details@),
            old_line_range: self.old_line_range,
            new_line_range: self.new_line_range,
            old_source: opt_view(self.old_source),
            new_source: opt_view(self.new_source),
            target_file: opt_view(self.target_file),
            target_symbol: opt_view(self.target_symbol),
            target_child: opt_view(self.target_child),
            target_line_range: self.target_line_range,
        }
    }
}

/// The value of an [`ImportChange`].
pub struct ImportView {
    pub change_type: Seq<char>,
    pub package: Seq<char>,
    pub old_path: Option<Seq<char>>,
    pub new_path: Option<Seq<char>>,
    pub is_external: bool,
    pub compatibility: Option<InfoView>,
}

impl View for ImportChange {
    type V = ImportView;

    open spec fn view(&self) -> ImportView {
        ImportView {
            change_type: self.change_type@,
            package: self.package@,
            old_path: opt_view(self.old_path),
            new_path: opt_view(self.new_path),
            is_external: self.is_external,
            compatibility: match self.compatibility {
                Some(c) => Some(c@),
                None => None,
            },
        }
    }
}

/// The value of a [`ChangeDetail`].
pub struct DetailView {
    pub aspect: Seq<char>,
    pub change_type: Seq<char>,
    pub description: Seq<char>,
    pub old_value: Option<Seq<char>>,
    pub new_value: Option<Seq<char>>,
    pub migration_note: Option<Seq<char>>,
}

impl View for ChangeDetail {
    type V = DetailView;

    open spec fn view(&self) -> DetailView {
        DetailView {
            aspect: self.aspect@,
            change_type: self.change_type@,
            description: self.description@,
            old_value: opt_view(self.old_value),
            new_value: opt_view(self.new_value),
            migration_note: opt_view(self.migration_note),
        }
    }
}

/// One aspect of a changed symbol.
pub struct ChangeDetail {
    pub aspect: String,
    pub change_type: String,
    pub description: String,
    pub old_value: Option<String>,
    pub new_value: Option<String>,
    pub migration_note: Option<String>,
}

/// A changed import of a file.
pub struct ImportChange {
    pub change_type: String,
    pub package: String,
    pub old_path: Option<String>,
    pub new_path: Option<String>,
    pub is_external: bool,
    pub compatibility: Option<CompatibilityInfo>,
}

/// A changed documentation comment.
pub struct DocChange {
    pub change_type: String,
    pub symbol: String,
    pub is_deprecated: bool,
    pub has_todo: bool,
    pub has_safety_note: bool,
    pub old_doc: Option<String>,
    pub new_doc: Option<String>,
}

/// A changed dependency.
pub struct DependencyChange {
    pub package: String,
    pub change_type: String,
    pub old_version: Option<String>,
    pub new_version: Option<String>,
    pub compatibility: CompatibilityInfo,
    pub affected_modules: Vec<String>,
}

/// What is known of a dependency's port, as reported in a diff.
pub struct CompatibilityInfo {
    pub equivalent: Option<String>,
    pub compatibility: String,
    pub effort: String,
    pub guidance: Option<String>,
    pub is_high_risk: bool,
}

/// Symbols that a change reaches.
pub struct PropagationResult {
    pub affected_symbols: Vec<AffectedSymbol>,
}

/// A symbol reached by a change, and how.
pub struct AffectedSymbol {
    pub symbol: String,
    pub kind: String,
    pub file: String,
    pub line: usize,
    pub impact: String,
    pub dependency_path: Vec<String>,
}

/// The value of a [`CompatibilityInfo`].
pub struct InfoView {
    pub equivalent: Option<Seq<char>>,
    pub compatibility: Seq<char>,
    pub effort: Seq<char>,
    pub guidance: Option<Seq<char>>,
    pub is_high_risk: bool,
}

/// The value of a [`DependencyChange`].
pub struct DepDiffView {
    pub package: Seq<char>,
    pub change_type: Seq<char>,
    pub old_version: Option<Seq<char>>,
    pub new_version: Option<Seq<char>>,
    pub compatibility: InfoView,
    pub affected_modules: Seq<Seq<char>>,
}

impl View for CompatibilityInfo {
    type V = InfoView;

    open spec fn view(&self) -> InfoView {
        InfoView {
            equivalent: opt_view(self.equivalent),
            compatibility: self.compatibility@,
            effort: self.effort@,
            guidance: opt_view(self.guidance),
            is_high_risk: self.is_high_risk,
        }
    }
}

impl View for DependencyChange {
    type V = DepDiffView;

    open spec fn view(&self) -> DepDiffView {
        DepDiffView {
            package: self.package@,
            change_type: self.change_type@,
            old_version: opt_view(self.old_version),
            new_version: opt_view(self.new_version),
            compatibility: self.compatibility@,
            affected_modules: views(self.affected_modules@),
        }
    }
}

// ---------------------------------------------------------------------------
// Version numbers
// ---------------------------------------------------------------------------

pub open spec fn is_digit(c: char) -> bool {
    '0' <= c <= '9'
}

/// The number that the decimal digits `s` write.
pub open spec fn digits_value(s: Seq<char>) -> nat
    decreases s.len(),
{
    if s.len() == 0 {
        0
    } else {
        digits_value(s.drop_last()) * 10 + (s.last() as nat - 48) as nat
    }
}

/// What `str::parse::<u32>` gives: an optional `+`, then one or more ASCII digits
/// whose value fits in 32 bits.
pub open spec fn parse_u32_spec(s: Seq<char>) -> Option<nat> {
    let body = unsigned_body(s);
    if body.len() > 0 && all_digits(body) && digits_value(body) <= u32::MAX {
        Some(digits_value(body))
    } else {
        None
    }
}

/// `s` without its leading `+`, if any.
pub open spec fn unsigned_body(s: Seq<char>) -> Seq<char> {
    if s.len() > 0 && s[0] == '+' {
        s.drop_first()
    } else {
        s
    }
}

pub open spec fn all_digits(s: Seq<char>) -> bool {
    forall|i: int| 0 <= i < s.len() ==> is_digit(#[trigger] s[i])
}

/// Number of leading `c` of `s`.
pub open spec fn lead_count(s: Seq<char>, c: char) -> nat
    decreases s.len(),
{
    if s.len() > 0 && s[0] == c {
        1 + lead_count(s.drop_first(), c)
    } else {
        0
    }
}

/// `s` without its leading `c`s.
pub open spec fn strip_leading(s: Seq<char>, c: char) -> Seq<char> {
    s.subrange(lead_count(s, c) as int, s.len() as int)
}

/// The text after the first `c`, when there is one.
pub open spec fn after_first(s: Seq<char>, c: char) -> Option<Seq<char>> {
    if s.contains(c) {
        Some(s.subrange(crate::text::first_index(s, c) + 1, s.len() as int))
    } else {
        None
    }
}

/// The major number of a version: the first dot-separated part, without leading
/// `v`s; 0 when it is no number.
pub open spec fn major_version(v: Seq<char>) -> nat {
    match parse_u32_spec(strip_leading(before_first(v, '.'), 'v')) {
        Some(n) => n,
        None => 0,
    }
}

/// The minor number of a version: the second dot-separated part; 0 when there is
/// none or it is no number.
pub open spec fn minor_version(v: Seq<char>) -> nat {
    match after_first(v, '.') {
        Some(rest) => match parse_u32_spec(before_first(rest, '.')) {
            Some(n) => n,
            None => 0,
        },
        None => 0,
    }
}

/// How a version change reads: by major number, then minor number.
pub open spec fn version_change(old: Seq<char>, new: Seq<char>) -> Seq<char> {
    if major_version(new) > major_version(old) {
        "upgraded"@
    } else if major_version(new) < major_version(old) {
        "downgraded"@
    } else if minor_version(new) > minor_version(old) {
        "upgraded"@
    } else if minor_version(new) < minor_version(old) {
        "downgraded"@
    } else {
        "patch"@
    }
}

proof fn lemma_digits_prefix(s: Seq<char>, k: int)
    requires
        0 <= k <= s.len(),
        forall|i: int| 0 <= i < s.len() ==> is_digit(#[trigger] s[i]),
    ensures
        digits_value(s.subrange(0, k)) <= digits_value(s),
    decreases s.len() - k,
{
    if k < s.len() {
        lemma_digits_prefix(s, k + 1);
        let p = s.subrange(0, k + 1);
        assert(p.drop_last() =~= s.subrange(0, k));
    } else {
        assert(s.subrange(0, k) =~= s);
    }
}

/// `str::parse::<u32>`, on the characters of a string.
pub fn parse_u32(s: &[char]) -> (r: Option<u32>)
    ensures
        match r {
            Some(n) => parse_u32_spec(s@) == Some(n as nat),
            None => parse_u32_spec(s@) is None,
        },
{
    let start: usize = if s.len() > 0 && s[0] == '+' { 1 } else { 0 };
    let ghost body = unsigned_body(s@);
    proof {
        assert(body =~= s@.subrange(start as int, s.len() as int));
    }
    if start >= s.len() {
        return None;
    }
    let mut acc: u64 = 0;
    let mut over = false;
    let mut i: usize = start;
    while i < s.len()
        invariant
            start <= i <= s.len(),
            body == unsigned_body(s@),
            body == s@.subrange(start as int, s.len() as int),
            forall|j: int| start <= j < i ==> is_digit(#[trigger] s@[j]),
            !over ==> acc == digits_value(s@.subrange(start as int, i as int)) && acc <= u32::MAX,
            over ==> digits_value(s@.subrange(start as int, i as int)) > u32::MAX,
        decreases s.len() - i,
    {
        let c = s[i];
        if !('0' <= c && c <= '9') {
            proof {
                assert(body[i - start] == s@[i as int]);
                assert(!is_digit(body[i - start]));
                assert(!all_digits(body));
            }
            return None;
        }
        let d = (c as u32 - 48) as u64;
        let ghost pre = s@.subrange(start as int, i as int);
        proof {
            assert(s@.subrange(start as int, i + 1).drop_last() =~= pre);
            assert(s@.subrange(start as int, i + 1).last() == c);
        }
        if !over {
            let next = acc * 10 + d;
            if next > 4294967295 {
                over = true;
            } else {
                acc = next;
            }
        }
        i = i + 1;
    }
    proof {
        assert(s@.subrange(start as int, i as int) =~= body);
        assert forall|j: int| 0 <= j < body.len() implies is_digit(#[trigger] body[j]) by {
            assert(body[j] == s@[start + j]);
        }
    }
    if over {
        None
    } else {
        Some(acc as u32)
    }
}

fn strip_leading_exec(s: &[char], c: char) -> (r: Vec<char>)
    ensures
        r@ == strip_leading(s@, c),
{
    let mut i: usize = 0;
    proof {
        assert(s@.subrange(0, s.len() as int) =~= s@);
    }
    while i < s.len() && s[i] == c
        invariant
            i <= s.len(),
            lead_count(s@, c) == i + lead_count(s@.subrange(i as int, s.len() as int), c),
        decreases s.len() - i,
    {
        proof {
            assert(s@.subrange(i as int, s.len() as int).drop_first() =~= s@.subrange(i + 1, s.len() as int));
        }
        i = i + 1;
    }
    proof {
        assert(s@.subrange(0, s.len() as int) =~= s@);
    }
    crate::text::slice_copy(s, i, s.len())
}

fn before_first_exec(s: &[char], c: char) -> (r: Vec<char>)
    ensures
        r@ == before_first(s@, c),
{
    match crate::text::find_char(s, c) {
        Some(i) => {
            proof {
                crate::text::lemma_first_index(s@, c, i as int);
                assert(s@.contains(c));
            }
            crate::text::slice_copy(s, 0, i)
        },
        None => crate::text::slice_copy(s, 0, s.len()),
    }
}

/// The major number of a version.
pub fn parse_major_version(version: &str) -> (r: u32)
    ensures
        r == major_version(version@),
{
    let v = chars_of(version);
    let part = strip_leading_exec(&before_first_exec(&v, '.'), 'v');
    match parse_u32(&part) {
        Some(n) => n,
        None => 0,
    }
}

/// The minor number of a version.
pub fn parse_minor_version(version: &str) -> (r: u32)
    ensures
        r == minor_version(version@),
{
    let v = chars_of(version);
    match crate::text::find_char(&v, '.') {
        Some(i) => {
            proof {
                crate::text::lemma_first_index(v@, '.', i as int);
                assert(v@.contains('.'));
            }
            let rest = crate::text::slice_copy(&v, i + 1, v.len());
            match parse_u32(&before_first_exec(&rest, '.')) {
                Some(n) => n,
                None => 0,
            }
        },
        None => 0,
    }
}

/// How a version change reads: `upgraded`, `downgraded`, or `patch` when the major
/// and minor numbers agree.
pub fn compare_versions(old: &str, new: &str) -> (r: String)
    ensures
        r@ == version_change(old@, new@),
{
    let old_major = parse_major_version(old);
    let new_major = parse_major_version(new);
    if new_major > old_major {
        String::from_str("upgraded")
    } else if new_major < old_major {
        String::from_str("downgraded")
    } else {
        let old_minor = parse_minor_version(old);
        let new_minor = parse_minor_version(new);
        if new_minor > old_minor {
            String::from_str("upgraded")
        } else if new_minor < old_minor {
            String::from_str("downgraded")
        } else {
            String::from_str("patch")
        }
    }
}

/// The major number went up.
pub fn is_major_bump(old: &str, new: &str) -> (r: bool)
    ensures
        r == (major_version(new@) > major_version(old@)),
{
    parse_major_version(new) > parse_major_version(old)
}


// ---------------------------------------------------------------------------
// The dependency diff
// ---------------------------------------------------------------------------

pub open spec fn info(compatibility: Seq<char>, effort: Seq<char>, is_high_risk: bool) -> InfoView {
    InfoView { equivalent: None, compatibility, effort, guidance: None, is_high_risk }
}

/// The change of a package that only `new` has.
pub open spec fn added_change(n: Seq<char>, new: Seq<ResolvedDependency>) -> DepDiffView {
    DepDiffView {
        package: n,
        change_type: "added"@,
        old_version: None,
        new_version: last_version(new, n),
        compatibility: info("unknown"@, "unknown"@, false),
        affected_modules: Seq::empty(),
    }
}

/// The change of a package that only `old` has.
pub open spec fn removed_change(n: Seq<char>, old: Seq<ResolvedDependency>) -> DepDiffView {
    DepDiffView {
        package: n,
        change_type: "removed"@,
        old_version: last_version(old, n),
        new_version: None,
        compatibility: info("removed"@, "low"@, false),
        affected_modules: Seq::empty(),
    }
}

/// The change of a package whose version differs between `old` and `new`.
pub open spec fn changed_change(n: Seq<char>, old: Seq<ResolvedDependency>, new: Seq<ResolvedDependency>) -> DepDiffView {
    let ov = last_version(old, n).unwrap();
    let nv = last_version(new, n).unwrap();
    DepDiffView {
        package: n,
        change_type: version_change(ov, nv),
        old_version: Some(ov),
        new_version: Some(nv),
        compatibility: info("unknown"@, "unknown"@, major_version(nv) > major_version(ov)),
        affected_modules: Seq::empty(),
    }
}

/// The additions among `names`: those `old` lacks.
pub open spec fn additions(names: Seq<Seq<char>>, old: Seq<ResolvedDependency>, new: Seq<ResolvedDependency>) -> Seq<DepDiffView>
    decreases names.len(),
{
    if names.len() == 0 {
        Seq::empty()
    } else {
        let r = additions(names.drop_last(), old, new);
        if !dep_names(old).contains(names.last()) {
            r.push(added_change(names.last(), new))
        } else {
            r
        }
    }
}

/// The removals among `names`: those `new` lacks.
pub open spec fn removals(names: Seq<Seq<char>>, old: Seq<ResolvedDependency>, new: Seq<ResolvedDependency>) -> Seq<DepDiffView>
    decreases names.len(),
{
    if names.len() == 0 {
        Seq::empty()
    } else {
        let r = removals(names.drop_last(), old, new);
        if !dep_names(new).contains(names.last()) {
            r.push(removed_change(names.last(), old))
        } else {
            r
        }
    }
}

/// The version changes among `names`: those both have, in different versions.
pub open spec fn version_changes(names: Seq<Seq<char>>, old: Seq<ResolvedDependency>, new: Seq<ResolvedDependency>) -> Seq<DepDiffView>
    decreases names.len(),
{
    if names.len() == 0 {
        Seq::empty()
    } else {
        let r = version_changes(names.drop_last(), old, new);
        let n = names.last();
        if dep_names(new).contains(n) && last_version(old, n) != last_version(new, n) {
            r.push(changed_change(n, old, new))
        } else {
            r
        }
    }
}

/// The dependency diff: additions in order of first appearance in `new`, then
/// removals and version changes in order of first appearance in `old`.
pub open spec fn dependency_diff(old: Seq<ResolvedDependency>, new: Seq<ResolvedDependency>) -> Seq<DepDiffView> {
    additions(dedup_first(dep_names(new)), old, new) + removals(dedup_first(dep_names(old)), old, new)
        + version_changes(dedup_first(dep_names(old)), old, new)
}

/// A change is high risk exactly when both versions are known and the major
/// number went up.
pub open spec fn high_risk_rule(c: DepDiffView) -> bool {
    c.compatibility.is_high_risk == (c.old_version matches Some(ov) && c.new_version matches Some(nv)
        && major_version(nv) > major_version(ov))
}

proof fn lemma_additions_rule(names: Seq<Seq<char>>, old: Seq<ResolvedDependency>, new: Seq<ResolvedDependency>)
    ensures
        forall|i: int| 0 <= i < additions(names, old, new).len() ==> high_risk_rule(#[trigger] additions(names, old, new)[i]),
    decreases names.len(),
{
    if names.len() > 0 {
        lemma_additions_rule(names.drop_last(), old, new);
        let p = additions(names.drop_last(), old, new);
        let q = additions(names, old, new);
        assert forall|i: int| 0 <= i < q.len() implies high_risk_rule(#[trigger] q[i]) by {
            if i < p.len() {
                assert(q[i] == p[i]);
            }
        }
    }
}

proof fn lemma_removals_rule(names: Seq<Seq<char>>, old: Seq<ResolvedDependency>, new: Seq<ResolvedDependency>)
    ensures
        forall|i: int| 0 <= i < removals(names, old, new).len() ==> high_risk_rule(#[trigger] removals(names, old, new)[i]),
    decreases names.len(),
{
    if names.len() > 0 {
        lemma_removals_rule(names.drop_last(), old, new);
        let p = removals(names.drop_last(), old, new);
        let q = removals(names, old, new);
        assert forall|i: int| 0 <= i < q.len() implies high_risk_rule(#[trigger] q[i]) by {
            if i < p.len() {
                assert(q[i] == p[i]);
            }
        }
    }
}

proof fn lemma_version_changes_rule(names: Seq<Seq<char>>, old: Seq<ResolvedDependency>, new: Seq<ResolvedDependency>)
    ensures
        forall|i: int| 0 <= i < version_changes(names, old, new).len() ==> high_risk_rule(
            #[trigger] version_changes(names, old, new)[i],
        ),
    decreases names.len(),
{
    if names.len() > 0 {
        lemma_version_changes_rule(names.drop_last(), old, new);
        let p = version_changes(names.drop_last(), old, new);
        let q = version_changes(names, old, new);
        assert forall|i: int| 0 <= i < q.len() implies high_risk_rule(#[trigger] q[i]) by {
            if i < p.len() {
                assert(q[i] == p[i]);
            }
        }
    }
}

proof fn lemma_additions_unversioned(names: Seq<Seq<char>>, old: Seq<ResolvedDependency>, new: Seq<ResolvedDependency>)
    ensures
        forall|i: int| 0 <= i < additions(names, old, new).len() ==> (#[trigger] additions(names, old, new)[i]).old_version is None,
    decreases names.len(),
{
    if names.len() > 0 {
        lemma_additions_unversioned(names.drop_last(), old, new);
    }
}

proof fn lemma_removals_unversioned(names: Seq<Seq<char>>, old: Seq<ResolvedDependency>, new: Seq<ResolvedDependency>)
    ensures
        forall|i: int| 0 <= i < removals(names, old, new).len() ==> (#[trigger] removals(names, old, new)[i]).new_version is None,
    decreases names.len(),
{
    if names.len() > 0 {
        lemma_removals_unversioned(names.drop_last(), old, new);
    }
}

proof fn lemma_version_changes_kinds(names: Seq<Seq<char>>, old: Seq<ResolvedDependency>, new: Seq<ResolvedDependency>)
    ensures
        forall|i: int|
            0 <= i < version_changes(names, old, new).len() ==> (#[trigger] version_changes(names, old, new)[i]).change_type
                != "added"@ && version_changes(names, old, new)[i].change_type != "removed"@,
    decreases names.len(),
{
    if names.len() > 0 {
        lemma_version_changes_kinds(names.drop_last(), old, new);
        reveal_strlit("added");
        reveal_strlit("removed");
        reveal_strlit("upgraded");
        reveal_strlit("downgraded");
        reveal_strlit("patch");
        assert("added"@[0] == 'a' && "removed"@[0] == 'r');
        assert("upgraded"@[0] == 'u' && "downgraded"@[0] == 'd' && "patch"@[0] == 'p');
    }
}

/// In a dependency diff, a package whose version changed is high risk exactly when
/// its major number went up; added and removed packages never are.
pub proof fn law_dependency_high_risk(old: Seq<ResolvedDependency>, new: Seq<ResolvedDependency>)
    ensures
        forall|i: int| 0 <= i < dependency_diff(old, new).len() ==> high_risk_rule(#[trigger] dependency_diff(old, new)[i]),
        forall|i: int|
            0 <= i < dependency_diff(old, new).len() && (dependency_diff(old, new)[i].change_type == "added"@
                || dependency_diff(old, new)[i].change_type == "removed"@) ==> !(#[trigger] dependency_diff(old, new)[i]).compatibility.is_high_risk,
{
    let a = additions(dedup_first(dep_names(new)), old, new);
    let r = removals(dedup_first(dep_names(old)), old, new);
    let v = version_changes(dedup_first(dep_names(old)), old, new);
    lemma_additions_rule(dedup_first(dep_names(new)), old, new);
    lemma_removals_rule(dedup_first(dep_names(old)), old, new);
    lemma_version_changes_rule(dedup_first(dep_names(old)), old, new);
    let d = dependency_diff(old, new);
    assert forall|i: int| 0 <= i < d.len() implies high_risk_rule(#[trigger] d[i]) by {
        if i < a.len() {
            assert(d[i] == a[i]);
        } else if i < a.len() + r.len() {
            assert(d[i] == r[i - a.len()]);
        } else {
            assert(d[i] == v[i - a.len() - r.len()]);
        }
    }
    assert forall|i: int|
        0 <= i < d.len() && (d[i].change_type == "added"@ || d[i].change_type == "removed"@) implies !(
        #[trigger] d[i]).compatibility.is_high_risk by {
        assert(high_risk_rule(d[i]));
        if i >= a.len() + r.len() {
            lemma_version_changes_kinds(dedup_first(dep_names(old)), old, new);
            assert(d[i] == v[i - a.len() - r.len()]);
        } else if i < a.len() {
            assert(d[i] == a[i]);
            lemma_additions_unversioned(dedup_first(dep_names(new)), old, new);
        } else {
            assert(d[i] == r[i - a.len()]);
            lemma_removals_unversioned(dedup_first(dep_names(old)), old, new);
        }
    }
}

pub open spec fn diff_views(v: Seq<DependencyChange>) -> Seq<DepDiffView> {
    v.map_values(|c: DependencyChange| c@)
}

/// The names of `deps`, in order.
fn names_of(deps: &[ResolvedDependency]) -> (r: Vec<String>)
    ensures
        views(r@) == dep_names(deps@),
{
    let mut r: Vec<String> = Vec::new();
    let mut k: usize = 0;
    while k < deps.len()
        invariant
            k <= deps.len(),
            views(r@) == dep_names(deps@).subrange(0, k as int),
        decreases deps.len() - k,
    {
        let ghost before = views(r@);
        let c = deps[k].name.clone();
        r.push(c);
        k = k + 1;
        proof {
            assert(views(r@) =~= before.push(deps@[k - 1].name@));
            assert(views(r@) =~= dep_names(deps@).subrange(0, k as int));
        }
    }
    proof {
        assert(dep_names(deps@).subrange(0, k as int) =~= dep_names(deps@));
    }
    r
}

fn last_version_of(deps: &[ResolvedDependency], name: &str) -> (r: Option<String>)
    ensures
        opt_view(r) == last_version(deps@, name@),
{
    let n = chars_of(name);
    let mut i: usize = deps.len();
    proof {
        assert(deps@.subrange(0, i as int) =~= deps@);
    }
    while i > 0
        invariant
            i <= deps.len(),
            n@ == name@,
            last_version(deps@, name@) == last_version(deps@.subrange(0, i as int), name@),
        decreases i,
    {
        proof {
            let p = deps@.subrange(0, i as int);
            assert(p.last() == deps@[i - 1]);
            assert(p.drop_last() =~= deps@.subrange(0, i - 1));
        }
        if crate::naming::same_chars(&chars_of(deps[i - 1].name.as_str()), &n) {
            return Some(deps[i - 1].version.clone());
        }
        i = i - 1;
    }
    None
}

proof fn lemma_in_names_has_version(deps: Seq<ResolvedDependency>, n: Seq<char>)
    requires
        dep_names(deps).contains(n),
    ensures
        last_version(deps, n) is Some,
    decreases deps.len(),
{
    let k = choose|k: int| 0 <= k < deps.len() && dep_names(deps)[k] == n;
    if deps.last().name@ != n {
        assert(k < deps.len() - 1);
        assert(dep_names(deps.drop_last())[k] == n);
        lemma_in_names_has_version(deps.drop_last(), n);
    }
}

proof fn lemma_dedup_within(s: Seq<Seq<char>>)
    ensures
        forall|j: int| 0 <= j < dedup_first(s).len() ==> s.contains(#[trigger] dedup_first(s)[j]),
    decreases s.len(),
{
    if s.len() > 0 {
        lemma_dedup_within(s.drop_last());
        let d = dedup_first(s.drop_last());
        assert forall|j: int| 0 <= j < dedup_first(s).len() implies s.contains(#[trigger] dedup_first(s)[j]) by {
            if j < d.len() {
                assert(s.drop_last().contains(d[j]));
                let t = choose|t: int| 0 <= t < s.drop_last().len() && s.drop_last()[t] == d[j];
                assert(s[t] == d[j]);
            } else {
                assert(s[s.len() - 1] == s.last());
            }
        }
    }
}

fn lit(s: &str) -> (r: String)
    ensures
        r@ == s@,
{
    String::from_str(s)
}

fn info_exec(compatibility: &str, effort: &str, is_high_risk: bool) -> (r: CompatibilityInfo)
    ensures
        r@ == info(compatibility@, effort@, is_high_risk),
{
    CompatibilityInfo { equivalent: None, compatibility: lit(compatibility), effort: lit(effort), guidance: None, is_high_risk }
}

fn no_modules() -> (r: Vec<String>)
    ensures
        views(r@) == Seq::<Seq<char>>::empty(),
{
    let r: Vec<String> = Vec::new();
    proof {
        assert(views(r@) =~= Seq::<Seq<char>>::empty());
    }
    r
}

/// The changes between two dependency lists: packages added, packages removed, and
/// packages whose version changed (the last entry of a name counts).
pub fn diff_dependencies(old: &[ResolvedDependency], new: &[ResolvedDependency]) -> (r: Vec<DependencyChange>)
    ensures
        diff_views(r@) == dependency_diff(old@, new@),
{
    let old_names = names_of(old);
    let new_names = names_of(new);
    let new_distinct = dedup_strings(&new_names);
    let old_distinct = dedup_strings(&old_names);
    let ghost nd = views(new_distinct@);
    let ghost od = views(old_distinct@);
    let mut changes: Vec<DependencyChange> = Vec::new();
    proof {
        assert(diff_views(changes@) =~= Seq::<DepDiffView>::empty());
        assert(nd.subrange(0, 0) =~= Seq::<Seq<char>>::empty());
    }
    let mut k: usize = 0;
    while k < new_distinct.len()
        invariant
            k <= new_distinct.len(),
            nd == views(new_distinct@),
            nd == dedup_first(dep_names(new@)),
            views(old_names@) == dep_names(old@),
            diff_views(changes@) == additions(nd.subrange(0, k as int), old@, new@),
        decreases new_distinct.len() - k,
    {
        let name = &new_distinct[k];
        proof {
            assert(nd.subrange(0, k + 1).drop_last() =~= nd.subrange(0, k as int));
            assert(nd.subrange(0, k + 1).last() == name@);
        }
        if !crate::graph::contains_string(&old_names, name) {
            let c = DependencyChange {
                package: name.clone(),
                change_type: lit("added"),
                old_version: None,
                new_version: last_version_of(new, name.as_str()),
                compatibility: info_exec("unknown", "unknown", false),
                affected_modules: no_modules(),
            };
            let ghost before = diff_views(changes@);
            proof {
                assert(c@ =~~= added_change(name@, new@));
            }
            changes.push(c);
            proof {
                assert(diff_views(changes@) =~= before.push(added_change(name@, new@)));
            }
        }
        k = k + 1;
    }
    let ghost adds = diff_views(changes@);
    proof {
        assert(nd.subrange(0, k as int) =~= nd);
        assert(od.subrange(0, 0) =~= Seq::<Seq<char>>::empty());
        assert(diff_views(changes@) =~= adds + removals(od.subrange(0, 0), old@, new@));
    }
    let mut k: usize = 0;
    while k < old_distinct.len()
        invariant
            k <= old_distinct.len(),
            od == views(old_distinct@),
            od == dedup_first(dep_names(old@)),
            views(new_names@) == dep_names(new@),
            adds == additions(dedup_first(dep_names(new@)), old@, new@),
            diff_views(changes@) == adds + removals(od.subrange(0, k as int), old@, new@),
        decreases old_distinct.len() - k,
    {
        let name = &old_distinct[k];
        proof {
            assert(od.subrange(0, k + 1).drop_last() =~= od.subrange(0, k as int));
            assert(od.subrange(0, k + 1).last() == name@);
        }
        if !crate::graph::contains_string(&new_names, name) {
            let c = DependencyChange {
                package: name.clone(),
                change_type: lit("removed"),
                old_version: last_version_of(old, name.as_str()),
                new_version: None,
                compatibility: info_exec("removed", "low", false),
                affected_modules: no_modules(),
            };
            let ghost before = diff_views(changes@);
            proof {
                assert(c@ =~~= removed_change(name@, old@));
            }
            changes.push(c);
            proof {
                assert(diff_views(changes@) =~= before.push(removed_change(name@, old@)));
            }
        }
        k = k + 1;
    }
    let ghost rems = removals(od, old@, new@);
    proof {
        lemma_dedup_within(dep_names(old@));
        assert(od.subrange(0, k as int) =~= od);
        assert(diff_views(changes@) =~= adds + rems + version_changes(od.subrange(0, 0), old@, new@));
    }
    let mut k: usize = 0;
    while k < old_distinct.len()
        invariant
            k <= old_distinct.len(),
            od == views(old_distinct@),
            od == dedup_first(dep_names(old@)),
            views(new_names@) == dep_names(new@),
            adds == additions(dedup_first(dep_names(new@)), old@, new@),
            rems == removals(od, old@, new@),
            diff_views(changes@) == adds + rems + version_changes(od.subrange(0, k as int), old@, new@),
            forall|j: int| 0 <= j < od.len() ==> dep_names(old@).contains(#[trigger] od[j]),
        decreases old_distinct.len() - k,
    {
        let name = &old_distinct[k];
        proof {
            assert(od.subrange(0, k + 1).drop_last() =~= od.subrange(0, k as int));
            assert(od.subrange(0, k + 1).last() == name@);
        }
        if crate::graph::contains_string(&new_names, name) {
            let ov = last_version_of(old, name.as_str());
            let nv = last_version_of(new, name.as_str());
            proof {
                assert(dep_names(old@).contains(od[k as int]));
                lemma_in_names_has_version(old@, name@);
                lemma_in_names_has_version(new@, name@);
            }
            match (ov, nv) {
                (Some(o), Some(n)) => {
                    if !crate::naming::same_chars(&chars_of(o.as_str()), &chars_of(n.as_str())) {
                        let c = DependencyChange {
                            package: name.clone(),
                            change_type: compare_versions(o.as_str(), n.as_str()),
                            old_version: Some(o.clone()),
                            new_version: Some(n.clone()),
                            compatibility: info_exec("unknown", "unknown", is_major_bump(o.as_str(), n.as_str())),
                            affected_modules: no_modules(),
                        };
                        let ghost before = diff_views(changes@);
                        proof {
                            assert(c@ =~~= changed_change(name@, old@, new@));
                        }
                        changes.push(c);
                        proof {
                            assert(diff_views(changes@) =~= before.push(changed_change(name@, old@, new@)));
                        }
                    }
                },
                _ => {},
            }
        }
        k = k + 1;
    }
    proof {
        assert(od.subrange(0, k as int) =~= od);
    }
    changes
}


// ---------------------------------------------------------------------------
// Laws
// ---------------------------------------------------------------------------

/// A version compared with itself reads as a patch.
pub proof fn law_same_version_is_patch(v: Seq<char>)
    ensures
        version_change(v, v) == "patch"@,
{
}

/// A higher major number reads as an upgrade.
pub proof fn law_major_bump_upgrades(old: Seq<char>, new: Seq<char>)
    requires
        major_version(new) > major_version(old),
    ensures
        version_change(old, new) == "upgraded"@,
{
}

proof fn lemma_no_diff_within(names: Seq<Seq<char>>, deps: Seq<ResolvedDependency>)
    requires
        forall|i: int| 0 <= i < names.len() ==> dep_names(deps).contains(#[trigger] names[i]),
    ensures
        additions(names, deps, deps).len() == 0,
        removals(names, deps, deps).len() == 0,
        version_changes(names, deps, deps).len() == 0,
    decreases names.len(),
{
    if names.len() > 0 {
        lemma_no_diff_within(names.drop_last(), deps);
        assert(dep_names(deps).contains(names[names.len() - 1]));
    }
}

/// Comparing a dependency list with itself reports no change.
pub proof fn law_no_diff_against_itself(deps: Seq<ResolvedDependency>)
    ensures
        dependency_diff(deps, deps).len() == 0,
{
    let d = dedup_first(dep_names(deps));
    crate::compat::law_dedup_first(dep_names(deps));
    assert forall|i: int| 0 <= i < d.len() implies dep_names(deps).contains(#[trigger] d[i]) by {
        assert(d.contains(d[i]));
    }
    lemma_no_diff_within(d, deps);
}


/// A version change reads `downgraded` exactly when the new (major, minor) pair is
/// below the old one, `upgraded` exactly when it is above, and `patch` exactly when
/// the two agree.
pub proof fn law_version_change_order(old: Seq<char>, new: Seq<char>)
    ensures
        version_change(old, new) == "downgraded"@ <==> (major_version(new) < major_version(old) || (major_version(
            new,
        ) == major_version(old) && minor_version(new) < minor_version(old))),
        version_change(old, new) == "upgraded"@ <==> (major_version(new) > major_version(old) || (major_version(new)
            == major_version(old) && minor_version(new) > minor_version(old))),
        version_change(old, new) == "patch"@ <==> (major_version(new) == major_version(old) && minor_version(new)
            == minor_version(old)),
{
    reveal_strlit("upgraded");
    reveal_strlit("downgraded");
    reveal_strlit("patch");
    assert("upgraded"@[0] == 'u' && "downgraded"@[0] == 'd' && "patch"@[0] == 'p');
}

/// Swapping the two versions turns an upgrade into a downgrade and back, and keeps a
/// patch a patch.
pub proof fn law_version_change_swap(old: Seq<char>, new: Seq<char>)
    ensures
        version_change(old, new) == "upgraded"@ <==> version_change(new, old) == "downgraded"@,
        version_change(old, new) == "patch"@ <==> version_change(new, old) == "patch"@,
{
    law_version_change_order(old, new);
    law_version_change_order(new, old);
}

} // verus!
