//! Where a changed symbol of the source project lives in the target project: its
//! file by extension, its symbol by name, and a member inside it.
use vstd::prelude::*;
use crate::diff::{ChangeDetail, Ratio};
use crate::naming::{candidates_spec, translate_name_spec, NamingRegistry};
use crate::symbols::{forest, deref_all, ApiContract, Symbol, SymbolIndex};
use crate::text::{chars_of, replace_all, seq_ends_with, string_of, views};

verus! {

/// Where a symbol was found in the target project, and how sure the match is.
pub struct MatchResult {
    pub target_file: Option<String>,
    pub target_symbol: Option<String>,
    pub target_child: Option<String>,
    pub target_line_range: Option<[usize; 2]>,
    pub confidence: Ratio,
}

pub open spec fn opt_text(o: Option<String>) -> Option<Seq<char>> {
    match o {
        Some(s) => Some(s@),
        None => None,
    }
}

// ---------------------------------------------------------------------------
// The target file by extension
// ---------------------------------------------------------------------------

/// The source file with `\` written `/` and its extension swapped for `.rs`: the
/// first of `.ts`, `.tsx`, `.js` and `.vue` that ends it; none when none does.
pub open spec fn default_target_spec(source_file: Seq<char>) -> Option<Seq<char>> {
    let s = replace_all(source_file, seq!['\\'], seq!['/']);
    if seq_ends_with(s, ".ts"@) {
        Some(s.subrange(0, s.len() - 3) + ".rs"@)
    } else if seq_ends_with(s, ".tsx"@) {
        Some(s.subrange(0, s.len() - 4) + ".rs"@)
    } else if seq_ends_with(s, ".js"@) {
        Some(s.subrange(0, s.len() - 3) + ".rs"@)
    } else if seq_ends_with(s, ".vue"@) {
        Some(s.subrange(0, s.len() - 4) + ".rs"@)
    } else {
        None
    }
}

fn swap_extension(s: &Vec<char>, ext: &str) -> (r: Option<String>)
    ensures
        match r {
            Some(t) => seq_ends_with(s@, ext@) && t@ == s@.subrange(0, s@.len() - ext@.len()) + ".rs"@,
            None => !seq_ends_with(s@, ext@),
        },
{
    let e = chars_of(ext);
    if crate::text::ends_with_chars(s.as_slice(), e.as_slice()) {
        let stem = crate::text::slice_copy(s.as_slice(), 0, s.len() - e.len());
        let mut out = string_of(stem.as_slice());
        crate::parser::rust::push_text(&mut out, ".rs");
        Some(out)
    } else {
        None
    }
}

/// The file of the target project that a source file maps to by default.
pub fn default_target_file(source_file: &str) -> (r: Option<String>)
    ensures
        opt_text(r) == default_target_spec(source_file@),
{
    let s = crate::text::replace_chars(chars_of(source_file).as_slice(), &['\\'], &['/']);
    proof {
        assert((['\\'])@ =~= seq!['\\']);
        assert((['/'])@ =~= seq!['/']);
        reveal_strlit(".ts");
        reveal_strlit(".tsx");
        reveal_strlit(".js");
        reveal_strlit(".vue");
    }
    match swap_extension(&s, ".ts") {
        Some(t) => Some(t),
        None => match swap_extension(&s, ".tsx") {
            Some(t) => Some(t),
            None => match swap_extension(&s, ".js") {
                Some(t) => Some(t),
                None => swap_extension(&s, ".vue"),
            },
        },
    }
}

/// The positions among the first `n` modules that equal `d`.
pub open spec fn positions_equal(modules: Seq<Seq<char>>, d: Seq<char>, n: int) -> Seq<usize>
    decreases n,
{
    if n <= 0 {
        Seq::empty()
    } else {
        let r = positions_equal(modules, d, n - 1);
        if modules[n - 1] == d {
            r.push((n - 1) as usize)
        } else {
            r
        }
    }
}

/// The positions of the target files to search: those that are the default target
/// file, when there are any; otherwise all of them.
pub open spec fn candidate_files_spec(source_file: Seq<char>, modules: Seq<Seq<char>>) -> Seq<usize> {
    let same = match default_target_spec(source_file) {
        Some(d) => positions_equal(modules, d, modules.len() as int),
        None => Seq::empty(),
    };
    if same.len() > 0 {
        same
    } else {
        Seq::new(modules.len(), |i: int| i as usize)
    }
}

pub open spec fn project_modules(project: Seq<(SymbolIndex, ApiContract)>) -> Seq<Seq<char>> {
    project.map_values(|p: (SymbolIndex, ApiContract)| p.0.module@)
}

/// The target files to search for a symbol of `source_file`, as positions in
/// `target_project`.
pub fn find_candidate_files(source_file: &str, target_project: &[(SymbolIndex, ApiContract)]) -> (r: Vec<usize>)
    ensures
        r@ == candidate_files_spec(source_file@, project_modules(target_project@)),
        forall|i: int| 0 <= i < r@.len() ==> #[trigger] r@[i] < target_project@.len(),
{
    let ghost mods = project_modules(target_project@);
    let d = default_target_file(source_file);
    let mut same: Vec<usize> = Vec::new();
    match &d {
        Some(dt) => {
            let dc = chars_of(dt.as_str());
            let mut i: usize = 0;
            while i < target_project.len()
                invariant
                    i <= target_project.len(),
                    mods == project_modules(target_project@),
                    dc@ == dt@,
                    same@ == positions_equal(mods, dt@, i as int),
                    forall|j: int| 0 <= j < same@.len() ==> #[trigger] same@[j] < i,
                decreases target_project.len() - i,
            {
                if crate::naming::same_chars(&chars_of(target_project[i].0.module.as_str()), &dc) {
                    same.push(i);
                }
                i = i + 1;
            }
        },
        None => {},
    }
    if same.len() > 0 {
        same
    } else {
        let mut all: Vec<usize> = Vec::new();
        let mut i: usize = 0;
        while i < target_project.len()
            invariant
                i <= target_project.len(),
                all@ == Seq::new(i as nat, |j: int| j as usize),
            decreases target_project.len() - i,
        {
            all.push(i);
            proof {
                assert(all@ =~= Seq::new((i + 1) as nat, |j: int| j as usize));
            }
            i = i + 1;
        }
        all
    }
}

// ---------------------------------------------------------------------------
// The target symbol by name
// ---------------------------------------------------------------------------

/// `p` is the first position of `syms` holding a symbol named one of `names`.
pub open spec fn is_first_named(syms: Seq<Symbol>, names: Seq<Seq<char>>, p: int) -> bool {
    &&& 0 <= p < syms.len()
    &&& names.contains(syms[p].name@)
    &&& forall|j: int| 0 <= j < p ==> !names.contains(#[trigger] syms[j].name@)
}

/// The first position of `syms` holding a symbol named one of `names`.
pub open spec fn first_named(syms: Seq<Symbol>, names: Seq<Seq<char>>) -> Option<int> {
    if exists|p: int| is_first_named(syms, names, p) {
        Some(choose|p: int| is_first_named(syms, names, p))
    } else {
        None
    }
}

proof fn lemma_first_named(syms: Seq<Symbol>, names: Seq<Seq<char>>, p: int)
    requires
        is_first_named(syms, names, p),
    ensures
        first_named(syms, names) == Some(p),
{
    let q = choose|q: int| is_first_named(syms, names, q);
    assert(is_first_named(syms, names, q));
    if q < p {
        assert(!names.contains(syms[q].name@));
    }
    if p < q {
        assert(!names.contains(syms[p].name@));
    }
}

proof fn lemma_none_named(syms: Seq<Symbol>, names: Seq<Seq<char>>)
    requires
        forall|j: int| 0 <= j < syms.len() ==> !names.contains(#[trigger] syms[j].name@),
    ensures
        first_named(syms, names) is None,
{
}

/// The first of `v` whose symbol is named one of `names`.
fn find_named(v: &Vec<&Symbol>, names: &Vec<String>) -> (r: Option<usize>)
    ensures
        match r {
            Some(p) => first_named(deref_all(v@), views(names@)) == Some(p as int),
            None => first_named(deref_all(v@), views(names@)) is None,
        },
{
    let ghost syms = deref_all(v@);
    let mut i: usize = 0;
    while i < v.len()
        invariant
            i <= v.len(),
            syms == deref_all(v@),
            forall|j: int| 0 <= j < i ==> !views(names@).contains(#[trigger] syms[j].name@),
        decreases v.len() - i,
    {
        proof {
            assert(syms[i as int] == *v@[i as int]);
            assert(crate::graph::string_views(names@) =~= views(names@));
        }
        if crate::graph::contains_string(names, &v[i].name) {
            proof {
                lemma_first_named(syms, views(names@), i as int);
            }
            return Some(i);
        }
        i = i + 1;
    }
    proof {
        lemma_none_named(syms, views(names@));
    }
    None
}

/// The first candidate file, in order, holding a symbol named one of `names`, and
/// that symbol's position among the file's symbols and members.
pub open spec fn name_match(project: Seq<(SymbolIndex, ApiContract)>, files: Seq<usize>, names: Seq<Seq<char>>) -> Option<(int, int)>
    decreases files.len(),
{
    if files.len() == 0 {
        None
    } else {
        match first_named(forest(project[files[0] as int].0.symbols@), names) {
            Some(j) => Some((files[0] as int, j)),
            None => name_match(project, files.drop_first(), names),
        }
    }
}

/// The confidence of a match by name.
pub open spec fn name_confidence() -> Ratio {
    Ratio { num: 85, den: 100 }
}

pub open spec fn no_confidence() -> Ratio {
    Ratio { num: 0, den: 1 }
}

/// A symbol of a target file, matched by name.
pub open spec fn named_result(module: Seq<char>, s: Symbol) -> (Option<Seq<char>>, Option<Seq<char>>, Option<Seq<char>>, Option<[usize; 2]>, Ratio) {
    (Some(module), Some(s.name@), None, Some(s.line_range), name_confidence())
}

pub open spec fn result_view(m: MatchResult) -> (Option<Seq<char>>, Option<Seq<char>>, Option<Seq<char>>, Option<[usize; 2]>, Ratio) {
    (opt_text(m.target_file), opt_text(m.target_symbol), opt_text(m.target_child), m.target_line_range, m.confidence)
}

/// What the first level of matching decides.
pub enum NameMatch {
    /// The match is decided.
    Found(MatchResult),
    /// No symbol of these candidate files (positions in the target project) has a
    /// matching name; their signatures decide.
    Candidates(Vec<usize>),
}

/// The default file alone, with no confidence.
pub open spec fn unmatched_spec(source_file: Seq<char>) -> (Option<Seq<char>>, Option<Seq<char>>, Option<Seq<char>>, Option<[usize; 2]>, Ratio) {
    (default_target_spec(source_file), None, None, None, no_confidence())
}

/// The result when nothing in the target project matches: the default target file.
pub fn unmatched(source_file: &str) -> (r: MatchResult)
    ensures
        result_view(r) == unmatched_spec(source_file@),
{
    MatchResult {
        target_file: default_target_file(source_file),
        target_symbol: None,
        target_child: None,
        target_line_range: None,
        confidence: Ratio { num: 0, den: 1 },
    }
}

/// The first levels of matching a source symbol: with no candidate file, the default
/// file alone; otherwise the first symbol of the candidate files, in order, named
/// as one of the names the symbol may take in the target language; otherwise the
/// candidate files, for a match by signature.
pub fn match_by_name(
    source_file: &str,
    source_symbol: &str,
    target_project: &[(SymbolIndex, ApiContract)],
    naming: &NamingRegistry,
) -> (r: NameMatch)
    ensures
        ({
            let files = candidate_files_spec(source_file@, project_modules(target_project@));
            let names = candidates_spec(*naming, source_symbol@);
            if files.len() == 0 {
                r matches NameMatch::Found(m) && result_view(m) == unmatched_spec(source_file@)
            } else {
                match name_match(target_project@, files, names) {
                    Some((f, j)) => r matches NameMatch::Found(m) && result_view(m) == named_result(
                        target_project@[f].0.module@,
                        forest(target_project@[f].0.symbols@)[j],
                    ),
                    None => r matches NameMatch::Candidates(c) && c@ == files,
                }
            }
        }),
{
    let files = find_candidate_files(source_file, target_project);
    if files.len() == 0 {
        return NameMatch::Found(unmatched(source_file));
    }
    let names = naming.candidates(source_symbol);
    let ghost all = files@;
    let mut k: usize = 0;
    proof {
        assert(all.subrange(0, all.len() as int) =~= all);
    }
    while k < files.len()
        invariant
            k <= files.len(),
            all == files@,
            all == candidate_files_spec(source_file@, project_modules(target_project@)),
            views(names@) == candidates_spec(*naming, source_symbol@),
            forall|i: int| 0 <= i < all.len() ==> #[trigger] all[i] < target_project@.len(),
            name_match(target_project@, all, views(names@)) == name_match(target_project@, all.subrange(k as int, all.len() as int), views(names@)),
        decreases files.len() - k,
    {
        let f = files[k];
        let syms = target_project[f].0.all_symbols();
        let ghost rest = all.subrange(k as int, all.len() as int);
        proof {
            assert(rest[0] == f);
            assert(rest.drop_first() =~= all.subrange(k + 1, all.len() as int));
        }
        match find_named(&syms, &names) {
            Some(j) => {
                let s = syms[j];
                proof {
                    assert(deref_all(syms@)[j as int] == *syms@[j as int]);
                }
                return NameMatch::Found(
                    MatchResult {
                        target_file: Some(target_project[f].0.module.clone()),
                        target_symbol: Some(s.name.clone()),
                        target_child: None,
                        target_line_range: Some(s.line_range),
                        confidence: Ratio { num: 85, den: 100 },
                    },
                );
            },
            None => {},
        }
        k = k + 1;
    }
    NameMatch::Candidates(files)
}

// ---------------------------------------------------------------------------
// The member inside the matched symbol
// ---------------------------------------------------------------------------

/// A detail about a member, method or property.
pub open spec fn is_child_detail(d: ChangeDetail) -> bool {
    d.aspect@ == "member"@ || d.aspect@ == "method"@ || d.aspect@ == "property"@
}

pub open spec fn is_first_child_detail(ds: Seq<ChangeDetail>, p: int) -> bool {
    0 <= p < ds.len() && is_child_detail(ds[p]) && forall|j: int| 0 <= j < p ==> !is_child_detail(#[trigger] ds[j])
}

pub open spec fn first_child_detail(ds: Seq<ChangeDetail>) -> Option<int> {
    if exists|p: int| is_first_child_detail(ds, p) {
        Some(choose|p: int| is_first_child_detail(ds, p))
    } else {
        None
    }
}

/// The member a detail names: its new value, else its old value, else nothing.
pub open spec fn child_source(d: ChangeDetail) -> Seq<char> {
    match d.new_value {
        Some(v) => v@,
        None => match d.old_value {
            Some(v) => v@,
            None => Seq::empty(),
        },
    }
}

pub open spec fn is_first_module(project: Seq<(SymbolIndex, ApiContract)>, m: Seq<char>, p: int) -> bool {
    0 <= p < project.len() && project[p].0.module@ == m && forall|j: int| 0 <= j < p ==> (#[trigger] project[j]).0.module@ != m
}

pub open spec fn first_module(project: Seq<(SymbolIndex, ApiContract)>, m: Seq<char>) -> Option<int> {
    if exists|p: int| is_first_module(project, m, p) {
        Some(choose|p: int| is_first_module(project, m, p))
    } else {
        None
    }
}

/// The member of the matched symbol that a change's first member detail names,
/// translated to the target language: the existing member of that name with its
/// lines, or the translated name with the symbol's lines. Nothing without a
/// matched file and symbol, without such a detail or name, or when the file or a
/// symbol named as the source symbol may be is not found.
pub open spec fn child_context_spec(
    source_symbol: Seq<char>,
    details: Seq<ChangeDetail>,
    matched_file: Option<Seq<char>>,
    matched_parent: Option<Seq<char>>,
    project: Seq<(SymbolIndex, ApiContract)>,
    naming: NamingRegistry,
) -> (Option<Seq<char>>, Option<[usize; 2]>) {
    match (matched_file, matched_parent, first_child_detail(details)) {
        (Some(tf), Some(_), Some(di)) => {
            let src = child_source(details[di]);
            if src.len() == 0 {
                (None, None)
            } else {
                match first_module(project, tf) {
                    None => (None, None),
                    Some(pi) => {
                        let all = forest(project[pi].0.symbols@);
                        match first_named(all, candidates_spec(naming, source_symbol)) {
                            None => (None, None),
                            Some(si) => {
                                let parent = all[si];
                                let t = translate_name_spec(naming, src);
                                match first_named(parent.children@, seq![t]) {
                                    Some(ci) => (Some(parent.children@[ci].name@), Some(parent.children@[ci].line_range)),
                                    None => (Some(t), Some(parent.line_range)),
                                }
                            },
                        }
                    },
                }
            }
        },
        _ => (None, None),
    }
}

fn find_child_detail(ds: &[ChangeDetail]) -> (r: Option<usize>)
    ensures
        match r {
            Some(p) => first_child_detail(ds@) == Some(p as int),
            None => first_child_detail(ds@) is None,
        },
{
    let mut i: usize = 0;
    while i < ds.len()
        invariant
            i <= ds.len(),
            forall|j: int| 0 <= j < i ==> !is_child_detail(#[trigger] ds@[j]),
        decreases ds.len() - i,
    {
        let a = chars_of(ds[i].aspect.as_str());
        proof {
            reveal_strlit("member");
            reveal_strlit("method");
            reveal_strlit("property");
        }
        if crate::naming::same_chars(&a, &chars_of("member")) || crate::naming::same_chars(&a, &chars_of("method"))
            || crate::naming::same_chars(&a, &chars_of("property")) {
            proof {
                assert(is_first_child_detail(ds@, i as int));
                let q = choose|q: int| is_first_child_detail(ds@, q);
                assert(is_first_child_detail(ds@, q));
                if q < i {
                    assert(!is_child_detail(ds@[q]));
                }
                if (i as int) < q {
                    assert(!is_child_detail(ds@[i as int]));
                }
            }
            return Some(i);
        }
        i = i + 1;
    }
    None
}

fn find_module(project: &[(SymbolIndex, ApiContract)], m: &str) -> (r: Option<usize>)
    ensures
        match r {
            Some(p) => first_module(project@, m@) == Some(p as int),
            None => first_module(project@, m@) is None,
        },
{
    let mc = chars_of(m);
    let mut i: usize = 0;
    while i < project.len()
        invariant
            i <= project.len(),
            mc@ == m@,
            forall|j: int| 0 <= j < i ==> (#[trigger] project@[j]).0.module@ != m@,
        decreases project.len() - i,
    {
        if crate::naming::same_chars(&chars_of(project[i].0.module.as_str()), &mc) {
            proof {
                assert(is_first_module(project@, m@, i as int));
                let q = choose|q: int| is_first_module(project@, m@, q);
                assert(is_first_module(project@, m@, q));
                if q < i {
                    assert(project@[q].0.module@ != m@);
                }
                if (i as int) < q {
                    assert(project@[i as int].0.module@ != m@);
                }
            }
            return Some(i);
        }
        i = i + 1;
    }
    None
}

fn find_child_named(children: &Vec<Symbol>, name: &String) -> (r: Option<usize>)
    ensures
        match r {
            Some(p) => first_named(children@, seq![name@]) == Some(p as int),
            None => first_named(children@, seq![name@]) is None,
        },
{
    let nc = chars_of(name.as_str());
    let mut i: usize = 0;
    while i < children.len()
        invariant
            i <= children.len(),
            nc@ == name@,
            forall|j: int| 0 <= j < i ==> !seq![name@].contains(#[trigger] children@[j].name@),
        decreases children.len() - i,
    {
        if crate::naming::same_chars(&chars_of(children[i].name.as_str()), &nc) {
            proof {
                assert(seq![name@][0] == name@);
                lemma_first_named(children@, seq![name@], i as int);
            }
            return Some(i);
        }
        proof {
            assert forall|x: Seq<char>| seq![name@].contains(x) implies x == name@ by {
                let k = choose|k: int| 0 <= k < 1 && seq![name@][k] == x;
            }
        }
        i = i + 1;
    }
    None
}

/// After a symbol is matched, the member of it that the change is about, translated
/// to the target language, and its lines (see `child_context_spec`).
pub fn resolve_child_context(
    source_symbol: &str,
    details: &[ChangeDetail],
    matched_file: Option<&str>,
    matched_parent: Option<&str>,
    target_project: &[(SymbolIndex, ApiContract)],
    naming: &NamingRegistry,
) -> (r: (Option<String>, Option<[usize; 2]>))
    ensures
        (opt_text(r.0), r.1) == child_context_spec(
            source_symbol@,
            details@,
            crate::compat::opt_str_view(matched_file),
            crate::compat::opt_str_view(matched_parent),
            target_project@,
            *naming,
        ),
{
    let tf = match matched_file {
        Some(t) => t,
        None => return (None, None),
    };
    if matched_parent.is_none() {
        return (None, None);
    }
    let di = match find_child_detail(details) {
        Some(i) => i,
        None => return (None, None),
    };
    let d = &details[di];
    let src: String = match &d.new_value {
        Some(v) => v.clone(),
        None => match &d.old_value {
            Some(v) => v.clone(),
            None => {
                proof {
                    reveal_strlit("");
                }
                String::from_str("")
            },
        },
    };
    if src.as_str().unicode_len() == 0 {
        return (None, None);
    }
    let pi = match find_module(target_project, tf) {
        Some(i) => i,
        None => return (None, None),
    };
    let parent_names = naming.candidates(source_symbol);
    let all = target_project[pi].0.all_symbols();
    let si = match find_named(&all, &parent_names) {
        Some(i) => i,
        None => return (None, None),
    };
    let parent = all[si];
    proof {
        assert(deref_all(all@)[si as int] == *all@[si as int]);
    }
    let translated = naming.translate_name(src.as_str());
    match find_child_named(&parent.children, &translated) {
        Some(ci) => (Some(parent.children[ci].name.clone()), Some(parent.children[ci].line_range)),
        None => (Some(translated), Some(parent.line_range)),
    }
}

} // verus!
