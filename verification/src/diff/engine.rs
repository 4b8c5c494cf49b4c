//! One file compared across two versions, and the counts of a whole diff.
use vstd::prelude::*;
use crate::compat::{copy_opt_string, dedup_first, dedup_strings, opt_view};
use crate::diff::{ChangeDetail, ChangeView, DiffSummary, DocChange, ImportChange, ImportView, Ratio, SymbolChange, detail_views};
use crate::diff::doc::{doc_change, DocView};
use crate::diff::logic::{is_value_change, or_empty, value_changed};
use crate::diff::signature::{
    dedup_keys, detail, entries_of, is_signature_change, member_entries, member_keys, name_entries, pair_entries, param_names,
    renamed_names, renamed_new_names, renames_upto, signature_changes, SigEntry,
};
use crate::graph::contains_string;
use crate::symbols::{Symbol, SymbolParam};
use crate::text::{chars_of, views};

verus! {

/// The changes of one file between two versions.
pub struct FileDiffResult {
    pub file: String,
    pub status: String,
    pub symbol_changes: Vec<SymbolChange>,
    pub import_changes: Vec<ImportChange>,
    pub doc_changes: Vec<DocChange>,
}

/// How the symbols of two versions of a file correspond.
pub struct SymbolMapping {
    /// Renamed symbols, as pairs of old and new id.
    pub renamed: Vec<(String, String)>,
    /// Positions of added symbols among the new symbols.
    pub added: Vec<usize>,
    /// Positions of removed symbols among the old symbols.
    pub removed: Vec<usize>,
    /// Positions of the symbols present in both versions: old, then new.
    pub stable: Vec<(usize, usize)>,
    /// How alike each renamed symbol is to its new self, by old id.
    pub confidence: Vec<(String, Ratio)>,
}

pub open spec fn change_views(v: Seq<SymbolChange>) -> Seq<ChangeView> {
    v.map_values(|c: SymbolChange| c@)
}

pub open spec fn import_views(v: Seq<ImportChange>) -> Seq<ImportView> {
    v.map_values(|c: ImportChange| c@)
}

pub open spec fn doc_views(v: Seq<DocChange>) -> Seq<DocView> {
    v.map_values(|c: DocChange| c@)
}

// ---------------------------------------------------------------------------
// Looking symbols up
// ---------------------------------------------------------------------------

/// `p` is the first position of a symbol with id `id`.
pub open spec fn is_first_id(syms: Seq<Symbol>, id: Seq<char>, p: int) -> bool {
    0 <= p < syms.len() && syms[p].id@ == id && forall|j: int| 0 <= j < p ==> syms[j].id@ != id
}

pub open spec fn has_id(syms: Seq<Symbol>, id: Seq<char>) -> bool {
    exists|p: int| 0 <= p < syms.len() && syms[p].id@ == id
}

/// The first symbol with id `id`.
pub open spec fn symbol_with_id(syms: Seq<Symbol>, id: Seq<char>) -> Symbol {
    syms[choose|p: int| is_first_id(syms, id, p)]
}

/// `p` is the first position of a confidence recorded for `id`.
pub open spec fn is_first_key(conf: Seq<(String, Ratio)>, id: Seq<char>, p: int) -> bool {
    0 <= p < conf.len() && conf[p].0@ == id && forall|j: int| 0 <= j < p ==> conf[j].0@ != id
}

/// The confidence given when none is recorded: three quarters.
pub open spec fn default_confidence() -> Ratio {
    Ratio { num: 3, den: 4 }
}

/// The first confidence recorded for `id`, or the default.
pub open spec fn confidence_of(conf: Seq<(String, Ratio)>, id: Seq<char>) -> Ratio {
    if exists|p: int| is_first_key(conf, id, p) {
        conf[choose|p: int| is_first_key(conf, id, p)].1
    } else {
        default_confidence()
    }
}

proof fn lemma_first_id(syms: Seq<Symbol>, id: Seq<char>, p: int)
    requires
        is_first_id(syms, id, p),
    ensures
        symbol_with_id(syms, id) == syms[p],
{
    let q = choose|q: int| is_first_id(syms, id, q);
    assert(is_first_id(syms, id, q));
    if q < p {
        assert(syms[q].id@ != id);
    }
    if p < q {
        assert(syms[p].id@ != id);
    }
}

fn position_of_id(syms: &[Symbol], id: &String) -> (r: usize)
    requires
        has_id(syms@, id@),
    ensures
        is_first_id(syms@, id@, r as int),
        symbol_with_id(syms@, id@) == syms@[r as int],
{
    let want = chars_of(id.as_str());
    let mut i: usize = 0;
    while i < syms.len()
        invariant
            i <= syms.len(),
            want@ == id@,
            has_id(syms@, id@),
            forall|j: int| 0 <= j < i ==> syms@[j].id@ != id@,
        decreases syms.len() - i,
    {
        if crate::naming::same_chars(&chars_of(syms[i].id.as_str()), &want) {
            proof {
                lemma_first_id(syms@, id@, i as int);
            }
            return i;
        }
        i = i + 1;
    }
    proof {
        let p = choose|p: int| 0 <= p < syms@.len() && syms@[p].id@ == id@;
        assert(syms@[p].id@ != id@);
    }
    0
}

fn confidence_for(conf: &Vec<(String, Ratio)>, id: &String) -> (r: Ratio)
    ensures
        r == confidence_of(conf@, id@),
{
    let want = chars_of(id.as_str());
    let mut i: usize = 0;
    while i < conf.len()
        invariant
            i <= conf.len(),
            want@ == id@,
            forall|j: int| 0 <= j < i ==> conf@[j].0@ != id@,
        decreases conf.len() - i,
    {
        if crate::naming::same_chars(&chars_of(conf[i].0.as_str()), &want) {
            proof {
                assert(is_first_key(conf@, id@, i as int));
                let q = choose|q: int| is_first_key(conf@, id@, q);
                assert(is_first_key(conf@, id@, q));
                if q < i {
                    assert(conf@[q].0@ != id@);
                }
                if (i as int) < q {
                    assert(conf@[i as int].0@ != id@);
                }
            }
            return conf[i].1;
        }
        i = i + 1;
    }
    proof {
        assert forall|p: int| !is_first_key(conf@, id@, p) by {
            if 0 <= p < conf@.len() {
                assert(conf@[p].0@ != id@);
            }
        }
    }
    Ratio { num: 3, den: 4 }
}

// ---------------------------------------------------------------------------
// The records of a file's changes
// ---------------------------------------------------------------------------

/// A renamed symbol, recorded under its new name.
pub open spec fn rename_view(o: Symbol, n: Symbol, confidence: Ratio, mark_target: bool) -> ChangeView {
    ChangeView {
        symbol: n.name@,
        kind: n.kind@,
        change_type: "renamed"@,
        severity: "compatible"@,
        old_name: Some(o.name@),
        rename_confidence: Some(confidence),
        details: Seq::empty(),
        old_line_range: Some(o.line_range),
        new_line_range: Some(n.line_range),
        old_source: None,
        new_source: None,
        target_file: None,
        target_symbol: if mark_target { Some(n.name@) } else { None },
        target_child: None,
        target_line_range: None,
    }
}

/// A symbol that only the new version has.
pub open spec fn added_view(s: Symbol) -> ChangeView {
    ChangeView {
        symbol: s.name@,
        kind: s.kind@,
        change_type: "added"@,
        severity: "compatible"@,
        old_name: None,
        rename_confidence: None,
        details: Seq::empty(),
        old_line_range: None,
        new_line_range: Some(s.line_range),
        old_source: None,
        new_source: None,
        target_file: None,
        target_symbol: None,
        target_child: None,
        target_line_range: None,
    }
}

/// A symbol that only the old version has: a breaking change.
pub open spec fn removed_view(s: Symbol) -> ChangeView {
    ChangeView {
        symbol: s.name@,
        kind: s.kind@,
        change_type: "removed"@,
        severity: "breaking"@,
        old_name: None,
        rename_confidence: None,
        details: Seq::empty(),
        old_line_range: Some(s.line_range),
        new_line_range: None,
        old_source: None,
        new_source: None,
        target_file: None,
        target_symbol: None,
        target_child: None,
        target_line_range: None,
    }
}

/// A modification of `new` with one detail and the given severity.
pub open spec fn modified_view(old: Symbol, new: Symbol, severity: Seq<char>, d: crate::diff::DetailView) -> ChangeView {
    ChangeView {
        symbol: new.name@,
        kind: new.kind@,
        change_type: "modified"@,
        severity,
        old_name: None,
        rename_confidence: None,
        details: seq![d],
        old_line_range: Some(old.line_range),
        new_line_range: Some(new.line_range),
        old_source: None,
        new_source: None,
        target_file: None,
        target_symbol: None,
        target_child: None,
        target_line_range: None,
    }
}

pub open spec fn sig_views(old: Symbol, new: Symbol, es: Seq<SigEntry>) -> Seq<ChangeView> {
    es.map_values(|e: SigEntry| modified_view(old, new, e.0, e.1))
}

pub open spec fn value_view(old: Symbol, new: Symbol) -> ChangeView {
    modified_view(
        old,
        new,
        "compatible"@,
        detail(
            "value"@,
            "changed"@,
            "value changed from '"@ + or_empty(opt_view(old.value)) + "' to '"@ + or_empty(opt_view(new.value)) + "'"@,
            opt_view(old.value),
            opt_view(new.value),
        ),
    )
}

/// The signature and value changes of a symbol kept in both versions.
pub open spec fn pair_changes(old: Symbol, new: Symbol) -> Seq<ChangeView> {
    sig_views(old, new, signature_changes(old, new)) + if value_changed(old, new) {
        seq![value_view(old, new)]
    } else {
        Seq::empty()
    }
}

pub open spec fn renamed_changes(
    olds: Seq<Symbol>,
    news: Seq<Symbol>,
    pairs: Seq<(String, String)>,
    conf: Seq<(String, Ratio)>,
    mark_target: bool,
) -> Seq<ChangeView>
    decreases pairs.len(),
{
    if pairs.len() == 0 {
        Seq::empty()
    } else {
        let p = pairs.last();
        renamed_changes(olds, news, pairs.drop_last(), conf, mark_target).push(
            rename_view(symbol_with_id(olds, p.0@), symbol_with_id(news, p.1@), confidence_of(conf, p.0@), mark_target),
        )
    }
}

pub open spec fn added_changes(news: Seq<Symbol>, at: Seq<usize>) -> Seq<ChangeView> {
    at.map_values(|i: usize| added_view(news[i as int]))
}

pub open spec fn removed_changes(olds: Seq<Symbol>, at: Seq<usize>) -> Seq<ChangeView> {
    at.map_values(|i: usize| removed_view(olds[i as int]))
}

pub open spec fn stable_changes(olds: Seq<Symbol>, news: Seq<Symbol>, st: Seq<(usize, usize)>) -> Seq<ChangeView>
    decreases st.len(),
{
    if st.len() == 0 {
        Seq::empty()
    } else {
        stable_changes(olds, news, st.drop_last()) + pair_changes(olds[st.last().0 as int], news[st.last().1 as int])
    }
}

pub open spec fn stable_docs(olds: Seq<Symbol>, news: Seq<Symbol>, st: Seq<(usize, usize)>) -> Seq<DocView>
    decreases st.len(),
{
    if st.len() == 0 {
        Seq::empty()
    } else {
        let r = stable_docs(olds, news, st.drop_last());
        match doc_change(olds[st.last().0 as int], news[st.last().1 as int]) {
            Some(d) => r.push(d),
            None => r,
        }
    }
}

/// Every symbol change of a file: renames, additions, removals, then the changes of
/// the symbols that both versions hold.
pub open spec fn file_changes(olds: Seq<Symbol>, news: Seq<Symbol>, m: SymbolMapping, mark_target: bool) -> Seq<ChangeView> {
    renamed_changes(olds, news, m.renamed@, m.confidence@, mark_target) + added_changes(news, m.added@)
        + removed_changes(olds, m.removed@) + stable_changes(olds, news, m.stable@)
}

/// The mapping speaks only of symbols that the two versions hold.
pub open spec fn mapping_fits(m: SymbolMapping, olds: Seq<Symbol>, news: Seq<Symbol>) -> bool {
    &&& forall|k: int| 0 <= k < m.renamed@.len() ==> has_id(olds, #[trigger] m.renamed@[k].0@) && has_id(news, m.renamed@[k].1@)
    &&& forall|k: int| 0 <= k < m.added@.len() ==> #[trigger] m.added@[k] < news.len()
    &&& forall|k: int| 0 <= k < m.removed@.len() ==> #[trigger] m.removed@[k] < olds.len()
    &&& forall|k: int| 0 <= k < m.stable@.len() ==> #[trigger] m.stable@[k].0 < olds.len() && m.stable@[k].1 < news.len()
}

// ---------------------------------------------------------------------------
// Imports
// ---------------------------------------------------------------------------

pub open spec fn import_view(change_type: Seq<char>, package: Seq<char>) -> ImportView {
    ImportView { change_type, package, old_path: None, new_path: None, is_external: true, compatibility: None }
}

/// The names of `names` that `other` lacks, each as one import change of `change_type`.
pub open spec fn absent_imports(names: Seq<Seq<char>>, other: Seq<Seq<char>>, change_type: Seq<char>) -> Seq<ImportView>
    decreases names.len(),
{
    if names.len() == 0 {
        Seq::empty()
    } else {
        let r = absent_imports(names.drop_last(), other, change_type);
        if other.contains(names.last()) {
            r
        } else {
            r.push(import_view(change_type, names.last()))
        }
    }
}

/// Packages imported only by the new version, then those imported only by the old one,
/// each once, in the order of their first import.
pub open spec fn import_diff(olds: Seq<Seq<char>>, news: Seq<Seq<char>>) -> Seq<ImportView> {
    absent_imports(dedup_first(news), olds, "added"@) + absent_imports(dedup_first(olds), news, "removed"@)
}

fn push_absent_imports(out: &mut Vec<ImportChange>, names: &Vec<String>, other: &Vec<String>, change_type: &str)
    ensures
        import_views(final(out)@) == import_views(old(out)@) + absent_imports(views(names@), views(other@), change_type@),
{
    let ghost i0 = import_views(out@);
    let ghost ns = views(names@);
    let mut k: usize = 0;
    proof {
        assert(ns.subrange(0, 0) =~= Seq::<Seq<char>>::empty());
        assert(i0 + absent_imports(ns.subrange(0, 0), views(other@), change_type@) =~= i0);
    }
    while k < names.len()
        invariant
            k <= names.len(),
            ns == views(names@),
            import_views(out@) == i0 + absent_imports(ns.subrange(0, k as int), views(other@), change_type@),
        decreases names.len() - k,
    {
        proof {
            assert(ns.subrange(0, k + 1).drop_last() =~= ns.subrange(0, k as int));
            assert(ns.subrange(0, k + 1).last() == names@[k as int]@);
            assert(crate::graph::string_views(other@) =~= views(other@));
        }
        if !contains_string(other, &names[k]) {
            let ghost before = out@;
            out.push(
                ImportChange {
                    change_type: String::from_str(change_type),
                    package: names[k].clone(),
                    old_path: None,
                    new_path: None,
                    is_external: true,
                    compatibility: None,
                },
            );
            proof {
                assert(import_views(out@) =~= import_views(before).push(import_view(change_type@, names@[k as int]@)));
            }
        }
        k = k + 1;
    }
    proof {
        assert(ns.subrange(0, k as int) =~= ns);
    }
}

// ---------------------------------------------------------------------------
// Assembling a file's changes
// ---------------------------------------------------------------------------

proof fn lemma_push_view(v: Seq<SymbolChange>, c: SymbolChange)
    ensures
        change_views(v.push(c)) == change_views(v).push(c@),
{
    assert(change_views(v.push(c)) =~= change_views(v).push(c@));
}

proof fn lemma_sig_views(v: Seq<SymbolChange>, old: Symbol, new: Symbol)
    requires
        entries_of(v) == signature_changes(old, new),
        forall|j: int| 0 <= j < v.len() ==> is_signature_change(#[trigger] v[j], old, new),
    ensures
        change_views(v) == sig_views(old, new, signature_changes(old, new)),
{
    let es = signature_changes(old, new);
    assert(entries_of(v).len() == v.len());
    assert forall|j: int| 0 <= j < v.len() implies change_views(v)[j] == sig_views(old, new, es)[j] by {
        let c = v[j];
        assert(is_signature_change(c, old, new));
        assert(entries_of(v)[j] == (c.severity@, c.details@[0]@));
        assert(detail_views(c.details@) =~= seq![c.details@[0]@]);
    }
    assert(change_views(v) =~= sig_views(old, new, es));
}

fn push_renames(
    out: &mut Vec<SymbolChange>,
    olds: &[Symbol],
    news: &[Symbol],
    m: &SymbolMapping,
    mark_target: bool,
)
    requires
        mapping_fits(*m, olds@, news@),
    ensures
        change_views(final(out)@) == change_views(old(out)@) + renamed_changes(olds@, news@, m.renamed@, m.confidence@, mark_target),
{
    let ghost c0 = change_views(out@);
    let mut k: usize = 0;
    proof {
        assert(m.renamed@.subrange(0, 0) =~= Seq::<(String, String)>::empty());
        assert(c0 + renamed_changes(olds@, news@, m.renamed@.subrange(0, 0), m.confidence@, mark_target) =~= c0);
    }
    while k < m.renamed.len()
        invariant
            k <= m.renamed.len(),
            mapping_fits(*m, olds@, news@),
            change_views(out@) == c0 + renamed_changes(olds@, news@, m.renamed@.subrange(0, k as int), m.confidence@, mark_target),
        decreases m.renamed.len() - k,
    {
        let pair = &m.renamed[k];
        proof {
            assert(has_id(olds@, m.renamed@[k as int].0@));
            assert(m.renamed@.subrange(0, k + 1).drop_last() =~= m.renamed@.subrange(0, k as int));
            assert(m.renamed@.subrange(0, k + 1).last() == *pair);
        }
        let oi = position_of_id(olds, &pair.0);
        let ni = position_of_id(news, &pair.1);
        let o = &olds[oi];
        let n = &news[ni];
        let c = SymbolChange {
            symbol: n.name.clone(),
            kind: n.kind.clone(),
            change_type: String::from_str("renamed"),
            severity: String::from_str("compatible"),
            old_name: Some(o.name.clone()),
            rename_confidence: Some(confidence_for(&m.confidence, &pair.0)),
            details: Vec::new(),
            old_line_range: Some(o.line_range),
            new_line_range: Some(n.line_range),
            old_source: None,
            new_source: None,
            target_file: None,
            target_symbol: if mark_target { Some(n.name.clone()) } else { None },
            target_child: None,
            target_line_range: None,
        };
        let ghost before = out@;
        proof {
            assert(detail_views(c.details@) =~= Seq::<crate::diff::DetailView>::empty());
            assert(c@ == rename_view(symbol_with_id(olds@, pair.0@), symbol_with_id(news@, pair.1@), confidence_of(m.confidence@, pair.0@), mark_target));
        }
        out.push(c);
        proof {
            lemma_push_view(before, c);
        }
        k = k + 1;
    }
    proof {
        assert(m.renamed@.subrange(0, k as int) =~= m.renamed@);
    }
}

fn plain_change(s: &Symbol, added: bool) -> (r: SymbolChange)
    ensures
        r@ == if added { added_view(*s) } else { removed_view(*s) },
{
    let c = SymbolChange {
        symbol: s.name.clone(),
        kind: s.kind.clone(),
        change_type: if added { String::from_str("added") } else { String::from_str("removed") },
        severity: if added { String::from_str("compatible") } else { String::from_str("breaking") },
        old_name: None,
        rename_confidence: None,
        details: Vec::new(),
        old_line_range: if added { None } else { Some(s.line_range) },
        new_line_range: if added { Some(s.line_range) } else { None },
        old_source: None,
        new_source: None,
        target_file: None,
        target_symbol: None,
        target_child: None,
        target_line_range: None,
    };
    proof {
        assert(detail_views(c.details@) =~= Seq::<crate::diff::DetailView>::empty());
    }
    c
}

/// Appends one record for each listed position: additions among `syms` when
/// `added`, removals otherwise.
fn push_plain(out: &mut Vec<SymbolChange>, syms: &[Symbol], at: &Vec<usize>, added: bool)
    requires
        forall|k: int| 0 <= k < at@.len() ==> #[trigger] at@[k] < syms@.len(),
    ensures
        change_views(final(out)@) == change_views(old(out)@) + if added {
            added_changes(syms@, at@)
        } else {
            removed_changes(syms@, at@)
        },
{
    let ghost c0 = change_views(out@);
    let ghost want = if added { added_changes(syms@, at@) } else { removed_changes(syms@, at@) };
    let mut k: usize = 0;
    while k < at.len()
        invariant
            k <= at.len(),
            forall|j: int| 0 <= j < at@.len() ==> #[trigger] at@[j] < syms@.len(),
            want == if added { added_changes(syms@, at@) } else { removed_changes(syms@, at@) },
            want.len() == at@.len(),
            change_views(out@) == c0 + want.subrange(0, k as int),
        decreases at.len() - k,
    {
        let i = at[k];
        assert(i < syms.len());
        let c = plain_change(&syms[i], added);
        let ghost before = out@;
        out.push(c);
        proof {
            lemma_push_view(before, c);
            assert(want.subrange(0, k + 1) =~= want.subrange(0, k as int).push(want[k as int]));
        }
        k = k + 1;
    }
    proof {
        assert(want.subrange(0, k as int) =~= want);
    }
}

/// Appends the changes of each symbol kept in both versions, and their documentation
/// changes.
fn push_stable(
    out: &mut Vec<SymbolChange>,
    docs: &mut Vec<DocChange>,
    olds: &[Symbol],
    news: &[Symbol],
    st: &Vec<(usize, usize)>,
)
    requires
        forall|k: int| 0 <= k < st@.len() ==> #[trigger] st@[k].0 < olds@.len() && st@[k].1 < news@.len(),
    ensures
        change_views(final(out)@) == change_views(old(out)@) + stable_changes(olds@, news@, st@),
        doc_views(final(docs)@) == doc_views(old(docs)@) + stable_docs(olds@, news@, st@),
{
    let ghost c0 = change_views(out@);
    let ghost d0 = doc_views(docs@);
    let mut k: usize = 0;
    proof {
        assert(st@.subrange(0, 0) =~= Seq::<(usize, usize)>::empty());
        assert(c0 + stable_changes(olds@, news@, st@.subrange(0, 0)) =~= c0);
        assert(d0 + stable_docs(olds@, news@, st@.subrange(0, 0)) =~= d0);
    }
    while k < st.len()
        invariant
            k <= st.len(),
            forall|j: int| 0 <= j < st@.len() ==> #[trigger] st@[j].0 < olds@.len() && st@[j].1 < news@.len(),
            change_views(out@) == c0 + stable_changes(olds@, news@, st@.subrange(0, k as int)),
            doc_views(docs@) == d0 + stable_docs(olds@, news@, st@.subrange(0, k as int)),
        decreases st.len() - k,
    {
        let (oi, ni) = st[k];
        proof {
            assert(st@[k as int].0 < olds@.len());
            assert(st@.subrange(0, k + 1).drop_last() =~= st@.subrange(0, k as int));
            assert(st@.subrange(0, k + 1).last() == st@[k as int]);
        }
        let o = &olds[oi];
        let n = &news[ni];
        let ghost before = change_views(out@);
        match crate::diff::signature::diff(o, n) {
            Some(mut v) => {
                proof {
                    lemma_sig_views(v@, *o, *n);
                    assert(change_views(out@ + v@) =~= change_views(out@) + change_views(v@));
                }
                out.append(&mut v);
            },
            None => {
                proof {
                    assert(sig_views(*o, *n, signature_changes(*o, *n)) =~= Seq::<ChangeView>::empty());
                    assert(change_views(out@) =~= before + sig_views(*o, *n, signature_changes(*o, *n)));
                }
            },
        }
        let ghost mid = change_views(out@);
        match crate::diff::logic::diff_value(o, n) {
            Some(c) => {
                proof {
                    assert(is_value_change(c, *o, *n));
                    assert(detail_views(c.details@) =~= seq![c.details@[0]@]);
                    assert(c@ == value_view(*o, *n));
                    lemma_push_view(out@, c);
                }
                out.push(c);
            },
            None => {},
        }
        proof {
            assert(change_views(out@) =~= before + pair_changes(*o, *n));
            assert(change_views(out@) =~= c0 + stable_changes(olds@, news@, st@.subrange(0, k + 1)));
        }
        let ghost dbefore = docs@;
        match crate::diff::doc::diff(o, n) {
            Some(d) => {
                docs.push(d);
                proof {
                    assert(doc_views(docs@) =~= doc_views(dbefore).push(d@));
                }
            },
            None => {},
        }
        k = k + 1;
    }
    proof {
        assert(st@.subrange(0, k as int) =~= st@);
    }
}

/// The changes of a file between two versions: from the symbols of each version,
/// how they correspond, and the packages each imports. Renames are marked with
/// their new name as target when `mark_rename_target`.
pub fn assemble_file_diff(
    file: &str,
    old_symbols: &[Symbol],
    new_symbols: &[Symbol],
    mapping: &SymbolMapping,
    old_imports: &Vec<String>,
    new_imports: &Vec<String>,
    mark_rename_target: bool,
) -> (r: FileDiffResult)
    requires
        mapping_fits(*mapping, old_symbols@, new_symbols@),
    ensures
        r.file@ == file@,
        r.status@ == "modified"@,
        change_views(r.symbol_changes@) == file_changes(old_symbols@, new_symbols@, *mapping, mark_rename_target),
        doc_views(r.doc_changes@) == stable_docs(old_symbols@, new_symbols@, mapping.stable@),
        import_views(r.import_changes@) == import_diff(views(old_imports@), views(new_imports@)),
{
    let mut changes: Vec<SymbolChange> = Vec::new();
    let mut docs: Vec<DocChange> = Vec::new();
    let mut imports: Vec<ImportChange> = Vec::new();
    proof {
        assert(change_views(changes@) =~= Seq::<ChangeView>::empty());
        assert(doc_views(docs@) =~= Seq::<DocView>::empty());
        assert(import_views(imports@) =~= Seq::<ImportView>::empty());
    }
    push_renames(&mut changes, old_symbols, new_symbols, mapping, mark_rename_target);
    push_plain(&mut changes, new_symbols, &mapping.added, true);
    push_plain(&mut changes, old_symbols, &mapping.removed, false);
    push_stable(&mut changes, &mut docs, old_symbols, new_symbols, &mapping.stable);
    let new_distinct = dedup_strings(new_imports);
    let old_distinct = dedup_strings(old_imports);
    push_absent_imports(&mut imports, &new_distinct, old_imports, "added");
    push_absent_imports(&mut imports, &old_distinct, new_imports, "removed");
    proof {
        reveal_strlit("added");
        reveal_strlit("removed");
        assert(change_views(changes@) =~= file_changes(old_symbols@, new_symbols@, *mapping, mark_rename_target));
        assert(doc_views(docs@) =~= stable_docs(old_symbols@, new_symbols@, mapping.stable@));
        assert(import_views(imports@) =~= import_diff(views(old_imports@), views(new_imports@)));
    }
    FileDiffResult {
        file: String::from_str(file),
        status: String::from_str("modified"),
        symbol_changes: changes,
        import_changes: imports,
        doc_changes: docs,
    }
}

// ---------------------------------------------------------------------------
// The counts of a diff
// ---------------------------------------------------------------------------

/// What each count of a [`DiffSummary`] counts, besides the files.
pub enum Tally {
    Added,
    Removed,
    Renamed,
    Modified,
    Breaking,
    NewDependencies,
    RemovedDependencies,
}

/// Whether a symbol change counts toward `t`: by its change type, or for
/// `Breaking` by its severity.
pub open spec fn counts_change(c: SymbolChange, t: Tally) -> bool {
    match t {
        Tally::Added => c.change_type@ == "added"@,
        Tally::Removed => c.change_type@ == "removed"@,
        Tally::Renamed => c.change_type@ == "renamed"@,
        Tally::Modified => c.change_type@ == "modified"@,
        Tally::Breaking => c.severity@ == "breaking"@,
        _ => false,
    }
}

/// Whether an import change counts toward `t`.
pub open spec fn counts_import(c: ImportChange, t: Tally) -> bool {
    match t {
        Tally::NewDependencies => c.change_type@ == "added"@,
        Tally::RemovedDependencies => c.change_type@ == "removed"@,
        _ => false,
    }
}

pub open spec fn count_changes(cs: Seq<SymbolChange>, t: Tally) -> nat
    decreases cs.len(),
{
    if cs.len() == 0 {
        0
    } else {
        count_changes(cs.drop_last(), t) + if counts_change(cs.last(), t) { 1nat } else { 0nat }
    }
}

pub open spec fn count_imports(cs: Seq<ImportChange>, t: Tally) -> nat
    decreases cs.len(),
{
    if cs.len() == 0 {
        0
    } else {
        count_imports(cs.drop_last(), t) + if counts_import(cs.last(), t) { 1nat } else { 0nat }
    }
}

pub open spec fn file_tally(f: FileDiffResult, t: Tally) -> nat {
    count_changes(f.symbol_changes@, t) + count_imports(f.import_changes@, t)
}

/// The count toward `t` over every file.
pub open spec fn tally(fs: Seq<FileDiffResult>, t: Tally) -> nat
    decreases fs.len(),
{
    if fs.len() == 0 {
        0
    } else {
        tally(fs.drop_last(), t) + file_tally(fs.last(), t)
    }
}

/// The field of a summary that counts toward `t`.
pub open spec fn summary_field(s: DiffSummary, t: Tally) -> usize {
    match t {
        Tally::Added => s.symbols_added,
        Tally::Removed => s.symbols_removed,
        Tally::Renamed => s.symbols_renamed,
        Tally::Modified => s.symbols_modified,
        Tally::Breaking => s.breaking_changes,
        Tally::NewDependencies => s.new_dependencies,
        Tally::RemovedDependencies => s.removed_dependencies,
    }
}

proof fn lemma_tally_prefix(fs: Seq<FileDiffResult>, i: int, t: Tally)
    requires
        0 <= i <= fs.len(),
    ensures
        tally(fs.subrange(0, i), t) <= tally(fs, t),
    decreases fs.len() - i,
{
    if i < fs.len() {
        lemma_tally_prefix(fs, i + 1, t);
        assert(fs.subrange(0, i + 1).drop_last() =~= fs.subrange(0, i));
    } else {
        assert(fs.subrange(0, i) =~= fs);
    }
}

proof fn lemma_changes_prefix(cs: Seq<SymbolChange>, j: int, t: Tally)
    requires
        0 <= j <= cs.len(),
    ensures
        count_changes(cs.subrange(0, j), t) <= count_changes(cs, t),
    decreases cs.len() - j,
{
    if j < cs.len() {
        lemma_changes_prefix(cs, j + 1, t);
        assert(cs.subrange(0, j + 1).drop_last() =~= cs.subrange(0, j));
    } else {
        assert(cs.subrange(0, j) =~= cs);
    }
}

proof fn lemma_imports_prefix(cs: Seq<ImportChange>, j: int, t: Tally)
    requires
        0 <= j <= cs.len(),
    ensures
        count_imports(cs.subrange(0, j), t) <= count_imports(cs, t),
    decreases cs.len() - j,
{
    if j < cs.len() {
        lemma_imports_prefix(cs, j + 1, t);
        assert(cs.subrange(0, j + 1).drop_last() =~= cs.subrange(0, j));
    } else {
        assert(cs.subrange(0, j) =~= cs);
    }
}

fn is_text(s: &String, t: &str) -> (r: bool)
    ensures
        r == (s@ == t@),
{
    crate::naming::same_chars(&chars_of(s.as_str()), &chars_of(t))
}

/// Counts one symbol change.
fn count_change(s: &mut DiffSummary, c: &SymbolChange)
    requires
        forall|t: Tally| #[trigger] summary_field(*old(s), t) + (if counts_change(*c, t) { 1int } else { 0int }) <= usize::MAX,
    ensures
        final(s).total_files_changed == old(s).total_files_changed,
        forall|t: Tally| #[trigger] summary_field(*final(s), t) == summary_field(*old(s), t) + (if counts_change(*c, t) { 1int } else { 0int }),
{
    proof {
        reveal_strlit("added");
        reveal_strlit("removed");
        reveal_strlit("renamed");
        reveal_strlit("modified");
        reveal_strlit("breaking");
        assert(summary_field(*s, Tally::Added) + (if counts_change(*c, Tally::Added) { 1int } else { 0int }) <= usize::MAX);
        assert(summary_field(*s, Tally::Removed) + (if counts_change(*c, Tally::Removed) { 1int } else { 0int }) <= usize::MAX);
        assert(summary_field(*s, Tally::Renamed) + (if counts_change(*c, Tally::Renamed) { 1int } else { 0int }) <= usize::MAX);
        assert(summary_field(*s, Tally::Modified) + (if counts_change(*c, Tally::Modified) { 1int } else { 0int }) <= usize::MAX);
        assert(summary_field(*s, Tally::Breaking) + (if counts_change(*c, Tally::Breaking) { 1int } else { 0int }) <= usize::MAX);
    }
    let ghost s0 = *s;
    proof {
        reveal_strlit("added");
        reveal_strlit("removed");
        reveal_strlit("renamed");
        reveal_strlit("modified");
        assert("added"@.len() != "removed"@.len() && "added"@ != "renamed"@ && "added"@ != "modified"@);
        assert("removed"@.len() != "modified"@.len());
        assert("renamed"@.len() != "modified"@.len());
        assert("removed"@[2] == 'm');
        assert("renamed"@[2] == 'n');
        assert("removed"@ != "renamed"@);
    }
    if is_text(&c.change_type, "added") {
        s.symbols_added = s.symbols_added + 1;
    } else if is_text(&c.change_type, "removed") {
        s.symbols_removed = s.symbols_removed + 1;
    } else if is_text(&c.change_type, "renamed") {
        s.symbols_renamed = s.symbols_renamed + 1;
    } else if is_text(&c.change_type, "modified") {
        s.symbols_modified = s.symbols_modified + 1;
    }
    if is_text(&c.severity, "breaking") {
        s.breaking_changes = s.breaking_changes + 1;
    }
    proof {
        assert forall|t: Tally| #[trigger] summary_field(*s, t) == summary_field(*old(s), t) + (if counts_change(*c, t) { 1int } else { 0int }) by {
            match t {
                Tally::Added => {},
                Tally::Removed => {},
                Tally::Renamed => {},
                Tally::Modified => {},
                Tally::Breaking => {},
                Tally::NewDependencies => {},
                Tally::RemovedDependencies => {},
            }
        }
    }
}

/// Counts one import change.
fn count_import(s: &mut DiffSummary, c: &ImportChange)
    requires
        forall|t: Tally| #[trigger] summary_field(*old(s), t) + (if counts_import(*c, t) { 1int } else { 0int }) <= usize::MAX,
    ensures
        final(s).total_files_changed == old(s).total_files_changed,
        forall|t: Tally| #[trigger] summary_field(*final(s), t) == summary_field(*old(s), t) + (if counts_import(*c, t) { 1int } else { 0int }),
{
    proof {
        reveal_strlit("added");
        reveal_strlit("removed");
        assert(summary_field(*s, Tally::NewDependencies) + (if counts_import(*c, Tally::NewDependencies) { 1int } else { 0int }) <= usize::MAX);
        assert(summary_field(*s, Tally::RemovedDependencies) + (if counts_import(*c, Tally::RemovedDependencies) { 1int } else { 0int }) <= usize::MAX);
    }
    proof {
        reveal_strlit("added");
        reveal_strlit("removed");
        assert("added"@.len() != "removed"@.len());
    }
    if is_text(&c.change_type, "added") {
        s.new_dependencies = s.new_dependencies + 1;
    } else if is_text(&c.change_type, "removed") {
        s.removed_dependencies = s.removed_dependencies + 1;
    }
    proof {
        assert forall|t: Tally| #[trigger] summary_field(*s, t) == summary_field(*old(s), t) + (if counts_import(*c, t) { 1int } else { 0int }) by {
            match t {
                Tally::Added => {},
                Tally::Removed => {},
                Tally::Renamed => {},
                Tally::Modified => {},
                Tally::Breaking => {},
                Tally::NewDependencies => {},
                Tally::RemovedDependencies => {},
            }
        }
    }
}

/// The counts of a diff: files, symbol changes by type, breaking changes, and
/// imports added and removed.
pub fn compute_summary(file_changes: &[FileDiffResult]) -> (r: DiffSummary)
    requires
        forall|t: Tally| #[trigger] tally(file_changes@, t) <= usize::MAX,
    ensures
        r.total_files_changed == file_changes@.len(),
        forall|t: Tally| #[trigger] summary_field(r, t) == tally(file_changes@, t),
{
    let ghost fs = file_changes@;
    let mut s = DiffSummary {
        total_files_changed: file_changes.len(),
        symbols_added: 0,
        symbols_removed: 0,
        symbols_renamed: 0,
        symbols_modified: 0,
        breaking_changes: 0,
        new_dependencies: 0,
        removed_dependencies: 0,
    };
    let mut i: usize = 0;
    proof {
        assert(fs.subrange(0, 0) =~= Seq::<FileDiffResult>::empty());
    }
    while i < file_changes.len()
        invariant
            i <= file_changes.len(),
            fs == file_changes@,
            s.total_files_changed == fs.len(),
            forall|t: Tally| #[trigger] tally(fs, t) <= usize::MAX,
            forall|t: Tally| #[trigger] summary_field(s, t) == tally(fs.subrange(0, i as int), t),
        decreases file_changes.len() - i,
    {
        let f = &file_changes[i];
        let ghost base = s;
        proof {
            assert(fs.subrange(0, i + 1).drop_last() =~= fs.subrange(0, i as int));
            assert(fs.subrange(0, i + 1).last() == *f);
            assert forall|t: Tally| #[trigger] tally(fs.subrange(0, i + 1), t) <= usize::MAX by {
                lemma_tally_prefix(fs, i + 1, t);
            }
        }
        let mut j: usize = 0;
        proof {
            assert(f.symbol_changes@.subrange(0, 0) =~= Seq::<SymbolChange>::empty());
        }
        while j < f.symbol_changes.len()
            invariant
                j <= f.symbol_changes.len(),
                s.total_files_changed == base.total_files_changed,
                forall|t: Tally| #[trigger] tally(fs.subrange(0, i + 1), t) <= usize::MAX,
                fs.subrange(0, i + 1) == fs.subrange(0, i as int).push(*f),
                forall|t: Tally| #[trigger] summary_field(s, t) == summary_field(base, t) + count_changes(f.symbol_changes@.subrange(0, j as int), t),
                forall|t: Tally| #[trigger] summary_field(base, t) == tally(fs.subrange(0, i as int), t),
            decreases f.symbol_changes.len() - j,
        {
            proof {
                let cs = f.symbol_changes@;
                assert(cs.subrange(0, j + 1).drop_last() =~= cs.subrange(0, j as int));
                assert forall|t: Tally| #[trigger] summary_field(s, t) + (if counts_change(cs[j as int], t) { 1int } else { 0int }) <= usize::MAX by {
                    lemma_changes_prefix(cs, j + 1, t);
                    assert(count_changes(cs.subrange(0, j + 1), t) == count_changes(cs.subrange(0, j as int), t) + (if counts_change(cs[j as int], t) { 1nat } else { 0nat }));
                    assert(fs.subrange(0, i + 1).drop_last() =~= fs.subrange(0, i as int));
                    assert(tally(fs.subrange(0, i + 1), t) == tally(fs.subrange(0, i as int), t) + file_tally(*f, t));
                }
            }
            count_change(&mut s, &f.symbol_changes[j]);
            j = j + 1;
        }
        let ghost mid = s;
        proof {
            assert(f.symbol_changes@.subrange(0, j as int) =~= f.symbol_changes@);
            assert(f.import_changes@.subrange(0, 0) =~= Seq::<ImportChange>::empty());
        }
        let mut j: usize = 0;
        while j < f.import_changes.len()
            invariant
                j <= f.import_changes.len(),
                s.total_files_changed == base.total_files_changed,
                forall|t: Tally| #[trigger] tally(fs.subrange(0, i + 1), t) <= usize::MAX,
                fs.subrange(0, i + 1) == fs.subrange(0, i as int).push(*f),
                forall|t: Tally| #[trigger] summary_field(s, t) == summary_field(mid, t) + count_imports(f.import_changes@.subrange(0, j as int), t),
                forall|t: Tally| #[trigger] summary_field(mid, t) == tally(fs.subrange(0, i as int), t) + count_changes(f.symbol_changes@, t),
            decreases f.import_changes.len() - j,
        {
            proof {
                let cs = f.import_changes@;
                assert(cs.subrange(0, j + 1).drop_last() =~= cs.subrange(0, j as int));
                assert forall|t: Tally| #[trigger] summary_field(s, t) + (if counts_import(cs[j as int], t) { 1int } else { 0int }) <= usize::MAX by {
                    lemma_imports_prefix(cs, j + 1, t);
                    assert(count_imports(cs.subrange(0, j + 1), t) == count_imports(cs.subrange(0, j as int), t) + (if counts_import(cs[j as int], t) { 1nat } else { 0nat }));
                    assert(fs.subrange(0, i + 1).drop_last() =~= fs.subrange(0, i as int));
                    assert(tally(fs.subrange(0, i + 1), t) == tally(fs.subrange(0, i as int), t) + file_tally(*f, t));
                }
            }
            count_import(&mut s, &f.import_changes[j]);
            j = j + 1;
        }
        proof {
            assert(f.import_changes@.subrange(0, j as int) =~= f.import_changes@);
            assert forall|t: Tally| #[trigger] summary_field(s, t) == tally(fs.subrange(0, i + 1), t) by {
                assert(tally(fs.subrange(0, i + 1), t) == tally(fs.subrange(0, i as int), t) + file_tally(*f, t));
            }
        }
        i = i + 1;
    }
    proof {
        assert(fs.subrange(0, i as int) =~= fs);
    }
    s
}

// ---------------------------------------------------------------------------
// The changes of one symbol
// ---------------------------------------------------------------------------

/// A documentation change, recorded as a modification with one detail.
pub open spec fn doc_record(old: Symbol, new: Symbol) -> Seq<ChangeView> {
    match doc_change(old, new) {
        Some(d) => seq![
            modified_view(
                old,
                new,
                "compatible"@,
                crate::diff::DetailView {
                    aspect: "documentation"@,
                    change_type: d.change_type,
                    description: d.change_type,
                    old_value: d.old_doc,
                    new_value: d.new_doc,
                    migration_note: None,
                },
            ),
        ],
        None => Seq::empty(),
    }
}

/// The changes between two versions of one symbol: its signature and value changes,
/// then its documentation change as a record of its own.
pub fn diff_symbols(old_sym: &Symbol, new_sym: &Symbol) -> (r: Vec<SymbolChange>)
    ensures
        change_views(r@) == pair_changes(*old_sym, *new_sym) + doc_record(*old_sym, *new_sym),
{
    let mut changes: Vec<SymbolChange> = Vec::new();
    match crate::diff::signature::diff(old_sym, new_sym) {
        Some(v) => {
            proof {
                lemma_sig_views(v@, *old_sym, *new_sym);
            }
            changes = v;
        },
        None => {
            proof {
                assert(change_views(changes@) =~= sig_views(*old_sym, *new_sym, signature_changes(*old_sym, *new_sym)));
            }
        },
    }
    match crate::diff::logic::diff_value(old_sym, new_sym) {
        Some(c) => {
            proof {
                assert(detail_views(c.details@) =~= seq![c.details@[0]@]);
                lemma_push_view(changes@, c);
            }
            changes.push(c);
        },
        None => {},
    }
    proof {
        assert(change_views(changes@) =~= pair_changes(*old_sym, *new_sym));
    }
    let ghost mid = changes@;
    match crate::diff::doc::diff(old_sym, new_sym) {
        Some(d) => {
            let mut sc = SymbolChange::new(
                new_sym.name.clone(),
                new_sym.kind.clone(),
                String::from_str("modified"),
                String::from_str("compatible"),
                Some(old_sym.line_range),
                Some(new_sym.line_range),
                Vec::new(),
            );
            sc.details.push(
                ChangeDetail {
                    aspect: String::from_str("documentation"),
                    change_type: d.change_type.clone(),
                    description: d.change_type.clone(),
                    old_value: copy_opt_string(&d.old_doc),
                    new_value: copy_opt_string(&d.new_doc),
                    migration_note: None,
                },
            );
            proof {
                assert(detail_views(sc.details@) =~= seq![sc.details@[0]@]);
                lemma_push_view(changes@, sc);
            }
            changes.push(sc);
        },
        None => {},
    }
    proof {
        assert(change_views(changes@) =~= pair_changes(*old_sym, *new_sym) + doc_record(*old_sym, *new_sym));
    }
    changes
}

// ---------------------------------------------------------------------------
// A version compared with itself
// ---------------------------------------------------------------------------

proof fn lemma_no_renames(op: Seq<SymbolParam>, n: int)
    requires
        n <= op.len(),
    ensures
        renames_upto(op, op, n).len() == 0,
    decreases n,
{
    if n > 0 {
        lemma_no_renames(op, n - 1);
    }
}

proof fn lemma_no_pair_entries(op: Seq<SymbolParam>, n: int)
    requires
        n <= op.len(),
    ensures
        pair_entries(op, op, n).len() == 0,
    decreases n,
{
    if n > 0 {
        lemma_no_pair_entries(op, n - 1);
    }
}

proof fn lemma_no_name_entries(names: Seq<Seq<char>>, other: Seq<Seq<char>>, renamed: Set<Seq<char>>, removed: bool)
    requires
        forall|k: int| 0 <= k < names.len() ==> other.contains(#[trigger] names[k]),
    ensures
        name_entries(names, other, renamed, removed).len() == 0,
    decreases names.len(),
{
    if names.len() > 0 {
        assert(other.contains(names[names.len() - 1]));
        lemma_no_name_entries(names.drop_last(), other, renamed, removed);
    }
}

proof fn lemma_dedup_keys_within(s: Seq<(Seq<char>, Seq<char>)>)
    ensures
        forall|k: int| 0 <= k < dedup_keys(s).len() ==> s.contains(#[trigger] dedup_keys(s)[k]),
    decreases s.len(),
{
    if s.len() > 0 {
        lemma_dedup_keys_within(s.drop_last());
        let d = dedup_keys(s.drop_last());
        assert forall|k: int| 0 <= k < dedup_keys(s).len() implies s.contains(#[trigger] dedup_keys(s)[k]) by {
            if k < d.len() {
                let x = d[k];
                assert(s.drop_last().contains(x));
                let t = choose|t: int| 0 <= t < s.drop_last().len() && s.drop_last()[t] == x;
                assert(s[t] == x);
            } else {
                assert(s[s.len() - 1] == s.last());
            }
        }
    }
}

proof fn lemma_no_member_entries(keys: Seq<(Seq<char>, Seq<char>)>, other: Seq<(Seq<char>, Seq<char>)>, removed: bool)
    requires
        forall|k: int| 0 <= k < keys.len() ==> other.contains(#[trigger] keys[k]),
    ensures
        member_entries(keys, other, removed).len() == 0,
    decreases keys.len(),
{
    if keys.len() > 0 {
        assert(other.contains(keys[keys.len() - 1]));
        lemma_no_member_entries(keys.drop_last(), other, removed);
    }
}

/// A symbol compared with itself has no signature, value or documentation change.
pub proof fn law_symbol_unchanged(s: Symbol)
    ensures
        signature_changes(s, s).len() == 0,
        !value_changed(s, s),
        doc_change(s, s) is None,
        pair_changes(s, s).len() == 0,
        doc_record(s, s).len() == 0,
{
    match s.params {
        Some(ps) => {
            let op = ps@;
            let names = param_names(op);
            lemma_no_renames(op, op.len() as int);
            lemma_no_pair_entries(op, op.len() as int);
            crate::compat::law_dedup_first(names);
            assert forall|k: int| 0 <= k < dedup_first(names).len() implies names.contains(#[trigger] dedup_first(names)[k]) by {
                assert(dedup_first(names).contains(dedup_first(names)[k]));
            }
            lemma_no_name_entries(dedup_first(names), names, renamed_names(op, op), true);
            lemma_no_name_entries(dedup_first(names), names, renamed_new_names(op, op), false);
        },
        None => {},
    }
    let ks = member_keys(s.children@);
    lemma_dedup_keys_within(ks);
    lemma_no_member_entries(dedup_keys(ks), ks, false);
    lemma_no_member_entries(dedup_keys(ks), ks, true);
}

/// Symbols kept in both versions, each paired with itself, give no change and no
/// documentation change.
proof fn lemma_stable_unchanged(syms: Seq<Symbol>, st: Seq<(usize, usize)>)
    requires
        forall|k: int| 0 <= k < st.len() ==> #[trigger] st[k].0 == st[k].1 && st[k].0 < syms.len(),
    ensures
        stable_changes(syms, syms, st).len() == 0,
        stable_docs(syms, syms, st).len() == 0,
    decreases st.len(),
{
    if st.len() > 0 {
        let k = st.len() - 1;
        assert(st[k].0 == st[k].1);
        lemma_stable_unchanged(syms, st.drop_last());
        law_symbol_unchanged(syms[st.last().0 as int]);
    }
}

proof fn lemma_no_absent_imports(names: Seq<Seq<char>>, other: Seq<Seq<char>>, change_type: Seq<char>)
    requires
        forall|k: int| 0 <= k < names.len() ==> other.contains(#[trigger] names[k]),
    ensures
        absent_imports(names, other, change_type).len() == 0,
    decreases names.len(),
{
    if names.len() > 0 {
        assert(other.contains(names[names.len() - 1]));
        lemma_no_absent_imports(names.drop_last(), other, change_type);
    }
}

/// A file compared with itself, each symbol mapped to itself and the same imports on
/// both sides, has no symbol, documentation or import change.
pub proof fn law_file_unchanged(syms: Seq<Symbol>, m: SymbolMapping, imports: Seq<Seq<char>>)
    requires
        m.renamed@.len() == 0,
        m.added@.len() == 0,
        m.removed@.len() == 0,
        forall|k: int| 0 <= k < m.stable@.len() ==> #[trigger] m.stable@[k].0 == m.stable@[k].1 && m.stable@[k].0 < syms.len(),
    ensures
        file_changes(syms, syms, m, true).len() == 0,
        file_changes(syms, syms, m, false).len() == 0,
        stable_docs(syms, syms, m.stable@).len() == 0,
        import_diff(imports, imports).len() == 0,
{
    lemma_stable_unchanged(syms, m.stable@);
    crate::compat::law_dedup_first(imports);
    assert forall|k: int| 0 <= k < dedup_first(imports).len() implies imports.contains(#[trigger] dedup_first(imports)[k]) by {
        assert(dedup_first(imports).contains(dedup_first(imports)[k]));
    }
    lemma_no_absent_imports(dedup_first(imports), imports, "added"@);
    lemma_no_absent_imports(dedup_first(imports), imports, "removed"@);
}

// ---------------------------------------------------------------------------
// Import changes as set differences
// ---------------------------------------------------------------------------

pub open spec fn import_packages(v: Seq<ImportView>) -> Seq<Seq<char>> {
    v.map_values(|i: ImportView| i.package)
}

proof fn lemma_absent_imports(names: Seq<Seq<char>>, other: Seq<Seq<char>>, change_type: Seq<char>)
    ensures
        import_packages(absent_imports(names, other, change_type)).to_set() == names.to_set().difference(other.to_set()),
        names.no_duplicates() ==> import_packages(absent_imports(names, other, change_type)).no_duplicates(),
        forall|k: int| 0 <= k < absent_imports(names, other, change_type).len() ==>
            #[trigger] absent_imports(names, other, change_type)[k] == import_view(change_type, absent_imports(names, other, change_type)[k].package),
    decreases names.len(),
{
    let a = absent_imports(names, other, change_type);
    if names.len() == 0 {
        assert(import_packages(a).to_set() =~= names.to_set().difference(other.to_set()));
    } else {
        let init = names.drop_last();
        let x = names.last();
        lemma_absent_imports(init, other, change_type);
        let b = absent_imports(init, other, change_type);
        assert(names =~= init.push(x));
        init.lemma_push_to_set_commute(x);
        if other.contains(x) {
            assert(a == b);
            assert(x == names[names.len() - 1]);
            assert(other.to_set().contains(x));
            assert(import_packages(a).to_set() =~= names.to_set().difference(other.to_set()));
            if names.no_duplicates() {
                assert(init.no_duplicates());
            }
        } else {
            assert(a == b.push(import_view(change_type, x)));
            assert(import_packages(a) =~= import_packages(b).push(x));
            import_packages(b).lemma_push_to_set_commute(x);
            assert(!other.to_set().contains(x));
            assert(import_packages(a).to_set() =~= names.to_set().difference(other.to_set()));
            if names.no_duplicates() {
                assert(init.no_duplicates());
                assert(!init.contains(x)) by {
                    if init.contains(x) {
                        let t = choose|t: int| 0 <= t < init.len() && init[t] == x;
                        assert(names[t] == names[names.len() - 1]);
                    }
                }
                assert(!init.to_set().contains(x));
                assert(!import_packages(b).to_set().contains(x));
                assert(!import_packages(b).contains(x)) by {
                    if import_packages(b).contains(x) {
                        let t = choose|t: int| 0 <= t < import_packages(b).len() && import_packages(b)[t] == x;
                        assert(import_packages(b).to_set().contains(import_packages(b)[t]));
                    }
                }
                assert forall|i: int, j: int| 0 <= i < j < import_packages(a).len() implies import_packages(a)[i] != import_packages(a)[j] by {
                    if j == import_packages(a).len() - 1 {
                        assert(import_packages(b)[i] != x) by {
                            if import_packages(b)[i] == x {
                                assert(import_packages(b).contains(x));
                            }
                        }
                    }
                }
            }
        }
        assert forall|k: int| 0 <= k < a.len() implies #[trigger] a[k] == import_view(change_type, a[k].package) by {
            if k < b.len() {
                assert(a[k] == b[k]);
            }
        }
    }
}

/// The import changes of a file are the set differences of its imports: each package
/// that only the new version imports is added once, and each that only the old one
/// imports is removed once.
pub proof fn law_import_changes(olds: Seq<Seq<char>>, news: Seq<Seq<char>>)
    ensures
        ({
            let d = import_diff(olds, news);
            let added = absent_imports(dedup_first(news), olds, "added"@);
            let removed = absent_imports(dedup_first(olds), news, "removed"@);
            &&& d == added + removed
            &&& import_packages(added).to_set() == news.to_set().difference(olds.to_set())
            &&& import_packages(removed).to_set() == olds.to_set().difference(news.to_set())
            &&& import_packages(added).no_duplicates()
            &&& import_packages(removed).no_duplicates()
            &&& forall|k: int| 0 <= k < added.len() ==> #[trigger] added[k] == import_view("added"@, added[k].package)
            &&& forall|k: int| 0 <= k < removed.len() ==> #[trigger] removed[k] == import_view("removed"@, removed[k].package)
        }),
{
    crate::compat::law_dedup_first(news);
    crate::compat::law_dedup_first(olds);
    lemma_absent_imports(dedup_first(news), olds, "added"@);
    lemma_absent_imports(dedup_first(olds), news, "removed"@);
    assert(dedup_first(news).to_set() =~= news.to_set());
    assert(dedup_first(olds).to_set() =~= olds.to_set());
}


proof fn lemma_count_imports_filter(cs: Seq<ImportChange>, t: Tally, pred: spec_fn(ImportChange) -> bool)
    requires
        forall|c: ImportChange| #[trigger] pred(c) == counts_import(c, t),
    ensures
        count_imports(cs, t) == cs.filter(pred).len(),
    decreases cs.len(),
{
    reveal(Seq::filter);
    if cs.len() > 0 {
        lemma_count_imports_filter(cs.drop_last(), t, pred);
        assert(pred(cs.last()) == counts_import(cs.last(), t));
    }
}

proof fn lemma_no_symbol_dependencies(cs: Seq<SymbolChange>, t: Tally)
    requires
        t == Tally::NewDependencies || t == Tally::RemovedDependencies,
    ensures
        count_changes(cs, t) == 0,
    decreases cs.len(),
{
    if cs.len() > 0 {
        lemma_no_symbol_dependencies(cs.drop_last(), t);
    }
}

/// Each file adds to the summary's dependency counts the number of its import
/// changes of type `added` (new dependencies) and of type `removed` (removed
/// dependencies); its symbol changes add nothing to them.
pub proof fn law_dependency_tallies(fs: Seq<FileDiffResult>, f: FileDiffResult)
    ensures
        tally(fs.push(f), Tally::RemovedDependencies) == tally(fs, Tally::RemovedDependencies)
            + f.import_changes@.filter(|c: ImportChange| c.change_type@ == "removed"@).len(),
        tally(fs.push(f), Tally::NewDependencies) == tally(fs, Tally::NewDependencies)
            + f.import_changes@.filter(|c: ImportChange| c.change_type@ == "added"@).len(),
{
    let all = fs.push(f);
    assert(all.drop_last() =~= fs);
    assert(all.last() == f);
    lemma_no_symbol_dependencies(f.symbol_changes@, Tally::RemovedDependencies);
    lemma_no_symbol_dependencies(f.symbol_changes@, Tally::NewDependencies);
    lemma_count_imports_filter(f.import_changes@, Tally::RemovedDependencies, |c: ImportChange| c.change_type@ == "removed"@);
    lemma_count_imports_filter(f.import_changes@, Tally::NewDependencies, |c: ImportChange| c.change_type@ == "added"@);
}


proof fn lemma_count_changes_filter(cs: Seq<SymbolChange>, t: Tally, pred: spec_fn(SymbolChange) -> bool)
    requires
        forall|c: SymbolChange| #[trigger] pred(c) == counts_change(c, t),
    ensures
        count_changes(cs, t) == cs.filter(pred).len(),
    decreases cs.len(),
{
    reveal(Seq::filter);
    if cs.len() > 0 {
        lemma_count_changes_filter(cs.drop_last(), t, pred);
        assert(pred(cs.last()) == counts_change(cs.last(), t));
    }
}

proof fn lemma_no_import_symbols(cs: Seq<ImportChange>, t: Tally)
    requires
        t != Tally::NewDependencies && t != Tally::RemovedDependencies,
    ensures
        count_imports(cs, t) == 0,
    decreases cs.len(),
{
    if cs.len() > 0 {
        lemma_no_import_symbols(cs.drop_last(), t);
    }
}

/// Each file adds to the summary's symbol counts the number of its symbol changes
/// of each type (`added`, `removed`, `renamed`, `modified`) and of severity
/// `breaking`; its import changes add nothing to them.
pub proof fn law_symbol_tallies(fs: Seq<FileDiffResult>, f: FileDiffResult)
    ensures
        tally(fs.push(f), Tally::Added) == tally(fs, Tally::Added)
            + f.symbol_changes@.filter(|c: SymbolChange| c.change_type@ == "added"@).len(),
        tally(fs.push(f), Tally::Removed) == tally(fs, Tally::Removed)
            + f.symbol_changes@.filter(|c: SymbolChange| c.change_type@ == "removed"@).len(),
        tally(fs.push(f), Tally::Renamed) == tally(fs, Tally::Renamed)
            + f.symbol_changes@.filter(|c: SymbolChange| c.change_type@ == "renamed"@).len(),
        tally(fs.push(f), Tally::Modified) == tally(fs, Tally::Modified)
            + f.symbol_changes@.filter(|c: SymbolChange| c.change_type@ == "modified"@).len(),
        tally(fs.push(f), Tally::Breaking) == tally(fs, Tally::Breaking)
            + f.symbol_changes@.filter(|c: SymbolChange| c.severity@ == "breaking"@).len(),
{
    let all = fs.push(f);
    assert(all.drop_last() =~= fs);
    assert(all.last() == f);
    let sc = f.symbol_changes@;
    let ic = f.import_changes@;
    lemma_no_import_symbols(ic, Tally::Added);
    lemma_no_import_symbols(ic, Tally::Removed);
    lemma_no_import_symbols(ic, Tally::Renamed);
    lemma_no_import_symbols(ic, Tally::Modified);
    lemma_no_import_symbols(ic, Tally::Breaking);
    lemma_count_changes_filter(sc, Tally::Added, |c: SymbolChange| c.change_type@ == "added"@);
    lemma_count_changes_filter(sc, Tally::Removed, |c: SymbolChange| c.change_type@ == "removed"@);
    lemma_count_changes_filter(sc, Tally::Renamed, |c: SymbolChange| c.change_type@ == "renamed"@);
    lemma_count_changes_filter(sc, Tally::Modified, |c: SymbolChange| c.change_type@ == "modified"@);
    lemma_count_changes_filter(sc, Tally::Breaking, |c: SymbolChange| c.severity@ == "breaking"@);
}

} // verus!
