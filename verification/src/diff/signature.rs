//! Changes of a symbol's signature: parameters, return type, `async`, members.
use vstd::prelude::*;
use crate::compat::{dedup_first, opt_view};
use crate::diff::{ChangeDetail, DetailView, SymbolChange};
use crate::symbols::{Symbol, SymbolParam};
use crate::text::{chars_of, push_all, string_of};

verus! {

/// One signature change: its severity and what changed.
pub type SigEntry = (Seq<char>, DetailView);

pub open spec fn detail(
    aspect: Seq<char>,
    change_type: Seq<char>,
    description: Seq<char>,
    old_value: Option<Seq<char>>,
    new_value: Option<Seq<char>>,
) -> DetailView {
    DetailView { aspect, change_type, description, old_value, new_value, migration_note: None }
}


pub open spec fn param_names(ps: Seq<SymbolParam>) -> Seq<Seq<char>> {
    ps.map_values(|p: SymbolParam| p.name@)
}

pub open spec fn min_len(a: int, b: int) -> int {
    if a <= b { a } else { b }
}

/// Position `i` holds a pure rename: another name, the same type.
pub open spec fn renamed_at(op: Seq<SymbolParam>, np: Seq<SymbolParam>, i: int) -> bool {
    op[i].name@ != np[i].name@ && op[i].ty@ == np[i].ty@
}

/// The pure renames among the first `n` positions.
pub open spec fn renames_upto(op: Seq<SymbolParam>, np: Seq<SymbolParam>, n: int) -> Seq<SigEntry>
    decreases n,
{
    if n <= 0 {
        Seq::empty()
    } else {
        let r = renames_upto(op, np, n - 1);
        let i = n - 1;
        if renamed_at(op, np, i) {
            r.push(
                (
                    "compatible"@,
                    detail(
                        "signature"@,
                        "renamed"@,
                        "parameter '"@ + op[i].name@ + "' renamed to '"@ + np[i].name@ + "'"@,
                        Some(op[i].name@),
                        Some(np[i].name@),
                    ),
                ),
            )
        } else {
            r
        }
    }
}

/// The new names of pure renames.
pub open spec fn renamed_new_names(op: Seq<SymbolParam>, np: Seq<SymbolParam>) -> Set<Seq<char>> {
    Set::new(
        |n: Seq<char>|
            exists|i: int| 0 <= i < min_len(op.len() as int, np.len() as int) && #[trigger] np[i].name@ == n && renamed_at(op, np, i),
    )
}

/// The old names of pure renames.
pub open spec fn renamed_names(op: Seq<SymbolParam>, np: Seq<SymbolParam>) -> Set<Seq<char>> {
    Set::new(
        |n: Seq<char>|
            exists|i: int| 0 <= i < min_len(op.len() as int, np.len() as int) && #[trigger] op[i].name@ == n && renamed_at(op, np, i),
    )
}

/// Entries for the names of `names` that `other` lacks and that no pure rename covers.
pub open spec fn name_entries(
    names: Seq<Seq<char>>,
    other: Seq<Seq<char>>,
    renamed: Set<Seq<char>>,
    removed: bool,
) -> Seq<SigEntry>
    decreases names.len(),
{
    if names.len() == 0 {
        Seq::empty()
    } else {
        let r = name_entries(names.drop_last(), other, renamed, removed);
        let n = names.last();
        if !other.contains(n) && !renamed.contains(n) {
            r.push(
                if removed {
                    ("compatible"@, detail("signature"@, "removed"@, "parameter '"@ + n + "' removed"@, Some(n), None))
                } else {
                    ("compatible"@, detail("signature"@, "added"@, "parameter '"@ + n + "' added"@, None, Some(n)))
                },
            )
        } else {
            r
        }
    }
}

pub open spec fn optional_word(b: bool) -> Seq<char> {
    if b { "optional"@ } else { "not optional"@ }
}

/// Type and optionality changes of the first `n` positions.
pub open spec fn pair_entries(op: Seq<SymbolParam>, np: Seq<SymbolParam>, n: int) -> Seq<SigEntry>
    decreases n,
{
    if n <= 0 {
        Seq::empty()
    } else {
        let r = pair_entries(op, np, n - 1);
        let i = n - 1;
        let o = op[i];
        let w = np[i];
        let r1 = if o.ty@ != w.ty@ {
            r.push(
                (
                    "breaking"@,
                    detail(
                        "signature"@,
                        "changed"@,
                        "parameter '"@ + o.name@ + "' type changed from '"@ + o.ty@ + "' to '"@ + w.ty@ + "'"@,
                        Some(o.ty@),
                        Some(w.ty@),
                    ),
                ),
            )
        } else {
            r
        };
        if o.optional != w.optional {
            r1.push(
                (
                    "compatible"@,
                    detail(
                        "signature"@,
                        "changed"@,
                        "parameter '"@ + o.name@ + "' became "@ + (if w.optional { "optional"@ } else { "required"@ }),
                        Some(optional_word(o.optional)),
                        Some(optional_word(w.optional)),
                    ),
                ),
            )
        } else {
            r1
        }
    }
}

/// The parameter changes between two parameter lists. A pure rename (another name
/// at the same position, the same type) is one compatible entry, in place of the
/// removal of its old name and the addition of its new one.
pub open spec fn param_entries(op: Seq<SymbolParam>, np: Seq<SymbolParam>) -> Seq<SigEntry> {
    renames_upto(op, np, min_len(op.len() as int, np.len() as int))
        + name_entries(dedup_first(param_names(op)), param_names(np), renamed_names(op, np), true)
        + name_entries(dedup_first(param_names(np)), param_names(op), renamed_new_names(op, np), false)
        + pair_entries(op, np, min_len(op.len() as int, np.len() as int))
}

pub open spec fn or_void(t: Option<Seq<char>>) -> Seq<char> {
    match t {
        Some(x) => x,
        None => "void"@,
    }
}

pub open spec fn return_entries(old: Symbol, new: Symbol) -> Seq<SigEntry> {
    let o = opt_view(old.return_type);
    let n = opt_view(new.return_type);
    if o != n {
        seq![
            (
                "breaking"@,
                detail(
                    "signature"@,
                    "changed"@,
                    "return type changed from '"@ + or_void(o) + "' to '"@ + or_void(n) + "'"@,
                    o,
                    n,
                ),
            ),
        ]
    } else {
        Seq::empty()
    }
}

pub open spec fn is_async_word(b: bool) -> Seq<char> {
    if b { "is_async"@ } else { "not is_async"@ }
}

pub open spec fn unwrap_false(b: Option<bool>) -> bool {
    match b {
        Some(x) => x,
        None => false,
    }
}

pub open spec fn async_entries(old: Symbol, new: Symbol) -> Seq<SigEntry> {
    if old.is_async != new.is_async {
        seq![
            (
                "breaking"@,
                detail(
                    "signature"@,
                    "changed"@,
                    "function "@ + (if unwrap_false(new.is_async) { "became"@ } else { "is no longer"@ }) + " is_async"@,
                    Some(is_async_word(unwrap_false(old.is_async))),
                    Some(is_async_word(unwrap_false(new.is_async))),
                ),
            ),
        ]
    } else {
        Seq::empty()
    }
}

/// `s` without repetitions, each element kept at its first occurrence.
pub open spec fn dedup_keys(s: Seq<(Seq<char>, Seq<char>)>) -> Seq<(Seq<char>, Seq<char>)>
    decreases s.len(),
{
    if s.len() == 0 {
        Seq::empty()
    } else {
        let d = dedup_keys(s.drop_last());
        if d.contains(s.last()) {
            d
        } else {
            d.push(s.last())
        }
    }
}

/// The (kind, name) of each member.
pub open spec fn member_keys(cs: Seq<Symbol>) -> Seq<(Seq<char>, Seq<char>)> {
    cs.map_values(|c: Symbol| (c.kind@, c.name@))
}

/// Entries for the members of `keys` that `other` lacks.
pub open spec fn member_entries(
    keys: Seq<(Seq<char>, Seq<char>)>,
    other: Seq<(Seq<char>, Seq<char>)>,
    removed: bool,
) -> Seq<SigEntry>
    decreases keys.len(),
{
    if keys.len() == 0 {
        Seq::empty()
    } else {
        let r = member_entries(keys.drop_last(), other, removed);
        let (kind, name) = keys.last();
        if !other.contains(keys.last()) {
            r.push(
                if removed {
                    ("breaking"@, detail(kind, "removed"@, kind + " '"@ + name + "' removed"@, Some(name), None))
                } else {
                    ("compatible"@, detail(kind, "added"@, kind + " '"@ + name + "' added"@, None, Some(name)))
                },
            )
        } else {
            r
        }
    }
}

/// Every signature change between two versions of a symbol, in this order:
/// parameter renames, removed and added parameters (when both versions list
/// parameters), type and optionality changes, the return type, `async`, added
/// members, removed members.
pub open spec fn signature_changes(old: Symbol, new: Symbol) -> Seq<SigEntry> {
    let params = match (old.params, new.params) {
        (Some(op), Some(np)) => param_entries(op@, np@),
        _ => Seq::empty(),
    };
    let ok = member_keys(old.children@);
    let nk = member_keys(new.children@);
    params + return_entries(old, new) + async_entries(old, new) + member_entries(dedup_keys(nk), ok, false)
        + member_entries(dedup_keys(ok), nk, true)
}

/// The severity and detail of each change.
pub open spec fn entries_of(v: Seq<SymbolChange>) -> Seq<SigEntry> {
    v.map_values(|c: SymbolChange| (c.severity@, c.details@[0]@))
}

/// A change of `new` with one detail, as every signature change is.
pub open spec fn is_signature_change(c: SymbolChange, old: Symbol, new: Symbol) -> bool {
    &&& c.symbol@ == new.name@
    &&& c.kind@ == new.kind@
    &&& c.change_type@ == "modified"@
    &&& c.old_line_range == Some(old.line_range)
    &&& c.new_line_range == Some(new.line_range)
    &&& c.details@.len() == 1
    &&& c.old_name is None && c.rename_confidence is None && c.old_source is None && c.new_source is None
    &&& c.target_file is None && c.target_symbol is None && c.target_child is None && c.target_line_range is None
}

// ---------------------------------------------------------------------------
// Building the changes
// ---------------------------------------------------------------------------

pub(crate) fn cat3(a: &str, b: &str, c: &str) -> (r: Vec<char>)
    ensures
        r@ == a@ + b@ + c@,
{
    let mut v = chars_of(a);
    push_all(&mut v, &chars_of(b));
    push_all(&mut v, &chars_of(c));
    v
}

fn opt_copy(o: &Option<String>) -> (r: Option<String>)
    ensures
        opt_view(r) == opt_view(*o),
{
    crate::compat::copy_opt_string(o)
}

/// Record the change `(severity, detail)` of `now`.
fn push_change(
    out: &mut Vec<SymbolChange>,
    was: &Symbol,
    now: &Symbol,
    severity: &str,
    aspect: String,
    change_type: &str,
    description: Vec<char>,
    old_value: Option<String>,
    new_value: Option<String>,
)
    requires
        forall|j: int| 0 <= j < old(out).len() ==> is_signature_change(#[trigger] old(out)@[j], *was, *now),
    ensures
        forall|j: int| 0 <= j < final(out).len() ==> is_signature_change(#[trigger] final(out)@[j], *was, *now),
        entries_of(final(out)@) == entries_of(old(out)@).push(
            (severity@, detail(aspect@, change_type@, description@, opt_view(old_value), opt_view(new_value))),
        ),
{
    let d = ChangeDetail {
        aspect,
        change_type: String::from_str(change_type),
        description: string_of(&description),
        old_value,
        new_value,
        migration_note: None,
    };
    let c = SymbolChange::new(
        now.name.clone(),
        now.kind.clone(),
        String::from_str("modified"),
        String::from_str(severity),
        Some(was.line_range),
        Some(now.line_range),
        vec![d],
    );
    let ghost before = entries_of(out@);
    proof {
        reveal_strlit("modified");
    }
    out.push(c);
    proof {
        assert(entries_of(out@) =~= before.push(
            (severity@, detail(aspect@, change_type@, description@, opt_view(old_value), opt_view(new_value))),
        ));
    }
}

fn params_of(p: &Vec<SymbolParam>) -> (r: Vec<String>)
    ensures
        crate::text::views(r@) == param_names(p@),
{
    let mut r: Vec<String> = Vec::new();
    let mut k: usize = 0;
    while k < p.len()
        invariant
            k <= p.len(),
            crate::text::views(r@) == param_names(p@).subrange(0, k as int),
        decreases p.len() - k,
    {
        let ghost before = crate::text::views(r@);
        let c = p[k].name.clone();
        r.push(c);
        k = k + 1;
        proof {
            assert(crate::text::views(r@) =~= before.push(p@[k - 1].name@));
            assert(crate::text::views(r@) =~= param_names(p@).subrange(0, k as int));
        }
    }
    proof {
        assert(param_names(p@).subrange(0, k as int) =~= param_names(p@));
    }
    r
}

fn push_renames(out: &mut Vec<SymbolChange>, was: &Symbol, now: &Symbol, op: &Vec<SymbolParam>, np: &Vec<SymbolParam>) -> (r: (Vec<String>, Vec<String>))
    requires
        forall|j: int| 0 <= j < old(out).len() ==> is_signature_change(#[trigger] old(out)@[j], *was, *now),
    ensures
        forall|j: int| 0 <= j < final(out).len() ==> is_signature_change(#[trigger] final(out)@[j], *was, *now),
        entries_of(final(out)@) == entries_of(old(out)@) + renames_upto(op@, np@, min_len(op.len() as int, np.len() as int)),
        crate::text::views(r.0@).to_set() == renamed_names(op@, np@),
        crate::text::views(r.1@).to_set() == renamed_new_names(op@, np@),
{
    let m = if op.len() <= np.len() { op.len() } else { np.len() };
    let ghost e0 = entries_of(out@);
    let mut renamed: Vec<String> = Vec::new();
    let mut renamed_new: Vec<String> = Vec::new();
    let mut i: usize = 0;
    proof {
        assert(crate::text::views(renamed@).to_set() =~= Set::<Seq<char>>::empty());
        assert(crate::text::views(renamed_new@).to_set() =~= Set::<Seq<char>>::empty());
        assert(e0 + renames_upto(op@, np@, 0) =~= e0);
    }
    while i < m
        invariant
            i <= m,
            m == min_len(op.len() as int, np.len() as int),
            forall|j: int| 0 <= j < out.len() ==> is_signature_change(#[trigger] out@[j], *was, *now),
            entries_of(out@) == e0 + renames_upto(op@, np@, i as int),
            crate::text::views(renamed@).to_set() == Set::new(
                |n: Seq<char>| exists|j: int| 0 <= j < i && #[trigger] op@[j].name@ == n && renamed_at(op@, np@, j),
            ),
            crate::text::views(renamed_new@).to_set() == Set::new(
                |n: Seq<char>| exists|j: int| 0 <= j < i && #[trigger] np@[j].name@ == n && renamed_at(op@, np@, j),
            ),
        decreases m - i,
    {
        let ghost prev_new = Set::new(
            |n: Seq<char>| exists|j: int| 0 <= j < i && #[trigger] np@[j].name@ == n && renamed_at(op@, np@, j),
        );
        let ghost next_new = Set::new(
            |n: Seq<char>| exists|j: int| 0 <= j < i + 1 && #[trigger] np@[j].name@ == n && renamed_at(op@, np@, j),
        );
        let ghost prev = Set::new(
            |n: Seq<char>| exists|j: int| 0 <= j < i && #[trigger] op@[j].name@ == n && renamed_at(op@, np@, j),
        );
        let ghost next = Set::new(
            |n: Seq<char>| exists|j: int| 0 <= j < i + 1 && #[trigger] op@[j].name@ == n && renamed_at(op@, np@, j),
        );
        let on = &op[i].name;
        let nn = &np[i].name;
        let differ = !crate::naming::same_chars(&chars_of(on.as_str()), &chars_of(nn.as_str()));
        let same_ty = crate::naming::same_chars(&chars_of(op[i].ty.as_str()), &chars_of(np[i].ty.as_str()));
        if differ && same_ty {
            let mut d = cat3("parameter '", on.as_str(), "' renamed to '");
            push_all(&mut d, &cat3(nn.as_str(), "'", ""));
            proof {
                reveal_strlit("");
                assert(d@ =~= "parameter '"@ + op@[i as int].name@ + "' renamed to '"@ + np@[i as int].name@ + "'"@);
            }
            push_change(out, was, now, "compatible", String::from_str("signature"), "renamed", d, Some(on.clone()), Some(nn.clone()));
            let ghost before = crate::text::views(renamed@);
            renamed.push(on.clone());
            proof {
                assert(crate::text::views(renamed@) =~= before.push(op@[i as int].name@));
                before.lemma_push_to_set_commute(op@[i as int].name@);
                assert(next =~= prev.insert(op@[i as int].name@));
            }
            let ghost before_new = crate::text::views(renamed_new@);
            renamed_new.push(nn.clone());
            proof {
                assert(crate::text::views(renamed_new@) =~= before_new.push(np@[i as int].name@));
                before_new.lemma_push_to_set_commute(np@[i as int].name@);
                assert(next_new =~= prev_new.insert(np@[i as int].name@));
            }
        } else {
            proof {
                assert(next =~= prev);
                assert(next_new =~= prev_new);
            }
        }
        i = i + 1;
    }
    proof {
        assert(crate::text::views(renamed@).to_set() =~= renamed_names(op@, np@));
        assert(crate::text::views(renamed_new@).to_set() =~= renamed_new_names(op@, np@));
    }
    (renamed, renamed_new)
}

fn push_names(
    out: &mut Vec<SymbolChange>,
    was: &Symbol,
    now: &Symbol,
    names: &Vec<String>,
    other: &Vec<String>,
    renamed: &Vec<String>,
    removed: bool,
)
    requires
        forall|j: int| 0 <= j < old(out).len() ==> is_signature_change(#[trigger] old(out)@[j], *was, *now),
    ensures
        forall|j: int| 0 <= j < final(out).len() ==> is_signature_change(#[trigger] final(out)@[j], *was, *now),
        entries_of(final(out)@) == entries_of(old(out)@) + name_entries(
            crate::text::views(names@),
            crate::text::views(other@),
            crate::text::views(renamed@).to_set(),
            removed,
        ),
{
    let ghost e0 = entries_of(out@);
    let ghost ns = crate::text::views(names@);
    let ghost os = crate::text::views(other@);
    let ghost rs = crate::text::views(renamed@).to_set();
    let mut k: usize = 0;
    proof {
        assert(ns.subrange(0, 0) =~= Seq::<Seq<char>>::empty());
        assert(e0 + name_entries(ns.subrange(0, 0), os, rs, removed) =~= e0);
    }
    while k < names.len()
        invariant
            k <= names.len(),
            ns == crate::text::views(names@),
            os == crate::text::views(other@),
            rs == crate::text::views(renamed@).to_set(),
            forall|j: int| 0 <= j < out.len() ==> is_signature_change(#[trigger] out@[j], *was, *now),
            entries_of(out@) == e0 + name_entries(ns.subrange(0, k as int), os, rs, removed),
        decreases names.len() - k,
    {
        let n = &names[k];
        proof {
            assert(ns.subrange(0, k + 1).drop_last() =~= ns.subrange(0, k as int));
            assert(ns.subrange(0, k + 1).last() == n@);
            assert(rs.contains(n@) == crate::text::views(renamed@).contains(n@));
        }
        if !crate::graph::contains_string(other, n) && !crate::graph::contains_string(renamed, n) {
            let ghost before = entries_of(out@);
            if removed {
                let d = cat3("parameter '", n.as_str(), "' removed");
                push_change(out, was, now, "compatible", String::from_str("signature"), "removed", d, Some(n.clone()), None);
            } else {
                let d = cat3("parameter '", n.as_str(), "' added");
                push_change(out, was, now, "compatible", String::from_str("signature"), "added", d, None, Some(n.clone()));
            }
            proof {
                assert(entries_of(out@) =~= e0 + name_entries(ns.subrange(0, k + 1), os, rs, removed));
            }
        }
        k = k + 1;
    }
    proof {
        assert(ns.subrange(0, k as int) =~= ns);
    }
}

fn push_pairs(out: &mut Vec<SymbolChange>, was: &Symbol, now: &Symbol, op: &Vec<SymbolParam>, np: &Vec<SymbolParam>)
    requires
        forall|j: int| 0 <= j < old(out).len() ==> is_signature_change(#[trigger] old(out)@[j], *was, *now),
    ensures
        forall|j: int| 0 <= j < final(out).len() ==> is_signature_change(#[trigger] final(out)@[j], *was, *now),
        entries_of(final(out)@) == entries_of(old(out)@) + pair_entries(op@, np@, min_len(op.len() as int, np.len() as int)),
{
    let m = if op.len() <= np.len() { op.len() } else { np.len() };
    let ghost e0 = entries_of(out@);
    let mut i: usize = 0;
    proof {
        assert(e0 + pair_entries(op@, np@, 0) =~= e0);
    }
    while i < m
        invariant
            i <= m,
            m == min_len(op.len() as int, np.len() as int),
            forall|j: int| 0 <= j < out.len() ==> is_signature_change(#[trigger] out@[j], *was, *now),
            entries_of(out@) == e0 + pair_entries(op@, np@, i as int),
        decreases m - i,
    {
        let o = &op[i];
        let w = &np[i];
        let ghost mid = e0 + pair_entries(op@, np@, i as int);
        if !crate::naming::same_chars(&chars_of(o.ty.as_str()), &chars_of(w.ty.as_str())) {
            let mut d = cat3("parameter '", o.name.as_str(), "' type changed from '");
            push_all(&mut d, &cat3(o.ty.as_str(), "' to '", w.ty.as_str()));
            push_all(&mut d, &chars_of("'"));
            proof {
                assert(d@ =~= "parameter '"@ + o.name@ + "' type changed from '"@ + o.ty@ + "' to '"@ + w.ty@ + "'"@);
            }
            push_change(out, was, now, "breaking", String::from_str("signature"), "changed", d, Some(o.ty.clone()), Some(w.ty.clone()));
        }
        if o.optional != w.optional {
            let d = cat3("parameter '", o.name.as_str(), if w.optional { "' became optional" } else { "' became required" });
            proof {
                reveal_strlit("' became optional");
                reveal_strlit("' became required");
                reveal_strlit("' became ");
                reveal_strlit("optional");
                reveal_strlit("required");
                assert(d@ =~= "parameter '"@ + o.name@ + "' became "@ + (if w.optional { "optional"@ } else { "required"@ }));
            }
            let ov = if o.optional { String::from_str("optional") } else { String::from_str("not optional") };
            let nv = if w.optional { String::from_str("optional") } else { String::from_str("not optional") };
            push_change(out, was, now, "compatible", String::from_str("signature"), "changed", d, Some(ov), Some(nv));
        }
        proof {
            assert(entries_of(out@) =~= e0 + pair_entries(op@, np@, i + 1));
        }
        i = i + 1;
    }
}

fn member_keys_exec(cs: &Vec<Symbol>) -> (r: Vec<(String, String)>)
    ensures
        crate::matrix::str_pairs(r@) == member_keys(cs@),
{
    let mut r: Vec<(String, String)> = Vec::new();
    let mut k: usize = 0;
    while k < cs.len()
        invariant
            k <= cs.len(),
            crate::matrix::str_pairs(r@) == member_keys(cs@).subrange(0, k as int),
        decreases cs.len() - k,
    {
        let ghost before = crate::matrix::str_pairs(r@);
        let a = cs[k].kind.clone();
        let b = cs[k].name.clone();
        r.push((a, b));
        k = k + 1;
        proof {
            assert(crate::matrix::str_pairs(r@) =~= before.push((cs@[k - 1].kind@, cs@[k - 1].name@)));
            assert(crate::matrix::str_pairs(r@) =~= member_keys(cs@).subrange(0, k as int));
        }
    }
    proof {
        assert(member_keys(cs@).subrange(0, k as int) =~= member_keys(cs@));
    }
    r
}

fn contains_key(v: &Vec<(String, String)>, k: &(String, String)) -> (r: bool)
    ensures
        r == crate::matrix::str_pairs(v@).contains((k.0@, k.1@)),
{
    let a = chars_of(k.0.as_str());
    let b = chars_of(k.1.as_str());
    let mut i: usize = 0;
    while i < v.len()
        invariant
            i <= v.len(),
            a@ == k.0@,
            b@ == k.1@,
            forall|j: int| 0 <= j < i ==> #[trigger] crate::matrix::str_pairs(v@)[j] != (k.0@, k.1@),
        decreases v.len() - i,
    {
        if crate::naming::same_chars(&chars_of(v[i].0.as_str()), &a) && crate::naming::same_chars(&chars_of(v[i].1.as_str()), &b) {
            proof {
                assert(crate::matrix::str_pairs(v@)[i as int] == (k.0@, k.1@));
            }
            return true;
        }
        proof {
            assert(crate::matrix::str_pairs(v@)[i as int] == (v@[i as int].0@, v@[i as int].1@));
        }
        i = i + 1;
    }
    false
}

fn dedup_keys_exec(v: &Vec<(String, String)>) -> (r: Vec<(String, String)>)
    ensures
        crate::matrix::str_pairs(r@) == dedup_keys(crate::matrix::str_pairs(v@)),
{
    let ghost s = crate::matrix::str_pairs(v@);
    let mut r: Vec<(String, String)> = Vec::new();
    let mut k: usize = 0;
    proof {
        assert(s.subrange(0, 0) =~= Seq::<(Seq<char>, Seq<char>)>::empty());
        assert(crate::matrix::str_pairs(r@) =~= Seq::<(Seq<char>, Seq<char>)>::empty());
    }
    while k < v.len()
        invariant
            k <= v.len(),
            s == crate::matrix::str_pairs(v@),
            crate::matrix::str_pairs(r@) == dedup_keys(s.subrange(0, k as int)),
        decreases v.len() - k,
    {
        proof {
            assert(s.subrange(0, k + 1).drop_last() =~= s.subrange(0, k as int));
            assert(s.subrange(0, k + 1).last() == (v@[k as int].0@, v@[k as int].1@));
        }
        if !contains_key(&r, &v[k]) {
            let ghost before = crate::matrix::str_pairs(r@);
            let a = v[k].0.clone();
            let b = v[k].1.clone();
            r.push((a, b));
            proof {
                assert(crate::matrix::str_pairs(r@) =~= before.push((v@[k as int].0@, v@[k as int].1@)));
            }
        }
        k = k + 1;
    }
    proof {
        assert(s.subrange(0, k as int) =~= s);
    }
    r
}

fn push_members(
    out: &mut Vec<SymbolChange>,
    was: &Symbol,
    now: &Symbol,
    keys: &Vec<(String, String)>,
    other: &Vec<(String, String)>,
    removed: bool,
)
    requires
        forall|j: int| 0 <= j < old(out).len() ==> is_signature_change(#[trigger] old(out)@[j], *was, *now),
    ensures
        forall|j: int| 0 <= j < final(out).len() ==> is_signature_change(#[trigger] final(out)@[j], *was, *now),
        entries_of(final(out)@) == entries_of(old(out)@) + member_entries(
            crate::matrix::str_pairs(keys@),
            crate::matrix::str_pairs(other@),
            removed,
        ),
{
    let ghost e0 = entries_of(out@);
    let ghost ks = crate::matrix::str_pairs(keys@);
    let ghost os = crate::matrix::str_pairs(other@);
    let mut k: usize = 0;
    proof {
        assert(ks.subrange(0, 0) =~= Seq::<(Seq<char>, Seq<char>)>::empty());
        assert(e0 + member_entries(ks.subrange(0, 0), os, removed) =~= e0);
    }
    while k < keys.len()
        invariant
            k <= keys.len(),
            ks == crate::matrix::str_pairs(keys@),
            os == crate::matrix::str_pairs(other@),
            forall|j: int| 0 <= j < out.len() ==> is_signature_change(#[trigger] out@[j], *was, *now),
            entries_of(out@) == e0 + member_entries(ks.subrange(0, k as int), os, removed),
        decreases keys.len() - k,
    {
        let kind = &keys[k].0;
        let name = &keys[k].1;
        proof {
            assert(ks.subrange(0, k + 1).drop_last() =~= ks.subrange(0, k as int));
            assert(ks.subrange(0, k + 1).last() == (kind@, name@));
        }
        if !contains_key(other, &keys[k]) {
            let mut d = cat3(kind.as_str(), " '", name.as_str());
            if removed {
                push_all(&mut d, &chars_of("' removed"));
                proof {
                    assert(d@ =~= kind@ + " '"@ + name@ + "' removed"@);
                }
                push_change(out, was, now, "breaking", kind.clone(), "removed", d, Some(name.clone()), None);
            } else {
                push_all(&mut d, &chars_of("' added"));
                proof {
                    assert(d@ =~= kind@ + " '"@ + name@ + "' added"@);
                }
                push_change(out, was, now, "compatible", kind.clone(), "added", d, None, Some(name.clone()));
            }
            proof {
                assert(entries_of(out@) =~= e0 + member_entries(ks.subrange(0, k + 1), os, removed));
            }
        }
        k = k + 1;
    }
    proof {
        assert(ks.subrange(0, k as int) =~= ks);
    }
}

/// The signature changes between two versions of a symbol, none when they agree.
pub fn diff(old: &Symbol, new: &Symbol) -> (r: Option<Vec<SymbolChange>>)
    ensures
        match r {
            Some(v) => entries_of(v@) == signature_changes(*old, *new) && v.len() > 0
                && forall|j: int| 0 <= j < v.len() ==> is_signature_change(#[trigger] v@[j], *old, *new),
            None => signature_changes(*old, *new).len() == 0,
        },
{
    let mut changes: Vec<SymbolChange> = Vec::new();
    proof {
        assert(entries_of(changes@) =~= Seq::<SigEntry>::empty());
    }
    match (&old.params, &new.params) {
        (Some(op), Some(np)) => {
            let (renamed, renamed_new) = push_renames(&mut changes, old, new, op, np);
            let old_names = params_of(op);
            let new_names = params_of(np);
            let old_distinct = crate::compat::dedup_strings(&old_names);
            let new_distinct = crate::compat::dedup_strings(&new_names);
            push_names(&mut changes, old, new, &old_distinct, &new_names, &renamed, true);
            push_names(&mut changes, old, new, &new_distinct, &old_names, &renamed_new, false);
            push_pairs(&mut changes, old, new, op, np);
            proof {
                assert(entries_of(changes@) =~= param_entries(op@, np@));
            }
        },
        _ => {},
    }
    let ghost after_params = entries_of(changes@);
    let or_same = match (&old.return_type, &new.return_type) {
        (Some(a), Some(b)) => crate::naming::same_chars(&chars_of(a.as_str()), &chars_of(b.as_str())),
        (None, None) => true,
        _ => false,
    };
    if !or_same {
        let o: &str = match &old.return_type {
            Some(a) => a.as_str(),
            None => "void",
        };
        let n: &str = match &new.return_type {
            Some(b) => b.as_str(),
            None => "void",
        };
        let mut d = cat3("return type changed from '", o, "' to '");
        push_all(&mut d, &cat3(n, "'", ""));
        proof {
            reveal_strlit("");
            assert(d@ =~= "return type changed from '"@ + or_void(opt_view(old.return_type)) + "' to '"@
                + or_void(opt_view(new.return_type)) + "'"@);
        }
        push_change(&mut changes, old, new, "breaking", String::from_str("signature"), "changed", d, opt_copy(&old.return_type), opt_copy(&new.return_type));
    }
    proof {
        assert(entries_of(changes@) =~= after_params + return_entries(*old, *new));
    }
    let ghost after_return = entries_of(changes@);
    if old.is_async != new.is_async {
        let became = match new.is_async {
            Some(b) => b,
            None => false,
        };
        let was = match old.is_async {
            Some(b) => b,
            None => false,
        };
        let d = cat3("function ", if became { "became" } else { "is no longer" }, " is_async");
        let ov = if was { String::from_str("is_async") } else { String::from_str("not is_async") };
        let nv = if became { String::from_str("is_async") } else { String::from_str("not is_async") };
        push_change(&mut changes, old, new, "breaking", String::from_str("signature"), "changed", d, Some(ov), Some(nv));
    }
    proof {
        assert(entries_of(changes@) =~= after_return + async_entries(*old, *new));
    }
    let ok = member_keys_exec(&old.children);
    let nk = member_keys_exec(&new.children);
    let nk_distinct = dedup_keys_exec(&nk);
    let ok_distinct = dedup_keys_exec(&ok);
    push_members(&mut changes, old, new, &nk_distinct, &ok, false);
    push_members(&mut changes, old, new, &ok_distinct, &nk, true);
    proof {
        assert(entries_of(changes@) =~= signature_changes(*old, *new));
    }
    if changes.len() == 0 {
        None
    } else {
        Some(changes)
    }
}

} // verus!
