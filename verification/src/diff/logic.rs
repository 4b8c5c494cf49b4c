//! Changes of a symbol's value.
use vstd::prelude::*;
use crate::compat::{copy_opt_string, opt_view};
use crate::diff::{ChangeDetail, SymbolChange};
use crate::diff::signature::{cat3, detail};
use crate::symbols::Symbol;
use crate::text::{chars_of, push_all, string_of};

verus! {

/// The text of an optional value, empty when there is none.
pub open spec fn or_empty(t: Option<Seq<char>>) -> Seq<char> {
    match t {
        Some(x) => x,
        None => Seq::empty(),
    }
}

/// Kinds of symbol whose value is tracked.
pub open spec fn has_value_kind(kind: Seq<char>) -> bool {
    kind == "const"@ || kind == "variable"@ || kind == "static"@
}

/// A value change is reported when the values differ on a const, variable or static.
pub open spec fn value_changed(old: Symbol, new: Symbol) -> bool {
    opt_view(old.value) != opt_view(new.value) && has_value_kind(old.kind@)
}

/// The reported change of value, as a record of the new symbol.
pub open spec fn is_value_change(c: SymbolChange, old: Symbol, new: Symbol) -> bool {
    &&& c.symbol@ == new.name@
    &&& c.kind@ == new.kind@
    &&& c.change_type@ == "modified"@
    &&& c.severity@ == "compatible"@
    &&& c.old_line_range == Some(old.line_range)
    &&& c.new_line_range == Some(new.line_range)
    &&& c.old_name is None && c.rename_confidence is None && c.old_source is None && c.new_source is None
    &&& c.target_file is None && c.target_symbol is None && c.target_child is None && c.target_line_range is None
    &&& c.details@.len() == 1
    &&& c.details@[0]@ == detail(
        "value"@,
        "changed"@,
        "value changed from '"@ + or_empty(opt_view(old.value)) + "' to '"@ + or_empty(opt_view(new.value)) + "'"@,
        opt_view(old.value),
        opt_view(new.value),
    )
}

fn text_or_empty(o: &Option<String>) -> (r: &str)
    ensures
        r@ == or_empty(opt_view(*o)),
{
    match o {
        Some(s) => s.as_str(),
        None => {
            proof {
                reveal_strlit("");
            }
            ""
        },
    }
}

/// The change of value between two versions of a const, variable or static.
pub fn diff_value(old: &Symbol, new: &Symbol) -> (r: Option<SymbolChange>)
    ensures
        r is Some <==> value_changed(*old, *new),
        r matches Some(c) ==> is_value_change(c, *old, *new),
{
    let kind = chars_of(old.kind.as_str());
    let same = match (&old.value, &new.value) {
        (Some(a), Some(b)) => crate::naming::same_chars(&chars_of(a.as_str()), &chars_of(b.as_str())),
        (None, None) => true,
        _ => false,
    };
    let tracked_kind = crate::naming::same_chars(&kind, &chars_of("const")) || crate::naming::same_chars(
        &kind,
        &chars_of("variable"),
    ) || crate::naming::same_chars(&kind, &chars_of("static"));
    if !same && tracked_kind {
        let mut d = cat3("value changed from '", text_or_empty(&old.value), "' to '");
        push_all(&mut d, &cat3(text_or_empty(&new.value), "'", ""));
        proof {
            reveal_strlit("");
        }
        let det = ChangeDetail {
            aspect: String::from_str("value"),
            change_type: String::from_str("changed"),
            description: string_of(&d),
            old_value: copy_opt_string(&old.value),
            new_value: copy_opt_string(&new.value),
            migration_note: None,
        };
        let c = SymbolChange::new(
            new.name.clone(),
            new.kind.clone(),
            String::from_str("modified"),
            String::from_str("compatible"),
            Some(old.line_range),
            Some(new.line_range),
            vec![det],
        );
        proof {
            assert(c.details@[0]@.description =~= "value changed from '"@ + or_empty(opt_view(old.value)) + "' to '"@
                + or_empty(opt_view(new.value)) + "'"@);
        }
        Some(c)
    } else {
        None
    }
}

/// Body changes are not tracked: there is never one to report.
pub fn diff_body(old: &Symbol, new: &Symbol) -> (r: Option<Vec<SymbolChange>>)
    ensures
        r is None,
{
    None
}

} // verus!
