//! Changes of documentation comments.
use vstd::prelude::*;
use crate::compat::opt_view;
use crate::diff::DocChange;
use crate::symbols::Symbol;
use crate::text::{chars_of, has_chars, seq_has, views};

verus! {

/// The value of a [`DocChange`].
pub struct DocView {
    pub change_type: Seq<char>,
    pub symbol: Seq<char>,
    pub is_deprecated: bool,
    pub has_todo: bool,
    pub has_safety_note: bool,
    pub old_doc: Option<Seq<char>>,
    pub new_doc: Option<Seq<char>>,
}

impl View for DocChange {
    type V = DocView;

    open spec fn view(&self) -> DocView {
        DocView {
            change_type: self.change_type@,
            symbol: self.symbol@,
            is_deprecated: self.is_deprecated,
            has_todo: self.has_todo,
            has_safety_note: self.has_safety_note,
            old_doc: opt_view(self.old_doc),
            new_doc: opt_view(self.new_doc),
        }
    }
}

/// The attributes mark the symbol deprecated.
pub open spec fn deprecated(attributes: Seq<Seq<char>>) -> bool {
    exists|i: int| 0 <= i < attributes.len() && (#[trigger] attributes[i] == "#[deprecated]"@ || attributes[i] == "@deprecated"@)
}

/// The documentation holds a `TODO`, `FIXME` or `HACK`.
pub open spec fn notes_todo(doc: Option<Seq<char>>) -> bool {
    match doc {
        Some(d) => seq_has(d, "TODO"@) || seq_has(d, "FIXME"@) || seq_has(d, "HACK"@),
        None => false,
    }
}

/// The documentation speaks of `SAFETY` or `unsafe`.
pub open spec fn notes_safety(doc: Option<Seq<char>>) -> bool {
    match doc {
        Some(d) => seq_has(d, "SAFETY"@) || seq_has(d, "unsafe"@),
        None => false,
    }
}

/// The change of documentation between two versions of a symbol: none when the
/// comment, the deprecation and the todo and safety notes all agree.
pub open spec fn doc_change(old: Symbol, new: Symbol) -> Option<DocView> {
    let od = opt_view(old.doc_comment);
    let nd = opt_view(new.doc_comment);
    let odep = deprecated(views(old.attributes@));
    let ndep = deprecated(views(new.attributes@));
    if od != nd || odep != ndep || notes_todo(od) != notes_todo(nd) || notes_safety(od) != notes_safety(nd) {
        Some(DocView {
            change_type: if od is None && nd is Some {
                "added"@
            } else if od is Some && nd is None {
                "removed"@
            } else {
                "changed"@
            },
            symbol: new.name@,
            is_deprecated: ndep,
            has_todo: notes_todo(nd),
            has_safety_note: notes_safety(nd),
            old_doc: od,
            new_doc: nd,
        })
    } else {
        None
    }
}

fn is_deprecated(attributes: &Vec<String>) -> (r: bool)
    ensures
        r == deprecated(views(attributes@)),
{
    let a = chars_of("#[deprecated]");
    let b = chars_of("@deprecated");
    let mut i: usize = 0;
    while i < attributes.len()
        invariant
            i <= attributes.len(),
            a@ == "#[deprecated]"@,
            b@ == "@deprecated"@,
            forall|j: int| 0 <= j < i ==> !(#[trigger] views(attributes@)[j] == "#[deprecated]"@ || views(attributes@)[j] == "@deprecated"@),
        decreases attributes.len() - i,
    {
        let c = chars_of(attributes[i].as_str());
        proof {
            assert(views(attributes@)[i as int] == attributes@[i as int]@);
        }
        if crate::naming::same_chars(&c, &a) || crate::naming::same_chars(&c, &b) {
            return true;
        }
        i = i + 1;
    }
    false
}

fn has_todo(doc: &Option<String>) -> (r: bool)
    ensures
        r == notes_todo(opt_view(*doc)),
{
    match doc {
        Some(d) => {
            let c = chars_of(d.as_str());
            has_chars(&c, &chars_of("TODO")) || has_chars(&c, &chars_of("FIXME")) || has_chars(&c, &chars_of("HACK"))
        },
        None => false,
    }
}

fn has_safety(doc: &Option<String>) -> (r: bool)
    ensures
        r == notes_safety(opt_view(*doc)),
{
    match doc {
        Some(d) => {
            let c = chars_of(d.as_str());
            has_chars(&c, &chars_of("SAFETY")) || has_chars(&c, &chars_of("unsafe"))
        },
        None => false,
    }
}

fn same_opt(a: &Option<String>, b: &Option<String>) -> (r: bool)
    ensures
        r == (opt_view(*a) == opt_view(*b)),
{
    match (a, b) {
        (Some(x), Some(y)) => crate::naming::same_chars(&chars_of(x.as_str()), &chars_of(y.as_str())),
        (None, None) => true,
        _ => false,
    }
}

/// The change of documentation between two versions of a symbol.
pub fn diff(old: &Symbol, new: &Symbol) -> (r: Option<DocChange>)
    ensures
        match r {
            Some(c) => doc_change(*old, *new) == Some(c@),
            None => doc_change(*old, *new) is None,
        },
{
    let old_deprecated = is_deprecated(&old.attributes);
    let new_deprecated = is_deprecated(&new.attributes);
    let old_has_todo = has_todo(&old.doc_comment);
    let new_has_todo = has_todo(&new.doc_comment);
    let old_has_safety = has_safety(&old.doc_comment);
    let new_has_safety = has_safety(&new.doc_comment);
    if !same_opt(&old.doc_comment, &new.doc_comment) || old_deprecated != new_deprecated || old_has_todo != new_has_todo
        || old_has_safety != new_has_safety {
        let change_type = if old.doc_comment.is_none() && new.doc_comment.is_some() {
            String::from_str("added")
        } else if old.doc_comment.is_some() && new.doc_comment.is_none() {
            String::from_str("removed")
        } else {
            String::from_str("changed")
        };
        let c = DocChange {
            change_type,
            symbol: new.name.clone(),
            is_deprecated: new_deprecated,
            has_todo: new_has_todo,
            has_safety_note: new_has_safety,
            old_doc: crate::compat::copy_opt_string(&old.doc_comment),
            new_doc: crate::compat::copy_opt_string(&new.doc_comment),
        };
        proof {
            assert(doc_change(*old, *new) == Some(c@));
        }
        Some(c)
    } else {
        None
    }
}

} // verus!
