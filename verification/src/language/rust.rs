//! The imports of a Rust file, as a diff compares them.
use vstd::prelude::*;
use crate::parser::rust::{parse_rust_items, push_text, syn_file_items, ImportTree, RustItem};
use crate::diff::engine::{
    assemble_file_diff, change_views, doc_views, file_changes, import_diff, import_views, mapping_fits, stable_docs,
    FileDiffResult, SymbolMapping,
};
use crate::language::RustDiffAnalyzer;
use crate::parser::ParseError;
use crate::symbols::Symbol;
use crate::text::{insert_sorted_unique, strictly_sorted, views};

verus! {

/// A use tree written out for a diff: a path's segments joined by `::`, a renamed
/// name by its original name, `*`, and a group's trees joined by `, ` without braces.
pub open spec fn import_text(t: ImportTree) -> Seq<char>
    decreases t,
{
    match t {
        ImportTree::Path(id, sub) => {
            let rest = import_text(*sub);
            if rest.len() == 0 {
                id@
            } else {
                id@ + "::"@ + rest
            }
        },
        ImportTree::Name(id) => id@,
        ImportTree::Rename(id, _) => id@,
        ImportTree::Glob => "*"@,
        ImportTree::Group(items) => import_group_text(items@),
    }
}

/// The trees of a group written out, separated by `, `.
pub open spec fn import_group_text(items: Seq<ImportTree>) -> Seq<char>
    decreases items,
{
    if items.len() == 0 {
        Seq::empty()
    } else if items.len() == 1 {
        import_text(items[0])
    } else {
        import_group_text(items.drop_last()) + ", "@ + import_text(items.last())
    }
}

/// The non-empty texts of the `use` items of an item, its inline modules, and the
/// bodies it holds, in order.
pub open spec fn item_imports(i: RustItem) -> Seq<Seq<char>>
    decreases i,
{
    match i {
        RustItem::Use(_, t) => if import_text(t).len() > 0 {
            seq![import_text(t)]
        } else {
            Seq::empty()
        },
        RustItem::Mod(_, content) => match content {
            Some(v) => items_imports(v@),
            None => Seq::empty(),
        },
        RustItem::Fn(_, v) => items_imports(v@),
        RustItem::Trait(v) => items_imports(v@),
        RustItem::Nested(v) => items_imports(v@),
        RustItem::Other => Seq::empty(),
    }
}

pub open spec fn items_imports(v: Seq<RustItem>) -> Seq<Seq<char>>
    decreases v,
{
    if v.len() == 0 {
        Seq::empty()
    } else {
        items_imports(v.drop_last()) + item_imports(v.last())
    }
}

fn write_import_text(t: &ImportTree) -> (r: String)
    ensures
        r@ == import_text(*t),
    decreases t,
{
    match t {
        ImportTree::Path(id, sub) => {
            let rest = write_import_text(sub);
            let mut out = id.clone();
            if rest.as_str().unicode_len() > 0 {
                push_text(&mut out, "::");
                push_text(&mut out, rest.as_str());
            }
            proof {
                assert(out@ =~= import_text(*t));
            }
            out
        },
        ImportTree::Name(id) => id.clone(),
        ImportTree::Rename(id, _) => id.clone(),
        ImportTree::Glob => String::from_str("*"),
        ImportTree::Group(items) => {
            let mut out = String::from_str("");
            proof {
                reveal_strlit("");
            }
            let mut j: usize = 0;
            while j < items.len()
                invariant
                    j <= items.len(),
                    *t == ImportTree::Group(*items),
                    out@ == import_group_text(items@.subrange(0, j as int)),
                decreases items.len() - j,
            {
                proof {
                    assert(items@.subrange(0, j + 1).drop_last() =~= items@.subrange(0, j as int));
                }
                if j > 0 {
                    push_text(&mut out, ", ");
                }
                proof {
                    let ghost tt = *t;
                    assert(decreases_to!(tt => tt->Group_0));
                    assert(decreases_to!(tt->Group_0 => tt->Group_0@));
                    assert(decreases_to!(tt->Group_0@ => tt->Group_0@[j as int]));
                }
                let one = write_import_text(&items[j]);
                push_text(&mut out, one.as_str());
                proof {
                    if j == 0 {
                        assert(out@ =~= import_group_text(items@.subrange(0, 1)));
                    } else {
                        assert(out@ =~= import_group_text(items@.subrange(0, j + 1)));
                    }
                }
                j = j + 1;
            }
            proof {
                assert(items@.subrange(0, items.len() as int) =~= items@);
            }
            out
        },
    }
}

/// Adds the import texts of an item to the sorted `out`.
fn collect_item_imports(i: &RustItem, out: &mut Vec<String>)
    requires
        strictly_sorted(views(old(out)@)),
    ensures
        strictly_sorted(views(final(out)@)),
        views(final(out)@).to_set() == views(old(out)@).to_set() + item_imports(*i).to_set(),
    decreases i,
{
    let ghost s0 = views(out@).to_set();
    match i {
        RustItem::Use(_, t) => {
            let text = write_import_text(t);
            if text.as_str().unicode_len() > 0 {
                insert_sorted_unique(out, text);
                proof {
                    let one = item_imports(*i);
                    assert(one == seq![import_text(*t)]);
                    assert(one[0] == import_text(*t));
                    assert forall|y: Seq<char>| #[trigger] one.to_set().contains(y) <==> y == import_text(*t) by {
                        if one.to_set().contains(y) {
                            let k = choose|k: int| 0 <= k < one.len() && one[k] == y;
                        }
                    }
                    assert(one.to_set() =~= Set::empty().insert(import_text(*t)));
                    assert(views(out@).to_set() =~= s0 + item_imports(*i).to_set());
                }
            } else {
                proof {
                    assert(views(out@).to_set() =~= s0 + item_imports(*i).to_set());
                }
            }
        },
        RustItem::Mod(_, content) => {
            match content {
                Some(v) => {
                    proof {
                        assert(decreases_to!(*i => *v));
                    }
                    collect_items_imports(v, out);
                },
                None => {
                    proof {
                        assert(views(out@).to_set() =~= s0 + item_imports(*i).to_set());
                    }
                },
            }
        },
        RustItem::Fn(_, v) => {
            collect_items_imports(v, out);
        },
        RustItem::Trait(v) => {
            collect_items_imports(v, out);
        },
        RustItem::Nested(v) => {
            collect_items_imports(v, out);
        },
        RustItem::Other => {
            proof {
                assert(views(out@).to_set() =~= s0 + item_imports(*i).to_set());
            }
        },
    }
}

/// Adds the import texts of a list of items to the sorted `out`.
fn collect_items_imports(v: &Vec<RustItem>, out: &mut Vec<String>)
    requires
        strictly_sorted(views(old(out)@)),
    ensures
        strictly_sorted(views(final(out)@)),
        views(final(out)@).to_set() == views(old(out)@).to_set() + items_imports(v@).to_set(),
    decreases v,
{
    let ghost s0 = views(out@).to_set();
    let mut j: usize = 0;
    proof {
        assert(items_imports(v@.subrange(0, 0)).to_set() =~= Set::<Seq<char>>::empty());
        assert(views(out@).to_set() =~= s0 + items_imports(v@.subrange(0, 0)).to_set());
    }
    while j < v.len()
        invariant
            j <= v.len(),
            strictly_sorted(views(out@)),
            views(out@).to_set() == s0 + items_imports(v@.subrange(0, j as int)).to_set(),
        decreases v.len() - j,
    {
        proof {
            assert(v@.subrange(0, j + 1).drop_last() =~= v@.subrange(0, j as int));
            assert(decreases_to!(*v => v@[j as int]));
        }
        collect_item_imports(&v[j], out);
        proof {
            let pre = items_imports(v@.subrange(0, j as int));
            let one = item_imports(v@[j as int]);
            vstd::seq_lib::seq_to_set_distributes_over_add(pre, one);
            assert(items_imports(v@.subrange(0, j + 1)) == pre + one);
            assert(views(out@).to_set() =~= s0 + items_imports(v@.subrange(0, j + 1)).to_set());
        }
        j = j + 1;
    }
    proof {
        assert(v@.subrange(0, v.len() as int) =~= v@);
    }
}

impl RustDiffAnalyzer {
    /// The imports of Rust source as a diff compares them: the text of every `use`
    /// item, sorted and without repeats. Source that `syn` cannot parse gives its error.
    pub fn extract_imports(&self, source: &str) -> (r: Result<Vec<String>, ParseError>)
        ensures
            match syn_file_items(source@) {
                Ok(items) => r matches Ok(v) && strictly_sorted(views(v@)) && views(v@).to_set() == items_imports(items).to_set(),
                Err(msg) => r matches Err(e) && e.message@ == msg,
            },
    {
        match parse_rust_items(source) {
            Ok(items) => {
                let mut out: Vec<String> = Vec::new();
                proof {
                    assert(views(out@).to_set() =~= Set::<Seq<char>>::empty());
                }
                collect_items_imports(&items, &mut out);
                proof {
                    assert(views(out@).to_set() =~= items_imports(items@).to_set());
                }
                Ok(out)
            },
            Err(m) => Err(ParseError { message: m }),
        }
    }

    /// The changes of a Rust file between two versions, from the symbols of each
    /// version, how they correspond, and the imports of each; renames name their
    /// new symbol as target.
    pub fn diff_files(
        &self,
        file: &str,
        old_symbols: &[Symbol],
        new_symbols: &[Symbol],
        mapping: &SymbolMapping,
        old_imports: &Vec<String>,
        new_imports: &Vec<String>,
    ) -> (r: FileDiffResult)
        requires
            mapping_fits(*mapping, old_symbols@, new_symbols@),
        ensures
            r.file@ == file@,
            r.status@ == "modified"@,
            change_views(r.symbol_changes@) == file_changes(old_symbols@, new_symbols@, *mapping, true),
            doc_views(r.doc_changes@) == stable_docs(old_symbols@, new_symbols@, mapping.stable@),
            import_views(r.import_changes@) == import_diff(views(old_imports@), views(new_imports@)),
    {
        assemble_file_diff(file, old_symbols, new_symbols, mapping, old_imports, new_imports, true)
    }
}

} // verus!
