//! The import bindings of a Rust source file.
use vstd::prelude::*;
use crate::parser::ParseError;
use crate::parser::rust::{ImportTree, RustItem, parse_rust_items, push_text, starts_with_str, syn_file_items};
use crate::references::{ImportBinding, binding_view};
use crate::text::{seq_starts_with, views};

verus! {

/// Path segments joined by `::`.
pub open spec fn join_path(prefix: Seq<Seq<char>>) -> Seq<char>
    decreases prefix.len(),
{
    if prefix.len() == 0 {
        Seq::empty()
    } else if prefix.len() == 1 {
        prefix[0]
    } else {
        join_path(prefix.drop_last()) + "::"@ + prefix.last()
    }
}

/// A module path local to the crate: one that starts with `crate`, `self` or `super`.
pub open spec fn crate_local(m: Seq<char>) -> bool {
    seq_starts_with(m, "crate"@) || seq_starts_with(m, "self"@) || seq_starts_with(m, "super"@)
}

/// The bindings of a use tree under the path `prefix`, in order: each name (but
/// `self`) and each rename whose module is local to the crate, as `(local name,
/// module, exported name)`; globs make none.
pub open spec fn tree_bindings(t: ImportTree, prefix: Seq<Seq<char>>) -> Seq<(Seq<char>, Seq<char>, Seq<char>)>
    decreases t,
{
    match t {
        ImportTree::Path(id, sub) => tree_bindings(*sub, prefix.push(id@)),
        ImportTree::Name(id) => if id@ == "self"@ || !crate_local(join_path(prefix)) {
            Seq::empty()
        } else {
            seq![(id@, join_path(prefix), id@)]
        },
        ImportTree::Rename(id, rn) => if crate_local(join_path(prefix)) {
            seq![(rn@, join_path(prefix), id@)]
        } else {
            Seq::empty()
        },
        ImportTree::Glob => Seq::empty(),
        ImportTree::Group(items) => group_bindings(items@, prefix),
    }
}

/// The bindings of the trees of a group, in order.
pub open spec fn group_bindings(items: Seq<ImportTree>, prefix: Seq<Seq<char>>) -> Seq<(Seq<char>, Seq<char>, Seq<char>)>
    decreases items,
{
    if items.len() == 0 {
        Seq::empty()
    } else {
        group_bindings(items.drop_last(), prefix) + tree_bindings(items.last(), prefix)
    }
}

/// The bindings of the top-level `use` items of a file, in order.
pub open spec fn rust_bindings(items: Seq<RustItem>) -> Seq<(Seq<char>, Seq<char>, Seq<char>)>
    decreases items.len(),
{
    if items.len() == 0 {
        Seq::empty()
    } else {
        rust_bindings(items.drop_last()) + match items.last() {
            RustItem::Use(_, t) => tree_bindings(t, Seq::empty()),
            _ => Seq::empty(),
        }
    }
}

fn join_path_exec(prefix: &Vec<String>) -> (r: String)
    ensures
        r@ == join_path(views(prefix@)),
{
    let mut r = String::from_str("");
    proof {
        reveal_strlit("");
        assert(views(prefix@.subrange(0, 0)) =~= Seq::<Seq<char>>::empty());
    }
    let mut i: usize = 0;
    while i < prefix.len()
        invariant
            i <= prefix.len(),
            r@ == join_path(views(prefix@.subrange(0, i as int))),
        decreases prefix.len() - i,
    {
        proof {
            assert(views(prefix@.subrange(0, i + 1)).drop_last() =~= views(prefix@.subrange(0, i as int)));
        }
        if i > 0 {
            push_text(&mut r, "::");
        }
        push_text(&mut r, prefix[i].as_str());
        proof {
            assert(views(prefix@.subrange(0, i + 1)).last() == prefix@[i as int]@);
            if i == 0 {
                assert(r@ =~= join_path(views(prefix@.subrange(0, 1))));
            } else {
                assert(r@ =~= join_path(views(prefix@.subrange(0, i + 1))));
            }
        }
        i = i + 1;
    }
    proof {
        assert(prefix@.subrange(0, prefix.len() as int) =~= prefix@);
    }
    r
}

fn is_crate_local(m: &String) -> (r: bool)
    ensures
        r == crate_local(m@),
{
    starts_with_str(m, "crate") || starts_with_str(m, "self") || starts_with_str(m, "super")
}

fn push_binding(out: &mut Vec<ImportBinding>, b: ImportBinding)
    ensures
        final(out)@.map_values(|x: ImportBinding| binding_view(x))
            == old(out)@.map_values(|x: ImportBinding| binding_view(x)).push(binding_view(b)),
{
    let ghost prev = out@;
    out.push(b);
    proof {
        assert(out@.map_values(|x: ImportBinding| binding_view(x))
            =~= prev.map_values(|x: ImportBinding| binding_view(x)).push(binding_view(b)));
    }
}

/// Appends the bindings of a use tree under `prefix`.
fn collect_bindings(t: &ImportTree, prefix: &Vec<String>, out: &mut Vec<ImportBinding>)
    ensures
        final(out)@.map_values(|x: ImportBinding| binding_view(x))
            == old(out)@.map_values(|x: ImportBinding| binding_view(x)) + tree_bindings(*t, views(prefix@)),
    decreases t,
{
    let ghost before = out@.map_values(|x: ImportBinding| binding_view(x));
    match t {
        ImportTree::Path(id, sub) => {
            let mut p = prefix.clone();
            p.push(id.clone());
            proof {
                assert(views(p@) =~= views(prefix@).push(id@));
            }
            collect_bindings(sub, &p, out);
        },
        ImportTree::Name(id) => {
            let m = join_path_exec(prefix);
            proof {
                reveal_strlit("self");
            }
            let is_self = crate::naming::same_chars(&crate::text::chars_of(id.as_str()), &crate::text::chars_of("self"));
            if !is_self && is_crate_local(&m) {
                push_binding(out, ImportBinding { local_name: id.clone(), source_module: m, exported_name: id.clone() });
            }
            proof {
                assert(out@.map_values(|x: ImportBinding| binding_view(x)) =~= before + tree_bindings(*t, views(prefix@)));
            }
        },
        ImportTree::Rename(id, rn) => {
            let m = join_path_exec(prefix);
            if is_crate_local(&m) {
                push_binding(out, ImportBinding { local_name: rn.clone(), source_module: m, exported_name: id.clone() });
            }
            proof {
                assert(out@.map_values(|x: ImportBinding| binding_view(x)) =~= before + tree_bindings(*t, views(prefix@)));
            }
        },
        ImportTree::Glob => {
            proof {
                assert(out@.map_values(|x: ImportBinding| binding_view(x)) =~= before + tree_bindings(*t, views(prefix@)));
            }
        },
        ImportTree::Group(items) => {
            let mut j: usize = 0;
            proof {
                assert(out@.map_values(|x: ImportBinding| binding_view(x)) =~= before + group_bindings(items@.subrange(0, 0), views(prefix@)));
            }
            while j < items.len()
                invariant
                    j <= items.len(),
                    *t == ImportTree::Group(*items),
                    out@.map_values(|x: ImportBinding| binding_view(x)) == before + group_bindings(items@.subrange(0, j as int), views(prefix@)),
                decreases items.len() - j,
            {
                proof {
                    assert(items@.subrange(0, j + 1).drop_last() =~= items@.subrange(0, j as int));
                    let ghost tt = *t;
                    assert(decreases_to!(tt => tt->Group_0));
                    assert(decreases_to!(tt->Group_0 => tt->Group_0@));
                    assert(decreases_to!(tt->Group_0@ => tt->Group_0@[j as int]));
                }
                collect_bindings(&items[j], prefix, out);
                proof {
                    assert(out@.map_values(|x: ImportBinding| binding_view(x)) =~= before + group_bindings(items@.subrange(0, j + 1), views(prefix@)));
                }
                j = j + 1;
            }
            proof {
                assert(items@.subrange(0, items.len() as int) =~= items@);
            }
        },
    }
}

/// The import bindings of Rust source, from its top-level `use` items: each
/// imported name (but `self`) and each rename whose module path starts with
/// `crate`, `self` or `super`, in order, as the local name, the module path and the
/// exported name. Source that `syn` cannot parse gives its error.
pub fn parse_import_bindings(source: &str) -> (r: Result<Vec<ImportBinding>, ParseError>)
    ensures
        match syn_file_items(source@) {
            Ok(items) => r matches Ok(v) && v@.map_values(|x: ImportBinding| binding_view(x)) == rust_bindings(items),
            Err(msg) => r matches Err(e) && e.message@ == msg,
        },
{
    match parse_rust_items(source) {
        Ok(items) => {
            let mut out: Vec<ImportBinding> = Vec::new();
            let empty: Vec<String> = Vec::new();
            let mut k: usize = 0;
            proof {
                assert(out@.map_values(|x: ImportBinding| binding_view(x)) =~= rust_bindings(items@.subrange(0, 0)));
                assert(views(empty@) =~= Seq::<Seq<char>>::empty());
            }
            while k < items.len()
                invariant
                    k <= items.len(),
                    empty@.len() == 0,
                    out@.map_values(|x: ImportBinding| binding_view(x)) == rust_bindings(items@.subrange(0, k as int)),
                decreases items.len() - k,
            {
                proof {
                    assert(items@.subrange(0, k + 1).drop_last() =~= items@.subrange(0, k as int));
                    assert(views(empty@) =~= Seq::<Seq<char>>::empty());
                }
                let ghost before = out@.map_values(|x: ImportBinding| binding_view(x));
                match &items[k] {
                    RustItem::Use(_, t) => {
                        collect_bindings(t, &empty, &mut out);
                    },
                    _ => {},
                }
                proof {
                    assert(out@.map_values(|x: ImportBinding| binding_view(x)) =~= rust_bindings(items@.subrange(0, k + 1)));
                }
                k = k + 1;
            }
            proof {
                assert(items@.subrange(0, items.len() as int) =~= items@);
            }
            Ok(out)
        },
        Err(m) => Err(ParseError { message: m }),
    }
}

} // verus!
