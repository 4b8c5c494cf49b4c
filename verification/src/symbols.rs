//! The symbols a source file declares.
pub mod script_ast;
pub mod typescript;
pub mod javascript;
pub mod rust_items;
pub mod rust;

use vstd::prelude::*;

verus! {

/// The symbols of one module.
pub struct SymbolIndex {
    pub module: String,
    pub symbols: Vec<Symbol>,
}

/// Who can see a symbol.
#[derive(Debug, Clone, Copy, PartialEq, Eq, Structural)]
pub enum Visibility {
    Public,
    Private,
    Protected,
    Default,
    Crate,
    Super,
}

/// A parameter of a function or method.
pub struct SymbolParam {
    pub name: String,
    pub ty: String,
    pub optional: bool,
    pub default_value: Option<String>,
}

/// A declared symbol: function, class, type, constant, and the like, with its members.
pub struct Symbol {
    pub id: String,
    pub name: String,
    pub kind: String,
    pub line_range: [usize; 2],
    pub children: Vec<Symbol>,
    pub partial_analysis: bool,
    pub partial_reason: Option<String>,
    pub visibility: Option<Visibility>,
    pub value: Option<String>,
    pub signature: Option<String>,
    pub doc_comment: Option<String>,
    pub attributes: Vec<String>,
    pub is_async: Option<bool>,
    pub return_type: Option<String>,
    pub params: Option<Vec<SymbolParam>>,
}

/// The public API of a module.
pub struct ApiContract {
    pub module: String,
    pub exports: Vec<ApiExport>,
}

/// One exported item of a module's API.
pub struct ApiExport {
    pub name: String,
    pub kind: String,
    pub generics: Vec<String>,
    pub signature: String,
    pub params: Vec<Param>,
    pub return_type: Option<String>,
    pub description: Option<String>,
    pub line_range: [usize; 2],
    pub partial_analysis: bool,
}

/// A parameter of an exported item.
pub struct Param {
    pub name: String,
    pub ty: String,
    pub optional: bool,
}

/// The members of a symbol, at every depth: each child, then its own members.
pub open spec fn descendants(s: Symbol) -> Seq<Symbol>
    decreases s,
{
    forest(s.children@)
}

/// The symbols of a list and all their members, each symbol before its members.
pub open spec fn forest(v: Seq<Symbol>) -> Seq<Symbol>
    decreases v,
{
    if v.len() == 0 {
        Seq::empty()
    } else {
        forest(v.drop_last()) + seq![v.last()] + descendants(v.last())
    }
}

pub open spec fn deref_all(v: Seq<&Symbol>) -> Seq<Symbol> {
    v.map_values(|x: &Symbol| *x)
}

/// Appends the symbols of `v` and all their members.
fn push_forest<'a>(v: &'a Vec<Symbol>, out: &mut Vec<&'a Symbol>)
    ensures
        deref_all(final(out)@) == deref_all(old(out)@) + forest(v@),
    decreases v,
{
    let ghost start = deref_all(out@);
    let mut i: usize = 0;
    proof {
        assert(forest(v@.subrange(0, 0)) =~= Seq::<Symbol>::empty());
        assert(deref_all(out@) =~= start + forest(v@.subrange(0, 0)));
    }
    while i < v.len()
        invariant
            i <= v.len(),
            deref_all(out@) == start + forest(v@.subrange(0, i as int)),
        decreases v.len() - i,
    {
        proof {
            assert(v@.subrange(0, i + 1).drop_last() =~= v@.subrange(0, i as int));
            assert(decreases_to!(*v => v@[i as int]));
        }
        let ghost before = out@;
        out.push(&v[i]);
        proof {
            assert(deref_all(out@) =~= deref_all(before).push(v@[i as int]));
        }
        let c = &v[i];
        proof {
            assert(decreases_to!(v@[i as int] => v@[i as int].children));
        }
        push_forest(&c.children, out);
        proof {
            let w = v@.subrange(0, i + 1);
            assert(w.last() == v@[i as int]);
            assert(forest(w) == forest(w.drop_last()) + seq![w.last()] + descendants(w.last()));
            assert(descendants(v@[i as int]) == forest(v@[i as int].children@));
            assert(deref_all(out@) =~= start + forest(v@.subrange(0, i + 1)));
        }
        i = i + 1;
    }
    proof {
        assert(v@.subrange(0, v.len() as int) =~= v@);
    }
}

impl Symbol {
    /// All members of the symbol, at every depth, each before its own members.
    pub fn all_symbols(&self) -> (r: Vec<&Symbol>)
        ensures
            deref_all(r@) == descendants(*self),
    {
        let mut r: Vec<&Symbol> = Vec::new();
        push_forest(&self.children, &mut r);
        proof {
            assert(deref_all(r@) =~= forest(self.children@));
        }
        r
    }
}

impl SymbolIndex {
    /// All symbols of the module and their members, each before its members.
    pub fn all_symbols(&self) -> (r: Vec<&Symbol>)
        ensures
            deref_all(r@) == forest(self.symbols@),
    {
        let mut r: Vec<&Symbol> = Vec::new();
        push_forest(&self.symbols, &mut r);
        proof {
            assert(deref_all(r@) =~= forest(self.symbols@));
        }
        r
    }
}

} // verus!
