//! The imports of a Rust source file, from its items as `syn` parses them.
use vstd::prelude::*;
use crate::parser::{ModuleReferences, ParseError};
use crate::references::ImportBinding;
use crate::text::{push_char, chars_of, seq_starts_with};

verus! {

#[verifier::external_type_specification]
#[verifier::external_body]
pub struct ExSynUseTree(syn::UseTree);

#[verifier::external_type_specification]
#[verifier::external_body]
pub struct ExSynItem(syn::Item);

#[verifier::external_type_specification]
#[verifier::external_body]
pub struct ExSynBlock(syn::Block);

#[verifier::external_type_specification]
#[verifier::external_body]
pub struct ExSynItemImpl(syn::ItemImpl);

#[verifier::external_type_specification]
#[verifier::external_body]
pub struct ExSynItemTrait(syn::ItemTrait);

#[verifier::external_type_specification]
#[verifier::external_body]
pub struct ExSynExpr(syn::Expr);

#[verifier::external_type_specification]
#[verifier::external_body]
pub struct ExSynStmt(syn::Stmt);

#[verifier::external_type_specification]
#[verifier::external_body]
pub struct ExSynArm(syn::Arm);

/// A part of a function body of the syn AST in which items can be written: an
/// item, an expression or a block.
pub enum SynPart<'a> {
    Item(&'a syn::Item),
    Expr(&'a syn::Expr),
    Block(&'a syn::Block),
}

/// The tree of a `use` item.
#[derive(Debug)]
pub enum ImportTree {
    /// `ident::tree`
    Path(String, Box<ImportTree>),
    /// `ident`
    Name(String),
    /// `ident as rename`
    Rename(String, String),
    /// `*`
    Glob,
    /// `{a, b, ..}`
    Group(Vec<ImportTree>),
}

/// An item of a Rust file, as far as its imports go.
#[derive(Debug)]
pub enum RustItem {
    /// A `use` item: whether it starts with `::`, and its tree.
    Use(bool, ImportTree),
    /// A `mod` item: its name, and its items when they are written inline.
    Mod(String, Option<Vec<RustItem>>),
    /// A function: whether it is public, and the items written in its body.
    Fn(bool, Vec<RustItem>),
    /// A trait: the items written in its default method bodies and constants.
    Trait(Vec<RustItem>),
    /// The items written inside a function body, an expression, an initializer,
    /// an `impl` or a trait.
    Nested(Vec<RustItem>),
    /// Any other item.
    Other,
}

/// Converts the tree of a `use` item of the syn AST.
#[verifier::external_body]
fn use_tree(t: &syn::UseTree) -> (r: ImportTree) {
    match t {
        syn::UseTree::Path(p) => ImportTree::Path(p.ident.to_string(), Box::new(use_tree(&p.tree))),
        syn::UseTree::Name(n) => ImportTree::Name(n.ident.to_string()),
        syn::UseTree::Rename(x) => ImportTree::Rename(x.ident.to_string(), x.rename.to_string()),
        syn::UseTree::Glob(_) => ImportTree::Glob,
        syn::UseTree::Group(g) => ImportTree::Group(g.items.iter().map(use_tree).collect()),
    }
}

/// The parts of a statement of the syn AST: the item; the initializer and the
/// `else` expression of a `let`; the expression. A macro has none.
#[verifier::external_body]
pub(crate) fn stmt_parts<'a>(s: &'a syn::Stmt) -> (r: Vec<SynPart<'a>>) {
    match s {
        syn::Stmt::Item(i) => vec![SynPart::Item(i)],
        syn::Stmt::Local(l) => match &l.init {
            Some(init) => std::iter::once(SynPart::Expr(&init.expr)).chain(init.diverge.iter().map(|d| SynPart::Expr(&d.1))).collect(),
            None => Vec::new(),
        },
        syn::Stmt::Expr(e, _) => vec![SynPart::Expr(e)],
        syn::Stmt::Macro(_) => Vec::new(),
    }
}

/// The parts of a match arm of the syn AST: its guard, then its body.
#[verifier::external_body]
pub(crate) fn arm_parts<'a>(a: &'a syn::Arm) -> (r: Vec<SynPart<'a>>) {
    a.guard.iter().map(|g| SynPart::Expr(&g.1)).chain(std::iter::once(SynPart::Expr(&a.body))).collect()
}

/// The direct sub-expressions and blocks of an expression of the syn AST, in the
/// order in which `syn::visit` walks them (continued by the next functions, one
/// group of variants each; the other variants have none).
#[verifier::external_body]
pub(crate) fn expr_parts<'a>(e: &'a syn::Expr) -> (r: Vec<SynPart<'a>>) {
    match e {
        syn::Expr::Array(x) => x.elems.iter().map(SynPart::Expr).collect(),
        syn::Expr::Assign(x) => vec![SynPart::Expr(&x.left), SynPart::Expr(&x.right)],
        syn::Expr::Async(x) => vec![SynPart::Block(&x.block)],
        syn::Expr::Await(x) => vec![SynPart::Expr(&x.base)],
        _ => expr_parts_b(e),
    }
}

#[verifier::external_body]
fn expr_parts_b<'a>(e: &'a syn::Expr) -> (r: Vec<SynPart<'a>>) {
    match e {
        syn::Expr::Binary(x) => vec![SynPart::Expr(&x.left), SynPart::Expr(&x.right)],
        syn::Expr::Block(x) => vec![SynPart::Block(&x.block)],
        syn::Expr::Break(x) => x.expr.iter().map(|b| SynPart::Expr(b)).collect(),
        syn::Expr::Call(x) => std::iter::once(SynPart::Expr(&x.func)).chain(x.args.iter().map(SynPart::Expr)).collect(),
        _ => expr_parts_c(e),
    }
}

#[verifier::external_body]
fn expr_parts_c<'a>(e: &'a syn::Expr) -> (r: Vec<SynPart<'a>>) {
    match e {
        syn::Expr::Cast(x) => vec![SynPart::Expr(&x.expr)],
        syn::Expr::Closure(x) => vec![SynPart::Expr(&x.body)],
        syn::Expr::Const(x) => vec![SynPart::Block(&x.block)],
        syn::Expr::Field(x) => vec![SynPart::Expr(&x.base)],
        _ => expr_parts_d(e),
    }
}

#[verifier::external_body]
fn expr_parts_d<'a>(e: &'a syn::Expr) -> (r: Vec<SynPart<'a>>) {
    match e {
        syn::Expr::ForLoop(x) => vec![SynPart::Expr(&x.expr), SynPart::Block(&x.body)],
        syn::Expr::Group(x) => vec![SynPart::Expr(&x.expr)],
        syn::Expr::If(x) => [SynPart::Expr(&x.cond), SynPart::Block(&x.then_branch)].into_iter().chain(x.else_branch.iter().map(|b| SynPart::Expr(&b.1))).collect(),
        syn::Expr::Index(x) => vec![SynPart::Expr(&x.expr), SynPart::Expr(&x.index)],
        _ => expr_parts_e(e),
    }
}

#[verifier::external_body]
fn expr_parts_e<'a>(e: &'a syn::Expr) -> (r: Vec<SynPart<'a>>) {
    match e {
        syn::Expr::Let(x) => vec![SynPart::Expr(&x.expr)],
        syn::Expr::Loop(x) => vec![SynPart::Block(&x.body)],
        syn::Expr::Match(x) => std::iter::once(SynPart::Expr(&x.expr)).chain(x.arms.iter().flat_map(arm_parts)).collect(),
        syn::Expr::MethodCall(x) => std::iter::once(SynPart::Expr(&x.receiver)).chain(x.args.iter().map(SynPart::Expr)).collect(),
        _ => expr_parts_f(e),
    }
}

#[verifier::external_body]
fn expr_parts_f<'a>(e: &'a syn::Expr) -> (r: Vec<SynPart<'a>>) {
    match e {
        syn::Expr::Paren(x) => vec![SynPart::Expr(&x.expr)],
        syn::Expr::Range(x) => x.start.iter().chain(x.end.iter()).map(|b| SynPart::Expr(b)).collect(),
        syn::Expr::RawAddr(x) => vec![SynPart::Expr(&x.expr)],
        syn::Expr::Reference(x) => vec![SynPart::Expr(&x.expr)],
        _ => expr_parts_g(e),
    }
}

#[verifier::external_body]
fn expr_parts_g<'a>(e: &'a syn::Expr) -> (r: Vec<SynPart<'a>>) {
    match e {
        syn::Expr::Repeat(x) => vec![SynPart::Expr(&x.expr), SynPart::Expr(&x.len)],
        syn::Expr::Return(x) => x.expr.iter().map(|b| SynPart::Expr(b)).collect(),
        syn::Expr::Struct(x) => x.fields.iter().map(|f| &f.expr).chain(x.rest.iter().map(|b| &**b)).map(SynPart::Expr).collect(),
        syn::Expr::Try(x) => vec![SynPart::Expr(&x.expr)],
        _ => expr_parts_h(e),
    }
}

#[verifier::external_body]
fn expr_parts_h<'a>(e: &'a syn::Expr) -> (r: Vec<SynPart<'a>>) {
    match e {
        syn::Expr::TryBlock(x) => vec![SynPart::Block(&x.block)],
        syn::Expr::Tuple(x) => x.elems.iter().map(SynPart::Expr).collect(),
        syn::Expr::Unary(x) => vec![SynPart::Expr(&x.expr)],
        syn::Expr::Unsafe(x) => vec![SynPart::Block(&x.block)],
        _ => expr_parts_i(e),
    }
}

#[verifier::external_body]
fn expr_parts_i<'a>(e: &'a syn::Expr) -> (r: Vec<SynPart<'a>>) {
    match e {
        syn::Expr::While(x) => vec![SynPart::Expr(&x.cond), SynPart::Block(&x.body)],
        syn::Expr::Yield(x) => x.expr.iter().map(|b| SynPart::Expr(b)).collect(),
        _ => Vec::new(),
    }
}

/// Converts the items written in an expression.
#[verifier::external_body]
fn expr_item(e: &syn::Expr) -> (r: RustItem) {
    part_item(SynPart::Expr(e))
}

/// Converts a part of a function body: an item, or the items written in an
/// expression or a block.
#[verifier::external_body]
fn part_item(p: SynPart) -> (r: RustItem) {
    match p {
        SynPart::Item(i) => rust_item(i),
        SynPart::Expr(e) => RustItem::Nested(expr_parts(e).into_iter().map(part_item).collect()),
        SynPart::Block(b) => RustItem::Nested(block_items(b)),
    }
}

/// Converts the statements of a block of the syn AST: each becomes the items
/// written in it, at any depth.
#[verifier::external_body]
fn block_items(b: &syn::Block) -> (r: Vec<RustItem>) {
    b.stmts.iter().map(|s| RustItem::Nested(stmt_parts(s).into_iter().map(part_item).collect())).collect()
}

/// Converts the items of an `impl` block of the syn AST: each method becomes the
/// items written in its body, each constant those written in its value.
#[verifier::external_body]
fn impl_items(b: &syn::ItemImpl) -> (r: Vec<RustItem>) {
    b.items.iter().map(|x| match x {
        syn::ImplItem::Fn(f) => RustItem::Nested(block_items(&f.block)),
        syn::ImplItem::Const(c) => expr_item(&c.expr),
        _ => RustItem::Other,
    }).collect()
}

/// Converts the items of a trait of the syn AST: each method with a default body
/// becomes the items written in that body, each constant those in its default.
#[verifier::external_body]
fn trait_items(t: &syn::ItemTrait) -> (r: Vec<RustItem>) {
    t.items.iter().map(|x| match x {
        syn::TraitItem::Fn(f) => RustItem::Nested(f.default.as_ref().map_or(Vec::new(), block_items)),
        syn::TraitItem::Const(c) => RustItem::Nested(c.default.iter().map(|d| expr_item(&d.1)).collect()),
        _ => RustItem::Other,
    }).collect()
}

/// Converts one item of the syn AST: `use` and `mod` items, and the items written
/// in the bodies of functions, `impl` blocks and traits, and in the values of
/// constants and statics.
#[verifier::external_body]
fn rust_item(i: &syn::Item) -> (r: RustItem) {
    match i {
        syn::Item::Use(u) => RustItem::Use(u.leading_colon.is_some(), use_tree(&u.tree)),
        syn::Item::Mod(m) => RustItem::Mod(m.ident.to_string(), m.content.as_ref().map(|c| c.1.iter().map(rust_item).collect())),
        syn::Item::Fn(f) => RustItem::Fn(matches!(f.vis, syn::Visibility::Public(_)), block_items(&f.block)),
        syn::Item::Impl(b) => RustItem::Nested(impl_items(b)),
        syn::Item::Trait(t) => RustItem::Trait(trait_items(t)),
        _ => value_item(i),
    }
}

/// Converts a constant or a static of the syn AST: the items written in its value.
#[verifier::external_body]
fn value_item(i: &syn::Item) -> (r: RustItem) {
    match i {
        syn::Item::Const(c) => expr_item(&c.expr),
        syn::Item::Static(c) => expr_item(&c.expr),
        _ => RustItem::Other,
    }
}

/// The items that `syn::parse_file` reads in `source`, or its error message.
pub uninterp spec fn syn_file_items(source: Seq<char>) -> Result<Seq<RustItem>, Seq<char>>;

/// `syn::parse_file` on `source`: its items converted one for one, with the items
/// written inside function bodies and initializers at any depth (not those inside
/// types, patterns or enum discriminants), or the text of its error. The parse
/// itself is named, not stated.
#[verifier::external_body]
pub(crate) fn parse_rust_items(source: &str) -> (r: Result<Vec<RustItem>, String>)
    ensures
        match r {
            Ok(v) => syn_file_items(source@) == Ok::<Seq<RustItem>, Seq<char>>(v@),
            Err(m) => syn_file_items(source@) == Err::<Seq<RustItem>, Seq<char>>(m@),
        },
{
    match syn::parse_file(source) {
        Ok(f) => Ok(f.items.iter().map(rust_item).collect()),
        Err(e) => Err(e.to_string()),
    }
}

// ---------------------------------------------------------------------------
// The text of a use tree
// ---------------------------------------------------------------------------

/// A use tree written out: `a::b`, `a as b`, `*`, `{a, b}`.
pub open spec fn use_text(t: ImportTree) -> Seq<char>
    decreases t,
{
    match t {
        ImportTree::Path(id, sub) => id@ + "::"@ + use_text(*sub),
        ImportTree::Name(id) => id@,
        ImportTree::Rename(id, rn) => id@ + " as "@ + rn@,
        ImportTree::Glob => "*"@,
        ImportTree::Group(items) => "{"@ + group_text(items@) + "}"@,
    }
}

/// The trees of a group written out, separated by `, `.
pub open spec fn group_text(items: Seq<ImportTree>) -> Seq<char>
    decreases items,
{
    if items.len() == 0 {
        Seq::empty()
    } else if items.len() == 1 {
        use_text(items[0])
    } else {
        group_text(items.drop_last()) + ", "@ + use_text(items.last())
    }
}

/// Appends the characters of `s`.
pub(crate) fn push_text(out: &mut String, s: &str)
    ensures
        final(out)@ == old(out)@ + s@,
{
    let cs = chars_of(s);
    let ghost start = out@;
    let mut i: usize = 0;
    while i < cs.len()
        invariant
            i <= cs.len(),
            cs@ == s@,
            out@ == start + cs@.subrange(0, i as int),
        decreases cs.len() - i,
    {
        push_char(out, cs[i]);
        proof {
            assert(cs@.subrange(0, i + 1) =~= cs@.subrange(0, i as int).push(cs@[i as int]));
        }
        i = i + 1;
    }
    proof {
        assert(cs@.subrange(0, cs.len() as int) =~= cs@);
    }
}

/// Appends a use tree written out.
fn write_use_text(t: &ImportTree, out: &mut String)
    ensures
        final(out)@ == old(out)@ + use_text(*t),
    decreases t,
{
    let ghost start = out@;
    match t {
        ImportTree::Path(id, sub) => {
            push_text(out, id.as_str());
            push_text(out, "::");
            write_use_text(sub, out);
            proof {
                assert(out@ =~= start + use_text(*t));
            }
        },
        ImportTree::Name(id) => {
            push_text(out, id.as_str());
        },
        ImportTree::Rename(id, rn) => {
            push_text(out, id.as_str());
            push_text(out, " as ");
            push_text(out, rn.as_str());
            proof {
                assert(out@ =~= start + use_text(*t));
            }
        },
        ImportTree::Glob => {
            push_text(out, "*");
        },
        ImportTree::Group(items) => {
            push_text(out, "{");
            let ghost mid = out@;
            let mut j: usize = 0;
            while j < items.len()
                invariant
                    j <= items.len(),
                    *t == ImportTree::Group(*items),
                    out@ == mid + group_text(items@.subrange(0, j as int)),
                decreases items.len() - j,
            {
                proof {
                    assert(items@.subrange(0, j + 1).drop_last() =~= items@.subrange(0, j as int));
                }
                if j > 0 {
                    push_text(out, ", ");
                }
                proof {
                    let ghost tt = *t;
                    assert(decreases_to!(tt => tt->Group_0));
                    assert(decreases_to!(tt->Group_0 => tt->Group_0@));
                    assert(decreases_to!(tt->Group_0@ => tt->Group_0@[j as int]));
                }
                write_use_text(&items[j], out);
                proof {
                    if j == 0 {
                        assert(out@ =~= mid + group_text(items@.subrange(0, 1)));
                    } else {
                        assert(out@ =~= mid + group_text(items@.subrange(0, j + 1)));
                    }
                }
                j = j + 1;
            }
            push_text(out, "}");
            proof {
                assert(items@.subrange(0, items.len() as int) =~= items@);
                assert(out@ =~= start + use_text(*t));
            }
        },
    }
}

// ---------------------------------------------------------------------------
// Module references
// ---------------------------------------------------------------------------

/// A path that starts with `crate::`, `super::` or `self::`.
pub open spec fn is_relative_path(p: Seq<char>) -> bool {
    seq_starts_with(p, "crate::"@) || seq_starts_with(p, "super::"@) || seq_starts_with(p, "self::"@)
}

/// The path of a `use` item written out, `::` first when it has a leading colon.
pub open spec fn use_path(leading: bool, t: ImportTree) -> Seq<char> {
    if leading {
        "::"@ + use_text(t)
    } else {
        use_text(t)
    }
}

/// The paths that an item refers to, in order, on one side: relative (`rel`) or
/// external. A `mod name;` without inline items refers to `self::name`. A reading
/// of the `whole` file enters every body; otherwise the bodies of public functions
/// and of traits are left out.
pub open spec fn item_paths(i: RustItem, rel: bool, whole: bool) -> Seq<Seq<char>>
    decreases i,
{
    match i {
        RustItem::Use(l, t) => if is_relative_path(use_path(l, t)) == rel {
            seq![use_path(l, t)]
        } else {
            Seq::empty()
        },
        RustItem::Mod(name, content) => match content {
            Some(v) => items_paths(v@, rel, whole),
            None => if rel {
                seq!["self::"@ + name@]
            } else {
                Seq::empty()
            },
        },
        RustItem::Fn(public, v) => if whole || !public { items_paths(v@, rel, whole) } else { Seq::empty() },
        RustItem::Trait(v) => if whole { items_paths(v@, rel, whole) } else { Seq::empty() },
        RustItem::Nested(v) => items_paths(v@, rel, whole),
        RustItem::Other => Seq::empty(),
    }
}

/// The paths that a list of items refers to, on one side, in order.
pub open spec fn items_paths(v: Seq<RustItem>, rel: bool, whole: bool) -> Seq<Seq<char>>
    decreases v,
{
    if v.len() == 0 {
        Seq::empty()
    } else {
        items_paths(v.drop_last(), rel, whole) + item_paths(v.last(), rel, whole)
    }
}

/// The references of a Rust file's items: every `use` path and every `mod name;`,
/// in the order they are written, split into relative and external.
pub open spec fn rust_references_of(r: ModuleReferences, items: Seq<RustItem>) -> bool {
    &&& crate::text::views(r.relative_imports@) == items_paths(items, true, true)
    &&& crate::text::views(r.external_imports@) == items_paths(items, false, true)
}

pub(crate) fn starts_with_str(s: &String, p: &str) -> (r: bool)
    ensures
        r == seq_starts_with(s@, p@),
{
    crate::text::starts_with_chars(chars_of(s.as_str()).as_slice(), chars_of(p).as_slice())
}

/// Whether a Rust path is relative to the crate.
pub fn is_relative_rust_path(p: &String) -> (r: bool)
    ensures
        r == is_relative_path(p@),
{
    starts_with_str(p, "crate::") || starts_with_str(p, "super::") || starts_with_str(p, "self::")
}

/// Appends the paths that an item refers to.
fn collect_item(i: &RustItem, rel: &mut Vec<String>, ext: &mut Vec<String>, whole: bool)
    ensures
        crate::text::views(final(rel)@) == crate::text::views(old(rel)@) + item_paths(*i, true, whole),
        crate::text::views(final(ext)@) == crate::text::views(old(ext)@) + item_paths(*i, false, whole),
    decreases i,
{
    let ghost rel0 = crate::text::views(rel@);
    let ghost ext0 = crate::text::views(ext@);
    match i {
        RustItem::Use(l, t) => {
            let mut p = String::from_str("");
            proof {
                reveal_strlit("");
            }
            if *l {
                push_text(&mut p, "::");
            }
            write_use_text(t, &mut p);
            proof {
                assert(p@ =~= use_path(*l, *t));
            }
            if is_relative_rust_path(&p) {
                rel.push(p);
                proof {
                    assert(crate::text::views(rel@) =~= rel0 + item_paths(*i, true, whole));
                    assert(crate::text::views(ext@) =~= ext0 + item_paths(*i, false, whole));
                }
            } else {
                ext.push(p);
                proof {
                    assert(crate::text::views(rel@) =~= rel0 + item_paths(*i, true, whole));
                    assert(crate::text::views(ext@) =~= ext0 + item_paths(*i, false, whole));
                }
            }
        },
        RustItem::Mod(name, content) => {
            match content {
                Some(v) => {
                    proof {
                        assert(decreases_to!(*i => *v));
                    }
                    collect_items(v, rel, ext, whole);
                },
                None => {
                    let mut p = String::from_str("self::");
                    push_text(&mut p, name.as_str());
                    rel.push(p);
                    proof {
                        assert(crate::text::views(rel@) =~= rel0 + item_paths(*i, true, whole));
                        assert(crate::text::views(ext@) =~= ext0 + item_paths(*i, false, whole));
                    }
                },
            }
        },
        RustItem::Fn(public, v) => {
            if whole || !*public {
                collect_items(v, rel, ext, whole);
            } else {
                proof {
                    assert(crate::text::views(rel@) =~= rel0 + item_paths(*i, true, whole));
                    assert(crate::text::views(ext@) =~= ext0 + item_paths(*i, false, whole));
                }
            }
        },
        RustItem::Trait(v) => {
            if whole {
                collect_items(v, rel, ext, whole);
            } else {
                proof {
                    assert(crate::text::views(rel@) =~= rel0 + item_paths(*i, true, whole));
                    assert(crate::text::views(ext@) =~= ext0 + item_paths(*i, false, whole));
                }
            }
        },
        RustItem::Nested(v) => {
            collect_items(v, rel, ext, whole);
        },
        RustItem::Other => {
            proof {
                assert(crate::text::views(rel@) =~= rel0 + item_paths(*i, true, whole));
                assert(crate::text::views(ext@) =~= ext0 + item_paths(*i, false, whole));
            }
        },
    }
}

/// Appends the paths that a list of items refers to.
fn collect_items(v: &Vec<RustItem>, rel: &mut Vec<String>, ext: &mut Vec<String>, whole: bool)
    ensures
        crate::text::views(final(rel)@) == crate::text::views(old(rel)@) + items_paths(v@, true, whole),
        crate::text::views(final(ext)@) == crate::text::views(old(ext)@) + items_paths(v@, false, whole),
    decreases v,
{
    let ghost rel0 = crate::text::views(rel@);
    let ghost ext0 = crate::text::views(ext@);
    let mut j: usize = 0;
    proof {
        assert(crate::text::views(rel@) =~= rel0 + items_paths(v@.subrange(0, 0), true, whole));
        assert(crate::text::views(ext@) =~= ext0 + items_paths(v@.subrange(0, 0), false, whole));
    }
    while j < v.len()
        invariant
            j <= v.len(),
            crate::text::views(rel@) == rel0 + items_paths(v@.subrange(0, j as int), true, whole),
            crate::text::views(ext@) == ext0 + items_paths(v@.subrange(0, j as int), false, whole),
        decreases v.len() - j,
    {
        proof {
            assert(v@.subrange(0, j + 1).drop_last() =~= v@.subrange(0, j as int));
            assert(decreases_to!(*v => v@[j as int]));
        }
        collect_item(&v[j], rel, ext, whole);
        proof {
            assert(crate::text::views(rel@) =~= rel0 + items_paths(v@.subrange(0, j + 1), true, whole));
            assert(crate::text::views(ext@) =~= ext0 + items_paths(v@.subrange(0, j + 1), false, whole));
        }
        j = j + 1;
    }
    proof {
        assert(v@.subrange(0, v.len() as int) =~= v@);
    }
}

/// The module references of Rust source: every `use` path (as written, `::` first
/// when it has a leading colon) and, for each `mod name;`, `self::name`, in the
/// order they appear; paths that start with `crate::`, `super::` or `self::` are
/// relative. Source that `syn` cannot parse gives its error.
pub fn parse_references(source: &str) -> (r: Result<ModuleReferences, ParseError>)
    ensures
        match syn_file_items(source@) {
            Ok(items) => r matches Ok(m) && rust_references_of(m, items),
            Err(msg) => r matches Err(e) && e.message@ == msg,
        },
{
    match parse_rust_items(source) {
        Ok(items) => {
            let mut rel: Vec<String> = Vec::new();
            let mut ext: Vec<String> = Vec::new();
            collect_items(&items, &mut rel, &mut ext, true);
            proof {
                assert(crate::text::views(rel@) =~= items_paths(items@, true, true));
                assert(crate::text::views(ext@) =~= items_paths(items@, false, true));
            }
            Ok(ModuleReferences { relative_imports: rel, external_imports: ext })
        },
        Err(m) => Err(ParseError { message: m }),
    }
}

/// The module references that a single reading of Rust source records, with the
/// symbols: as [`parse_references`], but the bodies of public functions and of
/// traits are not entered.
pub fn parse_single_reading_references(source: &str) -> (r: Result<ModuleReferences, ParseError>)
    ensures
        match syn_file_items(source@) {
            Ok(items) => r matches Ok(m) && {
                &&& crate::text::views(m.relative_imports@) == items_paths(items, true, false)
                &&& crate::text::views(m.external_imports@) == items_paths(items, false, false)
            },
            Err(msg) => r matches Err(e) && e.message@ == msg,
        },
{
    match parse_rust_items(source) {
        Ok(items) => {
            let mut rel: Vec<String> = Vec::new();
            let mut ext: Vec<String> = Vec::new();
            collect_items(&items, &mut rel, &mut ext, false);
            proof {
                assert(crate::text::views(rel@) =~= items_paths(items@, true, false));
                assert(crate::text::views(ext@) =~= items_paths(items@, false, false));
            }
            Ok(ModuleReferences { relative_imports: rel, external_imports: ext })
        },
        Err(m) => Err(ParseError { message: m }),
    }
}

} // verus!
