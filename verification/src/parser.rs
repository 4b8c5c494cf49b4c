//! Reading the imports of a source file: the modules it refers to.
pub mod javascript;
pub mod rust;
pub mod typescript;

use vstd::prelude::*;
use crate::text::{chars_of, strictly_sorted, views, insert_sorted_unique};
use crate::naming::same_chars;
use oxc_ast::ast::{ImportDeclarationSpecifier, Statement};

verus! {

#[verifier::external_type_specification]
#[verifier::external_body]
pub struct ExOxcStatement<'a>(oxc_ast::ast::Statement<'a>);

#[verifier::external_type_specification]
#[verifier::external_body]
pub struct ExOxcImportSpecifier<'a>(oxc_ast::ast::ImportDeclarationSpecifier<'a>);

/// The modules a file imports: those named by a relative specifier (or, for
/// Rust, a `crate::`, `super::` or `self::` path) and the others.
pub struct ModuleReferences {
    pub relative_imports: Vec<String>,
    pub external_imports: Vec<String>,
}

/// A source file that could not be parsed.
#[derive(Debug)]
pub struct ParseError {
    pub message: String,
}

/// One specifier of an `import` declaration.
#[derive(Debug)]
pub enum ImportSpec {
    /// `import { imported as local } from ..`: the imported name, then the local one.
    Named(String, String),
    /// `import local from ..`
    Default(String),
    /// `import * as local from ..`
    Namespace(String),
}

/// A top-level statement of a JavaScript or TypeScript module, as far as its
/// imports and re-exports go.
#[derive(Debug)]
pub enum ModuleStatement {
    /// `import .. from source`, with its specifiers when it has an import clause.
    Import(String, Option<Vec<ImportSpec>>),
    /// `export { local as exported } from source`: the source, then the pairs.
    ExportFrom(String, Vec<(String, String)>),
    /// `export * from source` (also `export * as name from source`).
    ExportAll(String),
    /// Any other statement.
    Other,
}

/// Converts one import specifier of the oxc AST.
#[verifier::external_body]
fn import_spec(s: &ImportDeclarationSpecifier) -> (r: ImportSpec) {
    match s {
        ImportDeclarationSpecifier::ImportSpecifier(x) => ImportSpec::Named(x.imported.name().to_string(), x.local.name.to_string()),
        ImportDeclarationSpecifier::ImportDefaultSpecifier(x) => ImportSpec::Default(x.local.name.to_string()),
        ImportDeclarationSpecifier::ImportNamespaceSpecifier(x) => ImportSpec::Namespace(x.local.name.to_string()),
    }
}

/// Converts one top-level statement of the oxc AST: its import or re-export, if
/// it is one.
#[verifier::external_body]
fn module_statement(s: &Statement) -> (r: ModuleStatement) {
    match s {
        Statement::ImportDeclaration(d) => ModuleStatement::Import(
            d.source.value.to_string(),
            d.specifiers.as_ref().map(|v| v.iter().map(import_spec).collect()),
        ),
        Statement::ExportFromDeclaration(d) => ModuleStatement::ExportFrom(
            d.source.value.to_string(),
            d.specifiers.iter().map(|e| (e.local.name().to_string(), e.exported.name().to_string())).collect(),
        ),
        Statement::ExportAllDeclaration(d) => ModuleStatement::ExportAll(d.source.value.to_string()),
        _ => ModuleStatement::Other,
    }
}

/// The top-level statements that `oxc_parser` reads in `source`, taken as the kind of
/// module that the extension of `path` names.
pub uninterp spec fn oxc_statements(source: Seq<char>, path: Seq<char>) -> Seq<ModuleStatement>;

/// `oxc_parser::Parser::parse` on `source` (regular expressions parsed too), the
/// source type taken from `path` by `oxc_span::SourceType::from_path` (a JavaScript
/// module when that fails); its top-level statements, converted one for one. The
/// result is named, not stated: it is the parser's reading of the text.
#[verifier::external_body]
pub(crate) fn parse_module_statements(source: &str, path: &str) -> (r: Vec<ModuleStatement>)
    ensures
        r@ == oxc_statements(source@, path@),
{
    let allocator = oxc_allocator::Allocator::default();
    let source_type = oxc_span::SourceType::from_path(path).unwrap_or_default();
    let options = oxc_parser::ParseOptions { parse_regular_expression: true, ..oxc_parser::ParseOptions::default() };
    let ret = oxc_parser::Parser::new(&allocator, source, source_type).with_options(options).parse();
    ret.program.body.iter().map(module_statement).collect()
}

// ---------------------------------------------------------------------------
// Module references of JavaScript and TypeScript
// ---------------------------------------------------------------------------

/// The module that a statement requests, if it requests one.
pub open spec fn requested_module(s: ModuleStatement) -> Option<Seq<char>> {
    match s {
        ModuleStatement::Import(src, _) => Some(src@),
        ModuleStatement::ExportFrom(src, _) => Some(src@),
        ModuleStatement::ExportAll(src) => Some(src@),
        ModuleStatement::Other => None,
    }
}

/// A specifier that starts with `.` or `/`.
pub open spec fn is_relative_specifier(s: Seq<char>) -> bool {
    s.len() > 0 && (s[0] == '.' || s[0] == '/')
}

/// One of the first `k` statements requests `n`.
pub open spec fn requests_within(stmts: Seq<ModuleStatement>, k: int, n: Seq<char>) -> bool {
    exists|i: int| 0 <= i < k && #[trigger] requested_module(stmts[i]) == Some(n)
}

/// The modules requested by the first `k` statements whose specifier is relative
/// (`relative`) or not.
pub open spec fn requested_upto(stmts: Seq<ModuleStatement>, k: int, relative: bool) -> Set<Seq<char>> {
    Set::new(|n: Seq<char>| requests_within(stmts, k, n) && is_relative_specifier(n) == relative)
}

pub open spec fn requested_set(stmts: Seq<ModuleStatement>, relative: bool) -> Set<Seq<char>> {
    requested_upto(stmts, stmts.len() as int, relative)
}

/// The references of a statement list: each side sorted, without repeats.
pub open spec fn references_of(r: ModuleReferences, stmts: Seq<ModuleStatement>) -> bool {
    &&& strictly_sorted(views(r.relative_imports@))
    &&& strictly_sorted(views(r.external_imports@))
    &&& views(r.relative_imports@).to_set() == requested_set(stmts, true)
    &&& views(r.external_imports@).to_set() == requested_set(stmts, false)
}

proof fn lemma_requests_step(stmts: Seq<ModuleStatement>, k: int, n: Seq<char>)
    requires
        0 <= k < stmts.len(),
    ensures
        requests_within(stmts, k + 1, n) <==> (requests_within(stmts, k, n) || requested_module(stmts[k]) == Some(n)),
{
    if requests_within(stmts, k + 1, n) {
        let i = choose|i: int| 0 <= i < k + 1 && #[trigger] requested_module(stmts[i]) == Some(n);
        if i < k {
            assert(requests_within(stmts, k, n));
        }
    }
    if requested_module(stmts[k]) == Some(n) {
        assert(requests_within(stmts, k + 1, n));
    }
    if requests_within(stmts, k, n) {
        let i = choose|i: int| 0 <= i < k && #[trigger] requested_module(stmts[i]) == Some(n);
        assert(requests_within(stmts, k + 1, n));
    }
}

/// Whether a specifier starts with `.` or `/`.
pub fn is_relative(s: &str) -> (r: bool)
    ensures
        r == is_relative_specifier(s@),
{
    let c = chars_of(s);
    c.len() > 0 && (c[0] == '.' || c[0] == '/')
}

/// The module references of a list of top-level statements: the requested modules
/// split by whether the specifier is relative, each side sorted and without repeats.
pub fn module_references(stmts: &Vec<ModuleStatement>) -> (r: ModuleReferences)
    ensures
        references_of(r, stmts@),
{
    let mut rel: Vec<String> = Vec::new();
    let mut ext: Vec<String> = Vec::new();
    proof {
        assert(views(rel@).to_set() =~= requested_upto(stmts@, 0, true));
        assert(views(ext@).to_set() =~= requested_upto(stmts@, 0, false));
    }
    let mut k: usize = 0;
    while k < stmts.len()
        invariant
            k <= stmts.len(),
            strictly_sorted(views(rel@)),
            strictly_sorted(views(ext@)),
            views(rel@).to_set() == requested_upto(stmts@, k as int, true),
            views(ext@).to_set() == requested_upto(stmts@, k as int, false),
        decreases stmts.len() - k,
    {
        let src: Option<&String> = match &stmts[k] {
            ModuleStatement::Import(s, _) => Some(s),
            ModuleStatement::ExportFrom(s, _) => Some(s),
            ModuleStatement::ExportAll(s) => Some(s),
            ModuleStatement::Other => None,
        };
        let ghost rel0 = views(rel@).to_set();
        let ghost ext0 = views(ext@).to_set();
        match src {
            Some(s) => {
                if is_relative(s.as_str()) {
                    insert_sorted_unique(&mut rel, s.clone());
                } else {
                    insert_sorted_unique(&mut ext, s.clone());
                }
            },
            None => {},
        }
        proof {
            assert forall|n: Seq<char>| #![auto] requests_within(stmts@, k + 1, n) <==> (requests_within(stmts@, k as int, n) || requested_module(stmts@[k as int]) == Some(n)) by {
                lemma_requests_step(stmts@, k as int, n);
            }
            assert(views(rel@).to_set() =~= requested_upto(stmts@, k + 1, true));
            assert(views(ext@).to_set() =~= requested_upto(stmts@, k + 1, false));
        }
        k = k + 1;
    }
    ModuleReferences { relative_imports: rel, external_imports: ext }
}

/// The module references of a JavaScript or TypeScript source: what
/// `module_references` gives of its top-level statements as oxc reads them.
pub(crate) fn script_references(source: &str, path: &str) -> (r: ModuleReferences)
    ensures
        references_of(r, oxc_statements(source@, path@)),
{
    let stmts = parse_module_statements(source, path);
    module_references(&stmts)
}

// ---------------------------------------------------------------------------
// File extensions
// ---------------------------------------------------------------------------

/// The extension of a `/`-separated path, as `Path::extension` reads it: what
/// follows the last `.` of the file name, when that `.` is not its first character
/// (and the name is not `..`).
pub open spec fn extension_spec(p: Seq<char>) -> Option<Seq<char>> {
    let name = crate::spec_writer::file_name(p);
    if name == ".."@ {
        None
    } else {
        match crate::text::rfind_spec(name, seq!['.']) {
            Some(k) => if k > 0 {
                Some(name.subrange(k + 1, name.len() as int))
            } else {
                None
            },
            None => None,
        }
    }
}

/// The file name of a `/`-separated path.
fn file_name_chars(cs: Vec<char>) -> (r: Vec<char>)
    ensures
        r@ == crate::spec_writer::file_name(cs@),
{
    let slash = crate::text::rfind_char(cs.as_slice(), '/');
    proof {
        crate::text::lemma_rfind_char_spec(cs@, '/', slash);
    }
    match slash {
        Some(k) => crate::text::slice_copy(cs.as_slice(), k + 1, cs.len()),
        None => cs,
    }
}

/// The extension of a file name (not `..`).
fn name_extension(name: &Vec<char>) -> (r: Option<String>)
    ensures
        match r {
            Some(e) => match crate::text::rfind_spec(name@, seq!['.']) {
                Some(k) => k > 0 && e@ == name@.subrange(k + 1, name@.len() as int),
                None => false,
            },
            None => match crate::text::rfind_spec(name@, seq!['.']) {
                Some(k) => k <= 0,
                None => true,
            },
        },
{
    let dot = crate::text::rfind_char(name.as_slice(), '.');
    proof {
        crate::text::lemma_rfind_char_spec(name@, '.', dot);
    }
    match dot {
        Some(k) => {
            if k > 0 {
                let e = crate::text::slice_copy(name.as_slice(), k + 1, name.len());
                Some(crate::text::string_of(e.as_slice()))
            } else {
                None
            }
        },
        None => None,
    }
}

/// The extension of a `/`-separated path.
pub fn extension_of(p: &str) -> (r: Option<String>)
    ensures
        match r {
            Some(e) => extension_spec(p@) == Some(e@),
            None => extension_spec(p@) is None,
        },
{
    let name = file_name_chars(chars_of(p));
    proof {
        reveal_strlit("..");
    }
    if name.len() == 2 && name[0] == '.' && name[1] == '.' {
        proof {
            assert(name@ =~= ".."@);
        }
        return None;
    }
    proof {
        assert(name@ != ".."@);
    }
    name_extension(&name)
}

/// Whether `e` is one of `choices`.
pub(crate) fn is_one_of(e: &str, choices: &Vec<&str>) -> (r: bool)
    ensures
        r == exists|i: int| 0 <= i < choices.len() && choices@[i]@ == e@,
{
    let ec = chars_of(e);
    let mut i: usize = 0;
    while i < choices.len()
        invariant
            i <= choices.len(),
            ec@ == e@,
            forall|j: int| 0 <= j < i ==> choices@[j]@ != e@,
        decreases choices.len() - i,
    {
        if same_chars(&chars_of(choices[i]), &ec) {
            return true;
        }
        i = i + 1;
    }
    false
}

/// What `parse_file_references` does with a file of extension `e`.
pub open spec fn reference_parser(e: Option<Seq<char>>) -> int {
    match e {
        Some(x) => if x == "ts"@ || x == "tsx"@ || x == "js"@ || x == "jsx"@ || x == "mjs"@ || x == "cjs"@ {
            1
        } else if x == "rs"@ {
            2
        } else {
            0
        },
        None => 0,
    }
}

/// The module references of a source file, read as its extension says: oxc for
/// `ts`, `tsx`, `js`, `jsx`, `mjs` and `cjs`, syn for `rs`, none for any other.
pub fn parse_file_references(path: &str, source: &str) -> (r: Result<ModuleReferences, ParseError>)
    ensures
        reference_parser(extension_spec(path@)) == 1 ==> (r matches Ok(m) && references_of(m, oxc_statements(source@, path@))),
        reference_parser(extension_spec(path@)) == 2 ==> match crate::parser::rust::syn_file_items(source@) {
            Ok(items) => r matches Ok(m) && crate::parser::rust::rust_references_of(m, items),
            Err(msg) => r matches Err(e) && e.message@ == msg,
        },
        reference_parser(extension_spec(path@)) == 0 ==> (r matches Ok(m) && m.relative_imports@.len() == 0 && m.external_imports@.len() == 0),
{
    let ext = extension_of(path);
    let kind: u8 = match ext {
        Some(e) => {
            let scripts = vec!["ts", "tsx", "js", "jsx", "mjs", "cjs"];
            if is_one_of(e.as_str(), &scripts) {
                proof {
                    reveal_strlit("ts");
                    reveal_strlit("tsx");
                    reveal_strlit("js");
                    reveal_strlit("jsx");
                    reveal_strlit("mjs");
                    reveal_strlit("cjs");
                    let i = choose|i: int| 0 <= i < scripts.len() && scripts@[i]@ == e@;
                }
                1
            } else if same_chars(&chars_of(e.as_str()), &chars_of("rs")) {
                2
            } else {
                0
            }
        },
        None => 0,
    };
    if kind == 1 {
        Ok(script_references(source, path))
    } else if kind == 2 {
        crate::parser::rust::parse_references(source)
    } else {
        Ok(ModuleReferences { relative_imports: Vec::new(), external_imports: Vec::new() })
    }
}

} // verus!
