//! The languages the assessor reads, by name and file extensions.
use vstd::prelude::*;
use crate::diff::engine::{
    assemble_file_diff, change_views, doc_views, file_changes, import_diff, import_views, mapping_fits, stable_docs,
    FileDiffResult, SymbolMapping,
};
use crate::parser::{oxc_statements, requested_set, script_references};
use crate::symbols::Symbol;
use crate::text::{strictly_sorted, views};
pub mod rust;

verus! {

/// How serious a diagnostic is.
#[derive(Debug, Clone, Copy, PartialEq, Eq, Structural)]
pub enum DiagnosticSeverity {
    Error,
    Warning,
    Info,
}

/// A message about a place in a source file.
pub struct Diagnostic {
    pub message: String,
    pub line: usize,
    pub column: usize,
    pub severity: DiagnosticSeverity,
}

/// Rust sources.
pub struct RustLanguage;

/// TypeScript sources (and the JavaScript that TypeScript projects hold).
pub struct TypeScriptLanguage;

/// JavaScript sources.
pub struct JavaScriptLanguage;

/// Compares Rust files across versions.
pub struct RustDiffAnalyzer;

/// Compares TypeScript files across versions.
pub struct TypeScriptDiffAnalyzer;

/// Compares JavaScript files across versions.
pub struct JavaScriptDiffAnalyzer;

pub open spec fn str_views(v: Seq<&str>) -> Seq<Seq<char>> {
    v.map_values(|s: &str| s@)
}

impl RustLanguage {
    pub fn name(&self) -> (r: &'static str)
        ensures
            r@ == "rust"@,
    {
        "rust"
    }

    pub fn file_extensions(&self) -> (r: Vec<&'static str>)
        ensures
            str_views(r@) == seq!["rs"@],
    {
        let r = vec!["rs"];
        proof {
            assert(str_views(r@) =~= seq!["rs"@]);
        }
        r
    }
}

impl TypeScriptLanguage {
    pub fn name(&self) -> (r: &'static str)
        ensures
            r@ == "typescript"@,
    {
        "typescript"
    }

    pub fn file_extensions(&self) -> (r: Vec<&'static str>)
        ensures
            str_views(r@) == seq!["ts"@, "tsx"@, "js"@, "jsx"@],
    {
        let r = vec!["ts", "tsx", "js", "jsx"];
        proof {
            assert(str_views(r@) =~= seq!["ts"@, "tsx"@, "js"@, "jsx"@]);
        }
        r
    }
}

impl JavaScriptLanguage {
    pub fn name(&self) -> (r: &'static str)
        ensures
            r@ == "javascript"@,
    {
        "javascript"
    }

    pub fn file_extensions(&self) -> (r: Vec<&'static str>)
        ensures
            str_views(r@) == seq!["js"@, "jsx"@, "mjs"@, "cjs"@],
    {
        let r = vec!["js", "jsx", "mjs", "cjs"];
        proof {
            assert(str_views(r@) =~= seq!["js"@, "jsx"@, "mjs"@, "cjs"@]);
        }
        r
    }
}

impl JavaScriptDiffAnalyzer {
    /// The packages a JavaScript file imports, as a diff compares them: the
    /// non-relative modules that its imports and re-exports name, read by oxc as
    /// the extension of `file_path` says, sorted and without repeats.
    pub fn extract_imports(&self, source: &str, file_path: &str) -> (r: Vec<String>)
        ensures
            strictly_sorted(views(r@)),
            views(r@).to_set() == requested_set(oxc_statements(source@, file_path@), false),
    {
        script_references(source, file_path).external_imports
    }

    /// The changes of a JavaScript file between two versions, from the symbols of
    /// each version, how they correspond, and the imports of each; renames name their
    /// new symbol as target.
    pub fn diff_files(
        &self,
        file: &str,
        old_symbols: &[Symbol],
        new_symbols: &[Symbol],
        mapping: &SymbolMapping,
        old_imports: &Vec<String>,
        new_imports: &Vec<String>,
    ) -> (r: FileDiffResult)
        requires
            mapping_fits(*mapping, old_symbols@, new_symbols@),
        ensures
            r.file@ == file@,
            r.status@ == "modified"@,
            change_views(r.symbol_changes@) == file_changes(old_symbols@, new_symbols@, *mapping, true),
            doc_views(r.doc_changes@) == stable_docs(old_symbols@, new_symbols@, mapping.stable@),
            import_views(r.import_changes@) == import_diff(views(old_imports@), views(new_imports@)),
    {
        assemble_file_diff(file, old_symbols, new_symbols, mapping, old_imports, new_imports, true)
    }
}

impl TypeScriptDiffAnalyzer {
    /// A TypeScript file is read without a syntax tree of its imports, so a diff
    /// compares none.
    pub fn extract_imports(&self) -> (r: Vec<String>)
        ensures
            r@.len() == 0,
    {
        Vec::new()
    }

    /// The changes of a TypeScript file between two versions, from the symbols of
    /// each version and how they correspond; renames name no target, and no import
    /// changes are reported.
    pub fn diff_files(
        &self,
        file: &str,
        old_symbols: &[Symbol],
        new_symbols: &[Symbol],
        mapping: &SymbolMapping,
    ) -> (r: FileDiffResult)
        requires
            mapping_fits(*mapping, old_symbols@, new_symbols@),
        ensures
            r.file@ == file@,
            r.status@ == "modified"@,
            change_views(r.symbol_changes@) == file_changes(old_symbols@, new_symbols@, *mapping, false),
            doc_views(r.doc_changes@) == stable_docs(old_symbols@, new_symbols@, mapping.stable@),
            r.import_changes@.len() == 0,
    {
        let none = self.extract_imports();
        let r = assemble_file_diff(file, old_symbols, new_symbols, mapping, &none, &none, false);
        proof {
            assert(views(none@) =~= Seq::<Seq<char>>::empty());
            assert(crate::compat::dedup_first(Seq::<Seq<char>>::empty()) =~= Seq::<Seq<char>>::empty());
            assert(import_views(r.import_changes@).len() == 0);
        }
        r
    }
}

} // verus!
