//! Cross-file references between symbols.
pub mod rust;
pub mod typescript;

use vstd::prelude::*;

verus! {

/// One reference from a symbol to another.
pub struct SymbolReference {
    pub symbol: String,
    pub location: Location,
    pub kind: ReferenceKind,
}

/// A place in a source file.
pub struct Location {
    pub file: String,
    pub line: usize,
    pub column: usize,
}

/// How one symbol refers to another.
#[derive(Debug, Clone, Copy, PartialEq, Eq, Structural)]
pub enum ReferenceKind {
    /// Function or method call: `foo()`.
    Call,
    /// Class instantiation: `new Foo()`.
    Instantiation,
    /// Class inheritance: `class A extends B`.
    Extends,
    /// Interface extension: `interface A extends B`.
    ExtendsType,
    /// Interface implementation: `class A implements B`.
    Implements,
    /// Type in an annotation: `const x: SomeType`.
    TypeReference,
    /// Property or method of an import: `obj.method()`.
    PropertyAccess,
    /// Any other use.
    Usage,
}

/// An import binding of a file: `import { exported_name as local_name } from "source_module"`.
pub struct ImportBinding {
    pub local_name: String,
    pub source_module: String,
    pub exported_name: String,
}

/// A binding as `(local name, source module, exported name)`.
pub open spec fn binding_view(b: ImportBinding) -> (Seq<char>, Seq<char>, Seq<char>) {
    (b.local_name@, b.source_module@, b.exported_name@)
}

/// The extension that `parse_import_bindings` goes by: the path's, else `ts`.
pub open spec fn binding_extension(file_path: Option<&str>) -> Seq<char> {
    match file_path {
        Some(p) => match crate::parser::extension_spec(p@) {
            Some(e) => e,
            None => "ts"@,
        },
        None => "ts"@,
    }
}

/// Which reader `parse_import_bindings` uses for an extension: TypeScript (1),
/// Rust (2), JavaScript (3), or none (0).
pub open spec fn binding_reader(e: Seq<char>) -> int {
    if e == "ts"@ || e == "tsx"@ || e == "mts"@ || e == "cts"@ {
        1
    } else if e == "rs"@ {
        2
    } else if e == "js"@ || e == "jsx"@ || e == "mjs"@ || e == "cjs"@ {
        3
    } else {
        0
    }
}

fn reader_of(e: &str) -> (r: u8)
    ensures
        r == binding_reader(e@),
{
    let ts = vec!["ts", "tsx", "mts", "cts"];
    let js = vec!["js", "jsx", "mjs", "cjs"];
    proof {
        reveal_strlit("ts");
        reveal_strlit("tsx");
        reveal_strlit("mts");
        reveal_strlit("cts");
        reveal_strlit("rs");
        reveal_strlit("js");
        reveal_strlit("jsx");
        reveal_strlit("mjs");
        reveal_strlit("cjs");
    }
    if crate::parser::is_one_of(e, &ts) {
        1
    } else if crate::naming::same_chars(&crate::text::chars_of(e), &crate::text::chars_of("rs")) {
        2
    } else if crate::parser::is_one_of(e, &js) {
        3
    } else {
        0
    }
}

/// The import bindings of a source file, read as its extension says (TypeScript
/// when there is no path or no extension): TypeScript for `ts`, `tsx`, `mts` and
/// `cts`, Rust for `rs`, JavaScript for `js`, `jsx`, `mjs` and `cjs`, none for any
/// other.
pub fn parse_import_bindings(source: &str, file_path: Option<&str>) -> (r: Result<Vec<ImportBinding>, crate::parser::ParseError>)
    ensures
        binding_reader(binding_extension(file_path)) == 1 ==> (r matches Ok(v) && v@.map_values(|b: ImportBinding| binding_view(b))
            == typescript::ts_bindings(crate::parser::oxc_statements(source@, crate::parser::typescript::typescript_path(file_path)))),
        binding_reader(binding_extension(file_path)) == 2 ==> match crate::parser::rust::syn_file_items(source@) {
            Ok(items) => r matches Ok(v) && v@.map_values(|b: ImportBinding| binding_view(b)) == rust::rust_bindings(items),
            Err(msg) => r matches Err(e) && e.message@ == msg,
        },
        binding_reader(binding_extension(file_path)) == 3 ==> (r matches Ok(v) && v@.map_values(|b: ImportBinding| binding_view(b))
            == crate::parser::javascript::js_bindings(crate::parser::oxc_statements(source@, crate::parser::javascript::script_path(file_path)))),
        binding_reader(binding_extension(file_path)) == 0 ==> (r matches Ok(v) && v@.len() == 0),
{
    let ext: Option<String> = match file_path {
        Some(p) => crate::parser::extension_of(p),
        None => None,
    };
    let reader = match &ext {
        Some(e) => reader_of(e.as_str()),
        None => {
            proof {
                reveal_strlit("ts");
            }
            reader_of("ts")
        },
    };
    if reader == 1 {
        typescript::parse_import_bindings(source, file_path)
    } else if reader == 2 {
        rust::parse_import_bindings(source)
    } else if reader == 3 {
        crate::parser::javascript::parse_import_bindings(source, file_path)
    } else {
        Ok(Vec::new())
    }
}

} // verus!
