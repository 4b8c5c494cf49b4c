//! The imports of a TypeScript source file.
use vstd::prelude::*;
use crate::parser::{ModuleReferences, ParseError, oxc_statements, references_of, script_references};

verus! {

/// The path handed to the parser: the file's own, else `index.ts`, so that the
/// source is read as TypeScript.
pub open spec fn typescript_path(file_path: Option<&str>) -> Seq<char> {
    match file_path {
        Some(p) => p@,
        None => "index.ts"@,
    }
}

pub(crate) fn path_or_index_ts<'a>(file_path: Option<&'a str>) -> (r: &'a str)
    ensures
        r@ == typescript_path(file_path),
{
    match file_path {
        Some(p) => p,
        None => "index.ts",
    }
}

/// The module references of TypeScript source: the modules its `import`,
/// `export .. from` and `export * from` statements request (type-only ones too),
/// those whose specifier starts with `.` or `/` apart from the others, each side
/// sorted and without repeats.
pub fn parse_references(source: &str, file_path: Option<&str>) -> (r: Result<ModuleReferences, ParseError>)
    ensures
        r matches Ok(m) && references_of(m, oxc_statements(source@, typescript_path(file_path))),
{
    Ok(script_references(source, path_or_index_ts(file_path)))
}

/// Puts a module specifier on its side: `relative` when it starts with `.` or
/// `/`, else `external`.
pub fn classify_import(src: &str, relative: &mut Vec<String>, external: &mut Vec<String>)
    ensures
        crate::parser::is_relative_specifier(src@) ==> final(relative)@.len() == old(relative)@.len() + 1
            && final(relative)@.last()@ == src@ && final(relative)@.drop_last() == old(relative)@
            && final(external)@ == old(external)@,
        !crate::parser::is_relative_specifier(src@) ==> final(external)@.len() == old(external)@.len() + 1
            && final(external)@.last()@ == src@ && final(external)@.drop_last() == old(external)@
            && final(relative)@ == old(relative)@,
{
    let s = String::from_str(src);
    if crate::parser::is_relative(src) {
        relative.push(s);
        proof {
            assert(relative@.drop_last() =~= old(relative)@);
        }
    } else {
        external.push(s);
        proof {
            assert(external@.drop_last() =~= old(external)@);
        }
    }
}

} // verus!
