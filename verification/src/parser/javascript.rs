//! The imports of a JavaScript source file.
use vstd::prelude::*;
use crate::parser::{
    ImportSpec, ModuleReferences, ModuleStatement, ParseError, oxc_statements, parse_module_statements,
    references_of, script_references,
};
use crate::references::{ImportBinding, binding_view};

verus! {

/// The path handed to the parser: the file's own, else the empty path (a
/// JavaScript module).
pub open spec fn script_path(file_path: Option<&str>) -> Seq<char> {
    match file_path {
        Some(p) => p@,
        None => Seq::empty(),
    }
}

fn path_or_empty<'a>(file_path: Option<&'a str>) -> (r: &'a str)
    ensures
        r@ == script_path(file_path),
{
    match file_path {
        Some(p) => p,
        None => {
            proof {
                reveal_strlit("");
            }
            ""
        },
    }
}

/// The module references of JavaScript source: the modules its `import`,
/// `export .. from` and `export * from` statements request, those whose specifier
/// starts with `.` or `/` apart from the others, each side sorted and without
/// repeats.
pub fn parse_references(source: &str, file_path: Option<&str>) -> (r: Result<ModuleReferences, ParseError>)
    ensures
        r matches Ok(m) && references_of(m, oxc_statements(source@, script_path(file_path))),
{
    Ok(script_references(source, path_or_empty(file_path)))
}

/// The binding that one import specifier makes: `(local, source, exported)`, the
/// exported name being `default` for a default import and `*` for a namespace one.
pub open spec fn js_spec_binding(sp: ImportSpec, src: Seq<char>) -> (Seq<char>, Seq<char>, Seq<char>) {
    match sp {
        ImportSpec::Named(imported, local) => (local@, src, imported@),
        ImportSpec::Default(local) => (local@, src, "default"@),
        ImportSpec::Namespace(local) => (local@, src, "*"@),
    }
}

/// The bindings of one statement: those of an `import` with specifiers.
pub open spec fn js_statement_bindings(s: ModuleStatement) -> Seq<(Seq<char>, Seq<char>, Seq<char>)> {
    match s {
        ModuleStatement::Import(src, Some(specs)) => specs@.map_values(|sp: ImportSpec| js_spec_binding(sp, src@)),
        _ => Seq::empty(),
    }
}

/// The bindings of a statement list, in order.
pub open spec fn js_bindings(stmts: Seq<ModuleStatement>) -> Seq<(Seq<char>, Seq<char>, Seq<char>)>
    decreases stmts.len(),
{
    if stmts.len() == 0 {
        Seq::empty()
    } else {
        js_bindings(stmts.drop_last()) + js_statement_bindings(stmts.last())
    }
}

fn js_binding_of(sp: &ImportSpec, src: &String) -> (r: ImportBinding)
    ensures
        binding_view(r) == js_spec_binding(*sp, src@),
{
    match sp {
        ImportSpec::Named(imported, local) => ImportBinding {
            local_name: local.clone(),
            source_module: src.clone(),
            exported_name: imported.clone(),
        },
        ImportSpec::Default(local) => ImportBinding {
            local_name: local.clone(),
            source_module: src.clone(),
            exported_name: String::from_str("default"),
        },
        ImportSpec::Namespace(local) => ImportBinding {
            local_name: local.clone(),
            source_module: src.clone(),
            exported_name: String::from_str("*"),
        },
    }
}

/// The import bindings of a statement list: for each specifier of each `import`,
/// in order, its local name, the module and the exported name.
pub fn js_import_bindings(stmts: &Vec<ModuleStatement>) -> (r: Vec<ImportBinding>)
    ensures
        r@.map_values(|b: ImportBinding| binding_view(b)) == js_bindings(stmts@),
{
    let mut out: Vec<ImportBinding> = Vec::new();
    let mut k: usize = 0;
    proof {
        assert(out@.map_values(|b: ImportBinding| binding_view(b)) =~= js_bindings(stmts@.subrange(0, 0)));
    }
    while k < stmts.len()
        invariant
            k <= stmts.len(),
            out@.map_values(|b: ImportBinding| binding_view(b)) == js_bindings(stmts@.subrange(0, k as int)),
        decreases stmts.len() - k,
    {
        let ghost before = out@.map_values(|b: ImportBinding| binding_view(b));
        proof {
            assert(stmts@.subrange(0, k + 1).drop_last() =~= stmts@.subrange(0, k as int));
        }
        match &stmts[k] {
            ModuleStatement::Import(src, Some(specs)) => {
                let mut j: usize = 0;
                while j < specs.len()
                    invariant
                        j <= specs.len(),
                        out@.map_values(|b: ImportBinding| binding_view(b))
                            == before + specs@.subrange(0, j as int).map_values(|sp: ImportSpec| js_spec_binding(sp, src@)),
                    decreases specs.len() - j,
                {
                    let ghost prev = out@;
                    let b = js_binding_of(&specs[j], src);
                    out.push(b);
                    proof {
                        assert(out@.map_values(|b: ImportBinding| binding_view(b))
                            =~= prev.map_values(|b: ImportBinding| binding_view(b)).push(binding_view(b)));
                        assert(specs@.subrange(0, j + 1).map_values(|sp: ImportSpec| js_spec_binding(sp, src@))
                            =~= specs@.subrange(0, j as int).map_values(|sp: ImportSpec| js_spec_binding(sp, src@)).push(
                            js_spec_binding(specs@[j as int], src@)));
                        assert(out@.map_values(|b: ImportBinding| binding_view(b)) =~= before
                            + specs@.subrange(0, j + 1).map_values(|sp: ImportSpec| js_spec_binding(sp, src@)));
                    }
                    j = j + 1;
                }
                proof {
                    assert(specs@.subrange(0, specs.len() as int) =~= specs@);
                }
            },
            _ => {
                proof {
                    assert(out@.map_values(|b: ImportBinding| binding_view(b)) =~= before + js_statement_bindings(stmts@[k as int]));
                }
            },
        }
        k = k + 1;
    }
    proof {
        assert(stmts@.subrange(0, k as int) =~= stmts@);
    }
    out
}

/// The import bindings of JavaScript source: for each specifier of each `import`
/// statement, in order, its local name, the module and the exported name
/// (`default` for a default import, `*` for a namespace import).
pub fn parse_import_bindings(source: &str, file_path: Option<&str>) -> (r: Result<Vec<ImportBinding>, ParseError>)
    ensures
        r matches Ok(v) && v@.map_values(|b: ImportBinding| binding_view(b)) == js_bindings(oxc_statements(source@, script_path(file_path))),
{
    let stmts = parse_module_statements(source, path_or_empty(file_path));
    Ok(js_import_bindings(&stmts))
}

} // verus!
