//! The import bindings of a TypeScript source file.
use vstd::prelude::*;
use crate::parser::{ImportSpec, ModuleStatement, ParseError, is_relative_specifier, oxc_statements, parse_module_statements};
use crate::parser::typescript::{typescript_path, path_or_index_ts};
use crate::references::{ImportBinding, binding_view};
use crate::text::chars_of;

verus! {

/// A non-relative specifier that may be a path alias: `#` and more, or one with a
/// `/` that does not start with `.`.
pub open spec fn might_be_alias(s: Seq<char>) -> bool {
    (s.len() > 1 && s[0] == '#') || (s.contains('/') && !(s.len() > 0 && s[0] == '.'))
}

/// The imports whose bindings are kept: relative, starting with `#`, or a possible
/// alias.
pub open spec fn kept_module(s: Seq<char>) -> bool {
    is_relative_specifier(s) || (s.len() > 0 && s[0] == '#') || might_be_alias(s)
}

/// The bindings of import specifiers, in order: named and default imports
/// (`default` as the exported name); namespace imports make none.
pub open spec fn spec_bindings(specs: Seq<ImportSpec>, src: Seq<char>) -> Seq<(Seq<char>, Seq<char>, Seq<char>)>
    decreases specs.len(),
{
    if specs.len() == 0 {
        Seq::empty()
    } else {
        spec_bindings(specs.drop_last(), src) + match specs.last() {
            ImportSpec::Named(imported, local) => seq![(local@, src, imported@)],
            ImportSpec::Default(local) => seq![(local@, src, "default"@)],
            ImportSpec::Namespace(_) => Seq::empty(),
        }
    }
}

/// The bindings of one statement: its import specifiers, or, for `export { local
/// as exported } from ..`, `exported` bound to `local`; only for kept modules.
pub open spec fn ts_statement_bindings(s: ModuleStatement) -> Seq<(Seq<char>, Seq<char>, Seq<char>)> {
    match s {
        ModuleStatement::Import(src, Some(specs)) => if kept_module(src@) {
            spec_bindings(specs@, src@)
        } else {
            Seq::empty()
        },
        ModuleStatement::ExportFrom(src, pairs) => if kept_module(src@) {
            pairs@.map_values(|p: (String, String)| (p.1@, src@, p.0@))
        } else {
            Seq::empty()
        },
        _ => Seq::empty(),
    }
}

/// The bindings of a statement list, in order.
pub open spec fn ts_bindings(stmts: Seq<ModuleStatement>) -> Seq<(Seq<char>, Seq<char>, Seq<char>)>
    decreases stmts.len(),
{
    if stmts.len() == 0 {
        Seq::empty()
    } else {
        ts_bindings(stmts.drop_last()) + ts_statement_bindings(stmts.last())
    }
}

/// Whether the bindings of an import from `s` are kept.
pub fn keeps_module(s: &String) -> (r: bool)
    ensures
        r == kept_module(s@),
{
    let c = chars_of(s.as_str());
    let relative = c.len() > 0 && (c[0] == '.' || c[0] == '/');
    let hash = c.len() > 0 && c[0] == '#';
    let slash = crate::text::find_char(c.as_slice(), '/');
    let alias = (c.len() > 1 && c[0] == '#') || (slash.is_some() && !(c.len() > 0 && c[0] == '.'));
    relative || hash || alias
}

fn push_spec_bindings(specs: &Vec<ImportSpec>, src: &String, out: &mut Vec<ImportBinding>)
    ensures
        final(out)@.map_values(|b: ImportBinding| binding_view(b))
            == old(out)@.map_values(|b: ImportBinding| binding_view(b)) + spec_bindings(specs@, src@),
{
    let ghost before = out@.map_values(|b: ImportBinding| binding_view(b));
    let mut j: usize = 0;
    proof {
        assert(out@.map_values(|b: ImportBinding| binding_view(b)) =~= before + spec_bindings(specs@.subrange(0, 0), src@));
    }
    while j < specs.len()
        invariant
            j <= specs.len(),
            out@.map_values(|b: ImportBinding| binding_view(b)) == before + spec_bindings(specs@.subrange(0, j as int), src@),
        decreases specs.len() - j,
    {
        let ghost prev = out@;
        proof {
            assert(specs@.subrange(0, j + 1).drop_last() =~= specs@.subrange(0, j as int));
        }
        match &specs[j] {
            ImportSpec::Named(imported, local) => {
                let b = ImportBinding { local_name: local.clone(), source_module: src.clone(), exported_name: imported.clone() };
                out.push(b);
                proof {
                    assert(out@.map_values(|b: ImportBinding| binding_view(b))
                        =~= prev.map_values(|b: ImportBinding| binding_view(b)).push(binding_view(b)));
                }
            },
            ImportSpec::Default(local) => {
                let b = ImportBinding { local_name: local.clone(), source_module: src.clone(), exported_name: String::from_str("default") };
                out.push(b);
                proof {
                    assert(out@.map_values(|b: ImportBinding| binding_view(b))
                        =~= prev.map_values(|b: ImportBinding| binding_view(b)).push(binding_view(b)));
                }
            },
            ImportSpec::Namespace(_) => {},
        }
        proof {
            assert(out@.map_values(|b: ImportBinding| binding_view(b)) =~= before + spec_bindings(specs@.subrange(0, j + 1), src@));
        }
        j = j + 1;
    }
    proof {
        assert(specs@.subrange(0, specs.len() as int) =~= specs@);
    }
}

fn push_reexport_bindings(pairs: &Vec<(String, String)>, src: &String, out: &mut Vec<ImportBinding>)
    ensures
        final(out)@.map_values(|b: ImportBinding| binding_view(b))
            == old(out)@.map_values(|b: ImportBinding| binding_view(b)) + pairs@.map_values(|p: (String, String)| (p.1@, src@, p.0@)),
{
    let ghost before = out@.map_values(|b: ImportBinding| binding_view(b));
    let mut j: usize = 0;
    proof {
        assert(out@.map_values(|b: ImportBinding| binding_view(b))
            =~= before + pairs@.subrange(0, 0).map_values(|p: (String, String)| (p.1@, src@, p.0@)));
    }
    while j < pairs.len()
        invariant
            j <= pairs.len(),
            out@.map_values(|b: ImportBinding| binding_view(b))
                == before + pairs@.subrange(0, j as int).map_values(|p: (String, String)| (p.1@, src@, p.0@)),
        decreases pairs.len() - j,
    {
        let ghost prev = out@;
        let b = ImportBinding { local_name: pairs[j].1.clone(), source_module: src.clone(), exported_name: pairs[j].0.clone() };
        out.push(b);
        proof {
            assert(out@.map_values(|b: ImportBinding| binding_view(b))
                =~= prev.map_values(|b: ImportBinding| binding_view(b)).push(binding_view(b)));
            assert(pairs@.subrange(0, j + 1).map_values(|p: (String, String)| (p.1@, src@, p.0@))
                =~= pairs@.subrange(0, j as int).map_values(|p: (String, String)| (p.1@, src@, p.0@)).push(binding_view(b)));
        }
        j = j + 1;
    }
    proof {
        assert(pairs@.subrange(0, pairs.len() as int) =~= pairs@);
    }
}

/// The import bindings of a statement list, for the imports whose module is kept.
pub fn ts_import_bindings(stmts: &Vec<ModuleStatement>) -> (r: Vec<ImportBinding>)
    ensures
        r@.map_values(|b: ImportBinding| binding_view(b)) == ts_bindings(stmts@),
{
    let mut out: Vec<ImportBinding> = Vec::new();
    let mut k: usize = 0;
    proof {
        assert(out@.map_values(|b: ImportBinding| binding_view(b)) =~= ts_bindings(stmts@.subrange(0, 0)));
    }
    while k < stmts.len()
        invariant
            k <= stmts.len(),
            out@.map_values(|b: ImportBinding| binding_view(b)) == ts_bindings(stmts@.subrange(0, k as int)),
        decreases stmts.len() - k,
    {
        let ghost before = out@.map_values(|b: ImportBinding| binding_view(b));
        proof {
            assert(stmts@.subrange(0, k + 1).drop_last() =~= stmts@.subrange(0, k as int));
        }
        match &stmts[k] {
            ModuleStatement::Import(src, Some(specs)) => {
                if keeps_module(src) {
                    push_spec_bindings(specs, src, &mut out);
                }
            },
            ModuleStatement::ExportFrom(src, pairs) => {
                if keeps_module(src) {
                    push_reexport_bindings(pairs, src, &mut out);
                }
            },
            _ => {},
        }
        proof {
            assert(out@.map_values(|b: ImportBinding| binding_view(b)) =~= before + ts_statement_bindings(stmts@[k as int]));
        }
        k = k + 1;
    }
    proof {
        assert(stmts@.subrange(0, k as int) =~= stmts@);
    }
    out
}

/// The import bindings of TypeScript source, for imports from relative modules,
/// from `#` imports and from possible path aliases: each named or default import
/// specifier, in order, and each re-export `export { local as exported } from ..`
/// as `exported` bound to `local`.
pub fn parse_import_bindings(source: &str, file_path: Option<&str>) -> (r: Result<Vec<ImportBinding>, ParseError>)
    ensures
        r matches Ok(v) && v@.map_values(|b: ImportBinding| binding_view(b)) == ts_bindings(oxc_statements(source@, typescript_path(file_path))),
{
    let stmts = parse_module_statements(source, path_or_index_ts(file_path));
    Ok(ts_import_bindings(&stmts))
}

} // verus!
