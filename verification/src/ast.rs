//! What one reading of a source file gives.
use vstd::prelude::*;
use crate::language::Diagnostic;
use crate::parser::ModuleReferences;
use crate::symbols::{ApiContract, ApiExport, Symbol};
use crate::symbols::script_ast::ScriptStatement;
use crate::symbols::typescript::{export_view, extract_statements, script_out, symbol_view, symbol_views};
use vstd::string::StringSliceAdditionalSpecFns;

verus! {

/// Everything one reading of a source file gives.
pub struct AstOutput {
    /// Relative file path (e.g. `src/utils/format.ts`).
    pub file_path: String,
    /// Full source code.
    pub source: String,
    /// Source language.
    pub language: String,
    /// Declared symbols (functions, classes, interfaces and the like).
    pub symbols: Vec<Symbol>,
    /// Exported API surface.
    pub exports: Vec<ApiExport>,
    /// API contract of the module.
    pub api_contract: ApiContract,
    /// Imports, relative and external.
    pub imports: ModuleReferences,
    /// Parser diagnostics.
    pub diagnostics: Vec<Diagnostic>,
}

/// The module name of a file: its path with `\` turned into `/`, or `unknown`.
pub open spec fn module_name(file_path: Option<&str>) -> Seq<char> {
    match file_path {
        Some(p) => crate::spec_writer::forward_slashes(p@),
        None => "unknown"@,
    }
}

fn module_name_exec(file_path: Option<&str>) -> (r: String)
    ensures
        r@ == module_name(file_path),
{
    match file_path {
        Some(p) => {
            let cs = crate::spec_writer::forward_slashes_exec(crate::text::chars_of(p).as_slice());
            crate::text::string_of(cs.as_slice())
        },
        None => String::from_str("unknown"),
    }
}

fn clone_params(ps: &Vec<crate::symbols::Param>) -> (r: Vec<crate::symbols::Param>)
    ensures
        r@.map_values(|p: crate::symbols::Param| crate::symbols::typescript::param_view(p))
            == ps@.map_values(|p: crate::symbols::Param| crate::symbols::typescript::param_view(p)),
{
    let mut r: Vec<crate::symbols::Param> = Vec::new();
    let mut i: usize = 0;
    while i < ps.len()
        invariant
            i <= ps.len(),
            r@.map_values(|p: crate::symbols::Param| crate::symbols::typescript::param_view(p))
                == ps@.subrange(0, i as int).map_values(|p: crate::symbols::Param| crate::symbols::typescript::param_view(p)),
        decreases ps.len() - i,
    {
        let q = crate::symbols::Param { name: ps[i].name.clone(), ty: ps[i].ty.clone(), optional: ps[i].optional };
        let ghost r0 = r@;
        r.push(q);
        proof {
            assert(ps@.subrange(0, i + 1).map_values(|p: crate::symbols::Param| crate::symbols::typescript::param_view(p))
                =~= ps@.subrange(0, i as int).map_values(|p: crate::symbols::Param| crate::symbols::typescript::param_view(p)).push(
                crate::symbols::typescript::param_view(ps@[i as int])));
            assert(r@.map_values(|p: crate::symbols::Param| crate::symbols::typescript::param_view(p))
                =~= r0.map_values(|p: crate::symbols::Param| crate::symbols::typescript::param_view(p)).push(
                crate::symbols::typescript::param_view(q)));
        }
        i = i + 1;
    }
    proof {
        assert(ps@.subrange(0, ps.len() as int) =~= ps@);
    }
    r
}

fn clone_exports(v: &Vec<ApiExport>) -> (r: Vec<ApiExport>)
    ensures
        r@.map_values(|x: ApiExport| export_view(x)) == v@.map_values(|x: ApiExport| export_view(x)),
{
    let mut r: Vec<ApiExport> = Vec::new();
    let mut i: usize = 0;
    while i < v.len()
        invariant
            i <= v.len(),
            r@.map_values(|x: ApiExport| export_view(x)) == v@.subrange(0, i as int).map_values(|x: ApiExport| export_view(x)),
        decreases v.len() - i,
    {
        let e = &v[i];
        let params = clone_params(&e.params);
        let generics = crate::symbols::typescript::clone_strings(&e.generics);
        let c = ApiExport {
            name: e.name.clone(),
            kind: e.kind.clone(),
            generics,
            signature: e.signature.clone(),
            params,
            return_type: match &e.return_type {
                Some(t) => Some(t.clone()),
                None => None,
            },
            description: match &e.description {
                Some(t) => Some(t.clone()),
                None => None,
            },
            line_range: e.line_range,
            partial_analysis: e.partial_analysis,
        };
        let ghost r0 = r@;
        r.push(c);
        proof {
            assert(r@.map_values(|x: ApiExport| export_view(x)) =~= r0.map_values(|x: ApiExport| export_view(x)).push(export_view(c)));
            assert(export_view(c) == export_view(v@[i as int]));
            assert(v@.subrange(0, i + 1).map_values(|x: ApiExport| export_view(x))
                =~= v@.subrange(0, i as int).map_values(|x: ApiExport| export_view(x)).push(export_view(v@[i as int])));
        }
        i = i + 1;
    }
    proof {
        assert(v@.subrange(0, i as int) =~= v@);
    }
    r
}

/// The path handed to the parser for the imports of a script: its own, or none.
pub open spec fn script_path(file_path: Option<&str>) -> Seq<char> {
    crate::parser::javascript::script_path(file_path)
}

/// Everything one reading of a TypeScript or JavaScript source gives: its module
/// name (the path with `/` separators, or `unknown`), its source, its symbols and
/// exports from the top-level statements, the same exports as its API contract,
/// and its imports; when the parser gave up (`statements` is `None`) there are no
/// symbols, exports or imports, and one error diagnostic.
pub fn script_output(source: &str, file_path: Option<&str>, statements: Option<&Vec<ScriptStatement>>) -> (r: AstOutput)
    requires
        source.spec_bytes().len() < usize::MAX,
    ensures
        r.file_path@ == module_name(file_path),
        r.source@ == source@,
        r.language@ == "typescript"@,
        r.api_contract.module@ == module_name(file_path),
        r.api_contract.exports@.map_values(|x: ApiExport| export_view(x)) == r.exports@.map_values(|x: ApiExport| export_view(x)),
        match statements {
            Some(st) => {
                &&& symbol_views(r.symbols@) == script_out(module_name(file_path), source.spec_bytes(), st@).0
                &&& r.exports@.map_values(|x: ApiExport| export_view(x)) == script_out(module_name(file_path), source.spec_bytes(), st@).1
                &&& crate::parser::references_of(r.imports, crate::parser::oxc_statements(source@, script_path(file_path)))
                &&& r.diagnostics@.len() == 0
            },
            None => {
                &&& r.symbols@.len() == 0
                &&& r.exports@.len() == 0
                &&& r.imports.relative_imports@.len() == 0
                &&& r.imports.external_imports@.len() == 0
                &&& r.diagnostics@.len() == 1
                &&& r.diagnostics@[0].message@ == "Parser panicked"@
                &&& r.diagnostics@[0].line == 0
                &&& r.diagnostics@[0].column == 0
                &&& r.diagnostics@[0].severity == crate::language::DiagnosticSeverity::Error
            },
        },
{
    let module = module_name_exec(file_path);
    match statements {
        Some(st) => {
            let (index, contract) = extract_statements(module.as_str(), source, st);
            let path = match file_path {
                Some(p) => p,
                None => {
                    proof {
                        reveal_strlit("");
                    }
                    ""
                },
            };
            proof {
                assert(path@ == script_path(file_path));
            }
            let imports = crate::parser::script_references(source, path);
            let exports = clone_exports(&contract.exports);
            AstOutput {
                file_path: module.clone(),
                source: String::from_str(source),
                language: String::from_str("typescript"),
                symbols: index.symbols,
                exports,
                api_contract: ApiContract { module, exports: contract.exports },
                imports,
                diagnostics: Vec::new(),
            }
        },
        None => {
            let mut diagnostics: Vec<Diagnostic> = Vec::new();
            diagnostics.push(Diagnostic {
                message: String::from_str("Parser panicked"),
                line: 0,
                column: 0,
                severity: crate::language::DiagnosticSeverity::Error,
            });
            let r = AstOutput {
                file_path: module.clone(),
                source: String::from_str(source),
                language: String::from_str("typescript"),
                symbols: Vec::new(),
                exports: Vec::new(),
                api_contract: ApiContract { module, exports: Vec::new() },
                imports: ModuleReferences { relative_imports: Vec::new(), external_imports: Vec::new() },
                diagnostics,
            };
            proof {
                assert(r.api_contract.exports@.map_values(|x: ApiExport| export_view(x)) =~= r.exports@.map_values(|x: ApiExport| export_view(x)));
            }
            r
        },
    }
}

/// The exports that a single reading of a Rust file gives of its symbols: one per
/// public symbol, with its name, kind, signature (empty when it has none), return
/// type, doc comment and lines.
pub open spec fn symbol_exports(v: Seq<crate::symbols::typescript::SymbolSpec>) -> Seq<crate::symbols::typescript::ExportSpec>
    decreases v.len(),
{
    if v.len() == 0 {
        Seq::empty()
    } else {
        symbol_exports(v.drop_last()) + if v.last().visibility == Some(crate::symbols::Visibility::Public) {
            seq![crate::symbols::typescript::ExportSpec {
                return_type: v.last().return_type,
                description: v.last().doc_comment,
                ..crate::symbols::typescript::plain_export(v.last().name, v.last().kind, match v.last().signature {
                    Some(t) => t,
                    None => Seq::<char>::empty(),
                }, v.last().lines)
            }]
        } else {
            Seq::empty()
        }
    }
}

fn exports_of_symbols(v: &Vec<Symbol>) -> (r: Vec<ApiExport>)
    ensures
        r@.map_values(|x: ApiExport| export_view(x)) == symbol_exports(symbol_views(v@)),
{
    let mut out: Vec<ApiExport> = Vec::new();
    let mut i: usize = 0;
    proof {
        reveal_strlit("");
        assert(out@.map_values(|x: ApiExport| export_view(x)) =~= Seq::<crate::symbols::typescript::ExportSpec>::empty());
        assert(symbol_views(v@.subrange(0, 0)) =~= Seq::<crate::symbols::typescript::SymbolSpec>::empty());
    }
    while i < v.len()
        invariant
            i <= v.len(),
            out@.map_values(|x: ApiExport| export_view(x)) == symbol_exports(symbol_views(v@.subrange(0, i as int))),
        decreases v.len() - i,
    {
        proof {
            reveal_strlit("");
            let w = v@.subrange(0, i + 1);
            assert(w.drop_last() =~= v@.subrange(0, i as int));
            assert(w.last() == v@[i as int]);
            assert(symbol_views(w) == symbol_views(w.drop_last()).push(symbol_view(w.last())));
            assert(symbol_views(w).drop_last() =~= symbol_views(v@.subrange(0, i as int)));
            assert(symbol_views(w).last() == symbol_view(v@[i as int]));
        }
        let s = &v[i];
        let public = match s.visibility {
            Some(crate::symbols::Visibility::Public) => true,
            _ => false,
        };
        if public {
            let e = ApiExport {
                name: s.name.clone(),
                kind: s.kind.clone(),
                generics: Vec::new(),
                signature: match &s.signature {
                    Some(t) => t.clone(),
                    None => String::from_str(""),
                },
                params: Vec::new(),
                return_type: match &s.return_type {
                    Some(t) => Some(t.clone()),
                    None => None,
                },
                description: match &s.doc_comment {
                    Some(t) => Some(t.clone()),
                    None => None,
                },
                line_range: s.line_range,
                partial_analysis: false,
            };
            proof {
                assert(e.params@.map_values(|p: crate::symbols::Param| crate::symbols::typescript::param_view(p)) =~= Seq::<(Seq<char>, Seq<char>, bool)>::empty());
                assert(crate::text::views(e.generics@) =~= Seq::<Seq<char>>::empty());
            }
            let ghost o0 = out@;
            out.push(e);
            proof {
                let sv = symbol_view(v@[i as int]);
                assert(sv.visibility == Some(crate::symbols::Visibility::Public));
                assert(e.signature@ == match sv.signature {
                    Some(t) => t,
                    None => Seq::<char>::empty(),
                });
                assert(export_view(e) == (crate::symbols::typescript::ExportSpec {
                    return_type: sv.return_type,
                    description: sv.doc_comment,
                    ..crate::symbols::typescript::plain_export(sv.name, sv.kind, match sv.signature {
                        Some(t) => t,
                        None => Seq::<char>::empty(),
                    }, sv.lines)
                }));
                assert(out@.map_values(|x: ApiExport| export_view(x)) =~= o0.map_values(|x: ApiExport| export_view(x)).push(export_view(e)));
                assert(out@.map_values(|x: ApiExport| export_view(x)) =~= symbol_exports(symbol_views(v@.subrange(0, i + 1))));
            }
        } else {
            proof {
                assert(out@.map_values(|x: ApiExport| export_view(x)) =~= symbol_exports(symbol_views(v@.subrange(0, i + 1))));
            }
        }
        i = i + 1;
    }
    proof {
        assert(v@.subrange(0, v.len() as int) =~= v@);
    }
    out
}

fn sorted_unique(v: Vec<String>) -> (r: Vec<String>)
    ensures
        crate::text::strictly_sorted(crate::text::views(r@)),
        crate::text::views(r@).to_set() == crate::text::views(v@).to_set(),
{
    let mut r: Vec<String> = Vec::new();
    let mut i: usize = 0;
    proof {
        assert(crate::text::views(r@).to_set() =~= crate::text::views(v@.subrange(0, 0)).to_set());
    }
    while i < v.len()
        invariant
            i <= v.len(),
            crate::text::strictly_sorted(crate::text::views(r@)),
            crate::text::views(r@).to_set() == crate::text::views(v@.subrange(0, i as int)).to_set(),
        decreases v.len() - i,
    {
        crate::text::insert_sorted_unique(&mut r, v[i].clone());
        proof {
            assert(crate::text::views(v@.subrange(0, i + 1)) =~= crate::text::views(v@.subrange(0, i as int)).push(v@[i as int]@));
            crate::text::views(v@.subrange(0, i as int)).lemma_push_to_set_commute(v@[i as int]@);
        }
        i = i + 1;
    }
    proof {
        assert(v@.subrange(0, v.len() as int) =~= v@);
    }
    r
}

/// Everything one reading of a Rust source gives: its module name, its source, the
/// public symbols that a single reading records (see `unified_decl`), an export for
/// each, as exports and as the API contract, and its imports sorted and without
/// repeats; or the error of `syn`.
pub fn rust_output(source: &str, file_path: &str) -> (r: Result<AstOutput, crate::parser::ParseError>)
    ensures
        match (crate::symbols::rust_items::syn_decls(source@), crate::parser::rust::syn_file_items(source@)) {
            (Ok(items), Ok(uses)) => r matches Ok(o) && {
                &&& o.file_path@ == crate::spec_writer::forward_slashes(file_path@)
                &&& o.source@ == source@
                &&& o.language@ == "rust"@
                &&& symbol_views(o.symbols@) == crate::symbols::rust::unified_decls(crate::spec_writer::forward_slashes(file_path@), items)
                &&& o.exports@.map_values(|x: ApiExport| export_view(x)) == symbol_exports(symbol_views(o.symbols@))
                &&& o.api_contract.exports@.map_values(|x: ApiExport| export_view(x)) == symbol_exports(symbol_views(o.symbols@))
                &&& o.api_contract.module == o.file_path
                &&& crate::text::strictly_sorted(crate::text::views(o.imports.relative_imports@))
                &&& crate::text::strictly_sorted(crate::text::views(o.imports.external_imports@))
                &&& crate::text::views(o.imports.relative_imports@).to_set() == crate::parser::rust::items_paths(uses, true, false).to_set()
                &&& crate::text::views(o.imports.external_imports@).to_set() == crate::parser::rust::items_paths(uses, false, false).to_set()
                &&& o.diagnostics@.len() == 0
            },
            (Err(msg), _) => r matches Err(e) && e.message@ == msg,
            (Ok(_), Err(msg)) => r matches Err(e) && e.message@ == msg,
        },
{
    let module = module_name_exec(Some(file_path));
    let symbols = match crate::symbols::rust::unified_symbols(module.as_str(), source) {
        Ok(v) => v,
        Err(e) => {
            return Err(e);
        },
    };
    let refs = match crate::parser::rust::parse_single_reading_references(source) {
        Ok(m) => m,
        Err(e) => {
            return Err(e);
        },
    };
    let exports = exports_of_symbols(&symbols);
    let contract_exports = exports_of_symbols(&symbols);
    let relative = sorted_unique(refs.relative_imports);
    let external = sorted_unique(refs.external_imports);
    Ok(AstOutput {
        file_path: module.clone(),
        source: String::from_str(source),
        language: String::from_str("rust"),
        symbols,
        exports,
        api_contract: ApiContract { module, exports: contract_exports },
        imports: ModuleReferences { relative_imports: relative, external_imports: external },
        diagnostics: Vec::new(),
    })
}

} // verus!
