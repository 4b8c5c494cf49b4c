//! Migration specs: what an agent porting one file needs to know, and the names
//! and paths it should use.
use vstd::prelude::*;
use crate::text::{
    ascii_lower, chars_of, is_lower, is_upper, push_all, rfind_char, slice_copy, string_of, to_ascii_lower,
    unicode_lower, unicode_upper,
};

verus! {

/// The migration spec of one source file.
pub struct MigrationSpec {
    /// Relative source path (e.g. `src/utils/format.ts`).
    pub file: String,
    /// Target path (e.g. `src/utils/format.rs`).
    pub target_path: String,
    /// Topological layer (0: no dependencies, migrate first).
    pub layer: usize,
    /// Migration effort estimate.
    pub migration_effort: String,
    /// The module has tests.
    pub has_tests: bool,
    /// Full source code.
    pub source: String,
    pub exports: Vec<SpecExport>,
    pub symbols: Vec<SpecSymbol>,
    pub imports: SpecImports,
    /// Files that import this one.
    pub referenced_by: Vec<String>,
}

/// An exported item.
pub struct SpecExport {
    pub name: String,
    pub kind: String,
    pub signature: String,
    pub return_type: Option<String>,
    pub line_range: [usize; 2],
}

/// A symbol and its name in the target language.
pub struct SpecSymbol {
    pub name: String,
    pub kind: String,
    pub visibility: String,
    pub line_range: [usize; 2],
    pub signature: Option<String>,
    pub target_name: String,
    pub target_signature: Option<String>,
    pub params: Vec<SpecParam>,
    pub return_type: Option<String>,
    pub is_async: Option<bool>,
    pub migration_note: Option<String>,
}

/// A parameter of a symbol.
pub struct SpecParam {
    pub name: String,
    pub ty: String,
    pub optional: bool,
}

/// The imports of a file.
pub struct SpecImports {
    /// Relative imports, resolved to source paths.
    pub relative: Vec<SpecImport>,
    /// External package imports.
    pub external: Vec<SpecImport>,
}

/// One import and what replaces it.
pub struct SpecImport {
    pub from: String,
    pub symbols: Vec<String>,
    pub target_import: Option<String>,
    pub migration_note: Option<String>,
}

// ---------------------------------------------------------------------------
// Target paths
// ---------------------------------------------------------------------------

/// The file name of a `/`-separated path: what follows the last `/`.
pub open spec fn file_name(p: Seq<char>) -> Seq<char> {
    match crate::text::rfind_spec(p, seq!['/']) {
        Some(k) => p.subrange(k + 1, p.len() as int),
        None => p,
    }
}

/// The directory of a `/`-separated path: what precedes the last `/`.
pub open spec fn parent_dir(p: Seq<char>) -> Option<Seq<char>> {
    match crate::text::rfind_spec(p, seq!['/']) {
        Some(k) => Some(p.subrange(0, k)),
        None => None,
    }
}

/// The stem of a file name: the whole name when it has no `.` but a leading one,
/// else what precedes its last `.`.
pub open spec fn file_stem(name: Seq<char>) -> Seq<char> {
    match crate::text::rfind_spec(name, seq!['.']) {
        Some(k) => if k == 0 {
            name
        } else {
            name.subrange(0, k)
        },
        None => name,
    }
}

/// `s` with every `\` turned into `/`.
pub open spec fn forward_slashes(s: Seq<char>) -> Seq<char> {
    s.map_values(|c: char| if c == '\\' { '/' } else { c })
}

/// Where the port of a source file goes: the same directory and stem, with the
/// `.rs` extension; a path with no file name gets `.rs` appended.
pub open spec fn target_path_of(source: Seq<char>) -> Seq<char> {
    let name = file_name(source);
    if name.len() == 0 {
        source + ".rs"@
    } else {
        match parent_dir(source) {
            Some(d) => forward_slashes(d + seq!['/'] + file_stem(name) + ".rs"@),
            None => forward_slashes(file_stem(name) + ".rs"@),
        }
    }
}

pub(crate) fn forward_slashes_exec(s: &[char]) -> (r: Vec<char>)
    ensures
        r@ == forward_slashes(s@),
{
    let mut r: Vec<char> = Vec::new();
    let mut i: usize = 0;
    while i < s.len()
        invariant
            i <= s.len(),
            r@ == forward_slashes(s@.subrange(0, i as int)),
        decreases s.len() - i,
    {
        let c = if s[i] == '\\' { '/' } else { s[i] };
        r.push(c);
        i = i + 1;
        proof {
            assert(r@ =~= forward_slashes(s@.subrange(0, i as int)));
        }
    }
    proof {
        assert(s@.subrange(0, i as int) =~= s@);
    }
    r
}

fn split_path(s: &[char]) -> (r: (Option<Vec<char>>, Vec<char>))
    ensures
        r.1@ == file_name(s@),
        match r.0 {
            Some(d) => parent_dir(s@) == Some(d@),
            None => parent_dir(s@) is None,
        },
{
    let slash = rfind_char(s, '/');
    proof {
        crate::text::lemma_rfind_char_spec(s@, '/', slash);
    }
    match slash {
        Some(k) => (Some(slice_copy(s, 0, k)), slice_copy(s, k + 1, s.len())),
        None => (None, slice_copy(s, 0, s.len())),
    }
}

fn file_stem_exec(name: &[char]) -> (r: Vec<char>)
    ensures
        r@ == file_stem(name@),
{
    let dot = rfind_char(name, '.');
    proof {
        crate::text::lemma_rfind_char_spec(name@, '.', dot);
    }
    match dot {
        Some(k) => if k == 0 {
            slice_copy(name, 0, name.len())
        } else {
            slice_copy(name, 0, k)
        },
        None => slice_copy(name, 0, name.len()),
    }
}

/// Where the port of `source_path` goes (`src/utils/format.ts` to
/// `src/utils/format.rs`).
pub fn derive_target_path(source_path: &str) -> (r: String)
    ensures
        r@ == target_path_of(source_path@),
{
    let s = chars_of(source_path);
    let (dir, name) = split_path(&s);
    if name.len() == 0 {
        let mut r = s;
        push_all(&mut r, &chars_of(".rs"));
        return string_of(&r);
    }
    let stem = file_stem_exec(&name);
    let mut out: Vec<char> = match dir {
        Some(d) => {
            let mut d = d;
            d.push('/');
            d
        },
        None => Vec::new(),
    };
    let ghost head = out@;
    push_all(&mut out, &stem);
    push_all(&mut out, &chars_of(".rs"));
    proof {
        assert(out@ == head + stem@ + ".rs"@);
        if head.len() == 0 {
            assert(head + stem@ + ".rs"@ =~= stem@ + ".rs"@);
        }
    }
    string_of(&forward_slashes_exec(&out))
}

// ---------------------------------------------------------------------------
// snake_case names
// ---------------------------------------------------------------------------

/// End of the run of uppercase characters that starts at `i`.
pub open spec fn upper_run_end(s: Seq<char>, i: int) -> int
    decreases s.len() - i,
{
    if 0 <= i < s.len() && unicode_upper(s[i]) {
        upper_run_end(s, i + 1)
    } else {
        i
    }
}

pub proof fn lemma_run_end(s: Seq<char>, i: int)
    requires
        0 <= i <= s.len(),
    ensures
        i <= upper_run_end(s, i) <= s.len(),
        i < s.len() && unicode_upper(s[i]) ==> upper_run_end(s, i) > i,
        forall|j: int| i <= j < upper_run_end(s, i) ==> unicode_upper(#[trigger] s[j]),
        upper_run_end(s, i) < s.len() ==> !unicode_upper(s[upper_run_end(s, i)]),
    decreases s.len() - i,
{
    if i < s.len() && unicode_upper(s[i]) {
        lemma_run_end(s, i + 1);
    }
}

pub open spec fn lower_all(s: Seq<char>) -> Seq<char> {
    s.map_values(|c: char| ascii_lower(c))
}

/// The snake_case form of `s` from position `i` on, after `acc`: an underscore is
/// kept; a lowercase-or-other character is kept; a run of uppercase characters is
/// lowercased (ASCII letters only) as a word of its own, preceded by `_` unless it
/// starts the name or follows `_`; a run of several uppercase characters followed
/// by a lowercase one ends one character early, that last capital starting the
/// next word.
pub open spec fn snake_from(s: Seq<char>, i: int, acc: Seq<char>) -> Seq<char>
    decreases s.len() - i,
{
    if i < 0 || i >= s.len() {
        acc
    } else if s[i] == '_' {
        snake_from(s, i + 1, acc.push('_'))
    } else if unicode_upper(s[i]) {
        let e = upper_run_end(s, i);
        proof {
            lemma_run_end(s, i);
        }
        let a1 = if i > 0 && s[i - 1] != '_' { acc.push('_') } else { acc };
        if e - i == 1 {
            snake_from(s, e, a1.push(ascii_lower(s[i])))
        } else if e < s.len() && unicode_lower(s[e]) {
            let a2 = a1 + lower_all(s.subrange(i, e - 1));
            let a3 = if a2.len() > 0 && a2.last() != '_' { a2.push('_') } else { a2 };
            snake_from(s, e, a3.push(ascii_lower(s[e - 1])))
        } else {
            snake_from(s, e, a1 + lower_all(s.subrange(i, e)))
        }
    } else {
        snake_from(s, i + 1, acc.push(s[i]))
    }
}

pub open spec fn snake_case(s: Seq<char>) -> Seq<char> {
    snake_from(s, 0, Seq::empty())
}

fn push_lowered(r: &mut Vec<char>, s: &[char], a: usize, b: usize)
    requires
        a <= b <= s.len(),
    ensures
        final(r)@ == old(r)@ + lower_all(s@.subrange(a as int, b as int)),
{
    let ghost r0 = r@;
    let mut j: usize = a;
    while j < b
        invariant
            a <= j <= b <= s.len(),
            r@ == r0 + lower_all(s@.subrange(a as int, j as int)),
        decreases b - j,
    {
        r.push(to_ascii_lower(s[j]));
        j = j + 1;
        proof {
            assert(r@ =~= r0 + lower_all(s@.subrange(a as int, j as int)));
        }
    }
}

/// The snake_case form of a name: `getUserById` gives `get_user_by_id`,
/// `XMLParser` gives `xml_parser`, `APP_NAME` gives `app_name`.
pub fn to_snake_case(name: &str) -> (r: String)
    ensures
        r@ == snake_case(name@),
{
    let chars = chars_of(name);
    let n = chars.len();
    let mut result: Vec<char> = Vec::new();
    let mut i: usize = 0;
    while i < n
        invariant
            i <= n == chars.len(),
            chars@ == name@,
            snake_case(name@) == snake_from(chars@, i as int, result@),
        decreases n - i,
    {
        let c = chars[i];
        if c == '_' {
            result.push('_');
            i = i + 1;
        } else if is_upper(c) {
            let run_start = i;
            proof {
                lemma_run_end(chars@, i as int);
            }
            while i < n && is_upper(chars[i])
                invariant
                    run_start <= i <= n == chars.len(),
                    upper_run_end(chars@, run_start as int) == upper_run_end(chars@, i as int),
                decreases n - i,
            {
                i = i + 1;
            }
            let run_end = i;
            proof {
                lemma_run_end(chars@, run_start as int);
                assert(upper_run_end(chars@, run_end as int) == run_end as int);
            }
            let ghost acc = result@;
            if run_start > 0 && chars[run_start - 1] != '_' {
                result.push('_');
            }
            let ghost a1 = result@;
            if run_end - run_start == 1 {
                result.push(to_ascii_lower(c));
            } else {
                let next_is_lower = run_end < n && is_lower(chars[run_end]);
                if next_is_lower {
                    push_lowered(&mut result, &chars, run_start, run_end - 1);
                    let ghost a2 = result@;
                    if result.len() > 0 && result[result.len() - 1] != '_' {
                        result.push('_');
                    }
                    proof {
                        assert(result@ == if a2.len() > 0 && a2.last() != '_' { a2.push('_') } else { a2 });
                    }
                    result.push(to_ascii_lower(chars[run_end - 1]));
                } else {
                    push_lowered(&mut result, &chars, run_start, run_end);
                }
            }
        } else {
            result.push(c);
            i = i + 1;
        }
    }
    string_of(&result)
}

// ---------------------------------------------------------------------------
// Building a spec
// ---------------------------------------------------------------------------

fn clone_opt_string(o: &Option<String>) -> (r: Option<String>)
    ensures
        r == *o,
{
    match o {
        Some(s) => Some(s.clone()),
        None => None,
    }
}

/// `x` is `e` as a spec export.
pub open spec fn export_entry(x: SpecExport, e: crate::symbols::ApiExport) -> bool {
    &&& x.name == e.name
    &&& x.kind == e.kind
    &&& x.signature == e.signature
    &&& x.return_type == e.return_type
    &&& x.line_range == e.line_range
}

/// The public symbols of a list, in order.
pub open spec fn public_symbols(v: Seq<crate::symbols::Symbol>) -> Seq<crate::symbols::Symbol> {
    v.filter(|s: crate::symbols::Symbol| s.visibility == Some(crate::symbols::Visibility::Public))
}

/// `p` is the symbol parameter `q` in a spec.
pub open spec fn param_entry(p: SpecParam, q: crate::symbols::SymbolParam) -> bool {
    p.name == q.name && p.ty == q.ty && p.optional == q.optional
}

/// `x` is the public symbol `s` in a spec: its name and its snake_case name, its
/// kind, signature (also as the target signature), return type, `async` flag,
/// lines and parameters (none when it has no list), no migration note.
pub open spec fn symbol_entry(x: SpecSymbol, s: crate::symbols::Symbol) -> bool {
    &&& x.name == s.name
    &&& x.kind == s.kind
    &&& x.visibility@ == "Some(Public)"@
    &&& x.line_range == s.line_range
    &&& x.signature == s.signature
    &&& x.target_name@ == snake_case(s.name@)
    &&& x.target_signature == s.signature
    &&& x.return_type == s.return_type
    &&& x.is_async == s.is_async
    &&& x.migration_note is None
    &&& match s.params {
        Some(ps) => x.params@.len() == ps@.len() && forall|i: int| 0 <= i < ps@.len() ==> param_entry(#[trigger] x.params@[i], ps@[i]),
        None => x.params@.len() == 0,
    }
}

/// `x` is the import `from` with the note `note`, no symbols and no target.
pub open spec fn import_entry(x: SpecImport, from: String, note: Seq<char>) -> bool {
    &&& x.from == from
    &&& x.symbols@.len() == 0
    &&& x.target_import is None
    &&& x.migration_note matches Some(n) && n@ == note
}

fn spec_export(e: &crate::symbols::ApiExport) -> (r: SpecExport)
    ensures
        export_entry(r, *e),
{
    SpecExport {
        name: e.name.clone(),
        kind: e.kind.clone(),
        signature: e.signature.clone(),
        return_type: clone_opt_string(&e.return_type),
        line_range: e.line_range,
    }
}

fn spec_params(ps: &Option<Vec<crate::symbols::SymbolParam>>) -> (r: Vec<SpecParam>)
    ensures
        match *ps {
            Some(v) => r@.len() == v@.len() && forall|i: int| 0 <= i < v@.len() ==> param_entry(#[trigger] r@[i], v@[i]),
            None => r@.len() == 0,
        },
{
    let mut r: Vec<SpecParam> = Vec::new();
    match ps {
        Some(v) => {
            let mut i: usize = 0;
            while i < v.len()
                invariant
                    i <= v.len(),
                    r@.len() == i,
                    forall|j: int| 0 <= j < i ==> param_entry(#[trigger] r@[j], v@[j]),
                decreases v.len() - i,
            {
                r.push(SpecParam { name: v[i].name.clone(), ty: v[i].ty.clone(), optional: v[i].optional });
                i = i + 1;
            }
        },
        None => {},
    }
    r
}

fn spec_symbol(s: &crate::symbols::Symbol) -> (r: SpecSymbol)
    requires
        s.visibility == Some(crate::symbols::Visibility::Public),
    ensures
        symbol_entry(r, *s),
{
    let vis = String::from_str("Some(Public)");
    SpecSymbol {
        name: s.name.clone(),
        kind: s.kind.clone(),
        visibility: vis,
        line_range: s.line_range,
        signature: clone_opt_string(&s.signature),
        target_name: to_snake_case(s.name.as_str()),
        target_signature: clone_opt_string(&s.signature),
        params: spec_params(&s.params),
        return_type: clone_opt_string(&s.return_type),
        is_async: s.is_async,
        migration_note: None,
    }
}

fn spec_imports(v: &Vec<String>, note: &str) -> (r: Vec<SpecImport>)
    ensures
        r@.len() == v@.len(),
        forall|i: int| 0 <= i < v@.len() ==> import_entry(#[trigger] r@[i], v@[i], note@),
{
    let mut r: Vec<SpecImport> = Vec::new();
    let mut i: usize = 0;
    while i < v.len()
        invariant
            i <= v.len(),
            r@.len() == i,
            forall|j: int| 0 <= j < i ==> import_entry(#[trigger] r@[j], v@[j], note@),
        decreases v.len() - i,
    {
        r.push(SpecImport {
            from: v[i].clone(),
            symbols: Vec::new(),
            target_import: None,
            migration_note: Some(String::from_str(note)),
        });
        i = i + 1;
    }
    r
}

/// The migration spec of a file: its path and the target path, its layer, effort,
/// tests, source and referrers as given; its exports; its public symbols, in
/// order, with their snake_case names; its imports, relative ones noted to be
/// resolved, external ones to be checked against the compatibility matrix.
pub fn build_spec(
    ast_output: &crate::ast::AstOutput,
    referenced_by: Vec<String>,
    layer: usize,
    migration_effort: &str,
    has_tests: bool,
) -> (r: MigrationSpec)
    ensures
        r.file == ast_output.file_path,
        r.target_path@ == target_path_of(ast_output.file_path@),
        r.layer == layer,
        r.migration_effort@ == migration_effort@,
        r.has_tests == has_tests,
        r.source == ast_output.source,
        r.referenced_by == referenced_by,
        r.exports@.len() == ast_output.exports@.len(),
        forall|i: int| 0 <= i < ast_output.exports@.len() ==> export_entry(#[trigger] r.exports@[i], ast_output.exports@[i]),
        r.symbols@.len() == public_symbols(ast_output.symbols@).len(),
        forall|i: int| 0 <= i < r.symbols@.len() ==> symbol_entry(#[trigger] r.symbols@[i], public_symbols(ast_output.symbols@)[i]),
        r.imports.relative@.len() == ast_output.imports.relative_imports@.len(),
        forall|i: int| 0 <= i < r.imports.relative@.len() ==> import_entry(
            #[trigger] r.imports.relative@[i],
            ast_output.imports.relative_imports@[i],
            "Resolve relative path during migration"@,
        ),
        r.imports.external@.len() == ast_output.imports.external_imports@.len(),
        forall|i: int| 0 <= i < r.imports.external@.len() ==> import_entry(
            #[trigger] r.imports.external@[i],
            ast_output.imports.external_imports@[i],
            "Check compatibility matrix for equivalent crate"@,
        ),
{
    let target_path = derive_target_path(ast_output.file_path.as_str());
    let mut exports: Vec<SpecExport> = Vec::new();
    let mut i: usize = 0;
    while i < ast_output.exports.len()
        invariant
            i <= ast_output.exports.len(),
            exports@.len() == i,
            forall|j: int| 0 <= j < i ==> export_entry(#[trigger] exports@[j], ast_output.exports@[j]),
        decreases ast_output.exports.len() - i,
    {
        exports.push(spec_export(&ast_output.exports[i]));
        i = i + 1;
    }
    let ghost syms = ast_output.symbols@;
    let mut symbols: Vec<SpecSymbol> = Vec::new();
    let mut k: usize = 0;
    proof {
        assert(public_symbols(syms.subrange(0, 0)) =~= Seq::<crate::symbols::Symbol>::empty());
    }
    while k < ast_output.symbols.len()
        invariant
            k <= ast_output.symbols.len(),
            syms == ast_output.symbols@,
            symbols@.len() == public_symbols(syms.subrange(0, k as int)).len(),
            forall|j: int| 0 <= j < symbols@.len() ==> symbol_entry(#[trigger] symbols@[j], public_symbols(syms.subrange(0, k as int))[j]),
        decreases ast_output.symbols.len() - k,
    {
        let ghost pre = public_symbols(syms.subrange(0, k as int));
        proof {
            assert(syms.subrange(0, k + 1) =~= syms.subrange(0, k as int).push(syms[k as int]));
            syms.subrange(0, k as int).lemma_filter_push(syms[k as int], |s: crate::symbols::Symbol| s.visibility == Some(crate::symbols::Visibility::Public));
        }
        let s = &ast_output.symbols[k];
        let public = match s.visibility {
            Some(crate::symbols::Visibility::Public) => true,
            _ => false,
        };
        if public {
            symbols.push(spec_symbol(s));
            proof {
                assert(public_symbols(syms.subrange(0, k + 1)) == pre.push(syms[k as int]));
            }
        } else {
            proof {
                assert(public_symbols(syms.subrange(0, k + 1)) == pre);
            }
        }
        k = k + 1;
    }
    proof {
        assert(syms.subrange(0, k as int) =~= syms);
    }
    let relative = spec_imports(&ast_output.imports.relative_imports, "Resolve relative path during migration");
    let external = spec_imports(&ast_output.imports.external_imports, "Check compatibility matrix for equivalent crate");
    MigrationSpec {
        file: ast_output.file_path.clone(),
        target_path,
        layer,
        migration_effort: String::from_str(migration_effort),
        has_tests,
        source: ast_output.source.clone(),
        exports,
        symbols,
        imports: SpecImports { relative, external },
        referenced_by,
    }
}

} // verus!
