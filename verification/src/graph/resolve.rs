//! Where a relative import may point: the files, relative to the project root, that
//! would satisfy it, in the order they are tried.
use vstd::prelude::*;
use crate::parser::rust::push_text;
use crate::text::{chars_of, string_of, views};

verus! {

// ---------------------------------------------------------------------------
// Paths as lists of segments
// ---------------------------------------------------------------------------

/// The segments of a `/`-separated path, reading from `p` with the segment `cur`
/// begun and the segments `acc` done.
pub open spec fn split_from(p: Seq<char>, cur: Seq<char>, acc: Seq<Seq<char>>) -> Seq<Seq<char>>
    decreases p.len(),
{
    if p.len() == 0 {
        acc.push(cur)
    } else if p[0] == '/' {
        split_from(p.drop_first(), Seq::empty(), acc.push(cur))
    } else {
        split_from(p.drop_first(), cur.push(p[0]), acc)
    }
}

/// The segments of a `/`-separated path; empty segments are kept.
pub open spec fn split_slash(p: Seq<char>) -> Seq<Seq<char>> {
    split_from(p, Seq::empty(), Seq::empty())
}

/// Folds segments into `acc` lexically: empty and `.` segments vanish, `..` removes
/// the segment before it when there is one that is not itself `..`.
pub open spec fn normalize_from(segs: Seq<Seq<char>>, acc: Seq<Seq<char>>) -> Seq<Seq<char>>
    decreases segs.len(),
{
    if segs.len() == 0 {
        acc
    } else {
        let s = segs[0];
        let next = if s.len() == 0 || s == "."@ {
            acc
        } else if s == ".."@ && acc.len() > 0 && acc.last() != ".."@ {
            acc.drop_last()
        } else {
            acc.push(s)
        };
        normalize_from(segs.drop_first(), next)
    }
}

pub open spec fn normalize(segs: Seq<Seq<char>>) -> Seq<Seq<char>> {
    normalize_from(segs, Seq::empty())
}

/// Segments joined by `/`.
pub open spec fn join_slash(segs: Seq<Seq<char>>) -> Seq<char>
    decreases segs.len(),
{
    if segs.len() == 0 {
        Seq::empty()
    } else if segs.len() == 1 {
        segs[0]
    } else {
        join_slash(segs.drop_last()) + "/"@ + segs.last()
    }
}

/// The directory that holds the file at `segs`.
pub open spec fn parent_dir(segs: Seq<Seq<char>>) -> Seq<Seq<char>> {
    if segs.len() == 0 {
        seq![".."@]
    } else {
        segs.drop_last()
    }
}

/// The file name with `ext` as its extension, as `Path::with_extension` writes it:
/// what precedes the last `.` (when that `.` is not the first character) is kept.
pub open spec fn name_with_extension(name: Seq<char>, ext: Seq<char>) -> Seq<char> {
    let stem = match crate::text::rfind_spec(name, seq!['.']) {
        Some(k) => if k > 0 {
            name.subrange(0, k)
        } else {
            name
        },
        None => name,
    };
    stem + "."@ + ext
}

/// The path with its last segment given the extension `ext`; a path without a
/// file name (empty, or ending in `..`) is unchanged.
pub open spec fn with_extension(segs: Seq<Seq<char>>, ext: Seq<char>) -> Seq<Seq<char>> {
    if segs.len() == 0 || segs.last() == ".."@ {
        segs
    } else {
        segs.drop_last().push(name_with_extension(segs.last(), ext))
    }
}

// ---------------------------------------------------------------------------
// Computing them
// ---------------------------------------------------------------------------

fn split_slash_exec(p: &str) -> (r: Vec<String>)
    ensures
        views(r@) == split_slash(p@),
{
    let cs = chars_of(p);
    let mut acc: Vec<String> = Vec::new();
    let mut cur: Vec<char> = Vec::new();
    let mut i: usize = 0;
    proof {
        assert(cs@.subrange(0, cs.len() as int) =~= cs@);
        assert(views(acc@) =~= Seq::<Seq<char>>::empty());
        assert(cur@ =~= Seq::<char>::empty());
    }
    while i < cs.len()
        invariant
            i <= cs.len(),
            cs@ == p@,
            split_from(cs@.subrange(i as int, cs.len() as int), cur@, views(acc@)) == split_slash(p@),
        decreases cs.len() - i,
    {
        let ghost rest = cs@.subrange(i as int, cs.len() as int);
        let ghost a0 = views(acc@);
        let ghost c0 = cur@;
        proof {
            assert(rest.drop_first() =~= cs@.subrange(i + 1, cs.len() as int));
            assert(rest[0] == cs@[i as int]);
        }
        if cs[i] == '/' {
            acc.push(string_of(cur.as_slice()));
            cur = Vec::new();
            proof {
                assert(views(acc@) =~= a0.push(c0));
                assert(cur@ =~= Seq::<char>::empty());
            }
        } else {
            cur.push(cs[i]);
        }
        i = i + 1;
    }
    let ghost a0 = views(acc@);
    acc.push(string_of(cur.as_slice()));
    proof {
        assert(cs@.subrange(i as int, cs.len() as int) =~= Seq::<char>::empty());
        assert(views(acc@) =~= a0.push(cur@));
    }
    acc
}

fn copy_segments(v: &Vec<String>) -> (r: Vec<String>)
    ensures
        views(r@) == views(v@),
{
    crate::symbols::typescript::clone_strings(v)
}

fn is_seg(s: &String, t: &str) -> (r: bool)
    ensures
        r == (s@ == t@),
{
    crate::naming::same_chars(&chars_of(s.as_str()), &chars_of(t))
}

/// Appends the segments `segs` to `acc`, lexically as `normalize_from` does.
fn normalize_into(acc: &mut Vec<String>, segs: &Vec<String>)
    ensures
        views(final(acc)@) == normalize_from(views(segs@), views(old(acc)@)),
{
    let ghost whole = normalize_from(views(segs@), views(acc@));
    let mut i: usize = 0;
    proof {
        assert(views(segs@).subrange(0, views(segs@).len() as int) =~= views(segs@));
    }
    while i < segs.len()
        invariant
            i <= segs.len(),
            normalize_from(views(segs@).subrange(i as int, segs.len() as int), views(acc@)) == whole,
        decreases segs.len() - i,
    {
        let ghost rest = views(segs@).subrange(i as int, segs.len() as int);
        let ghost a0 = views(acc@);
        proof {
            assert(rest.drop_first() =~= views(segs@).subrange(i + 1, segs.len() as int));
            assert(rest[0] == segs@[i as int]@);
            reveal_strlit(".");
            reveal_strlit("..");
        }
        let s = &segs[i];
        if s.as_str().unicode_len() == 0 || is_seg(s, ".") {
        } else if is_seg(s, "..") && acc.len() > 0 && !is_seg(&acc[acc.len() - 1], "..") {
            acc.pop();
            proof {
                assert(views(acc@) =~= a0.drop_last());
            }
        } else {
            acc.push(s.clone());
            proof {
                assert(views(acc@) =~= a0.push(s@));
            }
        }
        i = i + 1;
    }
    proof {
        assert(views(segs@).subrange(i as int, segs.len() as int) =~= Seq::<Seq<char>>::empty());
    }
}

fn join_slash_exec(segs: &Vec<String>) -> (r: String)
    ensures
        r@ == join_slash(views(segs@)),
{
    let mut out = String::from_str("");
    proof {
        reveal_strlit("");
    }
    let mut i: usize = 0;
    while i < segs.len()
        invariant
            i <= segs.len(),
            out@ == join_slash(views(segs@).subrange(0, i as int)),
        decreases segs.len() - i,
    {
        proof {
            assert(views(segs@).subrange(0, i + 1).drop_last() =~= views(segs@).subrange(0, i as int));
        }
        if i > 0 {
            push_text(&mut out, "/");
        }
        push_text(&mut out, segs[i].as_str());
        proof {
            if i == 0 {
                assert(out@ =~= join_slash(views(segs@).subrange(0, 1)));
            } else {
                assert(out@ =~= join_slash(views(segs@).subrange(0, i + 1)));
            }
        }
        i = i + 1;
    }
    proof {
        assert(views(segs@).subrange(0, segs.len() as int) =~= views(segs@));
    }
    out
}

fn name_with_extension_exec(name: &String, ext: &str) -> (r: String)
    ensures
        r@ == name_with_extension(name@, ext@),
{
    let cs = chars_of(name.as_str());
    let dot = crate::text::rfind_sub(cs.as_slice(), &['.']);
    proof {
        assert(seq!['.'] =~= (['.']@));
    }
    let stem = match dot {
        Some(k) => if k > 0 {
            crate::text::slice_copy(cs.as_slice(), 0, k)
        } else {
            cs
        },
        None => cs,
    };
    let mut out = string_of(stem.as_slice());
    push_text(&mut out, ".");
    push_text(&mut out, ext);
    out
}

fn with_extension_exec(segs: &Vec<String>, ext: &str) -> (r: Vec<String>)
    ensures
        views(r@) == with_extension(views(segs@), ext@),
{
    let mut r = copy_segments(segs);
    proof {
        reveal_strlit("..");
    }
    if segs.len() == 0 || is_seg(&segs[segs.len() - 1], "..") {
        r
    } else {
        proof {
            assert(views(r@).len() == r@.len());
            assert(views(segs@).len() == segs@.len());
        }
        let last = r.pop().unwrap();
        let ghost before = views(r@);
        r.push(name_with_extension_exec(&last, ext));
        proof {
            assert(views(r@) =~= before.push(name_with_extension(last@, ext@)));
            assert(views(segs@).last() == last@);
            assert(before =~= views(segs@).drop_last());
        }
        r
    }
}

// ---------------------------------------------------------------------------
// Module ids and the candidates of an import
// ---------------------------------------------------------------------------

/// The id of a module at `rel` (relative to the root): its path normalized, with
/// `\` written `/`.
pub open spec fn module_id_spec(rel: Seq<char>) -> Seq<char> {
    crate::text::replace_all(join_slash(normalize(split_slash(rel))), seq!['\\'], seq!['/'])
}

fn backslashes_to_slashes(s: &String) -> (r: String)
    ensures
        r@ == crate::text::replace_all(s@, seq!['\\'], seq!['/']),
{
    let cs = chars_of(s.as_str());
    let out = crate::text::replace_chars(cs.as_slice(), &['\\'], &['/']);
    proof {
        assert((['\\'])@ =~= seq!['\\']);
        assert((['/'])@ =~= seq!['/']);
    }
    string_of(out.as_slice())
}

fn id_of_segments(segs: &Vec<String>) -> (r: String)
    ensures
        r@ == crate::text::replace_all(join_slash(normalize(views(segs@))), seq!['\\'], seq!['/']),
{
    let mut acc: Vec<String> = Vec::new();
    proof {
        assert(views(acc@) =~= Seq::<Seq<char>>::empty());
    }
    normalize_into(&mut acc, segs);
    backslashes_to_slashes(&join_slash_exec(&acc))
}

/// The module id of the file at `rel`, a path relative to the project root.
pub fn module_id(rel: &str) -> (r: String)
    ensures
        r@ == module_id_spec(rel@),
{
    id_of_segments(&split_slash_exec(rel))
}

/// The path that an import names from the file at `file`: next to the file, or,
/// for an import that starts with `/`, from the file system's root.
pub open spec fn import_base(file: Seq<char>, import: Seq<char>) -> (bool, Seq<Seq<char>>) {
    if import.len() > 0 && import[0] == '/' {
        (true, split_slash(import))
    } else {
        (false, parent_dir(split_slash(file)) + split_slash(import))
    }
}

/// A candidate written out: normalized, `/` first when it is absolute.
pub open spec fn candidate_text(absolute: bool, segs: Seq<Seq<char>>) -> Seq<char> {
    let t = crate::text::replace_all(join_slash(normalize(segs)), seq!['\\'], seq!['/']);
    if absolute {
        "/"@ + t
    } else {
        t
    }
}

/// The files that an import may name: the path itself, then with each of
/// `extensions`, then each of `index_files` inside it.
pub open spec fn import_candidates_spec(
    file: Seq<char>,
    import: Seq<char>,
    extensions: Seq<Seq<char>>,
    index_files: Seq<Seq<char>>,
) -> Seq<Seq<char>> {
    let (absolute, base) = import_base(file, import);
    seq![candidate_text(absolute, base)] + extensions.map_values(
        |e: Seq<char>| candidate_text(absolute, with_extension(base, e)),
    ) + index_files.map_values(|f: Seq<char>| candidate_text(absolute, base.push(f)))
}

fn candidate_exec(absolute: bool, segs: &Vec<String>) -> (r: String)
    ensures
        r@ == candidate_text(absolute, views(segs@)),
{
    let t = id_of_segments(segs);
    if absolute {
        let mut r = String::from_str("/");
        push_text(&mut r, t.as_str());
        r
    } else {
        t
    }
}

fn import_candidates(file: &str, import: &str, extensions: &Vec<&str>, index_files: &Vec<&str>) -> (r: Vec<String>)
    ensures
        views(r@) == import_candidates_spec(
            file@,
            import@,
            crate::language::str_views(extensions@),
            crate::language::str_views(index_files@),
        ),
{
    let ic = chars_of(import);
    let absolute = ic.len() > 0 && ic[0] == '/';
    let mut base = if absolute {
        split_slash_exec(import)
    } else {
        let mut b = split_slash_exec(file);
        let ghost fs = views(b@);
        proof {
            assert(views(b@).len() == b@.len());
        }
        if b.len() == 0 {
            b.push(String::from_str(".."));
            proof {
                reveal_strlit("..");
                assert(views(b@) =~= seq![".."@]);
            }
        } else {
            b.pop();
            proof {
                assert(views(b@) =~= fs.drop_last());
            }
        }
        let ghost pb = views(b@);
        let mut rest = split_slash_exec(import);
        let ghost rs = views(rest@);
        b.append(&mut rest);
        proof {
            assert(views(b@) =~= pb + rs);
        }
        b
    };
    proof {
        assert(views(base@) == import_base(file@, import@).1);
    }
    let ghost bs = views(base@);
    let ghost want = import_candidates_spec(
        file@,
        import@,
        crate::language::str_views(extensions@),
        crate::language::str_views(index_files@),
    );
    let mut out: Vec<String> = Vec::new();
    out.push(candidate_exec(absolute, &base));
    let mut k: usize = 0;
    proof {
        assert(views(out@) =~= want.subrange(0, 1));
    }
    while k < extensions.len()
        invariant
            k <= extensions.len(),
            views(base@) == bs,
            bs == import_base(file@, import@).1,
            absolute == import_base(file@, import@).0,
            want == import_candidates_spec(
                file@,
                import@,
                crate::language::str_views(extensions@),
                crate::language::str_views(index_files@),
            ),
            want.len() == 1 + extensions.len() + index_files.len(),
            views(out@) == want.subrange(0, 1 + k),
        decreases extensions.len() - k,
    {
        let c = candidate_exec(absolute, &with_extension_exec(&base, extensions[k]));
        let ghost o0 = views(out@);
        out.push(c);
        proof {
            assert(views(out@) =~= o0.push(c@));
            assert(want[1 + k] == candidate_text(absolute, with_extension(bs, extensions@[k as int]@)));
            assert(views(out@) =~= want.subrange(0, 1 + k + 1));
        }
        k = k + 1;
    }
    let mut j: usize = 0;
    while j < index_files.len()
        invariant
            j <= index_files.len(),
            views(base@) == bs,
            bs == import_base(file@, import@).1,
            absolute == import_base(file@, import@).0,
            want == import_candidates_spec(
                file@,
                import@,
                crate::language::str_views(extensions@),
                crate::language::str_views(index_files@),
            ),
            want.len() == 1 + extensions.len() + index_files.len(),
            views(out@) == want.subrange(0, 1 + extensions.len() + j),
        decreases index_files.len() - j,
    {
        let mut inner = copy_segments(&base);
        let ghost b0 = views(inner@);
        inner.push(String::from_str(index_files[j]));
        proof {
            assert(views(inner@) =~= b0.push(index_files@[j as int]@));
        }
        let c = candidate_exec(absolute, &inner);
        let ghost o0 = views(out@);
        out.push(c);
        proof {
            assert(views(out@) =~= o0.push(c@));
            assert(want[1 + extensions.len() + j] == candidate_text(absolute, bs.push(index_files@[j as int]@)));
            assert(views(out@) =~= want.subrange(0, 1 + extensions.len() + j + 1));
        }
        j = j + 1;
    }
    proof {
        assert(views(out@) =~= want);
    }
    out
}

/// The files, in the order they are tried, that a relative import of a TypeScript
/// file may name: the path, then with `.ts`, `.tsx` and `.js`, then `index.ts`,
/// `index.tsx` and `index.js` inside it.
pub fn typescript_import_candidates(file: &str, import: &str) -> (r: Vec<String>)
    ensures
        views(r@) == import_candidates_spec(
            file@,
            import@,
            seq!["ts"@, "tsx"@, "js"@],
            seq!["index.ts"@, "index.tsx"@, "index.js"@],
        ),
{
    let exts = vec!["ts", "tsx", "js"];
    let files = vec!["index.ts", "index.tsx", "index.js"];
    proof {
        assert(crate::language::str_views(exts@) =~= seq!["ts"@, "tsx"@, "js"@]);
        assert(crate::language::str_views(files@) =~= seq!["index.ts"@, "index.tsx"@, "index.js"@]);
    }
    import_candidates(file, import, &exts, &files)
}

/// The files, in the order they are tried, that a relative import of a JavaScript
/// file may name: the path, then with `.js`, `.jsx`, `.mjs` and `.cjs`, then the
/// `index` file of each of those extensions inside it.
pub fn javascript_import_candidates(file: &str, import: &str) -> (r: Vec<String>)
    ensures
        views(r@) == import_candidates_spec(
            file@,
            import@,
            seq!["js"@, "jsx"@, "mjs"@, "cjs"@],
            seq!["index.js"@, "index.jsx"@, "index.mjs"@, "index.cjs"@],
        ),
{
    let exts = vec!["js", "jsx", "mjs", "cjs"];
    let files = vec!["index.js", "index.jsx", "index.mjs", "index.cjs"];
    proof {
        assert(crate::language::str_views(exts@) =~= seq!["js"@, "jsx"@, "mjs"@, "cjs"@]);
        assert(crate::language::str_views(files@) =~= seq!["index.js"@, "index.jsx"@, "index.mjs"@, "index.cjs"@]);
    }
    import_candidates(file, import, &exts, &files)
}

// ---------------------------------------------------------------------------
// Rust module paths
// ---------------------------------------------------------------------------

/// The parts of a path separated by `::`, reading from `p` with the part `cur`
/// begun and the parts `acc` done.
pub open spec fn split_colons_from(p: Seq<char>, cur: Seq<char>, acc: Seq<Seq<char>>) -> Seq<Seq<char>>
    decreases p.len(),
{
    if p.len() == 0 {
        acc.push(cur)
    } else if p.len() >= 2 && p[0] == ':' && p[1] == ':' {
        split_colons_from(p.subrange(2, p.len() as int), Seq::empty(), acc.push(cur))
    } else {
        split_colons_from(p.drop_first(), cur.push(p[0]), acc)
    }
}

pub open spec fn split_colons(p: Seq<char>) -> Seq<Seq<char>> {
    split_colons_from(p, Seq::empty(), Seq::empty())
}

/// The directory a Rust import starts from, and the module path after its prefix:
/// `crate::` starts at `src`, `self::` next to the file, `super::` one level up.
/// Other imports name other crates.
pub open spec fn rust_import_base(file: Seq<char>, import: Seq<char>) -> Option<(Seq<Seq<char>>, Seq<char>)> {
    if crate::text::seq_starts_with(import, "crate::"@) {
        Some((seq!["src"@], import.subrange(7, import.len() as int)))
    } else if crate::text::seq_starts_with(import, "self::"@) {
        Some((parent_dir(split_slash(file)), import.subrange(6, import.len() as int)))
    } else if crate::text::seq_starts_with(import, "super::"@) {
        Some((parent_dir(parent_dir(split_slash(file))), import.subrange(7, import.len() as int)))
    } else {
        None
    }
}

/// A path segment appended, unless it is empty.
pub open spec fn push_segment(path: Seq<Seq<char>>, s: Seq<char>) -> Seq<Seq<char>> {
    if s.len() == 0 {
        path
    } else {
        path.push(s)
    }
}

pub open spec fn push_segments(path: Seq<Seq<char>>, parts: Seq<Seq<char>>) -> Seq<Seq<char>>
    decreases parts.len(),
{
    if parts.len() == 0 {
        path
    } else {
        push_segment(push_segments(path, parts.drop_last()), parts.last())
    }
}

/// Where a Rust import may be: the directory it starts from, the file `name.rs`,
/// and the file `name/mod.rs`, both inside the directories its path names.
pub open spec fn rust_candidates_spec(file: Seq<char>, import: Seq<char>) -> Option<(Seq<Seq<char>>, Seq<Seq<char>>, Seq<Seq<char>>)> {
    match rust_import_base(file, import) {
        None => None,
        Some((base, mod_path)) => if mod_path.len() == 0 {
            None
        } else {
            let parts = split_colons(mod_path);
            let dir = push_segments(base, parts.drop_last());
            let last = parts.last();
            Some((base, dir.push(last + ".rs"@), push_segment(dir, last).push("mod.rs"@)))
        },
    }
}

/// The places a Rust import may name: the directory it starts from, then the two
/// files tried in order, each as path segments from the project root.
pub struct RustCandidates {
    pub base: Vec<String>,
    pub module_file: Vec<String>,
    pub module_dir: Vec<String>,
}

fn split_colons_exec(p: &[char]) -> (r: Vec<String>)
    ensures
        views(r@) == split_colons(p@),
{
    let mut acc: Vec<String> = Vec::new();
    let mut cur: Vec<char> = Vec::new();
    let mut i: usize = 0;
    proof {
        assert(p@.subrange(0, p.len() as int) =~= p@);
        assert(views(acc@) =~= Seq::<Seq<char>>::empty());
        assert(cur@ =~= Seq::<char>::empty());
    }
    while i < p.len()
        invariant
            i <= p.len(),
            split_colons_from(p@.subrange(i as int, p.len() as int), cur@, views(acc@)) == split_colons(p@),
        decreases p.len() - i,
    {
        let ghost rest = p@.subrange(i as int, p.len() as int);
        let ghost a0 = views(acc@);
        let ghost c0 = cur@;
        if i + 1 < p.len() && p[i] == ':' && p[i + 1] == ':' {
            acc.push(string_of(cur.as_slice()));
            cur = Vec::new();
            proof {
                assert(rest.subrange(2, rest.len() as int) =~= p@.subrange(i + 2, p.len() as int));
                assert(views(acc@) =~= a0.push(c0));
                assert(cur@ =~= Seq::<char>::empty());
            }
            i = i + 2;
        } else {
            cur.push(p[i]);
            proof {
                assert(rest.drop_first() =~= p@.subrange(i + 1, p.len() as int));
            }
            i = i + 1;
        }
    }
    let ghost a0 = views(acc@);
    acc.push(string_of(cur.as_slice()));
    proof {
        assert(p@.subrange(i as int, p.len() as int) =~= Seq::<char>::empty());
        assert(views(acc@) =~= a0.push(cur@));
    }
    acc
}

fn push_segment_exec(path: &mut Vec<String>, s: &String)
    ensures
        views(final(path)@) == push_segment(views(old(path)@), s@),
{
    if s.as_str().unicode_len() > 0 {
        let ghost p0 = views(path@);
        path.push(s.clone());
        proof {
            assert(views(path@) =~= p0.push(s@));
        }
    }
}

fn parent_exec(segs: &mut Vec<String>)
    ensures
        views(final(segs)@) == parent_dir(views(old(segs)@)),
{
    let ghost s0 = views(segs@);
    proof {
        assert(views(segs@).len() == segs@.len());
    }
    if segs.len() == 0 {
        segs.push(String::from_str(".."));
        proof {
            reveal_strlit("..");
            assert(views(segs@) =~= seq![".."@]);
        }
    } else {
        segs.pop();
        proof {
            assert(views(segs@) =~= s0.drop_last());
        }
    }
}

/// Where a Rust import of the file at `file` may be, or none when it names another
/// crate or no module.
pub fn rust_import_candidates(file: &str, import: &str) -> (r: Option<RustCandidates>)
    ensures
        match rust_candidates_spec(file@, import@) {
            None => r is None,
            Some((base, module_file, module_dir)) => r matches Some(c) && views(c.base@) == base
                && views(c.module_file@) == module_file && views(c.module_dir@) == module_dir,
        },
{
    let ic = chars_of(import);
    let (base, skip): (Vec<String>, usize) = if crate::text::starts_with_chars(ic.as_slice(), &chars_of("crate::")) {
        let mut b: Vec<String> = Vec::new();
        b.push(String::from_str("src"));
        proof {
            assert(views(b@) =~= seq!["src"@]);
        }
        (b, 7)
    } else if crate::text::starts_with_chars(ic.as_slice(), &chars_of("self::")) {
        let mut b = split_slash_exec(file);
        parent_exec(&mut b);
        (b, 6)
    } else if crate::text::starts_with_chars(ic.as_slice(), &chars_of("super::")) {
        let mut b = split_slash_exec(file);
        parent_exec(&mut b);
        parent_exec(&mut b);
        (b, 7)
    } else {
        proof {
            reveal_strlit("crate::");
            reveal_strlit("self::");
            reveal_strlit("super::");
        }
        return None;
    };
    proof {
        reveal_strlit("crate::");
        reveal_strlit("self::");
        reveal_strlit("super::");
    }
    let mod_path = crate::text::slice_copy(ic.as_slice(), skip, ic.len());
    proof {
        assert(rust_import_base(file@, import@) == Some((views(base@), mod_path@)));
    }
    if mod_path.len() == 0 {
        return None;
    }
    let parts = split_colons_exec(mod_path.as_slice());
    let ghost ps = views(parts@);
    proof {
        assert(views(parts@).len() == parts@.len());
        assert(ps.len() > 0) by {
            assert(split_colons_from(mod_path@, Seq::empty(), Seq::empty()).len() > 0) by {
                lemma_split_colons_nonempty(mod_path@, Seq::empty(), Seq::empty());
            }
        }
    }
    let mut dir = copy_segments(&base);
    let mut k: usize = 0;
    proof {
        assert(ps.drop_last().subrange(0, 0) =~= Seq::<Seq<char>>::empty());
    }
    while k + 1 < parts.len()
        invariant
            k + 1 <= parts.len(),
            ps == views(parts@),
            views(dir@) == push_segments(views(base@), ps.drop_last().subrange(0, k as int)),
        decreases parts.len() - k,
    {
        proof {
            assert(ps.drop_last().subrange(0, k + 1).drop_last() =~= ps.drop_last().subrange(0, k as int));
        }
        push_segment_exec(&mut dir, &parts[k]);
        k = k + 1;
    }
    proof {
        assert(ps.drop_last().subrange(0, k as int) =~= ps.drop_last());
    }
    let last = &parts[parts.len() - 1];
    let mut module_file = copy_segments(&dir);
    let mut name = last.clone();
    push_text(&mut name, ".rs");
    let ghost d0 = views(module_file@);
    module_file.push(name);
    let mut module_dir = copy_segments(&dir);
    push_segment_exec(&mut module_dir, last);
    let ghost d1 = views(module_dir@);
    module_dir.push(String::from_str("mod.rs"));
    proof {
        assert(views(module_file@) =~= d0.push(last@ + ".rs"@));
        assert(views(module_dir@) =~= d1.push("mod.rs"@));
        assert(ps.last() == last@);
    }
    Some(RustCandidates { base, module_file, module_dir })
}

proof fn lemma_split_colons_nonempty(p: Seq<char>, cur: Seq<char>, acc: Seq<Seq<char>>)
    ensures
        split_colons_from(p, cur, acc).len() > 0,
    decreases p.len(),
{
    if p.len() == 0 {
    } else if p.len() >= 2 && p[0] == ':' && p[1] == ':' {
        lemma_split_colons_nonempty(p.subrange(2, p.len() as int), Seq::empty(), acc.push(cur));
    } else {
        lemma_split_colons_nonempty(p.drop_first(), cur.push(p[0]), acc);
    }
}

/// The module id of a Rust file at `candidate`, relative to its crate's root: the
/// segments after the first `depth`, joined by `/`, with `\` written `/`.
pub fn rust_module_id(candidate: &Vec<String>, depth: usize) -> (r: String)
    requires
        depth <= candidate.len(),
    ensures
        r@ == crate::text::replace_all(join_slash(views(candidate@).subrange(depth as int, candidate.len() as int)), seq!['\\'], seq!['/']),
{
    let mut rest: Vec<String> = Vec::new();
    let mut i: usize = depth;
    proof {
        assert(views(rest@) =~= views(candidate@).subrange(depth as int, depth as int));
    }
    while i < candidate.len()
        invariant
            depth <= i <= candidate.len(),
            views(rest@) == views(candidate@).subrange(depth as int, i as int),
        decreases candidate.len() - i,
    {
        let ghost r0 = views(rest@);
        rest.push(candidate[i].clone());
        proof {
            assert(views(rest@) =~= r0.push(candidate@[i as int]@));
            assert(views(candidate@).subrange(depth as int, i + 1) =~= views(candidate@).subrange(depth as int, i as int).push(
                views(candidate@)[i as int],
            ));
        }
        i = i + 1;
    }
    backslashes_to_slashes(&join_slash_exec(&rest))
}

} // verus!
