//! Where each report is written, relative to the output directory.
pub mod spec;
pub mod symbols;
pub mod references;
pub mod diffs;
pub mod external;
pub mod graph;
pub mod manifest;
pub mod boundaries;
pub mod updates;

use vstd::prelude::*;

verus! {

pub const DB: &'static str = "migration.db";
pub const PROJECT: &'static str = "project.json";
pub const OVERVIEW: &'static str = "overview.json";
pub const SCORES: &'static str = "scores.json";
pub const ERRORS: &'static str = "errors.json";
pub const INDEX_HTML: &'static str = "index.html";

/// `a`, `b` and `c` one after the other.
pub fn join3(a: &str, b: &str, c: &str) -> (r: String)
    ensures
        r@ == a@ + b@ + c@,
{
    let mut v = crate::text::chars_of(a);
    crate::text::push_all(&mut v, &crate::text::chars_of(b));
    crate::text::push_all(&mut v, &crate::text::chars_of(c));
    crate::text::string_of(&v)
}

} // verus!
