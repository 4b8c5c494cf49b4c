//! Paths of the diffs.
use vstd::prelude::*;

verus! {

/// A diff saved under its own name.
pub fn dated(name: &str) -> (r: String)
    ensures
        r@ == "diffs/"@ + name@ + ""@,
{
    crate::output_paths::join3("diffs/", name, "")
}

pub const LATEST: &'static str = "diffs/latest.json";

} // verus!
