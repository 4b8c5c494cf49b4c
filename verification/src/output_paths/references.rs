//! Paths of the reference indexes.
use vstd::prelude::*;

verus! {

/// The forward references of a file.
pub fn forward_for(name: &str) -> (r: String)
    ensures
        r@ == "references/forward/"@ + name@ + ".json"@,
{
    crate::output_paths::join3("references/forward/", name, ".json")
}

/// The reverse references of a file.
pub fn reverse_for(name: &str) -> (r: String)
    ensures
        r@ == "references/reverse/"@ + name@ + ".json"@,
{
    crate::output_paths::join3("references/reverse/", name, ".json")
}

} // verus!
