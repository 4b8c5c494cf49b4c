//! Paths of the symbol tables.
use vstd::prelude::*;

verus! {

/// The symbols of a module.
pub fn for_module(name: &str) -> (r: String)
    ensures
        r@ == "symbols/"@ + name@ + "/symbols.json"@,
{
    crate::output_paths::join3("symbols/", name, "/symbols.json")
}

/// The public API of a module.
pub fn api_for_module(name: &str) -> (r: String)
    ensures
        r@ == "symbols/"@ + name@ + "/api.json"@,
{
    crate::output_paths::join3("symbols/", name, "/api.json")
}

} // verus!
