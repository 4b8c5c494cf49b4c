//! Paths of the migration specs.
use vstd::prelude::*;

verus! {

/// The migration spec of a source file, such as `spec/src/utils/format.ts.json`.
pub fn for_file(name: &str) -> (r: String)
    ensures
        r@ == "spec/"@ + name@ + ".json"@,
{
    crate::output_paths::join3("spec/", name, ".json")
}

/// Index of all spec files in migration order.
pub const MIGRATION_ORDER: &'static str = "spec/migration_order.json";

} // verus!
