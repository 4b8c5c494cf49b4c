//! Paths of the update reports.
use vstd::prelude::*;

verus! {

pub const DIFF_OVERVIEW: &'static str = "updates/diff_overview.json";
pub const CHANGED_FILES: &'static str = "updates/changed_files.json";
pub const DEP_CHANGES: &'static str = "updates/dep_changes.json";

} // verus!
