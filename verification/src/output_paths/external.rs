//! Paths of the external-dependency reports.
use vstd::prelude::*;

verus! {

pub const PACKAGES: &'static str = "external/packages.json";
pub const COMPATIBILITY: &'static str = "external/compatibility.json";
pub const RECOMMENDATIONS: &'static str = "external/recommendations.json";

} // verus!
