//! Paths of the layer boundaries.
use vstd::prelude::*;

verus! {

pub const LAYERS: &'static str = "boundaries/layers.json";
pub const UNCUT_SURFACES: &'static str = "boundaries/uncut-surfaces.json";

} // verus!
