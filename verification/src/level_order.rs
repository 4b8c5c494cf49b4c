//! The order of compatibility levels: `Unknown < Incompatible < Partial < Full`.
use vstd::prelude::*;
use core::cmp::Ordering;
use vstd::std_specs::cmp::PartialOrdSpecImpl;
use vstd::std_specs::cmp::PartialOrdSpec;
use crate::compat::{level_rank, CompatibilityLevel};

verus! {

impl PartialOrd for CompatibilityLevel {
    fn partial_cmp(&self, other: &Self) -> (r: Option<Ordering>) {
        let a = self.rank();
        let b = other.rank();
        if a < b {
            Some(Ordering::Less)
        } else if a == b {
            Some(Ordering::Equal)
        } else {
            Some(Ordering::Greater)
        }
    }
}

impl PartialOrdSpecImpl for CompatibilityLevel {
    open spec fn obeys_partial_cmp_spec() -> bool {
        true
    }

    open spec fn partial_cmp_spec(&self, other: &Self) -> Option<Ordering> {
        if level_rank(*self) < level_rank(*other) {
            Some(Ordering::Less)
        } else if level_rank(*self) == level_rank(*other) {
            Some(Ordering::Equal)
        } else {
            Some(Ordering::Greater)
        }
    }
}


/// How `partial_cmp` orders two levels.
pub open spec fn level_order_of(a: CompatibilityLevel, b: CompatibilityLevel) -> Option<Ordering> {
    PartialOrdSpec::partial_cmp_spec(&a, &b)
}

/// The order of compatibility levels is total: of two levels, exactly one is below,
/// equal to, or above the other; and it runs `Unknown < Incompatible < Partial < Full`.
pub proof fn law_level_order(a: CompatibilityLevel, b: CompatibilityLevel)
    ensures
        level_order_of(a, b) is Some,
        (level_order_of(a, b) == Some(Ordering::Equal)) <==> a == b,
        (level_order_of(a, b) == Some(Ordering::Less)) <==> (level_order_of(b, a) == Some(Ordering::Greater)),
        level_order_of(CompatibilityLevel::Unknown, CompatibilityLevel::Incompatible) == Some(Ordering::Less),
        level_order_of(CompatibilityLevel::Incompatible, CompatibilityLevel::Partial) == Some(Ordering::Less),
        level_order_of(CompatibilityLevel::Partial, CompatibilityLevel::Full) == Some(Ordering::Less),
{
}

/// The order of compatibility levels is transitive.
pub proof fn law_level_order_transitive(a: CompatibilityLevel, b: CompatibilityLevel, c: CompatibilityLevel)
    requires
        level_order_of(a, b) == Some(Ordering::Less),
        level_order_of(b, c) == Some(Ordering::Less),
    ensures
        level_order_of(a, c) == Some(Ordering::Less),
{
}

} // verus!
