//! The load that a service reports.

use vstd::prelude::*;

verus! {

/// One metric of a service and the load that a replica has by default.
pub struct ServiceMetric {
    pub name: String,
    /// The weight of the metric against the others of the service, as the
    /// bits of a 64-bit IEEE 754 number. The engine carries the weight and
    /// never computes with it.
    pub weight_bits: u64,
    pub primary_default_load: u32,
    pub secondary_default_load: u32,
    pub auxilliary_default_load: u32,
    pub maxium_load: u32,
    pub is_rg_metric: bool,
}

} // verus!
