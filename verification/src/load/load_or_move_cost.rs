//! The load or move cost of a partition.

use vstd::prelude::*;

verus! {

/// What a partition reports of its load, as an update carries it.
pub struct LoadOrMoveCostDescription {
    /// The partition that the report is about.
    pub fu_id: u128,
}

/// A load report as the snapshot holds it.
pub struct LoadOrMoveCost {
    pub load_description: LoadOrMoveCostDescription,
}

impl LoadOrMoveCost {
    /// The partition that the report is about.
    pub fn id(&self) -> (id: u128)
        ensures
            id == self.load_description.fu_id,
    {
        self.load_description.fu_id
    }
}

} // verus!
