//! The tags that a service asks of a node.

use std::collections::HashSet;
use vstd::prelude::*;

verus! {

/// The tags that a node must have for a service.
pub struct ServiceTagsCollection {
    /// Tags without which a replica is not placed on a node.
    pub tags_required_to_place: HashSet<String>,
    /// Tags without which a replica does not stay on a node.
    pub tags_required_to_run: HashSet<String>,
}

} // verus!
