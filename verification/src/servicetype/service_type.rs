//! A service type as the snapshot holds it.

use super::service_type_description::ServiceTypeDescription;
use vstd::prelude::*;

verus! {

/// A service type of the cluster.
pub struct ServiceType {
    pub service_type_desc: ServiceTypeDescription,
}

impl ServiceType {
    pub fn service_type_name(&self) -> (name: &str)
        ensures
            name@ == self.service_type_desc.name@,
    {
        self.service_type_desc.name.as_str()
    }
}

} // verus!
