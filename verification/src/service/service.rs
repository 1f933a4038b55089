//! A service as the snapshot holds it.

use super::service_description::ServiceDescription;
use vstd::prelude::*;

verus! {

/// A service of the cluster.
pub struct Service {
    pub service_description: ServiceDescription,
}

impl Service {
    pub fn servcie_name(&self) -> (name: &str)
        ensures
            name@ == self.service_description.service_name@,
    {
        self.service_description.service_name.as_str()
    }

    /// The name of the application that owns the service.
    pub fn application_name(&self) -> (name: &str)
        ensures
            name@ == self.service_description.application_name@,
    {
        self.service_description.application_name.as_str()
    }
}

} // verus!
