//! An application as the snapshot holds it.

use super::application_description::ApplicationDescription;
use vstd::hash_set::StringHashSet;
use vstd::prelude::*;

verus! {

/// An application of the cluster, with the names of the services that it
/// owns. The names are derived by the snapshot from the services it holds;
/// an update never carries them.
pub struct Application {
    pub(crate) application_desc: ApplicationDescription,
    pub(crate) services: StringHashSet,
}

impl Application {
    /// What the last update said of the application.
    pub open(crate) spec fn desc(&self) -> ApplicationDescription {
        self.application_desc
    }

    /// The names of the services that the application owns.
    pub open(crate) spec fn owned(&self) -> Set<Seq<char>> {
        self.services@
    }

    /// An application that owns no service yet.
    pub fn new(application_desc: ApplicationDescription) -> (a: Application)
        ensures
            a.desc() == application_desc,
            a.owned() == Set::<Seq<char>>::empty(),
    {
        Application { application_desc, services: StringHashSet::new() }
    }

    pub fn app_name(&self) -> (name: &str)
        ensures
            name@ == self.desc().app_name@,
    {
        self.application_desc.app_name.as_str()
    }

    /// What the last update said of the application.
    pub fn description(&self) -> (d: &ApplicationDescription)
        ensures
            *d == self.desc(),
    {
        &self.application_desc
    }

    /// Whether the application owns the service of that name.
    pub fn owns_service(&self, service_name: &str) -> (r: bool)
        ensures
            r == self.owned().contains(service_name@),
    {
        self.services.contains(service_name)
    }

    /// How many services the application owns.
    pub fn service_count(&self) -> (n: usize)
        ensures
            n == self.owned().len(),
    {
        self.services.len()
    }
}

} // verus!
