//! How an application is named in the environment of its services.

use vstd::prelude::*;
use vstd::string::*;

verus! {

/// The name of an application together with its number.
pub struct ApplicationIdentifier {
    pub application_name: String,
    pub application_number: u64,
}

impl ApplicationIdentifier {
    /// What stands between the name and the number of an application.
    pub fn delimeter() -> (s: String)
        ensures
            s@ == "_App"@,
    {
        String::from_str("_App")
    }

    /// The environment variable in which a service finds its application.
    pub fn env_var_name_application_id() -> (s: String)
        ensures
            s@ == "Fabric_ApplicationId"@,
    {
        String::from_str("Fabric_ApplicationId")
    }
}

} // verus!
