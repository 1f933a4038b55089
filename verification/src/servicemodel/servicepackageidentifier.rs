//! How a service package is named.

use super::applicationidentifier::ApplicationIdentifier;
use vstd::prelude::*;

verus! {

/// A service package: its application and its own name.
pub struct ServicePackageIdentifier {
    pub application_identifier: ApplicationIdentifier,
    pub service_package_name: String,
}

} // verus!
