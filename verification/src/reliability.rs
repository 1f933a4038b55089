//! What the reliability subsystem reports of nodes and services.

pub mod loadbalancingcomponent;
pub mod nodedeactivationintent;
pub mod nodedeactivationstatus;
pub mod servicetagscollection;
