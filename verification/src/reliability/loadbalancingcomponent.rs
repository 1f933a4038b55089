//! Nodes and service types as the reliability subsystem describes them to
//! the load balancer, with all that it knows of them.

pub mod inbuildlimits;
pub mod node;
pub mod nodedescription;
pub mod servicetypedescription;
