//! Service types: the kinds of service that nodes can host.

pub mod service_type;
pub mod service_type_description;
