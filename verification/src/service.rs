//! Services: what runs on the cluster, split into partitions.

pub mod application_identifier;
pub mod service;
pub mod service_description;
pub mod service_metric;
