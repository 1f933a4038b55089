//! Nodes: the machines that host replicas.

pub mod node;
pub mod node_description;
pub mod node_id;
pub mod node_instance;
