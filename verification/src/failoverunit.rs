//! Partitions and their replicas.

pub mod failover_unit;
