//! Identities as the ring of nodes knows them.

pub mod nodeid;
