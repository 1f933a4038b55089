//! A placement and load-balancing engine for a cluster of nodes.
//!
//! The engine keeps a model of the cluster (nodes, applications, service
//! types, services, partitions and their loads), takes in a stream of
//! updates, and on each refresh proposes where replicas should be created.
//! It never changes the cluster itself: it only emits proposals.
//!
//! A refresh goes through these parts in turn:
//!
//! - `queue`: the updates that wait, one queue for each kind of entity;
//! - `snapshot`: the cluster as one refresh sees it, and the merge of a
//!   batch of updates into it; `state` is the snapshot as a mathematical
//!   value, with what is proved of a merge, and `admission` says which
//!   updates of partitions a merge takes in;
//! - `scheduler`: which phases are due;
//! - `searcher`: what a phase asks for;
//! - `solver`: what is proposed for it, by a `policy`;
//! - `engine`: all of these tied together.
//!
//! The other modules describe the entities of the cluster.

pub mod admission;
pub mod application;
mod clock;
pub mod common;
pub mod engine;
pub mod error;
pub mod failoverunit;
pub mod federation;
pub mod load;
pub mod name_table;
pub mod node;
pub mod policy;
pub mod queue;
pub mod reliability;
pub mod scheduler;
pub mod searcher;
pub mod service;
pub mod servicemodel;
pub mod servicetype;
pub mod snapshot;
pub mod solver;
pub mod state;
pub mod text;
pub mod timestamp;

pub use engine::PlacementAndLoadBalancing;
pub use snapshot::ClusterSnapshot;
