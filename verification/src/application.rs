//! Applications: groups of services that are deployed together.

pub mod application;
pub mod application_description;
