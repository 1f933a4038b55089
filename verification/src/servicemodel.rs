//! How applications and service packages are named.

pub mod applicationidentifier;
pub mod servicepackageidentifier;
