//! How an application is named in the environment of its services.

pub use crate::servicemodel::applicationidentifier::ApplicationIdentifier;
