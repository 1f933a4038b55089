//! Small values that several parts of the model share.

pub mod largeinteger;
pub mod nodeimagesinfo;
pub mod stopwatchtime;
