//! API lifecycle management: the developer portal, environment profiles and
//! the journey recorder.

pub mod journey;
pub mod portal;
pub mod profiles;
