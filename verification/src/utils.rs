//! Small helpers shared by the channels.

pub mod indices;
pub mod strings;
