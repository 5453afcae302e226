//! The search core of an interactive picker: channels of candidates that are
//! fuzzy-matched in the background against a live pattern and handed out as
//! paginated, highlight-annotated entries.

pub mod channels;
pub mod entry;
pub mod fuzzy;
pub mod utils;
