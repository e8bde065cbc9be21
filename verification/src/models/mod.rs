//! Plain data shapes exchanged with the registry's callers.

pub mod compact_schema;
pub mod github;
pub mod layer_release_date;
pub mod requests;
pub mod responses;
pub mod tl_layer;
