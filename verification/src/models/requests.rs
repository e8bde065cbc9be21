//! Query parameters for the registry's read operations.
//!
//! The network-facing request layer validates and deserializes its own wire
//! shapes and hands the registry these plain values.

use vstd::prelude::*;

verus! {

/// Whether a query returns full definitions or compact projections.
#[derive(Debug, PartialEq, Eq, Structural, Clone, Copy)]
pub enum FetchMode {
    Compact,
    Full,
}

impl Default for FetchMode {
    fn default() -> (r: Self)
        ensures
            r == FetchMode::Compact,
    {
        FetchMode::Compact
    }
}

/// A ranked/fuzzy search over the compact definitions.
#[derive(Debug)]
pub struct SearchLayerRequest {
    pub query: String,
    pub layer_id: Option<u32>,
    pub filter: Vec<String>,
    pub limit: Option<usize>,
    pub highlight: bool,
    pub highlight_prefix: Option<String>,
    pub highlight_postfix: Option<String>,
}

/// A lookup of a named entity, optionally scoped to one layer and capped.
#[derive(Debug)]
pub struct GetByNameRequest {
    pub name: String,
    pub layer_id: Option<u32>,
    pub mode: FetchMode,
    pub limit: Option<usize>,
}

/// A history query for a named entity.
#[derive(Debug)]
pub struct HistoryRequest {
    pub name: String,
}

/// A lookup of everything under one namespace of one layer.
#[derive(Debug)]
pub struct GetNamespaceRequest {
    pub layer_id: u32,
    pub namespace: String,
}

} // verus!
