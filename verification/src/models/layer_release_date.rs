//! A layer id paired with its release date.

use vstd::prelude::*;
use crate::models::tl_layer::SchemaDate;

verus! {

/// One layer's id and release date.
#[derive(Debug, PartialEq, Eq, Structural, Clone, Copy)]
pub struct LayerReleaseDate {
    pub layer_id: i32,
    pub release_date: SchemaDate,
}

} // verus!
