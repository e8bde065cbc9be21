//! A raw layer: one version's unprocessed schema text.

use vstd::prelude::*;

verus! {

/// A calendar date, held as plain numbers. The registry only carries dates
/// through; whatever computes them (or renders them) lives with the caller.
#[derive(Debug, PartialEq, Eq, Structural, Clone, Copy)]
pub struct SchemaDate {
    pub year: i32,
    pub month: u32,
    pub day: u32,
}

/// One version's unprocessed schema text, as the ingestion collaborator
/// supplies it: a unique integer layer id, the release date, and the text.
#[derive(Debug, PartialEq)]
pub struct TlLayer {
    pub layer_id: i32,
    pub release_date: SchemaDate,
    pub layer: String,
}

impl Clone for TlLayer {
    fn clone(&self) -> (r: Self)
        ensures
            r == *self,
    {
        Self {
            layer_id: self.layer_id,
            release_date: self.release_date,
            layer: self.layer.clone(),
        }
    }
}

/// The spec-level value of a `TlLayer`.
pub struct LayerV {
    pub layer_id: int,
    pub release_date: SchemaDate,
    pub layer: Seq<char>,
}

impl View for TlLayer {
    type V = LayerV;

    open spec fn view(&self) -> LayerV {
        LayerV {
            layer_id: self.layer_id as int,
            release_date: self.release_date,
            layer: self.layer@,
        }
    }
}

} // verus!
