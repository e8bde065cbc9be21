//! A registry for a versioned, flag-encoded schema-definition language.
//!
//! Each *layer* is one version of the schema text. The parser turns a layer's
//! text into a structured catalogue of object constructors and function
//! definitions; the registry answers point-in-time queries over the ordered
//! collection of parsed layers; and the history engine reconstructs
//! added/changed/removed events for a named entity by comparing its
//! occurrences across layers.

pub mod laws;
pub mod models;
pub mod text;
pub mod tl;
