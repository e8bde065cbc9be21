//! Flattened, search-friendly projections of definitions.

use vstd::prelude::*;
use crate::tl::tl_constructor::TlConstructor;

verus! {

#[verifier::external_type_specification]
#[verifier::external_body]
pub struct ExUuid(uuid::Uuid);

/// Relies on `uuid::Uuid::new_v4`: a freshly generated random identifier.
/// Nothing is promised of its value; the registry only needs each compact
/// definition to carry some opaque id, and stability across restarts is not
/// required.
#[verifier::external_body]
pub(crate) fn fresh_uuid() -> uuid::Uuid {
    uuid::Uuid::new_v4()
}

/// Whether a definition describes a callable function or an object.
#[derive(Debug, PartialEq, Eq, Structural, Clone, Copy)]
pub enum DefinitionType {
    Function,
    Object,
}

impl Default for DefinitionType {
    fn default() -> (r: Self)
        ensures
            r == DefinitionType::Object,
    {
        DefinitionType::Object
    }
}

impl DefinitionType {
    /// The kind's name, as the search index stores it.
    pub fn as_text(&self) -> (r: String)
        ensures
            *self == DefinitionType::Function ==> r@ == "Function"@,
            *self == DefinitionType::Object ==> r@ == "Object"@,
    {
        match self {
            DefinitionType::Function => "Function".to_owned(),
            DefinitionType::Object => "Object".to_owned(),
        }
    }
}

/// One definition occurrence flattened for indexing and search: which layer
/// it appeared in, its combinator id, name, namespace (or category), and —
/// for functions — its return type.
#[derive(Debug)]
pub struct CompactTlDefinition {
    pub id: uuid::Uuid,
    pub layer_id: i32,
    pub definition_id: String,
    pub name: String,
    pub namespace: String,
    pub return_type: Option<String>,
    pub definition_type: DefinitionType,
}

/// The spec-level value of a `CompactTlDefinition`. The opaque generated id
/// is deliberately absent: nothing may depend on it.
pub struct CompactV {
    pub layer_id: int,
    pub definition_id: Seq<char>,
    pub name: Seq<char>,
    pub namespace: Seq<char>,
    pub return_type: Option<Seq<char>>,
    pub definition_type: DefinitionType,
}

impl View for CompactTlDefinition {
    type V = CompactV;

    open spec fn view(&self) -> CompactV {
        CompactV {
            layer_id: self.layer_id as int,
            definition_id: self.definition_id@,
            name: self.name@,
            namespace: self.namespace@,
            return_type: crate::text::view_opt(self.return_type),
            definition_type: self.definition_type,
        }
    }
}

/// The views of a sequence of compact definitions.
pub open spec fn compact_views(s: Seq<CompactTlDefinition>) -> Seq<CompactV> {
    s.map_values(|d: CompactTlDefinition| d@)
}

/// A constructor occurrence reduced to its id, name and layer.
#[derive(Debug, PartialEq)]
pub struct CompactTlConstructor {
    pub id: String,
    pub name: String,
    pub layer_id: i32,
}

/// A constructor reduced to its id and name.
#[derive(Debug, PartialEq)]
pub struct RefCompactTlConstructor {
    pub id: String,
    pub name: String,
}

/// The spec-level value of a `RefCompactTlConstructor`.
pub struct RefCompactV {
    pub id: Seq<char>,
    pub name: Seq<char>,
}

impl View for RefCompactTlConstructor {
    type V = RefCompactV;

    open spec fn view(&self) -> RefCompactV {
        RefCompactV { id: self.id@, name: self.name@ }
    }
}

impl RefCompactTlConstructor {
    /// The id-and-name projection of a constructor.
    pub fn from_constructor(value: &TlConstructor) -> (r: Self)
        ensures
            r@.id == value@.id,
            r@.name == value@.name,
    {
        Self { id: value.id.clone(), name: value.name.clone() }
    }
}

} // verus!
