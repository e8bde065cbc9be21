//! Result shapes for the registry's queries.

use vstd::prelude::*;
use crate::models::compact_schema::{
    CompactTlConstructor, CompactTlDefinition, RefCompactTlConstructor, RefCompactV,
};
use crate::text::views_of;
use crate::tl::tl_constructor::{ctor_views, CtorV, TlConstructor};
use crate::tl::tl_function::{FuncV, TlFunction};

verus! {

/// One changed field of a parameter, reported by a history query.
#[derive(Debug, PartialEq)]
pub struct Diff {
    pub from: String,
    pub to: String,
    pub field_name: &'static str,
}

/// The spec-level value of a `Diff`.
pub struct DiffV {
    pub from: Seq<char>,
    pub to: Seq<char>,
    pub field_name: Seq<char>,
}

impl View for Diff {
    type V = DiffV;

    open spec fn view(&self) -> DiffV {
        DiffV { from: self.from@, to: self.to@, field_name: self.field_name@ }
    }
}

/// The views of a sequence of diffs.
pub open spec fn diff_views(s: Seq<Diff>) -> Seq<DiffV> {
    s.map_values(|d: Diff| d@)
}

/// One function occurrence: the definition and the layer it appeared in.
#[derive(Debug)]
pub struct GetFunction {
    pub function: TlFunction,
    pub layer_id: u32,
}

/// The spec-level value of a `GetFunction`.
pub struct GetFunctionV {
    pub function: FuncV,
    pub layer_id: int,
}

impl View for GetFunction {
    type V = GetFunctionV;

    open spec fn view(&self) -> GetFunctionV {
        GetFunctionV { function: self.function@, layer_id: self.layer_id as int }
    }
}

/// The views of a sequence of function occurrences.
pub open spec fn get_function_views(s: Seq<GetFunction>) -> Seq<GetFunctionV> {
    s.map_values(|f: GetFunction| f@)
}

impl Clone for GetFunction {
    fn clone(&self) -> (r: Self)
        ensures
            r@ == self@,
    {
        Self { function: self.function.clone(), layer_id: self.layer_id }
    }
}

/// The result of a function lookup, in the requested projection.
#[derive(Debug)]
pub enum GetFuncResponse {
    CompactMode(Vec<CompactTlDefinition>),
    FullMode(Vec<GetFunction>),
}

impl GetFuncResponse {
    /// How many occurrences the lookup found.
    pub fn count(&self) -> (r: usize)
        ensures
            match self {
                GetFuncResponse::CompactMode(a) => r == a@.len(),
                GetFuncResponse::FullMode(b) => r == b@.len(),
            },
    {
        match self {
            GetFuncResponse::CompactMode(a) => a.len(),
            GetFuncResponse::FullMode(b) => b.len(),
        }
    }
}

/// How a function uses an object: as a parameter type, as its return type,
/// or through the object's namespace/category; `is_inner` marks a use inside
/// a generic bracket.
#[derive(Debug)]
pub enum ObjectUsage {
    Param { tl_function: TlFunction, is_inner: bool },
    ReturnType { tl_function: TlFunction, is_inner: bool },
    ViaNamespace { tl_function: TlFunction, is_inner: bool },
}

/// The spec-level value of an `ObjectUsage`.
pub enum UsageV {
    Param { tl_function: FuncV, is_inner: bool },
    ReturnType { tl_function: FuncV, is_inner: bool },
    ViaNamespace { tl_function: FuncV, is_inner: bool },
}

impl View for ObjectUsage {
    type V = UsageV;

    open spec fn view(&self) -> UsageV {
        match self {
            ObjectUsage::Param { tl_function, is_inner } => UsageV::Param {
                tl_function: tl_function@,
                is_inner: *is_inner,
            },
            ObjectUsage::ReturnType { tl_function, is_inner } => UsageV::ReturnType {
                tl_function: tl_function@,
                is_inner: *is_inner,
            },
            ObjectUsage::ViaNamespace { tl_function, is_inner } => UsageV::ViaNamespace {
                tl_function: tl_function@,
                is_inner: *is_inner,
            },
        }
    }
}

/// The views of a sequence of usages.
pub open spec fn usage_views(s: Seq<ObjectUsage>) -> Seq<UsageV> {
    s.map_values(|u: ObjectUsage| u@)
}

/// One object occurrence: the constructor, the layer it appeared in, and
/// the usage edges to the functions of that layer.
#[derive(Debug)]
pub struct GetObject {
    pub obj: TlConstructor,
    pub usages: Vec<ObjectUsage>,
    pub layer_id: u32,
}

/// The spec-level value of a `GetObject`.
pub struct GetObjectV {
    pub obj: CtorV,
    pub usages: Seq<UsageV>,
    pub layer_id: int,
}

impl View for GetObject {
    type V = GetObjectV;

    open spec fn view(&self) -> GetObjectV {
        GetObjectV { obj: self.obj@, usages: usage_views(self.usages@), layer_id: self.layer_id as int }
    }
}

impl Clone for ObjectUsage {
    fn clone(&self) -> (r: Self)
        ensures
            r@ == self@,
    {
        match self {
            ObjectUsage::Param { tl_function, is_inner } => ObjectUsage::Param {
                tl_function: tl_function.clone(),
                is_inner: *is_inner,
            },
            ObjectUsage::ReturnType { tl_function, is_inner } => ObjectUsage::ReturnType {
                tl_function: tl_function.clone(),
                is_inner: *is_inner,
            },
            ObjectUsage::ViaNamespace { tl_function, is_inner } => ObjectUsage::ViaNamespace {
                tl_function: tl_function.clone(),
                is_inner: *is_inner,
            },
        }
    }
}

/// Copies a usage list.
pub fn clone_usages(v: &Vec<ObjectUsage>) -> (r: Vec<ObjectUsage>)
    ensures
        usage_views(r@) == usage_views(v@),
{
    let mut r: Vec<ObjectUsage> = Vec::new();
    let mut i: usize = 0;
    while i < v.len()
        invariant
            i <= v.len(),
            usage_views(r@) =~= usage_views(v@.subrange(0, i as int)),
        decreases v.len() - i,
    {
        let ghost prev = r@;
        r.push(v[i].clone());
        proof {
            assert(r@ =~= prev.push(r@[prev.len() as int]));
            assert forall|t: int| 0 <= t < r@.len() implies usage_views(r@)[t] == usage_views(
                prev,
            ).push(v@[i as int]@)[t] by {
                assert(usage_views(r@)[t] == r@[t]@);
                if t < prev.len() {
                    assert(r@[t] == prev[t]);
                    assert(usage_views(prev)[t] == prev[t]@);
                }
            }
            assert(usage_views(v@.subrange(0, i + 1)) =~= usage_views(
                v@.subrange(0, i as int),
            ).push(v@[i as int]@));
            assert(usage_views(r@) =~= usage_views(v@.subrange(0, i + 1)));
        }
        i = i + 1;
    }
    proof {
        assert(v@.subrange(0, v@.len() as int) =~= v@);
    }
    r
}

impl Clone for GetObject {
    fn clone(&self) -> (r: Self)
        ensures
            r@ == self@,
    {
        Self {
            obj: self.obj.clone(),
            usages: clone_usages(&self.usages),
            layer_id: self.layer_id,
        }
    }
}

/// The views of a sequence of object occurrences.
pub open spec fn get_object_views(s: Seq<GetObject>) -> Seq<GetObjectV> {
    s.map_values(|o: GetObject| o@)
}

/// The result of an object lookup, in the requested projection.
#[derive(Debug)]
pub enum GetObjectResponse {
    CompactMode(Vec<CompactTlConstructor>),
    FullMode(Vec<GetObject>),
}

impl GetObjectResponse {
    /// How many occurrences the lookup found.
    pub fn count(&self) -> (r: usize)
        ensures
            match self {
                GetObjectResponse::CompactMode(a) => r == a@.len(),
                GetObjectResponse::FullMode(b) => r == b@.len(),
            },
    {
        match self {
            GetObjectResponse::CompactMode(a) => a.len(),
            GetObjectResponse::FullMode(b) => b.len(),
        }
    }
}

/// One inferred change event in a function's history.
#[derive(Debug)]
pub enum FunctionHistory {
    AddedIn { layer_id: u32 },
    DeletedIn { layer_id: u32 },
    ParamAdded { layer_id: u32, name: String, param_type: String },
    ParamChanged { layer_id: u32, diff: Vec<Diff>, name: String },
    ParamDeleted { layer_id: u32, name: String },
    ReturnTypeChanged { layer_id: u32, before: String, after: String },
}

/// The spec-level value of a `FunctionHistory` event.
pub enum FnEventV {
    AddedIn { layer_id: int },
    DeletedIn { layer_id: int },
    ParamAdded { layer_id: int, name: Seq<char>, param_type: Seq<char> },
    ParamChanged { layer_id: int, diff: Seq<DiffV>, name: Seq<char> },
    ParamDeleted { layer_id: int, name: Seq<char> },
    ReturnTypeChanged { layer_id: int, before: Seq<char>, after: Seq<char> },
}

impl View for FunctionHistory {
    type V = FnEventV;

    open spec fn view(&self) -> FnEventV {
        match self {
            FunctionHistory::AddedIn { layer_id } => FnEventV::AddedIn {
                layer_id: *layer_id as int,
            },
            FunctionHistory::DeletedIn { layer_id } => FnEventV::DeletedIn {
                layer_id: *layer_id as int,
            },
            FunctionHistory::ParamAdded { layer_id, name, param_type } => FnEventV::ParamAdded {
                layer_id: *layer_id as int,
                name: name@,
                param_type: param_type@,
            },
            FunctionHistory::ParamChanged { layer_id, diff, name } => FnEventV::ParamChanged {
                layer_id: *layer_id as int,
                diff: diff_views(diff@),
                name: name@,
            },
            FunctionHistory::ParamDeleted { layer_id, name } => FnEventV::ParamDeleted {
                layer_id: *layer_id as int,
                name: name@,
            },
            FunctionHistory::ReturnTypeChanged { layer_id, before, after } => FnEventV::ReturnTypeChanged {
                layer_id: *layer_id as int,
                before: before@,
                after: after@,
            },
        }
    }
}

/// The views of a sequence of function-history events.
pub open spec fn fn_event_views(s: Seq<FunctionHistory>) -> Seq<FnEventV> {
    s.map_values(|e: FunctionHistory| e@)
}

/// A function's reconstructed history with its last known definition.
#[derive(Debug)]
pub struct FunctionHistoryResponse {
    pub history: Vec<FunctionHistory>,
    pub last_definition: GetFunction,
}

/// One inferred change event in an object's history.
#[derive(Debug)]
pub enum ObjectHistory {
    AddedIn { layer_id: u32 },
    DeletedIn { layer_id: u32 },
    ParamAdded { layer_id: u32, name: String, param_type: String },
    ParamChanged { layer_id: u32, diff: Vec<Diff>, name: String },
    ParamDeleted { layer_id: u32, name: String },
}

/// The spec-level value of an `ObjectHistory` event.
pub enum ObjEventV {
    AddedIn { layer_id: int },
    DeletedIn { layer_id: int },
    ParamAdded { layer_id: int, name: Seq<char>, param_type: Seq<char> },
    ParamChanged { layer_id: int, diff: Seq<DiffV>, name: Seq<char> },
    ParamDeleted { layer_id: int, name: Seq<char> },
}

impl View for ObjectHistory {
    type V = ObjEventV;

    open spec fn view(&self) -> ObjEventV {
        match self {
            ObjectHistory::AddedIn { layer_id } => ObjEventV::AddedIn {
                layer_id: *layer_id as int,
            },
            ObjectHistory::DeletedIn { layer_id } => ObjEventV::DeletedIn {
                layer_id: *layer_id as int,
            },
            ObjectHistory::ParamAdded { layer_id, name, param_type } => ObjEventV::ParamAdded {
                layer_id: *layer_id as int,
                name: name@,
                param_type: param_type@,
            },
            ObjectHistory::ParamChanged { layer_id, diff, name } => ObjEventV::ParamChanged {
                layer_id: *layer_id as int,
                diff: diff_views(diff@),
                name: name@,
            },
            ObjectHistory::ParamDeleted { layer_id, name } => ObjEventV::ParamDeleted {
                layer_id: *layer_id as int,
                name: name@,
            },
        }
    }
}

/// The views of a sequence of object-history events.
pub open spec fn obj_event_views(s: Seq<ObjectHistory>) -> Seq<ObjEventV> {
    s.map_values(|e: ObjectHistory| e@)
}

/// An object's reconstructed history with its last known definition.
#[derive(Debug)]
pub struct ObjectHistoryResponse {
    pub history: Vec<ObjectHistory>,
    pub last_definition: GetObject,
}

/// The result of a history query: the entity's history, or an explicit
/// empty result when the name never occurred.
#[derive(Debug)]
pub enum HistoryResponse {
    Function(FunctionHistoryResponse),
    Object(ObjectHistoryResponse),
    Empty,
}

/// One layer's namespace listing: the function namespace keys in bucket
/// order and the deduplicated object namespaces.
#[derive(Debug)]
pub struct Namespace {
    pub layer_id: u32,
    pub function_ns: Vec<String>,
    pub object_ns: Vec<String>,
}

/// The spec-level value of a `Namespace`.
pub struct NamespaceV {
    pub layer_id: int,
    pub function_ns: Seq<Seq<char>>,
    pub object_ns: Seq<Seq<char>>,
}

impl View for Namespace {
    type V = NamespaceV;

    open spec fn view(&self) -> NamespaceV {
        NamespaceV {
            layer_id: self.layer_id as int,
            function_ns: views_of(self.function_ns@),
            object_ns: views_of(self.object_ns@),
        }
    }
}

/// One layer's type-group names.
#[derive(Debug)]
pub struct TypeResponse {
    pub layer_id: i32,
    pub types: Vec<String>,
}

/// The spec-level value of a `TypeResponse`.
pub struct TypeResponseV {
    pub layer_id: int,
    pub types: Seq<Seq<char>>,
}

impl View for TypeResponse {
    type V = TypeResponseV;

    open spec fn view(&self) -> TypeResponseV {
        TypeResponseV { layer_id: self.layer_id as int, types: views_of(self.types@) }
    }
}

/// The result of a type lookup, in the requested projection.
#[derive(Debug)]
pub enum GetTypeResponse {
    FullMode(Vec<GetTypeFull>),
    CompactMode(Vec<GetTypeCompact>),
}

/// One layer's constructors of the requested type, in full.
#[derive(Debug)]
pub struct GetTypeFull {
    pub layer_id: i32,
    pub objects: Vec<TlConstructor>,
}

/// The spec-level value of a `GetTypeFull`.
pub struct GetTypeFullV {
    pub layer_id: int,
    pub objects: Seq<CtorV>,
}

impl View for GetTypeFull {
    type V = GetTypeFullV;

    open spec fn view(&self) -> GetTypeFullV {
        GetTypeFullV { layer_id: self.layer_id as int, objects: ctor_views(self.objects@) }
    }
}

/// One layer's constructors of the requested type, reduced to id and name.
#[derive(Debug)]
pub struct GetTypeCompact {
    pub layer_id: i32,
    pub objects: Vec<RefCompactTlConstructor>,
}

/// The spec-level value of a `GetTypeCompact`.
pub struct GetTypeCompactV {
    pub layer_id: int,
    pub objects: Seq<RefCompactV>,
}

impl View for GetTypeCompact {
    type V = GetTypeCompactV;

    open spec fn view(&self) -> GetTypeCompactV {
        GetTypeCompactV {
            layer_id: self.layer_id as int,
            objects: self.objects@.map_values(|o: RefCompactTlConstructor| o@),
        }
    }
}

} // verus!
