//! The schema registry: the ordered collection of parsed layers and its
//! derived flat index, with every point-in-time query over them.
//!
//! Built once at startup from the raw layers, then read-only. The external
//! search index receives the compact-definition list and answers ranked
//! search; those calls live with the caller, outside the registry.

use vstd::prelude::*;
use vstd::string::StrSliceExecFns;
use crate::models::compact_schema::{compact_views, fresh_uuid, CompactTlDefinition, CompactV, DefinitionType};
use crate::models::layer_release_date::LayerReleaseDate;
use crate::models::tl_layer::TlLayer;
use crate::text::{find_where, lemma_find_where_at, str_eq, views_of};
use crate::tl::{bucket_views, parse_schema, spec_parse_schema, SchemaV, TlSchema};
use crate::tl::tl_constructor::{ctor_views, CtorV, TlConstructor};
use crate::tl::tl_function::{FuncV, TlFunction};
use crate::tl::tl_type::GroupV;

verus! {

/// The registry: every parsed layer, ascending by layer id, and the flat
/// compact-definition index derived from them.
pub struct SchemaManager {
    schemas: Vec<TlSchema>,
    compact_definitions: Vec<CompactTlDefinition>,
}

/// The spec-level value of a `SchemaManager`.
pub struct ManagerV {
    pub schemas: Seq<SchemaV>,
    pub compact_definitions: Seq<CompactV>,
}

/// The views of a sequence of parsed layers.
pub open spec fn schema_views(s: Seq<TlSchema>) -> Seq<SchemaV> {
    s.map_values(|x: TlSchema| x@)
}

impl View for SchemaManager {
    type V = ManagerV;

    closed spec fn view(&self) -> ManagerV {
        ManagerV {
            schemas: schema_views(self.schemas@),
            compact_definitions: compact_views(self.compact_definitions@),
        }
    }
}

/// The parse of one raw layer, at spec level.
pub open spec fn schema_view_of(l: crate::models::tl_layer::LayerV) -> SchemaV {
    SchemaV {
        layer_id: l.layer_id,
        release_date: l.release_date,
        objects: spec_parse_schema(l.layer).0,
        functions: spec_parse_schema(l.layer).1,
    }
}

/// The views of a sequence of raw layers.
pub open spec fn layer_views(s: Seq<TlLayer>) -> Seq<crate::models::tl_layer::LayerV> {
    s.map_values(|x: TlLayer| x@)
}

/// The parses of all raw layers, in input order.
pub open spec fn parsed_views(ls: Seq<crate::models::tl_layer::LayerV>) -> Seq<SchemaV> {
    ls.map_values(|l: crate::models::tl_layer::LayerV| schema_view_of(l))
}

/// The flat compact-definition list of one schema: every function of every
/// namespace bucket, then every constructor of every type group.
pub open spec fn compacts_of_schema(s: SchemaV) -> Seq<CompactV> {
    compacts_of_buckets(s.functions, s.layer_id) + compacts_of_groups(s.objects, s.layer_id)
}

/// The compact projection of one function occurrence.
pub open spec fn compact_of_func(f: FuncV, ns: Seq<char>, layer_id: int) -> CompactV {
    CompactV {
        layer_id,
        definition_id: f.id,
        name: f.name,
        namespace: ns,
        return_type: Some(f.return_type),
        definition_type: DefinitionType::Function,
    }
}

/// The compact projection of one constructor occurrence.
pub open spec fn compact_of_ctor(c: CtorV, ns: Seq<char>, layer_id: int) -> CompactV {
    CompactV {
        layer_id,
        definition_id: c.id,
        name: c.name,
        namespace: ns,
        return_type: None,
        definition_type: DefinitionType::Object,
    }
}

/// The predicate selecting the schema of one layer id.
pub open spec fn has_layer_pred(id: int) -> spec_fn(SchemaV) -> bool {
    |s: SchemaV| s.layer_id == id
}

/// The registry position of the first schema with the given layer id.
pub open spec fn find_schema(schemas: Seq<SchemaV>, id: int) -> Option<int> {
    find_where(schemas, has_layer_pred(id))
}

/// The schemas a query walks: all of them, or the one of the requested
/// layer id (none when that id is unknown).
pub open spec fn selected(schemas: Seq<SchemaV>, layer_id: Option<int>) -> Seq<SchemaV> {
    match layer_id {
        None => schemas,
        Some(id) => match find_schema(schemas, id) {
            None => seq![],
            Some(i) => seq![schemas[i]],
        },
    }
}

/// The view of an optional 32-bit layer id.
pub open spec fn opt_id(o: Option<i32>) -> Option<int> {
    match o {
        Some(v) => Some(v as int),
        None => None,
    }
}

/// The view of an optional unsigned layer id.
pub open spec fn opt_uid(o: Option<u32>) -> Option<int> {
    match o {
        Some(v) => Some(v as int),
        None => None,
    }
}

/// The views of a sequence of borrowed schemas.
pub open spec fn ref_schema_views(s: Seq<&TlSchema>) -> Seq<SchemaV> {
    s.map_values(|x: &TlSchema| x@)
}

/// The predicate selecting compact definitions of one layer.
pub open spec fn compact_layer_pred(id: int) -> spec_fn(CompactV) -> bool {
    |c: CompactV| c.layer_id == id
}

/// The views of a sequence of borrowed compact definitions.
pub open spec fn ref_compact_views(s: Seq<&CompactTlDefinition>) -> Seq<CompactV> {
    s.map_values(|x: &CompactTlDefinition| x@)
}

/// The predicate selecting the bucket of one namespace key.
pub open spec fn has_key_pred(ns: Seq<char>) -> spec_fn((Seq<char>, Seq<FuncV>)) -> bool {
    |b: (Seq<char>, Seq<FuncV>)| b.0 == ns
}

/// The first `n` elements of `s`, or all of them when fewer.
pub open spec fn take_at_most<A>(s: Seq<A>, n: int) -> Seq<A> {
    if n < s.len() {
        s.subrange(0, n)
    } else {
        s
    }
}

/// The named mapping of a function to its compact projection.
pub open spec fn compact_of_func_fn(ns: Seq<char>, layer_id: int) -> spec_fn(FuncV) -> CompactV {
    |f: FuncV| compact_of_func(f, ns, layer_id)
}

/// The named mapping of a constructor to its compact projection.
pub open spec fn compact_of_ctor_fn(ns: Seq<char>, layer_id: int) -> spec_fn(CtorV) -> CompactV {
    |c: CtorV| compact_of_ctor(c, ns, layer_id)
}

pub open spec fn compacts_of_funcs(fs: Seq<FuncV>, ns: Seq<char>, layer_id: int) -> Seq<CompactV> {
    fs.map_values(compact_of_func_fn(ns, layer_id))
}

pub open spec fn compacts_of_buckets(bs: Seq<(Seq<char>, Seq<FuncV>)>, layer_id: int) -> Seq<
    CompactV,
>
    decreases bs.len(),
{
    if bs.len() == 0 {
        seq![]
    } else {
        compacts_of_buckets(bs.drop_last(), layer_id) + compacts_of_funcs(
            bs.last().1,
            bs.last().0,
            layer_id,
        )
    }
}

pub open spec fn compacts_of_ctors(cs: Seq<CtorV>, ns: Seq<char>, layer_id: int) -> Seq<CompactV> {
    cs.map_values(compact_of_ctor_fn(ns, layer_id))
}

pub open spec fn compacts_of_groups(gs: Seq<GroupV>, layer_id: int) -> Seq<CompactV>
    decreases gs.len(),
{
    if gs.len() == 0 {
        seq![]
    } else {
        compacts_of_groups(gs.drop_last(), layer_id) + compacts_of_ctors(
            gs.last().constructors,
            gs.last().name,
            layer_id,
        )
    }
}

/// The whole flat index, one schema after the other in registry order.
pub open spec fn compacts_of(schemas: Seq<SchemaV>) -> Seq<CompactV>
    decreases schemas.len(),
{
    if schemas.len() == 0 {
        seq![]
    } else {
        compacts_of(schemas.drop_last()) + compacts_of_schema(schemas.last())
    }
}

impl SchemaManager {
    /// The registry's invariant: layers ascend by id, and every id is
    /// non-negative, as the ingestion collaborator assigns them.
    pub open spec fn wf(&self) -> bool {
        &&& forall|i: int, j: int|
            0 <= i < j < self@.schemas.len() ==> self@.schemas[i].layer_id
                <= self@.schemas[j].layer_id
        &&& forall|i: int|
            0 <= i < self@.schemas.len() ==> 0 <= #[trigger] self@.schemas[i].layer_id
    }

    /// Builds the registry: parses every raw layer and orders the parses
    /// ascending by layer id. The result holds exactly the parses of the
    /// given layers, and the flat index derived from them in that order.
    pub fn new(layers: Vec<TlLayer>) -> (r: SchemaManager)
        requires
            forall|i: int| 0 <= i < layers@.len() ==> 0 <= #[trigger] layers@[i]@.layer_id,
        ensures
            r.wf(),
            r@.schemas.to_multiset() == parsed_views(layer_views(layers@)).to_multiset(),
            r@.compact_definitions == compacts_of(r@.schemas),
    {
        let ghost target = parsed_views(layer_views(layers@));
        let mut work: Vec<TlSchema> = Vec::new();
        let ghost n = layers@.len();
        let mut rest = layers;
        // parse in input order
        proof {
            assert(schema_views(work@) =~= target.subrange(0, 0));
        }
        let mut k: usize = 0;
        let total = rest.len();
        while k < total
            invariant
                k <= total,
                total == rest@.len(),
                rest@.len() == n,
                target == parsed_views(layer_views(rest@)),
                target.len() == n,
                forall|i: int| 0 <= i < rest@.len() ==> 0 <= #[trigger] rest@[i]@.layer_id,
                work@.len() == k as int,
                schema_views(work@) =~= target.subrange(0, k as int),
                forall|i: int| 0 <= i < work@.len() ==> 0 <= #[trigger] work@[i]@.layer_id,
            decreases total - k,
        {
            let ghost prev = work@;
            let layer = rest[k].clone();
            let s = parse_schema(layer);
            work.push(s);
            proof {
                assert(work@ =~= prev.push(work@[prev.len() as int]));
                assert(layer_views(rest@)[k as int] == rest@[k as int]@);
                assert(target[k as int] == schema_view_of(layer_views(rest@)[k as int]));
                assert(work@[prev.len() as int]@ == target[k as int]);
                assert forall|t: int| 0 <= t < k + 1 implies schema_views(work@)[t] == target.subrange(
                    0,
                    k + 1,
                )[t] by {
                    assert(schema_views(work@)[t] == work@[t]@);
                    if t < k {
                        assert(work@[t] == prev[t]);
                        assert(schema_views(prev)[t] == prev[t]@);
                    }
                }
                assert(schema_views(work@) =~= target.subrange(0, k + 1));
            }
            k = k + 1;
        }
        proof {
            assert(target.subrange(0, n as int) =~= target);
        }
        // selection sort ascending by layer id
        let mut sorted: Vec<TlSchema> = Vec::new();
        proof {
            assert(schema_views(sorted@) =~= Seq::<SchemaV>::empty());
            schema_views(sorted@).to_multiset_ensures();
            assert(schema_views(sorted@).to_multiset().len() == 0);
            assert(schema_views(sorted@).to_multiset().add(schema_views(work@).to_multiset())
                =~= target.to_multiset());
        }
        while work.len() > 0
            invariant
                schema_views(sorted@).to_multiset().add(schema_views(work@).to_multiset())
                    =~= target.to_multiset(),
                forall|i: int, j: int|
                    0 <= i < j < sorted@.len() ==> sorted@[i]@.layer_id <= sorted@[j]@.layer_id,
                forall|i: int, j: int|
                    0 <= i < sorted@.len() && 0 <= j < work@.len() ==> sorted@[i]@.layer_id
                        <= work@[j]@.layer_id,
                forall|i: int| 0 <= i < sorted@.len() ==> 0 <= #[trigger] sorted@[i]@.layer_id,
                forall|i: int| 0 <= i < work@.len() ==> 0 <= #[trigger] work@[i]@.layer_id,
            decreases work@.len(),
        {
            // find the first minimal layer id
            let mut m: usize = 0;
            let mut t: usize = 1;
            while t < work.len()
                invariant
                    t <= work@.len(),
                    m < t,
                    forall|i: int| 0 <= i < t ==> work@[m as int]@.layer_id <= #[trigger] work@[i]@.layer_id,
                decreases work@.len() - t,
            {
                if work[t].layer_id < work[m].layer_id {
                    m = t;
                }
                t = t + 1;
            }
            let ghost wprev = work@;
            let ghost sprev = sorted@;
            let s = work.remove(m);
            sorted.push(s);
            proof {
                wprev.to_multiset_ensures();
                sprev.to_multiset_ensures();
                schema_views(wprev).to_multiset_ensures();
                schema_views(sprev).to_multiset_ensures();
                assert(work@ == wprev.remove(m as int));
                assert(sorted@ == sprev.push(wprev[m as int]));
                assert forall|u: int| 0 <= u < work@.len() implies schema_views(work@)[u]
                    == schema_views(wprev).remove(m as int)[u] by {
                    assert(schema_views(work@)[u] == work@[u]@);
                    if u < m {
                        assert(work@[u] == wprev[u]);
                        assert(schema_views(wprev)[u] == wprev[u]@);
                    } else {
                        assert(work@[u] == wprev[u + 1]);
                        assert(schema_views(wprev)[u + 1] == wprev[u + 1]@);
                    }
                }
                assert(schema_views(work@) =~= schema_views(wprev).remove(m as int));
                assert forall|u: int| 0 <= u < sorted@.len() implies schema_views(sorted@)[u]
                    == schema_views(sprev).push(wprev[m as int]@)[u] by {
                    assert(schema_views(sorted@)[u] == sorted@[u]@);
                    if u < sprev.len() {
                        assert(sorted@[u] == sprev[u]);
                        assert(schema_views(sprev)[u] == sprev[u]@);
                    }
                }
                assert(schema_views(sorted@) =~= schema_views(sprev).push(wprev[m as int]@));
                assert(schema_views(wprev)[m as int] == wprev[m as int]@);
                assert(schema_views(work@).to_multiset() =~= schema_views(wprev).to_multiset()
                    .remove(wprev[m as int]@));
                assert(schema_views(sorted@).to_multiset() =~= schema_views(sprev).to_multiset()
                    .insert(wprev[m as int]@));
                assert(schema_views(wprev).to_multiset().count(wprev[m as int]@) > 0) by {
                    assert(schema_views(wprev).contains(wprev[m as int]@));
                }
                assert(schema_views(sorted@).to_multiset().add(schema_views(work@).to_multiset())
                    =~= schema_views(sprev).to_multiset().add(schema_views(wprev).to_multiset()));
            }
        }
        proof {
            assert(schema_views(work@) =~= Seq::<SchemaV>::empty());
            schema_views(work@).to_multiset_ensures();
            assert(schema_views(work@).to_multiset().len() == 0);
            assert(schema_views(sorted@).to_multiset() =~= target.to_multiset());
        }
        let compact_definitions = Self::create_compact_definitions(&sorted);
        SchemaManager { schemas: sorted, compact_definitions }
    }

    /// Flattens every schema into the compact-definition index, giving each
    /// entry a fresh opaque identifier.
    fn create_compact_definitions(schemas: &Vec<TlSchema>) -> (r: Vec<CompactTlDefinition>)
        ensures
            compact_views(r@) == compacts_of(schema_views(schemas@)),
    {
        let ghost sv = schema_views(schemas@);
        let mut out: Vec<CompactTlDefinition> = Vec::new();
        let mut i: usize = 0;
        proof {
            assert(compact_views(out@) =~= compacts_of(sv.subrange(0, 0)));
        }
        while i < schemas.len()
            invariant
                i <= schemas@.len(),
                sv == schema_views(schemas@),
                sv.len() == schemas@.len(),
                compact_views(out@) =~= compacts_of(sv.subrange(0, i as int)),
            decreases schemas@.len() - i,
        {
            proof {
                assert(sv.subrange(0, i + 1).drop_last() =~= sv.subrange(0, i as int));
                assert(sv.subrange(0, i + 1).last() == sv[i as int]);
                assert(sv[i as int] == schemas@[i as int]@);
            }
            let schema: &TlSchema = &schemas[i];
            let ghost layer_id = schema@.layer_id;
            let ghost bsv = schema@.functions;
            let mut b: usize = 0;
            proof {
                assert(compact_views(out@) =~= compacts_of(sv.subrange(0, i as int))
                    + compacts_of_buckets(bsv.subrange(0, 0), layer_id));
            }
            while b < schema.functions.len()
                invariant
                    b <= schema.functions@.len(),
                    bsv == schema@.functions,
                    bsv.len() == schema.functions@.len(),
                    layer_id == schema@.layer_id,
                    compact_views(out@) =~= compacts_of(sv.subrange(0, i as int))
                        + compacts_of_buckets(bsv.subrange(0, b as int), layer_id),
                decreases schema.functions@.len() - b,
            {
                proof {
                    assert(bsv.subrange(0, b + 1).drop_last() =~= bsv.subrange(0, b as int));
                    assert(bsv.subrange(0, b + 1).last() == bsv[b as int]);
                    assert(bsv[b as int] == (schema.functions@[b as int].0@, crate::tl::tl_function::func_views(
                        schema.functions@[b as int].1@,
                    )));
                }
                let bucket: &(String, Vec<TlFunction>) = &schema.functions[b];
                let ghost fsv = bsv[b as int].1;
                let mut f: usize = 0;
                proof {
                    assert(compacts_of_funcs(fsv.subrange(0, 0), bsv[b as int].0, layer_id)
                        =~= Seq::<CompactV>::empty());
                }
                while f < bucket.1.len()
                    invariant
                        f <= bucket.1@.len(),
                        fsv == crate::tl::tl_function::func_views(bucket.1@),
                        fsv.len() == bucket.1@.len(),
                        bsv[b as int].0 == bucket.0@,
                        b < bsv.len(),
                        layer_id == schema@.layer_id,
                        compact_views(out@) =~= compacts_of(sv.subrange(0, i as int))
                            + compacts_of_buckets(bsv.subrange(0, b as int), layer_id)
                            + compacts_of_funcs(fsv.subrange(0, f as int), bsv[b as int].0, layer_id),
                    decreases bucket.1@.len() - f,
                {
                    let ghost oprev = out@;
                    let func: &TlFunction = &bucket.1[f];
                    let item = CompactTlDefinition {
                        id: fresh_uuid(),
                        layer_id: schema.layer_id,
                        name: func.name.clone(),
                        return_type: Some(func.return_type.clone()),
                        definition_id: func.id.clone(),
                        namespace: bucket.0.clone(),
                        definition_type: DefinitionType::Function,
                    };
                    proof {
                        assert(item@ == compact_of_func(fsv[f as int], bsv[b as int].0, layer_id));
                    }
                    out.push(item);
                    proof {
                        assert(out@ =~= oprev.push(out@[oprev.len() as int]));
                        assert forall|u: int| 0 <= u < out@.len() implies compact_views(out@)[u]
                            == compact_views(oprev).push(
                            out@[oprev.len() as int]@,
                        )[u] by {
                            assert(compact_views(out@)[u] == out@[u]@);
                            if u < oprev.len() {
                                assert(out@[u] == oprev[u]);
                                assert(compact_views(oprev)[u] == oprev[u]@);
                            }
                        }
                        assert(compact_views(out@) =~= compact_views(oprev).push(
                            out@[oprev.len() as int]@,
                        ));
                        assert(fsv.subrange(0, f + 1) =~= fsv.subrange(0, f as int).push(
                            fsv[f as int],
                        ));
                        crate::text::lemma_map_push(
                            fsv.subrange(0, f as int),
                            compact_of_func_fn(bsv[b as int].0, layer_id),
                            fsv[f as int],
                        );
                        assert(compact_views(out@) =~= compacts_of(sv.subrange(0, i as int))
                            + compacts_of_buckets(bsv.subrange(0, b as int), layer_id)
                            + compacts_of_funcs(
                            fsv.subrange(0, f + 1),
                            bsv[b as int].0,
                            layer_id,
                        ));
                    }
                    f = f + 1;
                }
                proof {
                    assert(fsv.subrange(0, fsv.len() as int) =~= fsv);
                    assert(compacts_of_buckets(bsv.subrange(0, b + 1), layer_id)
                        =~= compacts_of_buckets(bsv.subrange(0, b as int), layer_id)
                        + compacts_of_funcs(fsv, bsv[b as int].0, layer_id));
                    assert(compact_views(out@) =~= compacts_of(sv.subrange(0, i as int))
                        + compacts_of_buckets(bsv.subrange(0, b + 1), layer_id));
                }
                b = b + 1;
            }
            proof {
                assert(bsv.subrange(0, bsv.len() as int) =~= bsv);
            }
            let ghost gsv = schema@.objects;
            let mut g: usize = 0;
            proof {
                assert(compact_views(out@) =~= compacts_of(sv.subrange(0, i as int))
                    + compacts_of_buckets(bsv, layer_id) + compacts_of_groups(
                    gsv.subrange(0, 0),
                    layer_id,
                ));
            }
            while g < schema.objects.len()
                invariant
                    g <= schema.objects@.len(),
                    gsv == schema@.objects,
                    gsv.len() == schema.objects@.len(),
                    bsv == schema@.functions,
                    layer_id == schema@.layer_id,
                    compact_views(out@) =~= compacts_of(sv.subrange(0, i as int))
                        + compacts_of_buckets(bsv, layer_id) + compacts_of_groups(
                        gsv.subrange(0, g as int),
                        layer_id,
                    ),
                decreases schema.objects@.len() - g,
            {
                proof {
                    assert(gsv.subrange(0, g + 1).drop_last() =~= gsv.subrange(0, g as int));
                    assert(gsv.subrange(0, g + 1).last() == gsv[g as int]);
                    assert(gsv[g as int] == schema.objects@[g as int]@);
                }
                let group: &crate::tl::tl_type::TlType = &schema.objects[g];
                let ghost csv = gsv[g as int].constructors;
                let mut c: usize = 0;
                proof {
                    assert(compacts_of_ctors(csv.subrange(0, 0), gsv[g as int].name, layer_id)
                        =~= Seq::<CompactV>::empty());
                }
                while c < group.constructors.len()
                    invariant
                        c <= group.constructors@.len(),
                        csv == ctor_views(group.constructors@),
                        csv.len() == group.constructors@.len(),
                        gsv[g as int].name == group.name@,
                        g < gsv.len(),
                        gsv == schema@.objects,
                        bsv == schema@.functions,
                        layer_id == schema@.layer_id,
                        compact_views(out@) =~= compacts_of(sv.subrange(0, i as int))
                            + compacts_of_buckets(bsv, layer_id) + compacts_of_groups(
                            gsv.subrange(0, g as int),
                            layer_id,
                        ) + compacts_of_ctors(
                            csv.subrange(0, c as int),
                            gsv[g as int].name,
                            layer_id,
                        ),
                    decreases group.constructors@.len() - c,
                {
                    let ghost oprev = out@;
                    let ctor: &TlConstructor = &group.constructors[c];
                    let item = CompactTlDefinition {
                        id: fresh_uuid(),
                        layer_id: schema.layer_id,
                        name: ctor.name.clone(),
                        return_type: None,
                        definition_id: ctor.id.clone(),
                        namespace: group.name.clone(),
                        definition_type: DefinitionType::Object,
                    };
                    proof {
                        assert(item@ == compact_of_ctor(csv[c as int], gsv[g as int].name, layer_id));
                    }
                    out.push(item);
                    proof {
                        assert(out@ =~= oprev.push(out@[oprev.len() as int]));
                        assert forall|u: int| 0 <= u < out@.len() implies compact_views(out@)[u]
                            == compact_views(oprev).push(
                            out@[oprev.len() as int]@,
                        )[u] by {
                            assert(compact_views(out@)[u] == out@[u]@);
                            if u < oprev.len() {
                                assert(out@[u] == oprev[u]);
                                assert(compact_views(oprev)[u] == oprev[u]@);
                            }
                        }
                        assert(compact_views(out@) =~= compact_views(oprev).push(
                            out@[oprev.len() as int]@,
                        ));
                        assert(csv.subrange(0, c + 1) =~= csv.subrange(0, c as int).push(
                            csv[c as int],
                        ));
                        crate::text::lemma_map_push(
                            csv.subrange(0, c as int),
                            compact_of_ctor_fn(gsv[g as int].name, layer_id),
                            csv[c as int],
                        );
                        assert(compact_views(out@) =~= compacts_of(sv.subrange(0, i as int))
                            + compacts_of_buckets(bsv, layer_id) + compacts_of_groups(
                            gsv.subrange(0, g as int),
                            layer_id,
                        ) + compacts_of_ctors(
                            csv.subrange(0, c + 1),
                            gsv[g as int].name,
                            layer_id,
                        ));
                    }
                    c = c + 1;
                }
                proof {
                    assert(csv.subrange(0, csv.len() as int) =~= csv);
                    assert(compacts_of_groups(gsv.subrange(0, g + 1), layer_id)
                        =~= compacts_of_groups(gsv.subrange(0, g as int), layer_id)
                        + compacts_of_ctors(csv, gsv[g as int].name, layer_id));
                    assert(compact_views(out@) =~= compacts_of(sv.subrange(0, i as int))
                        + compacts_of_buckets(bsv, layer_id) + compacts_of_groups(
                        gsv.subrange(0, g + 1),
                        layer_id,
                    ));
                }
                g = g + 1;
            }
            proof {
                assert(gsv.subrange(0, gsv.len() as int) =~= gsv);
                assert(compacts_of_schema(sv[i as int]) =~= compacts_of_buckets(bsv, layer_id)
                    + compacts_of_groups(gsv, layer_id));
                assert(compact_views(out@) =~= compacts_of(sv.subrange(0, i + 1)));
            }
            i = i + 1;
        }
        proof {
            assert(sv.subrange(0, sv.len() as int) =~= sv);
        }
        out
    }
}

impl SchemaManager {
    /// Picks the schemas a query walks: the whole registry, or the one
    /// schema of the requested layer id.
    fn filter_schema_by_id(&self, layer_id: Option<i32>) -> (r: Vec<&TlSchema>)
        ensures
            ref_schema_views(r@) == selected(self@.schemas, opt_id(layer_id)),
    {
        let ghost sv = self@.schemas;
        match layer_id {
            Some(id) => {
                let mut i: usize = 0;
                while i < self.schemas.len()
                    invariant
                        i <= self.schemas@.len(),
                        sv == schema_views(self.schemas@),
                        sv.len() == self.schemas@.len(),
                        layer_id == Some(id),
                        forall|j: int| 0 <= j < i ==> !has_layer_pred(id as int)(sv[j]),
                    decreases self.schemas@.len() - i,
                {
                    let hit = self.schemas[i].layer_id == id;
                    proof {
                        assert(sv[i as int] == self.schemas@[i as int]@);
                    }
                    if hit {
                        proof {
                            lemma_find_where_at(sv, has_layer_pred(id as int), i as int);
                        }
                        let mut one: Vec<&TlSchema> = Vec::new();
                        one.push(&self.schemas[i]);
                        proof {
                            assert(ref_schema_views(one@) =~= seq![sv[i as int]]);
                        }
                        return one;
                    }
                    i = i + 1;
                }
                proof {
                    lemma_find_where_at(sv, has_layer_pred(id as int), sv.len() as int);
                    assert(ref_schema_views(Seq::<&TlSchema>::empty()) =~= Seq::<SchemaV>::empty());
                }
                Vec::new()
            },
            None => {
                let mut all: Vec<&TlSchema> = Vec::new();
                let mut i: usize = 0;
                proof {
                    assert(ref_schema_views(all@) =~= sv.subrange(0, 0));
                }
                while i < self.schemas.len()
                    invariant
                        i <= self.schemas@.len(),
                        sv == schema_views(self.schemas@),
                        sv.len() == self.schemas@.len(),
                        all@.len() == i as int,
                        ref_schema_views(all@) =~= sv.subrange(0, i as int),
                    decreases self.schemas@.len() - i,
                {
                    let ghost prev = all@;
                    all.push(&self.schemas[i]);
                    proof {
                        assert(all@ =~= prev.push(all@[prev.len() as int]));
                        assert forall|t: int| 0 <= t < i + 1 implies ref_schema_views(all@)[t]
                            == sv.subrange(0, i + 1)[t] by {
                            assert(ref_schema_views(all@)[t] == all@[t]@);
                            if t < i {
                                assert(all@[t] == prev[t]);
                                assert(ref_schema_views(prev)[t] == prev[t]@);
                            }
                        }
                        assert(ref_schema_views(all@) =~= sv.subrange(0, i + 1));
                    }
                    i = i + 1;
                }
                proof {
                    assert(sv.subrange(0, sv.len() as int) =~= sv);
                }
                all
            },
        }
    }

    /// The full snapshot of one layer, by id.
    pub fn get_layer(&self, layer_id: i32) -> (r: Option<&TlSchema>)
        ensures
            match r {
                Some(s) => exists|i: int|
                    0 <= i < self@.schemas.len() && find_schema(self@.schemas, layer_id as int)
                        == Some(i) && s@ == self@.schemas[i],
                None => find_schema(self@.schemas, layer_id as int) is None,
            },
    {
        let ghost sv = self@.schemas;
        let mut i: usize = 0;
        while i < self.schemas.len()
            invariant
                i <= self.schemas@.len(),
                sv == schema_views(self.schemas@),
                sv.len() == self.schemas@.len(),
                forall|j: int| 0 <= j < i ==> !has_layer_pred(layer_id as int)(sv[j]),
            decreases self.schemas@.len() - i,
        {
            let hit = self.schemas[i].layer_id == layer_id;
            proof {
                assert(sv[i as int] == self.schemas@[i as int]@);
            }
            if hit {
                proof {
                    lemma_find_where_at(sv, has_layer_pred(layer_id as int), i as int);
                }
                return Some(&self.schemas[i]);
            }
            i = i + 1;
        }
        proof {
            lemma_find_where_at(sv, has_layer_pred(layer_id as int), sv.len() as int);
        }
        None
    }

    /// The compact projection of one layer: every indexed definition of it.
    pub fn get_compact_layer(&self, layer_id: i32) -> (r: Vec<&CompactTlDefinition>)
        ensures
            ref_compact_views(r@) == self@.compact_definitions.filter(
                compact_layer_pred(layer_id as int),
            ),
    {
        let ghost cv = self@.compact_definitions;
        let mut out: Vec<&CompactTlDefinition> = Vec::new();
        let mut i: usize = 0;
        proof {
            assert(cv.subrange(0, 0).filter(compact_layer_pred(layer_id as int)) =~= Seq::<
                CompactV,
            >::empty()) by {
                reveal_with_fuel(Seq::filter, 2);
            }
            assert(ref_compact_views(out@) =~= Seq::<CompactV>::empty());
        }
        while i < self.compact_definitions.len()
            invariant
                i <= self.compact_definitions@.len(),
                cv == compact_views(self.compact_definitions@),
                cv.len() == self.compact_definitions@.len(),
                ref_compact_views(out@) =~= cv.subrange(0, i as int).filter(
                    compact_layer_pred(layer_id as int),
                ),
            decreases self.compact_definitions@.len() - i,
        {
            proof {
                cv.subrange(0, i as int).lemma_filter_push(
                    cv[i as int],
                    compact_layer_pred(layer_id as int),
                );
                assert(cv.subrange(0, i + 1) =~= cv.subrange(0, i as int).push(cv[i as int]));
                assert(cv[i as int] == self.compact_definitions@[i as int]@);
            }
            let hit = self.compact_definitions[i].layer_id == layer_id;
            if hit {
                let ghost prev = out@;
                out.push(&self.compact_definitions[i]);
                proof {
                    assert(out@ =~= prev.push(out@[prev.len() as int]));
                    assert forall|t: int| 0 <= t < out@.len() implies ref_compact_views(out@)[t]
                        == ref_compact_views(prev).push(cv[i as int])[t] by {
                        assert(ref_compact_views(out@)[t] == out@[t]@);
                        if t < prev.len() {
                            assert(out@[t] == prev[t]);
                            assert(ref_compact_views(prev)[t] == prev[t]@);
                        }
                    }
                    assert(ref_compact_views(out@) =~= ref_compact_views(prev).push(cv[i as int]));
                }
            }
            proof {
                assert(ref_compact_views(out@) =~= cv.subrange(0, i + 1).filter(
                    compact_layer_pred(layer_id as int),
                ));
            }
            i = i + 1;
        }
        proof {
            assert(cv.subrange(0, cv.len() as int) =~= cv);
        }
        out
    }

    /// Every layer's release date, in registry order.
    pub fn release_dates(&self) -> (r: Vec<LayerReleaseDate>)
        ensures
            r@.len() == self@.schemas.len(),
            forall|i: int|
                0 <= i < r@.len() ==> (#[trigger] r@[i]).layer_id as int
                    == self@.schemas[i].layer_id && r@[i].release_date
                    == self@.schemas[i].release_date,
    {
        let ghost sv = self@.schemas;
        let mut out: Vec<LayerReleaseDate> = Vec::new();
        let mut i: usize = 0;
        while i < self.schemas.len()
            invariant
                i <= self.schemas@.len(),
                sv == schema_views(self.schemas@),
                sv.len() == self.schemas@.len(),
                out@.len() == i,
                forall|j: int|
                    0 <= j < i ==> (#[trigger] out@[j]).layer_id as int == sv[j].layer_id
                        && out@[j].release_date == sv[j].release_date,
            decreases self.schemas@.len() - i,
        {
            let s: &TlSchema = &self.schemas[i];
            proof {
                assert(sv[i as int] == self.schemas@[i as int]@);
            }
            out.push(LayerReleaseDate { release_date: s.release_date, layer_id: s.layer_id });
            i = i + 1;
        }
        out
    }

    /// The functions of one namespace of one layer, or nothing when the
    /// layer id or the namespace is unknown.
    pub fn get_namespace_functions(&self, req: &crate::models::requests::GetNamespaceRequest) -> (r:
        Option<&Vec<TlFunction>>)
        ensures
            ({
                let f = find_schema(self@.schemas, req.layer_id as int);
                match r {
                    Some(fs) => f is Some && {
                        let g = find_where(
                            self@.schemas[f->0].functions,
                            has_key_pred(req.namespace@),
                        );
                        g is Some && crate::tl::tl_function::func_views(fs@)
                            == self@.schemas[f->0].functions[g->0].1
                    },
                    None => f is None || find_where(
                        self@.schemas[f->0].functions,
                        has_key_pred(req.namespace@),
                    ) is None,
                }
            }),
    {
        let ghost sv = self@.schemas;
        let mut i: usize = 0;
        while i < self.schemas.len()
            invariant
                i <= self.schemas@.len(),
                sv == schema_views(self.schemas@),
                sv.len() == self.schemas@.len(),
                forall|j: int| 0 <= j < i ==> !has_layer_pred(req.layer_id as int)(sv[j]),
            decreases self.schemas@.len() - i,
        {
            let s: &TlSchema = &self.schemas[i];
            proof {
                assert(sv[i as int] == self.schemas@[i as int]@);
            }
            let hit = s.layer_id >= 0 && s.layer_id as u32 == req.layer_id
                && req.layer_id <= i32::MAX as u32;
            if hit {
                proof {
                    lemma_find_where_at(sv, has_layer_pred(req.layer_id as int), i as int);
                    assert(find_schema(self@.schemas, req.layer_id as int) == Some(i as int));
                }
                let ghost bv = sv[i as int].functions;
                let mut j: usize = 0;
                while j < s.functions.len()
                    invariant
                        j <= s.functions@.len(),
                        sv == schema_views(self.schemas@),
                        i < sv.len(),
                        s@ == sv[i as int],
                        find_schema(self@.schemas, req.layer_id as int) == Some(i as int),
                        bv == bucket_views(s.functions@),
                        bv == sv[i as int].functions,
                        bv.len() == s.functions@.len(),
                        forall|k: int| 0 <= k < j ==> !has_key_pred(req.namespace@)(bv[k]),
                    decreases s.functions@.len() - j,
                {
                    let bhit = str_eq(s.functions[j].0.as_str(), req.namespace.as_str());
                    proof {
                        assert(bv[j as int] == (s.functions@[j as int].0@,
                        crate::tl::tl_function::func_views(s.functions@[j as int].1@)));
                    }
                    if bhit {
                        proof {
                            lemma_find_where_at(bv, has_key_pred(req.namespace@), j as int);
                            assert(find_schema(self@.schemas, req.layer_id as int) == Some(
                                i as int,
                            ));
                            assert(find_where(bv, has_key_pred(req.namespace@)) == Some(j as int));
                            assert(crate::tl::tl_function::func_views(s.functions@[j as int].1@)
                                == bv[j as int].1);
                        }
                        return Some(&s.functions[j].1);
                    }
                    j = j + 1;
                }
                proof {
                    lemma_find_where_at(bv, has_key_pred(req.namespace@), bv.len() as int);
                }
                return None;
            }
            i = i + 1;
        }
        proof {
            lemma_find_where_at(sv, has_layer_pred(req.layer_id as int), sv.len() as int);
        }
        None
    }
}

/// The named mapping of a type group to its name.
pub open spec fn group_name_fn() -> spec_fn(GroupV) -> Seq<char> {
    |g: GroupV| g.name
}

/// The type-group names of one schema, in group order.
pub open spec fn type_names_of(s: SchemaV) -> Seq<Seq<char>> {
    s.objects.map_values(group_name_fn())
}

/// The named mapping of a namespace bucket to its key.
pub open spec fn bucket_key_fn() -> spec_fn((Seq<char>, Seq<FuncV>)) -> Seq<char> {
    |b: (Seq<char>, Seq<FuncV>)| b.0
}

/// Extends a first-occurrence namespace listing with one constructor's
/// namespace, if it has one that is not yet listed.
pub open spec fn add_ctor_ns(acc: Seq<Seq<char>>, c: CtorV) -> Seq<Seq<char>> {
    match c.namespace {
        None => acc,
        Some(ns) => if acc.contains(ns) {
            acc
        } else {
            acc.push(ns)
        },
    }
}

pub open spec fn add_ctors_ns(acc: Seq<Seq<char>>, cs: Seq<CtorV>) -> Seq<Seq<char>>
    decreases cs.len(),
{
    if cs.len() == 0 {
        acc
    } else {
        add_ctor_ns(add_ctors_ns(acc, cs.drop_last()), cs.last())
    }
}

pub open spec fn add_groups_ns(acc: Seq<Seq<char>>, gs: Seq<GroupV>) -> Seq<Seq<char>>
    decreases gs.len(),
{
    if gs.len() == 0 {
        acc
    } else {
        add_ctors_ns(add_groups_ns(acc, gs.drop_last()), gs.last().constructors)
    }
}

/// The deduplicated object namespaces of one schema, in first-occurrence
/// order (the listing is a set; this order is one valid rendering of it).
pub open spec fn object_ns_of(s: SchemaV) -> Seq<Seq<char>> {
    add_groups_ns(seq![], s.objects)
}

/// The predicate selecting constructors of one namespace.
pub open spec fn ctor_ns_pred(ns: Seq<char>) -> spec_fn(CtorV) -> bool {
    |c: CtorV| c.namespace == Some(ns)
}

/// The constructors of one namespace, walking groups in order.
pub open spec fn ctors_with_ns(gs: Seq<GroupV>, ns: Seq<char>) -> Seq<CtorV>
    decreases gs.len(),
{
    if gs.len() == 0 {
        seq![]
    } else {
        ctors_with_ns(gs.drop_last(), ns) + gs.last().constructors.filter(ctor_ns_pred(ns))
    }
}

/// The predicate selecting the type group of one name.
pub open spec fn group_named_pred(name: Seq<char>) -> spec_fn(GroupV) -> bool {
    |g: GroupV| g.name == name
}

/// The named mapping of a constructor to its id-and-name projection.
pub open spec fn ref_compact_fn() -> spec_fn(CtorV) -> crate::models::compact_schema::RefCompactV {
    |c: CtorV| crate::models::compact_schema::RefCompactV { id: c.id, name: c.name }
}

/// The compact type lookup: per selected layer holding the named type, its
/// constructors capped at `limit`, reduced to id and name.
pub open spec fn types_compact_of(schemas: Seq<SchemaV>, name: Seq<char>, limit: int) -> Seq<
    crate::models::responses::GetTypeCompactV,
>
    decreases schemas.len(),
{
    if schemas.len() == 0 {
        seq![]
    } else {
        let prev = types_compact_of(schemas.drop_last(), name, limit);
        let s = schemas.last();
        match find_where(s.objects, group_named_pred(name)) {
            None => prev,
            Some(g) => prev + seq![
                crate::models::responses::GetTypeCompactV {
                    layer_id: s.layer_id,
                    objects: take_at_most(s.objects[g].constructors, limit).map_values(
                        ref_compact_fn(),
                    ),
                },
            ],
        }
    }
}

/// The full type lookup, before the cap: per selected layer holding the
/// named type, all its constructors.
pub open spec fn types_full_of(schemas: Seq<SchemaV>, name: Seq<char>) -> Seq<
    crate::models::responses::GetTypeFullV,
>
    decreases schemas.len(),
{
    if schemas.len() == 0 {
        seq![]
    } else {
        let prev = types_full_of(schemas.drop_last(), name);
        let s = schemas.last();
        match find_where(s.objects, group_named_pred(name)) {
            None => prev,
            Some(g) => prev + seq![
                crate::models::responses::GetTypeFullV {
                    layer_id: s.layer_id,
                    objects: s.objects[g].constructors,
                },
            ],
        }
    }
}

/// The predicate selecting functions of one name.
pub open spec fn func_named_pred(name: Seq<char>) -> spec_fn(FuncV) -> bool {
    |f: FuncV| f.name == name
}

/// The named mapping of a function to an occurrence in one layer.
pub open spec fn occ_fn(layer_id: int) -> spec_fn(FuncV) -> crate::models::responses::GetFunctionV {
    |f: FuncV| crate::models::responses::GetFunctionV { function: f, layer_id }
}

/// The named function occurrences of one layer's buckets, in bucket order.
pub open spec fn bucket_func_occs(
    bs: Seq<(Seq<char>, Seq<FuncV>)>,
    name: Seq<char>,
    layer_id: int,
) -> Seq<crate::models::responses::GetFunctionV>
    decreases bs.len(),
{
    if bs.len() == 0 {
        seq![]
    } else {
        bucket_func_occs(bs.drop_last(), name, layer_id) + bs.last().1.filter(
            func_named_pred(name),
        ).map_values(occ_fn(layer_id))
    }
}

/// Every occurrence of the named function across the given schemas, in
/// registry order.
pub open spec fn func_occs(schemas: Seq<SchemaV>, name: Seq<char>) -> Seq<
    crate::models::responses::GetFunctionV,
>
    decreases schemas.len(),
{
    if schemas.len() == 0 {
        seq![]
    } else {
        func_occs(schemas.drop_last(), name) + bucket_func_occs(
            schemas.last().functions,
            name,
            schemas.last().layer_id,
        )
    }
}

/// Appends every occurrence of the named function within one layer.
fn append_func_matches(s: &TlSchema, name: &str, out: &mut Vec<crate::models::responses::GetFunction>)
    requires
        0 <= s@.layer_id <= u32::MAX,
    ensures
        crate::models::responses::get_function_views(final(out)@)
            == crate::models::responses::get_function_views(old(out)@) + bucket_func_occs(
            s@.functions,
            name@,
            s@.layer_id,
        ),
{
    let ghost base = crate::models::responses::get_function_views(out@);
    let ghost bv = s@.functions;
    let ghost lid = s@.layer_id;
    let mut b: usize = 0;
    proof {
        assert(crate::models::responses::get_function_views(out@) =~= base + bucket_func_occs(
            bv.subrange(0, 0),
            name@,
            lid,
        ));
    }
    while b < s.functions.len()
        invariant
            b <= s.functions@.len(),
            bv == bucket_views(s.functions@),
            bv.len() == s.functions@.len(),
            0 <= lid <= u32::MAX,
            lid == s@.layer_id,
            crate::models::responses::get_function_views(out@) =~= base + bucket_func_occs(
                bv.subrange(0, b as int),
                name@,
                lid,
            ),
        decreases s.functions@.len() - b,
    {
        proof {
            assert(bv.subrange(0, b + 1).drop_last() =~= bv.subrange(0, b as int));
            assert(bv.subrange(0, b + 1).last() == bv[b as int]);
            assert(bv[b as int] == (s.functions@[b as int].0@, crate::tl::tl_function::func_views(
                s.functions@[b as int].1@,
            )));
        }
        let bucket: &(String, Vec<TlFunction>) = &s.functions[b];
        let ghost fsv = bv[b as int].1;
        let mut f: usize = 0;
        proof {
            assert(fsv.subrange(0, 0).filter(func_named_pred(name@)) =~= Seq::<FuncV>::empty())
                by {
                reveal_with_fuel(Seq::filter, 2);
            }
            assert(crate::models::responses::get_function_views(out@) =~= base + bucket_func_occs(
                bv.subrange(0, b as int),
                name@,
                lid,
            ) + fsv.subrange(0, 0).filter(func_named_pred(name@)).map_values(occ_fn(lid)));
        }
        while f < bucket.1.len()
            invariant
                f <= bucket.1@.len(),
                fsv == crate::tl::tl_function::func_views(bucket.1@),
                fsv.len() == bucket.1@.len(),
                0 <= lid <= u32::MAX,
                lid == s@.layer_id,
                crate::models::responses::get_function_views(out@) =~= base + bucket_func_occs(
                    bv.subrange(0, b as int),
                    name@,
                    lid,
                ) + fsv.subrange(0, f as int).filter(func_named_pred(name@)).map_values(
                    occ_fn(lid),
                ),
            decreases bucket.1@.len() - f,
        {
            proof {
                fsv.subrange(0, f as int).lemma_filter_push(fsv[f as int], func_named_pred(name@));
                assert(fsv.subrange(0, f + 1) =~= fsv.subrange(0, f as int).push(fsv[f as int]));
                assert(fsv[f as int] == bucket.1@[f as int]@);
            }
            let func: &TlFunction = &bucket.1[f];
            let hit = str_eq(func.name.as_str(), name);
            if hit {
                let ghost prev = out@;
                out.push(
                    crate::models::responses::GetFunction {
                        function: func.clone(),
                        layer_id: s.layer_id as u32,
                    },
                );
                proof {
                    assert(out@ =~= prev.push(out@[prev.len() as int]));
                    assert(out@[prev.len() as int]@ == occ_fn(lid)(fsv[f as int]));
                    assert forall|t: int| 0 <= t < out@.len() implies
                        crate::models::responses::get_function_views(out@)[t]
                        == crate::models::responses::get_function_views(prev).push(
                        occ_fn(lid)(fsv[f as int]),
                    )[t] by {
                        assert(crate::models::responses::get_function_views(out@)[t] == out@[t]@);
                        if t < prev.len() {
                            assert(out@[t] == prev[t]);
                            assert(crate::models::responses::get_function_views(prev)[t]
                                == prev[t]@);
                        }
                    }
                    assert(crate::models::responses::get_function_views(out@)
                        =~= crate::models::responses::get_function_views(prev).push(
                        occ_fn(lid)(fsv[f as int]),
                    ));
                    crate::text::lemma_map_push(
                        fsv.subrange(0, f as int).filter(func_named_pred(name@)),
                        occ_fn(lid),
                        fsv[f as int],
                    );
                }
            }
            proof {
                assert(crate::models::responses::get_function_views(out@) =~= base
                    + bucket_func_occs(bv.subrange(0, b as int), name@, lid) + fsv.subrange(
                    0,
                    f + 1,
                ).filter(func_named_pred(name@)).map_values(occ_fn(lid)));
            }
            f = f + 1;
        }
        proof {
            assert(fsv.subrange(0, fsv.len() as int) =~= fsv);
            assert(crate::models::responses::get_function_views(out@) =~= base + bucket_func_occs(
                bv.subrange(0, b + 1),
                name@,
                lid,
            ));
        }
        b = b + 1;
    }
    proof {
        assert(bv.subrange(0, bv.len() as int) =~= bv);
    }
}

/// Appends every occurrence of the named object within one layer, with its
/// type-group category.
fn append_obj_matches(s: &TlSchema, name: &str, out: &mut Vec<(String, TlConstructor, u32)>)
    requires
        0 <= s@.layer_id <= u32::MAX,
    ensures
        occ3_views(final(out)@) == occ3_views(old(out)@) + group_obj_occs(
            s@.objects,
            name@,
            s@.layer_id,
        ),
{
    let ghost base = occ3_views(out@);
    let ghost gv = s@.objects;
    let ghost lid = s@.layer_id;
    let mut g: usize = 0;
    proof {
        assert(occ3_views(out@) =~= base + group_obj_occs(gv.subrange(0, 0), name@, lid));
    }
    while g < s.objects.len()
        invariant
            g <= s.objects@.len(),
            gv == crate::tl::tl_type::group_views(s.objects@),
            gv.len() == s.objects@.len(),
            0 <= lid <= u32::MAX,
            lid == s@.layer_id,
            occ3_views(out@) =~= base + group_obj_occs(gv.subrange(0, g as int), name@, lid),
        decreases s.objects@.len() - g,
    {
        proof {
            assert(gv.subrange(0, g + 1).drop_last() =~= gv.subrange(0, g as int));
            assert(gv.subrange(0, g + 1).last() == gv[g as int]);
            assert(gv[g as int] == s.objects@[g as int]@);
        }
        let group: &crate::tl::tl_type::TlType = &s.objects[g];
        let ghost cvv = gv[g as int].constructors;
        let mut c: usize = 0;
        proof {
            assert(cvv.subrange(0, 0).filter(ctor_named_pred(name@)) =~= Seq::<CtorV>::empty())
                by {
                reveal_with_fuel(Seq::filter, 2);
            }
            assert(occ3_views(out@) =~= base + group_obj_occs(gv.subrange(0, g as int), name@, lid)
                + cvv.subrange(0, 0).filter(ctor_named_pred(name@)).map_values(
                occ_of_ctor_fn(gv[g as int].name, lid),
            ));
        }
        while c < group.constructors.len()
            invariant
                c <= group.constructors@.len(),
                cvv == ctor_views(group.constructors@),
                cvv.len() == group.constructors@.len(),
                g < gv.len(),
                gv[g as int].name == group.name@,
                0 <= lid <= u32::MAX,
                lid == s@.layer_id,
                occ3_views(out@) =~= base + group_obj_occs(gv.subrange(0, g as int), name@, lid)
                    + cvv.subrange(0, c as int).filter(ctor_named_pred(name@)).map_values(
                    occ_of_ctor_fn(gv[g as int].name, lid),
                ),
            decreases group.constructors@.len() - c,
        {
            proof {
                cvv.subrange(0, c as int).lemma_filter_push(cvv[c as int], ctor_named_pred(name@));
                assert(cvv.subrange(0, c + 1) =~= cvv.subrange(0, c as int).push(cvv[c as int]));
                assert(cvv[c as int] == group.constructors@[c as int]@);
            }
            let ctor: &TlConstructor = &group.constructors[c];
            let hit = str_eq(ctor.name.as_str(), name);
            if hit {
                let ghost prev = out@;
                out.push((group.name.clone(), ctor.clone(), s.layer_id as u32));
                proof {
                    assert(out@ =~= prev.push(out@[prev.len() as int]));
                    assert(occ3_views(out@)[prev.len() as int] == occ_of_ctor_fn(
                        gv[g as int].name,
                        lid,
                    )(cvv[c as int]));
                    assert forall|u: int| 0 <= u < out@.len() implies occ3_views(out@)[u]
                        == occ3_views(prev).push(
                        occ_of_ctor_fn(gv[g as int].name, lid)(cvv[c as int]),
                    )[u] by {
                        assert(occ3_views(out@)[u] == (ObjOccV {
                            category: out@[u].0@,
                            obj: out@[u].1@,
                            layer_id: out@[u].2 as int,
                        }));
                        if u < prev.len() {
                            assert(out@[u] == prev[u]);
                            assert(occ3_views(prev)[u] == (ObjOccV {
                                category: prev[u].0@,
                                obj: prev[u].1@,
                                layer_id: prev[u].2 as int,
                            }));
                        }
                    }
                    assert(occ3_views(out@) =~= occ3_views(prev).push(
                        occ_of_ctor_fn(gv[g as int].name, lid)(cvv[c as int]),
                    ));
                    crate::text::lemma_map_push(
                        cvv.subrange(0, c as int).filter(ctor_named_pred(name@)),
                        occ_of_ctor_fn(gv[g as int].name, lid),
                        cvv[c as int],
                    );
                }
            }
            proof {
                assert(occ3_views(out@) =~= base + group_obj_occs(
                    gv.subrange(0, g as int),
                    name@,
                    lid,
                ) + cvv.subrange(0, c + 1).filter(ctor_named_pred(name@)).map_values(
                    occ_of_ctor_fn(gv[g as int].name, lid),
                ));
            }
            c = c + 1;
        }
        proof {
            assert(cvv.subrange(0, cvv.len() as int) =~= cvv);
            assert(occ3_views(out@) =~= base + group_obj_occs(
                gv.subrange(0, g + 1),
                name@,
                lid,
            ));
        }
        g = g + 1;
    }
    proof {
        assert(gv.subrange(0, gv.len() as int) =~= gv);
    }
}

/// Records one via-namespace usage edge.
fn push_usage_via(out: &mut Vec<crate::models::responses::ObjectUsage>, f: &TlFunction, is_inner: bool)
    ensures
        crate::models::responses::usage_views(final(out)@) == crate::models::responses::usage_views(
            old(out)@,
        ).push(
            crate::models::responses::UsageV::ViaNamespace { tl_function: f@, is_inner },
        ),
{
    let ghost prev = out@;
    out.push(crate::models::responses::ObjectUsage::ViaNamespace { tl_function: f.clone(), is_inner });
    proof {
        assert(out@ =~= prev.push(out@[prev.len() as int]));
        assert(out@[prev.len() as int]@ == (crate::models::responses::UsageV::ViaNamespace {
            tl_function: f@,
            is_inner,
        }));
        assert forall|u: int| 0 <= u < out@.len() implies crate::models::responses::usage_views(
            out@,
        )[u] == crate::models::responses::usage_views(prev).push(
            crate::models::responses::UsageV::ViaNamespace { tl_function: f@, is_inner },
        )[u] by {
            assert(crate::models::responses::usage_views(out@)[u] == out@[u]@);
            if u < prev.len() {
                assert(out@[u] == prev[u]);
                assert(crate::models::responses::usage_views(prev)[u] == prev[u]@);
            }
        }
        assert(crate::models::responses::usage_views(out@)
            =~= crate::models::responses::usage_views(prev).push(
            crate::models::responses::UsageV::ViaNamespace { tl_function: f@, is_inner },
        ));
    }
}

/// Records one return-type usage edge.
fn push_usage_ret(out: &mut Vec<crate::models::responses::ObjectUsage>, f: &TlFunction, is_inner: bool)
    ensures
        crate::models::responses::usage_views(final(out)@) == crate::models::responses::usage_views(
            old(out)@,
        ).push(
            crate::models::responses::UsageV::ReturnType { tl_function: f@, is_inner },
        ),
{
    let ghost prev = out@;
    out.push(crate::models::responses::ObjectUsage::ReturnType { tl_function: f.clone(), is_inner });
    proof {
        assert(out@ =~= prev.push(out@[prev.len() as int]));
        assert(out@[prev.len() as int]@ == (crate::models::responses::UsageV::ReturnType {
            tl_function: f@,
            is_inner,
        }));
        assert forall|u: int| 0 <= u < out@.len() implies crate::models::responses::usage_views(
            out@,
        )[u] == crate::models::responses::usage_views(prev).push(
            crate::models::responses::UsageV::ReturnType { tl_function: f@, is_inner },
        )[u] by {
            assert(crate::models::responses::usage_views(out@)[u] == out@[u]@);
            if u < prev.len() {
                assert(out@[u] == prev[u]);
                assert(crate::models::responses::usage_views(prev)[u] == prev[u]@);
            }
        }
        assert(crate::models::responses::usage_views(out@)
            =~= crate::models::responses::usage_views(prev).push(
            crate::models::responses::UsageV::ReturnType { tl_function: f@, is_inner },
        ));
    }
}

/// Records one parameter usage edge.
fn push_usage_param(out: &mut Vec<crate::models::responses::ObjectUsage>, f: &TlFunction, is_inner: bool)
    ensures
        crate::models::responses::usage_views(final(out)@) == crate::models::responses::usage_views(
            old(out)@,
        ).push(
            crate::models::responses::UsageV::Param { tl_function: f@, is_inner },
        ),
{
    let ghost prev = out@;
    out.push(crate::models::responses::ObjectUsage::Param { tl_function: f.clone(), is_inner });
    proof {
        assert(out@ =~= prev.push(out@[prev.len() as int]));
        assert(out@[prev.len() as int]@ == (crate::models::responses::UsageV::Param {
            tl_function: f@,
            is_inner,
        }));
        assert forall|u: int| 0 <= u < out@.len() implies crate::models::responses::usage_views(
            out@,
        )[u] == crate::models::responses::usage_views(prev).push(
            crate::models::responses::UsageV::Param { tl_function: f@, is_inner },
        )[u] by {
            assert(crate::models::responses::usage_views(out@)[u] == out@[u]@);
            if u < prev.len() {
                assert(out@[u] == prev[u]);
                assert(crate::models::responses::usage_views(prev)[u] == prev[u]@);
            }
        }
        assert(crate::models::responses::usage_views(out@)
            =~= crate::models::responses::usage_views(prev).push(
            crate::models::responses::UsageV::Param { tl_function: f@, is_inner },
        ));
    }
}

/// Finds the first parameter of one name.
fn find_param(ps: &Vec<crate::tl::tl_parameter::TlParameter>, name: &str) -> (r: Option<usize>)
    ensures
        ({
            let pv = crate::tl::tl_parameter::param_views(ps@);
            match r {
                Some(j) => j < pv.len() && find_where(pv, param_named_pred(name@)) == Some(
                    j as int,
                ),
                None => find_where(pv, param_named_pred(name@)) is None,
            }
        }),
{
    let ghost pv = crate::tl::tl_parameter::param_views(ps@);
    let mut j: usize = 0;
    while j < ps.len()
        invariant
            j <= ps@.len(),
            pv == crate::tl::tl_parameter::param_views(ps@),
            pv.len() == ps@.len(),
            forall|k: int| 0 <= k < j ==> !param_named_pred(name@)(pv[k]),
        decreases ps@.len() - j,
    {
        let hit = str_eq(ps[j].name.as_str(), name);
        proof {
            assert(pv[j as int] == ps@[j as int]@);
        }
        if hit {
            proof {
                lemma_find_where_at(pv, param_named_pred(name@), j as int);
            }
            return Some(j);
        }
        j = j + 1;
    }
    proof {
        lemma_find_where_at(pv, param_named_pred(name@), pv.len() as int);
    }
    None
}

/// Whether any parameter carries the given name.
fn has_param_exec(ps: &Vec<crate::tl::tl_parameter::TlParameter>, name: &str) -> (r: bool)
    ensures
        r == has_param(crate::tl::tl_parameter::param_views(ps@), name@),
{
    let ghost pv = crate::tl::tl_parameter::param_views(ps@);
    match find_param(ps, name) {
        Some(j) => {
            proof {
                crate::text::lemma_find_where_props(pv, param_named_pred(name@));
                assert(pv[j as int].name == name@);
            }
            true
        },
        None => {
            proof {
                crate::text::lemma_find_where_props(pv, param_named_pred(name@));
                assert(!has_param(pv, name@));
            }
            false
        },
    }
}

/// Records one function-history event.
fn push_fn_event(history: &mut Vec<crate::models::responses::FunctionHistory>, e: crate::models::responses::FunctionHistory)
    ensures
        crate::models::responses::fn_event_views(final(history)@)
            == crate::models::responses::fn_event_views(old(history)@).push(e@),
{
    let ghost prev = history@;
    let ghost ev = e@;
    history.push(e);
    proof {
        assert(history@ =~= prev.push(history@[prev.len() as int]));
        assert(history@[prev.len() as int]@ == ev);
        assert forall|u: int| 0 <= u < history@.len() implies
            crate::models::responses::fn_event_views(history@)[u]
            == crate::models::responses::fn_event_views(prev).push(ev)[u] by {
            assert(crate::models::responses::fn_event_views(history@)[u] == history@[u]@);
            if u < prev.len() {
                assert(history@[u] == prev[u]);
                assert(crate::models::responses::fn_event_views(prev)[u] == prev[u]@);
            }
        }
        assert(crate::models::responses::fn_event_views(history@)
            =~= crate::models::responses::fn_event_views(prev).push(ev));
    }
}

/// Records one object-history event.
fn push_obj_event(history: &mut Vec<crate::models::responses::ObjectHistory>, e: crate::models::responses::ObjectHistory)
    ensures
        crate::models::responses::obj_event_views(final(history)@)
            == crate::models::responses::obj_event_views(old(history)@).push(e@),
{
    let ghost prev = history@;
    let ghost ev = e@;
    history.push(e);
    proof {
        assert(history@ =~= prev.push(history@[prev.len() as int]));
        assert(history@[prev.len() as int]@ == ev);
        assert forall|u: int| 0 <= u < history@.len() implies
            crate::models::responses::obj_event_views(history@)[u]
            == crate::models::responses::obj_event_views(prev).push(ev)[u] by {
            assert(crate::models::responses::obj_event_views(history@)[u] == history@[u]@);
            if u < prev.len() {
                assert(history@[u] == prev[u]);
                assert(crate::models::responses::obj_event_views(prev)[u] == prev[u]@);
            }
        }
        assert(crate::models::responses::obj_event_views(history@)
            =~= crate::models::responses::obj_event_views(prev).push(ev));
    }
}

/// Emits every event of one adjacent pair of function occurrences.
fn push_fn_pair(
    history: &mut Vec<crate::models::responses::FunctionHistory>,
    newer: &crate::models::responses::GetFunction,
    older: &crate::models::responses::GetFunction,
)
    ensures
        crate::models::responses::fn_event_views(final(history)@)
            == crate::models::responses::fn_event_views(old(history)@) + fn_pair_events(
            newer@,
            older@,
        ),
{
    let ghost base = crate::models::responses::fn_event_views(history@);
    let ghost rtc: Seq<crate::models::responses::FnEventV> = if newer@.function.return_type
        != older@.function.return_type {
        seq![
            crate::models::responses::FnEventV::ReturnTypeChanged {
                layer_id: newer@.layer_id,
                before: older@.function.return_type,
                after: newer@.function.return_type,
            },
        ]
    } else {
        seq![]
    };
    if !(newer.function.return_type == older.function.return_type) {
        push_fn_event(
            history,
            crate::models::responses::FunctionHistory::ReturnTypeChanged {
                layer_id: newer.layer_id,
                before: older.function.return_type.clone(),
                after: newer.function.return_type.clone(),
            },
        );
    }
    proof {
        assert(crate::models::responses::fn_event_views(history@) =~= base + rtc);
    }
    let ghost opv = older@.function.parameters;
    let mut k: usize = 0;
    proof {
        assert(crate::models::responses::fn_event_views(history@) =~= base + rtc + fn_deleted_of(
            newer@,
            opv.subrange(0, 0),
        ));
    }
    while k < older.function.parameters.len()
        invariant
            k <= older.function.parameters@.len(),
            opv == crate::tl::tl_parameter::param_views(older.function.parameters@),
            opv == older@.function.parameters,
            opv.len() == older.function.parameters@.len(),
            crate::models::responses::fn_event_views(history@) =~= base + rtc + fn_deleted_of(
                newer@,
                opv.subrange(0, k as int),
            ),
        decreases older.function.parameters@.len() - k,
    {
        proof {
            assert(opv.subrange(0, k + 1).drop_last() =~= opv.subrange(0, k as int));
            assert(opv.subrange(0, k + 1).last() == opv[k as int]);
            assert(opv[k as int] == older.function.parameters@[k as int]@);
        }
        let pb: &crate::tl::tl_parameter::TlParameter = &older.function.parameters[k];
        let present = has_param_exec(&newer.function.parameters, pb.name.as_str());
        if !present {
            push_fn_event(
                history,
                crate::models::responses::FunctionHistory::ParamDeleted {
                    layer_id: newer.layer_id,
                    name: pb.name.clone(),
                },
            );
        }
        proof {
            assert(crate::models::responses::fn_event_views(history@) =~= base + rtc
                + fn_deleted_of(newer@, opv.subrange(0, k + 1)));
        }
        k = k + 1;
    }
    proof {
        assert(opv.subrange(0, opv.len() as int) =~= opv);
    }
    let ghost base2 = base + rtc + fn_deleted_of(newer@, opv);
    let ghost npv = newer@.function.parameters;
    let mut k2: usize = 0;
    proof {
        assert(crate::models::responses::fn_event_views(history@) =~= base2 + fn_changed_added_of(
            newer@,
            older@,
            npv.subrange(0, 0),
        ));
    }
    while k2 < newer.function.parameters.len()
        invariant
            k2 <= newer.function.parameters@.len(),
            npv == crate::tl::tl_parameter::param_views(newer.function.parameters@),
            npv == newer@.function.parameters,
            npv.len() == newer.function.parameters@.len(),
            opv == crate::tl::tl_parameter::param_views(older.function.parameters@),
            opv == older@.function.parameters,
            crate::models::responses::fn_event_views(history@) =~= base2 + fn_changed_added_of(
                newer@,
                older@,
                npv.subrange(0, k2 as int),
            ),
        decreases newer.function.parameters@.len() - k2,
    {
        proof {
            assert(npv.subrange(0, k2 + 1).drop_last() =~= npv.subrange(0, k2 as int));
            assert(npv.subrange(0, k2 + 1).last() == npv[k2 as int]);
            assert(npv[k2 as int] == newer.function.parameters@[k2 as int]@);
        }
        let pa: &crate::tl::tl_parameter::TlParameter = &newer.function.parameters[k2];
        match find_param(&older.function.parameters, pa.name.as_str()) {
            Some(jj) => {
                proof {
                    assert(opv[jj as int] == older.function.parameters@[jj as int]@);
                }
                match crate::tl::tl_parameter::TlParameter::diff(
                    pa,
                    &older.function.parameters[jj],
                ) {
                    Some(ds) => {
                        push_fn_event(
                            history,
                            crate::models::responses::FunctionHistory::ParamChanged {
                                layer_id: newer.layer_id,
                                diff: ds,
                                name: pa.name.clone(),
                            },
                        );
                    },
                    None => {},
                }
            },
            None => {
                push_fn_event(
                    history,
                    crate::models::responses::FunctionHistory::ParamAdded {
                        layer_id: newer.layer_id,
                        name: pa.name.clone(),
                        param_type: pa._type.clone(),
                    },
                );
            },
        }
        proof {
            assert(crate::models::responses::fn_event_views(history@) =~= base2
                + fn_changed_added_of(newer@, older@, npv.subrange(0, k2 + 1)));
        }
        k2 = k2 + 1;
    }
    proof {
        assert(npv.subrange(0, npv.len() as int) =~= npv);
        assert(crate::models::responses::fn_event_views(history@) =~= base + fn_pair_events(
            newer@,
            older@,
        ));
    }
}

/// Emits every event of one adjacent pair of object occurrences.
fn push_obj_pair(
    history: &mut Vec<crate::models::responses::ObjectHistory>,
    newer: &crate::models::responses::GetObject,
    older: &crate::models::responses::GetObject,
)
    ensures
        crate::models::responses::obj_event_views(final(history)@)
            == crate::models::responses::obj_event_views(old(history)@) + obj_pair_events(
            newer@,
            older@,
        ),
{
    let ghost base = crate::models::responses::obj_event_views(history@);
    let ghost opv = older@.obj.parameters;
    let mut k: usize = 0;
    proof {
        assert(crate::models::responses::obj_event_views(history@) =~= base + obj_deleted_of(
            newer@,
            opv.subrange(0, 0),
        ));
    }
    while k < older.obj.parameters.len()
        invariant
            k <= older.obj.parameters@.len(),
            opv == crate::tl::tl_parameter::param_views(older.obj.parameters@),
            opv == older@.obj.parameters,
            opv.len() == older.obj.parameters@.len(),
            crate::models::responses::obj_event_views(history@) =~= base + obj_deleted_of(
                newer@,
                opv.subrange(0, k as int),
            ),
        decreases older.obj.parameters@.len() - k,
    {
        proof {
            assert(opv.subrange(0, k + 1).drop_last() =~= opv.subrange(0, k as int));
            assert(opv.subrange(0, k + 1).last() == opv[k as int]);
            assert(opv[k as int] == older.obj.parameters@[k as int]@);
        }
        let pb: &crate::tl::tl_parameter::TlParameter = &older.obj.parameters[k];
        let present = has_param_exec(&newer.obj.parameters, pb.name.as_str());
        if !present {
            push_obj_event(
                history,
                crate::models::responses::ObjectHistory::ParamDeleted {
                    layer_id: newer.layer_id,
                    name: pb.name.clone(),
                },
            );
        }
        proof {
            assert(crate::models::responses::obj_event_views(history@) =~= base + obj_deleted_of(
                newer@,
                opv.subrange(0, k + 1),
            ));
        }
        k = k + 1;
    }
    proof {
        assert(opv.subrange(0, opv.len() as int) =~= opv);
    }
    let ghost base2 = base + obj_deleted_of(newer@, opv);
    let ghost npv = newer@.obj.parameters;
    let mut k2: usize = 0;
    proof {
        assert(crate::models::responses::obj_event_views(history@) =~= base2
            + obj_changed_added_of(newer@, older@, npv.subrange(0, 0)));
    }
    while k2 < newer.obj.parameters.len()
        invariant
            k2 <= newer.obj.parameters@.len(),
            npv == crate::tl::tl_parameter::param_views(newer.obj.parameters@),
            npv == newer@.obj.parameters,
            npv.len() == newer.obj.parameters@.len(),
            opv == crate::tl::tl_parameter::param_views(older.obj.parameters@),
            opv == older@.obj.parameters,
            crate::models::responses::obj_event_views(history@) =~= base2 + obj_changed_added_of(
                newer@,
                older@,
                npv.subrange(0, k2 as int),
            ),
        decreases newer.obj.parameters@.len() - k2,
    {
        proof {
            assert(npv.subrange(0, k2 + 1).drop_last() =~= npv.subrange(0, k2 as int));
            assert(npv.subrange(0, k2 + 1).last() == npv[k2 as int]);
            assert(npv[k2 as int] == newer.obj.parameters@[k2 as int]@);
        }
        let pa: &crate::tl::tl_parameter::TlParameter = &newer.obj.parameters[k2];
        match find_param(&older.obj.parameters, pa.name.as_str()) {
            Some(jj) => {
                proof {
                    assert(opv[jj as int] == older.obj.parameters@[jj as int]@);
                }
                match crate::tl::tl_parameter::TlParameter::diff(pa, &older.obj.parameters[jj]) {
                    Some(ds) => {
                        push_obj_event(
                            history,
                            crate::models::responses::ObjectHistory::ParamChanged {
                                layer_id: newer.layer_id,
                                diff: ds,
                                name: pa.name.clone(),
                            },
                        );
                    },
                    None => {},
                }
            },
            None => {
                push_obj_event(
                    history,
                    crate::models::responses::ObjectHistory::ParamAdded {
                        layer_id: newer.layer_id,
                        name: pa.name.clone(),
                        param_type: pa._type.clone(),
                    },
                );
            },
        }
        proof {
            assert(crate::models::responses::obj_event_views(history@) =~= base2
                + obj_changed_added_of(newer@, older@, npv.subrange(0, k2 + 1)));
        }
        k2 = k2 + 1;
    }
    proof {
        assert(npv.subrange(0, npv.len() as int) =~= npv);
        assert(crate::models::responses::obj_event_views(history@) =~= base + obj_pair_events(
            newer@,
            older@,
        ));
    }
}

/// Whether a listing holds the given text.
fn vec_contains_str(v: &Vec<String>, x: &str) -> (r: bool)
    ensures
        r == views_of(v@).contains(x@),
{
    let mut j: usize = 0;
    while j < v.len()
        invariant
            j <= v@.len(),
            forall|k: int| 0 <= k < j ==> views_of(v@)[k] != x@,
        decreases v@.len() - j,
    {
        let hit = str_eq(v[j].as_str(), x);
        proof {
            assert(views_of(v@)[j as int] == v@[j as int]@);
        }
        if hit {
            proof {
                assert(views_of(v@)[j as int] == x@);
            }
            return true;
        }
        j = j + 1;
    }
    proof {
        assert(!views_of(v@).contains(x@));
    }
    false
}

/// The predicate selecting constructors of one name.
pub open spec fn ctor_named_pred(name: Seq<char>) -> spec_fn(CtorV) -> bool {
    |c: CtorV| c.name == name
}

/// One occurrence of a named object: its type-group category, the
/// constructor, and the layer it appeared in.
pub struct ObjOccV {
    pub category: Seq<char>,
    pub obj: CtorV,
    pub layer_id: int,
}

/// The named mapping of a constructor to an occurrence.
pub open spec fn occ_of_ctor_fn(cat: Seq<char>, layer_id: int) -> spec_fn(CtorV) -> ObjOccV {
    |c: CtorV| ObjOccV { category: cat, obj: c, layer_id }
}

/// The named object occurrences of one layer's groups, in group order.
pub open spec fn group_obj_occs(gs: Seq<GroupV>, name: Seq<char>, layer_id: int) -> Seq<ObjOccV>
    decreases gs.len(),
{
    if gs.len() == 0 {
        seq![]
    } else {
        group_obj_occs(gs.drop_last(), name, layer_id) + gs.last().constructors.filter(
            ctor_named_pred(name),
        ).map_values(occ_of_ctor_fn(gs.last().name, layer_id))
    }
}

/// Every occurrence of the named object across the given schemas, in
/// registry order.
pub open spec fn obj_occs(schemas: Seq<SchemaV>, name: Seq<char>) -> Seq<ObjOccV>
    decreases schemas.len(),
{
    if schemas.len() == 0 {
        seq![]
    } else {
        obj_occs(schemas.drop_last(), name) + group_obj_occs(
            schemas.last().objects,
            name,
            schemas.last().layer_id,
        )
    }
}

/// The usage edges a function's return type contributes: a reference to the
/// object's category counts via namespace, a reference to the object's own
/// name counts as a return-type use; `is_inner` marks the generic payload.
pub open spec fn usage_header(f: FuncV, ns: Seq<char>, name: Seq<char>) -> Seq<
    crate::models::responses::UsageV,
> {
    (match f.inner_return_type {
        Some(inner) => if inner == ns {
            seq![crate::models::responses::UsageV::ViaNamespace { tl_function: f, is_inner: true }]
        } else if inner == name {
            seq![crate::models::responses::UsageV::ReturnType { tl_function: f, is_inner: true }]
        } else {
            seq![]
        },
        None => seq![],
    }) + (if f.return_type == ns {
        seq![crate::models::responses::UsageV::ViaNamespace { tl_function: f, is_inner: false }]
    } else if f.return_type == name {
        seq![crate::models::responses::UsageV::ReturnType { tl_function: f, is_inner: false }]
    } else {
        seq![]
    })
}

/// The usage edges one parameter contributes.
pub open spec fn usage_of_param(f: FuncV, p: crate::tl::tl_parameter::ParamV, ns: Seq<char>, name: Seq<char>) -> Seq<
    crate::models::responses::UsageV,
> {
    (match p.inner_type {
        Some(inner) => if inner == ns {
            seq![crate::models::responses::UsageV::ViaNamespace { tl_function: f, is_inner: true }]
        } else if inner == name {
            seq![crate::models::responses::UsageV::Param { tl_function: f, is_inner: true }]
        } else {
            seq![]
        },
        None => seq![],
    }) + (if p._type == ns {
        seq![crate::models::responses::UsageV::ViaNamespace { tl_function: f, is_inner: false }]
    } else if p._type == name {
        seq![crate::models::responses::UsageV::Param { tl_function: f, is_inner: false }]
    } else {
        seq![]
    })
}

pub open spec fn usages_of_params(
    f: FuncV,
    ps: Seq<crate::tl::tl_parameter::ParamV>,
    ns: Seq<char>,
    name: Seq<char>,
) -> Seq<crate::models::responses::UsageV>
    decreases ps.len(),
{
    if ps.len() == 0 {
        seq![]
    } else {
        usages_of_params(f, ps.drop_last(), ns, name) + usage_of_param(f, ps.last(), ns, name)
    }
}

/// All usage edges one function contributes: its return type first, then
/// its parameters in order.
pub open spec fn usages_of_func(f: FuncV, ns: Seq<char>, name: Seq<char>) -> Seq<
    crate::models::responses::UsageV,
> {
    usage_header(f, ns, name) + usages_of_params(f, f.parameters, ns, name)
}

pub open spec fn usages_of_funcs(fs: Seq<FuncV>, ns: Seq<char>, name: Seq<char>) -> Seq<
    crate::models::responses::UsageV,
>
    decreases fs.len(),
{
    if fs.len() == 0 {
        seq![]
    } else {
        usages_of_funcs(fs.drop_last(), ns, name) + usages_of_func(fs.last(), ns, name)
    }
}

pub open spec fn usages_of_buckets(
    bs: Seq<(Seq<char>, Seq<FuncV>)>,
    ns: Seq<char>,
    name: Seq<char>,
) -> Seq<crate::models::responses::UsageV>
    decreases bs.len(),
{
    if bs.len() == 0 {
        seq![]
    } else {
        usages_of_buckets(bs.drop_last(), ns, name) + usages_of_funcs(bs.last().1, ns, name)
    }
}

/// The usage edges of one occurrence: every function of the occurrence's
/// own layer is scanned; an occurrence of an unknown layer has none.
pub open spec fn usages_for(schemas: Seq<SchemaV>, o: ObjOccV, name: Seq<char>) -> Seq<
    crate::models::responses::UsageV,
> {
    match find_schema(schemas, o.layer_id) {
        None => seq![],
        Some(i) => usages_of_buckets(schemas[i].functions, o.category, name),
    }
}

/// The named mapping of an occurrence to its full result.
pub open spec fn obj_result_fn(schemas: Seq<SchemaV>, name: Seq<char>) -> spec_fn(ObjOccV) -> crate::models::responses::GetObjectV {
    |o: ObjOccV| crate::models::responses::GetObjectV {
        obj: o.obj,
        usages: usages_for(schemas, o, name),
        layer_id: o.layer_id,
    }
}

/// The views of a sequence of collected occurrences.
pub open spec fn occ3_views(s: Seq<(String, TlConstructor, u32)>) -> Seq<ObjOccV> {
    s.map_values(|x: (String, TlConstructor, u32)| ObjOccV { category: x.0@, obj: x.1@, layer_id: x.2 as int })
}

/// The occurrences of a named function across the first `j` schemas, newest
/// layer first; within one layer, definition order is kept.
pub open spec fn func_occs_desc_from(schemas: Seq<SchemaV>, name: Seq<char>, j: int) -> Seq<
    crate::models::responses::GetFunctionV,
>
    decreases j,
{
    if j <= 0 {
        seq![]
    } else {
        bucket_func_occs(schemas[j - 1].functions, name, schemas[j - 1].layer_id)
            + func_occs_desc_from(schemas, name, j - 1)
    }
}

/// Every occurrence of a named function, newest layer first.
pub open spec fn func_occs_desc(schemas: Seq<SchemaV>, name: Seq<char>) -> Seq<
    crate::models::responses::GetFunctionV,
> {
    func_occs_desc_from(schemas, name, schemas.len() as int)
}

/// The occurrences of a named object across the first `j` schemas, newest
/// layer first.
pub open spec fn obj_occs_desc_from(schemas: Seq<SchemaV>, name: Seq<char>, j: int) -> Seq<ObjOccV>
    decreases j,
{
    if j <= 0 {
        seq![]
    } else {
        group_obj_occs(schemas[j - 1].objects, name, schemas[j - 1].layer_id) + obj_occs_desc_from(
            schemas,
            name,
            j - 1,
        )
    }
}

/// Every occurrence of a named object, newest layer first, each annotated
/// with its usage edges.
pub open spec fn obj_occs_desc(schemas: Seq<SchemaV>, name: Seq<char>) -> Seq<
    crate::models::responses::GetObjectV,
> {
    obj_occs_desc_from(schemas, name, schemas.len() as int).map_values(
        obj_result_fn(schemas, name),
    )
}

/// Whether a parameter of the given name exists.
pub open spec fn has_param(ps: Seq<crate::tl::tl_parameter::ParamV>, name: Seq<char>) -> bool {
    exists|i: int| 0 <= i < ps.len() && ps[i].name == name
}

/// The predicate selecting parameters of one name.
pub open spec fn param_named_pred(name: Seq<char>) -> spec_fn(crate::tl::tl_parameter::ParamV) -> bool {
    |p: crate::tl::tl_parameter::ParamV| p.name == name
}

/// The deletion events of one adjacent pair: one per parameter of the older
/// occurrence whose name is absent from the newer one, attributed to the
/// newer occurrence's layer.
pub open spec fn fn_deleted_of(
    newer: crate::models::responses::GetFunctionV,
    ps: Seq<crate::tl::tl_parameter::ParamV>,
) -> Seq<crate::models::responses::FnEventV>
    decreases ps.len(),
{
    if ps.len() == 0 {
        seq![]
    } else {
        fn_deleted_of(newer, ps.drop_last()) + (if !has_param(
            newer.function.parameters,
            ps.last().name,
        ) {
            seq![
                crate::models::responses::FnEventV::ParamDeleted {
                    layer_id: newer.layer_id,
                    name: ps.last().name,
                },
            ]
        } else {
            seq![]
        })
    }
}

/// The change and addition events of one adjacent pair: per parameter of
/// the newer occurrence, a field diff against the first same-named older
/// parameter, or an addition when no older parameter carries the name.
pub open spec fn fn_changed_added_of(
    newer: crate::models::responses::GetFunctionV,
    older: crate::models::responses::GetFunctionV,
    ps: Seq<crate::tl::tl_parameter::ParamV>,
) -> Seq<crate::models::responses::FnEventV>
    decreases ps.len(),
{
    if ps.len() == 0 {
        seq![]
    } else {
        fn_changed_added_of(newer, older, ps.drop_last()) + (match find_where(
            older.function.parameters,
            param_named_pred(ps.last().name),
        ) {
            Some(j) => if crate::tl::tl_parameter::param_diffs(
                ps.last(),
                older.function.parameters[j],
            ).len() > 0 {
                seq![
                    crate::models::responses::FnEventV::ParamChanged {
                        layer_id: newer.layer_id,
                        diff: crate::tl::tl_parameter::param_diffs(
                            ps.last(),
                            older.function.parameters[j],
                        ),
                        name: ps.last().name,
                    },
                ]
            } else {
                seq![]
            },
            None => seq![
                crate::models::responses::FnEventV::ParamAdded {
                    layer_id: newer.layer_id,
                    name: ps.last().name,
                    param_type: ps.last()._type,
                },
            ],
        })
    }
}

/// All events of one adjacent pair of function occurrences: a return-type
/// change first, then deletions, then changes and additions.
pub open spec fn fn_pair_events(
    newer: crate::models::responses::GetFunctionV,
    older: crate::models::responses::GetFunctionV,
) -> Seq<crate::models::responses::FnEventV> {
    (if newer.function.return_type != older.function.return_type {
        seq![
            crate::models::responses::FnEventV::ReturnTypeChanged {
                layer_id: newer.layer_id,
                before: older.function.return_type,
                after: newer.function.return_type,
            },
        ]
    } else {
        seq![]
    }) + fn_deleted_of(newer, older.function.parameters) + fn_changed_added_of(
        newer,
        older,
        newer.function.parameters,
    )
}

/// The pair events of a descending occurrence list, newest pair first.
pub open spec fn fn_pairs_events(occs: Seq<crate::models::responses::GetFunctionV>) -> Seq<
    crate::models::responses::FnEventV,
>
    decreases occs.len(),
{
    if occs.len() < 2 {
        seq![]
    } else {
        fn_pairs_events(occs.drop_last()) + fn_pair_events(
            occs[occs.len() - 2],
            occs[occs.len() - 1],
        )
    }
}

/// A function's whole reconstructed history: first attested in the oldest
/// occurrence's layer, then the pair events, and a deletion when the newest
/// occurrence is not the registry's latest layer.
pub open spec fn fn_history_events(
    occs: Seq<crate::models::responses::GetFunctionV>,
    latest: int,
) -> Seq<crate::models::responses::FnEventV> {
    seq![crate::models::responses::FnEventV::AddedIn { layer_id: occs.last().layer_id }]
        + fn_pairs_events(occs) + (if occs[0].layer_id != latest {
        seq![crate::models::responses::FnEventV::DeletedIn { layer_id: occs[0].layer_id }]
    } else {
        seq![]
    })
}

/// The deletion events of one adjacent pair of object occurrences.
pub open spec fn obj_deleted_of(
    newer: crate::models::responses::GetObjectV,
    ps: Seq<crate::tl::tl_parameter::ParamV>,
) -> Seq<crate::models::responses::ObjEventV>
    decreases ps.len(),
{
    if ps.len() == 0 {
        seq![]
    } else {
        obj_deleted_of(newer, ps.drop_last()) + (if !has_param(
            newer.obj.parameters,
            ps.last().name,
        ) {
            seq![
                crate::models::responses::ObjEventV::ParamDeleted {
                    layer_id: newer.layer_id,
                    name: ps.last().name,
                },
            ]
        } else {
            seq![]
        })
    }
}

/// The change and addition events of one adjacent pair of object
/// occurrences.
pub open spec fn obj_changed_added_of(
    newer: crate::models::responses::GetObjectV,
    older: crate::models::responses::GetObjectV,
    ps: Seq<crate::tl::tl_parameter::ParamV>,
) -> Seq<crate::models::responses::ObjEventV>
    decreases ps.len(),
{
    if ps.len() == 0 {
        seq![]
    } else {
        obj_changed_added_of(newer, older, ps.drop_last()) + (match find_where(
            older.obj.parameters,
            param_named_pred(ps.last().name),
        ) {
            Some(j) => if crate::tl::tl_parameter::param_diffs(
                ps.last(),
                older.obj.parameters[j],
            ).len() > 0 {
                seq![
                    crate::models::responses::ObjEventV::ParamChanged {
                        layer_id: newer.layer_id,
                        diff: crate::tl::tl_parameter::param_diffs(
                            ps.last(),
                            older.obj.parameters[j],
                        ),
                        name: ps.last().name,
                    },
                ]
            } else {
                seq![]
            },
            None => seq![
                crate::models::responses::ObjEventV::ParamAdded {
                    layer_id: newer.layer_id,
                    name: ps.last().name,
                    param_type: ps.last()._type,
                },
            ],
        })
    }
}

/// All events of one adjacent pair of object occurrences: deletions, then
/// changes and additions.
pub open spec fn obj_pair_events(
    newer: crate::models::responses::GetObjectV,
    older: crate::models::responses::GetObjectV,
) -> Seq<crate::models::responses::ObjEventV> {
    obj_deleted_of(newer, older.obj.parameters) + obj_changed_added_of(
        newer,
        older,
        newer.obj.parameters,
    )
}

/// The pair events of a descending object occurrence list.
pub open spec fn obj_pairs_events(occs: Seq<crate::models::responses::GetObjectV>) -> Seq<
    crate::models::responses::ObjEventV,
>
    decreases occs.len(),
{
    if occs.len() < 2 {
        seq![]
    } else {
        obj_pairs_events(occs.drop_last()) + obj_pair_events(
            occs[occs.len() - 2],
            occs[occs.len() - 1],
        )
    }
}

/// An object's whole reconstructed history.
pub open spec fn obj_history_events(
    occs: Seq<crate::models::responses::GetObjectV>,
    latest: int,
) -> Seq<crate::models::responses::ObjEventV> {
    seq![crate::models::responses::ObjEventV::AddedIn { layer_id: occs.last().layer_id }]
        + obj_pairs_events(occs) + (if occs[0].layer_id != latest {
        seq![crate::models::responses::ObjEventV::DeletedIn { layer_id: occs[0].layer_id }]
    } else {
        seq![]
    })
}

/// The requested cap of a lookup, defaulting to 30.
pub open spec fn limit_of(o: Option<usize>) -> int {
    match o {
        Some(l) => l as int,
        None => 30,
    }
}

/// The views of a sequence of compact type results.
pub open spec fn gtc_views(s: Seq<crate::models::responses::GetTypeCompact>) -> Seq<
    crate::models::responses::GetTypeCompactV,
> {
    s.map_values(|x: crate::models::responses::GetTypeCompact| x@)
}

/// The views of a sequence of id-and-name constructor projections.
pub open spec fn rcc_views(s: Seq<crate::models::compact_schema::RefCompactTlConstructor>) -> Seq<
    crate::models::compact_schema::RefCompactV,
> {
    s.map_values(|x: crate::models::compact_schema::RefCompactTlConstructor| x@)
}

/// The views of a sequence of full type results.
pub open spec fn gtf_views(s: Seq<crate::models::responses::GetTypeFull>) -> Seq<
    crate::models::responses::GetTypeFullV,
> {
    s.map_values(|x: crate::models::responses::GetTypeFull| x@)
}

impl SchemaManager {
    /// The whole flat index, as handed to the external search service at
    /// startup.
    pub fn compact_definitions(&self) -> (r: &Vec<CompactTlDefinition>)
        ensures
            compact_views(r@) == self@.compact_definitions,
    {
        &self.compact_definitions
    }

    /// Picks the schemas a query with an unsigned layer id walks.
    fn filter_schema_by_uid(&self, layer_id: Option<u32>) -> (r: Vec<&TlSchema>)
        requires
            self.wf(),
        ensures
            ref_schema_views(r@) == selected(self@.schemas, opt_uid(layer_id)),
            forall|j: int|
                0 <= j < r@.len() ==> 0 <= (#[trigger] ref_schema_views(r@)[j]).layer_id
                    <= u32::MAX,
    {
        let ghost sv = self@.schemas;
        match layer_id {
            Some(id) => {
                let mut i: usize = 0;
                while i < self.schemas.len()
                    invariant
                        i <= self.schemas@.len(),
                        sv == schema_views(self.schemas@),
                        sv.len() == self.schemas@.len(),
                        layer_id == Some(id),
                        self.wf(),
                        forall|j: int| 0 <= j < i ==> !has_layer_pred(id as int)(sv[j]),
                    decreases self.schemas@.len() - i,
                {
                    let s: &TlSchema = &self.schemas[i];
                    proof {
                        assert(sv[i as int] == self.schemas@[i as int]@);
                        assert(0 <= self@.schemas[i as int].layer_id);
                        assert(0 <= sv[i as int].layer_id);
                    }
                    let hit = s.layer_id >= 0 && s.layer_id as u32 == id;
                    if hit {
                        proof {
                            lemma_find_where_at(sv, has_layer_pred(id as int), i as int);
                        }
                        let mut one: Vec<&TlSchema> = Vec::new();
                        one.push(s);
                        proof {
                            assert(ref_schema_views(one@) =~= seq![sv[i as int]]);
                        }
                        return one;
                    }
                    i = i + 1;
                }
                proof {
                    lemma_find_where_at(sv, has_layer_pred(id as int), sv.len() as int);
                    assert(ref_schema_views(Seq::<&TlSchema>::empty()) =~= Seq::<SchemaV>::empty());
                }
                Vec::new()
            },
            None => {
                let all = self.filter_schema_by_id(None);
                proof {
                    assert forall|j: int| 0 <= j < all@.len() implies 0 <= (
                    #[trigger] ref_schema_views(all@)[j]).layer_id <= u32::MAX by {
                        assert(ref_schema_views(all@)[j] == self@.schemas[j]);
                        assert(self@.schemas[j].layer_id <= i32::MAX);
                    }
                }
                all
            },
        }
    }

    /// Finds the type group of one name within a layer's groups.
    fn find_named_group(groups: &Vec<crate::tl::tl_type::TlType>, name: &str) -> (r: Option<usize>)
        ensures
            ({
                let gv = crate::tl::tl_type::group_views(groups@);
                match r {
                    Some(g) => g < gv.len() && find_where(gv, group_named_pred(name@)) == Some(
                        g as int,
                    ),
                    None => find_where(gv, group_named_pred(name@)) is None,
                }
            }),
    {
        let ghost gv = crate::tl::tl_type::group_views(groups@);
        let mut g: usize = 0;
        while g < groups.len()
            invariant
                g <= groups@.len(),
                gv == crate::tl::tl_type::group_views(groups@),
                gv.len() == groups@.len(),
                forall|k: int| 0 <= k < g ==> !group_named_pred(name@)(gv[k]),
            decreases groups@.len() - g,
        {
            let hit = str_eq(groups[g].name.as_str(), name);
            proof {
                assert(gv[g as int] == groups@[g as int]@);
            }
            if hit {
                proof {
                    lemma_find_where_at(gv, group_named_pred(name@), g as int);
                }
                return Some(g);
            }
            g = g + 1;
        }
        proof {
            lemma_find_where_at(gv, group_named_pred(name@), gv.len() as int);
        }
        None
    }

    /// Looks a named type's constructors up, optionally scoped to one layer,
    /// in the requested projection, capped at the requested limit (30 when
    /// none is given).
    pub fn get_types(&self, req: &crate::models::requests::GetByNameRequest) -> (r:
        crate::models::responses::GetTypeResponse)
        requires
            self.wf(),
        ensures
            ({
                let sel = selected(self@.schemas, opt_uid(req.layer_id));
                let limit = limit_of(req.limit);
                match r {
                    crate::models::responses::GetTypeResponse::CompactMode(v) => req.mode
                        == crate::models::requests::FetchMode::Compact && gtc_views(v@)
                        == types_compact_of(sel, req.name@, limit),
                    crate::models::responses::GetTypeResponse::FullMode(v) => req.mode
                        == crate::models::requests::FetchMode::Full && gtf_views(v@)
                        == take_at_most(types_full_of(sel, req.name@), limit),
                }
            }),
    {
        let limit = match req.limit {
            Some(l) => l,
            None => 30,
        };
        let layers = self.filter_schema_by_uid(req.layer_id);
        let ghost lv = ref_schema_views(layers@);
        match req.mode {
            crate::models::requests::FetchMode::Compact => {
                let mut out: Vec<crate::models::responses::GetTypeCompact> = Vec::new();
                let mut i: usize = 0;
                proof {
                    assert(gtc_views(out@) =~= types_compact_of(
                        lv.subrange(0, 0),
                        req.name@,
                        limit as int,
                    ));
                }
                while i < layers.len()
                    invariant
                        i <= layers@.len(),
                        lv == ref_schema_views(layers@),
                        lv.len() == layers@.len(),
                        gtc_views(out@) =~= types_compact_of(
                            lv.subrange(0, i as int),
                            req.name@,
                            limit as int,
                        ),
                    decreases layers@.len() - i,
                {
                    proof {
                        assert(lv.subrange(0, i + 1).drop_last() =~= lv.subrange(0, i as int));
                        assert(lv.subrange(0, i + 1).last() == lv[i as int]);
                        assert(lv[i as int] == layers@[i as int]@);
                    }
                    let s: &TlSchema = layers[i];
                    match Self::find_named_group(&s.objects, req.name.as_str()) {
                        None => {
                            proof {
                                assert(gtc_views(out@) =~= types_compact_of(
                                    lv.subrange(0, i + 1),
                                    req.name@,
                                    limit as int,
                                ));
                            }
                        },
                        Some(g) => {
                            let group: &crate::tl::tl_type::TlType = &s.objects[g];
                            let ghost cvv = lv[i as int].objects[g as int].constructors;
                            proof {
                                assert(cvv == ctor_views(group.constructors@));
                            }
                            let mut objs: Vec<crate::models::compact_schema::RefCompactTlConstructor> =
                                Vec::new();
                            let mut c: usize = 0;
                            proof {
                                assert(rcc_views(objs@) =~= cvv.subrange(0, 0).map_values(
                                    ref_compact_fn(),
                                ));
                            }
                            while c < group.constructors.len() && c < limit
                                invariant
                                    c <= group.constructors@.len(),
                                    c <= limit,
                                    cvv == ctor_views(group.constructors@),
                                    cvv.len() == group.constructors@.len(),
                                    rcc_views(objs@) =~= cvv.subrange(0, c as int).map_values(
                                        ref_compact_fn(),
                                    ),
                                decreases group.constructors@.len() - c,
                            {
                                let ghost prev = objs@;
                                let ctor: &TlConstructor = &group.constructors[c];
                                proof {
                                    assert(cvv[c as int] == group.constructors@[c as int]@);
                                }
                                objs.push(
                                    crate::models::compact_schema::RefCompactTlConstructor::from_constructor(
                                        ctor,
                                    ),
                                );
                                proof {
                                    assert(objs@ =~= prev.push(objs@[prev.len() as int]));
                                    assert(objs@[prev.len() as int]@ == ref_compact_fn()(
                                        cvv[c as int],
                                    ));
                                    assert forall|t: int| 0 <= t < objs@.len() implies rcc_views(
                                        objs@,
                                    )[t] == rcc_views(prev).push(ref_compact_fn()(cvv[c as int]))[t] by {
                                        assert(rcc_views(objs@)[t] == objs@[t]@);
                                        if t < prev.len() {
                                            assert(objs@[t] == prev[t]);
                                            assert(rcc_views(prev)[t] == prev[t]@);
                                        }
                                    }
                                    assert(rcc_views(objs@) =~= rcc_views(prev).push(
                                        ref_compact_fn()(cvv[c as int]),
                                    ));
                                    crate::text::lemma_map_push(
                                        cvv.subrange(0, c as int),
                                        ref_compact_fn(),
                                        cvv[c as int],
                                    );
                                    assert(cvv.subrange(0, c + 1) =~= cvv.subrange(
                                        0,
                                        c as int,
                                    ).push(cvv[c as int]));
                                    assert(rcc_views(objs@) =~= cvv.subrange(0, c + 1).map_values(
                                        ref_compact_fn(),
                                    ));
                                }
                                c = c + 1;
                            }
                            proof {
                                assert(cvv.subrange(0, c as int) =~= take_at_most(
                                    cvv,
                                    limit as int,
                                ));
                            }
                            let ghost oprev = out@;
                            out.push(
                                crate::models::responses::GetTypeCompact {
                                    objects: objs,
                                    layer_id: s.layer_id,
                                },
                            );
                            proof {
                                assert(out@ =~= oprev.push(out@[oprev.len() as int]));
                                assert forall|t: int| 0 <= t < out@.len() implies gtc_views(out@)[t]
                                    == gtc_views(oprev).push(out@[oprev.len() as int]@)[t] by {
                                    assert(gtc_views(out@)[t] == out@[t]@);
                                    if t < oprev.len() {
                                        assert(out@[t] == oprev[t]);
                                        assert(gtc_views(oprev)[t] == oprev[t]@);
                                    }
                                }
                                assert(gtc_views(out@) =~= gtc_views(oprev).push(
                                    out@[oprev.len() as int]@,
                                ));
                                assert(out@[oprev.len() as int]@
                                    == (crate::models::responses::GetTypeCompactV {
                                    layer_id: lv[i as int].layer_id,
                                    objects: take_at_most(cvv, limit as int).map_values(
                                        ref_compact_fn(),
                                    ),
                                }));
                                assert(gtc_views(out@) =~= types_compact_of(
                                    lv.subrange(0, i + 1),
                                    req.name@,
                                    limit as int,
                                ));
                            }
                        },
                    }
                    i = i + 1;
                }
                proof {
                    assert(lv.subrange(0, lv.len() as int) =~= lv);
                }
                crate::models::responses::GetTypeResponse::CompactMode(out)
            },
            crate::models::requests::FetchMode::Full => {
                let mut out: Vec<crate::models::responses::GetTypeFull> = Vec::new();
                let mut i: usize = 0;
                proof {
                    assert(gtf_views(out@) =~= types_full_of(lv.subrange(0, 0), req.name@));
                }
                while i < layers.len()
                    invariant
                        i <= layers@.len(),
                        lv == ref_schema_views(layers@),
                        lv.len() == layers@.len(),
                        gtf_views(out@) =~= types_full_of(lv.subrange(0, i as int), req.name@),
                    decreases layers@.len() - i,
                {
                    proof {
                        assert(lv.subrange(0, i + 1).drop_last() =~= lv.subrange(0, i as int));
                        assert(lv.subrange(0, i + 1).last() == lv[i as int]);
                        assert(lv[i as int] == layers@[i as int]@);
                    }
                    let s: &TlSchema = layers[i];
                    match Self::find_named_group(&s.objects, req.name.as_str()) {
                        None => {
                            proof {
                                assert(gtf_views(out@) =~= types_full_of(
                                    lv.subrange(0, i + 1),
                                    req.name@,
                                ));
                            }
                        },
                        Some(g) => {
                            let group: &crate::tl::tl_type::TlType = &s.objects[g];
                            let objs = crate::tl::tl_type::clone_ctors(&group.constructors);
                            let ghost oprev = out@;
                            out.push(
                                crate::models::responses::GetTypeFull {
                                    layer_id: s.layer_id,
                                    objects: objs,
                                },
                            );
                            proof {
                                assert(out@ =~= oprev.push(out@[oprev.len() as int]));
                                assert forall|t: int| 0 <= t < out@.len() implies gtf_views(out@)[t]
                                    == gtf_views(oprev).push(out@[oprev.len() as int]@)[t] by {
                                    assert(gtf_views(out@)[t] == out@[t]@);
                                    if t < oprev.len() {
                                        assert(out@[t] == oprev[t]);
                                        assert(gtf_views(oprev)[t] == oprev[t]@);
                                    }
                                }
                                assert(gtf_views(out@) =~= gtf_views(oprev).push(
                                    out@[oprev.len() as int]@,
                                ));
                                assert(out@[oprev.len() as int]@
                                    == (crate::models::responses::GetTypeFullV {
                                    layer_id: lv[i as int].layer_id,
                                    objects: lv[i as int].objects[g as int].constructors,
                                }));
                                assert(gtf_views(out@) =~= types_full_of(
                                    lv.subrange(0, i + 1),
                                    req.name@,
                                ));
                            }
                        },
                    }
                    i = i + 1;
                }
                proof {
                    assert(lv.subrange(0, lv.len() as int) =~= lv);
                }
                let ghost full = gtf_views(out@);
                let ghost before = out@;
                out.truncate(limit);
                proof {
                    assert forall|t: int| 0 <= t < out@.len() implies gtf_views(out@)[t]
                        == take_at_most(full, limit as int)[t] by {
                        assert(gtf_views(out@)[t] == out@[t]@);
                        assert(out@[t] == before[t]);
                        assert(gtf_views(before)[t] == before[t]@);
                    }
                    assert(gtf_views(out@) =~= take_at_most(full, limit as int));
                }
                crate::models::responses::GetTypeResponse::FullMode(out)
            },
        }
    }

    /// Every occurrence of the named function, optionally scoped to one
    /// layer, each tagged with its layer id, optionally capped.
    pub fn get_func_full(&self, limit: Option<usize>, name: &str, layer_id: Option<u32>) -> (r: Vec<
        crate::models::responses::GetFunction,
    >)
        requires
            self.wf(),
        ensures
            ({
                let occs = func_occs(selected(self@.schemas, opt_uid(layer_id)), name@);
                match limit {
                    Some(l) => crate::models::responses::get_function_views(r@) == take_at_most(
                        occs,
                        l as int,
                    ),
                    None => crate::models::responses::get_function_views(r@) == occs,
                }
            }),
    {
        let layers = self.filter_schema_by_uid(layer_id);
        let ghost lv = ref_schema_views(layers@);
        let mut out: Vec<crate::models::responses::GetFunction> = Vec::new();
        let mut i: usize = 0;
        proof {
            assert(crate::models::responses::get_function_views(out@) =~= func_occs(
                lv.subrange(0, 0),
                name@,
            ));
        }
        while i < layers.len()
            invariant
                i <= layers@.len(),
                lv == ref_schema_views(layers@),
                lv.len() == layers@.len(),
                forall|j: int| 0 <= j < lv.len() ==> 0 <= (#[trigger] lv[j]).layer_id <= u32::MAX,
                crate::models::responses::get_function_views(out@) =~= func_occs(
                    lv.subrange(0, i as int),
                    name@,
                ),
            decreases layers@.len() - i,
        {
            proof {
                assert(lv.subrange(0, i + 1).drop_last() =~= lv.subrange(0, i as int));
                assert(lv.subrange(0, i + 1).last() == lv[i as int]);
                assert(lv[i as int] == layers@[i as int]@);
            }
            let s: &TlSchema = layers[i];
            let ghost bv = lv[i as int].functions;
            let ghost lid = lv[i as int].layer_id;
            let ghost base = func_occs(lv.subrange(0, i as int), name@);
            let mut b: usize = 0;
            proof {
                assert(crate::models::responses::get_function_views(out@) =~= base
                    + bucket_func_occs(bv.subrange(0, 0), name@, lid));
            }
            while b < s.functions.len()
                invariant
                    b <= s.functions@.len(),
                    bv == bucket_views(s.functions@),
                    bv.len() == s.functions@.len(),
                    0 <= lid <= u32::MAX,
                    lid == s@.layer_id,
                    crate::models::responses::get_function_views(out@) =~= base
                        + bucket_func_occs(bv.subrange(0, b as int), name@, lid),
                decreases s.functions@.len() - b,
            {
                proof {
                    assert(bv.subrange(0, b + 1).drop_last() =~= bv.subrange(0, b as int));
                    assert(bv.subrange(0, b + 1).last() == bv[b as int]);
                    assert(bv[b as int] == (s.functions@[b as int].0@,
                    crate::tl::tl_function::func_views(s.functions@[b as int].1@)));
                }
                let bucket: &(String, Vec<TlFunction>) = &s.functions[b];
                let ghost fsv = bv[b as int].1;
                let mut f: usize = 0;
                proof {
                    assert(fsv.subrange(0, 0).filter(func_named_pred(name@)) =~= Seq::<
                        FuncV,
                    >::empty()) by {
                        reveal_with_fuel(Seq::filter, 2);
                    }
                    assert(crate::models::responses::get_function_views(out@) =~= base
                        + bucket_func_occs(bv.subrange(0, b as int), name@, lid) + fsv.subrange(
                        0,
                        0,
                    ).filter(func_named_pred(name@)).map_values(occ_fn(lid)));
                }
                while f < bucket.1.len()
                    invariant
                        f <= bucket.1@.len(),
                        fsv == crate::tl::tl_function::func_views(bucket.1@),
                        fsv.len() == bucket.1@.len(),
                        0 <= lid <= u32::MAX,
                        lid == s@.layer_id,
                        crate::models::responses::get_function_views(out@) =~= base
                            + bucket_func_occs(bv.subrange(0, b as int), name@, lid)
                            + fsv.subrange(0, f as int).filter(func_named_pred(name@)).map_values(
                            occ_fn(lid),
                        ),
                    decreases bucket.1@.len() - f,
                {
                    proof {
                        fsv.subrange(0, f as int).lemma_filter_push(
                            fsv[f as int],
                            func_named_pred(name@),
                        );
                        assert(fsv.subrange(0, f + 1) =~= fsv.subrange(0, f as int).push(
                            fsv[f as int],
                        ));
                        assert(fsv[f as int] == bucket.1@[f as int]@);
                    }
                    let func: &TlFunction = &bucket.1[f];
                    let hit = str_eq(func.name.as_str(), name);
                    if hit {
                        let ghost prev = out@;
                        out.push(
                            crate::models::responses::GetFunction {
                                function: func.clone(),
                                layer_id: s.layer_id as u32,
                            },
                        );
                        proof {
                            assert(out@ =~= prev.push(out@[prev.len() as int]));
                            assert(out@[prev.len() as int]@ == occ_fn(lid)(fsv[f as int]));
                            assert forall|t: int| 0 <= t < out@.len() implies
                                crate::models::responses::get_function_views(out@)[t]
                                == crate::models::responses::get_function_views(prev).push(
                                occ_fn(lid)(fsv[f as int]),
                            )[t] by {
                                assert(crate::models::responses::get_function_views(out@)[t]
                                    == out@[t]@);
                                if t < prev.len() {
                                    assert(out@[t] == prev[t]);
                                    assert(crate::models::responses::get_function_views(prev)[t]
                                        == prev[t]@);
                                }
                            }
                            assert(crate::models::responses::get_function_views(out@)
                                =~= crate::models::responses::get_function_views(prev).push(
                                occ_fn(lid)(fsv[f as int]),
                            ));
                            crate::text::lemma_map_push(
                                fsv.subrange(0, f as int).filter(func_named_pred(name@)),
                                occ_fn(lid),
                                fsv[f as int],
                            );
                        }
                    }
                    proof {
                        assert(crate::models::responses::get_function_views(out@) =~= base
                            + bucket_func_occs(bv.subrange(0, b as int), name@, lid)
                            + fsv.subrange(0, f + 1).filter(func_named_pred(name@)).map_values(
                            occ_fn(lid),
                        ));
                    }
                    f = f + 1;
                }
                proof {
                    assert(fsv.subrange(0, fsv.len() as int) =~= fsv);
                    assert(bucket_func_occs(bv.subrange(0, b + 1), name@, lid)
                        =~= bucket_func_occs(bv.subrange(0, b as int), name@, lid) + fsv.filter(
                        func_named_pred(name@),
                    ).map_values(occ_fn(lid)));
                    assert(crate::models::responses::get_function_views(out@) =~= base
                        + bucket_func_occs(bv.subrange(0, b + 1), name@, lid));
                }
                b = b + 1;
            }
            proof {
                assert(bv.subrange(0, bv.len() as int) =~= bv);
                assert(crate::models::responses::get_function_views(out@) =~= func_occs(
                    lv.subrange(0, i + 1),
                    name@,
                ));
            }
            i = i + 1;
        }
        proof {
            assert(lv.subrange(0, lv.len() as int) =~= lv);
        }
        match limit {
            Some(l) => {
                let ghost full = crate::models::responses::get_function_views(out@);
                let ghost before = out@;
                out.truncate(l);
                proof {
                    assert forall|t: int| 0 <= t < out@.len() implies
                        crate::models::responses::get_function_views(out@)[t] == take_at_most(
                        full,
                        l as int,
                    )[t] by {
                        assert(crate::models::responses::get_function_views(out@)[t] == out@[t]@);
                        assert(out@[t] == before[t]);
                        assert(crate::models::responses::get_function_views(before)[t]
                            == before[t]@);
                    }
                    assert(crate::models::responses::get_function_views(out@) =~= take_at_most(
                        full,
                        l as int,
                    ));
                }
                out
            },
            None => out,
        }
    }

    /// Finds the position of the layer with the given id among a query's
    /// selected schemas.
    fn find_layer_ref(layers: &Vec<&TlSchema>, id: u32) -> (r: Option<usize>)
        ensures
            ({
                let lv = ref_schema_views(layers@);
                match r {
                    Some(j) => j < lv.len() && find_where(lv, has_layer_pred(id as int)) == Some(
                        j as int,
                    ),
                    None => find_where(lv, has_layer_pred(id as int)) is None,
                }
            }),
    {
        let ghost lv = ref_schema_views(layers@);
        let mut j: usize = 0;
        while j < layers.len()
            invariant
                j <= layers@.len(),
                lv == ref_schema_views(layers@),
                lv.len() == layers@.len(),
                forall|k: int| 0 <= k < j ==> !has_layer_pred(id as int)(lv[k]),
            decreases layers@.len() - j,
        {
            let s: &TlSchema = layers[j];
            proof {
                assert(lv[j as int] == layers@[j as int]@);
            }
            let hit = s.layer_id >= 0 && s.layer_id as u32 == id;
            if hit {
                proof {
                    lemma_find_where_at(lv, has_layer_pred(id as int), j as int);
                }
                return Some(j);
            }
            j = j + 1;
        }
        proof {
            lemma_find_where_at(lv, has_layer_pred(id as int), lv.len() as int);
        }
        None
    }

    /// Collects every occurrence of the named function, newest layer first.
    fn func_occurrences_desc(&self, name: &str) -> (r: Vec<crate::models::responses::GetFunction>)
        requires
            self.wf(),
        ensures
            crate::models::responses::get_function_views(r@) == func_occs_desc(
                self@.schemas,
                name@,
            ),
    {
        let ghost sv = self@.schemas;
        let mut out: Vec<crate::models::responses::GetFunction> = Vec::new();
        let mut j = self.schemas.len();
        proof {
            assert(func_occs_desc(sv, name@) =~= crate::models::responses::get_function_views(out@)
                + func_occs_desc_from(sv, name@, j as int));
        }
        while j > 0
            invariant
                j <= self.schemas@.len(),
                sv == schema_views(self.schemas@),
                sv.len() == self.schemas@.len(),
                self.wf(),
                func_occs_desc(sv, name@) =~= crate::models::responses::get_function_views(out@)
                    + func_occs_desc_from(sv, name@, j as int),
            decreases j,
        {
            let s: &TlSchema = &self.schemas[j - 1];
            proof {
                assert(sv[j - 1] == self.schemas@[j - 1]@);
                assert(0 <= self@.schemas[j - 1].layer_id);
                assert(0 <= s@.layer_id <= u32::MAX);
            }
            let ghost before = crate::models::responses::get_function_views(out@);
            append_func_matches(s, name, &mut out);
            proof {
                assert(func_occs_desc_from(sv, name@, j as int) =~= bucket_func_occs(
                    sv[j - 1].functions,
                    name@,
                    sv[j - 1].layer_id,
                ) + func_occs_desc_from(sv, name@, j - 1));
                assert(func_occs_desc(sv, name@)
                    =~= crate::models::responses::get_function_views(out@) + func_occs_desc_from(
                    sv,
                    name@,
                    j - 1,
                ));
            }
            j = j - 1;
        }
        proof {
            assert(func_occs_desc_from(sv, name@, 0) =~= Seq::<
                crate::models::responses::GetFunctionV,
            >::empty());
            assert(func_occs_desc(sv, name@) =~= crate::models::responses::get_function_views(
                out@,
            ));
        }
        out
    }

    /// Collects every occurrence of the named object, newest layer first,
    /// each annotated with its usage edges.
    fn obj_occurrences_desc(&self, name: &str) -> (r: Vec<crate::models::responses::GetObject>)
        requires
            self.wf(),
        ensures
            crate::models::responses::get_object_views(r@) == obj_occs_desc(self@.schemas, name@),
    {
        let ghost sv = self@.schemas;
        let mut occs: Vec<(String, TlConstructor, u32)> = Vec::new();
        let mut j = self.schemas.len();
        proof {
            assert(obj_occs_desc_from(sv, name@, sv.len() as int) =~= occ3_views(occs@)
                + obj_occs_desc_from(sv, name@, j as int));
        }
        while j > 0
            invariant
                j <= self.schemas@.len(),
                sv == schema_views(self.schemas@),
                sv.len() == self.schemas@.len(),
                self.wf(),
                obj_occs_desc_from(sv, name@, sv.len() as int) =~= occ3_views(occs@)
                    + obj_occs_desc_from(sv, name@, j as int),
            decreases j,
        {
            let s: &TlSchema = &self.schemas[j - 1];
            proof {
                assert(sv[j - 1] == self.schemas@[j - 1]@);
                assert(0 <= self@.schemas[j - 1].layer_id);
                assert(0 <= s@.layer_id <= u32::MAX);
            }
            append_obj_matches(s, name, &mut occs);
            proof {
                assert(obj_occs_desc_from(sv, name@, j as int) =~= group_obj_occs(
                    sv[j - 1].objects,
                    name@,
                    sv[j - 1].layer_id,
                ) + obj_occs_desc_from(sv, name@, j - 1));
                assert(obj_occs_desc_from(sv, name@, sv.len() as int) =~= occ3_views(occs@)
                    + obj_occs_desc_from(sv, name@, j - 1));
            }
            j = j - 1;
        }
        proof {
            assert(obj_occs_desc_from(sv, name@, 0) =~= Seq::<ObjOccV>::empty());
            assert(obj_occs_desc_from(sv, name@, sv.len() as int) =~= occ3_views(occs@));
        }
        // annotate each occurrence with its usage edges
        let layers = self.filter_schema_by_uid(None);
        let ghost lv = ref_schema_views(layers@);
        proof {
            assert(lv == sv);
        }
        let ghost ov = occ3_views(occs@);
        let mut out: Vec<crate::models::responses::GetObject> = Vec::new();
        let mut t: usize = 0;
        proof {
            assert(crate::models::responses::get_object_views(out@) =~= ov.subrange(
                0,
                0,
            ).map_values(obj_result_fn(lv, name@)));
        }
        while t < occs.len()
            invariant
                t <= occs@.len(),
                ov == occ3_views(occs@),
                ov.len() == occs@.len(),
                lv == ref_schema_views(layers@),
                lv.len() == layers@.len(),
                crate::models::responses::get_object_views(out@) =~= ov.subrange(
                    0,
                    t as int,
                ).map_values(obj_result_fn(lv, name@)),
            decreases occs@.len() - t,
        {
            proof {
                assert(ov[t as int] == (ObjOccV {
                    category: occs@[t as int].0@,
                    obj: occs@[t as int].1@,
                    layer_id: occs@[t as int].2 as int,
                }));
            }
            let occ: &(String, TlConstructor, u32) = &occs[t];
            let usages = match Self::find_layer_ref(&layers, occ.2) {
                Some(jj) => Self::build_usages(layers[jj], occ.0.as_str(), name),
                None => Vec::new(),
            };
            proof {
                assert(crate::models::responses::usage_views(usages@) =~= usages_for(
                    lv,
                    ov[t as int],
                    name@,
                ));
            }
            let ghost prev = out@;
            out.push(
                crate::models::responses::GetObject {
                    obj: occ.1.clone(),
                    usages,
                    layer_id: occ.2,
                },
            );
            proof {
                assert(out@ =~= prev.push(out@[prev.len() as int]));
                assert(out@[prev.len() as int]@ == obj_result_fn(lv, name@)(ov[t as int]));
                assert forall|u: int| 0 <= u < out@.len() implies
                    crate::models::responses::get_object_views(out@)[u]
                    == crate::models::responses::get_object_views(prev).push(
                    obj_result_fn(lv, name@)(ov[t as int]),
                )[u] by {
                    assert(crate::models::responses::get_object_views(out@)[u] == out@[u]@);
                    if u < prev.len() {
                        assert(out@[u] == prev[u]);
                        assert(crate::models::responses::get_object_views(prev)[u] == prev[u]@);
                    }
                }
                assert(crate::models::responses::get_object_views(out@)
                    =~= crate::models::responses::get_object_views(prev).push(
                    obj_result_fn(lv, name@)(ov[t as int]),
                ));
                crate::text::lemma_map_push(
                    ov.subrange(0, t as int),
                    obj_result_fn(lv, name@),
                    ov[t as int],
                );
                assert(ov.subrange(0, t + 1) =~= ov.subrange(0, t as int).push(ov[t as int]));
                assert(crate::models::responses::get_object_views(out@) =~= ov.subrange(
                    0,
                    t + 1,
                ).map_values(obj_result_fn(lv, name@)));
            }
            t = t + 1;
        }
        proof {
            assert(ov.subrange(0, ov.len() as int) =~= ov);
        }
        out
    }

    /// Reconstructs the named function's history: first attested in its
    /// oldest layer, field-level diffs between adjacent occurrences (newest
    /// pair first), and a deletion when it is absent from the latest layer;
    /// nothing when the name never occurred.
    pub fn get_function_history(&self, name: &str) -> (r: Option<
        crate::models::responses::FunctionHistoryResponse,
    >)
        requires
            self.wf(),
        ensures
            ({
                let occs = func_occs_desc(self@.schemas, name@);
                match r {
                    None => occs.len() == 0,
                    Some(resp) => occs.len() > 0 && self@.schemas.len() > 0
                        && crate::models::responses::fn_event_views(resp.history@)
                        == fn_history_events(occs, self@.schemas.last().layer_id)
                        && resp.last_definition@ == occs[0],
                }
            }),
    {
        let occs = self.func_occurrences_desc(name);
        let ghost ov = func_occs_desc(self@.schemas, name@);
        if occs.len() == 0 {
            return None;
        }
        proof {
            if self@.schemas.len() == 0 {
                assert(ov =~= Seq::<crate::models::responses::GetFunctionV>::empty());
            }
        }
        let n = occs.len();
        let mut history: Vec<crate::models::responses::FunctionHistory> = Vec::new();
        push_fn_event(
            &mut history,
            crate::models::responses::FunctionHistory::AddedIn {
                layer_id: occs[n - 1].layer_id,
            },
        );
        let ghost added = seq![
            crate::models::responses::FnEventV::AddedIn { layer_id: ov.last().layer_id },
        ];
        proof {
            assert(occs@[n - 1]@ == ov[n - 1]);
            assert(crate::models::responses::fn_event_views(history@) =~= added + fn_pairs_events(
                ov.subrange(0, 1),
            ));
        }
        let mut a: usize = 0;
        while a < n - 1
            invariant
                a <= n - 1,
                n == occs@.len(),
                n >= 1,
                ov == crate::models::responses::get_function_views(occs@),
                ov.len() == n,
                crate::models::responses::fn_event_views(history@) =~= added + fn_pairs_events(
                    ov.subrange(0, a + 1),
                ),
            decreases n - 1 - a,
        {
            proof {
                assert(ov.subrange(0, a + 2).drop_last() =~= ov.subrange(0, a + 1));
                assert(ov.subrange(0, a + 2)[a as int] == ov[a as int]);
                assert(ov.subrange(0, a + 2)[a + 1] == ov[a + 1]);
                assert(ov[a as int] == occs@[a as int]@);
                assert(ov[a + 1] == occs@[a + 1]@);
            }
            push_fn_pair(&mut history, &occs[a], &occs[a + 1]);
            proof {
                assert(crate::models::responses::fn_event_views(history@) =~= added
                    + fn_pairs_events(ov.subrange(0, a + 2)));
            }
            a = a + 1;
        }
        proof {
            assert(ov.subrange(0, n as int) =~= ov);
        }
        let latest = self.schemas[self.schemas.len() - 1].layer_id;
        proof {
            assert(self@.schemas[self@.schemas.len() - 1] == self.schemas@[self.schemas@.len()
                - 1]@);
            assert(0 <= self@.schemas[self@.schemas.len() - 1].layer_id);
            assert(occs@[0]@ == ov[0]);
        }
        if !(occs[0].layer_id == latest as u32) {
            push_fn_event(
                &mut history,
                crate::models::responses::FunctionHistory::DeletedIn {
                    layer_id: occs[0].layer_id,
                },
            );
        }
        proof {
            assert(crate::models::responses::fn_event_views(history@) =~= fn_history_events(
                ov,
                self@.schemas.last().layer_id,
            ));
        }
        let last_definition = occs[0].clone();
        Some(
            crate::models::responses::FunctionHistoryResponse { history, last_definition },
        )
    }

    /// Reconstructs the named object's history, as `get_function_history`
    /// does for functions, without return-type events.
    pub fn get_object_history(&self, name: &str) -> (r: Option<
        crate::models::responses::ObjectHistoryResponse,
    >)
        requires
            self.wf(),
        ensures
            ({
                let occs = obj_occs_desc(self@.schemas, name@);
                match r {
                    None => occs.len() == 0,
                    Some(resp) => occs.len() > 0 && self@.schemas.len() > 0
                        && crate::models::responses::obj_event_views(resp.history@)
                        == obj_history_events(occs, self@.schemas.last().layer_id)
                        && resp.last_definition@ == occs[0],
                }
            }),
    {
        let occs = self.obj_occurrences_desc(name);
        let ghost ov = obj_occs_desc(self@.schemas, name@);
        if occs.len() == 0 {
            return None;
        }
        proof {
            if self@.schemas.len() == 0 {
                assert(obj_occs_desc_from(self@.schemas, name@, 0) =~= Seq::<ObjOccV>::empty());
                assert(ov =~= Seq::<crate::models::responses::GetObjectV>::empty());
            }
        }
        let n = occs.len();
        let mut history: Vec<crate::models::responses::ObjectHistory> = Vec::new();
        push_obj_event(
            &mut history,
            crate::models::responses::ObjectHistory::AddedIn { layer_id: occs[n - 1].layer_id },
        );
        let ghost added = seq![
            crate::models::responses::ObjEventV::AddedIn { layer_id: ov.last().layer_id },
        ];
        proof {
            assert(occs@[n - 1]@ == ov[n - 1]);
            assert(crate::models::responses::obj_event_views(history@) =~= added
                + obj_pairs_events(ov.subrange(0, 1)));
        }
        let mut a: usize = 0;
        while a < n - 1
            invariant
                a <= n - 1,
                n == occs@.len(),
                n >= 1,
                ov == crate::models::responses::get_object_views(occs@),
                ov.len() == n,
                crate::models::responses::obj_event_views(history@) =~= added + obj_pairs_events(
                    ov.subrange(0, a + 1),
                ),
            decreases n - 1 - a,
        {
            proof {
                assert(ov.subrange(0, a + 2).drop_last() =~= ov.subrange(0, a + 1));
                assert(ov.subrange(0, a + 2)[a as int] == ov[a as int]);
                assert(ov.subrange(0, a + 2)[a + 1] == ov[a + 1]);
                assert(ov[a as int] == occs@[a as int]@);
                assert(ov[a + 1] == occs@[a + 1]@);
            }
            push_obj_pair(&mut history, &occs[a], &occs[a + 1]);
            proof {
                assert(crate::models::responses::obj_event_views(history@) =~= added
                    + obj_pairs_events(ov.subrange(0, a + 2)));
            }
            a = a + 1;
        }
        proof {
            assert(ov.subrange(0, n as int) =~= ov);
        }
        let latest = self.schemas[self.schemas.len() - 1].layer_id;
        proof {
            assert(self@.schemas[self@.schemas.len() - 1] == self.schemas@[self.schemas@.len()
                - 1]@);
            assert(0 <= self@.schemas[self@.schemas.len() - 1].layer_id);
            assert(occs@[0]@ == ov[0]);
        }
        if !(occs[0].layer_id == latest as u32) {
            push_obj_event(
                &mut history,
                crate::models::responses::ObjectHistory::DeletedIn { layer_id: occs[0].layer_id },
            );
        }
        proof {
            assert(crate::models::responses::obj_event_views(history@) =~= obj_history_events(
                ov,
                self@.schemas.last().layer_id,
            ));
        }
        let last_definition = occs[0].clone();
        Some(crate::models::responses::ObjectHistoryResponse { history, last_definition })
    }

    /// Answers a history query for a named entity of either kind: its
    /// reconstructed event list, or an explicit empty result when the name
    /// never occurred.
    pub fn history(&self, name: &str, definition_type: DefinitionType) -> (r:
        crate::models::responses::HistoryResponse)
        requires
            self.wf(),
        ensures
            ({
                match definition_type {
                    DefinitionType::Function => {
                        let occs = func_occs_desc(self@.schemas, name@);
                        match r {
                            crate::models::responses::HistoryResponse::Function(fr) => occs.len()
                                > 0 && self@.schemas.len() > 0
                                && crate::models::responses::fn_event_views(fr.history@)
                                == fn_history_events(occs, self@.schemas.last().layer_id)
                                && fr.last_definition@ == occs[0],
                            crate::models::responses::HistoryResponse::Empty => occs.len() == 0,
                            crate::models::responses::HistoryResponse::Object(_) => false,
                        }
                    },
                    DefinitionType::Object => {
                        let occs = obj_occs_desc(self@.schemas, name@);
                        match r {
                            crate::models::responses::HistoryResponse::Object(or) => occs.len() > 0
                                && self@.schemas.len() > 0
                                && crate::models::responses::obj_event_views(or.history@)
                                == obj_history_events(occs, self@.schemas.last().layer_id)
                                && or.last_definition@ == occs[0],
                            crate::models::responses::HistoryResponse::Empty => occs.len() == 0,
                            crate::models::responses::HistoryResponse::Function(_) => false,
                        }
                    },
                }
            }),
    {
        match definition_type {
            DefinitionType::Function => match self.get_function_history(name) {
                Some(fr) => crate::models::responses::HistoryResponse::Function(fr),
                None => crate::models::responses::HistoryResponse::Empty,
            },
            DefinitionType::Object => match self.get_object_history(name) {
                Some(or) => crate::models::responses::HistoryResponse::Object(or),
                None => crate::models::responses::HistoryResponse::Empty,
            },
        }
    }

    /// Collects the usage edges of one occurrence from its layer's
    /// functions.
    #[verifier::rlimit(100)]
    #[verifier::spinoff_prover]
    fn build_usages(related: &TlSchema, category: &str, name: &str) -> (r: Vec<
        crate::models::responses::ObjectUsage,
    >)
        ensures
            crate::models::responses::usage_views(r@) == usages_of_buckets(
                related@.functions,
                category@,
                name@,
            ),
    {
        let ghost bv = related@.functions;
        let mut out: Vec<crate::models::responses::ObjectUsage> = Vec::new();
        let mut b: usize = 0;
        proof {
            assert(crate::models::responses::usage_views(out@) =~= usages_of_buckets(
                bv.subrange(0, 0),
                category@,
                name@,
            ));
        }
        while b < related.functions.len()
            invariant
                b <= related.functions@.len(),
                bv == bucket_views(related.functions@),
                bv.len() == related.functions@.len(),
                crate::models::responses::usage_views(out@) =~= usages_of_buckets(
                    bv.subrange(0, b as int),
                    category@,
                    name@,
                ),
            decreases related.functions@.len() - b,
        {
            proof {
                assert(bv.subrange(0, b + 1).drop_last() =~= bv.subrange(0, b as int));
                assert(bv.subrange(0, b + 1).last() == bv[b as int]);
                assert(bv[b as int] == (related.functions@[b as int].0@,
                crate::tl::tl_function::func_views(related.functions@[b as int].1@)));
            }
            let bucket: &(String, Vec<TlFunction>) = &related.functions[b];
            let ghost fsv = bv[b as int].1;
            let ghost base_b = usages_of_buckets(bv.subrange(0, b as int), category@, name@);
            let mut f: usize = 0;
            proof {
                assert(crate::models::responses::usage_views(out@) =~= base_b + usages_of_funcs(
                    fsv.subrange(0, 0),
                    category@,
                    name@,
                ));
            }
            while f < bucket.1.len()
                invariant
                    f <= bucket.1@.len(),
                    fsv == crate::tl::tl_function::func_views(bucket.1@),
                    fsv.len() == bucket.1@.len(),
                    crate::models::responses::usage_views(out@) =~= base_b + usages_of_funcs(
                        fsv.subrange(0, f as int),
                        category@,
                        name@,
                    ),
                decreases bucket.1@.len() - f,
            {
                proof {
                    assert(fsv.subrange(0, f + 1).drop_last() =~= fsv.subrange(0, f as int));
                    assert(fsv.subrange(0, f + 1).last() == fsv[f as int]);
                    assert(fsv[f as int] == bucket.1@[f as int]@);
                }
                let func: &TlFunction = &bucket.1[f];
                let ghost fv = fsv[f as int];
                let ghost base_f = base_b + usages_of_funcs(fsv.subrange(0, f as int), category@, name@);
                let ghost h1: Seq<crate::models::responses::UsageV> = match fv.inner_return_type {
                    Some(inner) => if inner == category@ {
                        seq![
                            crate::models::responses::UsageV::ViaNamespace {
                                tl_function: fv,
                                is_inner: true,
                            },
                        ]
                    } else if inner == name@ {
                        seq![
                            crate::models::responses::UsageV::ReturnType {
                                tl_function: fv,
                                is_inner: true,
                            },
                        ]
                    } else {
                        seq![]
                    },
                    None => seq![],
                };
                let ghost h2: Seq<crate::models::responses::UsageV> = if fv.return_type
                    == category@ {
                    seq![
                        crate::models::responses::UsageV::ViaNamespace {
                            tl_function: fv,
                            is_inner: false,
                        },
                    ]
                } else if fv.return_type == name@ {
                    seq![
                        crate::models::responses::UsageV::ReturnType {
                            tl_function: fv,
                            is_inner: false,
                        },
                    ]
                } else {
                    seq![]
                };
                match &func.inner_return_type {
                    Some(inner) => {
                        proof {
                            assert(fv.inner_return_type == Some(inner@));
                        }
                        if str_eq(inner.as_str(), category) {
                            push_usage_via(&mut out, func, true);
                        } else if str_eq(inner.as_str(), name) {
                            push_usage_ret(&mut out, func, true);
                        }
                    },
                    None => {
                        proof {
                            assert(fv.inner_return_type is None);
                        }
                    },
                }
                proof {
                    assert(crate::models::responses::usage_views(out@) =~= base_f + h1);
                }
                if str_eq(func.return_type.as_str(), category) {
                    push_usage_via(&mut out, func, false);
                } else if str_eq(func.return_type.as_str(), name) {
                    push_usage_ret(&mut out, func, false);
                }
                proof {
                    assert(crate::models::responses::usage_views(out@) =~= base_f + h1 + h2);
                    assert(h1 + h2 =~= usage_header(fv, category@, name@));
                }
                let ghost base_p = base_f + usage_header(fv, category@, name@);
                let ghost pv = fv.parameters;
                let mut p: usize = 0;
                proof {
                    assert(crate::models::responses::usage_views(out@) =~= base_p
                        + usages_of_params(fv, pv.subrange(0, 0), category@, name@));
                }
                while p < func.parameters.len()
                    invariant
                        p <= func.parameters@.len(),
                        pv == crate::tl::tl_parameter::param_views(func.parameters@),
                        pv.len() == func.parameters@.len(),
                        fv == func@,
                        crate::models::responses::usage_views(out@) =~= base_p + usages_of_params(
                            fv,
                            pv.subrange(0, p as int),
                            category@,
                            name@,
                        ),
                    decreases func.parameters@.len() - p,
                {
                    proof {
                        assert(pv.subrange(0, p + 1).drop_last() =~= pv.subrange(0, p as int));
                        assert(pv.subrange(0, p + 1).last() == pv[p as int]);
                        assert(pv[p as int] == func.parameters@[p as int]@);
                    }
                    let param: &crate::tl::tl_parameter::TlParameter = &func.parameters[p];
                    let ghost pV = pv[p as int];
                    let ghost base_q = base_p + usages_of_params(
                        fv,
                        pv.subrange(0, p as int),
                        category@,
                        name@,
                    );
                    let ghost q1: Seq<crate::models::responses::UsageV> = match pV.inner_type {
                        Some(inner) => if inner == category@ {
                            seq![
                                crate::models::responses::UsageV::ViaNamespace {
                                    tl_function: fv,
                                    is_inner: true,
                                },
                            ]
                        } else if inner == name@ {
                            seq![
                                crate::models::responses::UsageV::Param {
                                    tl_function: fv,
                                    is_inner: true,
                                },
                            ]
                        } else {
                            seq![]
                        },
                        None => seq![],
                    };
                    match &param.inner_type {
                        Some(inner) => {
                            proof {
                                assert(pV.inner_type == Some(inner@));
                            }
                            if str_eq(inner.as_str(), category) {
                                push_usage_via(&mut out, func, true);
                            } else if str_eq(inner.as_str(), name) {
                                push_usage_param(&mut out, func, true);
                            }
                        },
                        None => {
                            proof {
                                assert(pV.inner_type is None);
                            }
                        },
                    }
                    proof {
                        assert(crate::models::responses::usage_views(out@) =~= base_q + q1);
                    }
                    if str_eq(param._type.as_str(), category) {
                        push_usage_via(&mut out, func, false);
                    } else if str_eq(param._type.as_str(), name) {
                        push_usage_param(&mut out, func, false);
                    }
                    proof {
                        assert(crate::models::responses::usage_views(out@) =~= base_q
                            + usage_of_param(fv, pV, category@, name@));
                        assert(crate::models::responses::usage_views(out@) =~= base_p
                            + usages_of_params(fv, pv.subrange(0, p + 1), category@, name@));
                    }
                    p = p + 1;
                }
                proof {
                    assert(pv.subrange(0, pv.len() as int) =~= pv);
                    assert(crate::models::responses::usage_views(out@) =~= base_f
                        + usages_of_func(fv, category@, name@));
                    assert(crate::models::responses::usage_views(out@) =~= base_b
                        + usages_of_funcs(fsv.subrange(0, f + 1), category@, name@));
                }
                f = f + 1;
            }
            proof {
                assert(fsv.subrange(0, fsv.len() as int) =~= fsv);
                assert(crate::models::responses::usage_views(out@) =~= usages_of_buckets(
                    bv.subrange(0, b + 1),
                    category@,
                    name@,
                ));
            }
            b = b + 1;
        }
        proof {
            assert(bv.subrange(0, bv.len() as int) =~= bv);
        }
        out
    }

    /// Every occurrence of the named object, optionally scoped to one
    /// layer and capped, each annotated with its usage edges.
    pub fn get_obj_full(&self, limit: Option<usize>, name: &str, layer_id: Option<u32>) -> (r: Vec<
        crate::models::responses::GetObject,
    >)
        requires
            self.wf(),
        ensures
            ({
                let sel = selected(self@.schemas, opt_uid(layer_id));
                let occs = match limit {
                    Some(l) => take_at_most(obj_occs(sel, name@), l as int),
                    None => obj_occs(sel, name@),
                };
                crate::models::responses::get_object_views(r@) == occs.map_values(
                    obj_result_fn(sel, name@),
                )
            }),
    {
        let layers = self.filter_schema_by_uid(layer_id);
        let ghost lv = ref_schema_views(layers@);
        let mut occs: Vec<(String, TlConstructor, u32)> = Vec::new();
        let mut i: usize = 0;
        proof {
            assert(occ3_views(occs@) =~= obj_occs(lv.subrange(0, 0), name@));
        }
        while i < layers.len()
            invariant
                i <= layers@.len(),
                lv == ref_schema_views(layers@),
                lv.len() == layers@.len(),
                forall|j: int| 0 <= j < lv.len() ==> 0 <= (#[trigger] lv[j]).layer_id <= u32::MAX,
                occ3_views(occs@) =~= obj_occs(lv.subrange(0, i as int), name@),
            decreases layers@.len() - i,
        {
            proof {
                assert(lv.subrange(0, i + 1).drop_last() =~= lv.subrange(0, i as int));
                assert(lv.subrange(0, i + 1).last() == lv[i as int]);
                assert(lv[i as int] == layers@[i as int]@);
            }
            let s: &TlSchema = layers[i];
            let ghost gv = lv[i as int].objects;
            let ghost lid = lv[i as int].layer_id;
            let ghost base = obj_occs(lv.subrange(0, i as int), name@);
            let mut g: usize = 0;
            proof {
                assert(occ3_views(occs@) =~= base + group_obj_occs(gv.subrange(0, 0), name@, lid));
            }
            while g < s.objects.len()
                invariant
                    g <= s.objects@.len(),
                    gv == crate::tl::tl_type::group_views(s.objects@),
                    gv.len() == s.objects@.len(),
                    0 <= lid <= u32::MAX,
                    lid == s@.layer_id,
                    occ3_views(occs@) =~= base + group_obj_occs(gv.subrange(0, g as int), name@, lid),
                decreases s.objects@.len() - g,
            {
                proof {
                    assert(gv.subrange(0, g + 1).drop_last() =~= gv.subrange(0, g as int));
                    assert(gv.subrange(0, g + 1).last() == gv[g as int]);
                    assert(gv[g as int] == s.objects@[g as int]@);
                }
                let group: &crate::tl::tl_type::TlType = &s.objects[g];
                let ghost cvv = gv[g as int].constructors;
                let mut c: usize = 0;
                proof {
                    assert(cvv.subrange(0, 0).filter(ctor_named_pred(name@)) =~= Seq::<
                        CtorV,
                    >::empty()) by {
                        reveal_with_fuel(Seq::filter, 2);
                    }
                    assert(occ3_views(occs@) =~= base + group_obj_occs(
                        gv.subrange(0, g as int),
                        name@,
                        lid,
                    ) + cvv.subrange(0, 0).filter(ctor_named_pred(name@)).map_values(
                        occ_of_ctor_fn(gv[g as int].name, lid),
                    ));
                }
                while c < group.constructors.len()
                    invariant
                        c <= group.constructors@.len(),
                        cvv == ctor_views(group.constructors@),
                        cvv.len() == group.constructors@.len(),
                        g < gv.len(),
                        gv[g as int].name == group.name@,
                        0 <= lid <= u32::MAX,
                        lid == s@.layer_id,
                        occ3_views(occs@) =~= base + group_obj_occs(
                            gv.subrange(0, g as int),
                            name@,
                            lid,
                        ) + cvv.subrange(0, c as int).filter(ctor_named_pred(name@)).map_values(
                            occ_of_ctor_fn(gv[g as int].name, lid),
                        ),
                    decreases group.constructors@.len() - c,
                {
                    proof {
                        cvv.subrange(0, c as int).lemma_filter_push(
                            cvv[c as int],
                            ctor_named_pred(name@),
                        );
                        assert(cvv.subrange(0, c + 1) =~= cvv.subrange(0, c as int).push(
                            cvv[c as int],
                        ));
                        assert(cvv[c as int] == group.constructors@[c as int]@);
                    }
                    let ctor: &TlConstructor = &group.constructors[c];
                    let hit = str_eq(ctor.name.as_str(), name);
                    if hit {
                        let ghost prev = occs@;
                        occs.push((group.name.clone(), ctor.clone(), s.layer_id as u32));
                        proof {
                            assert(occs@ =~= prev.push(occs@[prev.len() as int]));
                            assert(occ3_views(occs@)[prev.len() as int] == occ_of_ctor_fn(
                                gv[g as int].name,
                                lid,
                            )(cvv[c as int]));
                            assert forall|u: int| 0 <= u < occs@.len() implies occ3_views(occs@)[u]
                                == occ3_views(prev).push(
                                occ_of_ctor_fn(gv[g as int].name, lid)(cvv[c as int]),
                            )[u] by {
                                assert(occ3_views(occs@)[u] == (ObjOccV {
                                    category: occs@[u].0@,
                                    obj: occs@[u].1@,
                                    layer_id: occs@[u].2 as int,
                                }));
                                if u < prev.len() {
                                    assert(occs@[u] == prev[u]);
                                    assert(occ3_views(prev)[u] == (ObjOccV {
                                        category: prev[u].0@,
                                        obj: prev[u].1@,
                                        layer_id: prev[u].2 as int,
                                    }));
                                }
                            }
                            assert(occ3_views(occs@) =~= occ3_views(prev).push(
                                occ_of_ctor_fn(gv[g as int].name, lid)(cvv[c as int]),
                            ));
                            crate::text::lemma_map_push(
                                cvv.subrange(0, c as int).filter(ctor_named_pred(name@)),
                                occ_of_ctor_fn(gv[g as int].name, lid),
                                cvv[c as int],
                            );
                        }
                    }
                    proof {
                        assert(occ3_views(occs@) =~= base + group_obj_occs(
                            gv.subrange(0, g as int),
                            name@,
                            lid,
                        ) + cvv.subrange(0, c + 1).filter(ctor_named_pred(name@)).map_values(
                            occ_of_ctor_fn(gv[g as int].name, lid),
                        ));
                    }
                    c = c + 1;
                }
                proof {
                    assert(cvv.subrange(0, cvv.len() as int) =~= cvv);
                    assert(occ3_views(occs@) =~= base + group_obj_occs(
                        gv.subrange(0, g + 1),
                        name@,
                        lid,
                    ));
                }
                g = g + 1;
            }
            proof {
                assert(gv.subrange(0, gv.len() as int) =~= gv);
                assert(occ3_views(occs@) =~= obj_occs(lv.subrange(0, i + 1), name@));
            }
            i = i + 1;
        }
        proof {
            assert(lv.subrange(0, lv.len() as int) =~= lv);
        }
        if let Some(l) = limit {
            let ghost full = occ3_views(occs@);
            let ghost before = occs@;
            occs.truncate(l);
            proof {
                assert forall|u: int| 0 <= u < occs@.len() implies occ3_views(occs@)[u]
                    == take_at_most(full, l as int)[u] by {
                    assert(occs@[u] == before[u]);
                    assert(occ3_views(occs@)[u] == (ObjOccV {
                        category: occs@[u].0@,
                        obj: occs@[u].1@,
                        layer_id: occs@[u].2 as int,
                    }));
                    assert(occ3_views(before)[u] == (ObjOccV {
                        category: before[u].0@,
                        obj: before[u].1@,
                        layer_id: before[u].2 as int,
                    }));
                }
                assert(occ3_views(occs@) =~= take_at_most(full, l as int));
            }
        }
        // annotate each occurrence with its usage edges
        let ghost ov = occ3_views(occs@);
        let mut out: Vec<crate::models::responses::GetObject> = Vec::new();
        let mut t: usize = 0;
        proof {
            assert(crate::models::responses::get_object_views(out@) =~= ov.subrange(
                0,
                0,
            ).map_values(obj_result_fn(lv, name@)));
        }
        while t < occs.len()
            invariant
                t <= occs@.len(),
                ov == occ3_views(occs@),
                ov.len() == occs@.len(),
                lv == ref_schema_views(layers@),
                lv.len() == layers@.len(),
                crate::models::responses::get_object_views(out@) =~= ov.subrange(
                    0,
                    t as int,
                ).map_values(obj_result_fn(lv, name@)),
            decreases occs@.len() - t,
        {
            proof {
                assert(ov[t as int] == (ObjOccV {
                    category: occs@[t as int].0@,
                    obj: occs@[t as int].1@,
                    layer_id: occs@[t as int].2 as int,
                }));
            }
            let occ: &(String, TlConstructor, u32) = &occs[t];
            let usages = match Self::find_layer_ref(&layers, occ.2) {
                Some(j) => Self::build_usages(layers[j], occ.0.as_str(), name),
                None => Vec::new(),
            };
            proof {
                assert(crate::models::responses::usage_views(usages@) =~= usages_for(
                    lv,
                    ov[t as int],
                    name@,
                ));
            }
            let ghost prev = out@;
            out.push(
                crate::models::responses::GetObject {
                    obj: occ.1.clone(),
                    usages,
                    layer_id: occ.2,
                },
            );
            proof {
                assert(out@ =~= prev.push(out@[prev.len() as int]));
                assert(out@[prev.len() as int]@ == obj_result_fn(lv, name@)(ov[t as int]));
                assert forall|u: int| 0 <= u < out@.len() implies
                    crate::models::responses::get_object_views(out@)[u]
                    == crate::models::responses::get_object_views(prev).push(
                    obj_result_fn(lv, name@)(ov[t as int]),
                )[u] by {
                    assert(crate::models::responses::get_object_views(out@)[u] == out@[u]@);
                    if u < prev.len() {
                        assert(out@[u] == prev[u]);
                        assert(crate::models::responses::get_object_views(prev)[u] == prev[u]@);
                    }
                }
                assert(crate::models::responses::get_object_views(out@)
                    =~= crate::models::responses::get_object_views(prev).push(
                    obj_result_fn(lv, name@)(ov[t as int]),
                ));
                crate::text::lemma_map_push(
                    ov.subrange(0, t as int),
                    obj_result_fn(lv, name@),
                    ov[t as int],
                );
                assert(ov.subrange(0, t + 1) =~= ov.subrange(0, t as int).push(ov[t as int]));
                assert(crate::models::responses::get_object_views(out@) =~= ov.subrange(
                    0,
                    t + 1,
                ).map_values(obj_result_fn(lv, name@)));
            }
            t = t + 1;
        }
        proof {
            assert(ov.subrange(0, ov.len() as int) =~= ov);
        }
        out
    }

    /// Every selected layer's type-group names.
    pub fn get_type_names(&self, layer_id: Option<i32>) -> (r: Vec<
        crate::models::responses::TypeResponse,
    >)
        ensures
            ({
                let sel = selected(self@.schemas, opt_id(layer_id));
                r@.len() == sel.len() && forall|i: int|
                    0 <= i < sel.len() ==> (#[trigger] r@[i])@.layer_id == sel[i].layer_id
                        && r@[i]@.types == type_names_of(sel[i])
            }),
    {
        let layers = self.filter_schema_by_id(layer_id);
        let ghost lv = ref_schema_views(layers@);
        let mut out: Vec<crate::models::responses::TypeResponse> = Vec::new();
        let mut i: usize = 0;
        while i < layers.len()
            invariant
                i <= layers@.len(),
                lv == ref_schema_views(layers@),
                lv.len() == layers@.len(),
                out@.len() == i,
                forall|j: int|
                    0 <= j < i ==> (#[trigger] out@[j])@.layer_id == lv[j].layer_id
                        && out@[j]@.types == type_names_of(lv[j]),
            decreases layers@.len() - i,
        {
            let s: &TlSchema = layers[i];
            proof {
                assert(lv[i as int] == layers@[i as int]@);
            }
            let ghost gv = s@.objects;
            let mut names: Vec<String> = Vec::new();
            let mut g: usize = 0;
            proof {
                assert(views_of(names@) =~= gv.subrange(0, 0).map_values(group_name_fn()));
            }
            while g < s.objects.len()
                invariant
                    g <= s.objects@.len(),
                    gv == crate::tl::tl_type::group_views(s.objects@),
                    gv.len() == s.objects@.len(),
                    views_of(names@) =~= gv.subrange(0, g as int).map_values(group_name_fn()),
                decreases s.objects@.len() - g,
            {
                let ghost prev = names@;
                names.push(s.objects[g].name.clone());
                proof {
                    assert(names@ =~= prev.push(names@[prev.len() as int]));
                    assert(gv[g as int] == s.objects@[g as int]@);
                    assert(names@[prev.len() as int]@ == group_name_fn()(gv[g as int]));
                    crate::text::lemma_views_push(prev, names@[prev.len() as int]);
                    crate::text::lemma_map_push(
                        gv.subrange(0, g as int),
                        group_name_fn(),
                        gv[g as int],
                    );
                    assert(gv.subrange(0, g + 1) =~= gv.subrange(0, g as int).push(gv[g as int]));
                    assert(views_of(names@) =~= gv.subrange(0, g + 1).map_values(group_name_fn()));
                }
                g = g + 1;
            }
            proof {
                assert(gv.subrange(0, gv.len() as int) =~= gv);
            }
            out.push(
                crate::models::responses::TypeResponse { layer_id: s.layer_id, types: names },
            );
            i = i + 1;
        }
        out
    }

    /// Every selected layer's namespace listing: function namespace keys in
    /// bucket order, object namespaces deduplicated.
    pub fn get_namespace(&self, layer_id: Option<i32>) -> (r: Vec<
        crate::models::responses::Namespace,
    >)
        requires
            self.wf(),
        ensures
            ({
                let sel = selected(self@.schemas, opt_id(layer_id));
                r@.len() == sel.len() && forall|i: int|
                    0 <= i < sel.len() ==> (#[trigger] r@[i])@.layer_id == sel[i].layer_id
                        && r@[i]@.function_ns == sel[i].functions.map_values(bucket_key_fn())
                        && r@[i]@.object_ns == object_ns_of(sel[i])
            }),
    {
        let layers = self.filter_schema_by_id(layer_id);
        let ghost lv = ref_schema_views(layers@);
        proof {
            crate::text::lemma_find_where_props(self@.schemas, has_layer_pred(
                match layer_id {
                    Some(v) => v as int,
                    None => 0,
                },
            ));
            assert forall|j: int| 0 <= j < lv.len() implies 0 <= (#[trigger] lv[j]).layer_id
                <= u32::MAX by {
                if layer_id is None {
                    assert(lv[j] == self@.schemas[j]);
                } else {
                    assert(lv[j] == self@.schemas[find_schema(
                        self@.schemas,
                        opt_id(layer_id)->0,
                    )->0]);
                }
                assert(lv[j].layer_id <= i32::MAX);
            }
        }
        let mut out: Vec<crate::models::responses::Namespace> = Vec::new();
        let mut i: usize = 0;
        while i < layers.len()
            invariant
                i <= layers@.len(),
                lv == ref_schema_views(layers@),
                lv.len() == layers@.len(),
                forall|j: int| 0 <= j < lv.len() ==> 0 <= (#[trigger] lv[j]).layer_id <= u32::MAX,
                out@.len() == i,
                forall|j: int|
                    0 <= j < i ==> (#[trigger] out@[j])@.layer_id == lv[j].layer_id
                        && out@[j]@.function_ns == lv[j].functions.map_values(bucket_key_fn())
                        && out@[j]@.object_ns == object_ns_of(lv[j]),
            decreases layers@.len() - i,
        {
            let s: &TlSchema = layers[i];
            proof {
                assert(lv[i as int] == layers@[i as int]@);
            }
            // function namespace keys, in bucket order
            let ghost bv = s@.functions;
            let mut fns: Vec<String> = Vec::new();
            let mut b: usize = 0;
            proof {
                assert(views_of(fns@) =~= bv.subrange(0, 0).map_values(bucket_key_fn()));
            }
            while b < s.functions.len()
                invariant
                    b <= s.functions@.len(),
                    bv == bucket_views(s.functions@),
                    bv.len() == s.functions@.len(),
                    views_of(fns@) =~= bv.subrange(0, b as int).map_values(bucket_key_fn()),
                decreases s.functions@.len() - b,
            {
                let ghost prev = fns@;
                fns.push(s.functions[b].0.clone());
                proof {
                    assert(fns@ =~= prev.push(fns@[prev.len() as int]));
                    assert(bv[b as int] == (s.functions@[b as int].0@,
                    crate::tl::tl_function::func_views(s.functions@[b as int].1@)));
                    assert(fns@[prev.len() as int]@ == bucket_key_fn()(bv[b as int]));
                    crate::text::lemma_views_push(prev, fns@[prev.len() as int]);
                    crate::text::lemma_map_push(
                        bv.subrange(0, b as int),
                        bucket_key_fn(),
                        bv[b as int],
                    );
                    assert(bv.subrange(0, b + 1) =~= bv.subrange(0, b as int).push(bv[b as int]));
                    assert(views_of(fns@) =~= bv.subrange(0, b + 1).map_values(bucket_key_fn()));
                }
                b = b + 1;
            }
            proof {
                assert(bv.subrange(0, bv.len() as int) =~= bv);
            }
            // object namespaces, first occurrence of each
            let ghost gv = s@.objects;
            let mut ons: Vec<String> = Vec::new();
            let mut g: usize = 0;
            proof {
                assert(views_of(ons@) =~= add_groups_ns(seq![], gv.subrange(0, 0)));
            }
            while g < s.objects.len()
                invariant
                    g <= s.objects@.len(),
                    gv == crate::tl::tl_type::group_views(s.objects@),
                    gv.len() == s.objects@.len(),
                    views_of(ons@) =~= add_groups_ns(seq![], gv.subrange(0, g as int)),
                decreases s.objects@.len() - g,
            {
                proof {
                    assert(gv.subrange(0, g + 1).drop_last() =~= gv.subrange(0, g as int));
                    assert(gv.subrange(0, g + 1).last() == gv[g as int]);
                    assert(gv[g as int] == s.objects@[g as int]@);
                }
                let group: &crate::tl::tl_type::TlType = &s.objects[g];
                let ghost cvv = gv[g as int].constructors;
                let ghost acc0 = add_groups_ns(seq![], gv.subrange(0, g as int));
                let mut c: usize = 0;
                proof {
                    assert(views_of(ons@) =~= add_ctors_ns(acc0, cvv.subrange(0, 0)));
                }
                while c < group.constructors.len()
                    invariant
                        c <= group.constructors@.len(),
                        cvv == ctor_views(group.constructors@),
                        cvv.len() == group.constructors@.len(),
                        views_of(ons@) =~= add_ctors_ns(acc0, cvv.subrange(0, c as int)),
                    decreases group.constructors@.len() - c,
                {
                    proof {
                        assert(cvv.subrange(0, c + 1).drop_last() =~= cvv.subrange(0, c as int));
                        assert(cvv.subrange(0, c + 1).last() == cvv[c as int]);
                        assert(cvv[c as int] == group.constructors@[c as int]@);
                    }
                    let ctor: &TlConstructor = &group.constructors[c];
                    match &ctor.namespace {
                        Some(ns) => {
                            let seen = vec_contains_str(&ons, ns.as_str());
                            if !seen {
                                let ghost prev = ons@;
                                ons.push(ns.clone());
                                proof {
                                    assert(ons@ =~= prev.push(ons@[prev.len() as int]));
                                    crate::text::lemma_views_push(
                                        prev,
                                        ons@[prev.len() as int],
                                    );
                                }
                            }
                            proof {
                                assert(cvv[c as int].namespace == Some(ns@));
                                assert(views_of(ons@) =~= add_ctors_ns(
                                    acc0,
                                    cvv.subrange(0, c + 1),
                                ));
                            }
                        },
                        None => {
                            proof {
                                assert(cvv[c as int].namespace is None);
                                assert(views_of(ons@) =~= add_ctors_ns(
                                    acc0,
                                    cvv.subrange(0, c + 1),
                                ));
                            }
                        },
                    }
                    c = c + 1;
                }
                proof {
                    assert(cvv.subrange(0, cvv.len() as int) =~= cvv);
                    assert(views_of(ons@) =~= add_groups_ns(seq![], gv.subrange(0, g + 1)));
                }
                g = g + 1;
            }
            proof {
                assert(gv.subrange(0, gv.len() as int) =~= gv);
            }
            out.push(
                crate::models::responses::Namespace {
                    layer_id: s.layer_id as u32,
                    function_ns: fns,
                    object_ns: ons,
                },
            );
            i = i + 1;
        }
        out
    }

    /// The constructors of one namespace of one layer, or nothing when the
    /// layer id is unknown. A known layer without such constructors yields
    /// an empty listing, not an absence.
    pub fn get_namespace_objects(&self, req: &crate::models::requests::GetNamespaceRequest) -> (r:
        Option<Vec<TlConstructor>>)
        ensures
            ({
                let f = find_schema(self@.schemas, req.layer_id as int);
                match r {
                    Some(v) => f is Some && ctor_views(v@) == ctors_with_ns(
                        self@.schemas[f->0].objects,
                        req.namespace@,
                    ),
                    None => f is None,
                }
            }),
    {
        let ghost sv = self@.schemas;
        let mut i: usize = 0;
        while i < self.schemas.len()
            invariant
                i <= self.schemas@.len(),
                sv == schema_views(self.schemas@),
                sv.len() == self.schemas@.len(),
                forall|j: int| 0 <= j < i ==> !has_layer_pred(req.layer_id as int)(sv[j]),
            decreases self.schemas@.len() - i,
        {
            let s: &TlSchema = &self.schemas[i];
            proof {
                assert(sv[i as int] == self.schemas@[i as int]@);
            }
            let hit = s.layer_id >= 0 && s.layer_id as u32 == req.layer_id;
            if hit {
                proof {
                    lemma_find_where_at(sv, has_layer_pred(req.layer_id as int), i as int);
                    assert(find_schema(self@.schemas, req.layer_id as int) == Some(i as int));
                }
                let ghost gv = sv[i as int].objects;
                let mut out: Vec<TlConstructor> = Vec::new();
                let mut g: usize = 0;
                proof {
                    assert(ctor_views(out@) =~= ctors_with_ns(gv.subrange(0, 0), req.namespace@));
                }
                while g < s.objects.len()
                    invariant
                        g <= s.objects@.len(),
                        sv == schema_views(self.schemas@),
                        i < sv.len(),
                        s@ == sv[i as int],
                        find_schema(self@.schemas, req.layer_id as int) == Some(i as int),
                        gv == crate::tl::tl_type::group_views(s.objects@),
                        gv == sv[i as int].objects,
                        gv.len() == s.objects@.len(),
                        ctor_views(out@) =~= ctors_with_ns(gv.subrange(0, g as int), req.namespace@),
                    decreases s.objects@.len() - g,
                {
                    proof {
                        assert(gv.subrange(0, g + 1).drop_last() =~= gv.subrange(0, g as int));
                        assert(gv.subrange(0, g + 1).last() == gv[g as int]);
                        assert(gv[g as int] == s.objects@[g as int]@);
                    }
                    let group: &crate::tl::tl_type::TlType = &s.objects[g];
                    let ghost cvv = gv[g as int].constructors;
                    let mut c: usize = 0;
                    proof {
                        assert(cvv.subrange(0, 0).filter(ctor_ns_pred(req.namespace@)) =~= Seq::<
                            CtorV,
                        >::empty()) by {
                            reveal_with_fuel(Seq::filter, 2);
                        }
                        assert(ctor_views(out@) =~= ctors_with_ns(
                            gv.subrange(0, g as int),
                            req.namespace@,
                        ) + cvv.subrange(0, 0).filter(ctor_ns_pred(req.namespace@)));
                    }
                    while c < group.constructors.len()
                        invariant
                            c <= group.constructors@.len(),
                            cvv == ctor_views(group.constructors@),
                            cvv.len() == group.constructors@.len(),
                            ctor_views(out@) =~= ctors_with_ns(
                                gv.subrange(0, g as int),
                                req.namespace@,
                            ) + cvv.subrange(0, c as int).filter(ctor_ns_pred(req.namespace@)),
                        decreases group.constructors@.len() - c,
                    {
                        proof {
                            cvv.subrange(0, c as int).lemma_filter_push(
                                cvv[c as int],
                                ctor_ns_pred(req.namespace@),
                            );
                            assert(cvv.subrange(0, c + 1) =~= cvv.subrange(0, c as int).push(
                                cvv[c as int],
                            ));
                            assert(cvv[c as int] == group.constructors@[c as int]@);
                        }
                        let ctor: &TlConstructor = &group.constructors[c];
                        let matched = match &ctor.namespace {
                            Some(ns) => {
                                let e = str_eq(ns.as_str(), req.namespace.as_str());
                                proof {
                                    assert(cvv[c as int].namespace == Some(ns@));
                                }
                                e
                            },
                            None => {
                                proof {
                                    assert(cvv[c as int].namespace is None);
                                }
                                false
                            },
                        };
                        if matched {
                            let ghost prev = out@;
                            out.push(ctor.clone());
                            proof {
                                assert(out@ =~= prev.push(out@[prev.len() as int]));
                                assert forall|t: int| 0 <= t < out@.len() implies ctor_views(
                                    out@,
                                )[t] == ctor_views(prev).push(cvv[c as int])[t] by {
                                    assert(ctor_views(out@)[t] == out@[t]@);
                                    if t < prev.len() {
                                        assert(out@[t] == prev[t]);
                                        assert(ctor_views(prev)[t] == prev[t]@);
                                    }
                                }
                                assert(ctor_views(out@) =~= ctor_views(prev).push(cvv[c as int]));
                            }
                        }
                        proof {
                            assert(ctor_views(out@) =~= ctors_with_ns(
                                gv.subrange(0, g as int),
                                req.namespace@,
                            ) + cvv.subrange(0, c + 1).filter(ctor_ns_pred(req.namespace@)));
                        }
                        c = c + 1;
                    }
                    proof {
                        assert(cvv.subrange(0, cvv.len() as int) =~= cvv);
                        assert(ctor_views(out@) =~= ctors_with_ns(
                            gv.subrange(0, g + 1),
                            req.namespace@,
                        ));
                    }
                    g = g + 1;
                }
                proof {
                    assert(gv.subrange(0, gv.len() as int) =~= gv);
                }
                return Some(out);
            }
            i = i + 1;
        }
        proof {
            lemma_find_where_at(sv, has_layer_pred(req.layer_id as int), sv.len() as int);
        }
        None
    }
}

} // verus!
