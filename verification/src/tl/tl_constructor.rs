//! A concrete object definition.

use vstd::prelude::*;
use crate::text::view_opt;
use crate::tl::tl_parameter::{clone_opt, param_views, ParamV, TlParameter};

verus! {

/// One concrete object (record) definition of a layer.
#[derive(Debug, PartialEq)]
pub struct TlConstructor {
    pub id: String,
    pub name: String,
    pub namespace: Option<String>,
    pub parameters: Vec<TlParameter>,
}

/// The spec-level value of a `TlConstructor`.
pub struct CtorV {
    pub id: Seq<char>,
    pub name: Seq<char>,
    pub namespace: Option<Seq<char>>,
    pub parameters: Seq<ParamV>,
}

impl View for TlConstructor {
    type V = CtorV;

    open spec fn view(&self) -> CtorV {
        CtorV {
            id: self.id@,
            name: self.name@,
            namespace: view_opt(self.namespace),
            parameters: param_views(self.parameters@),
        }
    }
}

/// The views of a sequence of constructors.
pub open spec fn ctor_views(s: Seq<TlConstructor>) -> Seq<CtorV> {
    s.map_values(|c: TlConstructor| c@)
}

/// Appending a constructor appends its view.
pub proof fn lemma_ctor_views_push(v: Seq<TlConstructor>, x: TlConstructor)
    ensures
        ctor_views(v.push(x)) =~= ctor_views(v).push(x@),
{
    assert forall|k: int| 0 <= k < v.len() + 1 implies ctor_views(v.push(x))[k] == ctor_views(
        v,
    ).push(x@)[k] by {
        if k < v.len() {
            assert(ctor_views(v.push(x))[k] == v.push(x)[k]@);
            assert(v.push(x)[k] == v[k]);
            assert(ctor_views(v)[k] == v[k]@);
        } else {
            assert(ctor_views(v.push(x))[k] == x@);
        }
    }
}

/// Copies a parameter list.
pub fn clone_params(v: &Vec<TlParameter>) -> (r: Vec<TlParameter>)
    ensures
        r@ == v@,
{
    let mut r: Vec<TlParameter> = Vec::new();
    let mut i: usize = 0;
    while i < v.len()
        invariant
            i <= v.len(),
            r@ =~= v@.subrange(0, i as int),
        decreases v.len() - i,
    {
        r.push(v[i].clone());
        i = i + 1;
    }
    proof {
        assert(v@.subrange(0, v@.len() as int) =~= v@);
    }
    r
}

impl Clone for TlConstructor {
    fn clone(&self) -> (r: Self)
        ensures
            r@ == self@,
            r.id == self.id,
            r.name == self.name,
            r.namespace == self.namespace,
            r.parameters@ == self.parameters@,
    {
        Self {
            id: self.id.clone(),
            name: self.name.clone(),
            namespace: clone_opt(&self.namespace),
            parameters: clone_params(&self.parameters),
        }
    }
}

} // verus!
