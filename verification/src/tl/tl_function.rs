//! A concrete function (callable) definition.

use vstd::prelude::*;
use crate::text::view_opt;
use crate::tl::tl_constructor::clone_params;
use crate::tl::tl_parameter::{clone_opt, param_views, ParamV, TlParameter};

verus! {

/// One concrete function definition of a layer.
#[derive(Debug, PartialEq)]
pub struct TlFunction {
    pub id: String,
    pub name: String,
    pub parameters: Vec<TlParameter>,
    pub return_type: String,
    pub inner_return_type: Option<String>,
}

/// The spec-level value of a `TlFunction`.
pub struct FuncV {
    pub id: Seq<char>,
    pub name: Seq<char>,
    pub parameters: Seq<ParamV>,
    pub return_type: Seq<char>,
    pub inner_return_type: Option<Seq<char>>,
}

impl View for TlFunction {
    type V = FuncV;

    open spec fn view(&self) -> FuncV {
        FuncV {
            id: self.id@,
            name: self.name@,
            parameters: param_views(self.parameters@),
            return_type: self.return_type@,
            inner_return_type: view_opt(self.inner_return_type),
        }
    }
}

/// The views of a sequence of functions.
pub open spec fn func_views(s: Seq<TlFunction>) -> Seq<FuncV> {
    s.map_values(|f: TlFunction| f@)
}

/// Appending a function appends its view.
pub proof fn lemma_func_views_push(v: Seq<TlFunction>, x: TlFunction)
    ensures
        func_views(v.push(x)) =~= func_views(v).push(x@),
{
    assert forall|k: int| 0 <= k < v.len() + 1 implies func_views(v.push(x))[k] == func_views(
        v,
    ).push(x@)[k] by {
        if k < v.len() {
            assert(func_views(v.push(x))[k] == v.push(x)[k]@);
            assert(v.push(x)[k] == v[k]);
            assert(func_views(v)[k] == v[k]@);
        } else {
            assert(func_views(v.push(x))[k] == x@);
        }
    }
}

impl Clone for TlFunction {
    fn clone(&self) -> (r: Self)
        ensures
            r@ == self@,
            r.id == self.id,
            r.name == self.name,
            r.parameters@ == self.parameters@,
            r.return_type == self.return_type,
            r.inner_return_type == self.inner_return_type,
    {
        Self {
            id: self.id.clone(),
            name: self.name.clone(),
            parameters: clone_params(&self.parameters),
            return_type: self.return_type.clone(),
            inner_return_type: clone_opt(&self.inner_return_type),
        }
    }
}

/// Copies a function list.
pub fn clone_funcs(v: &Vec<TlFunction>) -> (r: Vec<TlFunction>)
    ensures
        func_views(r@) == func_views(v@),
{
    let mut r: Vec<TlFunction> = Vec::new();
    let mut i: usize = 0;
    while i < v.len()
        invariant
            i <= v.len(),
            func_views(r@) =~= func_views(v@.subrange(0, i as int)),
        decreases v.len() - i,
    {
        let ghost prev = r@;
        r.push(v[i].clone());
        proof {
            assert(func_views(r@) =~= func_views(prev).push(r@[prev.len() as int]@));
            assert(func_views(v@.subrange(0, i + 1)) =~= func_views(v@.subrange(0, i as int)).push(
                v@[i as int]@,
            ));
        }
        i = i + 1;
    }
    proof {
        assert(v@.subrange(0, v@.len() as int) =~= v@);
    }
    r
}

} // verus!
