//! A type group: every constructor sharing one result-type category.

use vstd::prelude::*;
use crate::tl::tl_constructor::{ctor_views, CtorV, TlConstructor};

verus! {

/// The set of constructors sharing one result-type category. The category
/// itself is abstract: it exists to group the concrete constructors.
#[derive(Debug, PartialEq)]
pub struct TlType {
    pub name: String,
    pub constructors: Vec<TlConstructor>,
}

/// The spec-level value of a `TlType`.
pub struct GroupV {
    pub name: Seq<char>,
    pub constructors: Seq<CtorV>,
}

impl View for TlType {
    type V = GroupV;

    open spec fn view(&self) -> GroupV {
        GroupV { name: self.name@, constructors: ctor_views(self.constructors@) }
    }
}

/// The views of a sequence of type groups.
pub open spec fn group_views(s: Seq<TlType>) -> Seq<GroupV> {
    s.map_values(|g: TlType| g@)
}

/// Appending a group appends its view.
pub proof fn lemma_group_views_push(v: Seq<TlType>, x: TlType)
    ensures
        group_views(v.push(x)) =~= group_views(v).push(x@),
{
    assert forall|k: int| 0 <= k < v.len() + 1 implies group_views(v.push(x))[k] == group_views(
        v,
    ).push(x@)[k] by {
        if k < v.len() {
            assert(group_views(v.push(x))[k] == v.push(x)[k]@);
            assert(v.push(x)[k] == v[k]);
            assert(group_views(v)[k] == v[k]@);
        } else {
            assert(group_views(v.push(x))[k] == x@);
        }
    }
}

/// Copies a constructor list.
pub fn clone_ctors(v: &Vec<TlConstructor>) -> (r: Vec<TlConstructor>)
    ensures
        ctor_views(r@) == ctor_views(v@),
{
    let mut r: Vec<TlConstructor> = Vec::new();
    let mut i: usize = 0;
    while i < v.len()
        invariant
            i <= v.len(),
            ctor_views(r@) =~= ctor_views(v@.subrange(0, i as int)),
        decreases v.len() - i,
    {
        let ghost prev = r@;
        r.push(v[i].clone());
        proof {
            assert(ctor_views(r@) =~= ctor_views(prev).push(r@[prev.len() as int]@));
            assert(ctor_views(v@.subrange(0, i + 1)) =~= ctor_views(v@.subrange(0, i as int)).push(
                v@[i as int]@,
            ));
        }
        i = i + 1;
    }
    proof {
        assert(v@.subrange(0, v@.len() as int) =~= v@);
    }
    r
}

} // verus!
