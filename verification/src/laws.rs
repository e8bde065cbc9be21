//! The library's stated laws: properties of the grammar, the grouping and
//! the history reconstruction, proved once and for all inputs.

use vstd::prelude::*;
use crate::models::responses::{FnEventV, ObjEventV, UsageV};
use crate::text::{find_where, lemma_find_where_props, split_on};
use crate::tl::schema_manager::{
    fn_changed_added_of, fn_deleted_of, fn_history_events, fn_pair_events, fn_pairs_events,
    group_named_pred, has_param, obj_history_events, obj_pairs_events, param_named_pred,
    usage_header, usages_of_buckets, usages_of_func, usages_of_funcs,
};
use crate::tl::tl_parameter::{lemma_equal_params_no_diffs, ParamV};
use crate::tl::{
    bucket_upsert, buckets_of_lines, finalize_buckets, function_line_entry, group_upsert,
    groups_of_lines, multi_pred, namespace_of, object_line_entry, single_pred,
};
use crate::tl::tl_constructor::CtorV;
use crate::tl::tl_function::FuncV;
use crate::tl::tl_type::GroupV;

verus! {

// ---------------------------------------------------------------------------
// Namespace derivation
// ---------------------------------------------------------------------------

/// The predicate selecting one character.
pub open spec fn eq_char(c: char) -> spec_fn(char) -> bool {
    |x: char| x == c
}

/// A split has one more piece than the text has separators.
pub proof fn lemma_split_on_count(s: Seq<char>, c: char)
    ensures
        split_on(s, c).len() == 1 + s.filter(eq_char(c)).len(),
    decreases s.len(),
{
    if s.len() == 0 {
        assert(s.filter(eq_char(c)) =~= Seq::<char>::empty()) by {
            reveal_with_fuel(Seq::filter, 2);
        }
    } else {
        let s1 = s.subrange(1, s.len() as int);
        lemma_split_on_count(s1, c);
        crate::text::lemma_split_on_nonempty(s1, c);
        assert(s =~= seq![s[0]] + s1);
        Seq::filter_distributes_over_add(seq![s[0]], s1, eq_char(c));
        if s[0] == c {
            assert(seq![s[0]].filter(eq_char(c)) =~= seq![s[0]]) by {
                reveal_with_fuel(Seq::filter, 3);
                assert(seq![s[0]].drop_last() =~= Seq::<char>::empty());
            }
        } else {
            assert(seq![s[0]].filter(eq_char(c)) =~= Seq::<char>::empty()) by {
                reveal_with_fuel(Seq::filter, 3);
                assert(seq![s[0]].drop_last() =~= Seq::<char>::empty());
            }
        }
    }
}

/// Law: namespace derivation. A dotted name yields a namespace exactly when
/// it has exactly one `.` (two segments); the namespace is then the first
/// segment. A parsed constructor's namespace follows this rule, and a parsed
/// function's bucket key is the namespace when there is one and the full
/// name otherwise.
pub proof fn lemma_namespace_derivation(name: Seq<char>, l: Seq<char>)
    ensures
        (namespace_of(name) is Some) <==> name.filter(eq_char('.')).len() == 1,
        namespace_of(name) is Some ==> namespace_of(name) == Some(split_on(name, '.')[0]),
        match object_line_entry(l) {
            Some(e) => e.1.namespace == namespace_of(e.1.name),
            None => true,
        },
        match function_line_entry(l) {
            Some(e) => e.0 == match namespace_of(e.1.name) {
                Some(ns) => ns,
                None => e.1.name,
            },
            None => true,
        },
{
    lemma_split_on_count(name, '.');
}

// ---------------------------------------------------------------------------
// Round-trip grouping
// ---------------------------------------------------------------------------

/// Adding a constructor leaves the group names as they were, except that an
/// unseen category is appended at the end.
pub proof fn lemma_group_upsert_names(gs: Seq<GroupV>, cat: Seq<char>, c: CtorV)
    ensures
        ({
            let r = group_upsert(gs, cat, c);
            if exists|k: int| 0 <= k < gs.len() && gs[k].name == cat {
                r.len() == gs.len() && (forall|k: int|
                    0 <= k < gs.len() ==> (#[trigger] r[k]).name == gs[k].name)
            } else {
                r.len() == gs.len() + 1 && (forall|k: int|
                    0 <= k < gs.len() ==> (#[trigger] r[k]).name == gs[k].name) && r[gs.len() as int].name
                    == cat
            }
        }),
{
    lemma_find_where_props(gs, group_named_pred(cat));
    match find_where(gs, group_named_pred(cat)) {
        Some(j) => {
            crate::tl::lemma_group_upsert_at(gs, cat, c, j);
            assert(exists|k: int| 0 <= k < gs.len() && gs[k].name == cat) by {
                assert(gs[j].name == cat);
            }
        },
        None => {
            crate::tl::lemma_group_upsert_new(gs, cat, c);
            assert(!(exists|k: int| 0 <= k < gs.len() && gs[k].name == cat));
        },
    }
}

/// Law (one half of round-trip grouping): the type groups of an object
/// section carry pairwise distinct category names, so a constructor line's
/// category names at most one group.
pub proof fn lemma_group_names_distinct(ls: Seq<Seq<char>>)
    ensures
        forall|i: int, j: int|
            0 <= i < j < groups_of_lines(ls).len() ==> (#[trigger] groups_of_lines(ls)[i]).name != (
            #[trigger] groups_of_lines(ls)[j]).name,
    decreases ls.len(),
{
    if ls.len() > 0 {
        lemma_group_names_distinct(ls.drop_last());
        let prev = groups_of_lines(ls.drop_last());
        match object_line_entry(ls.last()) {
            None => {},
            Some(e) => {
                lemma_group_upsert_names(prev, e.0, e.1);
            },
        }
    }
}

/// Adding a constructor to the groups puts it in the group of its category
/// and leaves every other group's constructors unchanged.
pub proof fn lemma_group_upsert_membership(gs: Seq<GroupV>, cat: Seq<char>, c: CtorV)
    ensures
        exists|j: int|
            0 <= j < group_upsert(gs, cat, c).len() && (#[trigger] group_upsert(gs, cat, c)[j]).name
                == cat && group_upsert(gs, cat, c)[j].constructors.contains(c),
        forall|j: int, x: CtorV|
            0 <= j < gs.len() && (#[trigger] gs[j].constructors.contains(x)) ==> exists|m: int|
                0 <= m < group_upsert(gs, cat, c).len() && (#[trigger] group_upsert(gs, cat, c)[m]).name
                    == gs[j].name && group_upsert(gs, cat, c)[m].constructors.contains(x),
{
    let r = group_upsert(gs, cat, c);
    lemma_find_where_props(gs, group_named_pred(cat));
    match find_where(gs, group_named_pred(cat)) {
        Some(j) => {
            crate::tl::lemma_group_upsert_at(gs, cat, c, j);
            assert(r[j].name == cat && r[j].constructors.contains(c)) by {
                assert(r[j].constructors == gs[j].constructors.push(c));
                assert(r[j].constructors[gs[j].constructors.len() as int] == c);
            }
            assert forall|jj: int, x: CtorV|
                0 <= jj < gs.len() && (#[trigger] gs[jj].constructors.contains(x)) implies exists|
                m: int,
            |
                0 <= m < r.len() && (#[trigger] r[m]).name == gs[jj].name
                    && r[m].constructors.contains(x) by {
                if jj == j {
                    let w = choose|w: int| 0 <= w < gs[jj].constructors.len()
                        && gs[jj].constructors[w] == x;
                    assert(r[jj].constructors[w] == x);
                    assert(r[jj].constructors.contains(x));
                    assert(r[jj].name == gs[jj].name);
                } else {
                    assert(r[jj] == gs[jj]);
                }
            }
        },
        None => {
            crate::tl::lemma_group_upsert_new(gs, cat, c);
            assert(r[gs.len() as int].name == cat && r[gs.len() as int].constructors.contains(c))
                by {
                assert(r[gs.len() as int].constructors == seq![c]);
                assert(r[gs.len() as int].constructors[0] == c);
            }
            assert forall|jj: int, x: CtorV|
                0 <= jj < gs.len() && (#[trigger] gs[jj].constructors.contains(x)) implies exists|
                m: int,
            |
                0 <= m < r.len() && (#[trigger] r[m]).name == gs[jj].name
                    && r[m].constructors.contains(x) by {
                assert(r[jj] == gs[jj]);
            }
        },
    }
}

/// Law (round-trip grouping, objects): every constructor line's constructor
/// stands in a group whose name is that line's trailing category — by
/// `lemma_group_names_distinct`, in exactly one.
pub proof fn lemma_object_grouping(ls: Seq<Seq<char>>)
    ensures
        forall|i: int|
            0 <= i < ls.len() && (#[trigger] object_line_entry(ls[i])) is Some ==> exists|j: int|
                0 <= j < groups_of_lines(ls).len() && (#[trigger] groups_of_lines(ls)[j]).name
                    == (object_line_entry(ls[i])->0).0 && groups_of_lines(
                    ls,
                )[j].constructors.contains((object_line_entry(ls[i])->0).1),
    decreases ls.len(),
{
    if ls.len() > 0 {
        lemma_object_grouping(ls.drop_last());
        let prev = groups_of_lines(ls.drop_last());
        let r = groups_of_lines(ls);
        match object_line_entry(ls.last()) {
            None => {
                assert forall|i: int|
                    0 <= i < ls.len() && (#[trigger] object_line_entry(ls[i])) is Some implies exists|
                    j: int,
                |
                    0 <= j < r.len() && (#[trigger] r[j]).name == (object_line_entry(ls[i])->0).0
                        && r[j].constructors.contains((object_line_entry(ls[i])->0).1) by {
                    if i < ls.len() - 1 {
                        assert(ls.drop_last()[i] == ls[i]);
                    } else {
                        assert(ls[i] == ls.last());
                    }
                }
            },
            Some(e) => {
                lemma_group_upsert_membership(prev, e.0, e.1);
                assert forall|i: int|
                    0 <= i < ls.len() && (#[trigger] object_line_entry(ls[i])) is Some implies exists|
                    j: int,
                |
                    0 <= j < r.len() && (#[trigger] r[j]).name == (object_line_entry(ls[i])->0).0
                        && r[j].constructors.contains((object_line_entry(ls[i])->0).1) by {
                    if i < ls.len() - 1 {
                        assert(ls.drop_last()[i] == ls[i]);
                    } else {
                        assert(ls[i] == ls.last());
                    }
                }
            },
        }
    }
}

/// Adding a function leaves the bucket keys as they were, except that an
/// unseen key is appended at the end.
pub proof fn lemma_bucket_upsert_keys(bs: Seq<(Seq<char>, Seq<FuncV>)>, key: Seq<char>, f: FuncV)
    ensures
        ({
            let r = bucket_upsert(bs, key, f);
            if exists|k: int| 0 <= k < bs.len() && bs[k].0 == key {
                r.len() == bs.len() && (forall|k: int|
                    0 <= k < bs.len() ==> (#[trigger] r[k]).0 == bs[k].0)
            } else {
                r.len() == bs.len() + 1 && (forall|k: int|
                    0 <= k < bs.len() ==> (#[trigger] r[k]).0 == bs[k].0) && r[bs.len() as int].0
                    == key
            }
        }),
{
    lemma_find_where_props(bs, crate::tl::schema_manager::has_key_pred(key));
    match find_where(bs, crate::tl::schema_manager::has_key_pred(key)) {
        Some(j) => {
            crate::tl::lemma_bucket_upsert_at(bs, key, f, j);
            assert(exists|k: int| 0 <= k < bs.len() && bs[k].0 == key) by {
                assert(bs[j].0 == key);
            }
        },
        None => {
            crate::tl::lemma_bucket_upsert_new(bs, key, f);
            assert(!(exists|k: int| 0 <= k < bs.len() && bs[k].0 == key));
        },
    }
}

/// The namespace buckets of a function section carry pairwise distinct keys.
pub proof fn lemma_bucket_keys_distinct(ls: Seq<Seq<char>>)
    ensures
        forall|i: int, j: int|
            0 <= i < j < buckets_of_lines(ls).len() ==> (#[trigger] buckets_of_lines(ls)[i]).0 != (
            #[trigger] buckets_of_lines(ls)[j]).0,
    decreases ls.len(),
{
    if ls.len() > 0 {
        lemma_bucket_keys_distinct(ls.drop_last());
        let prev = buckets_of_lines(ls.drop_last());
        match function_line_entry(ls.last()) {
            None => {},
            Some(e) => {
                lemma_bucket_upsert_keys(prev, e.0, e.1);
            },
        }
    }
}

// ---------------------------------------------------------------------------
// Round-trip grouping: counting
// ---------------------------------------------------------------------------

/// How many constructors the groups hold in all.
pub open spec fn total_ctors(gs: Seq<GroupV>) -> int
    decreases gs.len(),
{
    if gs.len() == 0 {
        0
    } else {
        total_ctors(gs.drop_last()) + gs.last().constructors.len()
    }
}

/// How many object lines describe a constructor.
pub open spec fn object_entry_count(ls: Seq<Seq<char>>) -> int
    decreases ls.len(),
{
    if ls.len() == 0 {
        0
    } else {
        object_entry_count(ls.drop_last()) + (if object_line_entry(ls.last()) is Some {
            1int
        } else {
            0
        })
    }
}

pub proof fn lemma_total_ctors_singleton(g: GroupV)
    ensures
        total_ctors(seq![g]) == g.constructors.len(),
{
    assert(seq![g].drop_last() =~= Seq::<GroupV>::empty());
    assert(total_ctors(Seq::<GroupV>::empty()) == 0);
}

pub proof fn lemma_total_ctors_concat(a: Seq<GroupV>, b: Seq<GroupV>)
    ensures
        total_ctors(a + b) == total_ctors(a) + total_ctors(b),
    decreases b.len(),
{
    if b.len() == 0 {
        assert(a + b =~= a);
    } else {
        lemma_total_ctors_concat(a, b.drop_last());
        assert((a + b).drop_last() =~= a + b.drop_last());
        assert((a + b).last() == b.last());
    }
}

/// Adding one constructor grows the total by exactly one.
pub proof fn lemma_group_upsert_total(gs: Seq<GroupV>, cat: Seq<char>, c: CtorV)
    ensures
        total_ctors(group_upsert(gs, cat, c)) == total_ctors(gs) + 1,
    decreases gs.len(),
{
    if gs.len() == 0 {
        let g = GroupV { name: cat, constructors: seq![c] };
        lemma_total_ctors_singleton(g);
    } else if gs[0].name == cat {
        let g = GroupV { name: cat, constructors: gs[0].constructors.push(c) };
        let tail = gs.subrange(1, gs.len() as int);
        lemma_total_ctors_singleton(g);
        lemma_total_ctors_concat(seq![g], tail);
        lemma_total_ctors_singleton(gs[0]);
        lemma_total_ctors_concat(seq![gs[0]], tail);
        assert(gs =~= seq![gs[0]] + tail);
    } else {
        let tail = gs.subrange(1, gs.len() as int);
        lemma_group_upsert_total(tail, cat, c);
        lemma_total_ctors_singleton(gs[0]);
        lemma_total_ctors_concat(seq![gs[0]], group_upsert(tail, cat, c));
        lemma_total_ctors_concat(seq![gs[0]], tail);
        assert(gs =~= seq![gs[0]] + tail);
    }
}

/// Law (round-trip grouping, objects, counting): the groups hold exactly one
/// constructor per line that describes one — none is lost, none is counted
/// twice.
pub proof fn lemma_object_count(ls: Seq<Seq<char>>)
    ensures
        total_ctors(groups_of_lines(ls)) == object_entry_count(ls),
    decreases ls.len(),
{
    if ls.len() > 0 {
        lemma_object_count(ls.drop_last());
        match object_line_entry(ls.last()) {
            None => {},
            Some(e) => {
                lemma_group_upsert_total(groups_of_lines(ls.drop_last()), e.0, e.1);
            },
        }
    }
}

/// How many functions the buckets hold in all.
pub open spec fn total_funcs(bs: Seq<(Seq<char>, Seq<FuncV>)>) -> int
    decreases bs.len(),
{
    if bs.len() == 0 {
        0
    } else {
        total_funcs(bs.drop_last()) + bs.last().1.len()
    }
}

/// How many function lines describe a function.
pub open spec fn function_entry_count(ls: Seq<Seq<char>>) -> int
    decreases ls.len(),
{
    if ls.len() == 0 {
        0
    } else {
        function_entry_count(ls.drop_last()) + (if function_line_entry(ls.last()) is Some {
            1int
        } else {
            0
        })
    }
}

pub proof fn lemma_total_funcs_singleton(b: (Seq<char>, Seq<FuncV>))
    ensures
        total_funcs(seq![b]) == b.1.len(),
{
    assert(seq![b].drop_last() =~= Seq::<(Seq<char>, Seq<FuncV>)>::empty());
    assert(total_funcs(Seq::<(Seq<char>, Seq<FuncV>)>::empty()) == 0);
}

pub proof fn lemma_total_funcs_concat(a: Seq<(Seq<char>, Seq<FuncV>)>, b: Seq<(Seq<char>, Seq<FuncV>)>)
    ensures
        total_funcs(a + b) == total_funcs(a) + total_funcs(b),
    decreases b.len(),
{
    if b.len() == 0 {
        assert(a + b =~= a);
    } else {
        lemma_total_funcs_concat(a, b.drop_last());
        assert((a + b).drop_last() =~= a + b.drop_last());
        assert((a + b).last() == b.last());
    }
}

/// Adding one function grows the total by exactly one.
pub proof fn lemma_bucket_upsert_total(bs: Seq<(Seq<char>, Seq<FuncV>)>, key: Seq<char>, f: FuncV)
    ensures
        total_funcs(bucket_upsert(bs, key, f)) == total_funcs(bs) + 1,
    decreases bs.len(),
{
    if bs.len() == 0 {
        let b = (key, seq![f]);
        lemma_total_funcs_singleton(b);
    } else if bs[0].0 == key {
        let b = (key, bs[0].1.push(f));
        let tail = bs.subrange(1, bs.len() as int);
        lemma_total_funcs_singleton(b);
        lemma_total_funcs_concat(seq![b], tail);
        lemma_total_funcs_singleton(bs[0]);
        lemma_total_funcs_concat(seq![bs[0]], tail);
        assert(bs =~= seq![bs[0]] + tail);
    } else {
        let tail = bs.subrange(1, bs.len() as int);
        lemma_bucket_upsert_total(tail, key, f);
        lemma_total_funcs_singleton(bs[0]);
        lemma_total_funcs_concat(seq![bs[0]], bucket_upsert(tail, key, f));
        lemma_total_funcs_concat(seq![bs[0]], tail);
        assert(bs =~= seq![bs[0]] + tail);
    }
}

/// The buckets hold exactly one function per line that describes one.
pub proof fn lemma_bucket_count(ls: Seq<Seq<char>>)
    ensures
        total_funcs(buckets_of_lines(ls)) == function_entry_count(ls),
    decreases ls.len(),
{
    if ls.len() > 0 {
        lemma_bucket_count(ls.drop_last());
        match function_line_entry(ls.last()) {
            None => {},
            Some(e) => {
                lemma_bucket_upsert_total(buckets_of_lines(ls.drop_last()), e.0, e.1);
            },
        }
    }
}

/// A listing whose buckets each hold one function holds as many functions as
/// buckets.
pub proof fn lemma_total_funcs_all_single(bs: Seq<(Seq<char>, Seq<FuncV>)>)
    requires
        forall|k: int| 0 <= k < bs.len() ==> (#[trigger] bs[k]).1.len() == 1,
    ensures
        total_funcs(bs) == bs.len(),
    decreases bs.len(),
{
    if bs.len() > 0 {
        assert(forall|k: int|
            0 <= k < bs.drop_last().len() ==> (#[trigger] bs.drop_last()[k]).1.len() == 1);
        lemma_total_funcs_all_single(bs.drop_last());
    }
}

/// Filtering a listing by holding one function or more than one partitions
/// its total.
pub proof fn lemma_total_funcs_partition(bs: Seq<(Seq<char>, Seq<FuncV>)>)
    ensures
        total_funcs(bs) == total_funcs(bs.filter(multi_pred())) + total_funcs(
            bs.filter(single_pred()),
        ),
    decreases bs.len(),
{
    if bs.len() == 0 {
        assert(bs.filter(multi_pred()) =~= Seq::<(Seq<char>, Seq<FuncV>)>::empty()) by {
            reveal_with_fuel(Seq::filter, 2);
        }
        assert(bs.filter(single_pred()) =~= Seq::<(Seq<char>, Seq<FuncV>)>::empty()) by {
            reveal_with_fuel(Seq::filter, 2);
        }
    } else {
        let pre = bs.drop_last();
        lemma_total_funcs_partition(pre);
        pre.lemma_filter_push(bs.last(), multi_pred());
        pre.lemma_filter_push(bs.last(), single_pred());
        assert(pre.push(bs.last()) =~= bs);
        if bs.last().1.len() == 1 {
            assert(bs.filter(single_pred()).drop_last() =~= pre.filter(single_pred()));
        } else {
            assert(bs.filter(multi_pred()).drop_last() =~= pre.filter(multi_pred()));
        }
    }
}

/// The total of a listing with one bucket's functions replaced changes by
/// the difference of the two function lists.
pub proof fn lemma_total_funcs_update(
    bs: Seq<(Seq<char>, Seq<FuncV>)>,
    k: int,
    b: (Seq<char>, Seq<FuncV>),
)
    requires
        0 <= k < bs.len(),
    ensures
        total_funcs(bs.update(k, b)) == total_funcs(bs) - bs[k].1.len() + b.1.len(),
{
    let pre = bs.subrange(0, k);
    let post = bs.subrange(k + 1, bs.len() as int);
    assert(bs =~= pre + seq![bs[k]] + post);
    assert(bs.update(k, b) =~= pre + seq![b] + post);
    lemma_total_funcs_concat(pre, seq![bs[k]]);
    lemma_total_funcs_concat(pre + seq![bs[k]], post);
    lemma_total_funcs_concat(pre, seq![b]);
    lemma_total_funcs_concat(pre + seq![b], post);
    lemma_total_funcs_singleton(bs[k]);
    lemma_total_funcs_singleton(b);
}

/// Law (round-trip grouping, functions, counting): the singleton pass loses
/// and duplicates nothing — the finalized buckets hold exactly as many
/// functions as the raw ones.
pub proof fn lemma_finalize_total(bs: Seq<(Seq<char>, Seq<FuncV>)>)
    ensures
        total_funcs(finalize_buckets(bs)) == total_funcs(bs),
{
    let multi = bs.filter(multi_pred());
    let fs = bs.filter(single_pred());
    let singles = fs.map_values(crate::tl::head_fn());
    lemma_total_funcs_partition(bs);
    assert(forall|k: int| 0 <= k < fs.len() ==> (#[trigger] fs[k]).1.len() == 1) by {
        assert forall|k: int| 0 <= k < fs.len() implies (#[trigger] fs[k]).1.len() == 1 by {
            bs.lemma_filter_pred(single_pred(), k);
        }
    }
    lemma_total_funcs_all_single(fs);
    assert(singles.len() == fs.len());
    lemma_find_where_props(multi, crate::tl::others_key_pred());
    match find_where(multi, crate::tl::others_key_pred()) {
        None => {
            let r = multi.push(("Others"@, singles));
            assert(r.drop_last() =~= multi);
            assert(total_funcs(r) == total_funcs(multi) + singles.len());
        },
        Some(k) => {
            lemma_total_funcs_update(multi, k, ("Others"@, multi[k].1 + singles));
        },
    }
}

/// Law (round-trip grouping, functions, counting, end to end): a function
/// section's finalized buckets hold exactly one function per line that
/// describes one.
pub proof fn lemma_function_count(ls: Seq<Seq<char>>)
    ensures
        total_funcs(finalize_buckets(buckets_of_lines(ls))) == function_entry_count(ls),
{
    lemma_bucket_count(ls);
    lemma_finalize_total(buckets_of_lines(ls));
}

/// Adding a function to the buckets puts it in the bucket of its key and
/// leaves every other bucket's functions unchanged.
pub proof fn lemma_bucket_upsert_membership(
    bs: Seq<(Seq<char>, Seq<FuncV>)>,
    key: Seq<char>,
    f: FuncV,
)
    ensures
        exists|j: int|
            0 <= j < bucket_upsert(bs, key, f).len() && (#[trigger] bucket_upsert(bs, key, f)[j]).0
                == key && bucket_upsert(bs, key, f)[j].1.contains(f),
        forall|j: int, x: FuncV|
            0 <= j < bs.len() && (#[trigger] bs[j].1.contains(x)) ==> exists|m: int|
                0 <= m < bucket_upsert(bs, key, f).len() && (#[trigger] bucket_upsert(bs, key, f)[m]).0
                    == bs[j].0 && bucket_upsert(bs, key, f)[m].1.contains(x),
{
    let r = bucket_upsert(bs, key, f);
    lemma_find_where_props(bs, crate::tl::schema_manager::has_key_pred(key));
    match find_where(bs, crate::tl::schema_manager::has_key_pred(key)) {
        Some(j) => {
            crate::tl::lemma_bucket_upsert_at(bs, key, f, j);
            assert(r[j].0 == key && r[j].1.contains(f)) by {
                assert(r[j].1 == bs[j].1.push(f));
                assert(r[j].1[bs[j].1.len() as int] == f);
            }
            assert forall|jj: int, x: FuncV|
                0 <= jj < bs.len() && (#[trigger] bs[jj].1.contains(x)) implies exists|m: int|
                0 <= m < r.len() && (#[trigger] r[m]).0 == bs[jj].0 && r[m].1.contains(x) by {
                if jj == j {
                    let w = choose|w: int| 0 <= w < bs[jj].1.len() && bs[jj].1[w] == x;
                    assert(r[jj].1[w] == x);
                    assert(r[jj].1.contains(x));
                    assert(r[jj].0 == bs[jj].0);
                } else {
                    assert(r[jj] == bs[jj]);
                }
            }
        },
        None => {
            crate::tl::lemma_bucket_upsert_new(bs, key, f);
            assert(r[bs.len() as int].0 == key && r[bs.len() as int].1.contains(f)) by {
                assert(r[bs.len() as int].1 == seq![f]);
                assert(r[bs.len() as int].1[0] == f);
            }
            assert forall|jj: int, x: FuncV|
                0 <= jj < bs.len() && (#[trigger] bs[jj].1.contains(x)) implies exists|m: int|
                0 <= m < r.len() && (#[trigger] r[m]).0 == bs[jj].0 && r[m].1.contains(x) by {
                assert(r[jj] == bs[jj]);
            }
        },
    }
}

/// Law (round-trip grouping, functions, before the singleton pass): every
/// function line's function stands in the bucket keyed by that line's
/// namespace key — by `lemma_bucket_keys_distinct`, in exactly one.
pub proof fn lemma_function_bucketing(ls: Seq<Seq<char>>)
    ensures
        forall|i: int|
            0 <= i < ls.len() && (#[trigger] function_line_entry(ls[i])) is Some ==> exists|j: int|
                0 <= j < buckets_of_lines(ls).len() && (#[trigger] buckets_of_lines(ls)[j]).0 == (
                function_line_entry(ls[i])->0).0 && buckets_of_lines(ls)[j].1.contains(
                    (function_line_entry(ls[i])->0).1,
                ),
    decreases ls.len(),
{
    if ls.len() > 0 {
        lemma_function_bucketing(ls.drop_last());
        let prev = buckets_of_lines(ls.drop_last());
        let r = buckets_of_lines(ls);
        match function_line_entry(ls.last()) {
            None => {
                assert forall|i: int|
                    0 <= i < ls.len() && (#[trigger] function_line_entry(ls[i])) is Some implies exists|
                    j: int,
                |
                    0 <= j < r.len() && (#[trigger] r[j]).0 == (function_line_entry(ls[i])->0).0
                        && r[j].1.contains((function_line_entry(ls[i])->0).1) by {
                    if i < ls.len() - 1 {
                        assert(ls.drop_last()[i] == ls[i]);
                    } else {
                        assert(ls[i] == ls.last());
                    }
                }
            },
            Some(e) => {
                lemma_bucket_upsert_membership(prev, e.0, e.1);
                assert forall|i: int|
                    0 <= i < ls.len() && (#[trigger] function_line_entry(ls[i])) is Some implies exists|
                    j: int,
                |
                    0 <= j < r.len() && (#[trigger] r[j]).0 == (function_line_entry(ls[i])->0).0
                        && r[j].1.contains((function_line_entry(ls[i])->0).1) by {
                    if i < ls.len() - 1 {
                        assert(ls.drop_last()[i] == ls[i]);
                    } else {
                        assert(ls[i] == ls.last());
                    }
                }
            },
        }
    }
}

/// Whether some bucket of `r` carries the given key and holds the given
/// function.
pub open spec fn bucket_holds(r: Seq<(Seq<char>, Seq<FuncV>)>, key: Seq<char>, f: FuncV) -> bool {
    exists|m: int| 0 <= m < r.len() && (#[trigger] r[m]).0 == key && r[m].1.contains(f)
}

/// Law (round-trip grouping, functions): after the singleton pass, every
/// function of a bucket that kept two or more stands in a bucket carrying
/// the same key, and every singleton bucket's function stands in the
/// reserved `Others` bucket. No function is lost.
pub proof fn lemma_function_grouping(bs: Seq<(Seq<char>, Seq<FuncV>)>)
    ensures
        forall|j: int, i: int|
            0 <= j < bs.len() && (#[trigger] bs[j]).1.len() != 1 && 0 <= i < bs[j].1.len()
                ==> bucket_holds(finalize_buckets(bs), bs[j].0, #[trigger] bs[j].1[i]),
        forall|j: int|
            0 <= j < bs.len() && (#[trigger] bs[j]).1.len() == 1 ==> bucket_holds(
                finalize_buckets(bs),
                "Others"@,
                bs[j].1[0],
            ),
{
    let multi = bs.filter(multi_pred());
    let fs = bs.filter(single_pred());
    let singles = fs.map_values(crate::tl::head_fn());
    let r = finalize_buckets(bs);
    lemma_find_where_props(multi, crate::tl::others_key_pred());
    assert forall|j: int, i: int|
        0 <= j < bs.len() && (#[trigger] bs[j]).1.len() != 1 && 0 <= i < bs[j].1.len() implies bucket_holds(
        finalize_buckets(bs),
        bs[j].0,
        #[trigger] bs[j].1[i],
    ) by {
        bs.lemma_filter_contains(multi_pred(), j);
        assert(multi.contains(bs[j]));
        let w = choose|w: int| 0 <= w < multi.len() && multi[w] == bs[j];
        match find_where(multi, crate::tl::others_key_pred()) {
            None => {
                assert(r[w] == bs[j]);
                assert(r[w].1[i] == bs[j].1[i]);
                assert(finalize_buckets(bs)[w].0 == bs[j].0);
                assert(finalize_buckets(bs)[w].1.contains(bs[j].1[i]));
                assert(bucket_holds(finalize_buckets(bs), bs[j].0, bs[j].1[i]));
            },
            Some(k) => {
                if w != k {
                    assert(r[w] == bs[j]);
                    assert(r[w].1[i] == bs[j].1[i]);
                    assert(finalize_buckets(bs)[w].0 == bs[j].0);
                    assert(finalize_buckets(bs)[w].1.contains(bs[j].1[i]));
                    assert(bucket_holds(finalize_buckets(bs), bs[j].0, bs[j].1[i]));
                } else {
                    assert(r[k].0 == "Others"@ && multi[k].0 == "Others"@);
                    assert(r[k].1 == multi[k].1 + singles);
                    assert(r[k].1[i] == bs[j].1[i]);
                    assert(finalize_buckets(bs)[k].0 == bs[j].0);
                    assert(finalize_buckets(bs)[k].1.contains(bs[j].1[i]));
                    assert(bucket_holds(finalize_buckets(bs), bs[j].0, bs[j].1[i]));
                }
            },
        }
    }
    assert forall|j: int|
        0 <= j < bs.len() && (#[trigger] bs[j]).1.len() == 1 implies bucket_holds(
        finalize_buckets(bs),
        "Others"@,
        bs[j].1[0],
    ) by {
        bs.lemma_filter_contains(single_pred(), j);
        let w = choose|w: int| 0 <= w < fs.len() && fs[w] == bs[j];
        assert(singles[w] == bs[j].1[0]);
        match find_where(multi, crate::tl::others_key_pred()) {
            None => {
                assert(finalize_buckets(bs)[r.len() - 1].0 == "Others"@);
                assert(r[r.len() - 1].1 == singles);
                assert(r[r.len() - 1].1[w] == bs[j].1[0]);
                assert(finalize_buckets(bs)[r.len() - 1].1.contains(bs[j].1[0]));
                assert(bucket_holds(finalize_buckets(bs), "Others"@, bs[j].1[0]));
            },
            Some(k) => {
                assert(finalize_buckets(bs)[k].0 == "Others"@);
                assert(r[k].1 == multi[k].1 + singles);
                assert(r[k].1[multi[k].1.len() + w] == bs[j].1[0]);
                assert(finalize_buckets(bs)[k].1.contains(bs[j].1[0]));
                assert(bucket_holds(finalize_buckets(bs), "Others"@, bs[j].1[0]));
            },
        }
    }
}

// ---------------------------------------------------------------------------
// History ordering
// ---------------------------------------------------------------------------

/// Every occurrence collected from one layer's buckets carries that layer's
/// id.
pub proof fn lemma_bucket_occs_layer(
    bs: Seq<(Seq<char>, Seq<FuncV>)>,
    name: Seq<char>,
    lid: int,
)
    ensures
        forall|a: int|
            0 <= a < crate::tl::schema_manager::bucket_func_occs(bs, name, lid).len() ==> (
            #[trigger] crate::tl::schema_manager::bucket_func_occs(bs, name, lid)[a]).layer_id
                == lid,
    decreases bs.len(),
{
    if bs.len() > 0 {
        lemma_bucket_occs_layer(bs.drop_last(), name, lid);
        let prev = crate::tl::schema_manager::bucket_func_occs(bs.drop_last(), name, lid);
        let block = bs.last().1.filter(crate::tl::schema_manager::func_named_pred(name)).map_values(
            crate::tl::schema_manager::occ_fn(lid),
        );
        assert forall|a: int|
            0 <= a < crate::tl::schema_manager::bucket_func_occs(bs, name, lid).len() implies (
        #[trigger] crate::tl::schema_manager::bucket_func_occs(bs, name, lid)[a]).layer_id
            == lid by {
            if a < prev.len() {
                assert(crate::tl::schema_manager::bucket_func_occs(bs, name, lid)[a] == prev[a]);
            } else {
                assert(crate::tl::schema_manager::bucket_func_occs(bs, name, lid)[a] == block[a
                    - prev.len()]);
            }
        }
    }
}

/// Within the first `j` schemas, the descending occurrence list's layer ids
/// are non-increasing, and each is the id of one of those schemas.
pub proof fn lemma_fn_desc_from_props(schemas: Seq<crate::tl::SchemaV>, name: Seq<char>, j: int)
    requires
        forall|i1: int, i2: int|
            0 <= i1 < i2 < schemas.len() ==> schemas[i1].layer_id <= schemas[i2].layer_id,
        0 <= j <= schemas.len(),
    ensures
        forall|a: int, b: int|
            0 <= a < b < crate::tl::schema_manager::func_occs_desc_from(schemas, name, j).len()
                ==> (#[trigger] crate::tl::schema_manager::func_occs_desc_from(schemas, name, j)[a]).layer_id
                >= (#[trigger] crate::tl::schema_manager::func_occs_desc_from(schemas, name, j)[b]).layer_id,
        forall|a: int|
            0 <= a < crate::tl::schema_manager::func_occs_desc_from(schemas, name, j).len()
                ==> exists|i: int|
                0 <= i < j && (#[trigger] crate::tl::schema_manager::func_occs_desc_from(
                    schemas,
                    name,
                    j,
                )[a]).layer_id == schemas[i].layer_id,
    decreases j,
{
    if j > 0 {
        lemma_fn_desc_from_props(schemas, name, j - 1);
        lemma_bucket_occs_layer(schemas[j - 1].functions, name, schemas[j - 1].layer_id);
        let block = crate::tl::schema_manager::bucket_func_occs(
            schemas[j - 1].functions,
            name,
            schemas[j - 1].layer_id,
        );
        let rest = crate::tl::schema_manager::func_occs_desc_from(schemas, name, j - 1);
        let whole = crate::tl::schema_manager::func_occs_desc_from(schemas, name, j);
        assert(whole == block + rest);
        assert forall|a: int|
            0 <= a < whole.len() implies exists|i: int|
            0 <= i < j && (#[trigger] whole[a]).layer_id == schemas[i].layer_id by {
            if a < block.len() {
                assert(whole[a] == block[a]);
                assert(whole[a].layer_id == schemas[j - 1].layer_id);
            } else {
                assert(whole[a] == rest[a - block.len()]);
                let i = choose|i: int|
                    0 <= i < j - 1 && rest[a - block.len()].layer_id == schemas[i].layer_id;
                assert(whole[a].layer_id == schemas[i].layer_id);
            }
        }
        assert forall|a: int, b: int|
            0 <= a < b < whole.len() implies (#[trigger] whole[a]).layer_id >= (
        #[trigger] whole[b]).layer_id by {
            if a < block.len() && b < block.len() {
                assert(whole[a] == block[a] && whole[b] == block[b]);
            } else if a < block.len() {
                assert(whole[a] == block[a]);
                assert(whole[b] == rest[b - block.len()]);
                let i = choose|i: int|
                    0 <= i < j - 1 && rest[b - block.len()].layer_id == schemas[i].layer_id;
                assert(schemas[i].layer_id <= schemas[j - 1].layer_id);
            } else {
                assert(whole[a] == rest[a - block.len()]);
                assert(whole[b] == rest[b - block.len()]);
            }
        }
    }
}

/// Law: a function's occurrence list is ordered newest layer first, its
/// layers are registry layers, and so its first element carries the highest
/// occurrence layer and its last the lowest — the endpoints the history's
/// `AddedIn` and `DeletedIn` events speak of.
pub proof fn lemma_fn_occs_desc_ordered(schemas: Seq<crate::tl::SchemaV>, name: Seq<char>)
    requires
        forall|i1: int, i2: int|
            0 <= i1 < i2 < schemas.len() ==> schemas[i1].layer_id <= schemas[i2].layer_id,
    ensures
        forall|a: int, b: int|
            0 <= a < b < crate::tl::schema_manager::func_occs_desc(schemas, name).len() ==> (
            #[trigger] crate::tl::schema_manager::func_occs_desc(schemas, name)[a]).layer_id >= (
            #[trigger] crate::tl::schema_manager::func_occs_desc(schemas, name)[b]).layer_id,
        forall|a: int|
            0 <= a < crate::tl::schema_manager::func_occs_desc(schemas, name).len() ==> exists|
                i: int,
            |
                0 <= i < schemas.len() && (#[trigger] crate::tl::schema_manager::func_occs_desc(
                    schemas,
                    name,
                )[a]).layer_id == schemas[i].layer_id,
{
    lemma_fn_desc_from_props(schemas, name, schemas.len() as int);
}

/// Every object occurrence collected from one layer's groups carries that
/// layer's id.
pub proof fn lemma_group_occs_layer(gs: Seq<GroupV>, name: Seq<char>, lid: int)
    ensures
        forall|a: int|
            0 <= a < crate::tl::schema_manager::group_obj_occs(gs, name, lid).len() ==> (
            #[trigger] crate::tl::schema_manager::group_obj_occs(gs, name, lid)[a]).layer_id
                == lid,
    decreases gs.len(),
{
    if gs.len() > 0 {
        lemma_group_occs_layer(gs.drop_last(), name, lid);
        let prev = crate::tl::schema_manager::group_obj_occs(gs.drop_last(), name, lid);
        let block = gs.last().constructors.filter(
            crate::tl::schema_manager::ctor_named_pred(name),
        ).map_values(crate::tl::schema_manager::occ_of_ctor_fn(gs.last().name, lid));
        assert forall|a: int|
            0 <= a < crate::tl::schema_manager::group_obj_occs(gs, name, lid).len() implies (
        #[trigger] crate::tl::schema_manager::group_obj_occs(gs, name, lid)[a]).layer_id == lid by {
            if a < prev.len() {
                assert(crate::tl::schema_manager::group_obj_occs(gs, name, lid)[a] == prev[a]);
            } else {
                assert(crate::tl::schema_manager::group_obj_occs(gs, name, lid)[a] == block[a
                    - prev.len()]);
            }
        }
    }
}

/// The object mirror of `lemma_fn_desc_from_props`, before usage
/// annotation.
pub proof fn lemma_obj_desc_from_props(schemas: Seq<crate::tl::SchemaV>, name: Seq<char>, j: int)
    requires
        forall|i1: int, i2: int|
            0 <= i1 < i2 < schemas.len() ==> schemas[i1].layer_id <= schemas[i2].layer_id,
        0 <= j <= schemas.len(),
    ensures
        forall|a: int, b: int|
            0 <= a < b < crate::tl::schema_manager::obj_occs_desc_from(schemas, name, j).len()
                ==> (#[trigger] crate::tl::schema_manager::obj_occs_desc_from(schemas, name, j)[a]).layer_id
                >= (#[trigger] crate::tl::schema_manager::obj_occs_desc_from(schemas, name, j)[b]).layer_id,
        forall|a: int|
            0 <= a < crate::tl::schema_manager::obj_occs_desc_from(schemas, name, j).len()
                ==> exists|i: int|
                0 <= i < j && (#[trigger] crate::tl::schema_manager::obj_occs_desc_from(
                    schemas,
                    name,
                    j,
                )[a]).layer_id == schemas[i].layer_id,
    decreases j,
{
    if j > 0 {
        lemma_obj_desc_from_props(schemas, name, j - 1);
        lemma_group_occs_layer(schemas[j - 1].objects, name, schemas[j - 1].layer_id);
        let block = crate::tl::schema_manager::group_obj_occs(
            schemas[j - 1].objects,
            name,
            schemas[j - 1].layer_id,
        );
        let rest = crate::tl::schema_manager::obj_occs_desc_from(schemas, name, j - 1);
        let whole = crate::tl::schema_manager::obj_occs_desc_from(schemas, name, j);
        assert(whole == block + rest);
        assert forall|a: int|
            0 <= a < whole.len() implies exists|i: int|
            0 <= i < j && (#[trigger] whole[a]).layer_id == schemas[i].layer_id by {
            if a < block.len() {
                assert(whole[a] == block[a]);
                assert(whole[a].layer_id == schemas[j - 1].layer_id);
            } else {
                assert(whole[a] == rest[a - block.len()]);
                let i = choose|i: int|
                    0 <= i < j - 1 && rest[a - block.len()].layer_id == schemas[i].layer_id;
                assert(whole[a].layer_id == schemas[i].layer_id);
            }
        }
        assert forall|a: int, b: int|
            0 <= a < b < whole.len() implies (#[trigger] whole[a]).layer_id >= (
        #[trigger] whole[b]).layer_id by {
            if a < block.len() && b < block.len() {
                assert(whole[a] == block[a] && whole[b] == block[b]);
            } else if a < block.len() {
                assert(whole[a] == block[a]);
                assert(whole[b] == rest[b - block.len()]);
                let i = choose|i: int|
                    0 <= i < j - 1 && rest[b - block.len()].layer_id == schemas[i].layer_id;
                assert(schemas[i].layer_id <= schemas[j - 1].layer_id);
            } else {
                assert(whole[a] == rest[a - block.len()]);
                assert(whole[b] == rest[b - block.len()]);
            }
        }
    }
}

/// Law: an object's annotated occurrence list is ordered newest layer
/// first, and its layers are registry layers.
pub proof fn lemma_obj_occs_desc_ordered(schemas: Seq<crate::tl::SchemaV>, name: Seq<char>)
    requires
        forall|i1: int, i2: int|
            0 <= i1 < i2 < schemas.len() ==> schemas[i1].layer_id <= schemas[i2].layer_id,
    ensures
        forall|a: int, b: int|
            0 <= a < b < crate::tl::schema_manager::obj_occs_desc(schemas, name).len() ==> (
            #[trigger] crate::tl::schema_manager::obj_occs_desc(schemas, name)[a]).layer_id >= (
            #[trigger] crate::tl::schema_manager::obj_occs_desc(schemas, name)[b]).layer_id,
        forall|a: int|
            0 <= a < crate::tl::schema_manager::obj_occs_desc(schemas, name).len() ==> exists|
                i: int,
            |
                0 <= i < schemas.len() && (#[trigger] crate::tl::schema_manager::obj_occs_desc(
                    schemas,
                    name,
                )[a]).layer_id == schemas[i].layer_id,
{
    lemma_obj_desc_from_props(schemas, name, schemas.len() as int);
    let raw = crate::tl::schema_manager::obj_occs_desc_from(schemas, name, schemas.len() as int);
    let occs = crate::tl::schema_manager::obj_occs_desc(schemas, name);
    assert forall|a: int| 0 <= a < occs.len() implies (#[trigger] occs[a]).layer_id
        == raw[a].layer_id by {
        assert(occs[a] == crate::tl::schema_manager::obj_result_fn(schemas, name)(raw[a]));
    }
    assert forall|a: int|
        0 <= a < occs.len() implies exists|i: int|
        0 <= i < schemas.len() && (#[trigger] occs[a]).layer_id == schemas[i].layer_id by {
        let i = choose|i: int|
            0 <= i < schemas.len() && raw[a].layer_id == schemas[i].layer_id;
        assert(occs[a].layer_id == schemas[i].layer_id);
    }
}

// ---------------------------------------------------------------------------
// History monotonicity
// ---------------------------------------------------------------------------

/// The pair events of a function history are parameter and return-type
/// events only.
pub proof fn lemma_fn_deleted_kinds(
    newer: crate::models::responses::GetFunctionV,
    ps: Seq<ParamV>,
)
    ensures
        forall|k: int|
            0 <= k < fn_deleted_of(newer, ps).len() ==> (#[trigger] fn_deleted_of(newer, ps)[k])
                matches FnEventV::ParamDeleted { .. },
    decreases ps.len(),
{
    if ps.len() > 0 {
        lemma_fn_deleted_kinds(newer, ps.drop_last());
    }
}

pub proof fn lemma_fn_changed_added_kinds(
    newer: crate::models::responses::GetFunctionV,
    older: crate::models::responses::GetFunctionV,
    ps: Seq<ParamV>,
)
    ensures
        forall|k: int|
            0 <= k < fn_changed_added_of(newer, older, ps).len() ==> (
            #[trigger] fn_changed_added_of(newer, older, ps)[k]) matches FnEventV::ParamChanged {
                ..
            } || fn_changed_added_of(newer, older, ps)[k] matches FnEventV::ParamAdded { .. },
    decreases ps.len(),
{
    if ps.len() > 0 {
        lemma_fn_changed_added_kinds(newer, older, ps.drop_last());
    }
}

pub proof fn lemma_fn_pairs_kinds(occs: Seq<crate::models::responses::GetFunctionV>)
    ensures
        forall|k: int|
            0 <= k < fn_pairs_events(occs).len() ==> !((#[trigger] fn_pairs_events(occs)[k])
                matches FnEventV::AddedIn { .. }) && !(fn_pairs_events(occs)[k]
                matches FnEventV::DeletedIn { .. }),
    decreases occs.len(),
{
    if occs.len() >= 2 {
        lemma_fn_pairs_kinds(occs.drop_last());
        let newer = occs[occs.len() - 2];
        let older = occs[occs.len() - 1];
        lemma_fn_deleted_kinds(newer, older.function.parameters);
        lemma_fn_changed_added_kinds(newer, older, newer.function.parameters);
    }
}

/// Law: history monotonicity, functions. The first event is always the
/// `AddedIn` of the oldest occurrence's layer; when the newest occurrence is
/// the registry's latest layer no `DeletedIn` is emitted; otherwise exactly
/// one is, as the final event, for the newest occurrence's layer.
pub proof fn lemma_fn_history_monotonic(
    occs: Seq<crate::models::responses::GetFunctionV>,
    latest: int,
)
    requires
        occs.len() > 0,
    ensures
        fn_history_events(occs, latest)[0] == (FnEventV::AddedIn {
            layer_id: occs.last().layer_id,
        }),
        occs[0].layer_id == latest ==> forall|k: int|
            0 <= k < fn_history_events(occs, latest).len() ==> !((#[trigger] fn_history_events(
                occs,
                latest,
            )[k]) matches FnEventV::DeletedIn { .. }),
        occs[0].layer_id != latest ==> fn_history_events(occs, latest).last() == (
        FnEventV::DeletedIn { layer_id: occs[0].layer_id }) && forall|k: int|
            0 <= k < fn_history_events(occs, latest).len() - 1 ==> !((#[trigger] fn_history_events(
                occs,
                latest,
            )[k]) matches FnEventV::DeletedIn { .. }),
{
    lemma_fn_pairs_kinds(occs);
    let ev = fn_history_events(occs, latest);
    let added = seq![FnEventV::AddedIn { layer_id: occs.last().layer_id }];
    let pairs = fn_pairs_events(occs);
    if occs[0].layer_id == latest {
        assert(ev =~= added + pairs);
        assert forall|k: int| 0 <= k < ev.len() implies !((#[trigger] ev[k])
            matches FnEventV::DeletedIn { .. }) by {
            if k > 0 {
                assert(ev[k] == pairs[k - 1]);
            }
        }
    } else {
        let del = seq![FnEventV::DeletedIn { layer_id: occs[0].layer_id }];
        assert(ev =~= added + pairs + del);
        assert(ev.last() == del[0]);
        assert forall|k: int| 0 <= k < ev.len() - 1 implies !((#[trigger] ev[k])
            matches FnEventV::DeletedIn { .. }) by {
            if k > 0 {
                assert(ev[k] == pairs[k - 1]);
            }
        }
    }
}

// ---------------------------------------------------------------------------
// Diff symmetry
// ---------------------------------------------------------------------------

/// Every element of a prefix of a same-named, duplicate-free parameter list
/// diffs to nothing against the list itself.
pub proof fn lemma_changed_added_empty(
    newer: crate::models::responses::GetFunctionV,
    older: crate::models::responses::GetFunctionV,
    m: int,
)
    requires
        older.function.parameters == newer.function.parameters,
        forall|i: int, j: int|
            0 <= i < j < newer.function.parameters.len()
                ==> (#[trigger] newer.function.parameters[i]).name != (
            #[trigger] newer.function.parameters[j]).name,
        0 <= m <= newer.function.parameters.len(),
    ensures
        fn_changed_added_of(newer, older, newer.function.parameters.subrange(0, m)).len() == 0,
    decreases m,
{
    let ps = newer.function.parameters;
    if m > 0 {
        lemma_changed_added_empty(newer, older, m - 1);
        let pre = ps.subrange(0, m);
        assert(pre.drop_last() =~= ps.subrange(0, m - 1));
        let p = ps[m - 1];
        assert(pre.last() == p);
        lemma_find_where_props(ps, param_named_pred(p.name));
        match find_where(ps, param_named_pred(p.name)) {
            Some(j) => {
                assert(ps[j].name == p.name);
                if j < m - 1 {
                    assert(ps[j].name != ps[m - 1].name);
                    assert(false);
                } else if j > m - 1 {
                    assert(!param_named_pred(p.name)(ps[m - 1]));
                    assert(false);
                }
                assert(j == m - 1);
                lemma_equal_params_no_diffs(p, ps[j]);
            },
            None => {
                assert(!param_named_pred(p.name)(ps[m - 1]));
                assert(false);
            },
        }
    }
}

/// Every parameter of a list is also found in the list by name.
pub proof fn lemma_deleted_empty(
    newer: crate::models::responses::GetFunctionV,
    older: crate::models::responses::GetFunctionV,
    m: int,
)
    requires
        older.function.parameters == newer.function.parameters,
        0 <= m <= older.function.parameters.len(),
    ensures
        fn_deleted_of(newer, older.function.parameters.subrange(0, m)).len() == 0,
    decreases m,
{
    let ps = older.function.parameters;
    if m > 0 {
        lemma_deleted_empty(newer, older, m - 1);
        let pre = ps.subrange(0, m);
        assert(pre.drop_last() =~= ps.subrange(0, m - 1));
        assert(has_param(newer.function.parameters, ps[m - 1].name)) by {
            assert(newer.function.parameters[m - 1].name == ps[m - 1].name);
        }
    }
}

/// Law: diff symmetry. Two adjacent occurrences with identical parameter
/// lists (with pairwise distinct parameter names) produce no parameter
/// events for that pair; with an unchanged return type they produce no
/// events at all. Duplicate parameter names are left out: the diff looks a
/// parameter up by its name and would compare the wrong pair.
pub proof fn lemma_diff_symmetry(
    newer: crate::models::responses::GetFunctionV,
    older: crate::models::responses::GetFunctionV,
)
    requires
        older.function.parameters == newer.function.parameters,
        forall|i: int, j: int|
            0 <= i < j < newer.function.parameters.len()
                ==> (#[trigger] newer.function.parameters[i]).name != (
            #[trigger] newer.function.parameters[j]).name,
    ensures
        forall|k: int|
            0 <= k < fn_pair_events(newer, older).len() ==> (#[trigger] fn_pair_events(
                newer,
                older,
            )[k]) matches FnEventV::ReturnTypeChanged { .. },
        newer.function.return_type == older.function.return_type ==> fn_pair_events(
            newer,
            older,
        ).len() == 0,
{
    let n = newer.function.parameters.len() as int;
    lemma_changed_added_empty(newer, older, n);
    lemma_deleted_empty(newer, older, n);
    assert(newer.function.parameters.subrange(0, n) =~= newer.function.parameters);
    assert(older.function.parameters.subrange(0, n) =~= older.function.parameters);
}

// ---------------------------------------------------------------------------
// Usage-edge correctness
// ---------------------------------------------------------------------------

/// Law: usage-edge correctness. A function whose inner (generic) return
/// type is the object's own name — and not the object's category — yields a
/// `ReturnType` usage edge marked `is_inner` for that function.
pub proof fn lemma_usage_return_edge(
    bs: Seq<(Seq<char>, Seq<FuncV>)>,
    ns: Seq<char>,
    name: Seq<char>,
    bi: int,
    fi: int,
)
    requires
        0 <= bi < bs.len(),
        0 <= fi < bs[bi].1.len(),
        bs[bi].1[fi].inner_return_type == Some(name),
        name != ns,
    ensures
        usages_of_buckets(bs, ns, name).contains(
            UsageV::ReturnType { tl_function: bs[bi].1[fi], is_inner: true },
        ),
    decreases bs.len(),
{
    let f = bs[bi].1[fi];
    let edge = UsageV::ReturnType { tl_function: f, is_inner: true };
    if bi == bs.len() - 1 {
        lemma_usage_in_funcs(bs[bi].1, ns, name, fi);
        let inner = usages_of_funcs(bs[bi].1, ns, name);
        let w = choose|w: int| 0 <= w < inner.len() && inner[w] == edge;
        assert(usages_of_buckets(bs, ns, name)[usages_of_buckets(bs.drop_last(), ns, name).len() as int
            + w] == edge);
    } else {
        lemma_usage_return_edge(bs.drop_last(), ns, name, bi, fi);
        let prev = usages_of_buckets(bs.drop_last(), ns, name);
        let w = choose|w: int| 0 <= w < prev.len() && prev[w] == edge;
        assert(bs.drop_last()[bi] == bs[bi]);
        assert(usages_of_buckets(bs, ns, name)[w] == edge);
    }
}

/// The edge stands among the usage edges of the function's own list.
pub proof fn lemma_usage_in_funcs(fs: Seq<FuncV>, ns: Seq<char>, name: Seq<char>, fi: int)
    requires
        0 <= fi < fs.len(),
        fs[fi].inner_return_type == Some(name),
        name != ns,
    ensures
        usages_of_funcs(fs, ns, name).contains(
            UsageV::ReturnType { tl_function: fs[fi], is_inner: true },
        ),
    decreases fs.len(),
{
    let f = fs[fi];
    let edge = UsageV::ReturnType { tl_function: f, is_inner: true };
    if fi == fs.len() - 1 {
        assert(usage_header(f, ns, name)[0] == edge);
        assert(usages_of_func(f, ns, name)[0] == edge);
        assert(usages_of_funcs(fs, ns, name)[usages_of_funcs(fs.drop_last(), ns, name).len() as int]
            == edge);
    } else {
        lemma_usage_in_funcs(fs.drop_last(), ns, name, fi);
        let prev = usages_of_funcs(fs.drop_last(), ns, name);
        let w = choose|w: int| 0 <= w < prev.len() && prev[w] == edge;
        assert(fs.drop_last()[fi] == fs[fi]);
        assert(usages_of_funcs(fs, ns, name)[w] == edge);
    }
}

// ---------------------------------------------------------------------------
// History monotonicity, objects
// ---------------------------------------------------------------------------

/// The object mirror of `lemma_fn_history_monotonic`.
pub proof fn lemma_obj_history_monotonic(
    occs: Seq<crate::models::responses::GetObjectV>,
    latest: int,
)
    requires
        occs.len() > 0,
    ensures
        obj_history_events(occs, latest)[0] == (ObjEventV::AddedIn {
            layer_id: occs.last().layer_id,
        }),
        occs[0].layer_id == latest ==> forall|k: int|
            0 <= k < obj_history_events(occs, latest).len() ==> !((#[trigger] obj_history_events(
                occs,
                latest,
            )[k]) matches ObjEventV::DeletedIn { .. }),
        occs[0].layer_id != latest ==> obj_history_events(occs, latest).last() == (
        ObjEventV::DeletedIn { layer_id: occs[0].layer_id }) && forall|k: int|
            0 <= k < obj_history_events(occs, latest).len() - 1 ==> !((
            #[trigger] obj_history_events(occs, latest)[k]) matches ObjEventV::DeletedIn { .. }),
{
    lemma_obj_pairs_kinds(occs);
    let ev = obj_history_events(occs, latest);
    let added = seq![ObjEventV::AddedIn { layer_id: occs.last().layer_id }];
    let pairs = obj_pairs_events(occs);
    if occs[0].layer_id == latest {
        assert(ev =~= added + pairs);
        assert forall|k: int| 0 <= k < ev.len() implies !((#[trigger] ev[k])
            matches ObjEventV::DeletedIn { .. }) by {
            if k > 0 {
                assert(ev[k] == pairs[k - 1]);
            }
        }
    } else {
        let del = seq![ObjEventV::DeletedIn { layer_id: occs[0].layer_id }];
        assert(ev =~= added + pairs + del);
        assert(ev.last() == del[0]);
        assert forall|k: int| 0 <= k < ev.len() - 1 implies !((#[trigger] ev[k])
            matches ObjEventV::DeletedIn { .. }) by {
            if k > 0 {
                assert(ev[k] == pairs[k - 1]);
            }
        }
    }
}

pub proof fn lemma_obj_pairs_kinds(occs: Seq<crate::models::responses::GetObjectV>)
    ensures
        forall|k: int|
            0 <= k < obj_pairs_events(occs).len() ==> !((#[trigger] obj_pairs_events(occs)[k])
                matches ObjEventV::AddedIn { .. }) && !(obj_pairs_events(occs)[k]
                matches ObjEventV::DeletedIn { .. }),
    decreases occs.len(),
{
    if occs.len() >= 2 {
        lemma_obj_pairs_kinds(occs.drop_last());
        let newer = occs[occs.len() - 2];
        let older = occs[occs.len() - 1];
        lemma_obj_deleted_kinds(newer, older.obj.parameters);
        lemma_obj_changed_added_kinds(newer, older, newer.obj.parameters);
    }
}

pub proof fn lemma_obj_deleted_kinds(
    newer: crate::models::responses::GetObjectV,
    ps: Seq<ParamV>,
)
    ensures
        forall|k: int|
            0 <= k < crate::tl::schema_manager::obj_deleted_of(newer, ps).len() ==> (
            #[trigger] crate::tl::schema_manager::obj_deleted_of(newer, ps)[k])
                matches ObjEventV::ParamDeleted { .. },
    decreases ps.len(),
{
    if ps.len() > 0 {
        lemma_obj_deleted_kinds(newer, ps.drop_last());
    }
}

pub proof fn lemma_obj_changed_added_kinds(
    newer: crate::models::responses::GetObjectV,
    older: crate::models::responses::GetObjectV,
    ps: Seq<ParamV>,
)
    ensures
        forall|k: int|
            0 <= k < crate::tl::schema_manager::obj_changed_added_of(newer, older, ps).len() ==> (
            #[trigger] crate::tl::schema_manager::obj_changed_added_of(newer, older, ps)[k])
                matches ObjEventV::ParamChanged { .. } || crate::tl::schema_manager::obj_changed_added_of(
                newer,
                older,
                ps,
            )[k] matches ObjEventV::ParamAdded { .. },
    decreases ps.len(),
{
    if ps.len() > 0 {
        lemma_obj_changed_added_kinds(newer, older, ps.drop_last());
    }
}

} // verus!
