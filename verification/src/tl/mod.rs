//! The schema language: grammar, parsed catalogue, and registry.
//!
//! A layer's text is a list of definition lines in two sections: object
//! definitions (`name#id params = Category;`), then — after a marker line —
//! function definitions (`name#id params = ReturnType;`). Parsing first
//! drops blank lines, built-in primitive definitions and comments, discards
//! a legacy prelude before the main-API boundary marker when one is present,
//! then reads the two sections independently: constructors are grouped by
//! result-type category, functions are grouped into namespace buckets.

pub mod schema_manager;
pub mod tl_constructor;
pub mod tl_function;
pub mod tl_parameter;
pub mod tl_type;

use vstd::prelude::*;
use vstd::string::StrSliceExecFns;
use crate::models::tl_layer::{SchemaDate, TlLayer};
use crate::text::{
    find_char_from, find_idx, find_where, has_prefix, lemma_find_idx_at, lemma_find_where_at,
    ne_char, remove_char, split_char, split_on, starts_with, str_eq, trim, trim_spec, views_of,
};
use crate::tl::tl_constructor::{CtorV, TlConstructor};
use crate::tl::tl_function::{clone_funcs, func_views, FuncV, TlFunction};
use crate::tl::tl_parameter::{parse_parameter, spec_parse_parameter};
use crate::tl::tl_type::{group_views, GroupV, TlType};

verus! {

/// One parsed layer: the ordered type groups of its object section and the
/// namespace buckets of its function section.
#[derive(Debug)]
pub struct TlSchema {
    pub layer_id: i32,
    pub release_date: SchemaDate,
    pub objects: Vec<TlType>,
    pub functions: Vec<(String, Vec<TlFunction>)>,
}

/// The spec-level value of a `TlSchema`.
pub struct SchemaV {
    pub layer_id: int,
    pub release_date: SchemaDate,
    pub objects: Seq<GroupV>,
    pub functions: Seq<(Seq<char>, Seq<FuncV>)>,
}

impl View for TlSchema {
    type V = SchemaV;

    open spec fn view(&self) -> SchemaV {
        SchemaV {
            layer_id: self.layer_id as int,
            release_date: self.release_date,
            objects: group_views(self.objects@),
            functions: bucket_views(self.functions@),
        }
    }
}

/// The views of a sequence of namespace buckets.
pub open spec fn bucket_views(s: Seq<(String, Vec<TlFunction>)>) -> Seq<(Seq<char>, Seq<FuncV>)> {
    s.map_values(|b: (String, Vec<TlFunction>)| (b.0@, func_views(b.1@)))
}

/// The named predicate and mapping values used by the parsing pipeline.
/// Naming them once lets the executable loops and the spec pipeline speak
/// of the same function values.
pub open spec fn keep_def_pred() -> spec_fn(Seq<char>) -> bool {
    |l: Seq<char>| keep_definition_line(l)
}

pub open spec fn keep_sec_pred() -> spec_fn(Seq<char>) -> bool {
    |l: Seq<char>| keep_section_line(l)
}

pub open spec fn api_pred() -> spec_fn(Seq<char>) -> bool {
    |l: Seq<char>| api_marker_line(l)
}

pub open spec fn functions_pred() -> spec_fn(Seq<char>) -> bool {
    |l: Seq<char>| functions_marker_line(l)
}

pub open spec fn strip_cr_fn() -> spec_fn(Seq<char>) -> Seq<char> {
    |l: Seq<char>| strip_cr(l)
}

pub open spec fn single_pred() -> spec_fn((Seq<char>, Seq<FuncV>)) -> bool {
    |b: (Seq<char>, Seq<FuncV>)| b.1.len() == 1
}

pub open spec fn multi_pred() -> spec_fn((Seq<char>, Seq<FuncV>)) -> bool {
    |b: (Seq<char>, Seq<FuncV>)| b.1.len() != 1
}

pub open spec fn head_fn() -> spec_fn((Seq<char>, Seq<FuncV>)) -> FuncV {
    |b: (Seq<char>, Seq<FuncV>)| b.1[0]
}

pub open spec fn others_key_pred() -> spec_fn((Seq<char>, Seq<FuncV>)) -> bool {
    |b: (Seq<char>, Seq<FuncV>)| b.0 == "Others"@
}

/// A line with its trailing carriage return removed, as `str::lines` does.
pub open spec fn strip_cr(l: Seq<char>) -> Seq<char> {
    if l.len() > 0 && l[l.len() - 1] == '\r' {
        l.subrange(0, l.len() - 1)
    } else {
        l
    }
}

/// The lines of `s`, as `str::lines` yields them: pieces between `\n`
/// separators, without a final empty piece, each without a trailing `\r`.
pub open spec fn lines_of(s: Seq<char>) -> Seq<Seq<char>> {
    let ps = split_on(s, '\n');
    let ps2 = if ps.last().len() == 0 {
        ps.drop_last()
    } else {
        ps
    };
    ps2.map_values(strip_cr_fn())
}

/// Definitions of the built-in primitives are fixed by convention and are
/// not parsed.
pub open spec fn is_ignored_line(l: Seq<char>) -> bool {
    has_prefix(l, "boolFalse"@) || has_prefix(l, "boolTrue"@) || has_prefix(l, "true"@)
        || has_prefix(l, "error"@) || has_prefix(l, "vector"@) || has_prefix(l, "null"@)
}

/// A line that takes part in parsing: non-blank and not a built-in
/// primitive definition.
pub open spec fn keep_definition_line(l: Seq<char>) -> bool {
    l.len() > 0 && !is_ignored_line(l)
}

/// The boundary marker separating the legacy prelude from the main API.
pub open spec fn api_marker_line(l: Seq<char>) -> bool {
    trim_spec(l) == "///////// Main application API"@
}

/// Everything before (and including) the main-API boundary marker is the
/// legacy sub-language and is discarded; absent the marker, all lines stay.
pub open spec fn api_cut(ls: Seq<Seq<char>>) -> Seq<Seq<char>> {
    match find_where(ls, api_pred()) {
        None => ls,
        Some(i) => ls.subrange(i + 1, ls.len() as int),
    }
}

/// A line that survives the section cleanup: not a comment and not the
/// types-section marker.
pub open spec fn keep_section_line(l: Seq<char>) -> bool {
    !has_prefix(l, "//"@) && trim_spec(l) != "---types---"@
}

/// The marker line separating the object section from the function section.
pub open spec fn functions_marker_line(l: Seq<char>) -> bool {
    trim_spec(l) == "---functions---"@
}

/// Splits the cleaned lines at the functions-section marker. Without the
/// marker every line belongs to the object section.
pub open spec fn split_sections(ls: Seq<Seq<char>>) -> (Seq<Seq<char>>, Seq<Seq<char>>) {
    match find_where(ls, functions_pred()) {
        None => (ls, seq![]),
        Some(i) => (ls.subrange(0, i), ls.subrange(i + 1, ls.len() as int)),
    }
}

/// Removes every `;` from a category or return-type text.
pub open spec fn strip_semis(s: Seq<char>) -> Seq<char> {
    s.filter(ne_char(';'))
}

/// Splits a definition at its first `#` into the trimmed name and the
/// parameter text; a definition without `#` has no parameter text.
pub open spec fn def_split(d: Seq<char>) -> (Seq<char>, Seq<char>) {
    match find_idx(d, '#') {
        None => (trim_spec(d), Seq::<char>::empty()),
        Some(i) => (trim_spec(d.subrange(0, i)), d.subrange(i + 1, d.len() as int)),
    }
}

/// The namespace of a dotted name: a name of exactly two `.`-separated
/// segments yields the first segment, any other shape yields none.
pub open spec fn namespace_of(name: Seq<char>) -> Option<Seq<char>> {
    let ps = split_on(name, '.');
    if ps.len() == 2 {
        Some(ps[0])
    } else {
        None
    }
}

/// Reads one object line `definition = category;` into its category and
/// constructor. Blank lines and lines without `=` describe nothing.
pub open spec fn object_line_entry(l: Seq<char>) -> Option<(Seq<char>, CtorV)> {
    if l.len() == 0 {
        None
    } else {
        let pieces = split_on(l, '=');
        if pieces.len() < 2 {
            None
        } else {
            let category = strip_semis(trim_spec(pieces[1]));
            let nm = def_split(pieces[0]);
            let parsed = spec_parse_parameter(nm.1);
            Some(
                (
                    category,
                    CtorV {
                        id: parsed.0,
                        name: nm.0,
                        namespace: namespace_of(nm.0),
                        parameters: parsed.1,
                    },
                ),
            )
        }
    }
}

/// Adds a constructor to the group of its category, keeping first-seen
/// category order; an unseen category opens a new group at the end.
pub open spec fn group_upsert(gs: Seq<GroupV>, cat: Seq<char>, c: CtorV) -> Seq<GroupV>
    decreases gs.len(),
{
    if gs.len() == 0 {
        seq![GroupV { name: cat, constructors: seq![c] }]
    } else if gs[0].name == cat {
        seq![GroupV { name: cat, constructors: gs[0].constructors.push(c) }] + gs.subrange(
            1,
            gs.len() as int,
        )
    } else {
        seq![gs[0]] + group_upsert(gs.subrange(1, gs.len() as int), cat, c)
    }
}

/// The type groups described by the object-section lines, in first-seen
/// category order, each group's constructors in line order.
pub open spec fn groups_of_lines(ls: Seq<Seq<char>>) -> Seq<GroupV>
    decreases ls.len(),
{
    if ls.len() == 0 {
        seq![]
    } else {
        let prev = groups_of_lines(ls.drop_last());
        match object_line_entry(ls.last()) {
            None => prev,
            Some(e) => group_upsert(prev, e.0, e.1),
        }
    }
}

/// Reads one function line `definition = return-type;` into its namespace
/// key and function. Blank lines and lines without `=` describe nothing.
pub open spec fn function_line_entry(l: Seq<char>) -> Option<(Seq<char>, FuncV)> {
    if l.len() == 0 {
        None
    } else {
        let pieces = split_on(l, '=');
        if pieces.len() < 2 {
            None
        } else {
            let rt = strip_semis(trim_spec(pieces[1]));
            let nm = def_split(pieces[0]);
            let parsed = spec_parse_parameter(nm.1);
            let key = match namespace_of(nm.0) {
                Some(ns) => ns,
                None => nm.0,
            };
            Some(
                (
                    key,
                    FuncV {
                        id: parsed.0,
                        name: nm.0,
                        parameters: parsed.1,
                        return_type: rt,
                        inner_return_type: crate::tl::tl_parameter::inner_of(rt),
                    },
                ),
            )
        }
    }
}

/// Adds a function to the bucket of its namespace key, keeping first-seen
/// key order; an unseen key opens a new bucket at the end.
pub open spec fn bucket_upsert(
    bs: Seq<(Seq<char>, Seq<FuncV>)>,
    key: Seq<char>,
    f: FuncV,
) -> Seq<(Seq<char>, Seq<FuncV>)>
    decreases bs.len(),
{
    if bs.len() == 0 {
        seq![(key, seq![f])]
    } else if bs[0].0 == key {
        seq![(key, bs[0].1.push(f))] + bs.subrange(1, bs.len() as int)
    } else {
        seq![bs[0]] + bucket_upsert(bs.subrange(1, bs.len() as int), key, f)
    }
}

/// The namespace buckets described by the function-section lines, before
/// the singleton pass, in first-seen key order.
pub open spec fn buckets_of_lines(ls: Seq<Seq<char>>) -> Seq<(Seq<char>, Seq<FuncV>)>
    decreases ls.len(),
{
    if ls.len() == 0 {
        seq![]
    } else {
        let prev = buckets_of_lines(ls.drop_last());
        match function_line_entry(ls.last()) {
            None => prev,
            Some(e) => bucket_upsert(prev, e.0, e.1),
        }
    }
}

/// Moves every bucket's lone function into the reserved `Others` bucket:
/// buckets that held exactly one function disappear and their functions
/// gather, in bucket order, under `Others`. When a surviving bucket already
/// carries that key, the gathered functions are appended to it; otherwise a
/// fresh `Others` bucket is added at the end.
pub open spec fn finalize_buckets(bs: Seq<(Seq<char>, Seq<FuncV>)>) -> Seq<
    (Seq<char>, Seq<FuncV>),
> {
    let multi = bs.filter(multi_pred());
    let singles = bs.filter(single_pred()).map_values(head_fn());
    match find_where(multi, others_key_pred()) {
        None => multi.push(("Others"@, singles)),
        Some(k) => multi.update(k, ("Others"@, multi[k].1 + singles)),
    }
}

/// The object-section lines and function-section lines of a layer's text,
/// after preprocessing.
pub open spec fn prepared_sections(text: Seq<char>) -> (Seq<Seq<char>>, Seq<Seq<char>>) {
    let kept = lines_of(text).filter(keep_def_pred());
    let cleaned = api_cut(kept).filter(keep_sec_pred());
    split_sections(cleaned)
}

/// The full parse of a layer's text: its type groups and namespace buckets.
pub open spec fn spec_parse_schema(text: Seq<char>) -> (Seq<GroupV>, Seq<(Seq<char>, Seq<FuncV>)>) {
    let sections = prepared_sections(text);
    (
        groups_of_lines(sections.0),
        finalize_buckets(buckets_of_lines(sections.1)),
    )
}

/// Splits `s` into its lines.
fn lines(s: &str) -> (r: Vec<String>)
    ensures
        views_of(r@) == lines_of(s@),
{
    let mut ps = split_char(s, '\n');
    proof {
        crate::text::lemma_split_on_nonempty(s@, '\n');
    }
    if ps[ps.len() - 1].as_str().is_empty() {
        let ghost before = ps@;
        ps.pop();
        proof {
            assert(views_of(ps@) =~= views_of(before).drop_last());
        }
    }
    let ghost base = views_of(ps@);
    let mut r: Vec<String> = Vec::new();
    let mut i: usize = 0;
    proof {
        assert(views_of(r@) =~= base.subrange(0, 0).map_values(strip_cr_fn()));
    }
    while i < ps.len()
        invariant
            i <= ps.len(),
            base == views_of(ps@),
            base.len() == ps@.len(),
            views_of(r@) =~= base.subrange(0, i as int).map_values(strip_cr_fn()),
        decreases ps.len() - i,
    {
        let ghost prev = r@;
        let p: &String = &ps[i];
        let n = p.as_str().unicode_len();
        if n > 0 && p.as_str().get_char(n - 1) == '\r' {
            r.push(p.as_str().substring_char(0, n - 1).to_owned());
            proof {
                assert(r@ =~= prev.push(r@[prev.len() as int]));
                assert(r@[prev.len() as int]@ == strip_cr(base[i as int]));
                crate::text::lemma_views_push(prev, r@[prev.len() as int]);
                crate::text::lemma_map_push(base.subrange(0, i as int), strip_cr_fn(), base[i as int]);
                assert(base.subrange(0, i + 1) =~= base.subrange(0, i as int).push(base[i as int]));
                assert(views_of(r@) =~= base.subrange(0, i + 1).map_values(strip_cr_fn()));
            }
        } else {
            r.push(p.clone());
            proof {
                assert(r@ =~= prev.push(r@[prev.len() as int]));
                assert(r@[prev.len() as int]@ == strip_cr(base[i as int]));
                crate::text::lemma_views_push(prev, r@[prev.len() as int]);
                crate::text::lemma_map_push(base.subrange(0, i as int), strip_cr_fn(), base[i as int]);
                assert(base.subrange(0, i + 1) =~= base.subrange(0, i as int).push(base[i as int]));
                assert(views_of(r@) =~= base.subrange(0, i + 1).map_values(strip_cr_fn()));
            }
        }
        i = i + 1;
    }
    proof {
        assert(base.subrange(0, base.len() as int) =~= base);
    }
    r
}

/// Whether a line takes part in parsing.
fn is_definition_line(l: &str) -> (r: bool)
    ensures
        r == keep_definition_line(l@),
{
    !l.is_empty() && !(starts_with(l, "boolFalse") || starts_with(l, "boolTrue") || starts_with(
        l,
        "true",
    ) || starts_with(l, "error") || starts_with(l, "vector") || starts_with(l, "null"))
}

/// Keeps the lines that take part in parsing.
fn filter_definition_lines(ls: Vec<String>) -> (r: Vec<String>)
    ensures
        views_of(r@) == views_of(ls@).filter(keep_def_pred()),
{
    let ghost lv = views_of(ls@);
    let mut r: Vec<String> = Vec::new();
    let mut i: usize = 0;
    proof {
        assert(lv.subrange(0, 0).filter(keep_def_pred()) =~= Seq::<Seq<char>>::empty()) by {
            reveal_with_fuel(Seq::filter, 2);
        }
        assert(views_of(r@) =~= Seq::<Seq<char>>::empty());
    }
    while i < ls.len()
        invariant
            i <= ls.len(),
            lv == views_of(ls@),
            lv.len() == ls@.len(),
            views_of(r@) =~= lv.subrange(0, i as int).filter(keep_def_pred()),
        decreases ls.len() - i,
    {
        proof {
            lv.subrange(0, i as int).lemma_filter_push(lv[i as int], keep_def_pred());
            assert(lv.subrange(0, i + 1) =~= lv.subrange(0, i as int).push(lv[i as int]));
        }
        if is_definition_line(ls[i].as_str()) {
            r.push(ls[i].clone());
        }
        proof {
            assert(views_of(r@) =~= lv.subrange(0, i + 1).filter(keep_def_pred()));
        }
        i = i + 1;
    }
    proof {
        assert(lv.subrange(0, lv.len() as int) =~= lv);
    }
    r
}

/// Keeps the lines that survive the section cleanup.
fn filter_section_lines(ls: Vec<String>) -> (r: Vec<String>)
    ensures
        views_of(r@) == views_of(ls@).filter(keep_sec_pred()),
{
    let ghost lv = views_of(ls@);
    let mut r: Vec<String> = Vec::new();
    let mut i: usize = 0;
    proof {
        assert(lv.subrange(0, 0).filter(keep_sec_pred()) =~= Seq::<Seq<char>>::empty()) by {
            reveal_with_fuel(Seq::filter, 2);
        }
        assert(views_of(r@) =~= Seq::<Seq<char>>::empty());
    }
    while i < ls.len()
        invariant
            i <= ls.len(),
            lv == views_of(ls@),
            lv.len() == ls@.len(),
            views_of(r@) =~= lv.subrange(0, i as int).filter(keep_sec_pred()),
        decreases ls.len() - i,
    {
        proof {
            lv.subrange(0, i as int).lemma_filter_push(lv[i as int], keep_sec_pred());
            assert(lv.subrange(0, i + 1) =~= lv.subrange(0, i as int).push(lv[i as int]));
        }
        let comment = starts_with(ls[i].as_str(), "//");
        let types_marker = str_eq(trim(ls[i].as_str()).as_str(), "---types---");
        if !comment && !types_marker {
            r.push(ls[i].clone());
        }
        proof {
            assert(views_of(r@) =~= lv.subrange(0, i + 1).filter(keep_sec_pred()));
        }
        i = i + 1;
    }
    proof {
        assert(lv.subrange(0, lv.len() as int) =~= lv);
    }
    r
}

/// Copies the lines with indices `from..to`.
fn copy_range(ls: &Vec<String>, from: usize, to: usize) -> (r: Vec<String>)
    requires
        from <= to <= ls@.len(),
    ensures
        views_of(r@) == views_of(ls@).subrange(from as int, to as int),
{
    let ghost lv = views_of(ls@);
    let mut r: Vec<String> = Vec::new();
    let mut i = from;
    proof {
        assert(views_of(r@) =~= lv.subrange(from as int, from as int));
    }
    while i < to
        invariant
            from <= i <= to <= ls@.len(),
            lv == views_of(ls@),
            lv.len() == ls@.len(),
            views_of(r@) =~= lv.subrange(from as int, i as int),
        decreases to - i,
    {
        let ghost prev = r@;
        r.push(ls[i].clone());
        proof {
            assert(r@ =~= prev.push(r@[prev.len() as int]));
            assert(r@[prev.len() as int]@ == lv[i as int]);
            crate::text::lemma_views_push(prev, r@[prev.len() as int]);
            assert(lv.subrange(from as int, i + 1) =~= lv.subrange(from as int, i as int).push(
                lv[i as int],
            ));
            assert(views_of(r@) =~= lv.subrange(from as int, i + 1));
        }
        i = i + 1;
    }
    r
}

/// Discards the legacy prelude up to and including the main-API boundary
/// marker, when the marker is present.
fn cut_api_section(ls: Vec<String>) -> (r: Vec<String>)
    ensures
        views_of(r@) == api_cut(views_of(ls@)),
{
    let ghost lv = views_of(ls@);
    let mut i: usize = 0;
    while i < ls.len()
        invariant
            i <= ls.len(),
            lv == views_of(ls@),
            lv.len() == ls@.len(),
            forall|j: int| 0 <= j < i ==> !api_pred()(lv[j]),
        decreases ls.len() - i,
    {
        if str_eq(trim(ls[i].as_str()).as_str(), "///////// Main application API") {
            proof {
                lemma_find_where_at(lv, api_pred(), i as int);
            }
            return copy_range(&ls, i + 1, ls.len());
        }
        i = i + 1;
    }
    proof {
        lemma_find_where_at(lv, api_pred(), lv.len() as int);
    }
    ls
}

/// Splits the cleaned lines into the object section and the function
/// section at the functions marker.
fn split_function_sections(ls: Vec<String>) -> (r: (Vec<String>, Vec<String>))
    ensures
        views_of(r.0@) == split_sections(views_of(ls@)).0,
        views_of(r.1@) == split_sections(views_of(ls@)).1,
{
    let ghost lv = views_of(ls@);
    let mut i: usize = 0;
    while i < ls.len()
        invariant
            i <= ls.len(),
            lv == views_of(ls@),
            lv.len() == ls@.len(),
            forall|j: int| 0 <= j < i ==> !functions_pred()(lv[j]),
        decreases ls.len() - i,
    {
        if str_eq(trim(ls[i].as_str()).as_str(), "---functions---") {
            proof {
                lemma_find_where_at(lv, functions_pred(), i as int);
            }
            let head = copy_range(&ls, 0, i);
            let tail = copy_range(&ls, i + 1, ls.len());
            return (head, tail);
        }
        i = i + 1;
    }
    proof {
        lemma_find_where_at(lv, functions_pred(), lv.len() as int);
        assert(views_of(Seq::<String>::empty()) =~= Seq::<Seq<char>>::empty());
    }
    (ls, Vec::new())
}

/// Appending a bucket appends its view.
pub proof fn lemma_bucket_views_push(v: Seq<(String, Vec<TlFunction>)>, x: (String, Vec<TlFunction>))
    ensures
        bucket_views(v.push(x)) =~= bucket_views(v).push((x.0@, func_views(x.1@))),
{
    assert forall|k: int| 0 <= k < v.len() + 1 implies bucket_views(v.push(x))[k] == bucket_views(
        v,
    ).push((x.0@, func_views(x.1@)))[k] by {
        if k < v.len() {
            assert(bucket_views(v.push(x))[k] == (v.push(x)[k].0@, func_views(v.push(x)[k].1@)));
            assert(v.push(x)[k] == v[k]);
            assert(bucket_views(v)[k] == (v[k].0@, func_views(v[k].1@)));
        } else {
            assert(bucket_views(v.push(x))[k] == (x.0@, func_views(x.1@)));
        }
    }
}

/// Reads one object line into its category and constructor.
fn parse_object_line(l: &str) -> (r: Option<(String, TlConstructor)>)
    ensures
        match r {
            Some(e) => object_line_entry(l@) == Some((e.0@, e.1@)),
            None => object_line_entry(l@) is None,
        },
{
    if l.is_empty() {
        return None;
    }
    let pieces = split_char(l, '=');
    if pieces.len() < 2 {
        return None;
    }
    let category = remove_char(trim(pieces[1].as_str()).as_str(), ';');
    let def: &String = &pieces[0];
    let n = def.as_str().unicode_len();
    let ghost dv = def@;
    let (name, ptext) = match find_char_from(def.as_str(), '#', 0) {
        Some(i) => {
            proof {
                lemma_find_idx_at(dv, '#', i as int);
            }
            (
                trim(def.as_str().substring_char(0, i)),
                def.as_str().substring_char(i + 1, n).to_owned(),
            )
        },
        None => {
            proof {
                lemma_find_idx_at(dv, '#', dv.len() as int);
            }
            (trim(def.as_str()), String::new())
        },
    };
    let parsed = parse_parameter(ptext.as_str());
    let nps = split_char(name.as_str(), '.');
    let namespace = if nps.len() == 2 {
        Some(nps[0].clone())
    } else {
        None
    };
    let ctor = TlConstructor { id: parsed.0, name, parameters: parsed.1, namespace };
    proof {
        assert(object_line_entry(l@) == Some((category@, ctor@)));
    }
    Some((category, ctor))
}

/// Reads one function line into its namespace key and function.
fn parse_function_line(l: &str) -> (r: Option<(String, TlFunction)>)
    ensures
        match r {
            Some(e) => function_line_entry(l@) == Some((e.0@, e.1@)),
            None => function_line_entry(l@) is None,
        },
{
    if l.is_empty() {
        return None;
    }
    let pieces = split_char(l, '=');
    if pieces.len() < 2 {
        return None;
    }
    let return_type = remove_char(trim(pieces[1].as_str()).as_str(), ';');
    let inner_return_type = crate::tl::tl_parameter::extract_inner(return_type.as_str());
    let def: &String = &pieces[0];
    let n = def.as_str().unicode_len();
    let ghost dv = def@;
    let (name, ptext) = match find_char_from(def.as_str(), '#', 0) {
        Some(i) => {
            proof {
                lemma_find_idx_at(dv, '#', i as int);
            }
            (
                trim(def.as_str().substring_char(0, i)),
                def.as_str().substring_char(i + 1, n).to_owned(),
            )
        },
        None => {
            proof {
                lemma_find_idx_at(dv, '#', dv.len() as int);
            }
            (trim(def.as_str()), String::new())
        },
    };
    let parsed = parse_parameter(ptext.as_str());
    let nps = split_char(name.as_str(), '.');
    let key = if nps.len() == 2 {
        nps[0].clone()
    } else {
        name.clone()
    };
    let f = TlFunction {
        id: parsed.0,
        name,
        parameters: parsed.1,
        return_type,
        inner_return_type,
    };
    proof {
        assert(function_line_entry(l@) == Some((key@, f@)));
    }
    Some((key, f))
}

/// A matched key at `j` with none before it pins the upsert down to an
/// update of the group at `j`.
pub proof fn lemma_group_upsert_at(gs: Seq<GroupV>, cat: Seq<char>, c: CtorV, j: int)
    requires
        0 <= j < gs.len(),
        gs[j].name == cat,
        forall|k: int| 0 <= k < j ==> gs[k].name != cat,
    ensures
        group_upsert(gs, cat, c) =~= gs.update(
            j,
            GroupV { name: cat, constructors: gs[j].constructors.push(c) },
        ),
    decreases gs.len(),
{
    if j == 0 {
        assert(group_upsert(gs, cat, c) =~= gs.update(
            0,
            GroupV { name: cat, constructors: gs[0].constructors.push(c) },
        ));
    } else {
        let tail = gs.subrange(1, gs.len() as int);
        lemma_group_upsert_at(tail, cat, c, j - 1);
        assert(seq![gs[0]] + tail.update(
            j - 1,
            GroupV { name: cat, constructors: tail[j - 1].constructors.push(c) },
        ) =~= gs.update(j, GroupV { name: cat, constructors: gs[j].constructors.push(c) }));
    }
}

/// An unseen key appends a fresh group at the end.
pub proof fn lemma_group_upsert_new(gs: Seq<GroupV>, cat: Seq<char>, c: CtorV)
    requires
        forall|k: int| 0 <= k < gs.len() ==> gs[k].name != cat,
    ensures
        group_upsert(gs, cat, c) =~= gs.push(GroupV { name: cat, constructors: seq![c] }),
    decreases gs.len(),
{
    if gs.len() > 0 {
        let tail = gs.subrange(1, gs.len() as int);
        lemma_group_upsert_new(tail, cat, c);
        assert(seq![gs[0]] + tail.push(GroupV { name: cat, constructors: seq![c] }) =~= gs.push(
            GroupV { name: cat, constructors: seq![c] },
        ));
    }
}

/// A matched key at `j` with none before it pins the upsert down to an
/// update of the bucket at `j`.
pub proof fn lemma_bucket_upsert_at(
    bs: Seq<(Seq<char>, Seq<FuncV>)>,
    key: Seq<char>,
    f: FuncV,
    j: int,
)
    requires
        0 <= j < bs.len(),
        bs[j].0 == key,
        forall|k: int| 0 <= k < j ==> bs[k].0 != key,
    ensures
        bucket_upsert(bs, key, f) =~= bs.update(j, (key, bs[j].1.push(f))),
    decreases bs.len(),
{
    if j == 0 {
        assert(bucket_upsert(bs, key, f) =~= bs.update(0, (key, bs[0].1.push(f))));
    } else {
        let tail = bs.subrange(1, bs.len() as int);
        lemma_bucket_upsert_at(tail, key, f, j - 1);
        assert(seq![bs[0]] + tail.update(j - 1, (key, tail[j - 1].1.push(f))) =~= bs.update(
            j,
            (key, bs[j].1.push(f)),
        ));
    }
}

/// An unseen key appends a fresh bucket at the end.
pub proof fn lemma_bucket_upsert_new(bs: Seq<(Seq<char>, Seq<FuncV>)>, key: Seq<char>, f: FuncV)
    requires
        forall|k: int| 0 <= k < bs.len() ==> bs[k].0 != key,
    ensures
        bucket_upsert(bs, key, f) =~= bs.push((key, seq![f])),
    decreases bs.len(),
{
    if bs.len() > 0 {
        let tail = bs.subrange(1, bs.len() as int);
        lemma_bucket_upsert_new(tail, key, f);
        assert(seq![bs[0]] + tail.push((key, seq![f])) =~= bs.push((key, seq![f])));
    }
}

/// Finds the group of a category, scanning in first-seen order.
fn find_group(groups: &Vec<TlType>, cat: &str) -> (r: Option<usize>)
    ensures
        match r {
            Some(j) => j < groups@.len() && group_views(groups@)[j as int].name == cat@ && forall|
                k: int,
            |
                0 <= k < j ==> group_views(groups@)[k].name != cat@,
            None => forall|k: int| 0 <= k < groups@.len() ==> group_views(groups@)[k].name != cat@,
        },
{
    let mut j: usize = 0;
    while j < groups.len()
        invariant
            j <= groups@.len(),
            forall|k: int| 0 <= k < j ==> group_views(groups@)[k].name != cat@,
        decreases groups.len() - j,
    {
        let hit = str_eq(groups[j].name.as_str(), cat);
        proof {
            assert(group_views(groups@)[j as int].name == groups@[j as int].name@);
        }
        if hit {
            return Some(j);
        }
        j = j + 1;
    }
    None
}

/// Groups the object-section lines into type groups, keeping first-seen
/// category order and line order within each group.
pub fn parse_objects(lines: &Vec<String>) -> (r: Vec<TlType>)
    ensures
        group_views(r@) == groups_of_lines(views_of(lines@)),
{
    let ghost lv = views_of(lines@);
    let mut groups: Vec<TlType> = Vec::new();
    let mut i: usize = 0;
    proof {
        assert(group_views(groups@) =~= groups_of_lines(lv.subrange(0, 0)));
    }
    while i < lines.len()
        invariant
            i <= lines.len(),
            lv == views_of(lines@),
            lv.len() == lines@.len(),
            group_views(groups@) =~= groups_of_lines(lv.subrange(0, i as int)),
        decreases lines.len() - i,
    {
        proof {
            assert(lv.subrange(0, i + 1).drop_last() =~= lv.subrange(0, i as int));
            assert(lv.subrange(0, i + 1).last() == lv[i as int]);
            assert(lv[i as int] == lines@[i as int]@);
        }
        let ghost gv = group_views(groups@);
        match parse_object_line(lines[i].as_str()) {
            None => {
                proof {
                    assert(groups_of_lines(lv.subrange(0, i + 1)) =~= groups_of_lines(
                        lv.subrange(0, i as int),
                    ));
                }
            },
            Some(e) => {
                let (cat, ctor) = e;
                match find_group(&groups, cat.as_str()) {
                    Some(j) => {
                        proof {
                            lemma_group_upsert_at(gv, cat@, ctor@, j as int);
                        }
                        let ghost before = groups@;
                        let mut g = groups.remove(j);
                        let ghost csv = g.constructors@;
                        proof {
                            crate::tl::tl_constructor::lemma_ctor_views_push(csv, ctor);
                        }
                        g.constructors.push(ctor);
                        groups.insert(j, g);
                        proof {
                            assert(groups@ =~= before.update(j as int, groups@[j as int]));
                            assert(group_views(groups@) =~= gv.update(
                                j as int,
                                GroupV {
                                    name: cat@,
                                    constructors: gv[j as int].constructors.push(ctor@),
                                },
                            ));
                        }
                    },
                    None => {
                        proof {
                            lemma_group_upsert_new(gv, cat@, ctor@);
                        }
                        let mut cs: Vec<TlConstructor> = Vec::new();
                        cs.push(ctor);
                        let g = TlType { name: cat, constructors: cs };
                        proof {
                            crate::tl::tl_type::lemma_group_views_push(groups@, g);
                            assert(g@.constructors =~= seq![g.constructors@[0]@]);
                        }
                        groups.push(g);
                        proof {
                            assert(group_views(groups@) =~= gv.push(
                                GroupV { name: cat@, constructors: seq![ctor@] },
                            ));
                        }
                    },
                }
                proof {
                    assert(group_views(groups@) =~= group_upsert(gv, cat@, ctor@));
                    assert(groups_of_lines(lv.subrange(0, i + 1)) =~= group_upsert(
                        groups_of_lines(lv.subrange(0, i as int)),
                        cat@,
                        ctor@,
                    ));
                }
            },
        }
        i = i + 1;
    }
    proof {
        assert(lv.subrange(0, lv.len() as int) =~= lv);
    }
    groups
}

/// Finds the bucket of a namespace key, scanning in first-seen order.
fn find_bucket(buckets: &Vec<(String, Vec<TlFunction>)>, key: &str) -> (r: Option<usize>)
    ensures
        match r {
            Some(j) => j < buckets@.len() && bucket_views(buckets@)[j as int].0 == key@ && forall|
                k: int,
            |
                0 <= k < j ==> bucket_views(buckets@)[k].0 != key@,
            None => forall|k: int| 0 <= k < buckets@.len() ==> bucket_views(buckets@)[k].0 != key@,
        },
{
    let mut j: usize = 0;
    while j < buckets.len()
        invariant
            j <= buckets@.len(),
            forall|k: int| 0 <= k < j ==> bucket_views(buckets@)[k].0 != key@,
        decreases buckets.len() - j,
    {
        let hit = str_eq(buckets[j].0.as_str(), key);
        proof {
            assert(bucket_views(buckets@)[j as int].0 == buckets@[j as int].0@);
        }
        if hit {
            return Some(j);
        }
        j = j + 1;
    }
    None
}

/// Groups the function-section lines into namespace buckets, then moves
/// each lone function into the reserved `Others` bucket.
pub fn parse_functions(lines: &Vec<String>) -> (r: Vec<(String, Vec<TlFunction>)>)
    ensures
        bucket_views(r@) == finalize_buckets(buckets_of_lines(views_of(lines@))),
{
    let ghost lv = views_of(lines@);
    let mut buckets: Vec<(String, Vec<TlFunction>)> = Vec::new();
    let mut i: usize = 0;
    proof {
        assert(bucket_views(buckets@) =~= buckets_of_lines(lv.subrange(0, 0)));
    }
    while i < lines.len()
        invariant
            i <= lines.len(),
            lv == views_of(lines@),
            lv.len() == lines@.len(),
            bucket_views(buckets@) =~= buckets_of_lines(lv.subrange(0, i as int)),
        decreases lines.len() - i,
    {
        proof {
            assert(lv.subrange(0, i + 1).drop_last() =~= lv.subrange(0, i as int));
            assert(lv.subrange(0, i + 1).last() == lv[i as int]);
            assert(lv[i as int] == lines@[i as int]@);
        }
        let ghost bv = bucket_views(buckets@);
        match parse_function_line(lines[i].as_str()) {
            None => {
                proof {
                    assert(buckets_of_lines(lv.subrange(0, i + 1)) =~= buckets_of_lines(
                        lv.subrange(0, i as int),
                    ));
                }
            },
            Some(e) => {
                let (key, f) = e;
                match find_bucket(&buckets, key.as_str()) {
                    Some(j) => {
                        proof {
                            lemma_bucket_upsert_at(bv, key@, f@, j as int);
                        }
                        let ghost before = buckets@;
                        let mut b = buckets.remove(j);
                        let ghost fsv = b.1@;
                        proof {
                            crate::tl::tl_function::lemma_func_views_push(fsv, f);
                        }
                        b.1.push(f);
                        buckets.insert(j, b);
                        proof {
                            assert(buckets@ =~= before.update(j as int, buckets@[j as int]));
                            assert(bucket_views(buckets@) =~= bv.update(
                                j as int,
                                (key@, bv[j as int].1.push(f@)),
                            ));
                        }
                    },
                    None => {
                        proof {
                            lemma_bucket_upsert_new(bv, key@, f@);
                        }
                        let mut fs: Vec<TlFunction> = Vec::new();
                        fs.push(f);
                        let b = (key, fs);
                        proof {
                            lemma_bucket_views_push(buckets@, b);
                            assert(func_views(b.1@) =~= seq![b.1@[0]@]);
                        }
                        buckets.push(b);
                        proof {
                            assert(bucket_views(buckets@) =~= bv.push((key@, seq![f@])));
                        }
                    },
                }
                proof {
                    assert(bucket_views(buckets@) =~= bucket_upsert(bv, key@, f@));
                    assert(buckets_of_lines(lv.subrange(0, i + 1)) =~= bucket_upsert(
                        buckets_of_lines(lv.subrange(0, i as int)),
                        key@,
                        f@,
                    ));
                }
            },
        }
        i = i + 1;
    }
    proof {
        assert(lv.subrange(0, lv.len() as int) =~= lv);
    }
    finalize_bucket_list(buckets)
}

/// Moves every bucket's lone function into the reserved `Others` bucket.
fn finalize_bucket_list(buckets: Vec<(String, Vec<TlFunction>)>) -> (r: Vec<
    (String, Vec<TlFunction>),
>)
    ensures
        bucket_views(r@) == finalize_buckets(bucket_views(buckets@)),
{
    let ghost bv = bucket_views(buckets@);
    let mut multi: Vec<(String, Vec<TlFunction>)> = Vec::new();
    let mut singles: Vec<TlFunction> = Vec::new();
    let mut i: usize = 0;
    proof {
        assert(bv.subrange(0, 0).filter(multi_pred()) =~= Seq::<(Seq<char>, Seq<FuncV>)>::empty())
            by {
            reveal_with_fuel(Seq::filter, 2);
        }
        assert(bv.subrange(0, 0).filter(single_pred()) =~= Seq::<(Seq<char>, Seq<FuncV>)>::empty())
            by {
            reveal_with_fuel(Seq::filter, 2);
        }
        assert(bucket_views(multi@) =~= bv.subrange(0, 0).filter(multi_pred()));
        assert(func_views(singles@) =~= bv.subrange(0, 0).filter(single_pred()).map_values(
            head_fn(),
        ));
    }
    while i < buckets.len()
        invariant
            i <= buckets.len(),
            bv == bucket_views(buckets@),
            bv.len() == buckets@.len(),
            bucket_views(multi@) =~= bv.subrange(0, i as int).filter(multi_pred()),
            func_views(singles@) =~= bv.subrange(0, i as int).filter(single_pred()).map_values(
                head_fn(),
            ),
        decreases buckets.len() - i,
    {
        proof {
            bv.subrange(0, i as int).lemma_filter_push(bv[i as int], multi_pred());
            bv.subrange(0, i as int).lemma_filter_push(bv[i as int], single_pred());
            assert(bv.subrange(0, i + 1) =~= bv.subrange(0, i as int).push(bv[i as int]));
            assert(bv[i as int] == (buckets@[i as int].0@, func_views(buckets@[i as int].1@)));
        }
        if buckets[i].1.len() == 1 {
            let ghost sprev = singles@;
            let g = buckets[i].1[0].clone();
            proof {
                crate::tl::tl_function::lemma_func_views_push(sprev, g);
                crate::text::lemma_map_push(
                    bv.subrange(0, i as int).filter(single_pred()),
                    head_fn(),
                    bv[i as int],
                );
                assert(g@ == head_fn()(bv[i as int]));
            }
            singles.push(g);
            proof {
                assert(func_views(singles@) =~= bv.subrange(0, i + 1).filter(
                    single_pred(),
                ).map_values(head_fn()));
                assert(bucket_views(multi@) =~= bv.subrange(0, i + 1).filter(multi_pred()));
            }
        } else {
            let ghost mprev = multi@;
            let b = (buckets[i].0.clone(), clone_funcs(&buckets[i].1));
            proof {
                lemma_bucket_views_push(mprev, b);
                assert((b.0@, func_views(b.1@)) == bv[i as int]);
            }
            multi.push(b);
            proof {
                assert(bucket_views(multi@) =~= bv.subrange(0, i + 1).filter(multi_pred()));
                assert(func_views(singles@) =~= bv.subrange(0, i + 1).filter(
                    single_pred(),
                ).map_values(head_fn()));
            }
        }
        i = i + 1;
    }
    proof {
        assert(bv.subrange(0, bv.len() as int) =~= bv);
    }
    let ghost mv = bucket_views(multi@);
    let ghost sg = crate::tl::tl_function::func_views(singles@);
    let mut j: usize = 0;
    while j < multi.len()
        invariant
            j <= multi.len(),
            mv == bucket_views(multi@),
            mv.len() == multi@.len(),
            bv == bucket_views(buckets@),
            mv =~= bv.filter(multi_pred()),
            sg == crate::tl::tl_function::func_views(singles@),
            sg =~= bv.filter(single_pred()).map_values(head_fn()),
            forall|k: int| 0 <= k < j ==> !others_key_pred()(mv[k]),
        decreases multi.len() - j,
    {
        let hit = str_eq(multi[j].0.as_str(), "Others");
        proof {
            assert(mv[j as int].0 == multi@[j as int].0@);
        }
        if hit {
            proof {
                lemma_find_where_at(mv, others_key_pred(), j as int);
            }
            // the gathered lone functions join the surviving bucket
            let ghost before = multi@;
            let mut b = multi.remove(j);
            let ghost b1v = b.1@;
            let mut s2 = singles;
            b.1.append(&mut s2);
            proof {
                assert(b.1@ =~= b1v + singles@);
                assert forall|t: int| 0 <= t < b.1@.len() implies
                    crate::tl::tl_function::func_views(b.1@)[t] == (crate::tl::tl_function::func_views(
                    b1v,
                ) + sg)[t] by {
                    assert(crate::tl::tl_function::func_views(b.1@)[t] == b.1@[t]@);
                    if t < b1v.len() {
                        assert(b.1@[t] == b1v[t]);
                        assert(crate::tl::tl_function::func_views(b1v)[t] == b1v[t]@);
                    } else {
                        assert(b.1@[t] == singles@[t - b1v.len()]);
                        assert(crate::tl::tl_function::func_views(singles@)[t - b1v.len()]
                            == singles@[t - b1v.len()]@);
                    }
                }
                assert(crate::tl::tl_function::func_views(b.1@)
                    =~= crate::tl::tl_function::func_views(b1v) + sg);
                assert(crate::tl::tl_function::func_views(b1v) == mv[j as int].1);
            }
            multi.insert(j, b);
            proof {
                assert(multi@ =~= before.update(j as int, multi@[j as int]));
                assert(multi@[j as int].0@ == "Others"@);
                assert forall|t: int| 0 <= t < multi@.len() implies bucket_views(multi@)[t]
                    == mv.update(j as int, ("Others"@, mv[j as int].1 + sg))[t] by {
                    assert(bucket_views(multi@)[t] == (multi@[t].0@,
                    crate::tl::tl_function::func_views(multi@[t].1@)));
                    if t != j {
                        assert(multi@[t] == before[t]);
                        assert(bucket_views(before)[t] == (before[t].0@,
                        crate::tl::tl_function::func_views(before[t].1@)));
                    }
                }
                assert(bucket_views(multi@) =~= mv.update(
                    j as int,
                    ("Others"@, mv[j as int].1 + sg),
                ));
                assert(bucket_views(multi@) =~= finalize_buckets(bv));
            }
            return multi;
        }
        j = j + 1;
    }
    let others = ("Others".to_owned(), singles);
    proof {
        lemma_bucket_views_push(multi@, others);
        lemma_find_where_at(mv, others_key_pred(), mv.len() as int);
    }
    multi.push(others);
    proof {
        assert(bucket_views(multi@) =~= finalize_buckets(bv));
    }
    multi
}

/// Parses one raw layer into its structured catalogue. Total: malformed
/// lines describe nothing and are skipped.
pub fn parse_schema(layer: TlLayer) -> (r: TlSchema)
    ensures
        r@.layer_id == layer@.layer_id,
        r@.release_date == layer.release_date,
        r@.objects == spec_parse_schema(layer@.layer).0,
        r@.functions == spec_parse_schema(layer@.layer).1,
{
    let ls = lines(layer.layer.as_str());
    let kept = filter_definition_lines(ls);
    let cut = cut_api_section(kept);
    let cleaned = filter_section_lines(cut);
    let sections = split_function_sections(cleaned);
    let objects = parse_objects(&sections.0);
    let functions = parse_functions(&sections.1);
    TlSchema {
        layer_id: layer.layer_id,
        release_date: layer.release_date,
        objects,
        functions,
    }
}

} // verus!
