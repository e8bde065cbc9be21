//! Parameters of constructors and functions, and the parameter-text grammar.
//!
//! A definition's parameter text is `id name1:type1 name2:type2 ...`: the
//! first whitespace-delimited token is the combinator id, every further token
//! is a `name:type` pair. A type of `#` marks the bit-flags register itself;
//! `!X` marks a generic type parameter; `flags.<offset>?<type>` marks an
//! optional field present only when the named bit is set; a bracketed
//! `Container<Inner>` records `Inner` as the inner type.

use vstd::prelude::*;
use vstd::string::StrSliceExecFns;
use crate::models::responses::{Diff, DiffV, diff_views};
use crate::text::{
    find_char_from, find_idx, has_prefix, lemma_find_idx_at, lemma_rfind_idx_at, rfind_char,
    rfind_idx, split_char, split_on, split_whitespace, split_ws, starts_with, str_eq, view_opt,
    views_of,
};

verus! {

/// A parameter of a constructor or function definition.
#[derive(Debug, PartialEq)]
pub struct TlParameter {
    pub name: String,
    pub _type: String,
    pub flag_name: Option<String>,
    pub flag_offset: Option<String>,
    pub inner_type: Option<String>,
    pub is_generic: bool,
    pub is_optional: bool,
    pub is_flag_placeholder: bool,
}

/// The spec-level value of a `TlParameter`.
pub struct ParamV {
    pub name: Seq<char>,
    pub _type: Seq<char>,
    pub flag_name: Option<Seq<char>>,
    pub flag_offset: Option<Seq<char>>,
    pub inner_type: Option<Seq<char>>,
    pub is_generic: bool,
    pub is_optional: bool,
    pub is_flag_placeholder: bool,
}

impl View for TlParameter {
    type V = ParamV;

    open spec fn view(&self) -> ParamV {
        ParamV {
            name: self.name@,
            _type: self._type@,
            flag_name: view_opt(self.flag_name),
            flag_offset: view_opt(self.flag_offset),
            inner_type: view_opt(self.inner_type),
            is_generic: self.is_generic,
            is_optional: self.is_optional,
            is_flag_placeholder: self.is_flag_placeholder,
        }
    }
}

/// The views of a sequence of parameters.
pub open spec fn param_views(s: Seq<TlParameter>) -> Seq<ParamV> {
    s.map_values(|p: TlParameter| p@)
}

/// The inner type of a bracketed type text: the characters between the last
/// `<` and the `>` that follows it (or the end of the text), if a `<` occurs.
pub open spec fn inner_of(ty: Seq<char>) -> Option<Seq<char>> {
    match rfind_idx(ty, '<') {
        None => None,
        Some(i) => {
            let rest = ty.subrange(i + 1, ty.len() as int);
            match find_idx(rest, '>') {
                None => Some(rest),
                Some(j) => Some(rest.subrange(0, j)),
            }
        },
    }
}

/// The bit-flags register placeholder parameter: only the name is recorded.
pub open spec fn flag_placeholder_v(name: Seq<char>) -> ParamV {
    ParamV {
        name,
        _type: Seq::<char>::empty(),
        flag_name: None,
        flag_offset: None,
        inner_type: None,
        is_generic: false,
        is_optional: false,
        is_flag_placeholder: true,
    }
}

/// A generic (`!X`) type parameter: distinct from the `#` flag-register
/// placeholder, so the placeholder flag stays off.
pub open spec fn generic_v(name: Seq<char>) -> ParamV {
    ParamV {
        name,
        _type: Seq::<char>::empty(),
        flag_name: None,
        flag_offset: None,
        inner_type: None,
        is_generic: true,
        is_optional: false,
        is_flag_placeholder: false,
    }
}

/// Parses one `name:type` token. A token without a `:` does not describe a
/// parameter and yields nothing; any text after a second `:` is ignored.
pub open spec fn token_param(tok: Seq<char>) -> Option<ParamV> {
    let pieces = split_on(tok, ':');
    if pieces.len() < 2 {
        None
    } else {
        let name = pieces[0];
        let ty = pieces[1];
        if ty == "#"@ {
            Some(flag_placeholder_v(name))
        } else if ty == "!X"@ {
            Some(generic_v(name))
        } else if has_prefix(ty, "flags"@) && split_on(ty, '.').len() >= 2 && split_on(
            split_on(ty, '.')[1],
            '?',
        ).len() >= 2 {
            let dot = split_on(ty, '.');
            let q = split_on(dot[1], '?');
            Some(
                ParamV {
                    name,
                    _type: q[1],
                    flag_name: Some(dot[0]),
                    flag_offset: Some(q[0]),
                    inner_type: inner_of(q[1]),
                    is_generic: false,
                    is_optional: true,
                    is_flag_placeholder: false,
                },
            )
        } else {
            Some(
                ParamV {
                    name,
                    _type: ty,
                    flag_name: None,
                    flag_offset: None,
                    inner_type: inner_of(ty),
                    is_generic: false,
                    is_optional: false,
                    is_flag_placeholder: false,
                },
            )
        }
    }
}

/// The parameters described by a list of `name:type` tokens, in order,
/// skipping tokens that describe none.
pub open spec fn params_of_tokens(toks: Seq<Seq<char>>) -> Seq<ParamV>
    decreases toks.len(),
{
    if toks.len() == 0 {
        seq![]
    } else {
        params_of_tokens(toks.drop_last()) + match token_param(toks.last()) {
            Some(p) => seq![p],
            None => seq![],
        }
    }
}

/// Parses a whole parameter text: the first whitespace-delimited token is the
/// combinator id, the remaining tokens are the parameters. Blank text yields
/// an empty id and no parameters.
pub open spec fn spec_parse_parameter(text: Seq<char>) -> (Seq<char>, Seq<ParamV>) {
    let toks = split_ws(text);
    if toks.len() == 0 {
        (Seq::<char>::empty(), seq![])
    } else {
        (toks[0], params_of_tokens(toks.subrange(1, toks.len() as int)))
    }
}

/// Extracts the inner type of a bracketed type text, e.g. the `Inner` of
/// `Container<Inner>`.
pub(crate) fn extract_inner(ty: &str) -> (r: Option<String>)
    ensures
        view_opt(r) == inner_of(ty@),
{
    let n = ty.unicode_len();
    match rfind_char(ty, '<') {
        None => {
            proof {
                lemma_rfind_idx_at(ty@, '<', 0);
            }
            None
        },
        Some(i) => {
            proof {
                lemma_rfind_idx_at(ty@, '<', i + 1);
            }
            let rest = ty.substring_char(i + 1, n);
            match find_char_from(rest, '>', 0) {
                None => {
                    proof {
                        lemma_find_idx_at(rest@, '>', rest@.len() as int);
                    }
                    Some(rest.to_owned())
                },
                Some(j) => {
                    proof {
                        lemma_find_idx_at(rest@, '>', j as int);
                    }
                    Some(rest.substring_char(0, j).to_owned())
                },
            }
        },
    }
}

/// Parses one whitespace-delimited `name:type` token.
fn parse_param_token(tok: &str) -> (r: Option<TlParameter>)
    ensures
        view_opt_param(r) == token_param(tok@),
{
    let pieces = split_char(tok, ':');
    if pieces.len() < 2 {
        return None;
    }
    let name = pieces[0].clone();
    let ty: &String = &pieces[1];
    proof {
        assert(name@ == split_on(tok@, ':')[0]);
        assert(ty@ == split_on(tok@, ':')[1]);
    }
    if str_eq(ty.as_str(), "#") {
        return Some(TlParameter::flag_placeholder(name.as_str()));
    }
    if str_eq(ty.as_str(), "!X") {
        return Some(TlParameter::generic(name.as_str()));
    }
    if starts_with(ty.as_str(), "flags") {
        let dot = split_char(ty.as_str(), '.');
        if dot.len() >= 2 {
            let q = split_char(dot[1].as_str(), '?');
            if q.len() >= 2 {
                let fty = q[1].clone();
                let inner = extract_inner(fty.as_str());
                return Some(
                    TlParameter {
                        name,
                        _type: fty,
                        flag_name: Some(dot[0].clone()),
                        flag_offset: Some(q[0].clone()),
                        inner_type: inner,
                        is_generic: false,
                        is_optional: true,
                        is_flag_placeholder: false,
                    },
                );
            }
        }
    }
    let inner = extract_inner(ty.as_str());
    Some(
        TlParameter {
            name,
            _type: ty.clone(),
            flag_name: None,
            flag_offset: None,
            inner_type: inner,
            is_generic: false,
            is_optional: false,
            is_flag_placeholder: false,
        },
    )
}

/// The view of an optional parameter.
pub open spec fn view_opt_param(o: Option<TlParameter>) -> Option<ParamV> {
    match o {
        Some(p) => Some(p@),
        None => None,
    }
}

/// Parses a parameter text into the combinator id and the parameter list.
pub fn parse_parameter(text: &str) -> (r: (String, Vec<TlParameter>))
    ensures
        r.0@ == spec_parse_parameter(text@).0,
        param_views(r.1@) == spec_parse_parameter(text@).1,
{
    let toks = split_whitespace(text);
    let ghost tv = views_of(toks@);
    if toks.len() == 0 {
        proof {
            assert(param_views(Seq::<TlParameter>::empty()) =~= Seq::<ParamV>::empty());
        }
        return (String::new(), Vec::new());
    }
    let id = toks[0].clone();
    let mut params: Vec<TlParameter> = Vec::new();
    let mut i: usize = 1;
    proof {
        assert(param_views(params@) =~= params_of_tokens(tv.subrange(1, 1)));
    }
    while i < toks.len()
        invariant
            1 <= i <= toks.len(),
            tv == views_of(toks@),
            tv.len() == toks.len(),
            param_views(params@) =~= params_of_tokens(tv.subrange(1, i as int)),
        decreases toks.len() - i,
    {
        let ghost before = tv.subrange(1, i as int);
        let ghost after = tv.subrange(1, i as int + 1);
        proof {
            assert(after.drop_last() =~= before);
            assert(after.last() == tv[i as int]);
            assert(tv[i as int] == toks@[i as int]@);
        }
        match parse_param_token(toks[i].as_str()) {
            Some(p) => {
                proof {
                    assert(param_views(params@.push(p)) =~= param_views(params@) + seq![p@]);
                    assert(params_of_tokens(after) =~= params_of_tokens(before) + seq![p@]);
                }
                params.push(p);
            },
            None => {
                proof {
                    assert(params_of_tokens(after) =~= params_of_tokens(before));
                }
            },
        }
        i = i + 1;
    }
    proof {
        assert(tv.subrange(1, tv.len() as int) =~= tv.subrange(1, i as int));
        assert(id@ == tv[0]);
    }
    (id, params)
}

impl TlParameter {
    /// The parameter standing for the bit-flags register itself.
    pub fn flag_placeholder(flag_name: &str) -> (r: Self)
        ensures
            r@ == flag_placeholder_v(flag_name@),
    {
        Self {
            flag_name: None,
            flag_offset: None,
            is_flag_placeholder: true,
            is_optional: false,
            is_generic: false,
            _type: String::new(),
            name: flag_name.to_owned(),
            inner_type: None,
        }
    }

    /// A generic (`!X`) type parameter.
    pub fn generic(param_name: &str) -> (r: TlParameter)
        ensures
            r@ == generic_v(param_name@),
    {
        Self {
            flag_name: None,
            flag_offset: None,
            is_flag_placeholder: false,
            is_optional: false,
            is_generic: true,
            _type: String::new(),
            name: param_name.to_owned(),
            inner_type: None,
        }
    }
}

/// The text reported for an optional field in a diff: the value, or empty.
pub open spec fn opt_text(o: Option<Seq<char>>) -> Seq<char> {
    match o {
        Some(s) => s,
        None => Seq::<char>::empty(),
    }
}

/// The text reported for a boolean field in a diff.
pub open spec fn bool_text(b: bool) -> Seq<char> {
    if b {
        "true"@
    } else {
        "false"@
    }
}

/// The field-by-field differences between an older parameter `a` and a newer
/// parameter `b`, in a fixed field order; empty exactly when the two agree on
/// every field.
pub open spec fn param_diffs(b: ParamV, a: ParamV) -> Seq<DiffV> {
    (if a.name != b.name {
        seq![DiffV { from: a.name, to: b.name, field_name: "name"@ }]
    } else {
        seq![]
    }) + (if a._type != b._type {
        seq![DiffV { from: a._type, to: b._type, field_name: "_type"@ }]
    } else {
        seq![]
    }) + (if a.inner_type != b.inner_type {
        seq![
            DiffV {
                from: opt_text(a.inner_type),
                to: opt_text(b.inner_type),
                field_name: "inner_type"@,
            },
        ]
    } else {
        seq![]
    }) + (if a.flag_name != b.flag_name {
        seq![
            DiffV { from: opt_text(a.flag_name), to: opt_text(b.flag_name), field_name: "flag_name"@ },
        ]
    } else {
        seq![]
    }) + (if a.flag_offset != b.flag_offset {
        seq![
            DiffV {
                from: opt_text(a.flag_offset),
                to: opt_text(b.flag_offset),
                field_name: "flag_offset"@,
            },
        ]
    } else {
        seq![]
    }) + (if a.is_generic != b.is_generic {
        seq![
            DiffV {
                from: bool_text(a.is_generic),
                to: bool_text(b.is_generic),
                field_name: "is_generic"@,
            },
        ]
    } else {
        seq![]
    }) + (if a.is_optional != b.is_optional {
        seq![
            DiffV {
                from: bool_text(a.is_optional),
                to: bool_text(b.is_optional),
                field_name: "is_optional"@,
            },
        ]
    } else {
        seq![]
    }) + (if a.is_flag_placeholder != b.is_flag_placeholder {
        seq![
            DiffV {
                from: bool_text(a.is_flag_placeholder),
                to: bool_text(b.is_flag_placeholder),
                field_name: "is_flag_placeholder"@,
            },
        ]
    } else {
        seq![]
    })
}

/// Two parameters that agree on every field have no differences.
pub proof fn lemma_equal_params_no_diffs(b: ParamV, a: ParamV)
    requires
        a == b,
    ensures
        param_diffs(b, a).len() == 0,
{
    assert(param_diffs(b, a) =~= Seq::<DiffV>::empty());
}

impl TlParameter {
    /// The field-by-field differences between an older occurrence `a` and a
    /// newer occurrence `b` of a same-named parameter, or nothing when every
    /// field is unchanged.
    #[verifier::rlimit(100)]
    #[verifier::spinoff_prover]
    pub fn diff(b: &Self, a: &Self) -> (r: Option<Vec<Diff>>)
        ensures
            match r {
                Some(ds) => param_diffs(b@, a@).len() > 0 && diff_views(ds@) == param_diffs(
                    b@,
                    a@,
                ),
                None => param_diffs(b@, a@).len() == 0,
            },
    {
        let ghost d1 = if a@.name != b@.name {
            seq![DiffV { from: a@.name, to: b@.name, field_name: "name"@ }]
        } else {
            seq![]
        };
        let ghost d2 = if a@._type != b@._type {
            seq![DiffV { from: a@._type, to: b@._type, field_name: "_type"@ }]
        } else {
            seq![]
        };
        let ghost d3 = if a@.inner_type != b@.inner_type {
            seq![
                DiffV {
                    from: opt_text(a@.inner_type),
                    to: opt_text(b@.inner_type),
                    field_name: "inner_type"@,
                },
            ]
        } else {
            seq![]
        };
        let ghost d4 = if a@.flag_name != b@.flag_name {
            seq![
                DiffV {
                    from: opt_text(a@.flag_name),
                    to: opt_text(b@.flag_name),
                    field_name: "flag_name"@,
                },
            ]
        } else {
            seq![]
        };
        let ghost d5 = if a@.flag_offset != b@.flag_offset {
            seq![
                DiffV {
                    from: opt_text(a@.flag_offset),
                    to: opt_text(b@.flag_offset),
                    field_name: "flag_offset"@,
                },
            ]
        } else {
            seq![]
        };
        let ghost d6 = if a@.is_generic != b@.is_generic {
            seq![
                DiffV {
                    from: bool_text(a@.is_generic),
                    to: bool_text(b@.is_generic),
                    field_name: "is_generic"@,
                },
            ]
        } else {
            seq![]
        };
        let ghost d7 = if a@.is_optional != b@.is_optional {
            seq![
                DiffV {
                    from: bool_text(a@.is_optional),
                    to: bool_text(b@.is_optional),
                    field_name: "is_optional"@,
                },
            ]
        } else {
            seq![]
        };
        let ghost d8 = if a@.is_flag_placeholder != b@.is_flag_placeholder {
            seq![
                DiffV {
                    from: bool_text(a@.is_flag_placeholder),
                    to: bool_text(b@.is_flag_placeholder),
                    field_name: "is_flag_placeholder"@,
                },
            ]
        } else {
            seq![]
        };
        let mut diffs: Vec<Diff> = Vec::new();
        if !(a.name == b.name) {
            diffs.push(Diff { from: a.name.clone(), to: b.name.clone(), field_name: "name" });
        }
        proof {
            assert(diff_views(diffs@) =~= d1);
        }
        if !(a._type == b._type) {
            diffs.push(Diff { from: a._type.clone(), to: b._type.clone(), field_name: "_type" });
        }
        proof {
            assert(diff_views(diffs@) =~= d1 + d2);
        }
        if !opt_eq(&a.inner_type, &b.inner_type) {
            diffs.push(
                Diff {
                    from: opt_or_default(&a.inner_type),
                    to: opt_or_default(&b.inner_type),
                    field_name: "inner_type",
                },
            );
        }
        proof {
            assert(diff_views(diffs@) =~= d1 + d2 + d3);
        }
        if !opt_eq(&a.flag_name, &b.flag_name) {
            diffs.push(
                Diff {
                    from: opt_or_default(&a.flag_name),
                    to: opt_or_default(&b.flag_name),
                    field_name: "flag_name",
                },
            );
        }
        proof {
            assert(diff_views(diffs@) =~= d1 + d2 + d3 + d4);
        }
        if !opt_eq(&a.flag_offset, &b.flag_offset) {
            diffs.push(
                Diff {
                    from: opt_or_default(&a.flag_offset),
                    to: opt_or_default(&b.flag_offset),
                    field_name: "flag_offset",
                },
            );
        }
        proof {
            assert(diff_views(diffs@) =~= d1 + d2 + d3 + d4 + d5);
        }
        if a.is_generic != b.is_generic {
            diffs.push(
                Diff {
                    from: bool_string(a.is_generic),
                    to: bool_string(b.is_generic),
                    field_name: "is_generic",
                },
            );
        }
        proof {
            assert(diff_views(diffs@) =~= d1 + d2 + d3 + d4 + d5 + d6);
        }
        if a.is_optional != b.is_optional {
            diffs.push(
                Diff {
                    from: bool_string(a.is_optional),
                    to: bool_string(b.is_optional),
                    field_name: "is_optional",
                },
            );
        }
        proof {
            assert(diff_views(diffs@) =~= d1 + d2 + d3 + d4 + d5 + d6 + d7);
        }
        if a.is_flag_placeholder != b.is_flag_placeholder {
            diffs.push(
                Diff {
                    from: bool_string(a.is_flag_placeholder),
                    to: bool_string(b.is_flag_placeholder),
                    field_name: "is_flag_placeholder",
                },
            );
        }
        proof {
            assert(diff_views(diffs@) =~= d1 + d2 + d3 + d4 + d5 + d6 + d7 + d8);
            assert(param_diffs(b@, a@) == d1 + d2 + d3 + d4 + d5 + d6 + d7 + d8);
        }
        if diffs.is_empty() {
            None
        } else {
            Some(diffs)
        }
    }
}

/// Whether two optional strings hold the same text.
pub fn opt_eq(x: &Option<String>, y: &Option<String>) -> (r: bool)
    ensures
        r == (view_opt(*x) == view_opt(*y)),
{
    match (x, y) {
        (Some(a), Some(b)) => {
            let r = *a == *b;
            proof {
                assert(view_opt(*x) == Some(a@));
                assert(view_opt(*y) == Some(b@));
                if a@ == b@ {
                    assert(view_opt(*x) == view_opt(*y));
                } else {
                    assert(view_opt(*x) != view_opt(*y));
                }
            }
            r
        },
        (None, None) => true,
        (Some(a), None) => {
            proof {
                assert(view_opt(*x) == Some(a@));
                assert(view_opt(*y) is None);
            }
            false
        },
        (None, Some(b)) => {
            proof {
                assert(view_opt(*x) is None);
                assert(view_opt(*y) == Some(b@));
            }
            false
        },
    }
}

/// The held text of an optional string, or empty text.
pub fn opt_or_default(o: &Option<String>) -> (r: String)
    ensures
        r@ == opt_text(view_opt(*o)),
{
    match o {
        Some(s) => s.clone(),
        None => String::new(),
    }
}

/// The text `"true"` or `"false"`.
pub fn bool_string(v: bool) -> (r: String)
    ensures
        r@ == bool_text(v),
{
    if v {
        "true".to_owned()
    } else {
        "false".to_owned()
    }
}

impl Clone for TlParameter {
    fn clone(&self) -> (r: Self)
        ensures
            r == *self,
    {
        Self {
            name: self.name.clone(),
            _type: self._type.clone(),
            flag_name: clone_opt(&self.flag_name),
            flag_offset: clone_opt(&self.flag_offset),
            inner_type: clone_opt(&self.inner_type),
            is_generic: self.is_generic,
            is_optional: self.is_optional,
            is_flag_placeholder: self.is_flag_placeholder,
        }
    }
}

/// Copies an optional string.
pub fn clone_opt(o: &Option<String>) -> (r: Option<String>)
    ensures
        r == *o,
{
    match o {
        Some(s) => Some(s.clone()),
        None => None,
    }
}

} // verus!
