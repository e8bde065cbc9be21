//! Character-level text primitives shared by the schema grammar.
//!
//! The grammar of the schema language is line- and token-oriented, so every
//! parsing routine reduces to a handful of operations on character sequences:
//! splitting at a separator, trimming whitespace, comparing for equality and
//! prefixes. Each executable function here is specified against a spec
//! function over `Seq<char>`, and the parser modules state their own
//! contracts in terms of those spec functions.

use vstd::prelude::*;
use vstd::string::StrSliceExecFns;
use vstd::string::StringExecFns;

verus! {

/// The whitespace characters the grammar recognises.
pub open spec fn is_space(c: char) -> bool {
    c == ' ' || c == '\t' || c == '\r' || c == '\n'
}

/// The pieces of `s` between occurrences of the separator `c`.
/// Always has at least one piece; a separator at either end or two adjacent
/// separators yield empty pieces, as `str::split` does.
pub open spec fn split_on(s: Seq<char>, c: char) -> Seq<Seq<char>>
    decreases s.len(),
{
    if s.len() == 0 {
        seq![Seq::<char>::empty()]
    } else if s[0] == c {
        seq![Seq::<char>::empty()] + split_on(s.subrange(1, s.len() as int), c)
    } else {
        let rest = split_on(s.subrange(1, s.len() as int), c);
        seq![seq![s[0]] + rest[0]] + rest.subrange(1, rest.len() as int)
    }
}

pub proof fn lemma_split_on_nonempty(s: Seq<char>, c: char)
    ensures
        split_on(s, c).len() >= 1,
    decreases s.len(),
{
    if s.len() > 0 {
        lemma_split_on_nonempty(s.subrange(1, s.len() as int), c);
    }
}

/// Unfolds `split_on` at the first separator: if the characters before
/// index `i` are all different from `c`, the split is the piece up to `i`
/// followed by the split of the remainder (when `s[i] == c`), or the whole
/// of `s` as a single piece (when `i` reaches the end).
pub proof fn lemma_split_on_chunk(s: Seq<char>, c: char, i: int)
    requires
        0 <= i <= s.len(),
        forall|j: int| 0 <= j < i ==> s[j] != c,
    ensures
        i < s.len() && s[i] == c ==> split_on(s, c) =~= seq![s.subrange(0, i)] + split_on(
            s.subrange(i + 1, s.len() as int),
            c,
        ),
        i == s.len() ==> split_on(s, c) =~= seq![s],
    decreases s.len(),
{
    if s.len() == 0 {
        assert(s =~= Seq::<char>::empty());
        assert(split_on(s, c) =~= seq![s]);
    } else if i == 0 {
        if s[0] == c {
            assert(s.subrange(0, 0) =~= Seq::<char>::empty());
        }
    } else {
        let s1 = s.subrange(1, s.len() as int);
        lemma_split_on_chunk(s1, c, i - 1);
        lemma_split_on_nonempty(s1, c);
        if i < s.len() && s[i] == c {
            let rest = split_on(s1, c);
            assert(s1[i - 1] == c);
            assert(rest =~= seq![s1.subrange(0, i - 1)] + split_on(
                s1.subrange(i, s1.len() as int),
                c,
            ));
            assert(seq![s[0]] + rest[0] =~= s.subrange(0, i));
            assert(s1.subrange(i, s1.len() as int) =~= s.subrange(i + 1, s.len() as int));
            assert(rest.subrange(1, rest.len() as int) =~= split_on(
                s.subrange(i + 1, s.len() as int),
                c,
            ));
            assert(split_on(s, c) =~= seq![s.subrange(0, i)] + split_on(
                s.subrange(i + 1, s.len() as int),
                c,
            ));
        } else if i == s.len() {
            let rest = split_on(s1, c);
            assert(rest =~= seq![s1]);
            assert(seq![s[0]] + s1 =~= s);
            assert(split_on(s, c) =~= seq![s]);
        }
    }
}

/// `s` with the leading run of whitespace removed.
pub open spec fn trim_start_spec(s: Seq<char>) -> Seq<char>
    decreases s.len(),
{
    if s.len() > 0 && is_space(s[0]) {
        trim_start_spec(s.subrange(1, s.len() as int))
    } else {
        s
    }
}

/// `s` with the trailing run of whitespace removed.
pub open spec fn trim_end_spec(s: Seq<char>) -> Seq<char>
    decreases s.len(),
{
    if s.len() > 0 && is_space(s[s.len() - 1]) {
        trim_end_spec(s.subrange(0, s.len() - 1))
    } else {
        s
    }
}

/// `s` with whitespace removed from both ends, as `str::trim` does for
/// the grammar's whitespace characters.
pub open spec fn trim_spec(s: Seq<char>) -> Seq<char> {
    trim_end_spec(trim_start_spec(s))
}

pub proof fn lemma_trim_start_at(s: Seq<char>, i: int)
    requires
        0 <= i <= s.len(),
        forall|j: int| 0 <= j < i ==> is_space(s[j]),
        i < s.len() ==> !is_space(s[i]),
    ensures
        trim_start_spec(s) =~= s.subrange(i, s.len() as int),
    decreases s.len(),
{
    if s.len() > 0 && is_space(s[0]) {
        let s1 = s.subrange(1, s.len() as int);
        lemma_trim_start_at(s1, i - 1);
        assert(s1.subrange(i - 1, s1.len() as int) =~= s.subrange(i, s.len() as int));
    } else {
        assert(i == 0);
        assert(s.subrange(0, s.len() as int) =~= s);
    }
}

pub proof fn lemma_trim_end_at(s: Seq<char>, i: int)
    requires
        0 <= i <= s.len(),
        forall|j: int| i <= j < s.len() ==> is_space(s[j]),
        i > 0 ==> !is_space(s[i - 1]),
    ensures
        trim_end_spec(s) =~= s.subrange(0, i),
    decreases s.len(),
{
    if s.len() > 0 && is_space(s[s.len() - 1]) {
        let s1 = s.subrange(0, s.len() - 1);
        lemma_trim_end_at(s1, i);
        assert(s1.subrange(0, i) =~= s.subrange(0, i));
    } else {
        assert(i == s.len());
        assert(s.subrange(0, s.len() as int) =~= s);
    }
}

/// The whitespace-delimited tokens of `s`, as `str::split_whitespace` does
/// for the grammar's whitespace characters: runs of whitespace separate
/// tokens, and no token is empty.
pub open spec fn split_ws(s: Seq<char>) -> Seq<Seq<char>>
    decreases s.len(),
{
    if s.len() == 0 {
        seq![]
    } else if is_space(s[0]) {
        split_ws(s.subrange(1, s.len() as int))
    } else {
        let rest = split_ws(s.subrange(1, s.len() as int));
        if s.len() == 1 || is_space(s[1]) {
            seq![seq![s[0]]] + rest
        } else {
            seq![seq![s[0]] + rest[0]] + rest.subrange(1, rest.len() as int)
        }
    }
}

/// Skipping a leading run of whitespace does not change the tokens.
pub proof fn lemma_split_ws_skip(s: Seq<char>, i: int)
    requires
        0 <= i <= s.len(),
        forall|j: int| 0 <= j < i ==> is_space(s[j]),
    ensures
        split_ws(s) =~= split_ws(s.subrange(i, s.len() as int)),
    decreases i,
{
    if i > 0 {
        let s1 = s.subrange(1, s.len() as int);
        lemma_split_ws_skip(s1, i - 1);
        assert(s1.subrange(i - 1, s1.len() as int) =~= s.subrange(i, s.len() as int));
    } else {
        assert(s.subrange(0, s.len() as int) =~= s);
    }
}

/// Unfolds `split_ws` at the first token: if `s` starts with a maximal
/// non-whitespace run of length `i`, that run is the first token.
pub proof fn lemma_split_ws_token(s: Seq<char>, i: int)
    requires
        0 < i <= s.len(),
        forall|j: int| 0 <= j < i ==> !is_space(s[j]),
        i < s.len() ==> is_space(s[i]),
    ensures
        split_ws(s) =~= seq![s.subrange(0, i)] + split_ws(s.subrange(i, s.len() as int)),
    decreases s.len(),
{
    let s1 = s.subrange(1, s.len() as int);
    let rest = split_ws(s1);
    if i == 1 {
        if s.len() == 1 {
            assert(s.subrange(0, 1) =~= seq![s[0]]);
            assert(split_ws(s.subrange(1, 1)) =~= Seq::<Seq<char>>::empty());
            assert(split_ws(s) =~= seq![s.subrange(0, 1)] + split_ws(
                s.subrange(i, s.len() as int),
            ));
        } else {
            assert(is_space(s[1]));
            assert(s.subrange(0, 1) =~= seq![s[0]]);
            assert(s.subrange(1, s.len() as int) =~= s1);
            assert(split_ws(s) =~= seq![s.subrange(0, 1)] + split_ws(
                s.subrange(i, s.len() as int),
            ));
        }
    } else {
        lemma_split_ws_token(s1, i - 1);
        assert(rest == seq![s1.subrange(0, i - 1)] + split_ws(s1.subrange(i - 1, s1.len() as int)));
        assert(rest[0] == s1.subrange(0, i - 1));
        assert(seq![s[0]] + rest[0] =~= s.subrange(0, i));
        assert(rest.subrange(1, rest.len() as int) =~= split_ws(s1.subrange(i - 1, s1.len() as int)));
        assert(s1.subrange(i - 1, s1.len() as int) =~= s.subrange(i, s.len() as int));
        assert(!is_space(s[1]));
        assert(split_ws(s) =~= seq![s.subrange(0, i)] + split_ws(s.subrange(i, s.len() as int)));
    }
}

/// Splits `s` into its whitespace-delimited tokens.
pub fn split_whitespace(s: &str) -> (r: Vec<String>)
    ensures
        views_of(r@) =~= split_ws(s@),
{
    let n = s.unicode_len();
    let mut tokens: Vec<String> = Vec::new();
    let mut start: usize = 0;
    proof {
        assert(s@.subrange(0, n as int) =~= s@);
        assert(views_of(tokens@) + split_ws(s@) =~= split_ws(s@));
    }
    loop
        invariant
            start <= n,
            n == s@.len(),
            split_ws(s@) =~= views_of(tokens@) + split_ws(s@.subrange(start as int, n as int)),
        decreases n - start,
    {
        let ghost suffix0 = s@.subrange(start as int, n as int);
        // skip the whitespace run
        let mut i = start;
        while i < n && is_space_exec(s.get_char(i))
            invariant
                start <= i <= n,
                n == s@.len(),
                forall|j: int| start <= j < i ==> is_space(s@[j]),
            decreases n - i,
        {
            i = i + 1;
        }
        proof {
            lemma_split_ws_skip(suffix0, i - start);
            assert(suffix0.subrange(i - start, suffix0.len() as int) =~= s@.subrange(
                i as int,
                n as int,
            ));
        }
        if i == n {
            proof {
                assert(split_ws(s@.subrange(n as int, n as int)) =~= Seq::<Seq<char>>::empty());
                assert(views_of(tokens@) =~= split_ws(s@));
            }
            return tokens;
        }
        let ghost suffix = s@.subrange(i as int, n as int);
        // scan the token
        let mut e = i;
        while e < n && !is_space_exec(s.get_char(e))
            invariant
                i <= e <= n,
                n == s@.len(),
                forall|j: int| i <= j < e ==> !is_space(s@[j]),
            decreases n - e,
        {
            e = e + 1;
        }
        let tok = s.substring_char(i, e).to_owned();
        proof {
            lemma_split_ws_token(suffix, e - i);
            assert(suffix.subrange(0, e - i) =~= s@.subrange(i as int, e as int));
            assert(suffix.subrange(e - i, suffix.len() as int) =~= s@.subrange(
                e as int,
                n as int,
            ));
            assert(views_of(tokens@.push(tok)) =~= views_of(tokens@) + seq![tok@]);
        }
        tokens.push(tok);
        start = e;
    }
}

/// The predicate for characters other than `c`.
pub open spec fn ne_char(c: char) -> spec_fn(char) -> bool {
    |x: char| x != c
}

/// Unfolds `filter` at the first occurrence of `c`: the characters before it
/// are kept unchanged and the occurrence itself is dropped.
pub proof fn lemma_filter_chunk(s: Seq<char>, c: char, i: int)
    requires
        0 <= i <= s.len(),
        forall|j: int| 0 <= j < i ==> s[j] != c,
    ensures
        i < s.len() && s[i] == c ==> s.filter(ne_char(c)) =~= s.subrange(0, i) + s.subrange(
            i + 1,
            s.len() as int,
        ).filter(ne_char(c)),
        i == s.len() ==> s.filter(ne_char(c)) =~= s,
    decreases s.len(),
{
    if s.len() == 0 {
    } else if i == 0 {
        if s[0] == c {
            let s1 = s.subrange(1, s.len() as int);
            assert(s =~= seq![s[0]] + s1);
            Seq::filter_distributes_over_add(seq![s[0]], s1, ne_char(c));
            assert(seq![s[0]].filter(ne_char(c)) =~= Seq::<char>::empty()) by {
                reveal_with_fuel(Seq::filter, 3);
                assert(seq![s[0]].drop_last() =~= Seq::<char>::empty());
            }
            assert(s.subrange(0, 0) =~= Seq::<char>::empty());
        }
    } else {
        let s1 = s.subrange(1, s.len() as int);
        lemma_filter_chunk(s1, c, i - 1);
        assert(s =~= seq![s[0]] + s1);
        Seq::filter_distributes_over_add(seq![s[0]], s1, ne_char(c));
        assert(seq![s[0]].filter(ne_char(c)) =~= seq![s[0]]) by {
            reveal_with_fuel(Seq::filter, 3);
            assert(seq![s[0]].drop_last() =~= Seq::<char>::empty());
        }
        if i < s.len() && s[i] == c {
            assert(s1[i - 1] == c);
            assert(seq![s[0]] + s1.subrange(0, i - 1) =~= s.subrange(0, i));
            assert(s1.subrange(i, s1.len() as int) =~= s.subrange(i + 1, s.len() as int));
            assert(s.filter(ne_char(c)) =~= s.subrange(0, i) + s.subrange(
                i + 1,
                s.len() as int,
            ).filter(ne_char(c)));
        } else if i == s.len() {
            assert(s.filter(ne_char(c)) =~= s);
        }
    }
}

/// Removes every occurrence of `c` from `s`, as `str::replace(c, "")` does.
pub fn remove_char(s: &str, c: char) -> (r: String)
    ensures
        r@ =~= s@.filter(ne_char(c)),
{
    let n = s.unicode_len();
    let mut acc = String::new();
    let mut start: usize = 0;
    proof {
        assert(s@.subrange(0, n as int) =~= s@);
    }
    loop
        invariant
            start <= n,
            n == s@.len(),
            s@.filter(ne_char(c)) =~= acc@ + s@.subrange(start as int, n as int).filter(
                ne_char(c),
            ),
        decreases n - start,
    {
        let ghost suffix = s@.subrange(start as int, n as int);
        match find_char_from(s, c, start) {
            Some(i) => {
                let piece = s.substring_char(start, i);
                proof {
                    lemma_filter_chunk(suffix, c, i - start);
                    assert(suffix.subrange(0, i - start) =~= s@.subrange(start as int, i as int));
                    assert(suffix.subrange(i - start + 1, suffix.len() as int) =~= s@.subrange(
                        i + 1,
                        n as int,
                    ));
                }
                acc.append(piece);
                start = i + 1;
            },
            None => {
                let piece = s.substring_char(start, n);
                proof {
                    lemma_filter_chunk(suffix, c, n - start);
                }
                acc.append(piece);
                return acc;
            },
        }
    }
}

/// The views of a sequence of strings.
pub open spec fn views_of(v: Seq<String>) -> Seq<Seq<char>> {
    v.map_values(|x: String| x@)
}

/// Appending a string appends its view.
pub proof fn lemma_views_push(v: Seq<String>, x: String)
    ensures
        views_of(v.push(x)) =~= views_of(v).push(x@),
{
    assert forall|k: int| 0 <= k < v.len() + 1 implies views_of(v.push(x))[k] == views_of(v).push(
        x@,
    )[k] by {
        if k < v.len() {
            assert(views_of(v.push(x))[k] == v.push(x)[k]@);
            assert(v.push(x)[k] == v[k]);
            assert(views_of(v)[k] == v[k]@);
        } else {
            assert(views_of(v.push(x))[k] == x@);
        }
    }
}

/// Mapping over a pushed element pushes the mapped element.
pub proof fn lemma_map_push<A, B>(s: Seq<A>, f: spec_fn(A) -> B, x: A)
    ensures
        s.push(x).map_values(f) =~= s.map_values(f).push(f(x)),
{
    s.lemma_push_map_commute(f, x);
}

/// The view of an optional string.
pub open spec fn view_opt(o: Option<String>) -> Option<Seq<char>> {
    match o {
        Some(s) => Some(s@),
        None => None,
    }
}

/// Index of the first occurrence of `c` in `s`, if any.
pub open spec fn find_idx(s: Seq<char>, c: char) -> Option<int>
    decreases s.len(),
{
    if s.len() == 0 {
        None
    } else if s[0] == c {
        Some(0int)
    } else {
        match find_idx(s.subrange(1, s.len() as int), c) {
            None => None,
            Some(i) => Some(i + 1),
        }
    }
}

/// Index of the last occurrence of `c` in `s`, if any.
pub open spec fn rfind_idx(s: Seq<char>, c: char) -> Option<int>
    decreases s.len(),
{
    if s.len() == 0 {
        None
    } else if s[s.len() - 1] == c {
        Some(s.len() - 1)
    } else {
        rfind_idx(s.subrange(0, s.len() - 1), c)
    }
}

/// Index of the first element of `s` satisfying `p`, if any.
pub open spec fn find_where<A>(s: Seq<A>, p: spec_fn(A) -> bool) -> Option<int>
    decreases s.len(),
{
    if s.len() == 0 {
        None
    } else if p(s[0]) {
        Some(0int)
    } else {
        match find_where(s.subrange(1, s.len() as int), p) {
            None => None,
            Some(i) => Some(i + 1),
        }
    }
}

/// Pins `find_where` down from a scan's outcome: if no element before `i`
/// satisfies `p`, then `find_where` is `i` exactly when `s[i]` does, and
/// `None` when the scan ran off the end.
pub proof fn lemma_find_where_at<A>(s: Seq<A>, p: spec_fn(A) -> bool, i: int)
    requires
        0 <= i <= s.len(),
        forall|j: int| 0 <= j < i ==> !p(s[j]),
        i < s.len() ==> p(s[i]),
    ensures
        i < s.len() ==> find_where(s, p) == Some(i),
        i == s.len() ==> find_where(s, p) is None,
    decreases s.len(),
{
    if s.len() > 0 && !p(s[0]) {
        lemma_find_where_at(s.subrange(1, s.len() as int), p, i - 1);
    }
}

/// What a successful or failed `find_where` means.
pub proof fn lemma_find_where_props<A>(s: Seq<A>, p: spec_fn(A) -> bool)
    ensures
        match find_where(s, p) {
            Some(i) => 0 <= i < s.len() && p(s[i]) && forall|j: int| 0 <= j < i ==> !p(s[j]),
            None => forall|j: int| 0 <= j < s.len() ==> !p(s[j]),
        },
    decreases s.len(),
{
    if s.len() > 0 && !p(s[0]) {
        let s1 = s.subrange(1, s.len() as int);
        lemma_find_where_props(s1, p);
        match find_where(s, p) {
            Some(i) => {
                assert(find_where(s1, p) == Some(i - 1));
                assert(s1[i - 1] == s[i]);
                assert(p(s[i]));
                assert forall|j: int| 0 <= j < i implies !p(s[j]) by {
                    if j > 0 {
                        assert(!p(s1[j - 1]));
                        assert(s1[j - 1] == s[j]);
                    }
                }
            },
            None => {
                assert forall|j: int| 0 <= j < s.len() implies !p(s[j]) by {
                    if j > 0 {
                        assert(!p(s1[j - 1]));
                        assert(s1[j - 1] == s[j]);
                    }
                }
            },
        }
    }
}

/// Pins `find_idx` down from a scan's outcome: if no occurrence lies before
/// `i`, then `find_idx` is `i` exactly when `s[i] == c`, and `None` when the
/// scan ran off the end.
pub proof fn lemma_find_idx_at(s: Seq<char>, c: char, i: int)
    requires
        0 <= i <= s.len(),
        forall|j: int| 0 <= j < i ==> s[j] != c,
        i < s.len() ==> s[i] == c,
    ensures
        i < s.len() ==> find_idx(s, c) == Some(i),
        i == s.len() ==> find_idx(s, c) is None,
    decreases s.len(),
{
    if s.len() > 0 && s[0] != c {
        lemma_find_idx_at(s.subrange(1, s.len() as int), c, i - 1);
    }
}

/// Pins `rfind_idx` down from a backwards scan's outcome: if no occurrence
/// lies at `i` or after, then `rfind_idx` is `i - 1` exactly when
/// `s[i - 1] == c`, and `None` when the scan ran past the start.
pub proof fn lemma_rfind_idx_at(s: Seq<char>, c: char, i: int)
    requires
        0 <= i <= s.len(),
        forall|j: int| i <= j < s.len() ==> s[j] != c,
        i > 0 ==> s[i - 1] == c,
    ensures
        i > 0 ==> rfind_idx(s, c) == Some(i - 1),
        i == 0 ==> rfind_idx(s, c) is None,
    decreases s.len(),
{
    if s.len() > 0 && s[s.len() - 1] != c {
        lemma_rfind_idx_at(s.subrange(0, s.len() - 1), c, i);
    }
}

/// Finds the first occurrence of `c` in `s` at or after `from`.
pub fn find_char_from(s: &str, c: char, from: usize) -> (r: Option<usize>)
    requires
        from <= s@.len(),
    ensures
        match r {
            Some(i) => from <= i < s@.len() && s@[i as int] == c && forall|j: int|
                from <= j < i ==> s@[j] != c,
            None => forall|j: int| from <= j < s@.len() ==> s@[j] != c,
        },
{
    let n = s.unicode_len();
    let mut i = from;
    while i < n
        invariant
            from <= i <= n,
            n == s@.len(),
            forall|j: int| from <= j < i ==> s@[j] != c,
        decreases n - i,
    {
        if s.get_char(i) == c {
            return Some(i);
        }
        i = i + 1;
    }
    None
}

/// Splits `s` at every occurrence of `c`, as `str::split` does.
pub fn split_char(s: &str, c: char) -> (r: Vec<String>)
    ensures
        views_of(r@) =~= split_on(s@, c),
{
    let n = s.unicode_len();
    let mut pieces: Vec<String> = Vec::new();
    let mut start: usize = 0;
    proof {
        assert(s@.subrange(0, n as int) =~= s@);
        assert(views_of(pieces@) + split_on(s@, c) =~= split_on(s@, c));
    }
    loop
        invariant
            start <= n,
            n == s@.len(),
            split_on(s@, c) =~= views_of(pieces@) + split_on(s@.subrange(start as int, n as int), c),
        decreases n - start,
    {
        let ghost suffix = s@.subrange(start as int, n as int);
        match find_char_from(s, c, start) {
            Some(i) => {
                let piece = s.substring_char(start, i).to_owned();
                proof {
                    lemma_split_on_chunk(suffix, c, i - start);
                    assert(suffix.subrange(0, i - start) =~= s@.subrange(start as int, i as int));
                    assert(suffix.subrange(i - start + 1, suffix.len() as int) =~= s@.subrange(
                        i + 1,
                        n as int,
                    ));
                    assert(views_of(pieces@.push(piece)) =~= views_of(pieces@) + seq![piece@]);
                }
                pieces.push(piece);
                start = i + 1;
            },
            None => {
                let piece = s.substring_char(start, n).to_owned();
                proof {
                    lemma_split_on_chunk(suffix, c, n - start);
                    assert(views_of(pieces@.push(piece)) =~= views_of(pieces@) + seq![piece@]);
                }
                pieces.push(piece);
                proof {
                    assert(views_of(pieces@) =~= split_on(s@, c));
                }
                return pieces;
            },
        }
    }
}

/// Removes whitespace from both ends of `s`.
pub fn trim(s: &str) -> (r: String)
    ensures
        r@ =~= trim_spec(s@),
{
    let n = s.unicode_len();
    let mut a: usize = 0;
    while a < n && is_space_exec(s.get_char(a))
        invariant
            a <= n,
            n == s@.len(),
            forall|j: int| 0 <= j < a ==> is_space(s@[j]),
        decreases n - a,
    {
        a = a + 1;
    }
    if a == n {
        proof {
            lemma_trim_start_at(s@, n as int);
            lemma_trim_end_at(s@.subrange(n as int, n as int), 0);
        }
        return String::new();
    }
    let mut b: usize = n;
    while b > a && is_space_exec(s.get_char(b - 1))
        invariant
            a <= b <= n,
            n == s@.len(),
            forall|j: int| b <= j < n ==> is_space(s@[j]),
        decreases b,
    {
        b = b - 1;
    }
    proof {
        lemma_trim_start_at(s@, a as int);
        let t = s@.subrange(a as int, n as int);
        lemma_trim_end_at(t, b - a);
        assert(t.subrange(0, b - a) =~= s@.subrange(a as int, b as int));
    }
    s.substring_char(a, b).to_owned()
}

/// Executable test for the grammar's whitespace characters.
pub fn is_space_exec(c: char) -> (r: bool)
    ensures
        r == is_space(c),
{
    c == ' ' || c == '\t' || c == '\r' || c == '\n'
}

/// Whether the characters of `a` and `b` are the same.
pub fn str_eq(a: &str, b: &str) -> (r: bool)
    ensures
        r == (a@ == b@),
{
    let na = a.unicode_len();
    let nb = b.unicode_len();
    if na != nb {
        proof {
            assert(a@ != b@);
        }
        return false;
    }
    let mut i: usize = 0;
    while i < na
        invariant
            i <= na,
            na == a@.len(),
            na == b@.len(),
            forall|j: int| 0 <= j < i ==> a@[j] == b@[j],
        decreases na - i,
    {
        if a.get_char(i) != b.get_char(i) {
            return false;
        }
        i = i + 1;
    }
    proof {
        assert(a@ =~= b@);
    }
    true
}

/// Whether the view of `s` begins with the view of `p`.
pub open spec fn has_prefix(s: Seq<char>, p: Seq<char>) -> bool {
    p.len() <= s.len() && s.subrange(0, p.len() as int) == p
}

pub fn starts_with(s: &str, p: &str) -> (r: bool)
    ensures
        r == has_prefix(s@, p@),
{
    let ns = s.unicode_len();
    let np = p.unicode_len();
    if np > ns {
        return false;
    }
    let mut i: usize = 0;
    while i < np
        invariant
            i <= np,
            np <= ns,
            ns == s@.len(),
            np == p@.len(),
            forall|j: int| 0 <= j < i ==> s@[j] == p@[j],
        decreases np - i,
    {
        if s.get_char(i) != p.get_char(i) {
            proof {
                assert(s@.subrange(0, p@.len() as int)[i as int] != p@[i as int]);
            }
            return false;
        }
        i = i + 1;
    }
    proof {
        assert(s@.subrange(0, p@.len() as int) =~= p@);
    }
    true
}

/// Whether the view of `s` ends with the view of `p`.
pub open spec fn has_suffix(s: Seq<char>, p: Seq<char>) -> bool {
    p.len() <= s.len() && s.subrange(s.len() - p.len(), s.len() as int) == p
}

pub fn ends_with(s: &str, p: &str) -> (r: bool)
    ensures
        r == has_suffix(s@, p@),
{
    let ns = s.unicode_len();
    let np = p.unicode_len();
    if np > ns {
        return false;
    }
    let base = ns - np;
    let mut i: usize = 0;
    while i < np
        invariant
            i <= np,
            np <= ns,
            base == ns - np,
            ns == s@.len(),
            np == p@.len(),
            forall|j: int| 0 <= j < i ==> s@[base + j] == p@[j],
        decreases np - i,
    {
        if s.get_char(base + i) != p.get_char(i) {
            proof {
                assert(s@.subrange(base as int, ns as int)[i as int] != p@[i as int]);
            }
            return false;
        }
        i = i + 1;
    }
    proof {
        assert(s@.subrange(base as int, ns as int) =~= p@);
    }
    true
}

/// Whether `p` occurs in `s` starting at index `k`.
pub open spec fn contains_at(s: Seq<char>, p: Seq<char>, k: int) -> bool {
    0 <= k && k + p.len() <= s.len() && s.subrange(k, k + p.len() as int) == p
}

/// Whether `p` occurs anywhere in `s`.
pub open spec fn contains_seq(s: Seq<char>, p: Seq<char>) -> bool {
    exists|k: int| contains_at(s, p, k)
}

/// Whether `p` occurs in `s` starting at index `k`.
fn matches_at(s: &str, p: &str, k: usize) -> (r: bool)
    requires
        k + p@.len() <= s@.len(),
        s@.len() <= usize::MAX,
    ensures
        r == contains_at(s@, p@, k as int),
{
    let np = p.unicode_len();
    let mut i: usize = 0;
    while i < np
        invariant
            i <= np,
            np == p@.len(),
            k + np <= s@.len(),
            s@.len() <= usize::MAX,
            forall|j: int| 0 <= j < i ==> s@[k + j] == p@[j],
        decreases np - i,
    {
        if s.get_char(k + i) != p.get_char(i) {
            proof {
                assert(s@.subrange(k as int, k + p@.len() as int)[i as int] != p@[i as int]);
            }
            return false;
        }
        i = i + 1;
    }
    proof {
        assert(s@.subrange(k as int, k + p@.len() as int) =~= p@);
    }
    true
}

/// Whether `p` occurs anywhere in `s`.
pub fn contains_sub(s: &str, p: &str) -> (r: bool)
    ensures
        r == contains_seq(s@, p@),
{
    let ns = s.unicode_len();
    let np = p.unicode_len();
    if np > ns {
        proof {
            assert(forall|k: int| !contains_at(s@, p@, k));
        }
        return false;
    }
    if np == 0 {
        proof {
            assert(s@.subrange(0, 0) =~= p@);
            assert(contains_at(s@, p@, 0));
        }
        return true;
    }
    let mut k: usize = 0;
    while k <= ns - np
        invariant
            1 <= np <= ns,
            ns == s@.len(),
            np == p@.len(),
            k <= ns - np + 1,
            forall|j: int| 0 <= j < k ==> !contains_at(s@, p@, j),
        decreases ns - np + 1 - k,
    {
        if matches_at(s, p, k) {
            proof {
                assert(contains_at(s@, p@, k as int));
            }
            return true;
        }
        k = k + 1;
    }
    proof {
        assert(forall|j: int| contains_at(s@, p@, j) ==> 0 <= j <= s@.len() - p@.len());
    }
    false
}

/// Whether every character of `s` is a decimal digit.
pub open spec fn all_digits(s: Seq<char>) -> bool {
    forall|i: int| 0 <= i < s.len() ==> '0' <= #[trigger] s[i] <= '9'
}

/// The value of a string of decimal digits.
pub open spec fn dec_val(s: Seq<char>) -> int
    decreases s.len(),
{
    if s.len() == 0 {
        0
    } else {
        dec_val(s.drop_last()) * 10 + (s.last() as int - '0' as int)
    }
}

pub proof fn lemma_dec_val_nonneg(s: Seq<char>)
    requires
        all_digits(s),
    ensures
        dec_val(s) >= 0,
    decreases s.len(),
{
    if s.len() > 0 {
        assert(all_digits(s.drop_last()));
        lemma_dec_val_nonneg(s.drop_last());
    }
}

/// A digit string's value only grows as more digits follow.
pub proof fn lemma_dec_val_prefix_le(s: Seq<char>, i: int)
    requires
        all_digits(s),
        0 <= i <= s.len(),
    ensures
        dec_val(s.subrange(0, i)) <= dec_val(s),
    decreases s.len(),
{
    if i < s.len() {
        let d = s.drop_last();
        assert(all_digits(d));
        assert(d =~= s.subrange(0, s.len() - 1));
        lemma_dec_val_prefix_le(d, i);
        assert(d.subrange(0, i) =~= s.subrange(0, i));
        lemma_dec_val_nonneg(d);
        assert(dec_val(s) == dec_val(d) * 10 + (s.last() as int - '0' as int));
        assert(dec_val(d) * 10 >= dec_val(d));
        assert(s.last() as int - '0' as int >= 0);
    } else {
        assert(s.subrange(0, i) =~= s);
    }
}

/// Reads a non-empty string of decimal digits as a 32-bit number.
pub fn parse_u32_digits(s: &str) -> (r: Option<u32>)
    ensures
        match r {
            Some(v) => s@.len() > 0 && all_digits(s@) && v as int == dec_val(s@),
            None => s@.len() == 0 || !all_digits(s@) || dec_val(s@) > u32::MAX,
        },
{
    let n = s.unicode_len();
    if n == 0 {
        return None;
    }
    let mut acc: u32 = 0;
    let mut i: usize = 0;
    proof {
        assert(s@.subrange(0, 0) =~= Seq::<char>::empty());
    }
    while i < n
        invariant
            i <= n,
            n == s@.len(),
            all_digits(s@.subrange(0, i as int)),
            acc as int == dec_val(s@.subrange(0, i as int)),
        decreases n - i,
    {
        let c = s.get_char(i);
        if !(c >= '0' && c <= '9') {
            proof {
                assert(!('0' <= s@[i as int] <= '9'));
                assert(!all_digits(s@));
            }
            return None;
        }
        let d: u32 = (c as u32) - 48;
        proof {
            assert(s@.subrange(0, i + 1).drop_last() =~= s@.subrange(0, i as int));
            assert(s@.subrange(0, i + 1).last() == s@[i as int]);
            assert(all_digits(s@.subrange(0, i + 1)));
        }
        if acc > (u32::MAX - d) / 10 {
            proof {
                assert(dec_val(s@.subrange(0, i + 1)) == acc * 10 + d);
                assert(dec_val(s@.subrange(0, i + 1)) > u32::MAX);
                if all_digits(s@) {
                    lemma_dec_val_prefix_le(s@, i + 1);
                    assert(dec_val(s@) > u32::MAX);
                }
            }
            return None;
        }
        acc = acc * 10 + d;
        i = i + 1;
    }
    proof {
        assert(s@.subrange(0, n as int) =~= s@);
    }
    Some(acc)
}

/// Finds the last occurrence of `c` in `s`.
pub fn rfind_char(s: &str, c: char) -> (r: Option<usize>)
    ensures
        match r {
            Some(i) => i < s@.len() && s@[i as int] == c && forall|j: int|
                i < j < s@.len() ==> s@[j] != c,
            None => forall|j: int| 0 <= j < s@.len() ==> s@[j] != c,
        },
{
    let n = s.unicode_len();
    let mut i: usize = n;
    while i > 0
        invariant
            i <= n,
            n == s@.len(),
            forall|j: int| i <= j < n ==> s@[j] != c,
        decreases i,
    {
        if s.get_char(i - 1) == c {
            return Some(i - 1);
        }
        i = i - 1;
    }
    None
}

} // verus!
