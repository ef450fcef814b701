//! Content-Security-Policy rewriting.
//!
//! The proxy injects a script served from the proxied page's own origin and
//! opens a WebSocket back to it, so both `script-src` and `connect-src`
//! (falling back to `default-src`) must permit `'self'`. A policy that
//! already permits both is left untouched; otherwise the missing directives
//! are added or extended with `'self'` (dropping `'none'`), and the policy is
//! re-serialized with its directives in sorted name order.

use vstd::prelude::*;

use crate::strutil::chars_append;
use crate::strutil::chars_append_str;
use crate::strutil::chars_eq;
use crate::strutil::chars_eq_str;
use crate::strutil::chars_subrange;
use crate::strutil::chars_to_string;
use crate::strutil::is_ws;
use crate::strutil::spec_is_ws;
use crate::strutil::spec_split;
use crate::strutil::split_char;
use crate::strutil::str_chars;
use vstd::string::StringExecFns;

verus! {

/// Strict lexicographic order on character sequences by Unicode scalar value:
/// the order in which a sorted map over strings yields its keys.
pub open spec fn spec_lex_lt(a: Seq<char>, b: Seq<char>) -> bool
    decreases a.len(),
{
    if b.len() == 0 {
        false
    } else if a.len() == 0 {
        true
    } else if (a[0] as u32) < (b[0] as u32) {
        true
    } else if (a[0] as u32) > (b[0] as u32) {
        false
    } else {
        spec_lex_lt(a.skip(1), b.skip(1))
    }
}

/// Compares two character vectors lexicographically.
pub fn lex_lt(a: &Vec<char>, b: &Vec<char>) -> (r: bool)
    ensures
        r == spec_lex_lt(a@, b@),
    decreases a@.len(),
{
    if b.len() == 0 {
        false
    } else if a.len() == 0 {
        true
    } else if (a[0] as u32) < (b[0] as u32) {
        true
    } else if (a[0] as u32) > (b[0] as u32) {
        false
    } else {
        let a2 = chars_subrange(a, 1, a.len());
        let b2 = chars_subrange(b, 1, b.len());
        proof {
            assert(a2@ =~= a@.skip(1));
            assert(b2@ =~= b@.skip(1));
        }
        lex_lt(&a2, &b2)
    }
}

/// Index of the first whitespace character in `s`, or `s.len()`.
pub open spec fn spec_find_ws(s: Seq<char>) -> int
    decreases s.len(),
{
    if s.len() == 0 {
        0
    } else if spec_is_ws(s[0]) {
        0
    } else {
        1 + spec_find_ws(s.skip(1))
    }
}

/// Bounds and characterization of `spec_find_ws`.
pub proof fn lemma_find_ws_props(s: Seq<char>)
    ensures
        0 <= spec_find_ws(s) <= s.len(),
        forall|j: int| 0 <= j < spec_find_ws(s) ==> !spec_is_ws(s[j]),
        spec_find_ws(s) < s.len() ==> spec_is_ws(s[spec_find_ws(s)]),
    decreases s.len(),
{
    if s.len() == 0 {
    } else if spec_is_ws(s[0]) {
    } else {
        lemma_find_ws_props(s.skip(1));
        assert forall|j: int| 0 <= j < spec_find_ws(s) implies !spec_is_ws(s[j]) by {
            if j > 0 {
                assert(!spec_is_ws(s.skip(1)[j - 1]));
            }
        }
    }
}

/// Any index with the first-whitespace characterization is `spec_find_ws`.
pub proof fn lemma_find_ws_char(s: Seq<char>, i: int)
    requires
        0 <= i <= s.len(),
        forall|j: int| 0 <= j < i ==> !spec_is_ws(s[j]),
        i < s.len() ==> spec_is_ws(s[i]),
    ensures
        spec_find_ws(s) == i,
    decreases s.len(),
{
    if s.len() == 0 {
    } else if spec_is_ws(s[0]) {
        assert(i == 0);
    } else {
        assert(i > 0 || i == s.len()) by {
            if i == 0 && i < s.len() {
                assert(spec_is_ws(s[0]));
            }
        }
        assert(forall|j: int| 0 <= j < i - 1 ==> !spec_is_ws(s.skip(1)[j]));
        lemma_find_ws_char(s.skip(1), i - 1);
    }
}

/// The whitespace-separated tokens of `s`: maximal runs of non-whitespace
/// characters, in order.
pub open spec fn spec_tokens(s: Seq<char>) -> Seq<Seq<char>>
    decreases s.len(),
    via spec_tokens_decreases
{
    if s.len() == 0 {
        Seq::empty()
    } else if spec_is_ws(s[0]) {
        spec_tokens(s.skip(1))
    } else {
        let k = spec_find_ws(s);
        seq![s.take(k)] + spec_tokens(s.skip(k))
    }
}

#[via_fn]
proof fn spec_tokens_decreases(s: Seq<char>) {
    lemma_find_ws_props(s);
}

/// Splits `v` into its whitespace-separated tokens.
pub fn tokens(v: &Vec<char>) -> (parts: Vec<Vec<char>>)
    ensures
        parts.deep_view() == spec_tokens(v@),
{
    let n = v.len();
    let mut parts: Vec<Vec<char>> = Vec::new();
    let mut i: usize = 0;
    proof {
        assert(v@.skip(0) =~= v@);
        assert(parts.deep_view() =~~= Seq::<Seq<char>>::empty());
    }
    while i < n
        invariant
            0 <= i <= n,
            n == v@.len(),
            spec_tokens(v@) == parts.deep_view() + spec_tokens(v@.skip(i as int)),
        decreases n - i,
    {
        if is_ws(v[i]) {
            proof {
                assert(v@.skip(i as int).skip(1) =~= v@.skip(i + 1));
            }
            i = i + 1;
        } else {
            let mut j: usize = i;
            while j < n && !is_ws(v[j])
                invariant
                    i <= j <= n,
                    forall|k: int| i <= k < j ==> !spec_is_ws(v@[k]),
                decreases n - j,
            {
                j = j + 1;
            }
            let tok = chars_subrange(v, i, j);
            let ghost rem = v@.skip(i as int);
            proof {
                assert(forall|k: int| 0 <= k < j - i ==> !spec_is_ws(rem[k]));
                if (j as int) - (i as int) < rem.len() {
                    assert(spec_is_ws(rem[(j - i) as int]));
                }
                lemma_find_ws_char(rem, j - i);
                assert(rem.take((j - i) as int) =~= v@.subrange(i as int, j as int));
                assert(rem.skip((j - i) as int) =~= v@.skip(j as int));
                assert(spec_tokens(rem) == seq![tok@] + spec_tokens(v@.skip(j as int)));
                assert(parts.deep_view().push(tok@) + spec_tokens(v@.skip(j as int))
                    =~= parts.deep_view() + spec_tokens(rem));
                assert((parts.deep_view() + spec_tokens(rem))
                    == parts.deep_view() + spec_tokens(rem));
            }
            let ghost pdv = parts.deep_view();
            parts.push(tok);
            proof {
                assert(parts.deep_view() =~~= pdv.push(tok@));
            }
            i = j;
        }
    }
    proof {
        assert(v@.skip(n as int) =~= Seq::<char>::empty());
        assert(parts.deep_view() + Seq::<Seq<char>>::empty() =~= parts.deep_view());
    }
    parts
}

/// ASCII lowercasing of one character.
pub open spec fn spec_lower_char(c: char) -> char {
    if 65 <= (c as u32) && (c as u32) <= 90 {
        (((c as u32) + 32) as u8) as char
    } else {
        c
    }
}

/// ASCII lowercasing of a character sequence.
pub open spec fn spec_lower(s: Seq<char>) -> Seq<char> {
    s.map_values(|c: char| spec_lower_char(c))
}

/// Lowercases the ASCII letters of `v`.
pub fn lower_chars(v: &Vec<char>) -> (r: Vec<char>)
    ensures
        r@ == spec_lower(v@),
{
    let n = v.len();
    let mut r: Vec<char> = Vec::new();
    let mut i: usize = 0;
    while i < n
        invariant
            0 <= i <= n,
            n == v@.len(),
            r@.len() == i,
            forall|j: int| 0 <= j < i ==> r@[j] == spec_lower_char(v@[j]),
        decreases n - i,
    {
        let c = v[i];
        let u = c as u32;
        if 65 <= u && u <= 90 {
            r.push(((u + 32) as u8) as char);
        } else {
            r.push(c);
        }
        i = i + 1;
    }
    proof {
        assert(r@ =~= spec_lower(v@));
    }
    r
}

/// One parsed CSP directive: its (lowercased) name and its source
/// expressions.
pub struct CspDirective {
    pub name: Vec<char>,
    pub values: Vec<Vec<char>>,
}

/// The mathematical content of one directive.
pub open spec fn spec_dir_view(d: CspDirective) -> (Seq<char>, Seq<Seq<char>>) {
    (d.name@, d.values.deep_view())
}

/// The mathematical content of a directive list.
pub open spec fn view_dirs(v: Seq<CspDirective>) -> Seq<(Seq<char>, Seq<Seq<char>>)> {
    v.map_values(|d: CspDirective| spec_dir_view(d))
}

/// The values of the first directive named `name`, if any.
pub open spec fn spec_lookup(
    list: Seq<(Seq<char>, Seq<Seq<char>>)>,
    name: Seq<char>,
) -> Option<Seq<Seq<char>>>
    decreases list.len(),
{
    if list.len() == 0 {
        Option::None
    } else if list[0].0 == name {
        Option::Some(list[0].1)
    } else {
        spec_lookup(list.skip(1), name)
    }
}

/// A position with the first-match characterization determines `spec_lookup`.
proof fn lemma_lookup_char(list: Seq<(Seq<char>, Seq<Seq<char>>)>, name: Seq<char>, i: int)
    requires
        0 <= i <= list.len(),
        forall|j: int| 0 <= j < i ==> (#[trigger] list[j]).0 != name,
        i < list.len() ==> list[i].0 == name,
    ensures
        i < list.len() ==> spec_lookup(list, name) == Option::Some(list[i].1),
        i == list.len() ==> spec_lookup(list, name) is None,
    decreases list.len(),
{
    if list.len() == 0 {
    } else if list[0].0 == name {
        assert(i == 0);
    } else {
        assert(forall|j: int| 0 <= j < i - 1 ==> (#[trigger] list.skip(1)[j]).0 != name);
        lemma_lookup_char(list.skip(1), name, i - 1);
    }
}

/// Finds the index of the directive named `name`, if present.
pub fn lookup_dir(ds: &Vec<CspDirective>, name: &Vec<char>) -> (r: Option<usize>)
    ensures
        match r {
            Some(i) => i < ds@.len() && ds@[i as int].name@ == name@ && spec_lookup(
                view_dirs(ds@),
                name@,
            ) == Option::Some(ds@[i as int].values.deep_view()),
            None => spec_lookup(view_dirs(ds@), name@) is None,
        },
{
    let n = ds.len();
    let mut i: usize = 0;
    while i < n
        invariant
            0 <= i <= n,
            n == ds@.len(),
            forall|j: int| 0 <= j < i ==> (#[trigger] view_dirs(ds@)[j]).0 != name@,
        decreases n - i,
    {
        if chars_eq(&ds[i].name, name) {
            proof {
                assert(view_dirs(ds@)[i as int].0 == name@);
                lemma_lookup_char(view_dirs(ds@), name@, i as int);
            }
            return Some(i);
        }
        proof {
            assert(view_dirs(ds@)[i as int].0 == ds@[i as int].name@);
        }
        i = i + 1;
    }
    proof {
        lemma_lookup_char(view_dirs(ds@), name@, n as int);
    }
    None
}

/// Insertion into a name-sorted directive list, keeping the sort order.
pub open spec fn spec_sorted_insert(
    list: Seq<(Seq<char>, Seq<Seq<char>>)>,
    name: Seq<char>,
    values: Seq<Seq<char>>,
) -> Seq<(Seq<char>, Seq<Seq<char>>)>
    decreases list.len(),
{
    if list.len() == 0 {
        seq![(name, values)]
    } else if spec_lex_lt(name, list[0].0) {
        seq![(name, values)] + list
    } else {
        seq![list[0]] + spec_sorted_insert(list.skip(1), name, values)
    }
}

/// After inserting an absent name, looking it up yields the new values.
proof fn lemma_lookup_insert_same(
    list: Seq<(Seq<char>, Seq<Seq<char>>)>,
    name: Seq<char>,
    values: Seq<Seq<char>>,
)
    requires
        spec_lookup(list, name) is None,
    ensures
        spec_lookup(spec_sorted_insert(list, name, values), name) == Option::Some(values),
    decreases list.len(),
{
    if list.len() == 0 {
    } else if spec_lex_lt(name, list[0].0) {
        assert((seq![(name, values)] + list)[0].0 == name);
    } else {
        let out = seq![list[0]] + spec_sorted_insert(list.skip(1), name, values);
        assert(out[0] == list[0]);
        assert(list[0].0 != name);
        lemma_lookup_insert_same(list.skip(1), name, values);
        assert(out.skip(1) =~= spec_sorted_insert(list.skip(1), name, values));
    }
}

/// Insertion under one name leaves lookups of other names unchanged.
proof fn lemma_lookup_insert_other(
    list: Seq<(Seq<char>, Seq<Seq<char>>)>,
    name: Seq<char>,
    values: Seq<Seq<char>>,
    other: Seq<char>,
)
    requires
        other != name,
    ensures
        spec_lookup(spec_sorted_insert(list, name, values), other) == spec_lookup(list, other),
    decreases list.len(),
{
    if list.len() == 0 {
        let out = spec_sorted_insert(list, name, values);
        assert(out[0].0 == name);
        assert(out.skip(1) =~= Seq::<(Seq<char>, Seq<Seq<char>>)>::empty());
        assert(spec_lookup(out, other) == spec_lookup(out.skip(1), other));
        assert(spec_lookup(out, other) is None);
    } else if spec_lex_lt(name, list[0].0) {
        let out = seq![(name, values)] + list;
        assert(out == spec_sorted_insert(list, name, values));
        assert(out[0].0 == name);
        assert(out.skip(1) =~= list);
        assert(spec_lookup(out, other) == spec_lookup(list, other));
    } else {
        let out = seq![list[0]] + spec_sorted_insert(list.skip(1), name, values);
        assert(out == spec_sorted_insert(list, name, values));
        assert(out[0] == list[0]);
        assert(out.skip(1) =~= spec_sorted_insert(list.skip(1), name, values));
        lemma_lookup_insert_other(list.skip(1), name, values, other);
        if list[0].0 == other {
            assert(spec_lookup(out, other) == Option::Some(out[0].1));
            assert(spec_lookup(list, other) == Option::Some(list[0].1));
        } else {
            assert(spec_lookup(out, other) == spec_lookup(out.skip(1), other));
            assert(spec_lookup(list, other) == spec_lookup(list.skip(1), other));
        }
    }
}

/// Inserts a directive into a name-sorted list, keeping the order.
pub fn sorted_insert(list: Vec<CspDirective>, d: CspDirective) -> (r: Vec<CspDirective>)
    ensures
        view_dirs(r@) == spec_sorted_insert(view_dirs(list@), d.name@, d.values.deep_view()),
    decreases list@.len(),
{
    if list.len() == 0 {
        let mut r: Vec<CspDirective> = Vec::new();
        r.push(d);
        proof {
            assert(view_dirs(r@) =~= spec_sorted_insert(
                view_dirs(list@),
                d.name@,
                d.values.deep_view(),
            ));
        }
        r
    } else if lex_lt(&d.name, &list[0].name) {
        proof {
            assert(view_dirs(list@)[0].0 == list@[0].name@);
        }
        let ghost dn = d.name@;
        let ghost dv = d.values.deep_view();
        let ghost list0 = list@;
        let mut r = list;
        r.insert(0, d);
        proof {
            assert(r@.skip(1) =~= list0);
            assert(view_dirs(r@) =~= seq![(dn, dv)] + view_dirs(list0));
        }
        r
    } else {
        proof {
            assert(view_dirs(list@)[0].0 == list@[0].name@);
        }
        let ghost listv = view_dirs(list@);
        let mut rest = list;
        let head = rest.remove(0);
        proof {
            assert(view_dirs(rest@) =~= listv.skip(1));
        }
        let r0 = sorted_insert(rest, d);
        let mut r = r0;
        r.insert(0, head);
        proof {
            assert(view_dirs(r@) =~= seq![listv[0]] + spec_sorted_insert(
                listv.skip(1),
                d.name@,
                d.values.deep_view(),
            ));
        }
        r
    }
}

/// The (name, values) entries of a part list: each part is tokenized, parts
/// without tokens are dropped, the first token (lowercased) names the
/// directive and the remaining tokens are its values.
pub open spec fn spec_entries_of_parts(ps: Seq<Seq<char>>) -> Seq<(Seq<char>, Seq<Seq<char>>)> {
    ps.map_values(|p: Seq<char>| spec_tokens(p)).filter(|t: Seq<Seq<char>>| t.len() > 0)
        .map_values(|t: Seq<Seq<char>>| (spec_lower(t[0]), t.skip(1)))
}

/// The entries of a serialized CSP: its `;`-separated parts, parsed.
pub open spec fn spec_csp_entries(s: Seq<char>) -> Seq<(Seq<char>, Seq<Seq<char>>)> {
    spec_entries_of_parts(spec_split(s, ';'))
}

/// Adds one entry to a directive list: a duplicate name is ignored (first
/// wins), a new name is inserted in sorted position.
pub open spec fn spec_add_entry(
    list: Seq<(Seq<char>, Seq<Seq<char>>)>,
    e: (Seq<char>, Seq<Seq<char>>),
) -> Seq<(Seq<char>, Seq<Seq<char>>)> {
    if spec_lookup(list, e.0) is Some {
        list
    } else {
        spec_sorted_insert(list, e.0, e.1)
    }
}

/// Folds the entries, in order, into a sorted directive list.
pub open spec fn spec_build_dirs(entries: Seq<(Seq<char>, Seq<Seq<char>>)>) -> Seq<
    (Seq<char>, Seq<Seq<char>>),
>
    decreases entries.len(),
{
    if entries.len() == 0 {
        Seq::empty()
    } else {
        spec_add_entry(spec_build_dirs(entries.drop_last()), entries.last())
    }
}

/// The parsed directive set of a serialized CSP.
pub open spec fn spec_csp_dirs(s: Seq<char>) -> Seq<(Seq<char>, Seq<Seq<char>>)> {
    spec_build_dirs(spec_csp_entries(s))
}

/// Whether a value list contains `'self'` or `*`.
pub open spec fn spec_has_self_or_star(vals: Seq<Seq<char>>) -> bool {
    vals.contains("'self'"@) || vals.contains("*"@)
}

/// Whether the policy permits `key` for the page's own origin: the values of
/// `key` (falling back to `default-src`) contain `'self'` or `*`; a policy
/// with neither directive permits everything.
pub open spec fn spec_permits(list: Seq<(Seq<char>, Seq<Seq<char>>)>, key: Seq<char>) -> bool {
    match spec_lookup(list, key) {
        Option::Some(vals) => spec_has_self_or_star(vals),
        Option::None => match spec_lookup(list, "default-src"@) {
            Option::Some(vals) => spec_has_self_or_star(vals),
            Option::None => true,
        },
    }
}

/// Whether both `script-src` and `connect-src` are permitted for `'self'`.
pub open spec fn spec_permits_both(list: Seq<(Seq<char>, Seq<Seq<char>>)>) -> bool {
    spec_permits(list, "script-src"@) && spec_permits(list, "connect-src"@)
}

/// The repaired value list for `key`: its old values (empty when absent)
/// without `'none'`, with `'self'` appended.
pub open spec fn spec_fixed_vals(list: Seq<(Seq<char>, Seq<Seq<char>>)>, key: Seq<char>) -> Seq<
    Seq<char>,
> {
    let old = match spec_lookup(list, key) {
        Option::Some(v) => v,
        Option::None => Seq::empty(),
    };
    old.filter(|v: Seq<char>| v != "'none'"@).push("'self'"@)
}

/// Replaces the values of the directive named `key`.
pub open spec fn spec_set_vals(
    list: Seq<(Seq<char>, Seq<Seq<char>>)>,
    key: Seq<char>,
    vals: Seq<Seq<char>>,
) -> Seq<(Seq<char>, Seq<Seq<char>>)> {
    list.map_values(
        |e: (Seq<char>, Seq<Seq<char>>)|
            if e.0 == key {
                (key, vals)
            } else {
                e
            },
    )
}

/// Updates `key` in place when present, inserts it in sorted position
/// otherwise.
pub open spec fn spec_set_or_insert(
    list: Seq<(Seq<char>, Seq<Seq<char>>)>,
    key: Seq<char>,
    vals: Seq<Seq<char>>,
) -> Seq<(Seq<char>, Seq<Seq<char>>)> {
    if spec_lookup(list, key) is Some {
        spec_set_vals(list, key, vals)
    } else {
        spec_sorted_insert(list, key, vals)
    }
}

/// The rewritten directive set: for each of `script-src` and `connect-src`
/// that does not yet permit `'self'`, the directive is added or extended.
pub open spec fn spec_rewrite_dirs(list: Seq<(Seq<char>, Seq<Seq<char>>)>) -> Seq<
    (Seq<char>, Seq<Seq<char>>),
> {
    let l1 = if spec_permits(list, "script-src"@) {
        list
    } else {
        spec_set_or_insert(list, "script-src"@, spec_fixed_vals(list, "script-src"@))
    };
    if spec_permits(list, "connect-src"@) {
        l1
    } else {
        spec_set_or_insert(l1, "connect-src"@, spec_fixed_vals(list, "connect-src"@))
    }
}

/// The serialization of one directive's values: each value preceded by one
/// space.
pub open spec fn spec_vals_str(vals: Seq<Seq<char>>) -> Seq<char>
    decreases vals.len(),
{
    if vals.len() == 0 {
        Seq::empty()
    } else {
        spec_vals_str(vals.drop_last()) + seq![' '] + vals.last()
    }
}

/// The serialization of a directive list: `name value ... value; ` for each
/// directive, concatenated in list order.
pub open spec fn spec_serialize(list: Seq<(Seq<char>, Seq<Seq<char>>)>) -> Seq<char>
    decreases list.len(),
{
    if list.len() == 0 {
        Seq::empty()
    } else {
        spec_serialize(list.drop_last()) + list.last().0 + spec_vals_str(list.last().1) + seq![
            ';',
            ' ',
        ]
    }
}

/// The rewritten CSP header value: unchanged when the policy already permits
/// scripts from and connections to the page's own origin, otherwise the
/// repaired directive set serialized in sorted name order.
pub open spec fn spec_rewrite_csp(s: Seq<char>) -> Seq<char> {
    let d = spec_csp_dirs(s);
    if spec_permits_both(d) {
        s
    } else {
        spec_serialize(spec_rewrite_dirs(d))
    }
}

/// Tests whether a value list contains `'self'` or `*`.
fn has_self_or_star(vals: &Vec<Vec<char>>) -> (r: bool)
    ensures
        r == spec_has_self_or_star(vals.deep_view()),
{
    let n = vals.len();
    let mut i: usize = 0;
    while i < n
        invariant
            0 <= i <= n,
            n == vals@.len(),
            forall|j: int| 0 <= j < i ==> vals.deep_view()[j] != "'self'"@ && vals.deep_view()[j]
                != "*"@,
        decreases n - i,
    {
        proof {
            assert(vals.deep_view()[i as int] =~= vals@[i as int]@);
        }
        if chars_eq_str(&vals[i], "'self'") || chars_eq_str(&vals[i], "*") {
            proof {
                assert(vals.deep_view().contains("'self'"@) || vals.deep_view().contains("*"@));
            }
            return true;
        }
        i = i + 1;
    }
    proof {
        if vals.deep_view().contains("'self'"@) {
            let j = choose|j: int|
                0 <= j < vals.deep_view().len() && vals.deep_view()[j] == "'self'"@;
            assert(false);
        }
        if vals.deep_view().contains("*"@) {
            let j = choose|j: int| 0 <= j < vals.deep_view().len() && vals.deep_view()[j] == "*"@;
            assert(false);
        }
    }
    false
}

/// Copies all but the first element of a token list.
fn tail_vecs(v: &Vec<Vec<char>>) -> (r: Vec<Vec<char>>)
    requires
        v@.len() >= 1,
    ensures
        r.deep_view() == v.deep_view().skip(1),
{
    let n = v.len();
    let mut r: Vec<Vec<char>> = Vec::new();
    let mut i: usize = 1;
    while i < n
        invariant
            1 <= i <= n,
            n == v@.len(),
            r.deep_view() =~= v.deep_view().subrange(1, i as int),
        decreases n - i,
    {
        let e = chars_subrange(&v[i], 0, v[i].len());
        proof {
            assert(e@ =~= v.deep_view()[i as int]);
            assert(e.deep_view() =~= e@);
        }
        r.push(e);
        proof {
            assert(r.deep_view() =~~= v.deep_view().subrange(1, i + 1));
        }
        i = i + 1;
    }
    proof {
        assert(v.deep_view().subrange(1, n as int) =~= v.deep_view().skip(1));
    }
    r
}

/// Parses a serialized CSP into its sorted directive list: split on `;`,
/// tokenize each part, drop empty parts, lowercase the directive name, ignore
/// duplicate names (first wins).
pub fn parse_csp(chars: &Vec<char>) -> (ds: Vec<CspDirective>)
    ensures
        view_dirs(ds@) == spec_csp_dirs(chars@),
{
    let parts = split_char(chars, ';');
    let ghost partsv = parts.deep_view();
    let ghost tokf = |p: Seq<char>| spec_tokens(p);
    let ghost nef = |t: Seq<Seq<char>>| t.len() > 0;
    let ghost entf = |t: Seq<Seq<char>>| (spec_lower(t[0]), t.skip(1));

    let n = parts.len();
    let mut ds: Vec<CspDirective> = Vec::new();
    let mut i: usize = 0;
    proof {
        reveal(Seq::filter);
        assert(partsv.take(0) =~= Seq::<Seq<char>>::empty());
        assert(partsv.take(0).map_values(tokf) =~= Seq::<Seq<Seq<char>>>::empty());
        assert(view_dirs(ds@) =~= spec_build_dirs(
            spec_entries_of_parts(partsv.take(0)),
        ));
    }
    while i < n
        invariant
            0 <= i <= n,
            n == partsv.len(),
            partsv == parts.deep_view(),
            n == parts@.len(),
            view_dirs(ds@) == spec_build_dirs(spec_entries_of_parts(partsv.take(i as int))),
        decreases n - i,
    {
        proof {
            assert(partsv[i as int] =~= parts@[i as int]@);
        }
        let toks = tokens(&parts[i]);
        let ghost prev_entries = spec_entries_of_parts(partsv.take(i as int));
        proof {
            reveal(Seq::filter);
            let m = partsv.take(i + 1).map_values(tokf);
            assert(m.drop_last() =~= partsv.take(i as int).map_values(tokf));
            assert(m.last() == spec_tokens(partsv[i as int]));
            assert(m.last() == toks.deep_view());
            if toks.deep_view().len() > 0 {
                assert(m.filter(nef) == m.drop_last().filter(nef).push(toks.deep_view()));
                assert(m.filter(nef).map_values(entf) =~= m.drop_last().filter(nef).map_values(
                    entf,
                ).push(entf(toks.deep_view())));
            } else {
                assert(m.filter(nef) == m.drop_last().filter(nef));
                assert(m.filter(nef).map_values(entf) =~= m.drop_last().filter(nef).map_values(
                    entf,
                ));
            }
            assert(prev_entries =~= m.drop_last().filter(nef).map_values(entf));
        }
        if toks.len() > 0 {
            let name = lower_chars(&toks[0]);
            let vals = tail_vecs(&toks);
            let ghost e = entf(toks.deep_view());
            proof {
                assert(toks.deep_view()[0] =~= toks@[0]@);
                assert(name@ == e.0);
                assert(vals.deep_view() == e.1);
                assert(spec_entries_of_parts(partsv.take(i + 1)) =~= prev_entries.push(e));
                assert(spec_entries_of_parts(partsv.take(i + 1)).drop_last() =~= prev_entries);
            }
            match lookup_dir(&ds, &name) {
                Some(_) => {
                    proof {
                        assert(spec_build_dirs(prev_entries.push(e)) == spec_add_entry(
                            spec_build_dirs(prev_entries),
                            e,
                        ));
                    }
                }
                None => {
                    let d = CspDirective { name, values: vals };
                    let ghost ds0 = view_dirs(ds@);
                    ds = sorted_insert(ds, d);
                    proof {
                        assert(spec_build_dirs(prev_entries.push(e)) == spec_add_entry(ds0, e));
                    }
                }
            }
        } else {
            proof {
                assert(spec_entries_of_parts(partsv.take(i + 1)) =~= prev_entries);
            }
        }
        i = i + 1;
    }
    proof {
        assert(partsv.take(n as int) =~= partsv);
    }
    ds
}

/// Replacing one name's values leaves lookups of that name as replaced.
proof fn lemma_lookup_set_same(
    list: Seq<(Seq<char>, Seq<Seq<char>>)>,
    key: Seq<char>,
    vals: Seq<Seq<char>>,
)
    requires
        spec_lookup(list, key) is Some,
    ensures
        spec_lookup(spec_set_vals(list, key, vals), key) == Option::Some(vals),
    decreases list.len(),
{
    let out = spec_set_vals(list, key, vals);
    if list[0].0 == key {
        assert(out[0] == (key, vals));
    } else {
        assert(out[0] == list[0]);
        assert(out.skip(1) =~= spec_set_vals(list.skip(1), key, vals));
        lemma_lookup_set_same(list.skip(1), key, vals);
    }
}

/// Replacing one name's values leaves lookups of other names unchanged.
proof fn lemma_lookup_set_other(
    list: Seq<(Seq<char>, Seq<Seq<char>>)>,
    key: Seq<char>,
    vals: Seq<Seq<char>>,
    other: Seq<char>,
)
    requires
        other != key,
    ensures
        spec_lookup(spec_set_vals(list, key, vals), other) == spec_lookup(list, other),
    decreases list.len(),
{
    if list.len() == 0 {
        assert(spec_set_vals(list, key, vals) =~= list);
    } else {
        let out = spec_set_vals(list, key, vals);
        assert(out.skip(1) =~= spec_set_vals(list.skip(1), key, vals));
        lemma_lookup_set_other(list.skip(1), key, vals, other);
        if list[0].0 == key {
            assert(out[0] == (key, vals));
            assert(out[0].0 != other);
            assert(list[0].0 != other);
        } else {
            assert(out[0] == list[0]);
        }
    }
}

/// Lookups under a name other than the one set or inserted are unchanged.
proof fn lemma_lookup_set_or_insert_other(
    list: Seq<(Seq<char>, Seq<Seq<char>>)>,
    key: Seq<char>,
    vals: Seq<Seq<char>>,
    other: Seq<char>,
)
    requires
        other != key,
    ensures
        spec_lookup(spec_set_or_insert(list, key, vals), other) == spec_lookup(list, other),
{
    if spec_lookup(list, key) is Some {
        lemma_lookup_set_other(list, key, vals, other);
    } else {
        lemma_lookup_insert_other(list, key, vals, other);
    }
}

/// After setting or inserting a name, looking it up yields the new values.
proof fn lemma_lookup_set_or_insert_same(
    list: Seq<(Seq<char>, Seq<Seq<char>>)>,
    key: Seq<char>,
    vals: Seq<Seq<char>>,
)
    ensures
        spec_lookup(spec_set_or_insert(list, key, vals), key) == Option::Some(vals),
{
    if spec_lookup(list, key) is Some {
        lemma_lookup_set_same(list, key, vals);
    } else {
        lemma_lookup_insert_same(list, key, vals);
    }
}

/// The three directive names the rewriter reasons about are distinct.
proof fn lemma_key_names_distinct()
    ensures
        "script-src"@ != "connect-src"@,
        "script-src"@ != "default-src"@,
        "connect-src"@ != "default-src"@,
{
    reveal_strlit("script-src");
    reveal_strlit("connect-src");
    reveal_strlit("default-src");
    assert("script-src"@.len() == 10);
    assert("connect-src"@.len() == 11);
    assert("default-src"@.len() == 11);
    assert("connect-src"@[0] == 'c');
    assert("default-src"@[0] == 'd');
}

/// The rewritten directive set permits both `script-src` and `connect-src`
/// for the page's own origin; a policy that already permitted both is left
/// unchanged.
pub proof fn lemma_rewrite_dirs_permits_both(list: Seq<(Seq<char>, Seq<Seq<char>>)>)
    ensures
        spec_permits_both(spec_rewrite_dirs(list)),
        spec_permits_both(list) ==> spec_rewrite_dirs(list) == list,
{
    lemma_key_names_distinct();
    let sa = spec_permits(list, "script-src"@);
    let ca = spec_permits(list, "connect-src"@);
    let fs = spec_fixed_vals(list, "script-src"@);
    let fc = spec_fixed_vals(list, "connect-src"@);
    let l1 = if sa {
        list
    } else {
        spec_set_or_insert(list, "script-src"@, fs)
    };
    let l2 = spec_rewrite_dirs(list);

    assert(fs.last() == "'self'"@);
    assert(fs.contains("'self'"@));
    assert(fc.last() == "'self'"@);
    assert(fc.contains("'self'"@));

    if !sa {
        lemma_lookup_set_or_insert_same(list, "script-src"@, fs);
        assert(spec_permits(l1, "script-src"@));
    }
    if !ca {
        lemma_lookup_set_or_insert_same(l1, "connect-src"@, fc);
        assert(spec_permits(l2, "connect-src"@));
        // the connect fix does not disturb the script-src lookup
        lemma_lookup_set_or_insert_other(l1, "connect-src"@, fc, "script-src"@);
        lemma_lookup_set_or_insert_other(l1, "connect-src"@, fc, "default-src"@);
    }
    if !sa {
        // the script fix does not disturb the connect-src lookup
        lemma_lookup_set_or_insert_other(list, "script-src"@, fs, "connect-src"@);
        lemma_lookup_set_or_insert_other(list, "script-src"@, fs, "default-src"@);
    }
}

/// Lexicographic order is irreflexive.
proof fn lemma_lex_lt_irrefl(a: Seq<char>)
    ensures
        !spec_lex_lt(a, a),
    decreases a.len(),
{
    if a.len() > 0 {
        lemma_lex_lt_irrefl(a.skip(1));
    }
}

/// Characters with the same scalar value are the same character.
proof fn lemma_char_inj(a: char, b: char)
    requires
        a as u32 == b as u32,
    ensures
        a == b,
{
    vstd::utf8::char_u32_cast(a, a as u32);
    vstd::utf8::char_u32_cast(b, b as u32);
}

/// Lexicographic order is asymmetric.
proof fn lemma_lex_lt_asym(a: Seq<char>, b: Seq<char>)
    requires
        spec_lex_lt(a, b),
    ensures
        !spec_lex_lt(b, a),
    decreases a.len(),
{
    if a.len() > 0 && b.len() > 0 && (a[0] as u32) == (b[0] as u32) {
        lemma_lex_lt_asym(a.skip(1), b.skip(1));
    }
}

/// Lexicographic order is total on distinct sequences.
proof fn lemma_lex_lt_total(a: Seq<char>, b: Seq<char>)
    requires
        a != b,
    ensures
        spec_lex_lt(a, b) || spec_lex_lt(b, a),
    decreases a.len(),
{
    if a.len() == 0 || b.len() == 0 {
        if a.len() == 0 && b.len() == 0 {
            assert(a =~= b);
        }
    } else if (a[0] as u32) == (b[0] as u32) {
        lemma_char_inj(a[0], b[0]);
        assert(a.skip(1) != b.skip(1)) by {
            if a.skip(1) == b.skip(1) {
                assert(a =~= seq![a[0]] + a.skip(1));
                assert(b =~= seq![b[0]] + b.skip(1));
            }
        }
        lemma_lex_lt_total(a.skip(1), b.skip(1));
    }
}

/// Lexicographic order is transitive.
proof fn lemma_lex_lt_trans(a: Seq<char>, b: Seq<char>, c: Seq<char>)
    requires
        spec_lex_lt(a, b),
        spec_lex_lt(b, c),
    ensures
        spec_lex_lt(a, c),
    decreases a.len(),
{
    if a.len() > 0 && b.len() > 0 && c.len() > 0 && (a[0] as u32) == (b[0] as u32) && (b[0] as u32)
        == (c[0] as u32) {
        lemma_lex_lt_trans(a.skip(1), b.skip(1), c.skip(1));
    }
}

/// A directive list in strictly ascending name order.
pub open spec fn spec_dirs_sorted(l: Seq<(Seq<char>, Seq<Seq<char>>)>) -> bool {
    forall|i: int, j: int| 0 <= i < j < l.len() ==> spec_lex_lt(l[i].0, l[j].0)
}

/// A name that differs from every name in the list is not found.
proof fn lemma_lookup_absent(l: Seq<(Seq<char>, Seq<Seq<char>>)>, name: Seq<char>)
    requires
        forall|i: int| 0 <= i < l.len() ==> (#[trigger] l[i]).0 != name,
    ensures
        spec_lookup(l, name) is None,
    decreases l.len(),
{
    if l.len() > 0 {
        assert(forall|i: int| 0 <= i < l.skip(1).len() ==> (#[trigger] l.skip(1)[i]).0 != name);
        lemma_lookup_absent(l.skip(1), name);
    }
}

/// Inserting a name greater than every name in the list appends it.
proof fn lemma_insert_at_end(
    l: Seq<(Seq<char>, Seq<Seq<char>>)>,
    name: Seq<char>,
    values: Seq<Seq<char>>,
)
    requires
        forall|i: int| 0 <= i < l.len() ==> spec_lex_lt((#[trigger] l[i]).0, name),
    ensures
        spec_sorted_insert(l, name, values) == l + seq![(name, values)],
    decreases l.len(),
{
    if l.len() == 0 {
        assert(spec_sorted_insert(l, name, values) =~= l + seq![(name, values)]);
    } else {
        lemma_lex_lt_asym(l[0].0, name);
        assert(forall|i: int|
            0 <= i < l.skip(1).len() ==> spec_lex_lt((#[trigger] l.skip(1)[i]).0, name));
        lemma_insert_at_end(l.skip(1), name, values);
        assert(seq![l[0]] + (l.skip(1) + seq![(name, values)]) =~= l + seq![(name, values)]);
    }
}

/// Folding the entries of a sorted, duplicate-free list rebuilds the list.
proof fn lemma_build_sorted(d: Seq<(Seq<char>, Seq<Seq<char>>)>)
    requires
        spec_dirs_sorted(d),
    ensures
        spec_build_dirs(d) == d,
    decreases d.len(),
{
    if d.len() > 0 {
        let pre = d.drop_last();
        assert(spec_dirs_sorted(pre)) by {
            assert(forall|i: int, j: int|
                0 <= i < j < pre.len() ==> spec_lex_lt((#[trigger] pre[i]).0, (#[trigger] pre[j]).0));
        }
        lemma_build_sorted(pre);
        let last = d.last();
        assert(forall|i: int| 0 <= i < pre.len() ==> spec_lex_lt((#[trigger] pre[i]).0, last.0));
        assert(forall|i: int| 0 <= i < pre.len() ==> (#[trigger] pre[i]).0 != last.0) by {
            assert forall|i: int| 0 <= i < pre.len() implies (#[trigger] pre[i]).0 != last.0 by {
                lemma_lex_lt_irrefl(last.0);
            }
        }
        lemma_lookup_absent(pre, last.0);
        lemma_insert_at_end(pre, last.0, last.1);
        assert(last == (last.0, last.1));
        assert(pre + seq![last] =~= d);
    }
}

/// A well-formed serialized token: nonempty, no whitespace, no `;`.
pub open spec fn spec_token_wf(t: Seq<char>) -> bool {
    t.len() > 0 && forall|i: int| 0 <= i < t.len() ==> !spec_is_ws(#[trigger] t[i]) && t[i] != ';'
}

/// A directive whose serialization parses back to itself: a well-formed,
/// already lowercased name and well-formed values.
pub open spec fn spec_dir_wf(e: (Seq<char>, Seq<Seq<char>>)) -> bool {
    &&& spec_token_wf(e.0)
    &&& spec_lower(e.0) == e.0
    &&& forall|i: int| 0 <= i < e.1.len() ==> spec_token_wf(#[trigger] e.1[i])
}

/// Every directive of the list is well-formed.
pub open spec fn spec_dirs_wf(l: Seq<(Seq<char>, Seq<Seq<char>>)>) -> bool {
    forall|i: int| 0 <= i < l.len() ==> spec_dir_wf(#[trigger] l[i])
}

/// A single well-formed token tokenizes to itself.
proof fn lemma_tokens_single(t: Seq<char>)
    requires
        spec_token_wf(t),
    ensures
        spec_tokens(t) == seq![t],
{
    assert(t.len() > 0);
    assert(!spec_is_ws(t[0]));
    lemma_find_ws_char(t, t.len() as int);
    assert(t.take(t.len() as int) =~= t);
    assert(t.skip(t.len() as int) =~= Seq::<char>::empty());
    assert(spec_tokens(t.skip(t.len() as int)) =~= Seq::<Seq<char>>::empty());
    assert(spec_tokens(t) == seq![t.take(spec_find_ws(t))] + spec_tokens(
        t.skip(spec_find_ws(t)),
    ));
    assert(spec_tokens(t) =~= seq![t]);
}

/// Tokenization splits cleanly at an inserted space.
proof fn lemma_tokens_split_at_space(x: Seq<char>, y: Seq<char>)
    ensures
        spec_tokens(x + seq![' '] + y) == spec_tokens(x) + spec_tokens(y),
    decreases x.len(),
{
    let s = x + seq![' '] + y;
    assert(s.len() > 0);
    if x.len() == 0 {
        assert(s =~= seq![' '] + y);
        assert(s[0] == ' ');
        assert(spec_is_ws(s[0]));
        assert(s.skip(1) =~= y);
        assert(spec_tokens(s) == spec_tokens(s.skip(1)));
        assert(spec_tokens(x) =~= Seq::<Seq<char>>::empty());
        assert(spec_tokens(x) + spec_tokens(y) =~= spec_tokens(y));
        assert(spec_tokens(s) == spec_tokens(x) + spec_tokens(y));
    } else if spec_is_ws(x[0]) {
        assert(s[0] == x[0]);
        assert(s.skip(1) =~= x.skip(1) + seq![' '] + y);
        assert(spec_tokens(s) == spec_tokens(s.skip(1)));
        assert(spec_tokens(x) == spec_tokens(x.skip(1)));
        lemma_tokens_split_at_space(x.skip(1), y);
        assert(spec_tokens(s) == spec_tokens(x) + spec_tokens(y));
    } else {
        assert(s[0] == x[0]);
        let kx = spec_find_ws(x);
        lemma_find_ws_props(x);
        if kx < x.len() {
            assert(forall|j: int| 0 <= j < kx ==> !spec_is_ws(#[trigger] s[j]));
            assert(spec_is_ws(s[kx]));
            lemma_find_ws_char(s, kx);
            assert(s.take(kx) =~= x.take(kx));
            assert(s.skip(kx) =~= x.skip(kx) + seq![' '] + y);
            assert(kx >= 1);
            lemma_tokens_split_at_space(x.skip(kx), y);
            assert(spec_tokens(s) == seq![s.take(kx)] + spec_tokens(s.skip(kx)));
            assert(spec_tokens(x) == seq![x.take(kx)] + spec_tokens(x.skip(kx)));
            assert(seq![x.take(kx)] + (spec_tokens(x.skip(kx)) + spec_tokens(y)) =~= (seq![
                x.take(kx),
            ] + spec_tokens(x.skip(kx))) + spec_tokens(y));
            assert(spec_tokens(s) == spec_tokens(x) + spec_tokens(y));
        } else {
            assert(forall|j: int| 0 <= j < x.len() ==> !spec_is_ws(#[trigger] s[j]));
            assert(spec_is_ws(s[x.len() as int]));
            lemma_find_ws_char(s, x.len() as int);
            assert(s.take(x.len() as int) =~= x);
            assert(s.skip(x.len() as int) =~= seq![' '] + y);
            assert((seq![' '] + y).skip(1) =~= y);
            assert(x.take(kx) =~= x);
            assert(x.skip(kx) =~= Seq::<char>::empty());
            assert(spec_tokens(x) =~= seq![x]);
            assert(spec_tokens(s) == seq![s.take(x.len() as int)] + spec_tokens(
                s.skip(x.len() as int),
            ));
            assert(spec_tokens(s.skip(x.len() as int)) == spec_tokens(y));
            assert(seq![x] + spec_tokens(y) =~= spec_tokens(x) + spec_tokens(y));
            assert(spec_tokens(s) == spec_tokens(x) + spec_tokens(y));
        }
    }
}

/// The serialized text of one directive (before its `; ` terminator)
/// tokenizes to its name followed by its values.
proof fn lemma_tokens_dir_text(name: Seq<char>, vals: Seq<Seq<char>>)
    requires
        spec_token_wf(name),
        forall|i: int| 0 <= i < vals.len() ==> spec_token_wf(#[trigger] vals[i]),
    ensures
        spec_tokens(name + spec_vals_str(vals)) == seq![name] + vals,
    decreases vals.len(),
{
    if vals.len() == 0 {
        assert(name + spec_vals_str(vals) =~= name);
        lemma_tokens_single(name);
        assert(seq![name] + vals =~= seq![name]);
    } else {
        let pre = vals.drop_last();
        assert(forall|i: int| 0 <= i < pre.len() ==> spec_token_wf(#[trigger] pre[i])) by {
            assert(forall|i: int| 0 <= i < pre.len() ==> pre[i] == vals[i]);
        }
        lemma_tokens_dir_text(name, pre);
        assert(name + spec_vals_str(vals) =~= (name + spec_vals_str(pre)) + seq![' ']
            + vals.last());
        lemma_tokens_split_at_space(name + spec_vals_str(pre), vals.last());
        lemma_tokens_single(vals.last());
        assert((seq![name] + pre) + seq![vals.last()] =~= seq![name] + vals);
    }
}

/// Splitting at a separator that follows a separator-free prefix yields the
/// prefix and the split of the remainder.
proof fn lemma_split_sep(a: Seq<char>, rest: Seq<char>)
    requires
        forall|i: int| 0 <= i < a.len() ==> (#[trigger] a[i]) != ';',
    ensures
        spec_split(a + seq![';'] + rest, ';') == seq![a] + spec_split(rest, ';'),
{
    let s = a + seq![';'] + rest;
    assert(forall|j: int| 0 <= j < a.len() ==> (#[trigger] s[j]) != ';');
    assert(s[a.len() as int] == ';');
    crate::strutil::lemma_find_char(s, ';', a.len() as int);
    assert(s.take(a.len() as int) =~= a);
    assert(s.skip(a.len() as int + 1) =~= rest);
}

/// Unfolding the serialization from the front.
proof fn lemma_serialize_front(d: Seq<(Seq<char>, Seq<Seq<char>>)>)
    requires
        d.len() > 0,
    ensures
        spec_serialize(d) == d[0].0 + spec_vals_str(d[0].1) + seq![';', ' '] + spec_serialize(
            d.skip(1),
        ),
    decreases d.len(),
{
    if d.len() == 1 {
        assert(d.drop_last() =~= Seq::<(Seq<char>, Seq<Seq<char>>)>::empty());
        assert(d.skip(1) =~= Seq::<(Seq<char>, Seq<Seq<char>>)>::empty());
        assert(d.last() == d[0]);
        assert(spec_serialize(d) =~= d[0].0 + spec_vals_str(d[0].1) + seq![';', ' ']
            + spec_serialize(d.skip(1)));
    } else {
        let pre = d.drop_last();
        lemma_serialize_front(pre);
        assert(pre[0] == d[0]);
        assert(d.skip(1).drop_last() =~= pre.skip(1));
        assert(d.skip(1).last() == d.last());
        assert(spec_serialize(d.skip(1)) == spec_serialize(pre.skip(1)) + d.last().0
            + spec_vals_str(d.last().1) + seq![';', ' ']);
        assert(spec_serialize(d) =~= d[0].0 + spec_vals_str(d[0].1) + seq![';', ' ']
            + spec_serialize(d.skip(1)));
    }
}

/// Parsed entries distribute over concatenation of part lists.
proof fn lemma_entries_dist(p1: Seq<Seq<char>>, p2: Seq<Seq<char>>)
    ensures
        spec_entries_of_parts(p1 + p2) == spec_entries_of_parts(p1) + spec_entries_of_parts(p2),
{
    let tokf = |p: Seq<char>| spec_tokens(p);
    let nef = |t: Seq<Seq<char>>| t.len() > 0;
    let entf = |t: Seq<Seq<char>>| (spec_lower(t[0]), t.skip(1));
    assert((p1 + p2).map_values(tokf) =~= p1.map_values(tokf) + p2.map_values(tokf));
    Seq::filter_distributes_over_add(p1.map_values(tokf), p2.map_values(tokf), nef);
    assert((p1.map_values(tokf).filter(nef) + p2.map_values(tokf).filter(nef)).map_values(entf)
        =~= p1.map_values(tokf).filter(nef).map_values(entf) + p2.map_values(tokf).filter(
        nef,
    ).map_values(entf));
}

/// The values-with-spaces text of well-formed values holds no separator.
proof fn lemma_vals_str_no_semi(vals: Seq<Seq<char>>)
    requires
        forall|i: int| 0 <= i < vals.len() ==> spec_token_wf(#[trigger] vals[i]),
    ensures
        forall|i: int|
            0 <= i < spec_vals_str(vals).len() ==> (#[trigger] spec_vals_str(vals)[i]) != ';',
    decreases vals.len(),
{
    if vals.len() > 0 {
        let pre = vals.drop_last();
        assert(forall|i: int| 0 <= i < pre.len() ==> pre[i] == vals[i]);
        lemma_vals_str_no_semi(pre);
        let out = spec_vals_str(vals);
        let a = spec_vals_str(pre);
        let last = vals.last();
        assert forall|i: int| 0 <= i < out.len() implies (#[trigger] out[i]) != ';' by {
            if i < a.len() {
                assert(out[i] == a[i]);
            } else if i == a.len() {
                assert(out[i] == ' ');
            } else {
                assert(out[i] == last[i - a.len() - 1]);
                assert(spec_token_wf(last));
            }
        }
    }
}

/// A single part that tokenizes to a directive's tokens contributes exactly
/// that directive's entry.
proof fn lemma_entries_single_part(p: Seq<char>, e: (Seq<char>, Seq<Seq<char>>))
    requires
        spec_dir_wf(e),
        spec_tokens(p) == seq![e.0] + e.1,
    ensures
        spec_entries_of_parts(seq![p]) == seq![e],
{
    reveal(Seq::filter);
    let tokf = |q: Seq<char>| spec_tokens(q);
    let nef = |t: Seq<Seq<char>>| t.len() > 0;
    let entf = |t: Seq<Seq<char>>| (spec_lower(t[0]), t.skip(1));
    let m = seq![p].map_values(tokf);
    assert(m =~= seq![spec_tokens(p)]);
    assert(m.drop_last() =~= Seq::<Seq<Seq<char>>>::empty());
    assert(spec_tokens(p).len() > 0);
    assert(m.filter(nef) == m.drop_last().filter(nef).push(spec_tokens(p)));
    assert(m.filter(nef) =~= seq![spec_tokens(p)]);
    let toks = spec_tokens(p);
    assert(toks[0] == e.0);
    assert(toks.skip(1) =~= e.1);
    assert(entf(toks) == (spec_lower(e.0), e.1));
    assert(spec_lower(e.0) == e.0);
    assert(e == (e.0, e.1));
    assert(m.filter(nef).map_values(entf) =~= seq![e]);
}

/// A leading space on the first part changes no entry.
proof fn lemma_entries_leading_space(x: Seq<char>)
    ensures
        spec_entries_of_parts(spec_split(seq![' '] + x, ';')) == spec_entries_of_parts(
            spec_split(x, ';'),
        ),
{
    let s2 = seq![' '] + x;
    assert(s2[0] == ' ');
    assert(s2.skip(1) =~= x);
    let k = crate::strutil::spec_find(x, ';');
    crate::strutil::lemma_find_props(x, ';');
    assert(crate::strutil::spec_find(s2, ';') == 1 + k);
    let tokf = |q: Seq<char>| spec_tokens(q);
    let nef = |t: Seq<Seq<char>>| t.len() > 0;
    let entf = |t: Seq<Seq<char>>| (spec_lower(t[0]), t.skip(1));
    if k == x.len() {
        assert(spec_split(x, ';') =~= seq![x]);
        assert(1 + k == s2.len());
        assert(spec_split(s2, ';') =~= seq![s2]);
        assert(spec_tokens(s2) == spec_tokens(x)) by {
            assert(s2.skip(1) =~= x);
        }
        assert(spec_split(s2, ';').map_values(tokf) =~= spec_split(x, ';').map_values(tokf));
    } else {
        assert(spec_split(x, ';') == seq![x.take(k)] + spec_split(x.skip(k + 1), ';'));
        assert(1 + k < s2.len());
        assert(spec_split(s2, ';') == seq![s2.take(1 + k)] + spec_split(s2.skip(1 + k + 1), ';'));
        assert(s2.take(1 + k) =~= seq![' '] + x.take(k));
        assert(s2.skip(1 + k + 1) =~= x.skip(k + 1));
        assert(spec_tokens(s2.take(1 + k)) == spec_tokens(x.take(k))) by {
            assert((seq![' '] + x.take(k))[0] == ' ');
            assert((seq![' '] + x.take(k)).skip(1) =~= x.take(k));
        }
        lemma_entries_dist(seq![s2.take(1 + k)], spec_split(x.skip(k + 1), ';'));
        lemma_entries_dist(seq![x.take(k)], spec_split(x.skip(k + 1), ';'));
        assert(seq![s2.take(1 + k)].map_values(tokf) =~= seq![x.take(k)].map_values(tokf));
        assert(spec_entries_of_parts(seq![s2.take(1 + k)]) == spec_entries_of_parts(
            seq![x.take(k)],
        ));
    }
}

/// Parsing the serialization of a list of well-formed directives yields the
/// list's entries, in order.
proof fn lemma_entries_serialize(d: Seq<(Seq<char>, Seq<Seq<char>>)>)
    requires
        spec_dirs_wf(d),
    ensures
        spec_csp_entries(spec_serialize(d)) == d,
    decreases d.len(),
{
    reveal(Seq::filter);
    let tokf = |q: Seq<char>| spec_tokens(q);
    let nef = |t: Seq<Seq<char>>| t.len() > 0;
    let entf = |t: Seq<Seq<char>>| (spec_lower(t[0]), t.skip(1));
    if d.len() == 0 {
        let s = spec_serialize(d);
        assert(s =~= Seq::<char>::empty());
        assert(spec_split(s, ';') =~= seq![s]);
        let m = spec_split(s, ';').map_values(tokf);
        assert(m =~= seq![spec_tokens(s)]);
        assert(spec_tokens(s) =~= Seq::<Seq<char>>::empty());
        assert(m.drop_last() =~= Seq::<Seq<Seq<char>>>::empty());
        assert(m.len() == 1);
        assert(!nef(m.last()));
        assert(m.filter(nef) == m.drop_last().filter(nef));
        assert(m.drop_last().filter(nef) =~= Seq::<Seq<Seq<char>>>::empty());
        assert(m.filter(nef) =~= Seq::<Seq<Seq<char>>>::empty());
        assert(spec_csp_entries(s) =~= d);
    } else {
        let e = d[0];
        assert(spec_dir_wf(e));
        let t1 = e.0 + spec_vals_str(e.1);
        lemma_serialize_front(d);
        let rest = seq![' '] + spec_serialize(d.skip(1));
        assert(spec_serialize(d) =~= t1 + seq![';'] + rest);
        // the first part is separator-free
        lemma_vals_str_no_semi(e.1);
        assert(forall|i: int| 0 <= i < t1.len() ==> (#[trigger] t1[i]) != ';') by {
            assert(forall|i: int|
                0 <= i < e.0.len() ==> #[trigger] t1[i] == e.0[i] && t1[i] != ';');
            assert(forall|i: int|
                e.0.len() <= i < t1.len() ==> #[trigger] t1[i] == spec_vals_str(e.1)[i
                    - e.0.len()]);
        }
        lemma_split_sep(t1, rest);
        lemma_entries_dist(seq![t1], spec_split(rest, ';'));
        lemma_tokens_dir_text(e.0, e.1);
        lemma_entries_single_part(t1, e);
        lemma_entries_leading_space(spec_serialize(d.skip(1)));
        assert(spec_dirs_wf(d.skip(1))) by {
            assert(forall|i: int|
                0 <= i < d.skip(1).len() ==> #[trigger] d.skip(1)[i] == d[i + 1]);
        }
        lemma_entries_serialize(d.skip(1));
        assert(seq![e] + d.skip(1) =~= d);
    }
}

/// A sequence without the separator character.
pub open spec fn spec_sep_free(p: Seq<char>, sep: char) -> bool {
    forall|j: int| 0 <= j < p.len() ==> (#[trigger] p[j]) != sep
}

/// Every part of a split is free of the separator.
proof fn lemma_split_no_sep(s: Seq<char>, sep: char)
    ensures
        forall|i: int|
            0 <= i < spec_split(s, sep).len() ==> spec_sep_free(
                #[trigger] spec_split(s, sep)[i],
                sep,
            ),
    decreases s.len(),
{
    let k = crate::strutil::spec_find(s, sep);
    crate::strutil::lemma_find_props(s, sep);
    if k == s.len() {
        assert(spec_sep_free(s, sep));
        assert(spec_split(s, sep) =~= seq![s]);
    } else {
        assert(spec_sep_free(s.take(k), sep));
        lemma_split_no_sep(s.skip(k + 1), sep);
        let out = spec_split(s, sep);
        assert(out == seq![s.take(k)] + spec_split(s.skip(k + 1), sep));
        assert forall|i: int| 0 <= i < out.len() implies spec_sep_free(
            #[trigger] out[i],
            sep,
        ) by {
            if i > 0 {
                assert(out[i] == spec_split(s.skip(k + 1), sep)[i - 1]);
            }
        }
    }
}

/// Every token list element is well-formed.
pub open spec fn spec_toks_wf(t: Seq<Seq<char>>) -> bool {
    forall|i: int| 0 <= i < t.len() ==> spec_token_wf(#[trigger] t[i])
}

/// The tokens of a separator-free part are well-formed serialized tokens.
proof fn lemma_tokens_wf(p: Seq<char>)
    requires
        spec_sep_free(p, ';'),
    ensures
        spec_toks_wf(spec_tokens(p)),
    decreases p.len(),
{
    if p.len() == 0 {
    } else if spec_is_ws(p[0]) {
        assert(spec_sep_free(p.skip(1), ';'));
        lemma_tokens_wf(p.skip(1));
    } else {
        let k = spec_find_ws(p);
        lemma_find_ws_props(p);
        let head = p.take(k);
        assert(spec_token_wf(head)) by {
            assert(k >= 1);
            assert(forall|j: int| 0 <= j < head.len() ==> head[j] == p[j]);
        }
        assert(spec_sep_free(p.skip(k), ';'));
        lemma_tokens_wf(p.skip(k));
        let out = spec_tokens(p);
        assert(out == seq![head] + spec_tokens(p.skip(k)));
        assert forall|i: int| 0 <= i < out.len() implies spec_token_wf(#[trigger] out[i]) by {
            if i > 0 {
                assert(out[i] == spec_tokens(p.skip(k))[i - 1]);
            }
        }
    }
}

/// Lowercasing keeps a token well-formed, and is idempotent.
proof fn lemma_lower_wf(t: Seq<char>)
    requires
        spec_token_wf(t),
    ensures
        spec_token_wf(spec_lower(t)),
        spec_lower(spec_lower(t)) == spec_lower(t),
{
    let l = spec_lower(t);
    assert forall|i: int| 0 <= i < l.len() implies !spec_is_ws(#[trigger] l[i]) && l[i]
        != ';' by {
        let c = t[i];
        assert(!spec_is_ws(c) && c != ';');
        if 65 <= (c as u32) && (c as u32) <= 90 {
            let r = spec_lower_char(c);
            assert(97 <= (r as u32) <= 122);
            if spec_is_ws(r) || r == ';' {
                assert((r as u32) < 97 || (r as u32) > 122);
            }
        }
    }
    assert(spec_lower(l) =~= l) by {
        assert forall|i: int| 0 <= i < l.len() implies spec_lower_char(#[trigger] l[i])
            == l[i] by {
            let c = t[i];
            if 65 <= (c as u32) && (c as u32) <= 90 {
                assert(97 <= (l[i] as u32) <= 122);
            } else {
                assert(l[i] == c);
            }
        }
    }
}

/// Every entry parsed out of a serialized CSP is well-formed.
proof fn lemma_entries_wf(s: Seq<char>)
    ensures
        spec_dirs_wf(spec_csp_entries(s)),
{
    reveal(Seq::filter);
    let parts = spec_split(s, ';');
    let tokf = |q: Seq<char>| spec_tokens(q);
    let nef = |t: Seq<Seq<char>>| t.len() > 0;
    let entf = |t: Seq<Seq<char>>| (spec_lower(t[0]), t.skip(1));
    let m = parts.map_values(tokf);
    lemma_split_no_sep(s, ';');
    assert forall|i: int| 0 <= i < m.len() implies spec_toks_wf(#[trigger] m[i]) by {
        lemma_tokens_wf(parts[i]);
    }
    lemma_filter_keeps_toks_wf(m, nef);
    let f = m.filter(nef);
    let out = f.map_values(entf);
    assert forall|i: int| 0 <= i < out.len() implies spec_dir_wf(#[trigger] out[i]) by {
        assert(spec_toks_wf(f[i]));
        Seq::lemma_filter_pred(m, nef, i);
        assert(f[i].len() > 0);
        assert(spec_token_wf(f[i][0]));
        lemma_lower_wf(f[i][0]);
        let e = entf(f[i]);
        assert(out[i] == e);
        assert forall|j: int| 0 <= j < e.1.len() implies spec_token_wf(#[trigger] e.1[j]) by {
            assert(e.1[j] == f[i][j + 1]);
        }
    }
}

/// Filtering keeps every element's tokens well-formed.
proof fn lemma_filter_keeps_toks_wf(m: Seq<Seq<Seq<char>>>, pred: spec_fn(Seq<Seq<char>>) -> bool)
    requires
        forall|i: int| 0 <= i < m.len() ==> spec_toks_wf(#[trigger] m[i]),
    ensures
        forall|i: int|
            0 <= i < m.filter(pred).len() ==> spec_toks_wf(#[trigger] m.filter(pred)[i]),
    decreases m.len(),
{
    reveal(Seq::filter);
    if m.len() > 0 {
        let pre = m.drop_last();
        assert(forall|i: int| 0 <= i < pre.len() ==> spec_toks_wf(#[trigger] pre[i]));
        lemma_filter_keeps_toks_wf(pre, pred);
        let out = m.filter(pred);
        assert forall|i: int| 0 <= i < out.len() implies spec_toks_wf(#[trigger] out[i]) by {
            if pred(m.last()) {
                assert(out == pre.filter(pred).push(m.last()));
                if i < out.len() - 1 {
                    assert(out[i] == pre.filter(pred)[i]);
                } else {
                    assert(out[i] == m.last());
                }
            } else {
                assert(out == pre.filter(pred));
            }
        }
    }
}

/// A name absent from the lookup differs from every name in the list.
proof fn lemma_lookup_none_all_differ(l: Seq<(Seq<char>, Seq<Seq<char>>)>, name: Seq<char>)
    requires
        spec_lookup(l, name) is None,
    ensures
        forall|i: int| 0 <= i < l.len() ==> (#[trigger] l[i]).0 != name,
    decreases l.len(),
{
    if l.len() > 0 {
        lemma_lookup_none_all_differ(l.skip(1), name);
        assert forall|i: int| 0 <= i < l.len() implies (#[trigger] l[i]).0 != name by {
            if i > 0 {
                assert(l[i] == l.skip(1)[i - 1]);
            }
        }
    }
}

/// A found value is the value of some list element.
proof fn lemma_lookup_member(l: Seq<(Seq<char>, Seq<Seq<char>>)>, name: Seq<char>)
    requires
        spec_lookup(l, name) is Some,
    ensures
        exists|i: int|
            0 <= i < l.len() && (#[trigger] l[i]).1 == spec_lookup(l, name).unwrap(),
    decreases l.len(),
{
    if l[0].0 == name {
        assert(l[0].1 == spec_lookup(l, name).unwrap());
    } else {
        lemma_lookup_member(l.skip(1), name);
        let i = choose|i: int|
            0 <= i < l.skip(1).len() && (#[trigger] l.skip(1)[i]).1 == spec_lookup(
                l.skip(1),
                name,
            ).unwrap();
        assert(l[i + 1].1 == spec_lookup(l, name).unwrap());
    }
}

/// Sorted insertion of a fresh name keeps the list sorted, and adds no
/// element but the new one.
proof fn lemma_insert_sorted(
    l: Seq<(Seq<char>, Seq<Seq<char>>)>,
    name: Seq<char>,
    values: Seq<Seq<char>>,
)
    requires
        spec_dirs_sorted(l),
        forall|i: int| 0 <= i < l.len() ==> (#[trigger] l[i]).0 != name,
    ensures
        spec_dirs_sorted(spec_sorted_insert(l, name, values)),
        forall|j: int|
            0 <= j < spec_sorted_insert(l, name, values).len() ==> (#[trigger] spec_sorted_insert(
                l,
                name,
                values,
            )[j]) == (name, values) || l.contains(spec_sorted_insert(l, name, values)[j]),
    decreases l.len(),
{
    let out = spec_sorted_insert(l, name, values);
    if l.len() == 0 {
        assert(out =~= seq![(name, values)]);
    } else if spec_lex_lt(name, l[0].0) {
        assert(out =~= seq![(name, values)] + l);
        assert forall|i: int, j: int| 0 <= i < j < out.len() implies spec_lex_lt(
            (#[trigger] out[i]).0,
            (#[trigger] out[j]).0,
        ) by {
            if i == 0 {
                assert(out[j] == l[j - 1]);
                if j > 1 {
                    assert(spec_lex_lt(l[0].0, l[j - 1].0));
                    lemma_lex_lt_trans(name, l[0].0, l[j - 1].0);
                }
            } else {
                assert(out[i] == l[i - 1]);
                assert(out[j] == l[j - 1]);
            }
        }
        assert forall|j: int| 0 <= j < out.len() implies (#[trigger] out[j]) == (name, values)
            || l.contains(out[j]) by {
            if j > 0 {
                assert(out[j] == l[j - 1]);
            }
        }
    } else {
        assert(l[0].0 != name);
        lemma_lex_lt_total(name, l[0].0);
        assert(spec_lex_lt(l[0].0, name));
        let rest = l.skip(1);
        assert(spec_dirs_sorted(rest)) by {
            assert(forall|i: int, j: int|
                0 <= i < j < rest.len() ==> (#[trigger] rest[i]) == l[i + 1] && (#[trigger] rest[j])
                    == l[j + 1]);
        }
        assert(forall|i: int| 0 <= i < rest.len() ==> (#[trigger] rest[i]).0 != name) by {
            assert(forall|i: int| 0 <= i < rest.len() ==> (#[trigger] rest[i]) == l[i + 1]);
        }
        lemma_insert_sorted(rest, name, values);
        let sub = spec_sorted_insert(rest, name, values);
        assert(out =~= seq![l[0]] + sub);
        assert forall|i: int, j: int| 0 <= i < j < out.len() implies spec_lex_lt(
            (#[trigger] out[i]).0,
            (#[trigger] out[j]).0,
        ) by {
            if i == 0 {
                assert(out[j] == sub[j - 1]);
                if sub[j - 1] == (name, values) {
                    assert(spec_lex_lt(l[0].0, name));
                } else {
                    assert(rest.contains(sub[j - 1]));
                    let w = choose|w: int| 0 <= w < rest.len() && rest[w] == sub[j - 1];
                    assert(rest[w] == l[w + 1]);
                    assert(spec_lex_lt(l[0].0, l[w + 1].0));
                }
            } else {
                assert(out[i] == sub[i - 1]);
                assert(out[j] == sub[j - 1]);
            }
        }
        assert forall|j: int| 0 <= j < out.len() implies (#[trigger] out[j]) == (name, values)
            || l.contains(out[j]) by {
            if j == 0 {
                assert(l.contains(l[0]));
            } else {
                assert(out[j] == sub[j - 1]);
                if sub[j - 1] != (name, values) {
                    assert(rest.contains(sub[j - 1]));
                    let w = choose|w: int| 0 <= w < rest.len() && rest[w] == sub[j - 1];
                    assert(l[w + 1] == sub[j - 1]);
                }
            }
        }
    }
}

/// Adding one well-formed entry keeps the directive list sorted and
/// well-formed.
proof fn lemma_add_entry_wf_sorted(
    l: Seq<(Seq<char>, Seq<Seq<char>>)>,
    e: (Seq<char>, Seq<Seq<char>>),
)
    requires
        spec_dirs_sorted(l),
        spec_dirs_wf(l),
        spec_dir_wf(e),
    ensures
        spec_dirs_sorted(spec_add_entry(l, e)),
        spec_dirs_wf(spec_add_entry(l, e)),
{
    if spec_lookup(l, e.0) is None {
        lemma_lookup_none_all_differ(l, e.0);
        lemma_insert_sorted(l, e.0, e.1);
        let out = spec_sorted_insert(l, e.0, e.1);
        assert forall|j: int| 0 <= j < out.len() implies spec_dir_wf(#[trigger] out[j]) by {
            if out[j] == (e.0, e.1) {
                assert(e == (e.0, e.1));
            } else {
                assert(l.contains(out[j]));
                let w = choose|w: int| 0 <= w < l.len() && l[w] == out[j];
                assert(spec_dir_wf(l[w]));
            }
        }
    }
}

/// Folding well-formed entries yields a sorted, well-formed directive list.
proof fn lemma_build_wf_sorted(entries: Seq<(Seq<char>, Seq<Seq<char>>)>)
    requires
        spec_dirs_wf(entries),
    ensures
        spec_dirs_sorted(spec_build_dirs(entries)),
        spec_dirs_wf(spec_build_dirs(entries)),
    decreases entries.len(),
{
    if entries.len() > 0 {
        let pre = entries.drop_last();
        assert(spec_dirs_wf(pre)) by {
            assert(forall|i: int| 0 <= i < pre.len() ==> (#[trigger] pre[i]) == entries[i]);
        }
        lemma_build_wf_sorted(pre);
        assert(spec_dir_wf(entries.last()));
        lemma_add_entry_wf_sorted(spec_build_dirs(pre), entries.last());
    }
}

/// The parsed directive set of any serialized CSP is sorted and
/// well-formed.
proof fn lemma_csp_dirs_wf_sorted(s: Seq<char>)
    ensures
        spec_dirs_sorted(spec_csp_dirs(s)),
        spec_dirs_wf(spec_csp_dirs(s)),
{
    lemma_entries_wf(s);
    lemma_build_wf_sorted(spec_csp_entries(s));
}

/// Round trip of the CSP codec: serializing a sorted list of well-formed
/// directives and parsing the text back yields exactly that directive set.
pub proof fn lemma_parse_serialize(d: Seq<(Seq<char>, Seq<Seq<char>>)>)
    requires
        spec_dirs_wf(d),
        spec_dirs_sorted(d),
    ensures
        spec_csp_dirs(spec_serialize(d)) == d,
{
    lemma_entries_serialize(d);
    lemma_build_sorted(d);
}

/// The directive names and the source the rewriter inserts are well-formed,
/// lowercased tokens.
proof fn lemma_key_literals_wf()
    ensures
        spec_token_wf("script-src"@),
        spec_lower("script-src"@) == "script-src"@,
        spec_token_wf("connect-src"@),
        spec_lower("connect-src"@) == "connect-src"@,
        spec_token_wf("'self'"@),
{
    reveal_strlit("script-src");
    reveal_strlit("connect-src");
    reveal_strlit("'self'");
    assert(spec_lower("script-src"@) =~= "script-src"@);
    assert(spec_lower("connect-src"@) =~= "connect-src"@);
}

/// Filtering keeps every element a well-formed token.
proof fn lemma_filter_keeps_token_wf(s: Seq<Seq<char>>, pred: spec_fn(Seq<char>) -> bool)
    requires
        spec_toks_wf(s),
    ensures
        spec_toks_wf(s.filter(pred)),
    decreases s.len(),
{
    reveal(Seq::filter);
    if s.len() > 0 {
        let pre = s.drop_last();
        assert(spec_toks_wf(pre)) by {
            assert(forall|i: int| 0 <= i < pre.len() ==> (#[trigger] pre[i]) == s[i]);
        }
        lemma_filter_keeps_token_wf(pre, pred);
        let out = s.filter(pred);
        assert forall|i: int| 0 <= i < out.len() implies spec_token_wf(#[trigger] out[i]) by {
            if pred(s.last()) {
                assert(out == pre.filter(pred).push(s.last()));
                if i < out.len() - 1 {
                    assert(out[i] == pre.filter(pred)[i]);
                } else {
                    assert(out[i] == s.last());
                }
            } else {
                assert(out == pre.filter(pred));
            }
        }
    }
}

/// The repaired value list of a well-formed policy is well-formed.
proof fn lemma_fixed_vals_wf(l: Seq<(Seq<char>, Seq<Seq<char>>)>, key: Seq<char>)
    requires
        spec_dirs_wf(l),
    ensures
        spec_toks_wf(spec_fixed_vals(l, key)),
{
    lemma_key_literals_wf();
    let old_vals = match spec_lookup(l, key) {
        Option::Some(v) => v,
        Option::None => Seq::empty(),
    };
    assert(spec_toks_wf(old_vals)) by {
        if spec_lookup(l, key) is Some {
            lemma_lookup_member(l, key);
            let w = choose|w: int|
                0 <= w < l.len() && (#[trigger] l[w]).1 == spec_lookup(l, key).unwrap();
            assert(spec_dir_wf(l[w]));
        }
    }
    let keepf = |v: Seq<char>| v != "'none'"@;
    lemma_filter_keeps_token_wf(old_vals, keepf);
    let out = spec_fixed_vals(l, key);
    assert(out == old_vals.filter(keepf).push("'self'"@));
    assert forall|i: int| 0 <= i < out.len() implies spec_token_wf(#[trigger] out[i]) by {
        if i < out.len() - 1 {
            assert(out[i] == old_vals.filter(keepf)[i]);
        } else {
            assert(out[i] == "'self'"@);
        }
    }
}

/// Replacing the values of one name keeps the list sorted and, when the new
/// values are well-formed, well-formed.
proof fn lemma_set_vals_wf_sorted(
    l: Seq<(Seq<char>, Seq<Seq<char>>)>,
    key: Seq<char>,
    vals: Seq<Seq<char>>,
)
    requires
        spec_dirs_wf(l),
        spec_dirs_sorted(l),
        spec_toks_wf(vals),
    ensures
        spec_dirs_sorted(spec_set_vals(l, key, vals)),
        spec_dirs_wf(spec_set_vals(l, key, vals)),
{
    let out = spec_set_vals(l, key, vals);
    assert(forall|i: int| 0 <= i < out.len() ==> (#[trigger] out[i]).0 == l[i].0);
    assert forall|i: int, j: int| 0 <= i < j < out.len() implies spec_lex_lt(
        (#[trigger] out[i]).0,
        (#[trigger] out[j]).0,
    ) by {
        assert(spec_lex_lt(l[i].0, l[j].0));
    }
    assert forall|i: int| 0 <= i < out.len() implies spec_dir_wf(#[trigger] out[i]) by {
        assert(spec_dir_wf(l[i]));
        if l[i].0 == key {
            assert(out[i] == (key, vals));
        } else {
            assert(out[i] == l[i]);
        }
    }
}

/// Setting or inserting a well-formed directive keeps the list sorted and
/// well-formed.
proof fn lemma_set_or_insert_wf_sorted(
    l: Seq<(Seq<char>, Seq<Seq<char>>)>,
    key: Seq<char>,
    vals: Seq<Seq<char>>,
)
    requires
        spec_dirs_wf(l),
        spec_dirs_sorted(l),
        spec_toks_wf(vals),
        spec_token_wf(key),
        spec_lower(key) == key,
    ensures
        spec_dirs_sorted(spec_set_or_insert(l, key, vals)),
        spec_dirs_wf(spec_set_or_insert(l, key, vals)),
{
    if spec_lookup(l, key) is Some {
        lemma_set_vals_wf_sorted(l, key, vals);
    } else {
        lemma_lookup_none_all_differ(l, key);
        lemma_insert_sorted(l, key, vals);
        let out = spec_sorted_insert(l, key, vals);
        assert forall|j: int| 0 <= j < out.len() implies spec_dir_wf(#[trigger] out[j]) by {
            if out[j] == (key, vals) {
            } else {
                assert(l.contains(out[j]));
                let w = choose|w: int| 0 <= w < l.len() && l[w] == out[j];
                assert(spec_dir_wf(l[w]));
            }
        }
    }
}

/// The rewriter keeps the directive set sorted and well-formed.
proof fn lemma_rewrite_wf_sorted(l: Seq<(Seq<char>, Seq<Seq<char>>)>)
    requires
        spec_dirs_wf(l),
        spec_dirs_sorted(l),
    ensures
        spec_dirs_sorted(spec_rewrite_dirs(l)),
        spec_dirs_wf(spec_rewrite_dirs(l)),
{
    lemma_key_literals_wf();
    let sa = spec_permits(l, "script-src"@);
    let ca = spec_permits(l, "connect-src"@);
    let l1 = if sa {
        l
    } else {
        spec_set_or_insert(l, "script-src"@, spec_fixed_vals(l, "script-src"@))
    };
    if !sa {
        lemma_fixed_vals_wf(l, "script-src"@);
        lemma_set_or_insert_wf_sorted(l, "script-src"@, spec_fixed_vals(l, "script-src"@));
    }
    if !ca {
        lemma_fixed_vals_wf(l, "connect-src"@);
        lemma_set_or_insert_wf_sorted(l1, "connect-src"@, spec_fixed_vals(l, "connect-src"@));
    }
}

/// The law of the CSP rewriter, on header text: a policy that already
/// permits scripts from and connections to the page's own origin is returned
/// unchanged, and the returned policy always permits both.
pub proof fn lemma_rewrite_csp_permits(s: Seq<char>)
    ensures
        spec_permits_both(spec_csp_dirs(s)) ==> spec_rewrite_csp(s) == s,
        spec_permits_both(spec_csp_dirs(spec_rewrite_csp(s))),
{
    let d0 = spec_csp_dirs(s);
    lemma_rewrite_dirs_permits_both(d0);
    if !spec_permits_both(d0) {
        lemma_csp_dirs_wf_sorted(s);
        lemma_rewrite_wf_sorted(d0);
        lemma_parse_serialize(spec_rewrite_dirs(d0));
    }
}

/// Decides whether the policy permits `key` for the page's own origin.
fn permits_key(ds: &Vec<CspDirective>, key: &Vec<char>) -> (r: bool)
    ensures
        r == spec_permits(view_dirs(ds@), key@),
{
    match lookup_dir(ds, key) {
        Some(i) => has_self_or_star(&ds[i].values),
        None => {
            let def = str_chars("default-src");
            match lookup_dir(ds, &def) {
                Some(i) => has_self_or_star(&ds[i].values),
                None => true,
            }
        }
    }
}

/// Computes the repaired value list for `key`: the old values without
/// `'none'`, with `'self'` appended.
fn fixed_vals(ds: &Vec<CspDirective>, key: &Vec<char>) -> (r: Vec<Vec<char>>)
    ensures
        r.deep_view() == spec_fixed_vals(view_dirs(ds@), key@),
{
    let ghost keepf = |v: Seq<char>| v != "'none'"@;
    let mut out: Vec<Vec<char>> = Vec::new();
    proof {
        reveal(Seq::filter);
    }
    match lookup_dir(ds, key) {
        Some(i) => {
            let old_vals = &ds[i].values;
            let ghost ov = old_vals.deep_view();
            let n = old_vals.len();
            let mut k: usize = 0;
            proof {
                assert(ov.take(0) =~= Seq::<Seq<char>>::empty());
                assert(out.deep_view() =~~= ov.take(0).filter(keepf));
            }
            while k < n
                invariant
                    0 <= k <= n,
                    n == old_vals@.len(),
                    ov == old_vals.deep_view(),
                    out.deep_view() == ov.take(k as int).filter(keepf),
                decreases n - k,
            {
                proof {
                    reveal(Seq::filter);
                    assert(ov[k as int] =~= old_vals@[k as int]@);
                    assert(ov.take(k + 1).drop_last() =~= ov.take(k as int));
                }
                if !chars_eq_str(&old_vals[k], "'none'") {
                    let e = chars_subrange(&old_vals[k], 0, old_vals[k].len());
                    let ghost odv = out.deep_view();
                    proof {
                        assert(e@ =~= ov[k as int]);
                        assert(e.deep_view() =~= e@);
                    }
                    out.push(e);
                    proof {
                        assert(out.deep_view() =~~= odv.push(ov[k as int]));
                    }
                }
                proof {
                    if keepf(ov[k as int]) {
                        assert(ov.take(k + 1).filter(keepf) == ov.take(k as int).filter(
                            keepf,
                        ).push(ov[k as int]));
                    } else {
                        assert(ov.take(k + 1).filter(keepf) == ov.take(k as int).filter(keepf));
                    }
                }
                k = k + 1;
            }
            proof {
                assert(ov.take(n as int) =~= ov);
            }
        }
        None => {
            proof {
                assert(Seq::<Seq<char>>::empty().filter(keepf) =~= Seq::<Seq<char>>::empty());
                assert(out.deep_view() =~~= Seq::<Seq<char>>::empty());
            }
        }
    }
    let selfv = str_chars("'self'");
    let ghost odv = out.deep_view();
    proof {
        assert(selfv.deep_view() =~= selfv@);
    }
    out.push(selfv);
    proof {
        assert(out.deep_view() =~~= odv.push("'self'"@));
    }
    out
}

/// Replaces the values of every directive named `key`.
fn set_vals_exec(ds: Vec<CspDirective>, key: &Vec<char>, vals: &Vec<Vec<char>>) -> (r: Vec<
    CspDirective,
>)
    ensures
        view_dirs(r@) == spec_set_vals(view_dirs(ds@), key@, vals.deep_view()),
{
    let n = ds.len();
    let mut r: Vec<CspDirective> = Vec::new();
    let mut i: usize = 0;
    proof {
        assert(view_dirs(r@) =~~= spec_set_vals(view_dirs(ds@), key@, vals.deep_view()).take(0));
    }
    while i < n
        invariant
            0 <= i <= n,
            n == ds@.len(),
            view_dirs(r@) == spec_set_vals(view_dirs(ds@), key@, vals.deep_view()).take(i as int),
        decreases n - i,
    {
        let ghost target = spec_set_vals(view_dirs(ds@), key@, vals.deep_view());
        if chars_eq(&ds[i].name, key) {
            let namec = chars_subrange(key, 0, key.len());
            let valsc = tail_vecs_from(vals, 0);
            proof {
                assert(namec@ =~= key@);
                assert(valsc.deep_view() =~~= vals.deep_view());
                assert(view_dirs(ds@)[i as int].0 == key@);
                assert(target[i as int] == (key@, vals.deep_view()));
            }
            r.push(CspDirective { name: namec, values: valsc });
        } else {
            let namec = chars_subrange(&ds[i].name, 0, ds[i].name.len());
            let valsc = tail_vecs_from(&ds[i].values, 0);
            proof {
                assert(namec@ =~= ds@[i as int].name@);
                assert(valsc.deep_view() =~~= ds@[i as int].values.deep_view());
                assert(view_dirs(ds@)[i as int].0 == ds@[i as int].name@);
                assert(target[i as int] == view_dirs(ds@)[i as int]);
            }
            r.push(CspDirective { name: namec, values: valsc });
        }
        proof {
            assert(view_dirs(r@) =~~= target.take(i + 1));
        }
        i = i + 1;
    }
    proof {
        let target = spec_set_vals(view_dirs(ds@), key@, vals.deep_view());
        assert(target.take(n as int) =~= target);
    }
    r
}

/// Copies a token list from position `from` on.
fn tail_vecs_from(v: &Vec<Vec<char>>, from: usize) -> (r: Vec<Vec<char>>)
    requires
        from <= v@.len(),
    ensures
        r.deep_view() == v.deep_view().skip(from as int),
{
    let n = v.len();
    let mut r: Vec<Vec<char>> = Vec::new();
    let mut i: usize = from;
    while i < n
        invariant
            from <= i <= n,
            n == v@.len(),
            r.deep_view() =~~= v.deep_view().subrange(from as int, i as int),
        decreases n - i,
    {
        let e = chars_subrange(&v[i], 0, v[i].len());
        proof {
            assert(e@ =~= v.deep_view()[i as int]);
            assert(e.deep_view() =~= e@);
        }
        r.push(e);
        proof {
            assert(r.deep_view() =~~= v.deep_view().subrange(from as int, i + 1));
        }
        i = i + 1;
    }
    proof {
        assert(v.deep_view().subrange(from as int, n as int) =~= v.deep_view().skip(from as int));
    }
    r
}

/// Sets `key`'s values when present, inserts the directive otherwise.
fn set_or_insert(ds: Vec<CspDirective>, key: &Vec<char>, vals: Vec<Vec<char>>) -> (r: Vec<
    CspDirective,
>)
    ensures
        view_dirs(r@) == spec_set_or_insert(view_dirs(ds@), key@, vals.deep_view()),
{
    match lookup_dir(&ds, key) {
        Some(_) => set_vals_exec(ds, key, &vals),
        None => {
            let namec = chars_subrange(key, 0, key.len());
            proof {
                assert(namec@ =~= key@);
            }
            sorted_insert(ds, CspDirective { name: namec, values: vals })
        }
    }
}

/// Serializes a directive list: `name value ... value; ` for each directive.
fn serialize_dirs(ds: &Vec<CspDirective>) -> (out: Vec<char>)
    ensures
        out@ == spec_serialize(view_dirs(ds@)),
{
    let n = ds.len();
    let mut out: Vec<char> = Vec::new();
    let mut i: usize = 0;
    proof {
        assert(view_dirs(ds@).take(0) =~= Seq::<(Seq<char>, Seq<Seq<char>>)>::empty());
    }
    while i < n
        invariant
            0 <= i <= n,
            n == ds@.len(),
            out@ == spec_serialize(view_dirs(ds@).take(i as int)),
        decreases n - i,
    {
        let ghost dv = view_dirs(ds@);
        let ghost pre = out@;
        chars_append(&mut out, &ds[i].name);
        let vals = &ds[i].values;
        let ghost vv = vals.deep_view();
        let m = vals.len();
        let mut k: usize = 0;
        proof {
            assert(vv.take(0) =~= Seq::<Seq<char>>::empty());
            assert(out@ =~= pre + dv[i as int].0 + spec_vals_str(vv.take(0)));
        }
        while k < m
            invariant
                0 <= k <= m,
                m == vals@.len(),
                vv == vals.deep_view(),
                vals == &ds[i as int].values,
                i < n == ds@.len(),
                out@ == pre + dv[i as int].0 + spec_vals_str(vv.take(k as int)),
            decreases m - k,
        {
            out.push(' ');
            chars_append(&mut out, &vals[k]);
            proof {
                assert(vv[k as int] =~= vals@[k as int]@);
                assert(vv.take(k + 1).drop_last() =~= vv.take(k as int));
                assert(out@ =~= pre + dv[i as int].0 + spec_vals_str(vv.take(k + 1)));
            }
            k = k + 1;
        }
        out.push(';');
        out.push(' ');
        proof {
            assert(vv.take(m as int) =~= vv);
            assert(dv.take(i + 1).drop_last() =~= dv.take(i as int));
            assert(dv[i as int].1 == vv);
            assert(out@ =~= spec_serialize(dv.take(i + 1)));
        }
        i = i + 1;
    }
    proof {
        assert(view_dirs(ds@).take(n as int) =~= view_dirs(ds@));
    }
    out
}

/// Rewrites a `Content-Security-Policy` header value so that the injected
/// script may load from and connect back to the page's own origin. A policy
/// that already permits both is returned unchanged; otherwise the repaired
/// policy is serialized with its directives sorted by name.
pub fn rewrite_csp(s: &str) -> (r: String)
    ensures
        r@ == spec_rewrite_csp(s@),
{
    let chars = str_chars(s);
    let ds = parse_csp(&chars);
    let ghost d0 = view_dirs(ds@);

    let script_key = str_chars("script-src");
    let connect_key = str_chars("connect-src");
    let sa = permits_key(&ds, &script_key);
    let ca = permits_key(&ds, &connect_key);
    if sa && ca {
        return String::from_str(s);
    }

    let fs = fixed_vals(&ds, &script_key);
    let fc = fixed_vals(&ds, &connect_key);

    let mut ds2 = ds;
    if !sa {
        ds2 = set_or_insert(ds2, &script_key, fs);
    }
    let ghost l1 = view_dirs(ds2@);
    proof {
        if sa {
            assert(l1 == d0);
        } else {
            assert(l1 == spec_set_or_insert(d0, "script-src"@, spec_fixed_vals(
                d0,
                "script-src"@,
            )));
        }
    }
    if !ca {
        ds2 = set_or_insert(ds2, &connect_key, fc);
    }
    proof {
        if ca {
            assert(view_dirs(ds2@) == l1);
        } else {
            assert(view_dirs(ds2@) == spec_set_or_insert(l1, "connect-src"@, spec_fixed_vals(
                d0,
                "connect-src"@,
            )));
        }
        assert(view_dirs(ds2@) == spec_rewrite_dirs(d0));
    }
    let out = serialize_dirs(&ds2);
    chars_to_string(&out)
}

} // verus!
