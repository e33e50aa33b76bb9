//! Placeholder substitution engines: the i18n formatter with default values
//! (`{name='Guest'}`, `{0='Knife'}`), the single-pass named and 1-based
//! positional substituters used by the plugin macros, and the plain
//! replace-all formatter of the dictionary engine.

use vstd::prelude::*;
use crate::text::{
    all_digits, digits_value, is_digit, trim_start, trim_end, trim_matches_start, trim_matches_end,
    chars_eq, chars_to_string, extend_chars, extend_str, find_char, first_index_of, lemma_first_index_of_props, parse_usize,
    parse_usize_chars, push_decimal, replace_all, replace_all_chars, decimal, slice_chars, split_once, split_once_chars, str_chars, trim, trim_chars,
    trim_matches, trim_matches_chars,
};

verus! {

/// Named arguments as character sequences.
pub open spec fn named_view(named: Seq<(&str, &str)>) -> Seq<(Seq<char>, Seq<char>)> {
    named.map_values(|p: (&str, &str)| (p.0@, p.1@))
}

/// Positional arguments as character sequences.
pub open spec fn pos_view(pos: Seq<&str>) -> Seq<Seq<char>> {
    pos.map_values(|p: &str| p@)
}

/// The value of the first named argument called `key`.
pub open spec fn find_named(named: Seq<(Seq<char>, Seq<char>)>, key: Seq<char>) -> Option<
    Seq<char>,
>
    decreases named.len(),
{
    if named.len() == 0 {
        None
    } else if named[0].0 == key {
        Some(named[0].1)
    } else {
        find_named(named.drop_first(), key)
    }
}

/// `{` + `s` + `}`.
pub open spec fn braced(s: Seq<char>) -> Seq<char> {
    seq!['{'] + s + seq!['}']
}

// ---------------------------------------------------------------------------
// Formatter with default values
// ---------------------------------------------------------------------------

/// Characters that a backslash escapes in a template.
pub open spec fn is_escapable(c: char) -> bool {
    c == '{' || c == '}' || c == '$' || c == '@'
}

/// The parameter name and optional default of a placeholder body: the text
/// before the first `=` trimmed, and the text after it trimmed and stripped
/// of single, then double, quotes.
pub open spec fn placeholder_parts(p: Seq<char>) -> (Seq<char>, Option<Seq<char>>) {
    match split_once(p, '=') {
        Some((name, def)) => (trim(name), Some(trim_matches(trim_matches(trim(def), '\''), '"'))),
        None => (trim(p), None),
    }
}

/// What a closed placeholder `{p}` becomes: the first named argument of that
/// name, else the positional argument of that decimal index, else its
/// default, else the placeholder itself.
pub open spec fn resolve_placeholder(
    p: Seq<char>,
    named: Seq<(Seq<char>, Seq<char>)>,
    pos: Seq<Seq<char>>,
) -> Seq<char> {
    let (name, def) = placeholder_parts(p);
    match find_named(named, name) {
        Some(v) => v,
        None => match parse_usize(name) {
            Some(idx) if idx < pos.len() => pos[idx as int],
            _ => match def {
                Some(d) => d,
                None => braced(p),
            },
        },
    }
}

/// The formatted text of a template with default-valued placeholders.
pub open spec fn format_spec(
    t: Seq<char>,
    named: Seq<(Seq<char>, Seq<char>)>,
    pos: Seq<Seq<char>>,
) -> Seq<char>
    decreases t.len(),
{
    if t.len() == 0 {
        Seq::empty()
    } else if t[0] == '\\' {
        if t.len() > 1 && is_escapable(t[1]) {
            seq![t[1]] + format_spec(t.skip(2), named, pos)
        } else {
            seq!['\\'] + format_spec(t.drop_first(), named, pos)
        }
    } else if t[0] == '{' {
        let rest = t.drop_first();
        proof {
            lemma_first_index_of_props(rest, '}');
        }
        match first_index_of(rest, '}') {
            Some(j) => resolve_placeholder(rest.take(j), named, pos) + format_spec(
                rest.skip(j + 1),
                named,
                pos,
            ),
            None => seq!['{'] + rest,
        }
    } else {
        seq![t[0]] + format_spec(t.drop_first(), named, pos)
    }
}

/// A placeholder that nothing fills is kept: a closed `{p}` (with no `}`
/// and no `=` in `p`, so no default) whose trimmed name is neither a named
/// argument nor the index of a positional argument is output as written,
/// and the text after it is formatted as it would be on its own.
pub proof fn lemma_unresolved_placeholder_kept(
    p: Seq<char>,
    rest: Seq<char>,
    named: Seq<(Seq<char>, Seq<char>)>,
    pos: Seq<Seq<char>>,
)
    requires
        forall|i: int| 0 <= i < p.len() ==> #[trigger] p[i] != '}' && p[i] != '=',
        find_named(named, trim(p)) is None,
        match parse_usize(trim(p)) {
            Some(n) => n >= pos.len(),
            None => true,
        },
    ensures
        format_spec(seq!['{'] + p + seq!['}'] + rest, named, pos) == seq!['{'] + p + seq!['}'] + format_spec(rest, named, pos),
{
    let t = seq!['{'] + p + seq!['}'] + rest;
    let r = t.drop_first();
    assert(r =~= p + seq!['}'] + rest);
    lemma_first_index_of_props(r, '}');
    lemma_first_index_of_props(p, '=');
    assert(r[p.len() as int] == '}');
    assert forall|j: int| 0 <= j < p.len() implies #[trigger] r[j] != '}' by {
        assert(r[j] == p[j]);
    }
    match first_index_of(r, '}') {
        Some(j) => {
            if j < p.len() {
                assert(r[j] == p[j]);
            }
            assert(j == p.len());
        },
        None => {
            assert(r[p.len() as int] == '}');
        },
    }
    assert(first_index_of(r, '}') == Some(p.len() as int));
    assert(r.take(p.len() as int) =~= p);
    assert(r.skip(p.len() as int + 1) =~= rest);
    assert(first_index_of(p, '=') is None) by {
        if first_index_of(p, '=') is Some {
            let j = first_index_of(p, '=')->0;
            assert(p[j] == '=');
        }
    }
    assert(placeholder_parts(p) == (trim(p), None::<Seq<char>>));
    assert(resolve_placeholder(p, named, pos) == braced(p));
    assert(t[0] == '{');
}

/// How a template is read, piece by piece: a character that starts no
/// escape and no placeholder is copied; `\{`, `\}`, `\$` and `\@` give the
/// escaped character; a closed `{p}` is replaced by what `p` resolves to;
/// the rest of the text is formatted on its own.
pub proof fn lemma_format_pieces(c: char, p: Seq<char>, rest: Seq<char>, named: Seq<(Seq<char>, Seq<char>)>, pos: Seq<Seq<char>>)
    ensures
        c != '\\' && c != '{' ==> format_spec(seq![c] + rest, named, pos) == seq![c] + format_spec(rest, named, pos),
        (c == '{' || c == '}' || c == '$' || c == '@') ==> format_spec(seq!['\\', c] + rest, named, pos) == seq![c]
            + format_spec(rest, named, pos),
        (forall|i: int| 0 <= i < p.len() ==> #[trigger] p[i] != '}') ==> format_spec(
            seq!['{'] + p + seq!['}'] + rest,
            named,
            pos,
        ) == resolve_placeholder(p, named, pos) + format_spec(rest, named, pos),
        !(c == '{' || c == '}' || c == '$' || c == '@') ==> format_spec(seq!['\\', c] + rest, named, pos) == seq!['\\']
            + format_spec(seq![c] + rest, named, pos),
        (forall|i: int| 0 <= i < p.len() ==> #[trigger] p[i] != '}') ==> format_spec(seq!['{'] + p, named, pos) == seq!['{']
            + p,
{
    assert((seq!['\\', c] + rest).drop_first() =~= seq![c] + rest);
    if forall|i: int| 0 <= i < p.len() ==> #[trigger] p[i] != '}' {
        lemma_first_index_of_props(p, '}');
        if first_index_of(p, '}') is Some {
            let j = first_index_of(p, '}')->0;
            assert(p[j] == '}');
        }
        assert((seq!['{'] + p).drop_first() =~= p);
    }
    assert((seq![c] + rest).drop_first() =~= rest);
    assert((seq!['\\', c] + rest).skip(2) =~= rest);
    if forall|i: int| 0 <= i < p.len() ==> #[trigger] p[i] != '}' {
        let t = seq!['{'] + p + seq!['}'] + rest;
        let r = t.drop_first();
        assert(r =~= p + seq!['}'] + rest);
        lemma_first_index_of_props(r, '}');
        assert(r[p.len() as int] == '}');
        match first_index_of(r, '}') {
            Some(j) => {
                if j < p.len() {
                    assert(r[j] == p[j]);
                }
            },
            None => {},
        }
        assert(first_index_of(r, '}') == Some(p.len() as int));
        assert(r.take(p.len() as int) =~= p);
        assert(r.skip(p.len() as int + 1) =~= rest);
    }
}

proof fn lemma_no_char_split(p: Seq<char>, c: char)
    requires
        forall|i: int| 0 <= i < p.len() ==> #[trigger] p[i] != c,
    ensures
        split_once(p, c) is None,
{
    lemma_first_index_of_props(p, c);
    if first_index_of(p, c) is Some {
        let j = first_index_of(p, c)->0;
        assert(p[j] == c);
    }
}

/// What a placeholder body resolves to. Without a `=`: the value of the
/// first named argument of its trimmed name; else, when the trimmed name is
/// a decimal index of a positional argument, that argument. With a default
/// written `name='d'` (`d` without quotes): the default, when no argument
/// fills the name.
pub proof fn lemma_placeholder_values(p: Seq<char>, n: Seq<char>, d: Seq<char>, named: Seq<(Seq<char>, Seq<char>)>, pos: Seq<Seq<char>>, k: int)
    requires
        pos.len() <= usize::MAX,
    ensures
        (forall|i: int| 0 <= i < p.len() ==> #[trigger] p[i] != '=') && 0 <= k < named.len() && named[k].0 == trim(p)
            && (forall|j: int| 0 <= j < k ==> (#[trigger] named[j]).0 != trim(p)) ==> resolve_placeholder(p, named, pos)
            == named[k].1,
        (forall|i: int| 0 <= i < p.len() ==> #[trigger] p[i] != '=') && (forall|j: int| 0 <= j < named.len() ==> (
        #[trigger] named[j]).0 != trim(p)) && trim(p).len() > 0 && all_digits(trim(p)) && digits_value(trim(p))
            < pos.len() ==> resolve_placeholder(p, named, pos) == pos[digits_value(trim(p)) as int],
        (forall|i: int| 0 <= i < n.len() ==> #[trigger] n[i] != '=') && (forall|i: int| 0 <= i < d.len() ==> #[trigger] d[i]
            != '\'' && d[i] != '"') && (forall|j: int| 0 <= j < named.len() ==> (#[trigger] named[j]).0 != trim(n))
            && (trim(n).len() == 0 || (!is_digit(trim(n)[0]) && trim(n)[0] != '+')) ==> resolve_placeholder(
            n + seq!['=', '\''] + d + seq!['\''],
            named,
            pos,
        ) == d,
{
    if forall|i: int| 0 <= i < p.len() ==> #[trigger] p[i] != '=' {
        lemma_no_char_split(p, '=');
        assert(placeholder_parts(p) == (trim(p), None::<Seq<char>>));
        if 0 <= k < named.len() && named[k].0 == trim(p) && (forall|j: int| 0 <= j < k ==> (#[trigger] named[j]).0 != trim(p)) {
            lemma_find_named_first(named, trim(p), k);
        }
        if (forall|j: int| 0 <= j < named.len() ==> (#[trigger] named[j]).0 != trim(p)) {
            lemma_find_named_none(named, trim(p));
            let t = trim(p);
            if t.len() > 0 && all_digits(t) && digits_value(t) < pos.len() {
                assert(t[0] != '+') by {
                    assert(is_digit(t[0]));
                }
                assert(parse_usize(t) == Some(digits_value(t)));
            }
        }
    }
    if (forall|i: int| 0 <= i < n.len() ==> #[trigger] n[i] != '=') && (forall|i: int| 0 <= i < d.len() ==> #[trigger] d[i]
        != '\'' && d[i] != '"') && (forall|j: int| 0 <= j < named.len() ==> (#[trigger] named[j]).0 != trim(n)) && (trim(
        n,
    ).len() == 0 || (!is_digit(trim(n)[0]) && trim(n)[0] != '+')) {
        let q = n + seq!['=', '\''] + d + seq!['\''];
        let tail = seq!['\''] + d + seq!['\''];
        lemma_first_index_of_props(q, '=');
        assert(q[n.len() as int] == '=');
        match first_index_of(q, '=') {
            Some(j) => {
                if j < n.len() {
                    assert(q[j] == n[j]);
                }
            },
            None => {},
        }
        assert(first_index_of(q, '=') == Some(n.len() as int));
        assert(q.take(n.len() as int) =~= n);
        assert(q.skip(n.len() as int + 1) =~= tail);
        assert(trim_start(tail) == tail);
        assert(trim_end(tail) == tail);
        assert(trim(tail) == tail);
        assert(tail.drop_first() =~= d + seq!['\'']);
        if d.len() > 0 {
            assert((d + seq!['\''])[0] == d[0]);
            assert(trim_matches_start(d + seq!['\''], '\'') == d + seq!['\'']);
            assert((d + seq!['\'']).drop_last() =~= d);
            assert(trim_matches_end(d, '\'') == d);
            assert(trim_matches_end(d + seq!['\''], '\'') == d);
            assert(trim_matches(tail, '\'') == d);
            assert(trim_matches_start(d, '"') == d);
            assert(trim_matches_end(d, '"') == d);
        } else {
            assert(d + seq!['\''] =~= seq!['\'']);
            assert(seq!['\''].drop_first() =~= Seq::<char>::empty());
            assert(trim_matches_start(Seq::<char>::empty(), '\'') == Seq::<char>::empty());
            assert(trim_matches_start(seq!['\''], '\'') == Seq::<char>::empty());
            assert(trim_matches(tail, '\'') == Seq::<char>::empty());
            assert(d =~= Seq::<char>::empty());
        }
        assert(placeholder_parts(q) == (trim(n), Some(d)));
        lemma_find_named_none(named, trim(n));
        assert(parse_usize(trim(n)) is None) by {
            let t = trim(n);
            if t.len() > 0 {
                assert(!is_digit(t[0]));
            }
        }
    }
}

proof fn lemma_find_named_first(named: Seq<(Seq<char>, Seq<char>)>, key: Seq<char>, k: int)
    requires
        0 <= k < named.len(),
        named[k].0 == key,
        forall|j: int| 0 <= j < k ==> (#[trigger] named[j]).0 != key,
    ensures
        find_named(named, key) == Some(named[k].1),
    decreases k,
{
    if k > 0 {
        assert(named[0].0 != key);
        assert forall|j: int| 0 <= j < k - 1 implies (#[trigger] named.drop_first()[j]).0 != key by {
            assert(named.drop_first()[j] == named[j + 1]);
        }
        lemma_find_named_first(named.drop_first(), key, k - 1);
    }
}

proof fn lemma_find_named_none(named: Seq<(Seq<char>, Seq<char>)>, key: Seq<char>)
    requires
        forall|j: int| 0 <= j < named.len() ==> (#[trigger] named[j]).0 != key,
    ensures
        find_named(named, key) is None,
    decreases named.len(),
{
    if named.len() > 0 {
        assert(named[0].0 != key);
        assert forall|j: int| 0 <= j < named.len() - 1 implies (#[trigger] named.drop_first()[j]).0 != key by {
            assert(named.drop_first()[j] == named[j + 1]);
        }
        lemma_find_named_none(named.drop_first(), key);
    }
}

/// Looks up the first named argument called `key`.
pub fn find_named_arg<'a>(named: &[(&'a str, &'a str)], key: &Vec<char>) -> (r: Option<&'a str>)
    ensures
        match r {
            Some(v) => find_named(named_view(named@), key@) == Some(v@),
            None => find_named(named_view(named@), key@) is None,
        },
{
    let mut i: usize = 0;
    assert(named_view(named@).skip(0) =~= named_view(named@));
    while i < named.len()
        invariant
            i <= named.len(),
            find_named(named_view(named@), key@) == find_named(
                named_view(named@).skip(i as int),
                key@,
            ),
        decreases named.len() - i,
    {
        let kc = str_chars(named[i].0);
        let ghost nv = named_view(named@).skip(i as int);
        assert(nv[0] == (named@[i as int].0@, named@[i as int].1@));
        if chars_eq(&kc, key) {
            return Some(named[i].1);
        }
        assert(nv.drop_first() =~= named_view(named@).skip(i + 1));
        i = i + 1;
    }
    None
}

/// Resolves the body of a closed placeholder.
fn resolve_placeholder_exec(p: &Vec<char>, named: &[(&str, &str)], pos: &[&str]) -> (r: Vec<
    char,
>)
    ensures
        r@ == resolve_placeholder(p@, named_view(named@), pos_view(pos@)),
{
    let (name, def): (Vec<char>, Option<Vec<char>>) = match split_once_chars(p, '=') {
        Some((n, d)) => {
            let dt = trim_chars(&d);
            let d1 = trim_matches_chars(&dt, '\'');
            let d2 = trim_matches_chars(&d1, '"');
            (trim_chars(&n), Some(d2))
        },
        None => (trim_chars(p), None),
    };
    let mut out: Vec<char> = Vec::new();
    match find_named_arg(named, &name) {
        Some(v) => {
            extend_str(&mut out, v);
            return out;
        },
        None => {},
    }
    match parse_usize_chars(&name) {
        Some(idx) => {
            if idx < pos.len() {
                extend_str(&mut out, pos[idx]);
                return out;
            }
        },
        None => {},
    }
    match def {
        Some(d) => d,
        None => {
            out.push('{');
            extend_chars(&mut out, p);
            out.push('}');
            out
        },
    }
}

/// Replaces `{name}`, `{name='default'}`, `{0}` and `{0='default'}`
/// placeholders; `\{`, `\}`, `\$` and `\@` yield the escaped character, and
/// an unclosed `{` is kept with the rest of the text.
pub fn format_placeholders(template: &str, named_args: &[(&str, &str)], pos_args: &[&str]) -> (r:
    String)
    ensures
        r@ == format_spec(template@, named_view(named_args@), pos_view(pos_args@)),
{
    let t = str_chars(template);
    let ghost nv = named_view(named_args@);
    let ghost pv = pos_view(pos_args@);
    let mut out: Vec<char> = Vec::new();
    let mut i: usize = 0;
    assert(t@.skip(0) =~= t@);
    while i < t.len()
        invariant
            i <= t.len(),
            nv == named_view(named_args@),
            pv == pos_view(pos_args@),
            out@ + format_spec(t@.skip(i as int), nv, pv) == format_spec(t@, nv, pv),
        decreases t.len() - i,
    {
        let ghost s = t@.skip(i as int);
        let c = t[i];
        if c == '\\' {
            if i + 1 < t.len() && (t[i + 1] == '{' || t[i + 1] == '}' || t[i + 1] == '$' || t[i
                + 1] == '@') {
                proof {
                    assert(s.skip(2) =~= t@.skip(i + 2));
                    assert(out@.push(t@[i + 1]) + format_spec(t@.skip(i + 2), nv, pv) =~= out@ + (
                    seq![s[1]] + format_spec(s.skip(2), nv, pv)));
                }
                out.push(t[i + 1]);
                i = i + 2;
            } else {
                proof {
                    assert(s.drop_first() =~= t@.skip(i + 1));
                    assert(out@.push('\\') + format_spec(t@.skip(i + 1), nv, pv) =~= out@ + (
                    seq!['\\'] + format_spec(s.drop_first(), nv, pv)));
                }
                out.push('\\');
                i = i + 1;
            }
        } else if c == '{' {
            let rest = slice_chars(&t, i + 1, t.len());
            assert(rest@ =~= s.drop_first());
            match find_char(&rest, '}') {
                Some(j) => {
                    let p = slice_chars(&rest, 0, j);
                    assert(p@ =~= rest@.take(j as int));
                    let v = resolve_placeholder_exec(&p, named_args, pos_args);
                    proof {
                        assert(rest@.skip(j + 1) =~= t@.skip(i + 1 + j + 1));
                        assert(out@ + v@ + format_spec(t@.skip(i + j + 2), nv, pv) =~= out@ + (v@
                            + format_spec(rest@.skip(j + 1), nv, pv)));
                    }
                    extend_chars(&mut out, &v);
                    i = i + j + 2;
                },
                None => {
                    proof {
                        assert(t@.skip(t@.len() as int) =~= Seq::<char>::empty());
                        assert(out@ + seq!['{'] + rest@ + Seq::<char>::empty() =~= out@ + (seq![
                            '{',
                        ] + rest@));
                    }
                    out.push('{');
                    extend_chars(&mut out, &rest);
                    i = t.len();
                },
            }
        } else {
            proof {
                assert(s.drop_first() =~= t@.skip(i + 1));
                assert(out@.push(c) + format_spec(t@.skip(i + 1), nv, pv) =~= out@ + (seq![c]
                    + format_spec(s.drop_first(), nv, pv)));
            }
            out.push(c);
            i = i + 1;
        }
    }
    assert(t@.skip(i as int) =~= Seq::<char>::empty());
    assert(out@ + Seq::<char>::empty() =~= out@);
    chars_to_string(&out)
}

// ---------------------------------------------------------------------------
// Single-pass substitution
// ---------------------------------------------------------------------------

/// Single-pass substitution of `{key}` placeholders, where `lookup` says what
/// a closed placeholder body becomes (`None`: it is kept as it was). An
/// unclosed `{` is kept and scanning goes on after it.
pub open spec fn substitute_spec(t: Seq<char>, lookup: spec_fn(Seq<char>) -> Option<Seq<char>>) -> Seq<
    char,
>
    decreases t.len(),
{
    proof {
        lemma_first_index_of_props(t, '{');
    }
    match first_index_of(t, '{') {
        None => t,
        Some(s) => {
            let after = t.skip(s + 1);
            proof {
                lemma_first_index_of_props(after, '}');
            }
            match first_index_of(after, '}') {
                Some(e) => {
                    let key = after.take(e);
                    t.take(s) + match lookup(key) {
                        Some(v) => v,
                        None => braced(key),
                    } + substitute_spec(after.skip(e + 1), lookup)
                },
                None => t.take(s) + seq!['{'] + substitute_spec(after, lookup),
            }
        },
    }
}

/// Lookup of a named placeholder: the first argument with that name.
pub open spec fn named_lookup(named: Seq<(Seq<char>, Seq<char>)>) -> spec_fn(Seq<char>) -> Option<
    Seq<char>,
> {
    |key: Seq<char>| find_named(named, key)
}

/// Lookup of a 1-based positional placeholder.
pub open spec fn positional_lookup(pos: Seq<Seq<char>>) -> spec_fn(Seq<char>) -> Option<Seq<char>> {
    |key: Seq<char>|
        match parse_usize(key) {
            Some(idx) if 1 <= idx <= pos.len() => Some(pos[idx - 1]),
            _ => None,
        }
}

/// Shared scanner of the two single-pass substituters; `positional` picks
/// the lookup.
fn substitute_exec(template: &str, named: &[(&str, &str)], pos: &[&str], positional: bool) -> (r:
    String)
    ensures
        r@ == substitute_spec(
            template@,
            if positional {
                positional_lookup(pos_view(pos@))
            } else {
                named_lookup(named_view(named@))
            },
        ),
{
    let ghost lk = if positional {
        positional_lookup(pos_view(pos@))
    } else {
        named_lookup(named_view(named@))
    };
    let t = str_chars(template);
    let mut out: Vec<char> = Vec::new();
    let mut rest: Vec<char> = t;
    assert(out@ + substitute_spec(rest@, lk) =~= substitute_spec(template@, lk));
    loop
        invariant
            out@ + substitute_spec(rest@, lk) == substitute_spec(template@, lk),
            lk == (if positional {
                positional_lookup(pos_view(pos@))
            } else {
                named_lookup(named_view(named@))
            }),
        decreases rest@.len(),
    {
        proof {
            lemma_first_index_of_props(rest@, '{');
        }
        match find_char(&rest, '{') {
            None => {
                extend_chars(&mut out, &rest);
                return chars_to_string(&out);
            },
            Some(s) => {
                let ghost r0 = rest@;
                let head = slice_chars(&rest, 0, s);
                let after = slice_chars(&rest, s + 1, rest.len());
                assert(head@ =~= r0.take(s as int));
                assert(after@ =~= r0.skip(s + 1));
                proof {
                    lemma_first_index_of_props(after@, '}');
                }
                match find_char(&after, '}') {
                    Some(e) => {
                        let key = slice_chars(&after, 0, e);
                        assert(key@ =~= after@.take(e as int));
                        let found: Option<Vec<char>> = if positional {
                            match parse_usize_chars(&key) {
                                Some(idx) => {
                                    if 1 <= idx && idx <= pos.len() {
                                        Some(str_chars(pos[idx - 1]))
                                    } else {
                                        None
                                    }
                                },
                                None => None,
                            }
                        } else {
                            match find_named_arg(named, &key) {
                                Some(v) => Some(str_chars(v)),
                                None => None,
                            }
                        };
                        let ghost piece = match lk(key@) {
                            Some(v) => v,
                            None => braced(key@),
                        };
                        let mut mid: Vec<char> = Vec::new();
                        match found {
                            Some(v) => {
                                mid = v;
                            },
                            None => {
                                mid.push('{');
                                extend_chars(&mut mid, &key);
                                mid.push('}');
                            },
                        }
                        assert(mid@ == piece);
                        let tail = slice_chars(&after, e + 1, after.len());
                        assert(tail@ =~= after@.skip(e + 1));
                        proof {
                            assert(out@ + head@ + mid@ + substitute_spec(tail@, lk) =~= out@ + (
                            head@ + piece + substitute_spec(tail@, lk)));
                        }
                        extend_chars(&mut out, &head);
                        extend_chars(&mut out, &mid);
                        rest = tail;
                    },
                    None => {
                        proof {
                            assert(out@ + head@ + seq!['{'] + substitute_spec(after@, lk) =~= out@
                                + (head@ + seq!['{'] + substitute_spec(after@, lk)));
                        }
                        extend_chars(&mut out, &head);
                        out.push('{');
                        rest = after;
                    },
                }
            },
        }
    }
}

/// Single-pass substitution of named `{key}` placeholders; unknown keys and
/// an unclosed `{` are kept as they were.
pub fn substitute_named(template: &str, named: &[(&str, &str)]) -> (r: String)
    ensures
        r@ == substitute_spec(template@, named_lookup(named_view(named@))),
{
    let pos: Vec<&str> = Vec::new();
    substitute_exec(template, named, pos.as_slice(), false)
}

/// Single-pass substitution of 1-based positional `{1}`, `{2}` placeholders;
/// other keys and an unclosed `{` are kept as they were.
pub fn substitute_positional(template: &str, pos: &[&str]) -> (r: String)
    ensures
        r@ == substitute_spec(template@, positional_lookup(pos_view(pos@))),
{
    let named: Vec<(&str, &str)> = Vec::new();
    substitute_exec(template, named.as_slice(), pos, true)
}

// ---------------------------------------------------------------------------
// Replace-all formatter
// ---------------------------------------------------------------------------

/// The text after replacing `{name}` by the value of each of the first `k`
/// named arguments, in order.
pub open spec fn replace_named(s: Seq<char>, named: Seq<(Seq<char>, Seq<char>)>, k: int) -> Seq<
    char,
>
    decreases k,
{
    if k <= 0 {
        s
    } else {
        replace_all(replace_named(s, named, k - 1), braced(named[k - 1].0), named[k - 1].1)
    }
}

/// The text after replacing `{i}` by the `i`-th of the first `k` positional
/// arguments, in order.
pub open spec fn replace_positional(s: Seq<char>, pos: Seq<Seq<char>>, k: int) -> Seq<char>
    decreases k,
{
    if k <= 0 {
        s
    } else {
        replace_all(replace_positional(s, pos, k - 1), braced(decimal((k - 1) as nat)), pos[k - 1])
    }
}

/// Replaces every `{name}` by its value, one named argument after the other,
/// then every `{i}` by the `i`-th positional argument.
pub fn format_by_replace(template: &str, named_args: &[(&str, &str)], pos_args: &[&str]) -> (r:
    String)
    ensures
        r@ == replace_positional(
            replace_named(template@, named_view(named_args@), named_args@.len() as int),
            pos_view(pos_args@),
            pos_args@.len() as int,
        ),
{
    let ghost nv = named_view(named_args@);
    let ghost pv = pos_view(pos_args@);
    let mut cur = str_chars(template);
    let mut k: usize = 0;
    while k < named_args.len()
        invariant
            k <= named_args.len(),
            nv == named_view(named_args@),
            cur@ == replace_named(template@, nv, k as int),
        decreases named_args.len() - k,
    {
        let mut pat: Vec<char> = Vec::new();
        pat.push('{');
        extend_str(&mut pat, named_args[k].0);
        pat.push('}');
        let rep = str_chars(named_args[k].1);
        assert(pat@ =~= braced(nv[k as int].0));
        cur = replace_all_chars(&cur, &pat, &rep);
        k = k + 1;
    }
    let ghost base = cur@;
    let mut i: usize = 0;
    while i < pos_args.len()
        invariant
            i <= pos_args.len(),
            pv == pos_view(pos_args@),
            base == replace_named(template@, nv, named_args@.len() as int),
            cur@ == replace_positional(base, pv, i as int),
        decreases pos_args.len() - i,
    {
        let mut pat: Vec<char> = Vec::new();
        pat.push('{');
        push_decimal(&mut pat, i);
        pat.push('}');
        let rep = str_chars(pos_args[i]);
        assert(pat@ =~= braced(decimal(i as nat)));
        cur = replace_all_chars(&cur, &pat, &rep);
        i = i + 1;
    }
    chars_to_string(&cur)
}

} // verus!
