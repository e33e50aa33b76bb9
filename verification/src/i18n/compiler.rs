//! Template preprocessor of the dictionaries: variable substitution
//! (`$vars.name`, `$name`, `${name}`), macro calls (`@{name(args)}`), built-in
//! colour macros and user templates, expanded recursively up to a fixed depth.

use vstd::prelude::*;
use crate::strmap::{StrMap, pairs_view, list_insert};
use crate::placeholders::{format_by_replace, named_view, pos_view, replace_named, replace_positional};
use crate::text::{
    chars_eq_str, chars_to_string, extend_chars, extend_str, find_char, first_index_of,
    is_alphanumeric, lemma_first_index_of_props, lowercase_chars, slice_chars, split_once,
    split_once_chars, str_chars, strip_prefix_or_self, strip_prefix_or_self_chars, trim,
    trim_chars, trim_matches, trim_matches_chars, unicode_alphanumeric, unicode_lowercase,
    utf8_len, utf8_prefix_len, lemma_utf8_len_encode,
};

verus! {

// ---------------------------------------------------------------------------
// Locating macro calls
// ---------------------------------------------------------------------------

/// Characters allowed in variable and macro names.
pub open spec fn is_name_char(c: char) -> bool {
    unicode_alphanumeric(c) || c == '_' || c == '.'
}

/// Index just after the run of name characters that starts at `i`.
pub open spec fn name_end(t: Seq<char>, i: int) -> int
    decreases t.len() - i,
{
    if 0 <= i < t.len() && is_name_char(t[i]) {
        name_end(t, i + 1)
    } else {
        i
    }
}

/// The end of a macro name lies between its start and the end of the text.
pub proof fn lemma_name_end(t: Seq<char>, i: int)
    requires
        0 <= i <= t.len(),
    ensures
        i <= name_end(t, i) <= t.len(),
        forall|j: int| i <= j < name_end(t, i) ==> is_name_char(#[trigger] t[j]),
        name_end(t, i) < t.len() ==> !is_name_char(t[name_end(t, i)]),
    decreases t.len() - i,
{
    if i < t.len() && is_name_char(t[i]) {
        lemma_name_end(t, i + 1);
    }
}

/// Scans the argument list of a macro call from index `i`, with `depth`
/// parentheses open and `quote` the open quote character, if any. Returns
/// the index where scanning stopped (just after the parenthesis that closes
/// the list, or the end of the text) and the raw argument text.
pub open spec fn scan_args(t: Seq<char>, i: int, depth: nat, quote: Option<char>) -> (int, Seq<
    char,
>)
    decreases t.len() - i,
{
    if i < 0 || i >= t.len() || depth == 0 {
        (i, Seq::empty())
    } else {
        let c = t[i];
        match quote {
            Some(q) => {
                let nq = if c == q && (i == 0 || t[i - 1] != '\\') {
                    None
                } else {
                    quote
                };
                let (k, r) = scan_args(t, i + 1, depth, nq);
                (k, seq![c] + r)
            },
            None => {
                if c == '\'' || c == '"' {
                    let (k, r) = scan_args(t, i + 1, depth, Some(c));
                    (k, seq![c] + r)
                } else if c == '(' {
                    let (k, r) = scan_args(t, i + 1, depth + 1, None);
                    (k, seq![c] + r)
                } else if c == ')' {
                    let (k, r) = scan_args(t, i + 1, (depth - 1) as nat, None);
                    (k, if depth - 1 > 0 {
                        seq![c] + r
                    } else {
                        r
                    })
                } else {
                    let (k, r) = scan_args(t, i + 1, depth, None);
                    (k, seq![c] + r)
                }
            },
        }
    }
}

/// The scan of macro arguments ends inside the text, after where it starts.
pub proof fn lemma_scan_args_bounds(t: Seq<char>, i: int, depth: nat, quote: Option<char>)
    requires
        0 <= i <= t.len(),
    ensures
        i <= scan_args(t, i, depth, quote).0 <= t.len(),
    decreases t.len() - i,
{
    if i < t.len() && depth > 0 {
        let c = t[i];
        match quote {
            Some(q) => {
                let nq = if c == q && (i == 0 || t[i - 1] != '\\') {
                    None
                } else {
                    quote
                };
                lemma_scan_args_bounds(t, i + 1, depth, nq);
            },
            None => {
                if c == '\'' || c == '"' {
                    lemma_scan_args_bounds(t, i + 1, depth, Some(c));
                } else if c == '(' {
                    lemma_scan_args_bounds(t, i + 1, depth + 1, None);
                } else if c == ')' {
                    lemma_scan_args_bounds(t, i + 1, (depth - 1) as nat, None);
                } else {
                    lemma_scan_args_bounds(t, i + 1, depth, None);
                }
            },
        }
    }
}

/// A located macro call: its name, its raw argument text, and the character
/// range `[start, end)` of `@{...}` in the text.
pub struct RawCall {
    pub name: Seq<char>,
    pub args: Seq<char>,
    pub start: int,
    pub end: int,
}

/// The first macro call `@{name(args)}` at or after index `i`; `\@` is
/// skipped, and a failed attempt resumes just after where it stopped.
pub open spec fn find_call_from(t: Seq<char>, i: int) -> Option<RawCall>
    decreases t.len() + 1 - i,
{
    if i < 0 || i >= t.len() {
        None
    } else if t[i] == '\\' && i + 1 < t.len() && t[i + 1] == '@' {
        find_call_from(t, i + 2)
    } else if t[i] == '@' && i + 1 < t.len() && t[i + 1] == '{' {
        let j = name_end(t, i + 2);
        proof {
            lemma_name_end(t, i + 2);
        }
        if j < t.len() && t[j] == '(' {
            let (k, raw) = scan_args(t, j + 1, 1, None);
            proof {
                lemma_scan_args_bounds(t, j + 1, 1, None);
            }
            if k < t.len() && t[k] == '}' {
                Some(RawCall { name: t.subrange(i + 2, j), args: raw, start: i, end: k + 1 })
            } else {
                find_call_from(t, k + 1)
            }
        } else {
            find_call_from(t, j + 1)
        }
    } else {
        find_call_from(t, i + 1)
    }
}

/// A macro call found from a position lies inside the text, after it.
pub proof fn lemma_find_call_bounds(t: Seq<char>, i: int)
    ensures
        find_call_from(t, i) matches Some(c) ==> 0 <= i <= c.start && c.start + 2 <= c.end
            <= t.len(),
    decreases t.len() + 1 - i,
{
    if 0 <= i < t.len() {
        if t[i] == '\\' && i + 1 < t.len() && t[i + 1] == '@' {
            lemma_find_call_bounds(t, i + 2);
        } else if t[i] == '@' && i + 1 < t.len() && t[i + 1] == '{' {
            let j = name_end(t, i + 2);
            lemma_name_end(t, i + 2);
            if j < t.len() && t[j] == '(' {
                let (k, raw) = scan_args(t, j + 1, 1, None);
                lemma_scan_args_bounds(t, j + 1, 1, None);
                if !(k < t.len() && t[k] == '}') {
                    lemma_find_call_bounds(t, k + 1);
                }
            } else {
                assert(j >= i + 2);
                lemma_find_call_bounds(t, j + 1);
            }
        } else {
            lemma_find_call_bounds(t, i + 1);
        }
    }
}

// ---------------------------------------------------------------------------
// Parsing macro arguments
// ---------------------------------------------------------------------------

/// Splits raw argument text at commas outside quotes; each token is trimmed,
/// and a last token that is empty after trimming is dropped.
pub open spec fn tokenize(raw: Seq<char>, i: int, cur: Seq<char>, quote: Option<char>) -> Seq<
    Seq<char>,
>
    decreases raw.len() - i,
{
    if i < 0 || i >= raw.len() {
        if trim(cur).len() > 0 {
            seq![trim(cur)]
        } else {
            Seq::empty()
        }
    } else {
        let c = raw[i];
        match quote {
            Some(q) => tokenize(raw, i + 1, cur.push(c), if c == q {
                None
            } else {
                quote
            }),
            None => {
                if c == '\'' || c == '"' {
                    tokenize(raw, i + 1, cur.push(c), Some(c))
                } else if c == ',' {
                    seq![trim(cur)] + tokenize(raw, i + 1, Seq::empty(), None)
                } else {
                    tokenize(raw, i + 1, cur.push(c), None)
                }
            },
        }
    }
}

/// A value with surrounding whitespace, then single quotes, then double
/// quotes removed.
pub open spec fn unquote(v: Seq<char>) -> Seq<char> {
    trim_matches(trim_matches(trim(v), '\''), '"')
}

/// Whether a token starts with a quote: it is a quoted value, whatever `=`
/// it holds.
pub open spec fn starts_quoted(tok: Seq<char>) -> bool {
    tok.len() > 0 && (tok[0] == '\'' || tok[0] == '"')
}

/// Positional and named arguments of a list of tokens: unquoted
/// `key = value` tokens are named (a later value for a key replaces an
/// earlier one), the others positional.
pub open spec fn args_of_tokens(tokens: Seq<Seq<char>>) -> (Seq<Seq<char>>, Seq<
    (Seq<char>, Seq<char>),
>)
    decreases tokens.len(),
{
    if tokens.len() == 0 {
        (Seq::empty(), Seq::empty())
    } else {
        let (pos, named) = args_of_tokens(tokens.drop_last());
        let tok = tokens.last();
        if starts_quoted(tok) {
            (pos.push(unquote(tok)), named)
        } else {
            match split_once(tok, '=') {
                Some((k, v)) => (pos, list_insert(named, trim(k), unquote(v))),
                None => (pos.push(unquote(tok)), named),
            }
        }
    }
}

/// Positional and named arguments of raw argument text.
pub open spec fn parse_args_spec(raw: Seq<char>) -> (Seq<Seq<char>>, Seq<(Seq<char>, Seq<char>)>) {
    args_of_tokens(tokenize(raw, 0, Seq::empty(), None))
}

/// The characters of a vector of strings.
pub open spec fn strings_view(v: Seq<String>) -> Seq<Seq<char>> {
    v.map_values(|s: String| s@)
}

/// The characters of a vector of character vectors.
pub open spec fn char_vecs_view(v: Seq<Vec<char>>) -> Seq<Seq<char>> {
    v.map_values(|t: Vec<char>| t@)
}

/// Parsed macro call structure: `@{name(arg1, name2='val')}`.
pub struct MacroCall {
    pub name: String,
    pub pos_args: Vec<String>,
    pub named_args: StrMap,
    /// Byte offset of `@` in the text.
    pub start: usize,
    /// Byte offset just after the closing `}`.
    pub end: usize,
}

fn unquote_exec(v: &Vec<char>) -> (r: Vec<char>)
    ensures
        r@ == unquote(v@),
{
    let a = trim_chars(v);
    let b = trim_matches_chars(&a, '\'');
    trim_matches_chars(&b, '"')
}

/// Splits raw argument text into positional and named arguments.
fn parse_args(raw: &Vec<char>) -> (r: (Vec<String>, StrMap))
    ensures
        r.1.wf(),
        strings_view(r.0@) == parse_args_spec(raw@).0,
        pairs_view(r.1.entries@) == parse_args_spec(raw@).1,
{
    // 1. Tokenize.
    let mut tokens: Vec<Vec<char>> = Vec::new();
    let mut cur: Vec<char> = Vec::new();
    let mut quote: Option<char> = None;
    let mut i: usize = 0;
    let ghost full = tokenize(raw@, 0, Seq::empty(), None);
    assert(char_vecs_view(tokens@) + full =~= full);
    while i < raw.len()
        invariant
            i <= raw.len(),
            full == tokenize(raw@, 0, Seq::empty(), None),
            char_vecs_view(tokens@) + tokenize(raw@, i as int, cur@, quote) == full,
        decreases raw.len() - i,
    {
        let c = raw[i];
        let ghost tv = char_vecs_view(tokens@);
        let ghost cv = cur@;
        let ghost q0 = quote;
        match quote {
            Some(q) => {
                cur.push(c);
                if c == q {
                    quote = None;
                }
            },
            None => {
                if c == '\'' || c == '"' {
                    quote = Some(c);
                    cur.push(c);
                } else if c == ',' {
                    let tok = trim_chars(&cur);
                    tokens.push(tok);
                    cur = Vec::new();
                    proof {
                        assert(char_vecs_view(tokens@) =~= tv.push(trim(cv)));
                        assert(tv + (seq![trim(cv)] + tokenize(raw@, i + 1, Seq::empty(), None))
                            =~= tv.push(trim(cv)) + tokenize(raw@, i + 1, Seq::empty(), None));
                    }
                } else {
                    cur.push(c);
                }
            },
        }
        i = i + 1;
    }
    let last = trim_chars(&cur);
    let ghost tv = char_vecs_view(tokens@);
    if last.len() > 0 {
        tokens.push(last);
        assert(char_vecs_view(tokens@) =~= tv + seq![trim(cur@)]);
    } else {
        assert(tv + Seq::<Seq<char>>::empty() =~= tv);
    }
    assert(char_vecs_view(tokens@) == full);
    // 2. Classify.
    let mut pos: Vec<String> = Vec::new();
    let mut named = StrMap::new();
    let mut k: usize = 0;
    assert(char_vecs_view(tokens@).take(0) =~= Seq::<Seq<char>>::empty());
    assert(strings_view(pos@) =~= Seq::<Seq<char>>::empty());
    assert(pairs_view(named.entries@) =~= Seq::<(Seq<char>, Seq<char>)>::empty());
    while k < tokens.len()
        invariant
            k <= tokens.len(),
            named.wf(),
            (strings_view(pos@), pairs_view(named.entries@)) == args_of_tokens(
                char_vecs_view(tokens@).take(k as int),
            ),
        decreases tokens.len() - k,
    {
        let tok = &tokens[k];
        let ghost tv = char_vecs_view(tokens@);
        proof {
            assert(tv.take(k + 1).drop_last() =~= tv.take(k as int));
            assert(tv.take(k + 1).last() == tok@);
        }
        let quoted = tok.len() > 0 && (tok[0] == '\'' || tok[0] == '"');
        let split = if quoted {
            None
        } else {
            split_once_chars(tok, '=')
        };
        match split {
            Some((key, val)) => {
                let kt = trim_chars(&key);
                let vu = unquote_exec(&val);
                named.insert(chars_to_string(&kt), chars_to_string(&vu));
            },
            None => {
                let vu = unquote_exec(tok);
                let ghost before = pos@;
                pos.push(chars_to_string(&vu));
                proof {
                    assert(strings_view(pos@) =~= strings_view(before).push(vu@));
                }
            },
        }
        k = k + 1;
    }
    proof {
        let tv = char_vecs_view(tokens@);
        assert(tv.take(tokens@.len() as int) =~= tv);
    }
    (pos, named)
}

/// Locates the first macro call in `t`; returns its name, raw arguments and
/// character range.
fn locate_call(t: &Vec<char>) -> (r: Option<(Vec<char>, Vec<char>, usize, usize)>)
    ensures
        match r {
            Some((name, raw, s, e)) => find_call_from(t@, 0) == Some(
                RawCall { name: name@, args: raw@, start: s as int, end: e as int },
            ),
            None => find_call_from(t@, 0) is None,
        },
{
    let mut i: usize = 0;
    while i < t.len()
        invariant
            find_call_from(t@, i as int) == find_call_from(t@, 0),
        decreases t.len() - i,
    {
        if t[i] == '\\' && i + 1 < t.len() && t[i + 1] == '@' {
            i = i + 2;
        } else if t[i] == '@' && i + 1 < t.len() && t[i + 1] == '{' {
            let mut j: usize = i + 2;
            proof {
                lemma_name_end(t@, i + 2);
            }
            while j < t.len() && (is_alphanumeric(t[j]) || t[j] == '_' || t[j] == '.')
                invariant
                    i + 2 <= j <= t.len(),
                    name_end(t@, i + 2) == name_end(t@, j as int),
                decreases t.len() - j,
            {
                j = j + 1;
            }
            assert(name_end(t@, j as int) == j);
            if j < t.len() && t[j] == '(' {
                let mut k: usize = j + 1;
                let mut depth: usize = 1;
                let mut quote: Option<char> = None;
                let mut raw: Vec<char> = Vec::new();
                let ghost full = scan_args(t@, j + 1, 1, None);
                proof {
                    lemma_scan_args_bounds(t@, j + 1, 1, None);
                }
                assert(raw@ + full.1 =~= full.1);
                while k < t.len() && depth > 0
                    invariant
                        j + 1 <= k <= t.len(),
                        depth <= k - j,
                        full == scan_args(t@, j + 1, 1, None),
                        full.0 == scan_args(t@, k as int, depth as nat, quote).0,
                        full.1 == raw@ + scan_args(t@, k as int, depth as nat, quote).1,
                    decreases t.len() - k,
                {
                    let c = t[k];
                    let ghost r0 = raw@;
                    match quote {
                        Some(q) => {
                            if c == q && (k == 0 || t[k - 1] != '\\') {
                                quote = None;
                            }
                            raw.push(c);
                        },
                        None => {
                            if c == '\'' || c == '"' {
                                quote = Some(c);
                                raw.push(c);
                            } else if c == '(' {
                                depth = depth + 1;
                                raw.push(c);
                            } else if c == ')' {
                                depth = depth - 1;
                                if depth > 0 {
                                    raw.push(c);
                                }
                            } else {
                                raw.push(c);
                            }
                        },
                    }
                    proof {
                        assert(raw@ =~= r0.push(c) || raw@ =~= r0);
                        let nx = scan_args(t@, k + 1, depth as nat, quote);
                        if raw@ =~= r0.push(c) {
                            assert(r0 + (seq![c] + nx.1) =~= r0.push(c) + nx.1);
                        } else {
                            assert(r0 + nx.1 =~= r0 + nx.1);
                        }
                    }
                    k = k + 1;
                }
                assert(scan_args(t@, k as int, depth as nat, quote).1 =~= Seq::<char>::empty());
                assert(raw@ + Seq::<char>::empty() =~= raw@);
                assert(full.0 == k);
                if k < t.len() && t[k] == '}' {
                    let name = slice_chars(t, i + 2, j);
                    return Some((name, raw, i, k + 1));
                }
                if k == t.len() {
                    assert(find_call_from(t@, k + 1) is None);
                    return None;
                }
                i = k + 1;
            } else {
                if j == t.len() {
                    assert(find_call_from(t@, j + 1) is None);
                    return None;
                }
                i = j + 1;
            }
        } else {
            i = i + 1;
        }
    }
    None
}

/// Builds the parsed call for a located call.
fn call_of(name: &Vec<char>, raw: &Vec<char>, start: usize, end: usize) -> (c: MacroCall)
    ensures
        c.name@ == name@,
        strings_view(c.pos_args@) == parse_args_spec(raw@).0,
        pairs_view(c.named_args.entries@) == parse_args_spec(raw@).1,
        c.named_args.wf(),
        c.start == start,
        c.end == end,
{
    let (pos, named) = parse_args(raw);
    MacroCall { name: chars_to_string(name), pos_args: pos, named_args: named, start, end }
}

/// Whether `c` is the parsed form of the located call `rc` of `text`, with
/// byte offsets.
pub open spec fn is_call_of(c: MacroCall, text: Seq<char>, rc: RawCall) -> bool {
    &&& c.name@ == rc.name
    &&& strings_view(c.pos_args@) == parse_args_spec(rc.args).0
    &&& pairs_view(c.named_args.entries@) == parse_args_spec(rc.args).1
    &&& c.named_args.wf()
    &&& c.start as nat == utf8_len(text.take(rc.start))
    &&& c.end as nat == utf8_len(text.take(rc.end))
}

// ---------------------------------------------------------------------------
// Variable substitution
// ---------------------------------------------------------------------------

/// The text from index `i` on, after substituting variables: `\$` is a literal
/// `$`; `${name}` and `${vars.name}` take the variable's value (kept as
/// written when unknown; an unclosed `${` keeps the rest of the text);
/// `$name` and `$vars.name` take the value of `name`, else of the whole
/// identifier (kept as written when unknown); a lone `$` stays.
pub open spec fn expand_vars_from(t: Seq<char>, i: int, vars: Map<Seq<char>, Seq<char>>) -> Seq<
    char,
>
    decreases t.len() + 1 - i,
{
    if i < 0 || i >= t.len() {
        Seq::empty()
    } else if t[i] == '\\' && i + 1 < t.len() && t[i + 1] == '$' {
        seq!['$'] + expand_vars_from(t, i + 2, vars)
    } else if t[i] == '$' {
        if i + 1 < t.len() && t[i + 1] == '{' {
            let rest = t.skip(i + 2);
            proof {
                lemma_first_index_of_props(rest, '}');
            }
            match first_index_of(rest, '}') {
                Some(j) => {
                    let name = rest.take(j);
                    let clean = strip_prefix_or_self(name, "vars."@);
                    (if vars.contains_key(clean) {
                        vars[clean]
                    } else {
                        seq!['$', '{'] + name + seq!['}']
                    }) + expand_vars_from(t, i + 2 + j + 1, vars)
                },
                None => seq!['$', '{'] + rest,
            }
        } else {
            let e = name_end(t, i + 1);
            proof {
                lemma_name_end(t, i + 1);
            }
            if e == i + 1 {
                seq!['$'] + expand_vars_from(t, i + 1, vars)
            } else {
                let ident = t.subrange(i + 1, e);
                let clean = strip_prefix_or_self(ident, "vars."@);
                (if vars.contains_key(clean) {
                    vars[clean]
                } else if vars.contains_key(ident) {
                    vars[ident]
                } else {
                    seq!['$'] + ident
                }) + expand_vars_from(t, e, vars)
            }
        }
    } else {
        seq![t[i]] + expand_vars_from(t, i + 1, vars)
    }
}

/// The text after substituting variables.
pub open spec fn expand_vars_spec(t: Seq<char>, vars: Map<Seq<char>, Seq<char>>) -> Seq<char> {
    expand_vars_from(t, 0, vars)
}

/// Appends the value of `key` in `vars`, if there is one.
fn push_var(out: &mut Vec<char>, vars: &StrMap, key: &Vec<char>) -> (found: bool)
    requires
        vars.wf(),
    ensures
        found == vars@.contains_key(key@),
        found ==> final(out)@ == old(out)@ + vars@[key@],
        !found ==> final(out)@ == old(out)@,
{
    let ks = chars_to_string(key);
    match vars.get(ks.as_str()) {
        Some(v) => {
            extend_str(out, v.as_str());
            true
        },
        None => false,
    }
}

/// Substitutes variables in `t`.
fn expand_vars_exec(t: &Vec<char>, vars: &StrMap) -> (r: Vec<char>)
    requires
        vars.wf(),
    ensures
        r@ == expand_vars_spec(t@, vars@),
{
    let mut out: Vec<char> = Vec::new();
    let mut i: usize = 0;
    assert(out@ + expand_vars_from(t@, 0, vars@) =~= expand_vars_from(t@, 0, vars@));
    while i < t.len()
        invariant
            i <= t.len(),
            vars.wf(),
            out@ + expand_vars_from(t@, i as int, vars@) == expand_vars_from(t@, 0, vars@),
        decreases t.len() - i,
    {
        let ghost o0 = out@;
        let c = t[i];
        if c == '\\' && i + 1 < t.len() && t[i + 1] == '$' {
            out.push('$');
            assert(o0.push('$') + expand_vars_from(t@, i + 2, vars@) =~= o0 + (seq!['$']
                + expand_vars_from(t@, i + 2, vars@)));
            i = i + 2;
        } else if c == '$' {
            if i + 1 < t.len() && t[i + 1] == '{' {
                let rest = slice_chars(t, i + 2, t.len());
                assert(rest@ =~= t@.skip(i + 2));
                match find_char(&rest, '}') {
                    Some(j) => {
                        let name = slice_chars(&rest, 0, j);
                        assert(name@ =~= rest@.take(j as int));
                        let clean = strip_prefix_or_self_chars(&name, "vars.");
                        let ghost piece = if vars@.contains_key(clean@) {
                            vars@[clean@]
                        } else {
                            seq!['$', '{'] + name@ + seq!['}']
                        };
                        if !push_var(&mut out, vars, &clean) {
                            out.push('$');
                            out.push('{');
                            extend_chars(&mut out, &name);
                            out.push('}');
                        }
                        assert(out@ =~= o0 + piece);
                        assert(o0 + piece + expand_vars_from(t@, i + 2 + j + 1, vars@) =~= o0 + (
                        piece + expand_vars_from(t@, i + 2 + j + 1, vars@)));
                        i = i + 2 + j + 1;
                    },
                    None => {
                        out.push('$');
                        out.push('{');
                        extend_chars(&mut out, &rest);
                        assert(o0 + (seq!['$', '{'] + rest@) =~= out@);
                        assert(expand_vars_from(t@, t@.len() as int, vars@) =~= Seq::<char>::empty());
                        assert(out@ + Seq::<char>::empty() =~= out@);
                        i = t.len();
                    },
                }
            } else {
                let mut e: usize = i + 1;
                proof {
                    lemma_name_end(t@, i + 1);
                }
                while e < t.len() && (is_alphanumeric(t[e]) || t[e] == '_' || t[e] == '.')
                    invariant
                        i + 1 <= e <= t.len(),
                        name_end(t@, i + 1) == name_end(t@, e as int),
                    decreases t.len() - e,
                {
                    e = e + 1;
                }
                assert(name_end(t@, e as int) == e);
                if e == i + 1 {
                    out.push('$');
                    assert(o0.push('$') + expand_vars_from(t@, i + 1, vars@) =~= o0 + (seq!['$']
                        + expand_vars_from(t@, i + 1, vars@)));
                    i = i + 1;
                } else {
                    let ident = slice_chars(t, i + 1, e);
                    let clean = strip_prefix_or_self_chars(&ident, "vars.");
                    let ghost piece = if vars@.contains_key(clean@) {
                        vars@[clean@]
                    } else if vars@.contains_key(ident@) {
                        vars@[ident@]
                    } else {
                        seq!['$'] + ident@
                    };
                    if !push_var(&mut out, vars, &clean) {
                        if !push_var(&mut out, vars, &ident) {
                            out.push('$');
                            extend_chars(&mut out, &ident);
                        }
                    }
                    assert(out@ =~= o0 + piece);
                    assert(o0 + piece + expand_vars_from(t@, e as int, vars@) =~= o0 + (piece
                        + expand_vars_from(t@, e as int, vars@)));
                    i = e;
                }
            }
        } else {
            out.push(c);
            assert(o0.push(c) + expand_vars_from(t@, i + 1, vars@) =~= o0 + (seq![c]
                + expand_vars_from(t@, i + 1, vars@)));
            i = i + 1;
        }
    }
    assert(expand_vars_from(t@, i as int, vars@) =~= Seq::<char>::empty());
    assert(out@ + Seq::<char>::empty() =~= out@);
    out
}

// ---------------------------------------------------------------------------
// Macro evaluation and recursive expansion
// ---------------------------------------------------------------------------

/// Deepest nesting of template expansions before expansion fails.
pub open spec fn max_depth() -> nat {
    16
}

/// Number of macro calls one expansion level evaluates before it gives up.
pub open spec fn expansion_fuel() -> nat {
    usize::MAX as nat
}

/// Termination measure of the expansion functions.
pub open spec fn depth_measure(depth: nat) -> nat {
    if depth <= 17 {
        (17 - depth) as nat
    } else {
        0
    }
}

/// Error text when the nesting limit is exceeded.
pub open spec fn recursion_error(dict: Seq<char>, text: Seq<char>) -> Seq<char> {
    "Recursion limit exceeded in i18n dictionary '"@ + dict + "' while expanding: "@ + text
}

/// Error text when one expansion level runs out of fuel.
pub open spec fn fuel_error(dict: Seq<char>, text: Seq<char>) -> Seq<char> {
    "Expansion limit exceeded in i18n dictionary '"@ + dict + "' while expanding: "@ + text
}

/// Error text for an unknown template.
pub open spec fn missing_template_error(dict: Seq<char>, name: Seq<char>) -> Seq<char> {
    "Template macro '"@ + name + "' not found in dictionary '"@ + dict + "'"@
}

/// The first positional argument, or the empty text.
pub open spec fn first_arg(pos: Seq<Seq<char>>) -> Seq<char> {
    if pos.len() > 0 {
        pos[0]
    } else {
        Seq::empty()
    }
}

/// Output of a built-in colour macro (matched on the lowercased name), if
/// `lower` names one.
pub open spec fn builtin_macro(lower: Seq<char>, arg: Seq<char>) -> Option<Seq<char>> {
    if lower == "g"@ || lower == "green"@ {
        Some(seq!['\x04'] + arg + seq!['\x01'])
    } else if lower == "t"@ || lower == "team"@ {
        Some(seq!['\x03'] + arg + seq!['\x01'])
    } else if lower == "w"@ || lower == "white"@ {
        Some(seq!['\x01'] + arg + seq!['\x01'])
    } else if lower == "tag"@ {
        Some(seq!['^', '3', '[', '\x04'] + arg + seq!['^', '3', ']', '^', '1'])
    } else {
        None
    }
}

/// Text with `rc`'s character range replaced by `x`.
pub open spec fn splice(cur: Seq<char>, rc: RawCall, x: Seq<char>) -> Seq<char> {
    cur.take(rc.start) + x + cur.skip(rc.end)
}

/// Full expansion of `text` at nesting `depth`: variables first, then every
/// macro call, left to right, each replaced by its evaluation.
pub open spec fn expand_entry_spec(
    dict: Seq<char>,
    text: Seq<char>,
    vars: Map<Seq<char>, Seq<char>>,
    tmpls: Map<Seq<char>, Seq<char>>,
    depth: nat,
) -> Result<Seq<char>, Seq<char>>
    decreases depth_measure(depth), 1nat, 0nat,
{
    if depth > max_depth() {
        Err(recursion_error(dict, text))
    } else {
        expand_loop_spec(dict, expand_vars_spec(text, vars), vars, tmpls, depth, expansion_fuel())
    }
}

/// Evaluation of the macro calls of `cur`, with `fuel` calls left.
pub open spec fn expand_loop_spec(
    dict: Seq<char>,
    cur: Seq<char>,
    vars: Map<Seq<char>, Seq<char>>,
    tmpls: Map<Seq<char>, Seq<char>>,
    depth: nat,
    fuel: nat,
) -> Result<Seq<char>, Seq<char>>
    decreases depth_measure(depth), 0nat, fuel,
{
    if depth > max_depth() {
        Err(recursion_error(dict, cur))
    } else if fuel == 0 {
        Err(fuel_error(dict, cur))
    } else {
        match find_call_from(cur, 0) {
            None => Ok(cur),
            Some(rc) => {
                let (pos, named) = parse_args_spec(rc.args);
                match eval_macro_spec(dict, rc.name, pos, named, vars, tmpls, depth + 1) {
                    Err(e) => Err(e),
                    Ok(x) => expand_loop_spec(
                        dict,
                        splice(cur, rc, x),
                        vars,
                        tmpls,
                        depth,
                        (fuel - 1) as nat,
                    ),
                }
            },
        }
    }
}

/// Evaluation of one macro call: a built-in colour macro, or the template
/// of that name (without a `templates.` prefix) with `{name}` and `{i}`
/// replaced by the arguments, then expanded at nesting `depth`.
pub open spec fn eval_macro_spec(
    dict: Seq<char>,
    name: Seq<char>,
    pos: Seq<Seq<char>>,
    named: Seq<(Seq<char>, Seq<char>)>,
    vars: Map<Seq<char>, Seq<char>>,
    tmpls: Map<Seq<char>, Seq<char>>,
    depth: nat,
) -> Result<Seq<char>, Seq<char>>
    decreases depth_measure(depth), 2nat, 0nat,
{
    let clean = strip_prefix_or_self(name, "templates."@);
    match builtin_macro(unicode_lowercase(clean), first_arg(pos)) {
        Some(out) => Ok(out),
        None => {
            if !tmpls.contains_key(clean) {
                Err(missing_template_error(dict, clean))
            } else {
                let formatted = replace_positional(
                    replace_named(tmpls[clean], named, named.len() as int),
                    pos,
                    pos.len() as int,
                );
                expand_entry_spec(dict, formatted, vars, tmpls, depth)
            }
        },
    }
}

/// The colour macros are built in, whatever the templates, variables, named
/// arguments or nesting depth: a call whose name (without a `templates.`
/// prefix, lowered) is `g` or `green` wraps its first positional argument in
/// green (`\x04` ... `\x01`), `t` or `team` in the team colour (`\x03` ...
/// `\x01`), `w` or `white` in white (`\x01` ... `\x01`), and `tag` makes it a
/// `^3[\x04` ... `^3]^1` tag; a call without arguments wraps the empty text.
pub proof fn lemma_builtin_colour_macros(
    dict: Seq<char>,
    name: Seq<char>,
    pos: Seq<Seq<char>>,
    named: Seq<(Seq<char>, Seq<char>)>,
    vars: Map<Seq<char>, Seq<char>>,
    tmpls: Map<Seq<char>, Seq<char>>,
    depth: nat,
)
    ensures
        ({
            let lower = unicode_lowercase(strip_prefix_or_self(name, "templates."@));
            let arg = if pos.len() > 0 { pos[0] } else { Seq::<char>::empty() };
            &&& (lower == "t"@ || lower == "team"@) ==> eval_macro_spec(dict, name, pos, named, vars, tmpls, depth)
                == Ok::<Seq<char>, Seq<char>>(seq!['\x03'] + arg + seq!['\x01'])
            &&& (lower == "g"@ || lower == "green"@) ==> eval_macro_spec(dict, name, pos, named, vars, tmpls, depth)
                == Ok::<Seq<char>, Seq<char>>(seq!['\x04'] + arg + seq!['\x01'])
            &&& (lower == "w"@ || lower == "white"@) ==> eval_macro_spec(dict, name, pos, named, vars, tmpls, depth)
                == Ok::<Seq<char>, Seq<char>>(seq!['\x01'] + arg + seq!['\x01'])
            &&& lower == "tag"@ ==> eval_macro_spec(dict, name, pos, named, vars, tmpls, depth) == Ok::<
                Seq<char>,
                Seq<char>,
            >(seq!['^', '3', '[', '\x04'] + arg + seq!['^', '3', ']', '^', '1'])
        }),
{
    reveal_strlit("t");
    reveal_strlit("team");
    reveal_strlit("g");
    reveal_strlit("green");
    reveal_strlit("w");
    reveal_strlit("white");
    reveal_strlit("tag");
    let lower = unicode_lowercase(strip_prefix_or_self(name, "templates."@));
    if lower == "t"@ || lower == "team"@ {
        assert(lower != "g"@ && lower != "green"@) by {
            if lower == "t"@ {
                assert("t"@[0] != "g"@[0]);
                assert("t"@.len() != "green"@.len());
            } else {
                assert("team"@.len() != "g"@.len());
                assert("team"@[0] != "green"@[0]);
            }
        }
    }
    if lower == "w"@ || lower == "white"@ {
        assert(lower != "g"@ && lower != "green"@ && lower != "t"@ && lower != "team"@) by {
            if lower == "w"@ {
                assert("w"@[0] != "g"@[0] && "w"@[0] != "t"@[0]);
                assert("w"@.len() != "green"@.len() && "w"@.len() != "team"@.len());
            } else {
                assert("white"@.len() != "g"@.len() && "white"@.len() != "t"@.len());
                assert("white"@[0] != "green"@[0] && "white"@[0] != "team"@[0]);
            }
        }
    }
    if lower == "tag"@ {
        assert(lower != "g"@ && lower != "green"@ && lower != "t"@ && lower != "team"@ && lower != "w"@ && lower
            != "white"@) by {
            assert("tag"@.len() != "g"@.len() && "tag"@.len() != "t"@.len() && "tag"@.len() != "w"@.len());
            assert("tag"@[0] != "g"@[0] && "tag"@[0] != "w"@[0]);
            assert("tag"@.len() != "green"@.len() && "tag"@.len() != "white"@.len());
            assert("tag"@[1] != "team"@[1]);
        }
    }
}

/// A call that names no colour macro and no template of the dictionary
/// fails, naming the template (without its `templates.` prefix) and the
/// dictionary: "Template macro '<name>' not found in dictionary '<dict>'".
pub proof fn lemma_unknown_template_fails(
    dict: Seq<char>,
    name: Seq<char>,
    pos: Seq<Seq<char>>,
    named: Seq<(Seq<char>, Seq<char>)>,
    vars: Map<Seq<char>, Seq<char>>,
    tmpls: Map<Seq<char>, Seq<char>>,
    depth: nat,
)
    requires
        ({
            let lower = unicode_lowercase(strip_prefix_or_self(name, "templates."@));
            lower != "g"@ && lower != "green"@ && lower != "t"@ && lower != "team"@ && lower != "w"@ && lower != "white"@
                && lower != "tag"@
        }),
        !tmpls.contains_key(strip_prefix_or_self(name, "templates."@)),
    ensures
        eval_macro_spec(dict, name, pos, named, vars, tmpls, depth) == Err::<Seq<char>, Seq<char>>(
            "Template macro '"@ + strip_prefix_or_self(name, "templates."@) + "' not found in dictionary '"@ + dict + "'"@,
        ),
{
}

/// The `templates.` prefix of a call's name changes nothing: `@{templates.x(..)}`
/// evaluates as `@{x(..)}` does, for a name `x` that does not itself start
/// with `templates.`.
pub proof fn lemma_templates_prefix_ignored(
    dict: Seq<char>,
    x: Seq<char>,
    pos: Seq<Seq<char>>,
    named: Seq<(Seq<char>, Seq<char>)>,
    vars: Map<Seq<char>, Seq<char>>,
    tmpls: Map<Seq<char>, Seq<char>>,
    depth: nat,
)
    requires
        !(x.len() >= "templates."@.len() && x.take("templates."@.len() as int) == "templates."@),
    ensures
        eval_macro_spec(dict, "templates."@ + x, pos, named, vars, tmpls, depth) == eval_macro_spec(
            dict,
            x,
            pos,
            named,
            vars,
            tmpls,
            depth,
        ),
{
    let pre = "templates."@;
    assert((pre + x).take(pre.len() as int) =~= pre);
    assert((pre + x).skip(pre.len() as int) =~= x);
    assert(strip_prefix_or_self(pre + x, pre) == x);
    assert(strip_prefix_or_self(x, pre) == x);
}

/// Compile-time preprocessor for dictionary TOML tables.
pub struct Compiler<'a> {
    pub dict_name: &'a str,
}

/// Whether an expansion result matches its specification.
pub open spec fn result_matches(r: Result<String, String>, s: Result<Seq<char>, Seq<char>>) -> bool {
    match r {
        Ok(v) => s == Ok::<Seq<char>, Seq<char>>(v@),
        Err(e) => s == Err::<Seq<char>, Seq<char>>(e@),
    }
}

fn message3(a: &str, b: &Vec<char>, c: &str, d: &Vec<char>) -> (r: String)
    ensures
        r@ == a@ + b@ + c@ + d@,
{
    let mut v: Vec<char> = Vec::new();
    extend_str(&mut v, a);
    extend_chars(&mut v, b);
    extend_str(&mut v, c);
    extend_chars(&mut v, d);
    chars_to_string(&v)
}

impl<'a> Compiler<'a> {
    /// Creates a compiler for the dictionary `dict_name`.
    pub fn new(dict_name: &'a str) -> (c: Self)
        ensures
            c.dict_name == dict_name,
    {
        Self { dict_name }
    }

    /// Expands `text`: variables, then macro calls, recursively, failing past
    /// a nesting depth of 16 or on an unknown template.
    pub fn expand_entry(&self, text: &str, vars: &StrMap, templates: &StrMap, depth: usize) -> (r:
        Result<String, String>)
        requires
            vars.wf(),
            templates.wf(),
        ensures
            result_matches(
                r,
                expand_entry_spec(self.dict_name@, text@, vars@, templates@, depth as nat),
            ),
        decreases depth_measure(depth as nat), 1nat, 0nat,
    {
        let t = str_chars(text);
        self.expand_chars(&t, vars, templates, depth)
    }

    fn expand_chars(&self, text: &Vec<char>, vars: &StrMap, templates: &StrMap, depth: usize) -> (r:
        Result<String, String>)
        requires
            vars.wf(),
            templates.wf(),
        ensures
            result_matches(
                r,
                expand_entry_spec(self.dict_name@, text@, vars@, templates@, depth as nat),
            ),
        decreases depth_measure(depth as nat), 1nat, 0nat,
    {
        let dict = str_chars(self.dict_name);
        if depth > 16 {
            return Err(message3("Recursion limit exceeded in i18n dictionary '", &dict, "' while expanding: ", text));
        }
        let mut cur = expand_vars_exec(text, vars);
        let mut fuel: usize = usize::MAX;
        let ghost start = cur@;
        while fuel > 0
            invariant
                depth <= 16,
                vars.wf(),
                templates.wf(),
                dict@ == self.dict_name@,
                start == expand_vars_spec(text@, vars@),
                expand_loop_spec(dict@, cur@, vars@, templates@, depth as nat, fuel as nat)
                    == expand_loop_spec(dict@, start, vars@, templates@, depth as nat, expansion_fuel()),
            decreases fuel,
        {
            match locate_call(&cur) {
                None => {
                    return Ok(chars_to_string(&cur));
                },
                Some((name, raw, s, e)) => {
                    proof {
                        lemma_find_call_bounds(cur@, 0);
                    }
                    let call = call_of(&name, &raw, s, e);
                    match self.eval_macro(&call, vars, templates, depth + 1) {
                        Err(err) => {
                            return Err(err);
                        },
                        Ok(x) => {
                            let xc = str_chars(x.as_str());
                            let mut next = slice_chars(&cur, 0, s);
                            extend_chars(&mut next, &xc);
                            let tail = slice_chars(&cur, e, cur.len());
                            extend_chars(&mut next, &tail);
                            proof {
                                let rc = RawCall { name: name@, args: raw@, start: s as int, end: e as int };
                                assert(next@ =~= splice(cur@, rc, x@));
                            }
                            cur = next;
                        },
                    }
                },
            }
            fuel = fuel - 1;
        }
        Err(message3("Expansion limit exceeded in i18n dictionary '", &dict, "' while expanding: ", &cur))
    }

    /// Evaluates one macro call at nesting `depth`.
    fn eval_macro(&self, call: &MacroCall, vars: &StrMap, templates: &StrMap, depth: usize) -> (r:
        Result<String, String>)
        requires
            vars.wf(),
            templates.wf(),
            call.named_args.wf(),
            depth <= 17,
        ensures
            result_matches(
                r,
                eval_macro_spec(
                    self.dict_name@,
                    call.name@,
                    strings_view(call.pos_args@),
                    pairs_view(call.named_args.entries@),
                    vars@,
                    templates@,
                    depth as nat,
                ),
            ),
        decreases depth_measure(depth as nat), 2nat, 0nat,
    {
        let name = str_chars(call.name.as_str());
        let clean = strip_prefix_or_self_chars(&name, "templates.");
        let lower = lowercase_chars(&clean);
        let ghost pos = strings_view(call.pos_args@);
        let arg: Vec<char> = if call.pos_args.len() > 0 {
            str_chars(call.pos_args[0].as_str())
        } else {
            Vec::new()
        };
        assert(arg@ == first_arg(pos));
        let mut out: Vec<char> = Vec::new();
        if chars_eq_str(&lower, "g") || chars_eq_str(&lower, "green") {
            out.push('\x04');
            extend_chars(&mut out, &arg);
            out.push('\x01');
            assert(out@ =~= seq!['\x04'] + arg@ + seq!['\x01']);
            return Ok(chars_to_string(&out));
        }
        if chars_eq_str(&lower, "t") || chars_eq_str(&lower, "team") {
            out.push('\x03');
            extend_chars(&mut out, &arg);
            out.push('\x01');
            assert(out@ =~= seq!['\x03'] + arg@ + seq!['\x01']);
            return Ok(chars_to_string(&out));
        }
        if chars_eq_str(&lower, "w") || chars_eq_str(&lower, "white") {
            out.push('\x01');
            extend_chars(&mut out, &arg);
            out.push('\x01');
            assert(out@ =~= seq!['\x01'] + arg@ + seq!['\x01']);
            return Ok(chars_to_string(&out));
        }
        if chars_eq_str(&lower, "tag") {
            out.push('^');
            out.push('3');
            out.push('[');
            out.push('\x04');
            extend_chars(&mut out, &arg);
            out.push('^');
            out.push('3');
            out.push(']');
            out.push('^');
            out.push('1');
            assert(out@ =~= seq!['^', '3', '[', '\x04'] + arg@ + seq!['^', '3', ']', '^', '1']);
            return Ok(chars_to_string(&out));
        }
        let clean_s = chars_to_string(&clean);
        let body = match templates.get(clean_s.as_str()) {
            Some(b) => b,
            None => {
                let dict = str_chars(self.dict_name);
                let mut m: Vec<char> = Vec::new();
                extend_str(&mut m, "Template macro '");
                extend_chars(&mut m, &clean);
                extend_str(&mut m, "' not found in dictionary '");
                extend_chars(&mut m, &dict);
                extend_str(&mut m, "'");
                return Err(chars_to_string(&m));
            },
        };
        let mut named: Vec<(&str, &str)> = Vec::new();
        let mut k: usize = 0;
        while k < call.named_args.entries.len()
            invariant
                k <= call.named_args.entries.len(),
                named@.len() == k,
                named_view(named@) == pairs_view(call.named_args.entries@).take(k as int),
            decreases call.named_args.entries.len() - k,
        {
            let e0 = call.named_args.entries[k].0.as_str();
            let e1 = call.named_args.entries[k].1.as_str();
            let ghost n0 = named@;
            named.push((e0, e1));
            assert(named@ == n0.push((e0, e1)));
            assert(named_view(named@)[k as int] == pairs_view(call.named_args.entries@)[k as int]);
            assert(named_view(named@) =~= pairs_view(call.named_args.entries@).take(k + 1));
            k = k + 1;
        }
        assert(pairs_view(call.named_args.entries@).take(k as int) =~= pairs_view(call.named_args.entries@));
        let mut pos_refs: Vec<&str> = Vec::new();
        let mut p: usize = 0;
        while p < call.pos_args.len()
            invariant
                p <= call.pos_args.len(),
                pos_refs@.len() == p,
                pos_view(pos_refs@) == strings_view(call.pos_args@).take(p as int),
            decreases call.pos_args.len() - p,
        {
            let e = call.pos_args[p].as_str();
            pos_refs.push(e);
            assert(pos_view(pos_refs@)[p as int] == strings_view(call.pos_args@)[p as int]);
            assert(pos_view(pos_refs@) =~= strings_view(call.pos_args@).take(p + 1));
            p = p + 1;
        }
        assert(strings_view(call.pos_args@).take(p as int) =~= strings_view(call.pos_args@));
        let formatted = format_by_replace(body.as_str(), named.as_slice(), pos_refs.as_slice());
        let fc = str_chars(formatted.as_str());
        self.expand_chars(&fc, vars, templates, depth)
    }
}

impl<'a> Compiler<'a> {
    /// Locates and parses the first macro call `@{name(args)}` of `text`, with
    /// the byte range of the call.
    pub fn find_macro_call(text: &str) -> (r: Option<MacroCall>)
        ensures
            match r {
                Some(c) => find_call_from(text@, 0) matches Some(rc) && is_call_of(c, text@, rc),
                None => find_call_from(text@, 0) is None,
            },
    {
        let bytes = text.as_bytes();
        let n_bytes = bytes.len();
        proof {
            lemma_utf8_len_encode(text@);
            assert(n_bytes as nat == utf8_len(text@));
        }
        let t = str_chars(text);
        match locate_call(&t) {
            None => None,
            Some((name, raw, s, e)) => {
                proof {
                    lemma_find_call_bounds(t@, 0);
                }
                let bs = utf8_prefix_len(&t, s);
                let be = utf8_prefix_len(&t, e);
                Some(call_of(&name, &raw, bs, be))
            },
        }
    }
}

} // verus!
