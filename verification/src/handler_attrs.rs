//! The attributes on the methods of a `#[plugin]` impl and the helper
//! attributes stacked on the impl: `#[system]`, `#[command]`, `#[event]`,
//! `#[menu_action]`, `#[bundle]`, `#[require]`, `#[permissions]`,
//! `#[description]`, `#[url]`, `#[license]` and `#[lifecycle]`. `syn` reads
//! their argument text; the rules here turn what it read into the handler's
//! definition, with the errors `syn`'s nested-meta reading gives.

use vstd::prelude::*;
use quote::ToTokens;
use crate::manifest::{PluginAttr, AttrView, CommandDefInfo};
use crate::plugin_attr::{
    MetaValue, MetaBody, MetaItem, MetaValueView, MetaBodyView, MetaItemView, plugin_metas, plugin_metas_of,
    literal_string, opt_chars, value_view,
};
use crate::text::{str_chars, chars_eq_str, chars_to_string, extend_str, matches_at, decimal, push_decimal};

verus! {

// ---------------------------------------------------------------------------
// What `syn` reads
// ---------------------------------------------------------------------------

/// A whole argument text read as one literal.
pub enum LitValue {
    Str(String),
    /// An integer literal, with its value when that fits in a `u32`.
    Int(Option<u32>),
    /// Another literal.
    Other,
    /// The text is not one literal.
    NotLiteral,
}

/// A literal read from a whole argument text, as values.
pub enum LitView {
    Str(Seq<char>),
    Int(Option<u32>),
    Other,
    NotLiteral,
}

impl View for LitValue {
    type V = LitView;

    open spec fn view(&self) -> LitView {
        match self {
            LitValue::Str(s) => LitView::Str(s@),
            LitValue::Int(n) => LitView::Int(*n),
            LitValue::Other => LitView::Other,
            LitValue::NotLiteral => LitView::NotLiteral,
        }
    }
}

/// What `syn::parse_str::<syn::Lit>` reads from an argument text.
pub uninterp spec fn lone_literal_of(args: Seq<char>) -> LitView;

/// Reads a whole argument text as one literal (`syn::parse_str::<Lit>`, as
/// `Attribute::parse_args::<Lit>` does); an integer's value is read with
/// `LitInt::base10_parse::<u32>`. The result is named by `lone_literal_of`.
#[verifier::external_body]
fn lone_literal(args: &str) -> (r: LitValue)
    ensures
        r@ == lone_literal_of(args@),
{
    match syn::parse_str::<syn::Lit>(args) {
        Ok(syn::Lit::Str(s)) => LitValue::Str(s.value()),
        Ok(syn::Lit::Int(i)) => LitValue::Int(i.base10_parse::<u32>().ok()),
        Ok(_) => LitValue::Other,
        Err(_) => LitValue::NotLiteral,
    }
}

/// Optional strings viewed as optional character sequences.
pub open spec fn opt_strings(v: Seq<Option<String>>) -> Seq<Option<Seq<char>>> {
    v.map_values(|o: Option<String>| opt_chars(o))
}

/// What `syn` reads from an argument text as comma-separated expressions
/// (`Punctuated::<Expr, Comma>::parse_terminated`): for each expression its
/// string when it is a string literal; none when the text is no such list.
pub uninterp spec fn expr_list_of(args: Seq<char>) -> Option<Seq<Option<Seq<char>>>>;

/// Reads an argument text as comma-separated expressions; the result is
/// named by `expr_list_of`.
#[verifier::external_body]
fn expr_list(args: &str) -> (r: Option<Vec<Option<String>>>)
    ensures
        match r {
            Some(v) => expr_list_of(args@) == Some(opt_strings(v@)),
            None => expr_list_of(args@) is None,
        },
{
    let parser = syn::punctuated::Punctuated::<syn::Expr, syn::token::Comma>::parse_terminated;
    match syn::parse::Parser::parse_str(parser, args) {
        Ok(list) => Some(list.iter().map(literal_string).collect()),
        Err(_) => None,
    }
}

/// Strings viewed as character sequences.
pub open spec fn strings_view(v: Seq<String>) -> Seq<Seq<char>> {
    v.map_values(|s: String| s@)
}

/// The types `syn` reads from the text of a `#[refined(...)]`
/// (`Punctuated::<Type, Comma>::parse_terminated`), each as the text its
/// tokens print to; none when the text is no such list.
pub uninterp spec fn refined_types_of(args: Seq<char>) -> Option<Seq<Seq<char>>>;

/// Reads the text of a `#[refined(...)]` as comma-separated types, each
/// printed back from its tokens; the result is named by `refined_types_of`.
#[verifier::external_body]
fn refined_types(args: &str) -> (r: Option<Vec<String>>)
    ensures
        match r {
            Some(v) => refined_types_of(args@) == Some(strings_view(v@)),
            None => refined_types_of(args@) is None,
        },
{
    let parser = syn::punctuated::Punctuated::<syn::Type, syn::token::Comma>::parse_terminated;
    match syn::parse::Parser::parse_str(parser, args) {
        Ok(list) => Some(list.iter().map(|t| t.to_token_stream().to_string()).collect()),
        Err(_) => None,
    }
}

/// What `syn` reads of the type of a typed parameter whose text is given
/// (`syn::parse_str::<FnArg>`): when it is a path type, the identifier of
/// its last segment and, when that segment has angle-bracketed arguments,
/// each argument printed back from its tokens when it is a type.
pub uninterp spec fn param_type_of(param: Seq<char>) -> Option<(Seq<char>, Option<Seq<Option<Seq<char>>>>)>;

/// A `syn` generic argument (a lifetime, a type, a constant, ...).
#[verifier::external_type_specification]
#[verifier::external_body]
pub struct ExGenericArgument(syn::GenericArgument);

/// A generic argument printed back from its tokens when it is a type.
#[verifier::external_body]
fn type_argument(g: &syn::GenericArgument) -> Option<String> {
    match g {
        syn::GenericArgument::Type(t) => Some(t.to_token_stream().to_string()),
        _ => None,
    }
}

/// Reads the type of a typed parameter from its text; the result is named
/// by `param_type_of`.
#[verifier::external_body]
fn param_type(param: &str) -> (r: Option<(String, Option<Vec<Option<String>>>)>)
    ensures
        match r {
            Some((last, args)) => param_type_of(param@) == Some((last@, match args {
                Some(a) => Some(opt_strings(a@)),
                None => None::<Seq<Option<Seq<char>>>>,
            })),
            None => param_type_of(param@) is None,
        },
{
    let Ok(syn::FnArg::Typed(pt)) = syn::parse_str::<syn::FnArg>(param) else { return None };
    let syn::Type::Path(tp) = &*pt.ty else { return None };
    let seg = tp.path.segments.last()?;
    let args = match &seg.arguments {
        syn::PathArguments::AngleBracketed(a) => Some(a.args.iter().map(type_argument).collect()),
        _ => None,
    };
    Some((seg.ident.to_string(), args))
}

// ---------------------------------------------------------------------------
// Shared rules of nested-meta reading
// ---------------------------------------------------------------------------

/// The error of an item whose key wants `= value` and has none.
pub open spec fn expected_eq() -> Seq<char> {
    "expected `=`"@
}

/// The error of an item that leaves tokens unread.
pub open spec fn expected_comma() -> Seq<char> {
    "expected `,`"@
}

/// A key read as one string: a string literal sets it, another literal
/// leaves it, anything else is an error.
pub open spec fn string_item(cur: Seq<char>, body: MetaBodyView) -> Result<Seq<char>, Seq<char>> {
    match body {
        MetaBodyView::NameValue(MetaValueView::Str(s)) => Ok(s),
        MetaBodyView::NameValue(MetaValueView::Int(_)) => Ok(cur),
        MetaBodyView::NameValue(MetaValueView::Lit) => Ok(cur),
        MetaBodyView::NameValue(_) => Err(expected_comma()),
        _ => Err(expected_eq()),
    }
}

/// The strings among optional strings, in order.
pub open spec fn present(es: Seq<Option<Seq<char>>>) -> Seq<Seq<char>>
    decreases es.len(),
{
    if es.len() == 0 {
        Seq::empty()
    } else {
        match es.last() {
            Some(s) => present(es.drop_last()).push(s),
            None => present(es.drop_last()),
        }
    }
}

/// A key read as a list: a string literal adds itself, an array adds its
/// string literals, anything else is an error.
pub open spec fn list_item(cur: Seq<Seq<char>>, body: MetaBodyView) -> Result<Seq<Seq<char>>, Seq<char>> {
    match body {
        MetaBodyView::NameValue(MetaValueView::Str(s)) => Ok(cur.push(s)),
        MetaBodyView::NameValue(MetaValueView::Array(es)) => Ok(cur + present(es)),
        _ => Err(expected_eq()),
    }
}

/// An item whose key is not read: only a bare path leaves nothing unread.
pub open spec fn skipped_item(body: MetaBodyView) -> bool {
    body is Path
}

fn expected_eq_error() -> (r: String)
    ensures
        r@ == expected_eq(),
{
    "expected `=`".to_string()
}

fn expected_comma_error() -> (r: String)
    ensures
        r@ == expected_comma(),
{
    "expected `,`".to_string()
}

fn string_item_exec(cur: String, body: &MetaBody) -> (r: Result<String, String>)
    ensures
        match string_item(cur@, match *body {
            MetaBody::NameValue(v) => MetaBodyView::NameValue(value_view(v)),
            MetaBody::Path => MetaBodyView::Path,
            MetaBody::List => MetaBodyView::List,
        }) {
            Ok(s) => r matches Ok(x) && x@ == s,
            Err(e) => r matches Err(x) && x@ == e,
        },
{
    match body {
        MetaBody::NameValue(MetaValue::Str(s)) => Ok(s.clone()),
        MetaBody::NameValue(MetaValue::Int(_)) => Ok(cur),
        MetaBody::NameValue(MetaValue::Lit) => Ok(cur),
        MetaBody::NameValue(_) => Err(expected_comma_error()),
        _ => Err(expected_eq_error()),
    }
}

/// The strings among optional strings, in order.
pub fn present_strings(es: &Vec<Option<String>>) -> (r: Vec<String>)
    ensures
        strings_view(r@) == present(opt_strings(es@)),
{
    let mut out: Vec<String> = Vec::new();
    let mut i: usize = 0;
    while i < es.len()
        invariant
            i <= es@.len(),
            strings_view(out@) == present(opt_strings(es@.take(i as int))),
        decreases es@.len() - i,
    {
        assert(opt_strings(es@.take(i as int + 1)).drop_last() =~= opt_strings(es@.take(i as int)));
        match &es[i] {
            Some(s) => {
                out.push(s.clone());
                assert(strings_view(out@) =~= present(opt_strings(es@.take(i as int))).push(s@));
            },
            None => {},
        }
        i = i + 1;
    }
    assert(es@.take(i as int) =~= es@);
    out
}

/// Appends strings to a vector of strings.
fn extend_strings(dst: &mut Vec<String>, src: &Vec<String>)
    ensures
        strings_view(final(dst)@) == strings_view(old(dst)@) + strings_view(src@),
{
    let mut k: usize = 0;
    let ghost base = strings_view(dst@);
    while k < src.len()
        invariant
            k <= src@.len(),
            strings_view(dst@) == base + strings_view(src@.take(k as int)),
        decreases src@.len() - k,
    {
        let x = src[k].clone();
        let ghost before = strings_view(dst@);
        dst.push(x);
        assert(strings_view(dst@) =~= before.push(x@));
        assert(src@.take(k as int + 1) =~= src@.take(k as int).push(src@[k as int]));
        assert(strings_view(src@.take(k as int + 1)) =~= strings_view(src@.take(k as int)).push(src@[k as int]@));
        assert(strings_view(dst@) =~= base + strings_view(src@.take(k as int + 1)));
        k = k + 1;
    }
    assert(src@.take(k as int) =~= src@);
}

fn list_item_exec(cur: &mut Vec<String>, body: &MetaBody) -> (r: Result<(), String>)
    ensures
        match list_item(strings_view(old(cur)@), match *body {
            MetaBody::NameValue(v) => MetaBodyView::NameValue(value_view(v)),
            MetaBody::Path => MetaBodyView::Path,
            MetaBody::List => MetaBodyView::List,
        }) {
            Ok(l) => r is Ok && strings_view(final(cur)@) == l,
            Err(e) => r matches Err(x) && x@ == e,
        },
{
    match body {
        MetaBody::NameValue(MetaValue::Str(s)) => {
            cur.push(s.clone());
            assert(strings_view(cur@) =~= strings_view(old(cur)@).push(s@));
            Ok(())
        },
        MetaBody::NameValue(MetaValue::Array(es)) => {
            let p = present_strings(es);
            let mut k: usize = 0;
            let ghost base = strings_view(cur@);
            while k < p.len()
                invariant
                    k <= p@.len(),
                    strings_view(cur@) == base + strings_view(p@.take(k as int)),
                decreases p@.len() - k,
            {
                let x = p[k].clone();
                let ghost before = strings_view(cur@);
                cur.push(x);
                assert(strings_view(cur@) =~= before.push(x@));
                assert(p@.take(k as int + 1) =~= p@.take(k as int).push(p@[k as int]));
                assert(strings_view(p@.take(k as int + 1)) =~= strings_view(p@.take(k as int)).push(p@[k as int]@));
                assert(strings_view(cur@) =~= base + strings_view(p@.take(k as int + 1)));
                k = k + 1;
            }
            assert(p@.take(k as int) =~= p@);
            Ok(())
        },
        _ => Err(expected_eq_error()),
    }
}

/// Whether `p` occurs in `s`.
pub open spec fn contains_text(s: Seq<char>, p: Seq<char>) -> bool {
    exists|i: int| 0 <= i && i + p.len() <= s.len() && #[trigger] s.subrange(i, i + p.len()) == p
}

/// Whether `p` occurs in `s` (`str::contains`).
pub fn contains_str(s: &Vec<char>, p: &str) -> (r: bool)
    ensures
        r == contains_text(s@, p@),
{
    let pc = str_chars(p);
    if pc.len() > s.len() {
        return false;
    }
    if pc.len() == 0 {
        assert(s@.subrange(0int, 0int + p@.len()) =~= p@);
        return true;
    }
    let mut i: usize = 0;
    while i <= s.len() - pc.len()
        invariant
            pc@ == p@,
            0 < pc@.len() <= s@.len(),
            i <= s@.len() - pc@.len() + 1,
            forall|j: int| 0 <= j < i ==> #[trigger] s@.subrange(j, j + pc@.len()) != pc@,
        decreases s@.len() - pc@.len() + 1 - i,
    {
        if matches_at(s, i, &pc) {
            return true;
        }
        i = i + 1;
    }
    false
}

/// What follows an item's path, viewed as values.
pub open spec fn body_view(b: MetaBody) -> MetaBodyView {
    match b {
        MetaBody::NameValue(v) => MetaBodyView::NameValue(value_view(v)),
        MetaBody::Path => MetaBodyView::Path,
        MetaBody::List => MetaBodyView::List,
    }
}

fn skip_or_fail(body: &MetaBody) -> (r: Result<(), String>)
    ensures
        skipped_item(body_view(*body)) ==> r is Ok,
        !skipped_item(body_view(*body)) ==> (r matches Err(e) && e@ == expected_comma()),
{
    match body {
        MetaBody::Path => Ok(()),
        _ => Err(expected_comma_error()),
    }
}

fn ident_is(ident: &Option<String>, name: &str) -> (r: bool)
    ensures
        r == (opt_chars(*ident) == Some(name@)),
{
    match ident {
        Some(id) => {
            let c = str_chars(id.as_str());
            chars_eq_str(&c, name)
        },
        None => false,
    }
}

// ---------------------------------------------------------------------------
// `#[system(...)]`
// ---------------------------------------------------------------------------

/// The stage, phase and ordering constraints a `#[system]` asks for.
pub struct SystemAttr {
    pub stage: String,
    pub phase: String,
    pub before: Vec<String>,
    pub after: Vec<String>,
}

/// `SystemAttr` as values.
pub struct SystemAttrView {
    pub stage: Seq<char>,
    pub phase: Seq<char>,
    pub before: Seq<Seq<char>>,
    pub after: Seq<Seq<char>>,
}

impl View for SystemAttr {
    type V = SystemAttrView;

    open spec fn view(&self) -> SystemAttrView {
        SystemAttrView {
            stage: self.stage@,
            phase: self.phase@,
            before: strings_view(self.before@),
            after: strings_view(self.after@),
        }
    }
}

/// Stage `frame`, phase `execute`, no constraints.
pub open spec fn default_system() -> SystemAttrView {
    SystemAttrView { stage: "frame"@, phase: "execute"@, before: Seq::empty(), after: Seq::empty() }
}

/// A `#[system]` after one item: `stage` and `phase` take a string,
/// `before` and `after` add a string or the strings of an array, `order`
/// takes a literal that nothing reads; any other key must be a bare path.
pub open spec fn system_step(v: SystemAttrView, m: MetaItemView) -> Result<SystemAttrView, Seq<char>> {
    if m.ident == Some("stage"@) {
        match string_item(v.stage, m.body) {
            Ok(s) => Ok(SystemAttrView { stage: s, ..v }),
            Err(e) => Err(e),
        }
    } else if m.ident == Some("phase"@) {
        match string_item(v.phase, m.body) {
            Ok(s) => Ok(SystemAttrView { phase: s, ..v }),
            Err(e) => Err(e),
        }
    } else if m.ident == Some("before"@) {
        match list_item(v.before, m.body) {
            Ok(l) => Ok(SystemAttrView { before: l, ..v }),
            Err(e) => Err(e),
        }
    } else if m.ident == Some("after"@) {
        match list_item(v.after, m.body) {
            Ok(l) => Ok(SystemAttrView { after: l, ..v }),
            Err(e) => Err(e),
        }
    } else if m.ident == Some("order"@) {
        match string_item(Seq::empty(), m.body) {
            Ok(_) => Ok(v),
            Err(e) => Err(e),
        }
    } else if skipped_item(m.body) {
        Ok(v)
    } else {
        Err(expected_comma())
    }
}

/// A `#[system]` after the items, in order; the error of the first item
/// that gives one.
pub open spec fn system_fold(v: SystemAttrView, ms: Seq<MetaItemView>) -> Result<SystemAttrView, Seq<char>>
    decreases ms.len(),
{
    if ms.len() == 0 {
        Ok(v)
    } else {
        match system_step(v, ms[0]) {
            Ok(v2) => system_fold(v2, ms.drop_first()),
            Err(e) => Err(e),
        }
    }
}

/// What the argument text of a `#[system]` asks for: a lone string
/// literal names the stage; otherwise `syn`'s items, read from the
/// defaults.
pub open spec fn system_attr_of(args: Seq<char>) -> Result<SystemAttrView, Seq<char>> {
    match lone_literal_of(args) {
        LitView::Str(s) => Ok(SystemAttrView { stage: s, ..default_system() }),
        _ => match plugin_metas_of(args) {
            Err(e) => Err(e),
            Ok(items) => system_fold(default_system(), items),
        },
    }
}

fn default_system_attr() -> (r: SystemAttr)
    ensures
        r@ == default_system(),
{
    let r = SystemAttr { stage: "frame".to_string(), phase: "execute".to_string(), before: Vec::new(), after: Vec::new() };
    assert(r@.before =~= Seq::<Seq<char>>::empty());
    assert(r@.after =~= Seq::<Seq<char>>::empty());
    r
}

fn system_step_exec(v: &mut SystemAttr, m: &MetaItem) -> (r: Result<(), String>)
    ensures
        match system_step(old(v)@, m@) {
            Ok(x) => r is Ok && final(v)@ == x,
            Err(e) => r matches Err(x) && x@ == e,
        },
{
    assert(m@.body == body_view(m.body));
    if ident_is(&m.ident, "stage") {
        let cur = v.stage.clone();
        match string_item_exec(cur, &m.body) {
            Ok(s) => {
                v.stage = s;
                Ok(())
            },
            Err(e) => Err(e),
        }
    } else if ident_is(&m.ident, "phase") {
        let cur = v.phase.clone();
        match string_item_exec(cur, &m.body) {
            Ok(s) => {
                v.phase = s;
                Ok(())
            },
            Err(e) => Err(e),
        }
    } else if ident_is(&m.ident, "before") {
        list_item_exec(&mut v.before, &m.body)
    } else if ident_is(&m.ident, "after") {
        list_item_exec(&mut v.after, &m.body)
    } else if ident_is(&m.ident, "order") {
        match string_item_exec(String::new(), &m.body) {
            Ok(_) => Ok(()),
            Err(e) => Err(e),
        }
    } else {
        skip_or_fail(&m.body)
    }
}

/// Applies the items of a `#[system(...)]`, in order, to the defaults;
/// stops at the first item that gives an error.
pub fn system_attr_from_items(items: Vec<MetaItem>) -> (r: Result<SystemAttr, String>)
    ensures
        match system_fold(default_system(), items@.map_values(|m: MetaItem| m@)) {
            Ok(v) => r matches Ok(a) && a@ == v,
            Err(e) => r matches Err(m) && m@ == e,
        },
{
    let ghost all = items@.map_values(|m: MetaItem| m@);
    let mut out = default_system_attr();
    let mut i: usize = 0;
    assert(all.skip(0) =~= all);
    while i < items.len()
        invariant
            i <= items@.len(),
            all == items@.map_values(|m: MetaItem| m@),
            system_fold(default_system(), all) == system_fold(out@, all.skip(i as int)),
        decreases items@.len() - i,
    {
        assert(all.skip(i as int).drop_first() =~= all.skip(i as int + 1));
        assert(all.skip(i as int)[0] == items@[i as int]@);
        match system_step_exec(&mut out, &items[i]) {
            Ok(()) => {},
            Err(e) => {
                return Err(e);
            },
        }
        i = i + 1;
    }
    Ok(out)
}

/// Reads the argument text of a `#[system(...)]` (empty for a bare
/// `#[system]`), as `system_attr_of` says.
pub fn system_attr(args: &str) -> (r: Result<SystemAttr, String>)
    ensures
        match system_attr_of(args@) {
            Ok(v) => r matches Ok(a) && a@ == v,
            Err(e) => r matches Err(m) && m@ == e,
        },
{
    match lone_literal(args) {
        LitValue::Str(s) => {
            let mut a = default_system_attr();
            a.stage = s;
            Ok(a)
        },
        _ => match plugin_metas(args) {
            Ok(items) => system_attr_from_items(items),
            Err(e) => Err(e),
        },
    }
}

/// The target a parameter's text names: `Player`, else `Client`, else
/// `Entity` (but not `EntityId`), else none.
pub open spec fn base_target(t: Seq<char>) -> Seq<char> {
    if contains_text(t, "Player"@) {
        "Player"@
    } else if contains_text(t, "Client"@) {
        "Client"@
    } else if contains_text(t, "Entity"@) && !contains_text(t, "EntityId"@) {
        "Entity"@
    } else {
        Seq::empty()
    }
}

/// The target the first type argument of `Refined<..>` names: `Client`,
/// else `Entity`, else `Player`.
pub open spec fn arg_target(a: Seq<char>) -> Seq<char> {
    if contains_text(a, "Client"@) {
        "Client"@
    } else if contains_text(a, "Entity"@) {
        "Entity"@
    } else {
        "Player"@
    }
}

/// The types of the `#[refined(...)]` attributes of a parameter, in order;
/// an attribute whose text is no list of types adds none.
pub open spec fn refined_from(attrs: Seq<Seq<char>>) -> Seq<Seq<char>>
    decreases attrs.len(),
{
    if attrs.len() == 0 {
        Seq::empty()
    } else {
        match refined_types_of(attrs.last()) {
            Some(ts) => refined_from(attrs.drop_last()) + ts,
            None => refined_from(attrs.drop_last()),
        }
    }
}

/// What a system's first parameter says of the target it runs on: the
/// target's name, the refinement types, and whether the parameter is a
/// `Refined` value itself. Without a typed first parameter, nothing.
pub open spec fn system_target(param: Option<Seq<char>>, refined: Seq<Seq<char>>) -> (Seq<char>, Seq<Seq<char>>, bool) {
    match param {
        None => (Seq::empty(), Seq::empty(), false),
        Some(t) => {
            let specs = refined_from(refined);
            let target = base_target(t);
            if !contains_text(t, "Refined"@) {
                (target, specs, false)
            } else {
                let target1 = if target.len() == 0 { "Player"@ } else { target };
                if specs.len() > 0 {
                    (target1, specs, true)
                } else {
                    match param_type_of(t) {
                        Some((last, Some(gargs))) => if last == "Refined"@ {
                            let ta = present(gargs);
                            if ta.len() >= 2 {
                                (arg_target(ta[0]), seq![ta[1]], true)
                            } else if ta.len() == 1 {
                                (target1, seq![ta[0]], true)
                            } else {
                                (target1, specs, true)
                            }
                        } else {
                            (target1, specs, true)
                        },
                        _ => (target1, specs, true),
                    }
                }
            }
        },
    }
}

fn base_target_exec(t: &Vec<char>) -> (r: String)
    ensures
        r@ == base_target(t@),
{
    if contains_str(t, "Player") {
        "Player".to_string()
    } else if contains_str(t, "Client") {
        "Client".to_string()
    } else if contains_str(t, "Entity") && !contains_str(t, "EntityId") {
        "Entity".to_string()
    } else {
        String::new()
    }
}

fn arg_target_exec(a: &String) -> (r: String)
    ensures
        r@ == arg_target(a@),
{
    let c = str_chars(a.as_str());
    if contains_str(&c, "Client") {
        "Client".to_string()
    } else if contains_str(&c, "Entity") {
        "Entity".to_string()
    } else {
        "Player".to_string()
    }
}

fn refined_from_exec(attrs: &Vec<String>) -> (r: Vec<String>)
    ensures
        strings_view(r@) == refined_from(strings_view(attrs@)),
{
    let mut out: Vec<String> = Vec::new();
    let mut i: usize = 0;
    while i < attrs.len()
        invariant
            i <= attrs@.len(),
            strings_view(out@) == refined_from(strings_view(attrs@.take(i as int))),
        decreases attrs@.len() - i,
    {
        assert(strings_view(attrs@.take(i as int + 1)).drop_last() =~= strings_view(attrs@.take(i as int)));
        assert(strings_view(attrs@.take(i as int + 1)).last() == attrs@[i as int]@);
        match refined_types(attrs[i].as_str()) {
            Some(ts) => {
                let mut k: usize = 0;
                let ghost base = strings_view(out@);
                while k < ts.len()
                    invariant
                        k <= ts@.len(),
                        strings_view(out@) == base + strings_view(ts@.take(k as int)),
                    decreases ts@.len() - k,
                {
                    let x = ts[k].clone();
                    let ghost before = strings_view(out@);
                    out.push(x);
                    assert(strings_view(out@) =~= before.push(x@));
                    assert(ts@.take(k as int + 1) =~= ts@.take(k as int).push(ts@[k as int]));
                    assert(strings_view(ts@.take(k as int + 1)) =~= strings_view(ts@.take(k as int)).push(ts@[k as int]@));
                    assert(strings_view(out@) =~= base + strings_view(ts@.take(k as int + 1)));
                    k = k + 1;
                }
                assert(ts@.take(k as int) =~= ts@);
            },
            None => {},
        }
        i = i + 1;
    }
    assert(attrs@.take(i as int) =~= attrs@);
    out
}

/// A `&str` option viewed as an option of its characters.
pub open spec fn opt_str(o: Option<&str>) -> Option<Seq<char>> {
    match o {
        Some(s) => Some(s@),
        None => None,
    }
}

/// Reads what a system's first parameter says of its target, as
/// `system_target` says: `param` is the text of the typed first parameter
/// without its `#[refined(...)]` attributes, `refined` the argument texts
/// of those attributes.
pub fn system_target_exec(param: Option<&str>, refined: &Vec<String>) -> (r: (String, Vec<String>, bool))
    ensures
        (r.0@, strings_view(r.1@), r.2) == system_target(opt_str(param), strings_view(refined@)),
{
    let t = match param {
        None => {
            let e: Vec<String> = Vec::new();
            assert(strings_view(e@) =~= Seq::<Seq<char>>::empty());
            return (String::new(), e, false);
        },
        Some(t) => t,
    };
    let tc = str_chars(t);
    let specs = refined_from_exec(refined);
    let target = base_target_exec(&tc);
    if !contains_str(&tc, "Refined") {
        return (target, specs, false);
    }
    let target1 = if str_chars(target.as_str()).len() == 0 { "Player".to_string() } else { target };
    if specs.len() > 0 {
        return (target1, specs, true);
    }
    match param_type(t) {
        Some((last, Some(gargs))) => {
            let lc = str_chars(last.as_str());
            if chars_eq_str(&lc, "Refined") {
                let ta = present_strings(&gargs);
                if ta.len() >= 2 {
                    let mut one: Vec<String> = Vec::new();
                    one.push(ta[1].clone());
                    assert(strings_view(one@) =~= seq![strings_view(ta@)[1]]);
                    (arg_target_exec(&ta[0]), one, true)
                } else if ta.len() == 1 {
                    let mut one: Vec<String> = Vec::new();
                    one.push(ta[0].clone());
                    assert(strings_view(one@) =~= seq![strings_view(ta@)[0]]);
                    (target1, one, true)
                } else {
                    (target1, specs, true)
                }
            } else {
                (target1, specs, true)
            }
        },
        _ => (target1, specs, true),
    }
}

/// A parsed `#[system]` handler.
pub struct SystemDef {
    pub stage: String,
    pub phase: String,
    pub before: Vec<String>,
    pub after: Vec<String>,
    /// The number of parameters of the method.
    pub inputs_len: usize,
    /// `Player`, `Client`, `Entity`, or empty.
    pub target_ty_name: String,
    /// The refinement types, each as the text its tokens print to.
    pub refined_specs: Vec<String>,
    pub takes_refined_directly: bool,
}

/// Parses a `#[system(...)]` on a method: `args` is the attribute's
/// argument text (empty for a bare `#[system]`), `first_param` the text of
/// the method's typed first parameter without its `#[refined(...)]`
/// attributes, `refined` the argument texts of those attributes, and
/// `inputs_len` the number of parameters.
pub fn parse_system_attr(args: &str, first_param: Option<&str>, refined: &Vec<String>, inputs_len: usize) -> (r: Result<
    SystemDef,
    String,
>)
    ensures
        match system_attr_of(args@) {
            Err(e) => r matches Err(m) && m@ == e,
            Ok(v) => r matches Ok(d) && d.stage@ == v.stage && d.phase@ == v.phase && strings_view(d.before@)
                == v.before && strings_view(d.after@) == v.after && d.inputs_len == inputs_len && (
            d.target_ty_name@, strings_view(d.refined_specs@), d.takes_refined_directly) == system_target(
                opt_str(first_param),
                strings_view(refined@),
            ),
        },
{
    let a = match system_attr(args) {
        Ok(a) => a,
        Err(e) => {
            return Err(e);
        },
    };
    let (target_ty_name, refined_specs, takes_refined_directly) = system_target_exec(first_param, refined);
    Ok(SystemDef {
        stage: a.stage,
        phase: a.phase,
        before: a.before,
        after: a.after,
        inputs_len,
        target_ty_name,
        refined_specs,
        takes_refined_directly,
    })
}

// ---------------------------------------------------------------------------
// `#[command(...)]`
// ---------------------------------------------------------------------------

/// A key read as an optional string: a string literal sets it, another
/// literal leaves it, anything else is an error.
pub open spec fn opt_string_item(cur: Option<Seq<char>>, body: MetaBodyView) -> Result<Option<Seq<char>>, Seq<char>> {
    match body {
        MetaBodyView::NameValue(MetaValueView::Str(s)) => Ok(Some(s)),
        MetaBodyView::NameValue(MetaValueView::Int(_)) => Ok(cur),
        MetaBodyView::NameValue(MetaValueView::Lit) => Ok(cur),
        MetaBodyView::NameValue(_) => Err(expected_comma()),
        _ => Err(expected_eq()),
    }
}

fn opt_string_item_exec(cur: &mut Option<String>, body: &MetaBody) -> (r: Result<(), String>)
    ensures
        match opt_string_item(opt_chars(*old(cur)), body_view(*body)) {
            Ok(x) => r is Ok && opt_chars(*final(cur)) == x,
            Err(e) => r matches Err(m) && m@ == e,
        },
{
    match body {
        MetaBody::NameValue(MetaValue::Str(s)) => {
            *cur = Some(s.clone());
            Ok(())
        },
        MetaBody::NameValue(MetaValue::Int(_)) => Ok(()),
        MetaBody::NameValue(MetaValue::Lit) => Ok(()),
        MetaBody::NameValue(_) => Err(expected_comma_error()),
        _ => Err(expected_eq_error()),
    }
}

/// What a `#[command]` has read so far.
pub struct CommandAttr {
    pub name: Option<String>,
    pub description: Option<String>,
    pub usage: Option<String>,
    pub aliases: Vec<String>,
    pub capability: Option<String>,
    pub requires: Vec<String>,
}

/// `CommandAttr` as values.
pub struct CommandAttrView {
    pub name: Option<Seq<char>>,
    pub description: Option<Seq<char>>,
    pub usage: Option<Seq<char>>,
    pub aliases: Seq<Seq<char>>,
    pub capability: Option<Seq<char>>,
    pub requires: Seq<Seq<char>>,
}

impl View for CommandAttr {
    type V = CommandAttrView;

    open spec fn view(&self) -> CommandAttrView {
        CommandAttrView {
            name: opt_chars(self.name),
            description: opt_chars(self.description),
            usage: opt_chars(self.usage),
            aliases: strings_view(self.aliases@),
            capability: opt_chars(self.capability),
            requires: strings_view(self.requires@),
        }
    }
}

/// Nothing read yet.
pub open spec fn empty_command() -> CommandAttrView {
    CommandAttrView {
        name: None,
        description: None,
        usage: None,
        aliases: Seq::empty(),
        capability: None,
        requires: Seq::empty(),
    }
}

/// The error for a key `#[command]` does not take.
pub open spec fn unknown_command_key(ident: Option<Seq<char>>) -> Seq<char> {
    "unknown #[command] key '"@ + (match ident {
        Some(i) => i,
        None => Seq::empty(),
    }) + "'"@
}

/// A `#[command]` after one item: `name`, `description`, `usage` and
/// `capability` take a string, `requires` adds a string or the strings of
/// an array, `aliases` adds the strings of an array; any other key is an
/// error.
pub open spec fn command_step(v: CommandAttrView, m: MetaItemView) -> Result<CommandAttrView, Seq<char>> {
    if m.ident == Some("name"@) {
        match opt_string_item(v.name, m.body) {
            Ok(x) => Ok(CommandAttrView { name: x, ..v }),
            Err(e) => Err(e),
        }
    } else if m.ident == Some("capability"@) {
        match opt_string_item(v.capability, m.body) {
            Ok(x) => Ok(CommandAttrView { capability: x, ..v }),
            Err(e) => Err(e),
        }
    } else if m.ident == Some("description"@) {
        match opt_string_item(v.description, m.body) {
            Ok(x) => Ok(CommandAttrView { description: x, ..v }),
            Err(e) => Err(e),
        }
    } else if m.ident == Some("usage"@) {
        match opt_string_item(v.usage, m.body) {
            Ok(x) => Ok(CommandAttrView { usage: x, ..v }),
            Err(e) => Err(e),
        }
    } else if m.ident == Some("requires"@) {
        match list_item(v.requires, m.body) {
            Ok(l) => Ok(CommandAttrView { requires: l, ..v }),
            Err(e) => Err(e),
        }
    } else if m.ident == Some("aliases"@) {
        match m.body {
            MetaBodyView::NameValue(MetaValueView::Array(es)) => Ok(CommandAttrView { aliases: v.aliases + present(es), ..v }),
            MetaBodyView::NameValue(_) => Err(expected_comma()),
            _ => Err(expected_eq()),
        }
    } else {
        Err(unknown_command_key(m.ident))
    }
}

/// A `#[command]` after the items, in order; the error of the first item
/// that gives one.
pub open spec fn command_fold(v: CommandAttrView, ms: Seq<MetaItemView>) -> Result<CommandAttrView, Seq<char>>
    decreases ms.len(),
{
    if ms.len() == 0 {
        Ok(v)
    } else {
        match command_step(v, ms[0]) {
            Ok(v2) => command_fold(v2, ms.drop_first()),
            Err(e) => Err(e),
        }
    }
}

/// The error of a `#[command]` without a parenthesized list.
pub open spec fn command_list_expected() -> Seq<char> {
    "expected attribute arguments in parentheses: #[command(...)]"@
}

/// The error of a `#[command]` without `name`.
pub open spec fn command_name_missing() -> Seq<char> {
    "missing 'name' parameter in #[command]"@
}

/// What a `#[command]` with the argument text `args` (none when it has no
/// parenthesized list) reads: a lone string literal is the name; else the
/// items from nothing read, and then a `name` is owed.
pub open spec fn command_attr_of(args: Option<Seq<char>>) -> Result<CommandAttrView, Seq<char>> {
    match args {
        None => Err(command_list_expected()),
        Some(a) => if lone_literal_of(a) is Str {
            Ok(CommandAttrView { name: Some(lone_literal_of(a)->Str_0), ..empty_command() })
        } else {
            match plugin_metas_of(a) {
            Err(e) => Err(e),
            Ok(items) => match command_fold(empty_command(), items) {
                Err(e) => Err(e),
                Ok(v) => if v.name is Some {
                    Ok(v)
                } else {
                    Err(command_name_missing())
                },
            },
            }
        },
    }
}

/// The command definition of what a `#[command]` read: description and
/// usage default to empty.
pub open spec fn command_def_matches(d: CommandDefInfo, v: CommandAttrView) -> bool {
    &&& Some(d.name@) == v.name
    &&& d.description@ == (match v.description {
        Some(x) => x,
        None => Seq::empty(),
    })
    &&& d.usage@ == (match v.usage {
        Some(x) => x,
        None => Seq::empty(),
    })
    &&& strings_view(d.aliases@) == v.aliases
    &&& opt_chars(d.capability) == v.capability
    &&& strings_view(d.requires@) == v.requires
}

fn command_step_exec(v: &mut CommandAttr, m: &MetaItem) -> (r: Result<(), String>)
    ensures
        match command_step(old(v)@, m@) {
            Ok(x) => r is Ok && final(v)@ == x,
            Err(e) => r matches Err(x) && x@ == e,
        },
{
    assert(m@.body == body_view(m.body));
    if ident_is(&m.ident, "name") {
        opt_string_item_exec(&mut v.name, &m.body)
    } else if ident_is(&m.ident, "capability") {
        opt_string_item_exec(&mut v.capability, &m.body)
    } else if ident_is(&m.ident, "description") {
        opt_string_item_exec(&mut v.description, &m.body)
    } else if ident_is(&m.ident, "usage") {
        opt_string_item_exec(&mut v.usage, &m.body)
    } else if ident_is(&m.ident, "requires") {
        list_item_exec(&mut v.requires, &m.body)
    } else if ident_is(&m.ident, "aliases") {
        match &m.body {
            MetaBody::NameValue(MetaValue::Array(es)) => {
                let p = present_strings(es);
                extend_strings(&mut v.aliases, &p);
                Ok(())
            },
            MetaBody::NameValue(_) => Err(expected_comma_error()),
            _ => Err(expected_eq_error()),
        }
    } else {
        let mut msg: Vec<char> = Vec::new();
        extend_str(&mut msg, "unknown #[command] key '");
        match &m.ident {
            Some(i) => extend_str(&mut msg, i.as_str()),
            None => {},
        }
        extend_str(&mut msg, "'");
        assert(msg@ =~= unknown_command_key(m@.ident));
        Err(chars_to_string(&msg))
    }
}

/// Applies the items of a `#[command(...)]`, in order, from nothing read;
/// stops at the first item that gives an error.
pub fn command_attr_from_items(items: Vec<MetaItem>) -> (r: Result<CommandAttr, String>)
    ensures
        match command_fold(empty_command(), items@.map_values(|m: MetaItem| m@)) {
            Ok(v) => r matches Ok(a) && a@ == v,
            Err(e) => r matches Err(m) && m@ == e,
        },
{
    let ghost all = items@.map_values(|m: MetaItem| m@);
    let mut out = CommandAttr {
        name: None,
        description: None,
        usage: None,
        aliases: Vec::new(),
        capability: None,
        requires: Vec::new(),
    };
    assert(strings_view(out.aliases@) =~= Seq::<Seq<char>>::empty());
    assert(strings_view(out.requires@) =~= Seq::<Seq<char>>::empty());
    assert(out@ == empty_command());
    let mut i: usize = 0;
    assert(all.skip(0) =~= all);
    while i < items.len()
        invariant
            i <= items@.len(),
            all == items@.map_values(|m: MetaItem| m@),
            command_fold(empty_command(), all) == command_fold(out@, all.skip(i as int)),
        decreases items@.len() - i,
    {
        assert(all.skip(i as int).drop_first() =~= all.skip(i as int + 1));
        assert(all.skip(i as int)[0] == items@[i as int]@);
        match command_step_exec(&mut out, &items[i]) {
            Ok(()) => {},
            Err(e) => {
                return Err(e);
            },
        }
        i = i + 1;
    }
    Ok(out)
}

/// Parses a `#[command(...)]` on a method: `args` is its argument text,
/// none when the attribute has no parenthesized list. A capability is kept
/// as written.
pub fn parse_command_attr(args: Option<&str>) -> (r: Result<CommandDefInfo, String>)
    ensures
        match command_attr_of(opt_str(args)) {
            Err(e) => r matches Err(m) && m@ == e,
            Ok(v) => r matches Ok(d) && command_def_matches(d, v),
        },
{
    let a = match args {
        None => {
            return Err("expected attribute arguments in parentheses: #[command(...)]".to_string());
        },
        Some(a) => a,
    };
    match lone_literal(a) {
        LitValue::Str(name) => {
            let no_aliases: Vec<String> = Vec::new();
            let no_requirements: Vec<String> = Vec::new();
            assert(strings_view(no_aliases@) =~= Seq::<Seq<char>>::empty());
            assert(strings_view(no_requirements@) =~= Seq::<Seq<char>>::empty());
            return Ok(CommandDefInfo {
                name,
                description: String::new(),
                usage: String::new(),
                aliases: no_aliases,
                capability: None,
                requires: no_requirements,
            });
        },
        _ => {},
    }
    let items = match plugin_metas(a) {
        Ok(items) => items,
        Err(e) => {
            return Err(e);
        },
    };
    let c = match command_attr_from_items(items) {
        Ok(c) => c,
        Err(e) => {
            return Err(e);
        },
    };
    let name = match c.name {
        Some(n) => n,
        None => {
            return Err("missing 'name' parameter in #[command]".to_string());
        },
    };
    let description = match c.description {
        Some(d) => d,
        None => String::new(),
    };
    let usage = match c.usage {
        Some(u) => u,
        None => String::new(),
    };
    Ok(CommandDefInfo { name, description, usage, aliases: c.aliases, capability: c.capability, requires: c.requires })
}

// ---------------------------------------------------------------------------
// `#[event(...)]`
// ---------------------------------------------------------------------------

/// The event name after one item, or none when the item stops the reading:
/// `name` takes a string literal; another literal leaves the name.
pub open spec fn event_step(name: Option<Seq<char>>, m: MetaItemView) -> Option<Option<Seq<char>>> {
    if m.ident == Some("name"@) {
        match m.body {
            MetaBodyView::NameValue(MetaValueView::Str(s)) => Some(Some(s)),
            MetaBodyView::NameValue(MetaValueView::Int(_)) => Some(name),
            MetaBodyView::NameValue(MetaValueView::Lit) => Some(name),
            _ => None,
        }
    } else if skipped_item(m.body) {
        Some(name)
    } else {
        None
    }
}

/// The event name after the items, in order, up to the first item that
/// stops the reading (whose error is not reported).
pub open spec fn event_fold(name: Option<Seq<char>>, ms: Seq<MetaItemView>) -> Option<Seq<char>>
    decreases ms.len(),
{
    if ms.len() == 0 {
        name
    } else {
        match event_step(name, ms[0]) {
            Some(n2) => event_fold(n2, ms.drop_first()),
            None => name,
        }
    }
}

/// The event name an `#[event]` with the argument text `args` names: a
/// lone string literal, else the `name` its items give; none when `syn`
/// reads no items.
pub open spec fn event_name_of(args: Seq<char>) -> Option<Seq<char>> {
    match lone_literal_of(args) {
        LitView::Str(s) => Some(s),
        _ => match plugin_metas_of(args) {
            Err(_) => None,
            Ok(items) => event_fold(None, items),
        },
    }
}

/// The error for an event handler whose method takes more than two
/// parameters.
pub open spec fn event_args_message(count: nat) -> Seq<char> {
    "handler for 'event' must take 0 or 1 or 2 arguments, but takes "@ + decimal(count)
}

/// A parsed `#[event]` handler.
pub struct EventDef {
    /// The event's name, if the attribute gives one.
    pub name: Option<String>,
    /// The number of parameters of the method.
    pub inputs_len: usize,
}

/// Reads the event name from the items of an `#[event(...)]`, in order, as
/// `event_fold` says.
pub fn event_name_from_items(items: Vec<MetaItem>) -> (r: Option<String>)
    ensures
        opt_chars(r) == event_fold(None, items@.map_values(|m: MetaItem| m@)),
{
    let ghost all = items@.map_values(|m: MetaItem| m@);
    let mut name: Option<String> = None;
    let mut i: usize = 0;
    assert(all.skip(0) =~= all);
    while i < items.len()
        invariant
            i <= items@.len(),
            all == items@.map_values(|m: MetaItem| m@),
            event_fold(None, all) == event_fold(opt_chars(name), all.skip(i as int)),
        decreases items@.len() - i,
    {
        assert(all.skip(i as int).drop_first() =~= all.skip(i as int + 1));
        let m = &items[i];
        assert(all.skip(i as int)[0] == m@);
        assert(m@.body == body_view(m.body));
        if ident_is(&m.ident, "name") {
            match &m.body {
                MetaBody::NameValue(MetaValue::Str(s)) => {
                    name = Some(s.clone());
                },
                MetaBody::NameValue(MetaValue::Int(_)) => {},
                MetaBody::NameValue(MetaValue::Lit) => {},
                _ => {
                    return name;
                },
            }
        } else {
            match &m.body {
                MetaBody::Path => {},
                _ => {
                    return name;
                },
            }
        }
        i = i + 1;
    }
    name
}

/// Parses an `#[event(...)]` on a method: `args` is its argument text
/// (empty for a bare `#[event]`), `inputs_len` the method's number of
/// parameters, which must be 0, 1 or 2.
pub fn parse_event_attr(args: &str, inputs_len: usize) -> (r: Result<EventDef, String>)
    ensures
        inputs_len > 2 ==> (r matches Err(m) && m@ == event_args_message(inputs_len as nat)),
        inputs_len <= 2 ==> (r matches Ok(d) && opt_chars(d.name) == event_name_of(args@) && d.inputs_len == inputs_len),
{
    if inputs_len > 2 {
        let mut m: Vec<char> = Vec::new();
        extend_str(&mut m, "handler for 'event' must take 0 or 1 or 2 arguments, but takes ");
        push_decimal(&mut m, inputs_len);
        assert(m@ =~= event_args_message(inputs_len as nat));
        return Err(chars_to_string(&m));
    }
    let name = match lone_literal(args) {
        LitValue::Str(s) => Some(s),
        _ => match plugin_metas(args) {
            Ok(items) => event_name_from_items(items),
            Err(_) => None,
        },
    };
    Ok(EventDef { name, inputs_len })
}

// ---------------------------------------------------------------------------
// `#[menu_action(...)]`
// ---------------------------------------------------------------------------

/// What `DefaultHasher::new()` gives for a string (`Hash::hash` then
/// `Hasher::finish`).
pub uninterp spec fn default_hash_of(s: Seq<char>) -> u64;

/// Hashes a string with a fresh `std::collections::hash_map::DefaultHasher`
/// (whose keys are fixed, not drawn per process), through
/// `BuildHasher::hash_one`; the result is named by `default_hash_of`.
#[verifier::external_body]
fn default_hash(s: &str) -> (r: u64)
    ensures
        r == default_hash_of(s@),
{
    std::hash::BuildHasher::hash_one(&std::hash::BuildHasherDefault::<std::collections::hash_map::DefaultHasher>::default(), s)
}

/// The id of a menu action named `s`: its hash's low 31 bits.
pub open spec fn action_id_of(s: Seq<char>) -> u32 {
    (default_hash_of(s) & 0x7FFF_FFFFu64) as u32
}

/// The id of a menu action named `s`.
pub fn action_id(s: &str) -> (r: u32)
    ensures
        r == action_id_of(s@),
{
    let h = default_hash(s);
    let m: u64 = h & 0x7FFF_FFFFu64;
    assert(m <= 0x7FFF_FFFFu64) by (bit_vector)
        requires
            m == h & 0x7FFF_FFFFu64,
    ;
    m as u32
}

/// The explicit id and the action name after one item: `id` takes an
/// integer literal that fits in a `u32`, `action` or `name` a string
/// literal; another literal leaves them; any other key must be a bare path.
pub open spec fn menu_step(v: (Option<u32>, Option<Seq<char>>), m: MetaItemView) -> Result<(Option<u32>, Option<Seq<char>>), Seq<char>> {
    if m.ident == Some("id"@) {
        match m.body {
            MetaBodyView::NameValue(MetaValueView::Int(Some(n))) => Ok((Some(n), v.1)),
            MetaBodyView::NameValue(MetaValueView::Int(None)) => Ok(v),
            MetaBodyView::NameValue(MetaValueView::Str(_)) => Ok(v),
            MetaBodyView::NameValue(MetaValueView::Lit) => Ok(v),
            MetaBodyView::NameValue(_) => Err(expected_comma()),
            _ => Err(expected_eq()),
        }
    } else if m.ident == Some("action"@) || m.ident == Some("name"@) {
        match opt_string_item(v.1, m.body) {
            Ok(x) => Ok((v.0, x)),
            Err(e) => Err(e),
        }
    } else if skipped_item(m.body) {
        Ok(v)
    } else {
        Err(expected_comma())
    }
}

/// The id and action name after the items, in order; the error of the
/// first item that gives one.
pub open spec fn menu_fold(v: (Option<u32>, Option<Seq<char>>), ms: Seq<MetaItemView>) -> Result<(Option<u32>, Option<Seq<char>>), Seq<char>>
    decreases ms.len(),
{
    if ms.len() == 0 {
        Ok(v)
    } else {
        match menu_step(v, ms[0]) {
            Ok(v2) => menu_fold(v2, ms.drop_first()),
            Err(e) => Err(e),
        }
    }
}

/// The id and action name a `#[menu_action]` with the argument text `args`
/// gives: a lone integer literal is the id (when it fits in a `u32`), a
/// lone string literal the action name, else what its items give.
pub open spec fn menu_choice_of(args: Seq<char>) -> Result<(Option<u32>, Option<Seq<char>>), Seq<char>> {
    match lone_literal_of(args) {
        LitView::Int(n) => Ok((n, None)),
        LitView::Str(s) => Ok((None, Some(s))),
        _ => match plugin_metas_of(args) {
            Err(e) => Err(e),
            Ok(items) => menu_fold((None, None), items),
        },
    }
}

/// The action a menu handler answers: an explicit id alone; else the
/// action name with its id; else the method's name with its id.
pub open spec fn menu_action_from(choice: (Option<u32>, Option<Seq<char>>), method: Seq<char>) -> (Option<u32>, Option<Seq<char>>) {
    match choice.0 {
        Some(id) => (Some(id), None),
        None => match choice.1 {
            Some(a) => (Some(action_id_of(a)), Some(a)),
            None => (Some(action_id_of(method)), Some(method)),
        },
    }
}

/// A parsed `#[menu_action]` handler.
pub struct MenuActionDef {
    pub id: Option<u32>,
    pub action_name: Option<String>,
    /// The number of parameters of the method.
    pub inputs_len: usize,
}

/// Reads the id and action name from the items of a `#[menu_action(...)]`,
/// in order, as `menu_fold` says.
pub fn menu_choice_from_items(items: Vec<MetaItem>) -> (r: Result<(Option<u32>, Option<String>), String>)
    ensures
        match menu_fold((None, None), items@.map_values(|m: MetaItem| m@)) {
            Ok(v) => r matches Ok(x) && x.0 == v.0 && opt_chars(x.1) == v.1,
            Err(e) => r matches Err(m) && m@ == e,
        },
{
    let ghost all = items@.map_values(|m: MetaItem| m@);
    let mut id: Option<u32> = None;
    let mut action: Option<String> = None;
    let mut i: usize = 0;
    assert(all.skip(0) =~= all);
    while i < items.len()
        invariant
            i <= items@.len(),
            all == items@.map_values(|m: MetaItem| m@),
            menu_fold((None, None), all) == menu_fold((id, opt_chars(action)), all.skip(i as int)),
        decreases items@.len() - i,
    {
        assert(all.skip(i as int).drop_first() =~= all.skip(i as int + 1));
        let m = &items[i];
        assert(all.skip(i as int)[0] == m@);
        assert(m@.body == body_view(m.body));
        if ident_is(&m.ident, "id") {
            match &m.body {
                MetaBody::NameValue(MetaValue::Int(Some(n))) => {
                    id = Some(*n);
                },
                MetaBody::NameValue(MetaValue::Int(None)) => {},
                MetaBody::NameValue(MetaValue::Str(_)) => {},
                MetaBody::NameValue(MetaValue::Lit) => {},
                MetaBody::NameValue(_) => {
                    return Err(expected_comma_error());
                },
                _ => {
                    return Err(expected_eq_error());
                },
            }
        } else if ident_is(&m.ident, "action") || ident_is(&m.ident, "name") {
            match opt_string_item_exec(&mut action, &m.body) {
                Ok(()) => {},
                Err(e) => {
                    return Err(e);
                },
            }
        } else {
            match skip_or_fail(&m.body) {
                Ok(()) => {},
                Err(e) => {
                    return Err(e);
                },
            }
        }
        i = i + 1;
    }
    Ok((id, action))
}

/// Parses a `#[menu_action(...)]` on a method: `args` is its argument text
/// (empty for a bare `#[menu_action]`), `method` the method's name and
/// `inputs_len` its number of parameters.
pub fn parse_menu_action_attr(args: &str, method: &str, inputs_len: usize) -> (r: Result<MenuActionDef, String>)
    ensures
        match menu_choice_of(args@) {
            Err(e) => r matches Err(m) && m@ == e,
            Ok(c) => r matches Ok(d) && (d.id, opt_chars(d.action_name)) == menu_action_from(c, method@) && d.inputs_len
                == inputs_len,
        },
{
    let (id, action) = match lone_literal(args) {
        LitValue::Int(n) => (n, None),
        LitValue::Str(s) => (None, Some(s)),
        _ => match plugin_metas(args) {
            Ok(items) => match menu_choice_from_items(items) {
                Ok(c) => c,
                Err(e) => {
                    return Err(e);
                },
            },
            Err(e) => {
                return Err(e);
            },
        },
    };
    match id {
        Some(n) => Ok(MenuActionDef { id: Some(n), action_name: None, inputs_len }),
        None => match action {
            Some(a) => {
                let n = action_id(a.as_str());
                Ok(MenuActionDef { id: Some(n), action_name: Some(a), inputs_len })
            },
            None => {
                let n = action_id(method);
                Ok(MenuActionDef { id: Some(n), action_name: Some(method.to_string()), inputs_len })
            },
        },
    }
}

// ---------------------------------------------------------------------------
// Helper attributes stacked on a `#[plugin]` impl
// ---------------------------------------------------------------------------

/// The bundle after the items of a `#[bundle(...)]` that is no lone
/// literal: every `key = "value"` sets it, another literal leaves it; an
/// item of another form stops the reading.
pub open spec fn bundle_fold(b: Option<Seq<char>>, ms: Seq<MetaItemView>) -> Option<Seq<char>>
    decreases ms.len(),
{
    if ms.len() == 0 {
        b
    } else {
        match ms[0].body {
            MetaBodyView::NameValue(MetaValueView::Str(s)) => bundle_fold(Some(s), ms.drop_first()),
            MetaBodyView::NameValue(MetaValueView::Int(_)) => bundle_fold(b, ms.drop_first()),
            MetaBodyView::NameValue(MetaValueView::Lit) => bundle_fold(b, ms.drop_first()),
            _ => b,
        }
    }
}

/// The requirements after the items of a `#[require(...)]` that is no list
/// of expressions: each item adds its identifier, and an item that is not
/// a bare path stops the reading after that.
pub open spec fn require_fold(l: Seq<Seq<char>>, ms: Seq<MetaItemView>) -> Seq<Seq<char>>
    decreases ms.len(),
{
    if ms.len() == 0 {
        l
    } else {
        let l2 = match ms[0].ident {
            Some(id) => l.push(id),
            None => l,
        };
        if ms[0].body is Path {
            require_fold(l2, ms.drop_first())
        } else {
            l2
        }
    }
}

/// A lifecycle time after one item: a string literal or a path sets it,
/// another literal or a bare key leaves it.
pub open spec fn time_item(cur: Seq<char>, body: MetaBodyView) -> Result<Seq<char>, Seq<char>> {
    match body {
        MetaBodyView::NameValue(MetaValueView::Str(s)) => Ok(s),
        MetaBodyView::NameValue(MetaValueView::Path(p)) => Ok(p),
        MetaBodyView::NameValue(MetaValueView::Int(_)) => Ok(cur),
        MetaBodyView::NameValue(MetaValueView::Lit) => Ok(cur),
        MetaBodyView::Path => Ok(cur),
        _ => Err(expected_comma()),
    }
}

/// The attributes after one item of a `#[lifecycle(...)]`: `load` and
/// `unload` set the load and unload times; any other key must be a bare
/// path.
pub open spec fn lifecycle_step(v: AttrView, m: MetaItemView) -> Result<AttrView, Seq<char>> {
    if m.ident == Some("load"@) {
        match time_item(v.load_time, m.body) {
            Ok(t) => Ok(AttrView { load_time: t, ..v }),
            Err(e) => Err(e),
        }
    } else if m.ident == Some("unload"@) {
        match time_item(v.unload_time, m.body) {
            Ok(t) => Ok(AttrView { unload_time: t, ..v }),
            Err(e) => Err(e),
        }
    } else if skipped_item(m.body) {
        Ok(v)
    } else {
        Err(expected_comma())
    }
}

/// The attributes after the items of a `#[lifecycle(...)]`, in order; the
/// error of the first item that gives one.
pub open spec fn lifecycle_fold(v: AttrView, ms: Seq<MetaItemView>) -> Result<AttrView, Seq<char>>
    decreases ms.len(),
{
    if ms.len() == 0 {
        Ok(v)
    } else {
        match lifecycle_step(v, ms[0]) {
            Ok(v2) => lifecycle_fold(v2, ms.drop_first()),
            Err(e) => Err(e),
        }
    }
}

/// The attributes after one helper attribute `#[name(args)]` (`args` none
/// when it has no parenthesized list), and the error of a `#[lifecycle]`
/// that gives one. Attributes of other names are left alone.
pub open spec fn helper_step(v: AttrView, name: Seq<char>, args: Option<Seq<char>>) -> (AttrView, Option<Seq<char>>) {
    match args {
        None => (v, None),
        Some(a) => if name == "bundle"@ {
            match lone_literal_of(a) {
                LitView::Str(s) => (AttrView { bundle: Some(s), ..v }, None),
                _ => match plugin_metas_of(a) {
                    Ok(items) => (AttrView { bundle: bundle_fold(v.bundle, items), ..v }, None),
                    Err(_) => (v, None),
                },
            }
        } else if name == "require"@ {
            match expr_list_of(a) {
                Some(es) => (AttrView { requires: v.requires + present(es), ..v }, None),
                None => match plugin_metas_of(a) {
                    Ok(items) => (AttrView { requires: require_fold(v.requires, items), ..v }, None),
                    Err(_) => (v, None),
                },
            }
        } else if name == "permissions"@ || name == "permission"@ {
            match expr_list_of(a) {
                Some(es) => (AttrView { permissions: v.permissions + present(es), ..v }, None),
                None => (v, None),
            }
        } else if name == "description"@ {
            match lone_literal_of(a) {
                LitView::Str(s) => (AttrView { description: s, ..v }, None),
                _ => (v, None),
            }
        } else if name == "url"@ {
            match lone_literal_of(a) {
                LitView::Str(s) => (AttrView { url: s, ..v }, None),
                _ => (v, None),
            }
        } else if name == "license"@ {
            match lone_literal_of(a) {
                LitView::Str(s) => (AttrView { license: s, ..v }, None),
                _ => (v, None),
            }
        } else if name == "lifecycle"@ {
            match plugin_metas_of(a) {
                Err(e) => (v, Some(e)),
                Ok(items) => match lifecycle_fold(v, items) {
                    Ok(v2) => (v2, None),
                    Err(e) => (v, Some(e)),
                },
            }
        } else {
            (v, None)
        }
    }
}

/// The attributes after the helper attributes, in order, and the error of
/// the last `#[lifecycle]` that gives one.
pub open spec fn helpers_fold(v: AttrView, hs: Seq<(Seq<char>, Option<Seq<char>>)>) -> (AttrView, Option<Seq<char>>)
    decreases hs.len(),
{
    if hs.len() == 0 {
        (v, None)
    } else {
        let (v1, e1) = helper_step(v, hs[0].0, hs[0].1);
        let (v2, e2) = helpers_fold(v1, hs.drop_first());
        (v2, if e2 is Some { e2 } else { e1 })
    }
}

/// Helper attributes viewed as values.
pub open spec fn helpers_view(hs: Seq<(String, Option<String>)>) -> Seq<(Seq<char>, Option<Seq<char>>)> {
    hs.map_values(|h: (String, Option<String>)| (h.0@, opt_chars(h.1)))
}

fn bundle_from_items(b: Option<String>, items: &Vec<MetaItem>) -> (r: Option<String>)
    ensures
        opt_chars(r) == bundle_fold(opt_chars(b), items@.map_values(|m: MetaItem| m@)),
{
    let ghost all = items@.map_values(|m: MetaItem| m@);
    let mut cur = b;
    let mut i: usize = 0;
    assert(all.skip(0) =~= all);
    while i < items.len()
        invariant
            i <= items@.len(),
            all == items@.map_values(|m: MetaItem| m@),
            bundle_fold(opt_chars(b), all) == bundle_fold(opt_chars(cur), all.skip(i as int)),
        decreases items@.len() - i,
    {
        assert(all.skip(i as int).drop_first() =~= all.skip(i as int + 1));
        assert(all.skip(i as int)[0] == items@[i as int]@);
        assert(items@[i as int]@.body == body_view(items@[i as int].body));
        match &items[i].body {
            MetaBody::NameValue(MetaValue::Str(s)) => {
                cur = Some(s.clone());
            },
            MetaBody::NameValue(MetaValue::Int(_)) => {},
            MetaBody::NameValue(MetaValue::Lit) => {},
            _ => {
                return cur;
            },
        }
        i = i + 1;
    }
    cur
}

fn require_from_items(l: &mut Vec<String>, items: &Vec<MetaItem>)
    ensures
        strings_view(final(l)@) == require_fold(strings_view(old(l)@), items@.map_values(|m: MetaItem| m@)),
{
    let ghost all = items@.map_values(|m: MetaItem| m@);
    let ghost start = strings_view(l@);
    let mut i: usize = 0;
    assert(all.skip(0) =~= all);
    while i < items.len()
        invariant
            i <= items@.len(),
            all == items@.map_values(|m: MetaItem| m@),
            start == strings_view(old(l)@),
            require_fold(start, all) == require_fold(strings_view(l@), all.skip(i as int)),
        decreases items@.len() - i,
    {
        assert(all.skip(i as int).drop_first() =~= all.skip(i as int + 1));
        let m = &items[i];
        assert(all.skip(i as int)[0] == m@);
        assert(m@.body == body_view(m.body));
        match &m.ident {
            Some(id) => {
                let ghost before = strings_view(l@);
                l.push(id.clone());
                assert(strings_view(l@) =~= before.push(id@));
            },
            None => {},
        }
        match &m.body {
            MetaBody::Path => {},
            _ => {
                return;
            },
        }
        i = i + 1;
    }
}

fn lifecycle_from_items(v: &mut PluginAttr, items: &Vec<MetaItem>) -> (r: Result<(), String>)
    ensures
        match lifecycle_fold(old(v)@, items@.map_values(|m: MetaItem| m@)) {
            Ok(x) => r is Ok && final(v)@ == x,
            Err(e) => r matches Err(m) && m@ == e,
        },
        final(v)@ == (AttrView { load_time: final(v)@.load_time, unload_time: final(v)@.unload_time, ..old(v)@ }),
{
    let ghost all = items@.map_values(|m: MetaItem| m@);
    let ghost start = v@;
    let mut i: usize = 0;
    assert(all.skip(0) =~= all);
    while i < items.len()
        invariant
            i <= items@.len(),
            all == items@.map_values(|m: MetaItem| m@),
            start == old(v)@,
            v@ == (AttrView { load_time: v@.load_time, unload_time: v@.unload_time, ..start }),
            lifecycle_fold(start, all) == lifecycle_fold(v@, all.skip(i as int)),
        decreases items@.len() - i,
    {
        assert(all.skip(i as int).drop_first() =~= all.skip(i as int + 1));
        let m = &items[i];
        assert(all.skip(i as int)[0] == m@);
        assert(m@.body == body_view(m.body));
        let is_load = ident_is(&m.ident, "load");
        let is_unload = !is_load && ident_is(&m.ident, "unload");
        if is_load || is_unload {
            let t: Option<String> = match &m.body {
                MetaBody::NameValue(MetaValue::Str(s)) => Some(s.clone()),
                MetaBody::NameValue(MetaValue::Path(p)) => Some(p.clone()),
                MetaBody::NameValue(MetaValue::Int(_)) => None,
                MetaBody::NameValue(MetaValue::Lit) => None,
                MetaBody::Path => None,
                _ => {
                    return Err(expected_comma_error());
                },
            };
            match t {
                Some(x) => {
                    if is_load {
                        v.load_time = x;
                    } else {
                        v.unload_time = x;
                    }
                },
                None => {},
            }
        } else {
            match skip_or_fail(&m.body) {
                Ok(()) => {},
                Err(e) => {
                    return Err(e);
                },
            }
        }
        i = i + 1;
    }
    Ok(())
}

fn helper_step_exec(v: &mut PluginAttr, name: &String, args: &Option<String>) -> (r: Option<String>)
    ensures
        (final(v)@, opt_chars(r)) == helper_step(old(v)@, name@, opt_chars(*args)),
{
    let a = match args {
        None => {
            return None;
        },
        Some(a) => a.as_str(),
    };
    let n = str_chars(name.as_str());
    if chars_eq_str(&n, "bundle") {
        match lone_literal(a) {
            LitValue::Str(s) => {
                v.bundle = Some(s);
            },
            _ => match plugin_metas(a) {
                Ok(items) => {
                    let b = v.bundle.clone();
                    assert(opt_chars(b) == opt_chars(v.bundle));
                    v.bundle = bundle_from_items(b, &items);
                },
                Err(_) => {},
            },
        }
        None
    } else if chars_eq_str(&n, "require") {
        match expr_list(a) {
            Some(es) => {
                let p = present_strings(&es);
                extend_strings(&mut v.requires, &p);
            },
            None => match plugin_metas(a) {
                Ok(items) => require_from_items(&mut v.requires, &items),
                Err(_) => {},
            },
        }
        None
    } else if chars_eq_str(&n, "permissions") || chars_eq_str(&n, "permission") {
        match expr_list(a) {
            Some(es) => {
                let p = present_strings(&es);
                extend_strings(&mut v.permissions, &p);
            },
            None => {},
        }
        None
    } else if chars_eq_str(&n, "description") {
        match lone_literal(a) {
            LitValue::Str(s) => {
                v.description = s;
            },
            _ => {},
        }
        None
    } else if chars_eq_str(&n, "url") {
        match lone_literal(a) {
            LitValue::Str(s) => {
                v.url = s;
            },
            _ => {},
        }
        None
    } else if chars_eq_str(&n, "license") {
        match lone_literal(a) {
            LitValue::Str(s) => {
                v.license = s;
            },
            _ => {},
        }
        None
    } else if chars_eq_str(&n, "lifecycle") {
        match plugin_metas(a) {
            Err(e) => Some(e),
            Ok(items) => {
                let load = v.load_time.clone();
                let unload = v.unload_time.clone();
                match lifecycle_from_items(v, &items) {
                    Ok(()) => None,
                    Err(e) => {
                        v.load_time = load;
                        v.unload_time = unload;
                        Some(e)
                    },
                }
            },
        }
    } else {
        None
    }
}

/// Applies the helper attributes stacked on a `#[plugin]` impl, in order,
/// to the attributes read so far: each pair is an attribute's name (its
/// path when that is one identifier) and its argument text (none when it
/// has no parenthesized list). Fails with the error of the last
/// `#[lifecycle]` that gives one.
pub fn apply_helper_attrs(helpers: &Vec<(String, Option<String>)>, start: PluginAttr) -> (r: Result<PluginAttr, String>)
    ensures
        match helpers_fold(start@, helpers_view(helpers@)) {
            (v, None) => r matches Ok(a) && a@ == v,
            (_, Some(e)) => r matches Err(m) && m@ == e,
        },
{
    let ghost all = helpers_view(helpers@);
    let mut out = start;
    let mut err: Option<String> = None;
    let mut i: usize = 0;
    assert(all.skip(0) =~= all);
    while i < helpers.len()
        invariant
            i <= helpers@.len(),
            all == helpers_view(helpers@),
            ({
                let (v2, e2) = helpers_fold(out@, all.skip(i as int));
                helpers_fold(start@, all) == (v2, if e2 is Some { e2 } else { opt_chars(err) })
            }),
        decreases helpers@.len() - i,
    {
        assert(all.skip(i as int).drop_first() =~= all.skip(i as int + 1));
        assert(all.skip(i as int)[0] == (helpers@[i as int].0@, opt_chars(helpers@[i as int].1)));
        let (name, args) = &helpers[i];
        match helper_step_exec(&mut out, name, args) {
            Some(e) => {
                err = Some(e);
            },
            None => {},
        }
        i = i + 1;
    }
    assert(all.skip(i as int) =~= Seq::<(Seq<char>, Option<Seq<char>>)>::empty());
    match err {
        Some(e) => Err(e),
        None => Ok(out),
    }
}

} // verus!
