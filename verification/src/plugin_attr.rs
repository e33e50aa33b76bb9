//! The `#[plugin(...)]` attribute: its text read into `key = value` items by
//! `syn`, and the attribute grammars that turn the items into the plugin's
//! attributes: that of `parse_plugin_and_helpers` (string values, string
//! lists for `require` and `permissions`) and the narrower one of
//! `parse_plugin_attr` (an array for `require`, no `permissions`), each with
//! its errors for anything else.

use vstd::prelude::*;
use crate::manifest::{PluginAttr, AttrView, kv_step, apply_plugin_kv, add_plugin_list};
use crate::handler_attrs::{apply_helper_attrs, helpers_fold, helpers_view};
use crate::text::{str_chars, chars_eq_str, chars_to_string, extend_str, extend_chars};

verus! {

/// A `syn` meta item (`path`, `path(...)` or `path = value`).
#[verifier::external_type_specification]
#[verifier::external_body]
pub struct ExMeta(syn::Meta);

/// A `syn` expression.
#[verifier::external_type_specification]
#[verifier::external_body]
pub struct ExExpr(syn::Expr);

/// The value of a `key = value` item.
pub enum MetaValue {
    /// A string literal.
    Str(String),
    /// An integer literal, with its value when that fits in a `u32`.
    Int(Option<u32>),
    /// Any other literal.
    Lit,
    /// An array; each element that is a string literal, as its string.
    Array(Vec<Option<String>>),
    /// A path, by the identifier of its last segment.
    Path(String),
    /// Any other expression.
    Other,
}

/// What follows the path of an item.
pub enum MetaBody {
    /// `= value`.
    NameValue(MetaValue),
    /// Nothing.
    Path,
    /// A delimited list.
    List,
}

/// One item of an attribute: its path when that is a single identifier,
/// and what follows it.
pub struct MetaItem {
    pub ident: Option<String>,
    pub body: MetaBody,
}

/// The value of an item, as values.
pub enum MetaValueView {
    Str(Seq<char>),
    Int(Option<u32>),
    Lit,
    Array(Seq<Option<Seq<char>>>),
    Path(Seq<char>),
    Other,
}

/// What follows an item's path, as values.
pub enum MetaBodyView {
    NameValue(MetaValueView),
    Path,
    List,
}

/// A value viewed as values.
pub open spec fn value_view(v: MetaValue) -> MetaValueView {
    match v {
        MetaValue::Str(s) => MetaValueView::Str(s@),
        MetaValue::Int(n) => MetaValueView::Int(n),
        MetaValue::Lit => MetaValueView::Lit,
        MetaValue::Array(es) => MetaValueView::Array(es@.map_values(|o: Option<String>| opt_chars(o))),
        MetaValue::Path(p) => MetaValueView::Path(p@),
        MetaValue::Other => MetaValueView::Other,
    }
}

/// An item, as values.
pub struct MetaItemView {
    pub ident: Option<Seq<char>>,
    pub body: MetaBodyView,
}

/// A `String` option viewed as an option of its characters.
pub open spec fn opt_chars(o: Option<String>) -> Option<Seq<char>> {
    match o {
        Some(s) => Some(s@),
        None => None,
    }
}

impl View for MetaItem {
    type V = MetaItemView;

    open spec fn view(&self) -> MetaItemView {
        MetaItemView {
            ident: opt_chars(self.ident),
            body: match self.body {
                MetaBody::NameValue(v) => MetaBodyView::NameValue(value_view(v)),
                MetaBody::Path => MetaBodyView::Path,
                MetaBody::List => MetaBodyView::List,
            },
        }
    }
}

/// The items `syn` reads from the text inside `#[plugin(...)]`
/// (`Punctuated::<Meta, Comma>::parse_terminated`), or its error message.
pub uninterp spec fn plugin_metas_of(attr: Seq<char>) -> Result<Seq<MetaItemView>, Seq<char>>;

/// Items viewed as values.
pub open spec fn items_view(r: Result<Vec<MetaItem>, String>) -> Result<Seq<MetaItemView>, Seq<char>> {
    match r {
        Ok(v) => Ok(v@.map_values(|m: MetaItem| m@)),
        Err(e) => Err(e@),
    }
}

/// The string of an expression that is a string literal.
#[verifier::external_body]
pub(crate) fn literal_string(e: &syn::Expr) -> Option<String> {
    match e {
        syn::Expr::Lit(syn::ExprLit { lit: syn::Lit::Str(s), .. }) => Some(s.value()),
        _ => None,
    }
}

/// An expression as an item's value.
#[verifier::external_body]
fn meta_value(e: &syn::Expr) -> MetaValue {
    match e {
        syn::Expr::Lit(syn::ExprLit { lit: syn::Lit::Str(s), .. }) => MetaValue::Str(s.value()),
        syn::Expr::Lit(syn::ExprLit { lit: syn::Lit::Int(i), .. }) => MetaValue::Int(i.base10_parse::<u32>().ok()),
        syn::Expr::Lit(_) => MetaValue::Lit,
        syn::Expr::Array(a) => MetaValue::Array(a.elems.iter().map(literal_string).collect()),
        syn::Expr::Path(p) => MetaValue::Path(p.path.segments.last().map(|x| x.ident.to_string()).unwrap_or_default()),
        _ => MetaValue::Other,
    }
}

/// A `syn` meta item as an item.
#[verifier::external_body]
fn meta_item(m: &syn::Meta) -> MetaItem {
    let ident = m.path().get_ident().map(|i| i.to_string());
    match m {
        syn::Meta::NameValue(nv) => MetaItem { ident, body: MetaBody::NameValue(meta_value(&nv.value)) },
        syn::Meta::Path(_) => MetaItem { ident, body: MetaBody::Path },
        syn::Meta::List(_) => MetaItem { ident, body: MetaBody::List },
    }
}

/// Reads the text inside `#[plugin(...)]` as comma-separated meta items
/// (`syn`'s `Punctuated::<Meta, Comma>::parse_terminated`); the items, or
/// the error's message, are named by `plugin_metas_of`.
#[verifier::external_body]
pub(crate) fn plugin_metas(attr: &str) -> (r: Result<Vec<MetaItem>, String>)
    ensures
        items_view(r) == plugin_metas_of(attr@),
{
    let parser = syn::punctuated::Punctuated::<syn::Meta, syn::token::Comma>::parse_terminated;
    match syn::parse::Parser::parse_str(parser, attr) {
        Ok(list) => Ok(list.iter().map(meta_item).collect()),
        Err(e) => Err(e.to_string()),
    }
}

/// The strings of a list value: one string literal, or an array of them.
pub open spec fn string_list(v: MetaValueView) -> Result<Seq<Seq<char>>, Seq<char>> {
    match v {
        MetaValueView::Str(s) => Ok(seq![s]),
        MetaValueView::Array(es) => if forall|i: int| 0 <= i < es.len() ==> (#[trigger] es[i]) is Some {
            Ok(es.map_values(|o: Option<Seq<char>>| o->0))
        } else {
            Err("expects an array of string literals"@)
        },
        _ => Err("expects an array of string literals or single string"@),
    }
}

/// The error for an item that is not `key = value`.
pub open spec fn unsupported_message() -> Seq<char> {
    "unsupported #[plugin] attribute; supported: name, version, author, description, url/repository, license, bundle, require, permissions"@
}

/// The attributes after one item, or the error it gives: a path that is
/// not one identifier and an item without `= value` are errors;
/// `require` and `permissions` / `permission` add a list; any other key
/// takes a string literal.
pub open spec fn meta_step(v: AttrView, m: MetaItemView) -> Result<AttrView, Seq<char>> {
    match m.ident {
        None => Err("unsupported #[plugin] attribute"@),
        Some(id) => match m.body {
            MetaBodyView::Path | MetaBodyView::List => Err(unsupported_message()),
            MetaBodyView::NameValue(val) => if id == "require"@ {
                match string_list(val) {
                    Ok(l) => Ok(AttrView { requires: v.requires + l, ..v }),
                    Err(e) => Err(e),
                }
            } else if id == "permissions"@ || id == "permission"@ {
                match string_list(val) {
                    Ok(l) => Ok(AttrView { permissions: v.permissions + l, ..v }),
                    Err(e) => Err(e),
                }
            } else {
                match val {
                    MetaValueView::Str(s) => kv_step(v, id, s),
                    _ => Err("#[plugin("@ + id + " = ...)] expects a string literal"@),
                }
            },
        },
    }
}

/// The attributes after the items, in order; the error of the first item
/// that gives one.
pub open spec fn metas_fold(v: AttrView, ms: Seq<MetaItemView>) -> Result<AttrView, Seq<char>>
    decreases ms.len(),
{
    if ms.len() == 0 {
        Ok(v)
    } else {
        match meta_step(v, ms[0]) {
            Ok(v2) => metas_fold(v2, ms.drop_first()),
            Err(e) => Err(e),
        }
    }
}

fn list_strings(v: &MetaValue) -> (r: Result<Vec<String>, String>)
    ensures
        match string_list(value_view(*v)) {
            Ok(l) => r matches Ok(ss) && ss@.map_values(|s: String| s@) == l,
            Err(e) => r matches Err(m) && m@ == e,
        },
{
    match v {
        MetaValue::Str(s) => {
            let mut out: Vec<String> = Vec::new();
            out.push(s.clone());
            assert(out@.map_values(|s: String| s@) =~= seq![s@]);
            Ok(out)
        },
        MetaValue::Array(es) => {
            let ghost ev = es@.map_values(|o: Option<String>| opt_chars(o));
            let mut out: Vec<String> = Vec::new();
            let mut i: usize = 0;
            while i < es.len()
                invariant
                    i <= es@.len(),
                    *v matches MetaValue::Array(e2) && e2@ == es@,
                    ev == es@.map_values(|o: Option<String>| opt_chars(o)),
                    forall|k: int| 0 <= k < i ==> (#[trigger] ev[k]) is Some,
                    out@.map_values(|s: String| s@) == ev.take(i as int).map_values(|o: Option<Seq<char>>| o->0),
                decreases es@.len() - i,
            {
                match &es[i] {
                    Some(s) => {
                        assert(ev[i as int] == Some(s@));
                        let ghost before = out@.map_values(|s: String| s@);
                        out.push(s.clone());
                        assert(out@.map_values(|s: String| s@) =~= before.push(s@));
                        assert(ev.take(i as int + 1).map_values(|o: Option<Seq<char>>| o->0) =~= ev.take(
                            i as int,
                        ).map_values(|o: Option<Seq<char>>| o->0).push(s@));
                        assert(out@.map_values(|s: String| s@) =~= ev.take(i as int + 1).map_values(
                            |o: Option<Seq<char>>| o->0,
                        ));
                    },
                    None => {
                        assert(ev[i as int] is None);
                        assert(string_list(MetaValueView::Array(ev)) == Err::<Seq<Seq<char>>, Seq<char>>("expects an array of string literals"@));
                        return Err("expects an array of string literals".to_string());
                    },
                }
                i = i + 1;
            }
            assert(ev.take(i as int) =~= ev);
            assert(forall|k: int| 0 <= k < ev.len() ==> (#[trigger] ev[k]) is Some);
            assert(out@.map_values(|s: String| s@) == ev.map_values(|o: Option<Seq<char>>| o->0));
            assert(string_list(MetaValueView::Array(ev)) == Ok::<Seq<Seq<char>>, Seq<char>>(ev.map_values(|o: Option<Seq<char>>| o->0)));
            Ok(out)
        },
        _ => Err("expects an array of string literals or single string".to_string()),
    }
}

fn expects_string_message(id: &str) -> (r: String)
    ensures
        r@ == "#[plugin("@ + id@ + " = ...)] expects a string literal"@,
{
    let mut m: Vec<char> = Vec::new();
    extend_str(&mut m, "#[plugin(");
    extend_str(&mut m, id);
    extend_str(&mut m, " = ...)] expects a string literal");
    chars_to_string(&m)
}

fn apply_meta(out: &mut PluginAttr, m: &MetaItem) -> (r: Result<(), String>)
    ensures
        match meta_step(old(out)@, m@) {
            Ok(v) => r is Ok && final(out)@ == v,
            Err(e) => r matches Err(msg) && msg@ == e,
        },
{
    proof {
        reveal_strlit("require");
        reveal_strlit("permissions");
        reveal_strlit("permission");
        assert("require"@.len() == 7 && "permissions"@.len() == 11 && "permission"@.len() == 10);
    }
    let id = match &m.ident {
        Some(id) => id,
        None => {
            return Err("unsupported #[plugin] attribute".to_string());
        },
    };
    let val = match &m.body {
        MetaBody::NameValue(val) => val,
        _ => {
            return Err(
                "unsupported #[plugin] attribute; supported: name, version, author, description, url/repository, license, bundle, require, permissions".to_string(),
            );
        },
    };
    let idc = str_chars(id.as_str());
    if chars_eq_str(&idc, "require") || chars_eq_str(&idc, "permissions") || chars_eq_str(&idc, "permission") {
        match list_strings(val) {
            Ok(l) => {
                let ghost lv = l@.map_values(|s: String| s@);
                let ghost before = out@;
                let _ = add_plugin_list(out, id.as_str(), l);
                assert(out@.requires =~= (if id@ == "require"@ { before.requires + lv } else { before.requires }));
                assert(out@.permissions =~= (if id@ == "permissions"@ || id@ == "permission"@ {
                    before.permissions + lv
                } else {
                    before.permissions
                }));
                Ok(())
            },
            Err(e) => Err(e),
        }
    } else {
        match val {
            MetaValue::Str(s) => apply_plugin_kv(out, id.as_str(), s.clone()),
            _ => Err(expects_string_message(id.as_str())),
        }
    }
}

/// Applies the items of `#[plugin(...)]`, in order, to the attributes a
/// plugin starts from; stops at the first item that gives an error.
pub fn plugin_attr_from_metas(metas: Vec<MetaItem>, start: PluginAttr) -> (r: Result<PluginAttr, String>)
    ensures
        match metas_fold(start@, metas@.map_values(|m: MetaItem| m@)) {
            Ok(v) => r matches Ok(a) && a@ == v,
            Err(e) => r matches Err(m) && m@ == e,
        },
{
    let ghost all = metas@.map_values(|m: MetaItem| m@);
    let mut out = start;
    let mut i: usize = 0;
    assert(all.skip(0) =~= all);
    while i < metas.len()
        invariant
            i <= metas@.len(),
            all == metas@.map_values(|m: MetaItem| m@),
            metas_fold(start@, all) == metas_fold(out@, all.skip(i as int)),
        decreases metas@.len() - i,
    {
        assert(all.skip(i as int).drop_first() =~= all.skip(i as int + 1));
        assert(all.skip(i as int)[0] == metas@[i as int]@);
        match apply_meta(&mut out, &metas[i]) {
            Ok(()) => {},
            Err(e) => {
                return Err(e);
            },
        }
        i = i + 1;
    }
    Ok(out)
}

/// Reads the text inside `#[plugin(...)]` and applies its items, in order,
/// to the attributes a plugin starts from (see `plugin_attr_from_package`),
/// then the helper attributes stacked on the impl (see
/// `apply_helper_attrs`): the error of `syn` when the text is no list of
/// meta items, else as `plugin_attr_from_metas`, else as the helpers say.
pub fn parse_plugin_and_helpers(attr: &str, helpers: &Vec<(String, Option<String>)>, start: PluginAttr) -> (r: Result<
    PluginAttr,
    String,
>)
    ensures
        match plugin_metas_of(attr@) {
            Err(e) => r matches Err(m) && m@ == e,
            Ok(items) => match metas_fold(start@, items) {
                Err(e) => r matches Err(m) && m@ == e,
                Ok(v) => match helpers_fold(v, helpers_view(helpers@)) {
                    (v2, None) => r matches Ok(a) && a@ == v2,
                    (_, Some(e)) => r matches Err(m) && m@ == e,
                },
            },
        },
{
    let a = match plugin_metas(attr) {
        Ok(items) => match plugin_attr_from_metas(items, start) {
            Ok(a) => a,
            Err(e) => {
                return Err(e);
            },
        },
        Err(e) => {
            return Err(e);
        },
    };
    apply_helper_attrs(helpers, a)
}

/// The strings of an array whose elements are all string literals.
pub open spec fn array_strings(es: Seq<Option<Seq<char>>>) -> Option<Seq<Seq<char>>> {
    if forall|i: int| 0 <= i < es.len() ==> (#[trigger] es[i]) is Some {
        Some(es.map_values(|o: Option<Seq<char>>| o->0))
    } else {
        None
    }
}

/// The keys that take a string in `parse_plugin_attr`.
pub open spec fn plugin_key(id: Seq<char>) -> bool {
    id == "name"@ || id == "version"@ || id == "author"@ || id == "authors"@ || id == "description"@ || id == "url"@
        || id == "repository"@ || id == "homepage"@ || id == "license"@ || id == "bundle"@
}

/// The error of `parse_plugin_attr` for a `require` element that is no
/// string literal.
pub open spec fn require_element_message() -> Seq<char> {
    "require expects a list of string literals like \"plugin:name@>=1.0\""@
}

/// The attributes after one item in the grammar of `parse_plugin_attr`, or
/// the error it gives: `require` takes an array of string literals only,
/// the keys of `plugin_key` take a string literal, and there is no
/// `permissions` key.
pub open spec fn attr_item_step(v: AttrView, m: MetaItemView) -> Result<AttrView, Seq<char>> {
    match m.ident {
        None => Err("unsupported #[plugin] attribute"@),
        Some(id) => match m.body {
            MetaBodyView::Path | MetaBodyView::List => Err(
                "unsupported #[plugin] attribute; supported: name, version, author, description, url/repository, license, bundle, require"@,
            ),
            MetaBodyView::NameValue(val) => if id == "require"@ {
                match val {
                    MetaValueView::Array(es) => match array_strings(es) {
                        Some(l) => Ok(AttrView { requires: v.requires + l, ..v }),
                        None => Err(require_element_message()),
                    },
                    _ => Err("#[plugin(require = ...)] expects an array of string literals"@),
                }
            } else {
                match val {
                    MetaValueView::Str(s) => if plugin_key(id) {
                        kv_step(v, id, s)
                    } else {
                        Err("unknown #[plugin] attribute '"@ + id
                            + "'; supported: name, version, author, description, url/repository, license, bundle, require"@)
                    },
                    _ => Err("#[plugin("@ + id + " = ...)] expects a string literal"@),
                }
            },
        },
    }
}

/// The attributes after the items, in order, in the grammar of
/// `parse_plugin_attr`; the error of the first item that gives one.
pub open spec fn attr_items_fold(v: AttrView, ms: Seq<MetaItemView>) -> Result<AttrView, Seq<char>>
    decreases ms.len(),
{
    if ms.len() == 0 {
        Ok(v)
    } else {
        match attr_item_step(v, ms[0]) {
            Ok(v2) => attr_items_fold(v2, ms.drop_first()),
            Err(e) => Err(e),
        }
    }
}

fn array_string_values(es: &Vec<Option<String>>) -> (r: Option<Vec<String>>)
    ensures
        match array_strings(es@.map_values(|o: Option<String>| opt_chars(o))) {
            Some(l) => r matches Some(ss) && ss@.map_values(|s: String| s@) == l,
            None => r is None,
        },
{
    let ghost ev = es@.map_values(|o: Option<String>| opt_chars(o));
    let mut out: Vec<String> = Vec::new();
    let mut i: usize = 0;
    while i < es.len()
        invariant
            i <= es@.len(),
            ev == es@.map_values(|o: Option<String>| opt_chars(o)),
            forall|k: int| 0 <= k < i ==> (#[trigger] ev[k]) is Some,
            out@.map_values(|s: String| s@) == ev.take(i as int).map_values(|o: Option<Seq<char>>| o->0),
        decreases es@.len() - i,
    {
        match &es[i] {
            Some(s) => {
                assert(ev[i as int] == Some(s@));
                let ghost before = out@.map_values(|s: String| s@);
                out.push(s.clone());
                assert(out@.map_values(|s: String| s@) =~= before.push(s@));
                assert(ev.take(i as int + 1).map_values(|o: Option<Seq<char>>| o->0) =~= ev.take(
                    i as int,
                ).map_values(|o: Option<Seq<char>>| o->0).push(s@));
            },
            None => {
                assert(ev[i as int] is None);
                return None;
            },
        }
        i = i + 1;
    }
    assert(ev.take(i as int) =~= ev);
    Some(out)
}

fn is_plugin_key(id: &Vec<char>) -> (r: bool)
    ensures
        r == plugin_key(id@),
{
    chars_eq_str(id, "name") || chars_eq_str(id, "version") || chars_eq_str(id, "author") || chars_eq_str(id, "authors")
        || chars_eq_str(id, "description") || chars_eq_str(id, "url") || chars_eq_str(id, "repository")
        || chars_eq_str(id, "homepage") || chars_eq_str(id, "license") || chars_eq_str(id, "bundle")
}

fn unknown_key_message(id: &str) -> (r: String)
    ensures
        r@ == "unknown #[plugin] attribute '"@ + id@
            + "'; supported: name, version, author, description, url/repository, license, bundle, require"@,
{
    let mut m: Vec<char> = Vec::new();
    extend_str(&mut m, "unknown #[plugin] attribute '");
    extend_str(&mut m, id);
    extend_str(&mut m, "'; supported: name, version, author, description, url/repository, license, bundle, require");
    chars_to_string(&m)
}

fn apply_item(out: &mut PluginAttr, m: &MetaItem) -> (r: Result<(), String>)
    ensures
        match attr_item_step(old(out)@, m@) {
            Ok(v) => r is Ok && final(out)@ == v,
            Err(e) => r matches Err(msg) && msg@ == e,
        },
{
    let id = match &m.ident {
        Some(id) => id,
        None => {
            return Err("unsupported #[plugin] attribute".to_string());
        },
    };
    let val = match &m.body {
        MetaBody::NameValue(val) => val,
        _ => {
            return Err(
                "unsupported #[plugin] attribute; supported: name, version, author, description, url/repository, license, bundle, require".to_string(),
            );
        },
    };
    let idc = str_chars(id.as_str());
    if chars_eq_str(&idc, "require") {
        match val {
            MetaValue::Array(es) => match array_string_values(es) {
                Some(l) => {
                    let ghost lv = l@.map_values(|s: String| s@);
                    let ghost before = out@;
                    let _ = add_plugin_list(out, "require", l);
                    proof {
                        reveal_strlit("require");
                        reveal_strlit("permissions");
                        reveal_strlit("permission");
                        assert("require"@.len() == 7 && "permissions"@.len() == 11 && "permission"@.len() == 10);
                    }
                    assert(out@.requires =~= before.requires + lv);
                    assert(out@.permissions =~= before.permissions);
                    Ok(())
                },
                None => Err("require expects a list of string literals like \"plugin:name@>=1.0\"".to_string()),
            },
            _ => Err("#[plugin(require = ...)] expects an array of string literals".to_string()),
        }
    } else {
        match val {
            MetaValue::Str(s) => if is_plugin_key(&idc) {
                apply_plugin_kv(out, id.as_str(), s.clone())
            } else {
                Err(unknown_key_message(id.as_str()))
            },
            _ => Err(expects_string_message(id.as_str())),
        }
    }
}

/// Applies the items of `#[plugin(...)]`, in order, to the attributes a
/// plugin starts from, in the grammar of `parse_plugin_attr`; stops at the
/// first item that gives an error.
pub fn plugin_attr_from_items(metas: Vec<MetaItem>, start: PluginAttr) -> (r: Result<PluginAttr, String>)
    ensures
        match attr_items_fold(start@, metas@.map_values(|m: MetaItem| m@)) {
            Ok(v) => r matches Ok(a) && a@ == v,
            Err(e) => r matches Err(m) && m@ == e,
        },
{
    let ghost all = metas@.map_values(|m: MetaItem| m@);
    let mut out = start;
    let mut i: usize = 0;
    assert(all.skip(0) =~= all);
    while i < metas.len()
        invariant
            i <= metas@.len(),
            all == metas@.map_values(|m: MetaItem| m@),
            attr_items_fold(start@, all) == attr_items_fold(out@, all.skip(i as int)),
        decreases metas@.len() - i,
    {
        assert(all.skip(i as int).drop_first() =~= all.skip(i as int + 1));
        assert(all.skip(i as int)[0] == metas@[i as int]@);
        match apply_item(&mut out, &metas[i]) {
            Ok(()) => {},
            Err(e) => {
                return Err(e);
            },
        }
        i = i + 1;
    }
    Ok(out)
}

/// Reads the text inside `#[plugin(...)]` and applies its items, in order,
/// to the attributes a plugin starts from, where `require` takes an array
/// of string literals only and `permissions` is no key: the error of `syn`
/// when the text is no list of meta items, else as
/// `plugin_attr_from_items`.
pub fn parse_plugin_attr(attr: &str, start: PluginAttr) -> (r: Result<PluginAttr, String>)
    ensures
        match plugin_metas_of(attr@) {
            Err(e) => r matches Err(m) && m@ == e,
            Ok(items) => match attr_items_fold(start@, items) {
                Ok(v) => r matches Ok(a) && a@ == v,
                Err(e) => r matches Err(m) && m@ == e,
            },
        },
{
    match plugin_metas(attr) {
        Ok(items) => plugin_attr_from_items(items, start),
        Err(e) => Err(e),
    }
}

} // verus!
