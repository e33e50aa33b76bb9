//! The plugin manifest: the attributes of a plugin and its commands, written
//! out as TOML.

use vstd::prelude::*;
use crate::text::{str_chars, chars_to_string, extend_chars, extend_str, chars_eq_str, trim, trim_chars};

verus! {

/// The values of a plugin's `#[plugin(...)]` attribute and its helpers.
pub struct PluginAttr {
    pub name: String,
    pub version: String,
    pub author: String,
    pub description: String,
    pub url: String,
    pub license: String,
    pub bundle: Option<String>,
    pub requires: Vec<String>,
    pub permissions: Vec<String>,
    pub load_time: String,
    pub unload_time: String,
}

/// A command a plugin registers.
pub struct CommandDefInfo {
    pub name: String,
    pub description: String,
    pub usage: String,
    pub aliases: Vec<String>,
    pub capability: Option<String>,
    pub requires: Vec<String>,
}

/// A package metadata value, or `default` when it is missing or blank.
pub open spec fn filled_or(v: Option<Seq<char>>, default: Seq<char>) -> Seq<char> {
    match v {
        Some(s) => if trim(s).len() > 0 { s } else { default },
        None => default,
    }
}

/// A `String` option viewed as an option of its characters.
pub open spec fn opt_view(o: Option<String>) -> Option<Seq<char>> {
    match o {
        Some(s) => Some(s@),
        None => None,
    }
}

/// The first of three values that is present.
pub open spec fn first_present(a: Option<Seq<char>>, b: Option<Seq<char>>, c: Option<Seq<char>>) -> Option<Seq<char>> {
    if a is Some {
        a
    } else if b is Some {
        b
    } else {
        c
    }
}

fn filled_or_exec(v: Option<String>, default: &str) -> (r: String)
    ensures
        r@ == filled_or(opt_view(v), default@),
{
    match v {
        Some(s) => {
            let cs = str_chars(s.as_str());
            let t = trim_chars(&cs);
            if t.len() > 0 {
                s
            } else {
                default.to_string()
            }
        },
        None => default.to_string(),
    }
}

/// The attribute values a plugin starts from, taken from its package
/// metadata (the `CARGO_PKG_*` values, `None` when unset): the name, or
/// `Unknown`; the version, authors, description and license unless blank,
/// else `1.0.0`, `Unknown`, `No description provided` and `Not Stated`; as
/// URL the first of the homepage, repository and documentation that is set,
/// `N/A` when none is or that one is blank. Nothing is bundled, required or
/// permitted, and the plugin loads and unloads at any time.
pub fn plugin_attr_from_package(
    name: Option<String>,
    version: Option<String>,
    authors: Option<String>,
    description: Option<String>,
    license: Option<String>,
    homepage: Option<String>,
    repository: Option<String>,
    documentation: Option<String>,
) -> (r: PluginAttr)
    ensures
        r.name@ == (match name {
            Some(n) => n@,
            None => "Unknown"@,
        }),
        r.version@ == filled_or(opt_view(version), "1.0.0"@),
        r.author@ == filled_or(opt_view(authors), "Unknown"@),
        r.description@ == filled_or(opt_view(description), "No description provided"@),
        r.license@ == filled_or(opt_view(license), "Not Stated"@),
        r.url@ == filled_or(first_present(opt_view(homepage), opt_view(repository), opt_view(documentation)), "N/A"@),
        r.bundle is None,
        r.requires@.len() == 0,
        r.permissions@.len() == 0,
        r.load_time@ == "anytime"@,
        r.unload_time@ == "anytime"@,
{
    let url_source = match homepage {
        Some(h) => Some(h),
        None => match repository {
            Some(r) => Some(r),
            None => documentation,
        },
    };
    PluginAttr {
        name: match name {
            Some(n) => n,
            None => "Unknown".to_string(),
        },
        version: filled_or_exec(version, "1.0.0"),
        author: filled_or_exec(authors, "Unknown"),
        description: filled_or_exec(description, "No description provided"),
        url: filled_or_exec(url_source, "N/A"),
        license: filled_or_exec(license, "Not Stated"),
        bundle: None,
        requires: Vec::new(),
        permissions: Vec::new(),
        load_time: "anytime".to_string(),
        unload_time: "anytime".to_string(),
    }
}

/// A character allowed in a bundle name: an ASCII letter or digit, `_`,
/// `-` or `/`.
pub open spec fn bundle_char(c: char) -> bool {
    ('a' <= c <= 'z') || ('A' <= c <= 'Z') || ('0' <= c <= '9') || c == '_' || c == '-' || c == '/'
}

/// Whether `v` holds `..`.
pub open spec fn has_dot_dot(v: Seq<char>) -> bool {
    exists|i: int| 0 <= i < v.len() - 1 && #[trigger] v[i] == '.' && v[i + 1] == '.'
}

/// Whether a bundle name is accepted: non-empty, a relative path (not
/// starting with `/` or `\`) without `..` or `:`, made only of ASCII
/// letters and digits, `_`, `/` and `-`.
pub open spec fn valid_bundle(v: Seq<char>) -> bool {
    &&& v.len() > 0
    &&& !has_dot_dot(v)
    &&& v[0] != '/'
    &&& v[0] != '\\'
    &&& !v.contains(':')
    &&& forall|i: int| 0 <= i < v.len() ==> bundle_char(#[trigger] v[i])
}

fn is_valid_bundle(v: &Vec<char>) -> (r: bool)
    ensures
        r == valid_bundle(v@),
{
    if v.len() == 0 {
        return false;
    }
    if v[0] == '/' || v[0] == '\\' {
        return false;
    }
    let mut i: usize = 0;
    while i < v.len()
        invariant
            i <= v@.len(),
            forall|j: int| 0 <= j < i ==> bundle_char(#[trigger] v@[j]) && v@[j] != '.' && v@[j] != ':',
        decreases v@.len() - i,
    {
        let c = v[i];
        let ok = ('a' <= c && c <= 'z') || ('A' <= c && c <= 'Z') || ('0' <= c && c <= '9') || c == '_' || c == '-'
            || c == '/';
        if !ok {
            return false;
        }
        i = i + 1;
    }
    assert(!has_dot_dot(v@)) by {
        if has_dot_dot(v@) {
            let k = choose|k: int| 0 <= k < v@.len() - 1 && #[trigger] v@[k] == '.' && v@[k + 1] == '.';
            assert(v@[k] != '.');
        }
    }
    assert(!v@.contains(':')) by {
        if v@.contains(':') {
            let k = choose|k: int| 0 <= k < v@.len() && v@[k] == ':';
            assert(v@[k] != ':');
        }
    }
    true
}

/// The error for a bundle name that is not accepted.
pub open spec fn invalid_bundle_message(v: Seq<char>) -> Seq<char> {
    "invalid #[plugin(bundle = \""@ + v
        + "\")]: must be non-empty, relative path without '..' or ':', using only [a-zA-Z0-9_/-]"@
}

/// The error for a key that `#[plugin(...)]` does not take.
pub open spec fn unknown_attr_message(ident: Seq<char>) -> Seq<char> {
    "unknown #[plugin] attribute '"@ + ident
        + "'; supported: name, version, author, description, url/repository, license, bundle, require, permissions"@
}

/// The values of a plugin's attributes.
pub struct AttrView {
    pub name: Seq<char>,
    pub version: Seq<char>,
    pub author: Seq<char>,
    pub description: Seq<char>,
    pub url: Seq<char>,
    pub license: Seq<char>,
    pub bundle: Option<Seq<char>>,
    pub requires: Seq<Seq<char>>,
    pub permissions: Seq<Seq<char>>,
    pub load_time: Seq<char>,
    pub unload_time: Seq<char>,
}

impl View for PluginAttr {
    type V = AttrView;

    open spec fn view(&self) -> AttrView {
        AttrView {
            name: self.name@,
            version: self.version@,
            author: self.author@,
            description: self.description@,
            url: self.url@,
            license: self.license@,
            bundle: match self.bundle {
                Some(b) => Some(b@),
                None => None,
            },
            requires: self.requires@.map_values(|s: String| s@),
            permissions: self.permissions@.map_values(|s: String| s@),
            load_time: self.load_time@,
            unload_time: self.unload_time@,
        }
    }
}

/// The attributes after one `key = "value"` of `#[plugin(...)]`, or the
/// error it gives.
pub open spec fn kv_step(v: AttrView, ident: Seq<char>, value: Seq<char>) -> Result<AttrView, Seq<char>> {
    if ident == "name"@ {
        Ok(AttrView { name: value, ..v })
    } else if ident == "version"@ {
        Ok(AttrView { version: value, ..v })
    } else if ident == "author"@ || ident == "authors"@ {
        Ok(AttrView { author: value, ..v })
    } else if ident == "description"@ {
        Ok(AttrView { description: value, ..v })
    } else if ident == "url"@ || ident == "repository"@ || ident == "homepage"@ {
        Ok(AttrView { url: value, ..v })
    } else if ident == "license"@ {
        Ok(AttrView { license: value, ..v })
    } else if ident == "bundle"@ {
        if valid_bundle(value) {
            Ok(AttrView { bundle: Some(value), ..v })
        } else {
            Err(invalid_bundle_message(value))
        }
    } else {
        Err(unknown_attr_message(ident))
    }
}

/// Applies one `key = "value"` of `#[plugin(...)]`: `name`, `version`,
/// `author` / `authors`, `description`, `url` / `repository` / `homepage`,
/// `license` set their value; `bundle` sets the bundle when its name is
/// accepted. Any other key, or a bundle name that is not accepted, is an
/// error and changes nothing.
pub fn apply_plugin_kv(out: &mut PluginAttr, ident: &str, value: String) -> (r: Result<(), String>)
    ensures
        ident@ == "name"@ ==> r is Ok && final(out).name@ == value@,
        ident@ == "version"@ ==> r is Ok && final(out).version@ == value@,
        (ident@ == "author"@ || ident@ == "authors"@) ==> r is Ok && final(out).author@ == value@,
        ident@ == "description"@ ==> r is Ok && final(out).description@ == value@,
        (ident@ == "url"@ || ident@ == "repository"@ || ident@ == "homepage"@) ==> r is Ok && final(out).url@
            == value@,
        ident@ == "license"@ ==> r is Ok && final(out).license@ == value@,
        ident@ == "bundle"@ && valid_bundle(value@) ==> r is Ok && (final(out).bundle matches Some(b) && b@ == value@),
        ident@ == "bundle"@ && !valid_bundle(value@) ==> (r matches Err(e) && e@ == invalid_bundle_message(value@)),
        !(ident@ == "name"@ || ident@ == "version"@ || ident@ == "author"@ || ident@ == "authors"@ || ident@
            == "description"@ || ident@ == "url"@ || ident@ == "repository"@ || ident@ == "homepage"@ || ident@
            == "license"@ || ident@ == "bundle"@) ==> (r matches Err(e) && e@ == unknown_attr_message(ident@)),
        r is Ok ==> final(out).name@ == (if ident@ == "name"@ { value@ } else { old(out).name@ }),
        r is Ok ==> final(out).version@ == (if ident@ == "version"@ { value@ } else { old(out).version@ }),
        r is Ok ==> final(out).author@ == (if ident@ == "author"@ || ident@ == "authors"@ {
            value@
        } else {
            old(out).author@
        }),
        r is Ok ==> final(out).description@ == (if ident@ == "description"@ { value@ } else { old(out).description@ }),
        r is Ok ==> final(out).url@ == (if ident@ == "url"@ || ident@ == "repository"@ || ident@ == "homepage"@ {
            value@
        } else {
            old(out).url@
        }),
        r is Ok ==> final(out).license@ == (if ident@ == "license"@ { value@ } else { old(out).license@ }),
        r is Ok && ident@ != "bundle"@ ==> final(out).bundle == old(out).bundle,
        final(out).requires == old(out).requires,
        final(out).permissions == old(out).permissions,
        final(out).load_time == old(out).load_time,
        final(out).unload_time == old(out).unload_time,
        r is Err ==> *final(out) == *old(out),
        match kv_step(old(out)@, ident@, value@) {
            Ok(v) => r is Ok && final(out)@ == v,
            Err(e) => (r matches Err(m) && m@ == e) && final(out)@ == old(out)@,
        },
{
    proof {
        reveal_strlit("name");
        reveal_strlit("version");
        reveal_strlit("author");
        reveal_strlit("authors");
        reveal_strlit("description");
        reveal_strlit("url");
        reveal_strlit("repository");
        reveal_strlit("homepage");
        reveal_strlit("license");
        reveal_strlit("bundle");
        assert("name"@.len() == 4 && "version"@.len() == 7 && "author"@.len() == 6 && "authors"@.len() == 7);
        assert("description"@.len() == 11 && "url"@.len() == 3 && "repository"@.len() == 10);
        assert("homepage"@.len() == 8 && "license"@.len() == 7 && "bundle"@.len() == 6);
        assert("version"@ != "authors"@ && "version"@ != "license"@ && "authors"@ != "license"@) by {
            assert("version"@[0] != "authors"@[0] && "version"@[0] != "license"@[0] && "authors"@[0] != "license"@[0]);
        }
        assert("author"@ != "bundle"@) by {
            assert("author"@[0] != "bundle"@[0]);
        }
    }
    let id = str_chars(ident);
    if chars_eq_str(&id, "name") {
        out.name = value;
    } else if chars_eq_str(&id, "version") {
        out.version = value;
    } else if chars_eq_str(&id, "author") || chars_eq_str(&id, "authors") {
        out.author = value;
    } else if chars_eq_str(&id, "description") {
        out.description = value;
    } else if chars_eq_str(&id, "url") || chars_eq_str(&id, "repository") || chars_eq_str(&id, "homepage") {
        out.url = value;
    } else if chars_eq_str(&id, "license") {
        out.license = value;
    } else if chars_eq_str(&id, "bundle") {
        let vc = str_chars(value.as_str());
        if !is_valid_bundle(&vc) {
            let mut m: Vec<char> = Vec::new();
            extend_str(&mut m, "invalid #[plugin(bundle = \"");
            extend_chars(&mut m, &vc);
            extend_str(&mut m, "\")]: must be non-empty, relative path without '..' or ':', using only [a-zA-Z0-9_/-]");
            return Err(chars_to_string(&m));
        }
        out.bundle = Some(value);
    } else {
        let mut m: Vec<char> = Vec::new();
        extend_str(&mut m, "unknown #[plugin] attribute '");
        extend_chars(&mut m, &id);
        extend_str(&mut m,
            "'; supported: name, version, author, description, url/repository, license, bundle, require, permissions");
        return Err(chars_to_string(&m));
    }
    Ok(())
}

fn append_all(dst: &mut Vec<String>, values: Vec<String>)
    ensures
        final(dst)@ == old(dst)@ + values@,
{
    let ghost base = dst@;
    let ghost all = values@;
    let n = values.len();
    let mut rest = values;
    let mut i: usize = 0;
    while rest.len() > 0
        invariant
            i <= all.len(),
            all.len() == n,
            rest@ == all.skip(i as int),
            dst@ == base + all.take(i as int),
        decreases rest@.len(),
    {
        let v = rest.remove(0);
        dst.push(v);
        assert(dst@ =~= base + all.take(i as int + 1));
        assert(rest@ =~= all.skip(i as int + 1));
        i = i + 1;
    }
    assert(all.take(i as int) =~= all);
}

/// Applies one list key of `#[plugin(...)]`: `require` adds to the plugins
/// required, `permissions` / `permission` to the permissions asked for, in
/// order. Returns false, changing nothing, for any other key.
pub fn add_plugin_list(out: &mut PluginAttr, ident: &str, values: Vec<String>) -> (handled: bool)
    ensures
        handled == (ident@ == "require"@ || ident@ == "permissions"@ || ident@ == "permission"@),
        final(out).requires@ == (if ident@ == "require"@ { old(out).requires@ + values@ } else { old(out).requires@ }),
        final(out).permissions@ == (if ident@ == "permissions"@ || ident@ == "permission"@ {
            old(out).permissions@ + values@
        } else {
            old(out).permissions@
        }),
        final(out).name == old(out).name,
        final(out).version == old(out).version,
        final(out).author == old(out).author,
        final(out).description == old(out).description,
        final(out).url == old(out).url,
        final(out).license == old(out).license,
        final(out).bundle == old(out).bundle,
        final(out).load_time == old(out).load_time,
        final(out).unload_time == old(out).unload_time,
{
    proof {
        reveal_strlit("require");
        reveal_strlit("permissions");
        reveal_strlit("permission");
        assert("require"@.len() == 7 && "permissions"@.len() == 11 && "permission"@.len() == 10);
    }
    let id = str_chars(ident);
    if chars_eq_str(&id, "require") {
        append_all(&mut out.requires, values);
        true
    } else if chars_eq_str(&id, "permissions") || chars_eq_str(&id, "permission") {
        append_all(&mut out.permissions, values);
        true
    } else {
        false
    }
}

/// What one character becomes inside a TOML basic string.
pub open spec fn toml_escape_char(c: char) -> Seq<char> {
    if c == '\\' {
        seq!['\\', '\\']
    } else if c == '"' {
        seq!['\\', '"']
    } else if c == '\n' {
        seq!['\\', 'n']
    } else {
        seq![c]
    }
}

/// A string escaped for a TOML basic string: backslash, double quote and
/// newline are escaped.
pub open spec fn toml_escaped(s: Seq<char>) -> Seq<char>
    decreases s.len(),
{
    if s.len() == 0 {
        Seq::empty()
    } else {
        toml_escaped(s.drop_last()) + toml_escape_char(s.last())
    }
}

fn push_escaped(dst: &mut Vec<char>, s: &str)
    ensures
        final(dst)@ == old(dst)@ + toml_escaped(s@),
{
    let cs = str_chars(s);
    let ghost base = dst@;
    let mut i: usize = 0;
    while i < cs.len()
        invariant
            cs@ == s@,
            i <= cs@.len(),
            dst@ == base + toml_escaped(s@.take(i as int)),
        decreases cs@.len() - i,
    {
        let c = cs[i];
        assert(s@.take(i as int + 1).drop_last() =~= s@.take(i as int));
        if c == '\\' {
            dst.push('\\');
            dst.push('\\');
        } else if c == '"' {
            dst.push('\\');
            dst.push('"');
        } else if c == '\n' {
            dst.push('\\');
            dst.push('n');
        } else {
            dst.push(c);
        }
        assert(dst@ =~= base + toml_escaped(s@.take(i as int + 1)));
        i = i + 1;
    }
    assert(s@.take(i as int) =~= s@);
}

/// Escapes a string for a TOML double-quoted literal.
pub fn toml_escape(s: &str) -> (r: String)
    ensures
        r@ == toml_escaped(s@),
{
    let mut v: Vec<char> = Vec::new();
    push_escaped(&mut v, s);
    assert(v@ =~= toml_escaped(s@));
    chars_to_string(&v)
}

/// A quoted, escaped TOML string.
pub open spec fn quoted(s: Seq<char>) -> Seq<char> {
    seq!['"'] + toml_escaped(s) + seq!['"']
}

/// Quoted strings joined by `", "`.
pub open spec fn quoted_list(v: Seq<String>) -> Seq<char>
    decreases v.len(),
{
    if v.len() == 0 {
        Seq::empty()
    } else if v.len() == 1 {
        quoted(v[0]@)
    } else {
        quoted_list(v.drop_last()) + ", "@ + quoted(v.last()@)
    }
}

/// `key = "value"` and a newline.
pub open spec fn string_line(key: Seq<char>, value: Seq<char>) -> Seq<char> {
    key + " = "@ + quoted(value) + seq!['\n']
}

/// `key = [..]` and a newline, or nothing for an empty list.
pub open spec fn list_line(key: Seq<char>, v: Seq<String>) -> Seq<char> {
    if v.len() == 0 {
        Seq::empty()
    } else {
        key + " = ["@ + quoted_list(v) + "]\n"@
    }
}

/// The `[[commands]]` table of one command.
pub open spec fn command_table(c: CommandDefInfo) -> Seq<char> {
    command_head(c)
        + list_line("aliases"@, c.aliases@)
        + (match c.capability { Some(cap) => string_line("capability"@, cap@), None => Seq::empty() })
        + list_line("requires"@, c.requires@)
        + seq!['\n']
}

/// The tables of the commands, in order.
pub open spec fn command_tables(cs: Seq<CommandDefInfo>) -> Seq<char>
    decreases cs.len(),
{
    if cs.len() == 0 {
        Seq::empty()
    } else {
        command_tables(cs.drop_last()) + command_table(cs.last())
    }
}

/// The manifest of a plugin.
pub open spec fn manifest_text(a: PluginAttr, cs: Seq<CommandDefInfo>) -> Seq<char> {
    "[plugin]\n"@ + string_line("name"@, a.name@) + string_line("version"@, a.version@)
        + string_line("author"@, a.author@) + string_line("description"@, a.description@)
        + string_line("url"@, a.url@) + string_line("license"@, a.license@)
        + (match a.bundle { Some(b) => string_line("bundle"@, b@), None => Seq::empty() })
        + list_line("requires"@, a.requires@)
        + list_line("permissions"@, a.permissions@)
        + "[lifecycle]\n"@ + string_line("load"@, a.load_time@) + string_line("unload"@, a.unload_time@)
        + (if cs.len() > 0 { seq!['\n'] + command_tables(cs) } else { Seq::empty() })
}

fn push_string_line(dst: &mut Vec<char>, key: &str, value: &str)
    ensures
        final(dst)@ == old(dst)@ + string_line(key@, value@),
{
    let ghost base = dst@;
    extend_str(dst, key);
    extend_str(dst, " = ");
    dst.push('"');
    push_escaped(dst, value);
    dst.push('"');
    dst.push('\n');
    assert(dst@ =~= base + string_line(key@, value@));
}

fn push_list_line(dst: &mut Vec<char>, key: &str, v: &Vec<String>)
    ensures
        final(dst)@ == old(dst)@ + list_line(key@, v@),
{
    if v.len() == 0 {
        return;
    }
    let ghost base = dst@;
    extend_str(dst, key);
    extend_str(dst, " = [");
    let ghost start = dst@;
    let mut k: usize = 0;
    while k < v.len()
        invariant
            k <= v@.len(),
            dst@ == start + quoted_list(v@.take(k as int)),
        decreases v@.len() - k,
    {
        assert(v@.take(k as int + 1).drop_last() =~= v@.take(k as int));
        let ghost before = dst@;
        if k > 0 {
            extend_str(dst, ", ");
        }
        dst.push('"');
        push_escaped(dst, v[k].as_str());
        dst.push('"');
        proof {
            if k > 0 {
                assert(dst@ =~= start + (quoted_list(v@.take(k as int)) + ", "@ + quoted(v@[k as int]@)));
            } else {
                assert(dst@ =~= start + quoted(v@.take(1)[0]@));
            }
        }
        k = k + 1;
    }
    assert(v@.take(k as int) =~= v@);
    extend_str(dst, "]\n");
    assert(dst@ =~= base + list_line(key@, v@));
}

/// The first lines of a command's table: its name, description and usage.
pub open spec fn command_head(c: CommandDefInfo) -> Seq<char> {
    "[[commands]]\n"@ + string_line("name"@, c.name@)
        + (if c.description@.len() > 0 { string_line("description"@, c.description@) } else { Seq::empty() })
        + (if c.usage@.len() > 0 { string_line("usage"@, c.usage@) } else { Seq::empty() })
}

fn push_command_head(v: &mut Vec<char>, cmd: &CommandDefInfo)
    ensures
        final(v)@ == old(v)@ + command_head(*cmd),
{
    let ghost before = v@;
    extend_str(v, "[[commands]]\n");
    push_string_line(v, "name", cmd.name.as_str());
    let ghost mid = v@;
    if cmd.description.as_str().unicode_len() > 0 {
        push_string_line(v, "description", cmd.description.as_str());
    }
    let ghost mid2 = v@;
    if cmd.usage.as_str().unicode_len() > 0 {
        push_string_line(v, "usage", cmd.usage.as_str());
    }
    assert(v@ =~= before + command_head(*cmd));
}

#[verifier::rlimit(30)]
fn push_command_table(v: &mut Vec<char>, cmd: &CommandDefInfo)
    ensures
        final(v)@ == old(v)@ + command_table(*cmd),
{
    let ghost before = v@;
    push_command_head(v, cmd);
    push_list_line(v, "aliases", &cmd.aliases);
    match &cmd.capability {
        Some(cap) => push_string_line(v, "capability", cap.as_str()),
        None => {},
    }
    push_list_line(v, "requires", &cmd.requires);
    v.push('\n');
    assert(v@ =~= before + command_table(*cmd));
}

/// Writes the manifest of a plugin: the `[plugin]` table, the `[lifecycle]`
/// table and one `[[commands]]` table per command, every string escaped.
pub fn generate_manifest_toml(attr: &PluginAttr, command_defs: &[CommandDefInfo]) -> (r: String)
    ensures
        r@ == manifest_text(*attr, command_defs@),
{
    let mut v: Vec<char> = Vec::new();
    extend_str(&mut v, "[plugin]\n");
    push_string_line(&mut v, "name", attr.name.as_str());
    push_string_line(&mut v, "version", attr.version.as_str());
    push_string_line(&mut v, "author", attr.author.as_str());
    push_string_line(&mut v, "description", attr.description.as_str());
    push_string_line(&mut v, "url", attr.url.as_str());
    push_string_line(&mut v, "license", attr.license.as_str());
    match &attr.bundle {
        Some(b) => push_string_line(&mut v, "bundle", b.as_str()),
        None => {},
    }
    push_list_line(&mut v, "requires", &attr.requires);
    push_list_line(&mut v, "permissions", &attr.permissions);
    extend_str(&mut v, "[lifecycle]\n");
    push_string_line(&mut v, "load", attr.load_time.as_str());
    push_string_line(&mut v, "unload", attr.unload_time.as_str());
    let ghost head = v@;
    if command_defs.len() > 0 {
        v.push('\n');
        let ghost start = v@;
        let mut k: usize = 0;
        while k < command_defs.len()
            invariant
                k <= command_defs@.len(),
                v@ == start + command_tables(command_defs@.take(k as int)),
            decreases command_defs@.len() - k,
        {
            assert(command_defs@.take(k as int + 1).drop_last() =~= command_defs@.take(k as int));
            push_command_table(&mut v, &command_defs[k]);
            k = k + 1;
        }
        assert(command_defs@.take(k as int) =~= command_defs@);
    }
    assert(v@ =~= manifest_text(*attr, command_defs@));
    chars_to_string(&v)
}

} // verus!
