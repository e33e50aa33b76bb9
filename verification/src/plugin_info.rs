//! The report of `grs info`: a plugin's index, path, status and metadata,
//! whole or one field of it, with the framework's defaults for metadata a
//! plugin does not declare.

use vstd::prelude::*;
use crate::text::{str_chars, chars_to_string, extend_str, extend_chars, decimal, push_decimal};
use crate::paths::{PathResolver, normalized};
use crate::manifest::CommandDefInfo;

verus! {

/// The state of a loaded plugin.
pub enum PluginStatus {
    Loaded,
    Running,
    Paused(Option<String>),
    Blocked(String),
    Degraded(String),
    Poisoned(String),
    Unloaded,
}

/// What a plugin declares of itself.
pub struct PluginMetadata {
    pub name: String,
    pub version: String,
    pub author: String,
    pub description: String,
    pub license: String,
    pub url: String,
    pub systems: Vec<String>,
    pub require: Vec<String>,
    /// The names of the commands the plugin registers.
    pub commands: Vec<String>,
    /// The full definitions of those commands, when the plugin gives them.
    pub command_defs: Vec<CommandDefInfo>,
}

/// What `grs info` shows of a loaded plugin.
pub struct PluginDetails {
    /// 1-based position.
    pub index: usize,
    pub name: String,
    pub path: String,
    pub status: PluginStatus,
    pub metadata: Option<PluginMetadata>,
}

/// The values shown for metadata a plugin does not declare.
pub struct PluginDefaults {
    pub version: String,
    pub author: String,
    pub description: String,
    pub license: String,
    pub url: String,
    pub systems: String,
    pub require: String,
}

/// The text of a status: its name, and its reason in brackets.
pub open spec fn status_text(s: PluginStatus) -> Seq<char> {
    match s {
        PluginStatus::Loaded => "Loaded"@,
        PluginStatus::Running => "Running"@,
        PluginStatus::Paused(Some(r)) => "Paused ("@ + r@ + ")"@,
        PluginStatus::Paused(None) => "Paused"@,
        PluginStatus::Blocked(r) => "Blocked ("@ + r@ + ")"@,
        PluginStatus::Degraded(r) => "Degraded ("@ + r@ + ")"@,
        PluginStatus::Poisoned(e) => "Poisoned ("@ + e@ + ")"@,
        PluginStatus::Unloaded => "Unloaded"@,
    }
}

/// Strings joined by `", "`.
pub open spec fn comma_joined(v: Seq<Seq<char>>) -> Seq<char>
    decreases v.len(),
{
    if v.len() == 0 {
        Seq::empty()
    } else if v.len() == 1 {
        v[0]
    } else {
        comma_joined(v.drop_last()) + ", "@ + v.last()
    }
}

/// The strings of a list viewed as character sequences.
pub open spec fn strings(v: Seq<String>) -> Seq<Seq<char>> {
    v.map_values(|s: String| s@)
}

/// A declared list, joined, or the default when there is none or it is empty.
pub open spec fn list_or(v: Option<Seq<Seq<char>>>, default: Seq<char>) -> Seq<char> {
    match v {
        Some(l) => if l.len() == 0 { default } else { comma_joined(l) },
        None => default,
    }
}

/// The fields `grs info` knows, in the order of its full report after the
/// index, path and status.
pub open spec fn meta_values(d: PluginDetails, defs: PluginDefaults) -> Seq<Seq<char>> {
    match d.metadata {
        Some(m) => seq![
            m.name@,
            m.version@,
            m.author@,
            m.description@,
            m.license@,
            m.url@,
            list_or(Some(strings(m.systems@)), defs.systems@),
            list_or(Some(strings(m.require@)), defs.require@),
        ],
        None => seq![
            d.name@,
            defs.version@,
            defs.author@,
            defs.description@,
            defs.license@,
            defs.url@,
            defs.systems@,
            defs.require@,
        ],
    }
}

/// The value of one field of the report, if the field exists.
pub open spec fn field_value(d: PluginDetails, defs: PluginDefaults, f: Seq<char>) -> Option<Seq<char>> {
    let m = meta_values(d, defs);
    if f == "name"@ {
        Some(m[0])
    } else if f == "version"@ {
        Some(m[1])
    } else if f == "author"@ {
        Some(m[2])
    } else if f == "description"@ {
        Some(m[3])
    } else if f == "license"@ {
        Some(m[4])
    } else if f == "url"@ {
        Some(m[5])
    } else if f == "path"@ {
        Some(normalized(d.path@))
    } else if f == "status"@ {
        Some(status_text(d.status))
    } else if f == "systems"@ {
        Some(m[6])
    } else if f == "require"@ {
        Some(m[7])
    } else if f == "index"@ {
        Some(decimal(d.index as nat))
    } else {
        None
    }
}

/// The message for a field `grs info` does not know.
pub open spec fn unknown_field_message(f: Seq<char>) -> Seq<char> {
    "[GoldSrc.rs] Unknown field '"@ + f
        + "'. Supported: name, version, author, description, license, url, path, status, systems, require, index.\n"@
}

/// The full report of a plugin.
pub open spec fn full_report(d: PluginDetails, defs: PluginDefaults) -> Seq<char> {
    let m = meta_values(d, defs);
    "--- Plugin Info: "@ + d.name@ + " ---\n"@
        + "  Index:        #"@ + decimal(d.index as nat) + "\n"@
        + "  Path:         \""@ + normalized(d.path@) + "\"\n"@
        + "  Status:       "@ + status_text(d.status) + "\n"@
        + "  Meta Name:    "@ + m[0] + "\n"@
        + "  Version:      "@ + m[1] + "\n"@
        + "  Author:       "@ + m[2] + "\n"@
        + "  Description:  "@ + m[3] + "\n"@
        + "  License:      "@ + m[4] + "\n"@
        + "  URL:          "@ + m[5] + "\n"@
        + "  Systems:      "@ + m[6] + "\n"@
        + "  Require:      "@ + m[7] + "\n"@
}

/// What `grs info` prints for a plugin: the full report, or the one field
/// asked for and a newline, or the message for an unknown field.
pub open spec fn info_text(d: PluginDetails, defs: PluginDefaults, field: Option<Seq<char>>) -> Seq<char> {
    match field {
        None => full_report(d, defs),
        Some(f) => match field_value(d, defs, f) {
            Some(v) => v + "\n"@,
            None => unknown_field_message(f),
        },
    }
}

fn status_string(s: &PluginStatus) -> (r: Vec<char>)
    ensures
        r@ == status_text(*s),
{
    let mut m: Vec<char> = Vec::new();
    match s {
        PluginStatus::Loaded => extend_str(&mut m, "Loaded"),
        PluginStatus::Running => extend_str(&mut m, "Running"),
        PluginStatus::Paused(Some(r)) => {
            extend_str(&mut m, "Paused (");
            extend_str(&mut m, r.as_str());
            extend_str(&mut m, ")");
        },
        PluginStatus::Paused(None) => extend_str(&mut m, "Paused"),
        PluginStatus::Blocked(r) => {
            extend_str(&mut m, "Blocked (");
            extend_str(&mut m, r.as_str());
            extend_str(&mut m, ")");
        },
        PluginStatus::Degraded(r) => {
            extend_str(&mut m, "Degraded (");
            extend_str(&mut m, r.as_str());
            extend_str(&mut m, ")");
        },
        PluginStatus::Poisoned(e) => {
            extend_str(&mut m, "Poisoned (");
            extend_str(&mut m, e.as_str());
            extend_str(&mut m, ")");
        },
        PluginStatus::Unloaded => extend_str(&mut m, "Unloaded"),
    }
    m
}

pub(crate) fn join_list(v: &Vec<String>, default: &str) -> (r: Vec<char>)
    ensures
        r@ == list_or(Some(strings(v@)), default@),
{
    let mut out: Vec<char> = Vec::new();
    if v.len() == 0 {
        extend_str(&mut out, default);
        return out;
    }
    let mut k: usize = 0;
    while k < v.len()
        invariant
            k <= v@.len(),
            v@.len() > 0,
            out@ == comma_joined(strings(v@.take(k as int))),
        decreases v@.len() - k,
    {
        let ghost prev = strings(v@.take(k as int));
        let ghost next = strings(v@.take(k as int + 1));
        assert(next.drop_last() =~= prev);
        if k > 0 {
            extend_str(&mut out, ", ");
        }
        extend_str(&mut out, v[k].as_str());
        proof {
            if k > 0 {
                assert(out@ =~= comma_joined(prev) + ", "@ + next.last());
            } else {
                assert(out@ =~= next[0]);
            }
        }
        k = k + 1;
    }
    assert(v@.take(v@.len() as int) =~= v@);
    out
}

fn meta_strings(d: &PluginDetails, defs: &PluginDefaults) -> (r: Vec<Vec<char>>)
    ensures
        r@.len() == 8,
        forall|i: int| 0 <= i < 8 ==> (#[trigger] r@[i])@ == meta_values(*d, *defs)[i],
{
    let mut r: Vec<Vec<char>> = Vec::new();
    match &d.metadata {
        Some(m) => {
            r.push(str_chars(m.name.as_str()));
            r.push(str_chars(m.version.as_str()));
            r.push(str_chars(m.author.as_str()));
            r.push(str_chars(m.description.as_str()));
            r.push(str_chars(m.license.as_str()));
            r.push(str_chars(m.url.as_str()));
            r.push(join_list(&m.systems, defs.systems.as_str()));
            r.push(join_list(&m.require, defs.require.as_str()));
        },
        None => {
            r.push(str_chars(d.name.as_str()));
            r.push(str_chars(defs.version.as_str()));
            r.push(str_chars(defs.author.as_str()));
            r.push(str_chars(defs.description.as_str()));
            r.push(str_chars(defs.license.as_str()));
            r.push(str_chars(defs.url.as_str()));
            r.push(str_chars(defs.systems.as_str()));
            r.push(str_chars(defs.require.as_str()));
        },
    }
    r
}

fn is_word(f: &Vec<char>, w: &str) -> (r: bool)
    ensures
        r == (f@ == w@),
{
    crate::text::chars_eq_str(f, w)
}

/// What `grs info` prints for one plugin: the full report, or only the
/// field asked for (`name`, `version`, `author`, `description`, `license`,
/// `url`, `path`, `status`, `systems`, `require`, `index`), or the message
/// for an unknown field. Metadata the plugin does not declare shows the
/// defaults; the path is shown normalized.
pub fn info_report(info: &PluginDetails, defaults: &PluginDefaults, field: Option<&str>) -> (r: String)
    ensures
        r@ == info_text(*info, *defaults, match field {
            Some(f) => Some(f@),
            None => None,
        }),
{
    let m = meta_strings(info, defaults);
    let path = PathResolver::normalize(info.path.as_str());
    let status = status_string(&info.status);
    let mut out: Vec<char> = Vec::new();
    match field {
        Some(f) => {
            let fc = str_chars(f);
            if is_word(&fc, "name") {
                extend_chars(&mut out, &m[0]);
            } else if is_word(&fc, "version") {
                extend_chars(&mut out, &m[1]);
            } else if is_word(&fc, "author") {
                extend_chars(&mut out, &m[2]);
            } else if is_word(&fc, "description") {
                extend_chars(&mut out, &m[3]);
            } else if is_word(&fc, "license") {
                extend_chars(&mut out, &m[4]);
            } else if is_word(&fc, "url") {
                extend_chars(&mut out, &m[5]);
            } else if is_word(&fc, "path") {
                extend_str(&mut out, path.as_str());
            } else if is_word(&fc, "status") {
                extend_chars(&mut out, &status);
            } else if is_word(&fc, "systems") {
                extend_chars(&mut out, &m[6]);
            } else if is_word(&fc, "require") {
                extend_chars(&mut out, &m[7]);
            } else if is_word(&fc, "index") {
                push_decimal(&mut out, info.index);
            } else {
                extend_str(&mut out, "[GoldSrc.rs] Unknown field '");
                extend_chars(&mut out, &fc);
                extend_str(&mut out,
                    "'. Supported: name, version, author, description, license, url, path, status, systems, require, index.\n");
                return chars_to_string(&out);
            }
            extend_str(&mut out, "\n");
        },
        None => {
            extend_str(&mut out, "--- Plugin Info: ");
            extend_str(&mut out, info.name.as_str());
            extend_str(&mut out, " ---\n");
            extend_str(&mut out, "  Index:        #");
            push_decimal(&mut out, info.index);
            extend_str(&mut out, "\n");
            extend_str(&mut out, "  Path:         \"");
            extend_str(&mut out, path.as_str());
            extend_str(&mut out, "\"\n");
            extend_str(&mut out, "  Status:       ");
            extend_chars(&mut out, &status);
            extend_str(&mut out, "\n");
            extend_str(&mut out, "  Meta Name:    ");
            extend_chars(&mut out, &m[0]);
            extend_str(&mut out, "\n");
            extend_str(&mut out, "  Version:      ");
            extend_chars(&mut out, &m[1]);
            extend_str(&mut out, "\n");
            extend_str(&mut out, "  Author:       ");
            extend_chars(&mut out, &m[2]);
            extend_str(&mut out, "\n");
            extend_str(&mut out, "  Description:  ");
            extend_chars(&mut out, &m[3]);
            extend_str(&mut out, "\n");
            extend_str(&mut out, "  License:      ");
            extend_chars(&mut out, &m[4]);
            extend_str(&mut out, "\n");
            extend_str(&mut out, "  URL:          ");
            extend_chars(&mut out, &m[5]);
            extend_str(&mut out, "\n");
            extend_str(&mut out, "  Systems:      ");
            extend_chars(&mut out, &m[6]);
            extend_str(&mut out, "\n");
            extend_str(&mut out, "  Require:      ");
            extend_chars(&mut out, &m[7]);
            extend_str(&mut out, "\n");
            assert(out@ =~= full_report(*info, *defaults));
        },
    }
    chars_to_string(&out)
}

/// The message for a plugin `grs info` does not find.
pub fn plugin_not_found_message(query: &str) -> (r: String)
    ensures
        r@ == "[GoldSrc.rs] Plugin '"@ + query@ + "' not found.\n"@,
{
    let mut m: Vec<char> = Vec::new();
    extend_str(&mut m, "[GoldSrc.rs] Plugin '");
    extend_str(&mut m, query);
    extend_str(&mut m, "' not found.\n");
    chars_to_string(&m)
}

} // verus!
