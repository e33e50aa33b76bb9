//! `grs cmds` and `grs cmd`: the commands the loaded plugins register,
//! listed or looked up by name or alias, and the running of one.

use vstd::prelude::*;
use crate::manifest::CommandDefInfo;
use crate::plugin_info::{PluginMetadata, comma_joined, strings, list_or, join_list};
use crate::host_cli::{CliArg, asks_for, positional_values, any_flag};
use crate::text::{
    str_chars, chars_to_string, extend_str, extend_chars, decimal, push_decimal, trim, trim_chars, ascii_lower,
    to_ascii_lower, eq_ignore_ascii_case, eq_ignore_ascii_case_chars,
};

verus! {

/// Whether a character is one of the prefixes a chat command may carry.
pub open spec fn is_mark(c: char) -> bool {
    c == '/' || c == '!'
}

/// A name without its leading `/` and `!` characters.
pub open spec fn strip_marks(s: Seq<char>) -> Seq<char>
    decreases s.len(),
{
    if s.len() > 0 && is_mark(s[0]) {
        strip_marks(s.drop_first())
    } else {
        s
    }
}

/// A query as it is compared: trimmed and in ASCII lowercase.
pub open spec fn clean_query(q: Seq<char>) -> Seq<char> {
    trim(q).map_values(|c: char| ascii_lower(c))
}

/// Whether a name answers a cleaned query: equal ignoring ASCII case, with
/// or without the leading `/` and `!`.
pub open spec fn name_matches(name: Seq<char>, qc: Seq<char>) -> bool {
    eq_ignore_ascii_case(name, qc) || eq_ignore_ascii_case(strip_marks(name), strip_marks(qc))
}

/// Whether a command, by its name or one of its aliases, answers a query.
pub open spec fn query_matches(name: Seq<char>, aliases: Seq<Seq<char>>, query: Seq<char>) -> bool {
    name_matches(name, clean_query(query)) || exists|i: int|
        0 <= i < aliases.len() && name_matches(#[trigger] aliases[i], clean_query(query))
}

fn strip_marks_chars(s: &Vec<char>) -> (r: Vec<char>)
    ensures
        r@ == strip_marks(s@),
{
    let mut i: usize = 0;
    assert(s@.skip(0) =~= s@);
    while i < s.len() && (s[i] == '/' || s[i] == '!')
        invariant
            i <= s@.len(),
            strip_marks(s@) == strip_marks(s@.skip(i as int)),
        decreases s@.len() - i,
    {
        assert(s@.skip(i as int).drop_first() =~= s@.skip(i as int + 1));
        i = i + 1;
    }
    let mut r: Vec<char> = Vec::new();
    let mut k: usize = i;
    while k < s.len()
        invariant
            i <= k <= s@.len(),
            r@ == s@.subrange(i as int, k as int),
        decreases s@.len() - k,
    {
        r.push(s[k]);
        assert(r@ =~= s@.subrange(i as int, k as int + 1));
        k = k + 1;
    }
    assert(r@ =~= s@.skip(i as int));
    r
}

fn clean_query_chars(q: &str) -> (r: Vec<char>)
    ensures
        r@ == clean_query(q@),
{
    let t = trim_chars(&str_chars(q));
    let mut r: Vec<char> = Vec::new();
    let mut k: usize = 0;
    while k < t.len()
        invariant
            k <= t@.len(),
            r@ == t@.take(k as int).map_values(|c: char| ascii_lower(c)),
        decreases t@.len() - k,
    {
        r.push(to_ascii_lower(t[k]));
        assert(r@ =~= t@.take(k as int + 1).map_values(|c: char| ascii_lower(c)));
        k = k + 1;
    }
    assert(t@.take(k as int) =~= t@);
    r
}

fn name_matches_chars(name: &str, qc: &Vec<char>, qs: &Vec<char>) -> (r: bool)
    requires
        qs@ == strip_marks(qc@),
    ensures
        r == name_matches(name@, qc@),
{
    let n = str_chars(name);
    if eq_ignore_ascii_case_chars(&n, qc) {
        return true;
    }
    let ns = strip_marks_chars(&n);
    eq_ignore_ascii_case_chars(&ns, qs)
}

/// Whether a command answers a query of `grs cmds`: its name or one of its
/// aliases equals the trimmed query ignoring ASCII case, with or without
/// the leading `/` and `!`.
pub fn command_query_matches(name: &str, aliases: &Vec<String>, query: &str) -> (r: bool)
    ensures
        r == query_matches(name@, strings(aliases@), query@),
{
    let qc = clean_query_chars(query);
    let qs = strip_marks_chars(&qc);
    if name_matches_chars(name, &qc, &qs) {
        return true;
    }
    let mut i: usize = 0;
    while i < aliases.len()
        invariant
            i <= aliases@.len(),
            qc@ == clean_query(query@),
            qs@ == strip_marks(qc@),
            forall|j: int| 0 <= j < i ==> !name_matches(#[trigger] strings(aliases@)[j], qc@),
        decreases aliases@.len() - i,
    {
        if name_matches_chars(aliases[i].as_str(), &qc, &qs) {
            assert(name_matches(strings(aliases@)[i as int], clean_query(query@)));
            return true;
        }
        i = i + 1;
    }
    false
}

/// `s`, or `d` when `s` is empty.
pub open spec fn or_if_empty(s: Seq<char>, d: Seq<char>) -> Seq<char> {
    if s.len() == 0 { d } else { s }
}

/// The first lines of the block of a command: its name and its plugin.
pub open spec fn detail_head(m: PluginMetadata, c: CommandDefInfo) -> Seq<char> {
    "--- Command: "@ + c.name@ + " ---\n"@ + "  Plugin:      "@ + m.name@ + " v"@ + m.version@ + "\n"@
}

/// The description line of a command's block, when it has one.
pub open spec fn detail_desc(c: CommandDefInfo) -> Seq<char> {
    if c.description@.len() > 0 { "  Description: "@ + c.description@ + "\n"@ } else { Seq::empty() }
}

/// The usage line of a command's block: its usage, or its name.
pub open spec fn detail_usage(c: CommandDefInfo) -> Seq<char> {
    "  Usage:       "@ + or_if_empty(c.usage@, c.name@) + "\n"@
}

/// The aliases line of a command's block, when it has aliases.
pub open spec fn detail_aliases(c: CommandDefInfo) -> Seq<char> {
    if c.aliases@.len() > 0 { "  Aliases:     "@ + comma_joined(strings(c.aliases@)) + "\n"@ } else { Seq::empty() }
}

/// The access line of a command's block, and the blank line after it.
pub open spec fn detail_access(c: CommandDefInfo) -> Seq<char> {
    "  Access:      "@ + (match c.capability {
        Some(x) => x@,
        None => "Public (None)"@,
    }) + "\n"@ + "\n"@
}

/// The block `grs cmds <query>` prints for a command that answers it.
pub open spec fn def_detail(m: PluginMetadata, c: CommandDefInfo) -> Seq<char> {
    detail_head(m, c) + detail_desc(c) + detail_usage(c) + detail_aliases(c) + detail_access(c)
}

/// The blocks of the commands among `defs` that answer the query.
pub open spec fn defs_detail(m: PluginMetadata, defs: Seq<CommandDefInfo>, query: Seq<char>) -> Seq<char>
    decreases defs.len(),
{
    if defs.len() == 0 {
        Seq::empty()
    } else {
        defs_detail(m, defs.drop_last(), query) + (if query_matches(defs.last().name@, strings(defs.last().aliases@), query) {
            def_detail(m, defs.last())
        } else {
            Seq::empty()
        })
    }
}

/// The block for a plugin that lists only command names, one of which is
/// the query.
pub open spec fn name_detail(m: PluginMetadata, query: Seq<char>) -> Seq<char> {
    "--- Command: "@ + query + " ---\n"@
        + "  Plugin:      "@ + m.name@ + " v"@ + m.version@ + "\n"@
        + (if m.description@.len() > 0 { "  Description: "@ + m.description@ + "\n"@ } else { Seq::empty() })
        + "  Usage:       "@ + query + "\n"@
        + "  Access:      Public (None)\n\n"@
}

/// What one plugin answers to a query: its matching command definitions;
/// without definitions, its block when one of its command names equals the
/// cleaned query ignoring ASCII case.
pub open spec fn plugin_query_text(m: PluginMetadata, query: Seq<char>) -> Seq<char> {
    if m.command_defs@.len() > 0 {
        defs_detail(m, m.command_defs@, query)
    } else if exists|i: int| 0 <= i < m.commands@.len() && eq_ignore_ascii_case(#[trigger] m.commands@[i]@, clean_query(query)) {
        name_detail(m, query)
    } else {
        Seq::empty()
    }
}

/// What the plugins, in order, answer to a query; a plugin without
/// metadata answers nothing.
pub open spec fn query_text(ms: Seq<Option<PluginMetadata>>, query: Seq<char>) -> Seq<char>
    decreases ms.len(),
{
    if ms.len() == 0 {
        Seq::empty()
    } else {
        query_text(ms.drop_last(), query) + (match ms.last() {
            Some(m) => plugin_query_text(m, query),
            None => Seq::empty(),
        })
    }
}

/// The report of `grs cmds <query>`: the blocks of the commands that
/// answer it, or that none does.
pub open spec fn cmds_query_report(ms: Seq<Option<PluginMetadata>>, query: Seq<char>) -> Seq<char> {
    let t = query_text(ms, query);
    if t.len() == 0 {
        "[GoldSrc.rs] Command '"@ + query
            + "' not found in any active plugin.\nType 'grs cmds' to list all registered commands.\n"@
    } else {
        t
    }
}

/// The number of commands a plugin registers: its definitions, or else its
/// command names.
pub open spec fn cmd_count(m: Option<PluginMetadata>) -> nat {
    match m {
        Some(x) => if x.command_defs@.len() > 0 { x.command_defs@.len() } else { x.commands@.len() },
        None => 0,
    }
}

/// The number of commands of the plugins.
pub open spec fn total_cmds(ms: Seq<Option<PluginMetadata>>) -> nat
    decreases ms.len(),
{
    if ms.len() == 0 {
        0
    } else {
        total_cmds(ms.drop_last()) + cmd_count(ms.last())
    }
}

/// The main line of one command in `grs cmds`: its usage or name, and
/// its aliases.
pub open spec fn line_main(c: CommandDefInfo) -> Seq<char> {
    "  * "@ + or_if_empty(c.usage@, c.name@)
        + (if c.aliases@.len() > 0 { " (aliases: "@ + comma_joined(strings(c.aliases@)) + ")"@ } else { Seq::empty() })
        + "\n"@
}

/// The description line of one command in `grs cmds`, when it has a
/// description or a capability.
pub open spec fn line_desc(c: CommandDefInfo) -> Seq<char> {
    if c.description@.len() > 0 || c.capability is Some {
        "    "@ + c.description@ + (match c.capability {
            Some(x) => " [requires: "@ + x@ + "]"@,
            None => Seq::empty(),
        }) + "\n"@
    } else {
        Seq::empty()
    }
}

/// The lines of one command in `grs cmds`.
pub open spec fn def_line(c: CommandDefInfo) -> Seq<char> {
    line_main(c) + line_desc(c)
}

/// The lines of command definitions, in order.
pub open spec fn def_lines(defs: Seq<CommandDefInfo>) -> Seq<char>
    decreases defs.len(),
{
    if defs.len() == 0 {
        Seq::empty()
    } else {
        def_lines(defs.drop_last()) + def_line(defs.last())
    }
}

/// The lines of command names, in order.
pub open spec fn name_lines(names: Seq<Seq<char>>) -> Seq<char>
    decreases names.len(),
{
    if names.len() == 0 {
        Seq::empty()
    } else {
        name_lines(names.drop_last()) + "  * "@ + names.last() + "\n"@
    }
}

/// The heading of a plugin in `grs cmds`.
pub open spec fn plugin_heading(m: PluginMetadata) -> Seq<char> {
    "\n["@ + m.name@ + " v"@ + m.version@ + "]"@ + (if m.description@.len() > 0 { " - "@ + m.description@ } else { Seq::empty() }) + "\n"@
}

/// What `grs cmds` lists of one plugin.
pub open spec fn plugin_list_text(m: PluginMetadata) -> Seq<char> {
    if m.command_defs@.len() > 0 {
        plugin_heading(m) + def_lines(m.command_defs@)
    } else if m.commands@.len() > 0 {
        plugin_heading(m) + name_lines(strings(m.commands@))
    } else {
        Seq::empty()
    }
}

/// What `grs cmds` lists of the plugins, in order.
pub open spec fn list_text(ms: Seq<Option<PluginMetadata>>) -> Seq<char>
    decreases ms.len(),
{
    if ms.len() == 0 {
        Seq::empty()
    } else {
        list_text(ms.drop_last()) + (match ms.last() {
            Some(m) => plugin_list_text(m),
            None => Seq::empty(),
        })
    }
}

/// The report of `grs cmds`: the number of commands, then each plugin's.
pub open spec fn cmds_list_report(ms: Seq<Option<PluginMetadata>>) -> Seq<char> {
    "--- Registered Plugin Commands ("@ + decimal(total_cmds(ms)) + ") ---\n"@ + (if total_cmds(ms) == 0 {
        "  (No commands registered)\n"@
    } else {
        list_text(ms)
    })
}

fn push_string(out: &mut Vec<char>, s: &String)
    ensures
        final(out)@ == old(out)@ + s@,
{
    extend_str(out, s.as_str());
}

fn push_joined(out: &mut Vec<char>, v: &Vec<String>)
    requires
        v@.len() > 0,
    ensures
        final(out)@ == old(out)@ + comma_joined(strings(v@)),
{
    let j = join_list(v, "");
    extend_chars(out, &j);
}

fn push_detail_head(out: &mut Vec<char>, m: &PluginMetadata, c: &CommandDefInfo)
    ensures
        final(out)@ == old(out)@ + detail_head(*m, *c),
{
    let ghost base = out@;
    extend_str(out, "--- Command: ");
    push_string(out, &c.name);
    extend_str(out, " ---\n");
    extend_str(out, "  Plugin:      ");
    push_string(out, &m.name);
    extend_str(out, " v");
    push_string(out, &m.version);
    extend_str(out, "\n");
    assert(out@ =~= base + detail_head(*m, *c));
}

fn push_detail_rest(out: &mut Vec<char>, c: &CommandDefInfo)
    ensures
        final(out)@ == old(out)@ + detail_desc(*c) + detail_usage(*c),
{
    let ghost base = out@;
    if str_chars(c.description.as_str()).len() > 0 {
        extend_str(out, "  Description: ");
        push_string(out, &c.description);
        extend_str(out, "\n");
    }
    assert(out@ =~= base + detail_desc(*c));
    let ghost a1 = out@;
    extend_str(out, "  Usage:       ");
    if str_chars(c.usage.as_str()).len() > 0 {
        push_string(out, &c.usage);
    } else {
        push_string(out, &c.name);
    }
    extend_str(out, "\n");
    assert(out@ =~= a1 + detail_usage(*c));
}

fn push_detail_tail(out: &mut Vec<char>, c: &CommandDefInfo)
    ensures
        final(out)@ == old(out)@ + detail_aliases(*c) + detail_access(*c),
{
    let ghost base = out@;
    if c.aliases.len() > 0 {
        extend_str(out, "  Aliases:     ");
        push_joined(out, &c.aliases);
        extend_str(out, "\n");
    }
    assert(out@ =~= base + detail_aliases(*c));
    let ghost a1 = out@;
    extend_str(out, "  Access:      ");
    match &c.capability {
        Some(x) => push_string(out, x),
        None => extend_str(out, "Public (None)"),
    }
    extend_str(out, "\n");
    extend_str(out, "\n");
    assert(out@ =~= a1 + detail_access(*c));
}

fn push_def_detail(out: &mut Vec<char>, m: &PluginMetadata, c: &CommandDefInfo)
    ensures
        final(out)@ == old(out)@ + def_detail(*m, *c),
{
    let ghost base = out@;
    push_detail_head(out, m, c);
    push_detail_rest(out, c);
    push_detail_tail(out, c);
    assert(out@ =~= base + def_detail(*m, *c));
}

fn push_name_detail(out: &mut Vec<char>, m: &PluginMetadata, query: &str)
    ensures
        final(out)@ == old(out)@ + name_detail(*m, query@),
{
    let ghost base = out@;
    extend_str(out, "--- Command: ");
    extend_str(out, query);
    extend_str(out, " ---\n");
    extend_str(out, "  Plugin:      ");
    push_string(out, &m.name);
    extend_str(out, " v");
    push_string(out, &m.version);
    extend_str(out, "\n");
    if str_chars(m.description.as_str()).len() > 0 {
        extend_str(out, "  Description: ");
        push_string(out, &m.description);
        extend_str(out, "\n");
    }
    extend_str(out, "  Usage:       ");
    extend_str(out, query);
    extend_str(out, "\n");
    extend_str(out, "  Access:      Public (None)\n\n");
    assert(out@ =~= base + name_detail(*m, query@));
}

fn push_plugin_query(out: &mut Vec<char>, m: &PluginMetadata, query: &str)
    ensures
        final(out)@ == old(out)@ + plugin_query_text(*m, query@),
{
    let ghost base = out@;
    if m.command_defs.len() > 0 {
        let mut k: usize = 0;
        while k < m.command_defs.len()
            invariant
                k <= m.command_defs@.len(),
                m.command_defs@.len() > 0,
                out@ == base + defs_detail(*m, m.command_defs@.take(k as int), query@),
            decreases m.command_defs@.len() - k,
        {
            let c = &m.command_defs[k];
            assert(m.command_defs@.take(k as int + 1).drop_last() =~= m.command_defs@.take(k as int));
            if command_query_matches(c.name.as_str(), &c.aliases, query) {
                push_def_detail(out, m, c);
            }
            assert(out@ =~= base + defs_detail(*m, m.command_defs@.take(k as int + 1), query@));
            k = k + 1;
        }
        assert(m.command_defs@.take(k as int) =~= m.command_defs@);
    } else {
        let qc = clean_query_chars(query);
        let mut found = false;
        let mut k: usize = 0;
        while k < m.commands.len()
            invariant
                k <= m.commands@.len(),
                qc@ == clean_query(query@),
                found <==> exists|i: int| 0 <= i < k && eq_ignore_ascii_case(#[trigger] m.commands@[i]@, qc@),
            decreases m.commands@.len() - k,
        {
            let c = str_chars(m.commands[k].as_str());
            if eq_ignore_ascii_case_chars(&c, &qc) {
                found = true;
            }
            k = k + 1;
        }
        if found {
            push_name_detail(out, m, query);
        }
    }
}

fn push_line_main(out: &mut Vec<char>, c: &CommandDefInfo)
    ensures
        final(out)@ == old(out)@ + line_main(*c),
{
    let ghost base = out@;
    extend_str(out, "  * ");
    if str_chars(c.usage.as_str()).len() > 0 {
        push_string(out, &c.usage);
    } else {
        push_string(out, &c.name);
    }
    let ghost a1 = out@;
    if c.aliases.len() > 0 {
        extend_str(out, " (aliases: ");
        push_joined(out, &c.aliases);
        extend_str(out, ")");
    }
    assert(out@ =~= a1 + (if c.aliases@.len() > 0 { " (aliases: "@ + comma_joined(strings(c.aliases@)) + ")"@ } else {
        Seq::empty()
    }));
    extend_str(out, "\n");
    assert(out@ =~= base + line_main(*c));
}

fn push_line_desc(out: &mut Vec<char>, c: &CommandDefInfo)
    ensures
        final(out)@ == old(out)@ + line_desc(*c),
{
    let ghost base = out@;
    let has_cap = match &c.capability {
        Some(_) => true,
        None => false,
    };
    if str_chars(c.description.as_str()).len() > 0 || has_cap {
        extend_str(out, "    ");
        push_string(out, &c.description);
        match &c.capability {
            Some(x) => {
                extend_str(out, " [requires: ");
                push_string(out, x);
                extend_str(out, "]");
            },
            None => {},
        }
        extend_str(out, "\n");
    }
    assert(out@ =~= base + line_desc(*c));
}

fn push_def_line(out: &mut Vec<char>, c: &CommandDefInfo)
    ensures
        final(out)@ == old(out)@ + def_line(*c),
{
    let ghost base = out@;
    push_line_main(out, c);
    push_line_desc(out, c);
    assert(out@ =~= base + def_line(*c));
}

fn push_plugin_list(out: &mut Vec<char>, m: &PluginMetadata)
    ensures
        final(out)@ == old(out)@ + plugin_list_text(*m),
{
    let ghost base = out@;
    if m.command_defs.len() == 0 && m.commands.len() == 0 {
        assert(out@ =~= base + plugin_list_text(*m));
        return;
    }
    extend_str(out, "\n[");
    push_string(out, &m.name);
    extend_str(out, " v");
    push_string(out, &m.version);
    extend_str(out, "]");
    if str_chars(m.description.as_str()).len() > 0 {
        extend_str(out, " - ");
        push_string(out, &m.description);
    }
    extend_str(out, "\n");
    let ghost h = out@;
    assert(h =~= base + plugin_heading(*m));
    if m.command_defs.len() > 0 {
        let mut k: usize = 0;
        while k < m.command_defs.len()
            invariant
                k <= m.command_defs@.len(),
                out@ == h + def_lines(m.command_defs@.take(k as int)),
            decreases m.command_defs@.len() - k,
        {
            assert(m.command_defs@.take(k as int + 1).drop_last() =~= m.command_defs@.take(k as int));
            push_def_line(out, &m.command_defs[k]);
            assert(out@ =~= h + def_lines(m.command_defs@.take(k as int + 1)));
            k = k + 1;
        }
        assert(m.command_defs@.take(k as int) =~= m.command_defs@);
    } else {
        let mut k: usize = 0;
        while k < m.commands.len()
            invariant
                k <= m.commands@.len(),
                out@ == h + name_lines(strings(m.commands@.take(k as int))),
            decreases m.commands@.len() - k,
        {
            assert(strings(m.commands@.take(k as int + 1)).drop_last() =~= strings(m.commands@.take(k as int)));
            extend_str(out, "  * ");
            push_string(out, &m.commands[k]);
            extend_str(out, "\n");
            assert(out@ =~= h + name_lines(strings(m.commands@.take(k as int + 1))));
            k = k + 1;
        }
        assert(m.commands@.take(k as int) =~= m.commands@);
    }
}

proof fn lemma_total_prefix(ms: Seq<Option<PluginMetadata>>, k: int)
    requires
        0 <= k <= ms.len(),
    ensures
        total_cmds(ms.take(k)) <= total_cmds(ms),
    decreases ms.len() - k,
{
    if k < ms.len() {
        lemma_total_prefix(ms, k + 1);
        assert(ms.take(k + 1).drop_last() =~= ms.take(k));
    } else {
        assert(ms.take(k) =~= ms);
    }
}

/// The report of `grs cmds`: with a query, the commands that answer it;
/// without, every plugin's commands.
pub fn cmds_report(plugins: &Vec<Option<PluginMetadata>>, query: Option<&str>) -> (r: String)
    requires
        total_cmds(plugins@) <= usize::MAX,
    ensures
        r@ == match query {
            Some(q) => cmds_query_report(plugins@, q@),
            None => cmds_list_report(plugins@),
        },
{
    let mut out: Vec<char> = Vec::new();
    match query {
        Some(q) => {
            let mut k: usize = 0;
            while k < plugins.len()
                invariant
                    k <= plugins@.len(),
                    out@ == query_text(plugins@.take(k as int), q@),
                decreases plugins@.len() - k,
            {
                assert(plugins@.take(k as int + 1).drop_last() =~= plugins@.take(k as int));
                match &plugins[k] {
                    Some(m) => push_plugin_query(&mut out, m, q),
                    None => {},
                }
                assert(out@ =~= query_text(plugins@.take(k as int + 1), q@));
                k = k + 1;
            }
            assert(plugins@.take(k as int) =~= plugins@);
            if out.len() == 0 {
                extend_str(&mut out, "[GoldSrc.rs] Command '");
                extend_str(&mut out, q);
                extend_str(&mut out, "' not found in any active plugin.\nType 'grs cmds' to list all registered commands.\n");
            }
            chars_to_string(&out)
        },
        None => {
            let mut total: usize = 0;
            let mut k: usize = 0;
            while k < plugins.len()
                invariant
                    k <= plugins@.len(),
                    total == total_cmds(plugins@.take(k as int)),
                    total_cmds(plugins@) <= usize::MAX,
                decreases plugins@.len() - k,
            {
                assert(plugins@.take(k as int + 1).drop_last() =~= plugins@.take(k as int));
                proof {
                    lemma_total_prefix(plugins@, k as int + 1);
                }
                let n: usize = match &plugins[k] {
                    Some(m) => if m.command_defs.len() > 0 { m.command_defs.len() } else { m.commands.len() },
                    None => 0,
                };
                total = total + n;
                k = k + 1;
            }
            assert(plugins@.take(k as int) =~= plugins@);
            extend_str(&mut out, "--- Registered Plugin Commands (");
            push_decimal(&mut out, total);
            extend_str(&mut out, ") ---\n");
            if total == 0 {
                extend_str(&mut out, "  (No commands registered)\n");
            } else {
                let ghost h = out@;
                let mut j: usize = 0;
                while j < plugins.len()
                    invariant
                        j <= plugins@.len(),
                        out@ == h + list_text(plugins@.take(j as int)),
                    decreases plugins@.len() - j,
                {
                    assert(plugins@.take(j as int + 1).drop_last() =~= plugins@.take(j as int));
                    match &plugins[j] {
                        Some(m) => push_plugin_list(&mut out, m),
                        None => {},
                    }
                    assert(out@ =~= h + list_text(plugins@.take(j as int + 1)));
                    j = j + 1;
                }
                assert(plugins@.take(j as int) =~= plugins@);
            }
            chars_to_string(&out)
        },
    }
}

/// What `grs cmds` was asked to do.
pub enum CmdsAction {
    /// Print the command's help.
    Help,
    /// Report that the plugin host is not running.
    NotInitialized,
    /// Look up the commands that answer this query.
    Query(String),
    /// List every plugin's commands.
    ListAll,
}

/// Decides `grs cmds` from its tokens: help when asked, else that the host
/// is not running, else a lookup of the first name given, else the list.
pub fn plan_cmds(tokens: &Vec<CliArg>, initialized: bool) -> (r: CmdsAction)
    ensures
        asks_for(tokens@, 'h', "help"@) ==> r is Help,
        !asks_for(tokens@, 'h', "help"@) && !initialized ==> r is NotInitialized,
        !asks_for(tokens@, 'h', "help"@) && initialized ==> match r {
            CmdsAction::Query(q) => positional_values(tokens@).len() > 0 && q@ == positional_values(tokens@)[0],
            CmdsAction::ListAll => positional_values(tokens@).len() == 0,
            _ => false,
        },
{
    if any_flag(tokens, 'h', "help") {
        return CmdsAction::Help;
    }
    if !initialized {
        return CmdsAction::NotInitialized;
    }
    let names = positional_strings(tokens);
    if names.len() > 0 {
        CmdsAction::Query(names[0].clone())
    } else {
        CmdsAction::ListAll
    }
}

/// The positional arguments among the tokens, in order.
pub fn positional_strings(tokens: &Vec<CliArg>) -> (r: Vec<String>)
    ensures
        strings(r@) == positional_values(tokens@),
{
    let mut out: Vec<String> = Vec::new();
    let mut i: usize = 0;
    while i < tokens.len()
        invariant
            i <= tokens@.len(),
            strings(out@) == positional_values(tokens@.take(i as int)),
        decreases tokens@.len() - i,
    {
        assert(tokens@.take(i as int + 1).drop_last() =~= tokens@.take(i as int));
        match &tokens[i] {
            CliArg::Value(v) => {
                let ghost before = strings(out@);
                out.push(v.clone());
                assert(strings(out@) =~= before.push(v@));
            },
            _ => {},
        }
        i = i + 1;
    }
    assert(tokens@.take(i as int) =~= tokens@);
    out
}

/// Strings joined by single spaces.
pub open spec fn space_joined(v: Seq<Seq<char>>) -> Seq<char>
    decreases v.len(),
{
    if v.len() == 0 {
        Seq::empty()
    } else if v.len() == 1 {
        v[0]
    } else {
        space_joined(v.drop_last()) + " "@ + v.last()
    }
}

/// What `grs cmd` was asked to do.
pub enum CmdAction {
    /// Print the command's help.
    Help,
    /// Run the command `name` with these arguments.
    Execute(String, String),
}

/// Decides `grs cmd` from its tokens: help when asked or when no command is
/// named, else the first name with the other names joined by spaces as its
/// arguments.
pub fn plan_cmd(tokens: &Vec<CliArg>) -> (r: CmdAction)
    ensures
        asks_for(tokens@, 'h', "help"@) || positional_values(tokens@).len() == 0 ==> r is Help,
        !asks_for(tokens@, 'h', "help"@) && positional_values(tokens@).len() > 0 ==> (r matches CmdAction::Execute(n, a)
            && n@ == positional_values(tokens@)[0] && a@ == space_joined(positional_values(tokens@).drop_first())),
{
    if any_flag(tokens, 'h', "help") {
        return CmdAction::Help;
    }
    let names = positional_strings(tokens);
    if names.len() == 0 {
        return CmdAction::Help;
    }
    let ghost p = strings(names@);
    let mut args: Vec<char> = Vec::new();
    let mut k: usize = 1;
    while k < names.len()
        invariant
            1 <= k <= names@.len(),
            p == strings(names@),
            args@ == space_joined(p.subrange(1, k as int)),
        decreases names@.len() - k,
    {
        assert(p.subrange(1, k as int + 1).drop_last() =~= p.subrange(1, k as int));
        if k > 1 {
            extend_str(&mut args, " ");
        }
        push_string(&mut args, &names[k]);
        proof {
            if k > 1 {
                assert(args@ =~= space_joined(p.subrange(1, k as int + 1)));
            } else {
                assert(args@ =~= space_joined(p.subrange(1, k as int + 1)));
            }
        }
        k = k + 1;
    }
    assert(p.subrange(1, k as int) =~= p.drop_first());
    CmdAction::Execute(names[0].clone(), chars_to_string(&args))
}

/// What `grs cmd` prints when no plugin handled the command.
pub fn cmd_not_handled_message(name: &str) -> (r: String)
    ensures
        r@ == "[GoldSrc.rs] Command '"@ + name@ + "' was not handled by any plugin.\n"@,
{
    let mut m: Vec<char> = Vec::new();
    extend_str(&mut m, "[GoldSrc.rs] Command '");
    extend_str(&mut m, name);
    extend_str(&mut m, "' was not handled by any plugin.\n");
    chars_to_string(&m)
}

} // verus!
