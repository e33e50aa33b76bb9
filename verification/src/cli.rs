//! Declarative specifications of the built-in management commands, and the
//! help texts printed from them.

use vstd::prelude::*;
use crate::text::{str_chars, chars_to_string, extend_str, extend_chars, eq_ignore_ascii_case, eq_ignore_ascii_case_str};

verus! {

/// Specification metadata of a built-in command.
pub struct CommandSpec {
    /// Canonical command name.
    pub name: &'static str,
    /// Command aliases.
    pub aliases: Vec<&'static str>,
    /// Grouping category for help output.
    pub category: &'static str,
    /// Brief one-line summary.
    pub summary: &'static str,
    /// Syntax usage string.
    pub usage: &'static str,
    /// Option flags and their descriptions.
    pub options: Vec<(&'static str, &'static str)>,
    /// Usage examples.
    pub examples: Vec<&'static str>,
}

/// The characters of each string.
pub open spec fn strs_view(v: Seq<&str>) -> Seq<Seq<char>> {
    v.map_values(|s: &str| s@)
}

/// Whether a command with this name and these aliases answers to `query`,
/// ignoring ASCII case.
pub open spec fn answers_to(name: Seq<char>, aliases: Seq<Seq<char>>, query: Seq<char>) -> bool {
    eq_ignore_ascii_case(name, query) || exists|i: int| 0 <= i < aliases.len() && eq_ignore_ascii_case(#[trigger] aliases[i], query)
}

impl CommandSpec {
    /// Whether this command answers to `query` by name or alias, ignoring
    /// ASCII case.
    pub fn matches(&self, query: &str) -> (r: bool)
        ensures
            r == answers_to(self.name@, strs_view(self.aliases@), query@),
    {
        if eq_ignore_ascii_case_str(self.name, query) {
            return true;
        }
        let mut k: usize = 0;
        while k < self.aliases.len()
            invariant
                k <= self.aliases@.len(),
                !eq_ignore_ascii_case(self.name@, query@),
                forall|i: int| 0 <= i < k ==> !eq_ignore_ascii_case(#[trigger] strs_view(self.aliases@)[i], query@),
            decreases self.aliases@.len() - k,
        {
            if eq_ignore_ascii_case_str(self.aliases[k], query) {
                assert(strs_view(self.aliases@)[k as int] == self.aliases@[k as int]@);
                return true;
            }
            k = k + 1;
        }
        false
    }
}

/// The names of the built-in commands, in table order.
pub open spec fn builtin_names() -> Seq<Seq<char>> {
    seq!["list"@, "info"@, "cmds"@, "cmd"@, "load"@, "unload"@, "reload"@, "pause"@, "unpause"@, "status"@, "version"@, "help"@]
}

/// The aliases of the built-in commands, in table order.
pub open spec fn builtin_aliases() -> Seq<Seq<Seq<char>>> {
    seq![seq!["ls"@, "ps"@], seq!["show"@], seq!["commands"@], seq!["exec"@], seq![], seq![], seq![], seq![], seq!["resume"@], seq![], seq!["ver"@], seq!["?"@]]
}

/// The categories of the built-in commands, in table order.
pub open spec fn builtin_categories() -> Seq<Seq<char>> {
    seq!["Inspection & Debugging"@, "Inspection & Debugging"@, "Inspection & Debugging"@, "Execution Control"@, "Plugin Lifecycle"@, "Plugin Lifecycle"@, "Plugin Lifecycle"@, "Execution Control"@, "Execution Control"@, "System"@, "System"@, "System"@]
}

/// The one-line summaries of the built-in commands, in table order.
pub open spec fn builtin_summaries() -> Seq<Seq<char>> {
    seq![
        "List loaded WASM plugins in hierarchical tree view or flat list"@,
        "Show detailed metadata, systems, exports, and path of a plugin"@,
        "List registered plugin commands or inspect a specific command"@,
        "Execute a plugin command directly through the host dispatcher"@,
        "Load WASM plugin component(s) from cstrike/goldsrc/plugins/"@,
        "Gracefully unload one or all loaded plugins"@,
        "Reload plugin(s) from disk, refreshing bytecode and exports"@,
        "Suspend plugin execution (skips frame and event dispatches)"@,
        "Resume execution of paused plugin(s)"@,
        "Show host runtime stats (active plugins, hot-reload watchers, engine)"@,
        "Show host runtime and GoldSrc.rs engine version info"@,
        "Display general help or specialized help for a command"@,
    ]
}

/// The usage lines of the built-in commands, in table order.
pub open spec fn builtin_usages() -> Seq<Seq<char>> {
    seq![
        "grs list [OPTIONS]"@,
        "grs info <name|index...> [OPTIONS]"@,
        "grs cmds [COMMAND_NAME]"@,
        "grs cmd <command_name> [args...]"@,
        "grs load <file1> [file2...]"@,
        "grs unload <name|index...> [-a|--all]"@,
        "grs reload <name|index...> [-a|--all]"@,
        "grs pause <name|index...> [-a|--all]"@,
        "grs unpause <name|index...> [-a|--all]"@,
        "grs status"@,
        "grs version"@,
        "grs help [COMMAND]"@,
    ]
}

/// The options of the built-in commands (flag, description), in table order.
pub open spec fn builtin_options() -> Seq<Seq<(Seq<char>, Seq<char>)>> {
    seq![
        seq![
            ("-p, --page <N>"@, "Show specific page (default: 1)"@),
            ("-s, --size <N>"@, "Set page size (default: 5)"@),
            ("-a, --all"@, "Show all plugins (ignore pagination)"@),
            ("--flat"@, "Disable bundle grouping and display as flat list"@),
            ("--paused"@, "Show only paused plugins"@),
        ],
        seq![("-f, --field <FIELD>"@, "Print only a specific field value (e.g. name, version, author, desc, license, url, path, status, systems, deps)"@)],
        seq![],
        seq![],
        seq![],
        seq![("-a, --all"@, "Unload all currently loaded plugins"@)],
        seq![("-a, --all"@, "Reload all currently loaded plugins"@)],
        seq![("-a, --all"@, "Pause all loaded plugins"@)],
        seq![("-a, --all"@, "Unpause all plugins"@)],
        seq![],
        seq![],
        seq![],
    ]
}

/// The examples of the built-in commands, in table order.
pub open spec fn builtin_examples() -> Seq<Seq<Seq<char>>> {
    seq![
        seq!["grs list"@, "grs list -p 2"@, "grs list --flat"@, "grs list -a"@, "grs list --paused"@],
        seq!["grs info vip_core"@, "grs info 0"@, "grs info test_suite -f version"@, "grs info vip_menu --field license"@],
        seq!["grs cmds"@, "grs cmds vip"@, "grs cmds admin_slay"@],
        seq!["grs cmd vip_add 1"@, "grs cmd test_cvar sv_gravity 600"@],
        seq!["grs load admin_system.wasm"@, "grs load vip_core vip_menu"@],
        seq!["grs unload admin_system"@, "grs unload 1"@, "grs unload --all"@],
        seq!["grs reload test_suite"@, "grs reload 0"@, "grs reload --all"@],
        seq!["grs pause vip_menu"@, "grs pause --all"@],
        seq!["grs unpause vip_menu"@, "grs unpause -a"@],
        seq!["grs status"@],
        seq!["grs version"@],
        seq!["grs help"@, "grs help list"@, "grs help reload"@],
    ]
}

/// Option pairs as character sequences.
pub open spec fn opts_view(o: Seq<(&str, &str)>) -> Seq<(Seq<char>, Seq<char>)> {
    o.map_values(|p: (&str, &str)| (p.0@, p.1@))
}

/// Command `c` is the built-in command at position `k` of the table.
pub open spec fn is_builtin(c: CommandSpec, k: int) -> bool {
    &&& c.name@ == builtin_names()[k]
    &&& strs_view(c.aliases@) == builtin_aliases()[k]
    &&& c.category@ == builtin_categories()[k]
    &&& c.summary@ == builtin_summaries()[k]
    &&& c.usage@ == builtin_usages()[k]
    &&& opts_view(c.options@) == builtin_options()[k]
    &&& strs_view(c.examples@) == builtin_examples()[k]
}

/// `t` is the table of built-in commands, in order.
pub open spec fn is_builtin_table(t: Seq<CommandSpec>) -> bool {
    &&& t.len() == builtin_names().len()
    &&& forall|k: int| 0 <= k < t.len() ==> is_builtin(#[trigger] t[k], k)
}

/// The position of the first built-in command from `k` on that answers to
/// `query`.
pub open spec fn first_builtin_from(query: Seq<char>, k: int) -> Option<int>
    decreases builtin_names().len() - k,
{
    if k < 0 || k >= builtin_names().len() {
        None
    } else if answers_to(builtin_names()[k], builtin_aliases()[k], query) {
        Some(k)
    } else {
        first_builtin_from(query, k + 1)
    }
}

/// The canonical table of the built-in management commands.
pub fn builtin_commands() -> (t: Vec<CommandSpec>)
    ensures
        is_builtin_table(t@),
{
    let mut t: Vec<CommandSpec> = Vec::new();
    t.push(CommandSpec {
        name: "list",
        aliases: vec!["ls", "ps"],
        category: "Inspection & Debugging",
        summary: "List loaded WASM plugins in hierarchical tree view or flat list",
        usage: "grs list [OPTIONS]",
        options: vec![("-p, --page <N>", "Show specific page (default: 1)"), ("-s, --size <N>", "Set page size (default: 5)"), ("-a, --all", "Show all plugins (ignore pagination)"), ("--flat", "Disable bundle grouping and display as flat list"), ("--paused", "Show only paused plugins")],
        examples: vec!["grs list", "grs list -p 2", "grs list --flat", "grs list -a", "grs list --paused"],
    });
    t.push(CommandSpec {
        name: "info",
        aliases: vec!["show"],
        category: "Inspection & Debugging",
        summary: "Show detailed metadata, systems, exports, and path of a plugin",
        usage: "grs info <name|index...> [OPTIONS]",
        options: vec![("-f, --field <FIELD>", "Print only a specific field value (e.g. name, version, author, desc, license, url, path, status, systems, deps)")],
        examples: vec!["grs info vip_core", "grs info 0", "grs info test_suite -f version", "grs info vip_menu --field license"],
    });
    t.push(CommandSpec {
        name: "cmds",
        aliases: vec!["commands"],
        category: "Inspection & Debugging",
        summary: "List registered plugin commands or inspect a specific command",
        usage: "grs cmds [COMMAND_NAME]",
        options: vec![],
        examples: vec!["grs cmds", "grs cmds vip", "grs cmds admin_slay"],
    });
    t.push(CommandSpec {
        name: "cmd",
        aliases: vec!["exec"],
        category: "Execution Control",
        summary: "Execute a plugin command directly through the host dispatcher",
        usage: "grs cmd <command_name> [args...]",
        options: vec![],
        examples: vec!["grs cmd vip_add 1", "grs cmd test_cvar sv_gravity 600"],
    });
    t.push(CommandSpec {
        name: "load",
        aliases: vec![],
        category: "Plugin Lifecycle",
        summary: "Load WASM plugin component(s) from cstrike/goldsrc/plugins/",
        usage: "grs load <file1> [file2...]",
        options: vec![],
        examples: vec!["grs load admin_system.wasm", "grs load vip_core vip_menu"],
    });
    t.push(CommandSpec {
        name: "unload",
        aliases: vec![],
        category: "Plugin Lifecycle",
        summary: "Gracefully unload one or all loaded plugins",
        usage: "grs unload <name|index...> [-a|--all]",
        options: vec![("-a, --all", "Unload all currently loaded plugins")],
        examples: vec!["grs unload admin_system", "grs unload 1", "grs unload --all"],
    });
    t.push(CommandSpec {
        name: "reload",
        aliases: vec![],
        category: "Plugin Lifecycle",
        summary: "Reload plugin(s) from disk, refreshing bytecode and exports",
        usage: "grs reload <name|index...> [-a|--all]",
        options: vec![("-a, --all", "Reload all currently loaded plugins")],
        examples: vec!["grs reload test_suite", "grs reload 0", "grs reload --all"],
    });
    t.push(CommandSpec {
        name: "pause",
        aliases: vec![],
        category: "Execution Control",
        summary: "Suspend plugin execution (skips frame and event dispatches)",
        usage: "grs pause <name|index...> [-a|--all]",
        options: vec![("-a, --all", "Pause all loaded plugins")],
        examples: vec!["grs pause vip_menu", "grs pause --all"],
    });
    t.push(CommandSpec {
        name: "unpause",
        aliases: vec!["resume"],
        category: "Execution Control",
        summary: "Resume execution of paused plugin(s)",
        usage: "grs unpause <name|index...> [-a|--all]",
        options: vec![("-a, --all", "Unpause all plugins")],
        examples: vec!["grs unpause vip_menu", "grs unpause -a"],
    });
    t.push(CommandSpec {
        name: "status",
        aliases: vec![],
        category: "System",
        summary: "Show host runtime stats (active plugins, hot-reload watchers, engine)",
        usage: "grs status",
        options: vec![],
        examples: vec!["grs status"],
    });
    t.push(CommandSpec {
        name: "version",
        aliases: vec!["ver"],
        category: "System",
        summary: "Show host runtime and GoldSrc.rs engine version info",
        usage: "grs version",
        options: vec![],
        examples: vec!["grs version"],
    });
    t.push(CommandSpec {
        name: "help",
        aliases: vec!["?"],
        category: "System",
        summary: "Display general help or specialized help for a command",
        usage: "grs help [COMMAND]",
        options: vec![],
        examples: vec!["grs help", "grs help list", "grs help reload"],
    });
    proof {
        assert forall|k: int| 0 <= k < t@.len() implies is_builtin(#[trigger] t@[k], k) by {
            assert(strs_view(t@[k].aliases@) =~= builtin_aliases()[k]);
            assert(opts_view(t@[k].options@) =~= builtin_options()[k]);
            assert(strs_view(t@[k].examples@) =~= builtin_examples()[k]);
        }
    }
    t
}

/// Finds a built-in command by name or alias, ignoring ASCII case.
pub fn find_command_spec(query: &str) -> (r: Option<CommandSpec>)
    ensures
        match first_builtin_from(query@, 0) {
            Some(k) => r matches Some(s) && is_builtin(s, k),
            None => r is None,
        },
{
    let mut table = builtin_commands();
    let n = table.len();
    let mut k: usize = 0;
    while k < n
        invariant
            n == table@.len(),
            is_builtin_table(table@),
            k <= n,
            first_builtin_from(query@, 0) == first_builtin_from(query@, k as int),
        decreases n - k,
    {
        if table[k].matches(query) {
            let s = table.swap_remove(k);
            return Some(s);
        }
        k = k + 1;
    }
    None
}

/// `s` padded with spaces on the right to `w` characters (`{:<w}`).
pub open spec fn pad_right(s: Seq<char>, w: nat) -> Seq<char> {
    if s.len() < w {
        s + Seq::new((w - s.len()) as nat, |i: int| ' ')
    } else {
        s
    }
}

fn push_padded(dst: &mut Vec<char>, s: &str, w: usize)
    ensures
        final(dst)@ == old(dst)@ + pad_right(s@, w as nat),
{
    let ghost base = dst@;
    let cs = str_chars(s);
    extend_chars(dst, &cs);
    if cs.len() < w {
        let pad = w - cs.len();
        let mut k: usize = 0;
        while k < pad
            invariant
                k <= pad,
                dst@ == base + s@ + Seq::new(k as nat, |i: int| ' '),
            decreases pad - k,
        {
            dst.push(' ');
            assert(dst@ =~= base + s@ + Seq::new((k + 1) as nat, |i: int| ' '));
            k = k + 1;
        }
    }
    assert(dst@ =~= base + pad_right(s@, w as nat));
}

/// Strings joined by `", "`.
pub open spec fn join_comma(v: Seq<Seq<char>>) -> Seq<char>
    decreases v.len(),
{
    if v.len() == 0 {
        Seq::empty()
    } else if v.len() == 1 {
        v[0]
    } else {
        join_comma(v.drop_last()) + ", "@ + v.last()
    }
}

fn push_joined(dst: &mut Vec<char>, v: &Vec<&'static str>)
    ensures
        final(dst)@ == old(dst)@ + join_comma(strs_view(v@)),
{
    let ghost base = dst@;
    let mut k: usize = 0;
    while k < v.len()
        invariant
            k <= v@.len(),
            dst@ == base + join_comma(strs_view(v@.take(k as int))),
        decreases v@.len() - k,
    {
        assert(strs_view(v@.take(k as int + 1)).drop_last() =~= strs_view(v@.take(k as int)));
        if k > 0 {
            extend_str(dst, ", ");
        }
        extend_str(dst, v[k]);
        proof {
            if k > 0 {
                assert(dst@ =~= base + (join_comma(strs_view(v@.take(k as int))) + ", "@ + v@[k as int]@));
            } else {
                assert(dst@ =~= base + strs_view(v@.take(1))[0]);
            }
        }
        k = k + 1;
    }
    assert(v@.take(k as int) =~= v@);
}

/// The option lines of a command's help.
pub open spec fn option_lines(opts: Seq<(&str, &str)>) -> Seq<char>
    decreases opts.len(),
{
    if opts.len() == 0 {
        Seq::empty()
    } else {
        option_lines(opts.drop_last()) + "  "@ + pad_right(opts.last().0@, 24) + "  "@ + opts.last().1@ + seq!['\n']
    }
}

/// The example lines of a command's help.
pub open spec fn example_lines(ex: Seq<&str>) -> Seq<char>
    decreases ex.len(),
{
    if ex.len() == 0 {
        Seq::empty()
    } else {
        example_lines(ex.drop_last()) + "  "@ + ex.last()@ + seq!['\n']
    }
}

/// The help text of one command.
pub open spec fn command_help_text(spec: CommandSpec) -> Seq<char> {
    "--- GoldSrc.rs Help: grs "@ + spec.name@ + " ---\n"@
    + spec.summary@ + "\n\n"@
    + "Usage:\n  "@ + spec.usage@ + "\n\n"@
    + (if spec.aliases@.len() > 0 { "Aliases:\n  "@ + join_comma(strs_view(spec.aliases@)) + "\n\n"@ } else { Seq::empty() })
    + "Options:\n"@
    + "  -h, --help                Show this help message\n"@
    + option_lines(spec.options@)
    + "\n"@
    + (if spec.examples@.len() > 0 { "Examples:\n"@ + example_lines(spec.examples@) + "\n"@ } else { Seq::empty() })
}

pub(crate) fn append_chars(out: &mut String, v: &Vec<char>)
    ensures
        final(out)@ == old(out)@ + v@,
{
    let ghost base = out@;
    let mut k: usize = 0;
    while k < v.len()
        invariant
            k <= v@.len(),
            out@ == base + v@.take(k as int),
        decreases v@.len() - k,
    {
        crate::text::push_char(out, v[k]);
        assert(out@ =~= base + v@.take(k as int + 1));
        k = k + 1;
    }
    assert(v@.take(k as int) =~= v@);
}

/// Appends the help of one command to `out`.
pub fn print_command_help(spec: &CommandSpec, out: &mut String)
    ensures
        final(out)@ == old(out)@ + command_help_text(*spec),
{
    let mut v: Vec<char> = Vec::new();
    extend_str(&mut v, "--- GoldSrc.rs Help: grs ");
    extend_str(&mut v, spec.name);
    extend_str(&mut v, " ---\n");
    extend_str(&mut v, spec.summary);
    extend_str(&mut v, "\n\n");
    extend_str(&mut v, "Usage:\n  ");
    extend_str(&mut v, spec.usage);
    extend_str(&mut v, "\n\n");
    let ghost head = v@;
    if spec.aliases.len() > 0 {
        extend_str(&mut v, "Aliases:\n  ");
        push_joined(&mut v, &spec.aliases);
        extend_str(&mut v, "\n\n");
    }
    let ghost with_aliases = v@;
    extend_str(&mut v, "Options:\n");
    extend_str(&mut v, "  -h, --help                Show this help message\n");
    let ghost before_opts = v@;
    let mut k: usize = 0;
    while k < spec.options.len()
        invariant
            k <= spec.options@.len(),
            v@ == before_opts + option_lines(spec.options@.take(k as int)),
        decreases spec.options@.len() - k,
    {
        assert(spec.options@.take(k as int + 1).drop_last() =~= spec.options@.take(k as int));
        let (flag, desc) = spec.options[k];
        extend_str(&mut v, "  ");
        push_padded(&mut v, flag, 24);
        extend_str(&mut v, "  ");
        extend_str(&mut v, desc);
        v.push('\n');
        assert(v@ =~= before_opts + option_lines(spec.options@.take(k as int + 1)));
        k = k + 1;
    }
    assert(spec.options@.take(k as int) =~= spec.options@);
    extend_str(&mut v, "\n");
    let ghost before_ex = v@;
    if spec.examples.len() > 0 {
        extend_str(&mut v, "Examples:\n");
        let ghost start = v@;
        let mut j: usize = 0;
        while j < spec.examples.len()
            invariant
                j <= spec.examples@.len(),
                v@ == start + example_lines(spec.examples@.take(j as int)),
            decreases spec.examples@.len() - j,
        {
            assert(spec.examples@.take(j as int + 1).drop_last() =~= spec.examples@.take(j as int));
            extend_str(&mut v, "  ");
            extend_str(&mut v, spec.examples[j]);
            v.push('\n');
            assert(v@ =~= start + example_lines(spec.examples@.take(j as int + 1)));
            j = j + 1;
        }
        assert(spec.examples@.take(j as int) =~= spec.examples@);
        extend_str(&mut v, "\n");
    }
    assert(v@ =~= command_help_text(*spec));
    append_chars(out, &v);
}

/// The categories of the global help, in order.
pub open spec fn help_categories() -> Seq<Seq<char>> {
    seq!["Plugin Lifecycle"@, "Execution Control"@, "Inspection & Debugging"@, "System"@]
}

/// The line of one command in the global help.
pub open spec fn host_help_line(spec: CommandSpec) -> Seq<char> {
    "    "@ + pad_right(spec.name@, 24) + " "@ + spec.summary@
        + (if spec.aliases@.len() > 0 { " ("@ + join_comma(strs_view(spec.aliases@)) + ")"@ } else { Seq::empty() })
        + seq!['\n']
}

/// The lines of the commands of one category, in table order.
pub open spec fn category_lines(t: Seq<CommandSpec>, cat: Seq<char>) -> Seq<char>
    decreases t.len(),
{
    if t.len() == 0 {
        Seq::empty()
    } else {
        category_lines(t.drop_last(), cat) + (if t.last().category@ == cat { host_help_line(t.last()) } else { Seq::empty() })
    }
}

/// The section of one category.
pub open spec fn category_section(t: Seq<CommandSpec>, cat: Seq<char>) -> Seq<char> {
    "  "@ + cat + ":\n"@ + category_lines(t, cat) + "\n"@
}

/// The global help text for a command table.
pub open spec fn host_help_text(t: Seq<CommandSpec>) -> Seq<char> {
    "--- GoldSrc.rs Management CLI ---\n"@
    + "Usage: grs <COMMAND> [OPTIONS] [TARGET]\n"@
    + "Aliases: goldsrc-rs, mrs, meta-rs\n\n"@
    + "Commands:\n"@
    + category_section(t, help_categories()[0])
    + category_section(t, help_categories()[1])
    + category_section(t, help_categories()[2])
    + category_section(t, help_categories()[3])
    + "Run 'grs help <COMMAND>' or 'grs <COMMAND> --help' for detailed option syntax.\n"@
}

fn push_category(v: &mut Vec<char>, t: &Vec<CommandSpec>, cat: &str)
    ensures
        final(v)@ == old(v)@ + category_section(t@, cat@),
{
    let ghost base = v@;
    extend_str(v, "  ");
    extend_str(v, cat);
    extend_str(v, ":\n");
    let ghost start = v@;
    let catc = str_chars(cat);
    let mut k: usize = 0;
    while k < t.len()
        invariant
            k <= t@.len(),
            catc@ == cat@,
            v@ == start + category_lines(t@.take(k as int), cat@),
        decreases t@.len() - k,
    {
        assert(t@.take(k as int + 1).drop_last() =~= t@.take(k as int));
        let spec = &t[k];
        let sc = str_chars(spec.category);
        if crate::text::chars_eq(&sc, &catc) {
            extend_str(v, "    ");
            push_padded(v, spec.name, 24);
            extend_str(v, " ");
            extend_str(v, spec.summary);
            if spec.aliases.len() > 0 {
                extend_str(v, " (");
                push_joined(v, &spec.aliases);
                extend_str(v, ")");
            }
            v.push('\n');
        }
        assert(v@ =~= start + category_lines(t@.take(k as int + 1), cat@));
        k = k + 1;
    }
    assert(t@.take(k as int) =~= t@);
    extend_str(v, "\n");
    assert(v@ =~= base + category_section(t@, cat@));
}

/// Appends the global help for a command table to `out`.
pub fn print_help_for(t: &Vec<CommandSpec>, out: &mut String)
    ensures
        final(out)@ == old(out)@ + host_help_text(t@),
{
    let mut v: Vec<char> = Vec::new();
    extend_str(&mut v, "--- GoldSrc.rs Management CLI ---\n");
    extend_str(&mut v, "Usage: grs <COMMAND> [OPTIONS] [TARGET]\n");
    extend_str(&mut v, "Aliases: goldsrc-rs, mrs, meta-rs\n\n");
    extend_str(&mut v, "Commands:\n");
    push_category(&mut v, t, "Plugin Lifecycle");
    push_category(&mut v, t, "Execution Control");
    push_category(&mut v, t, "Inspection & Debugging");
    push_category(&mut v, t, "System");
    extend_str(&mut v, "Run 'grs help <COMMAND>' or 'grs <COMMAND> --help' for detailed option syntax.\n");
    assert(v@ =~= host_help_text(t@));
    append_chars(out, &v);
}

/// Appends the global help, grouped by category, to `out`.
pub fn print_host_help(out: &mut String)
    ensures
        exists|t: Seq<CommandSpec>| is_builtin_table(t) && final(out)@ == old(out)@ + host_help_text(t),
{
    let t = builtin_commands();
    print_help_for(&t, out);
}

} // verus!
