//! The `mrs` / `meta-rs` management command of the Metamod backend: the
//! routing of its command line (over the tokens `lexopt` gives), its help,
//! and the lines of its `list`, `info` and `status` reports.

use vstd::prelude::*;
use crate::cli::append_chars;
use crate::host_cli::{
    ArgParser, CliArg, CliToken, ListOptions, arg_parser, next_arg, next_value, remaining_args, lexopt_reply,
    reply_value, rest_tokens, nexts, is_flag, apply_list_spec, default_list_spec, apply_list_option,
    list_option_takes_value, default_list_options, values_of, any_flag, positional_values, asks_for, str_opt,
};
use crate::plugin_host::PluginInfo;
use crate::text::{str_chars, chars_eq_str, chars_to_string, extend_str, extend_chars, to_lowercase, unicode_lowercase, decimal, push_decimal};

verus! {

/// A command of `mrs` that acts on plugins named or on all of them.
#[derive(Debug, Clone, Copy, PartialEq, Eq, Structural)]
pub enum MrsAction {
    Unload,
    Reload,
    Pause,
    Unpause,
}

/// The outcome of routing an `mrs` command line.
pub enum MrsRoute {
    /// Print the help of `mrs`.
    Help,
    /// Run `list` with these options.
    List(ListOptions),
    /// Print this usage line.
    Usage(String),
    /// Load these plugin files, in order.
    Load(Vec<String>),
    /// Apply the action to every plugin.
    All(MrsAction),
    /// Apply the action to each named plugin, in order.
    Each(MrsAction, Vec<String>),
    /// Show these plugins, in order.
    Info(Vec<String>),
    /// Print the host's status.
    Status,
    /// Print the version line.
    Version,
}

/// The positional values among tokens, in order.
pub open spec fn token_values(ts: Seq<CliToken>) -> Seq<Seq<char>>
    decreases ts.len(),
{
    if ts.len() == 0 {
        Seq::empty()
    } else {
        let rest = token_values(ts.drop_last());
        match ts.last() {
            CliToken::Value(v) => rest.push(v),
            _ => rest,
        }
    }
}

/// Whether any token is `-c` or `--long`.
pub open spec fn token_asks(ts: Seq<CliToken>, c: char, long: Seq<char>) -> bool {
    exists|i: int| 0 <= i < ts.len() && is_flag(#[trigger] ts[i], c, long)
}

/// The strings of a list viewed as character sequences.
pub open spec fn strings(v: Seq<String>) -> Seq<Seq<char>> {
    v.map_values(|s: String| s@)
}

proof fn lemma_token_views(ts: Seq<CliArg>, c: char, long: Seq<char>)
    ensures
        positional_values(ts) == token_values(ts.map_values(|t: CliArg| t@)),
        asks_for(ts, c, long) == token_asks(ts.map_values(|t: CliArg| t@), c, long),
    decreases ts.len(),
{
    let vs = ts.map_values(|t: CliArg| t@);
    if ts.len() > 0 {
        lemma_token_views(ts.drop_last(), c, long);
        assert(ts.drop_last().map_values(|t: CliArg| t@) =~= vs.drop_last());
    }
    if asks_for(ts, c, long) {
        let i = choose|i: int| 0 <= i < ts.len() && is_flag(#[trigger] ts[i]@, c, long);
        assert(vs[i] == ts[i]@);
    }
    if token_asks(vs, c, long) {
        let i = choose|i: int| 0 <= i < vs.len() && is_flag(#[trigger] vs[i], c, long);
        assert(vs[i] == ts[i]@);
    }
}

/// One option of `mrs list`: like `grs list`, but without `-h` / `--help`
/// and `--flat`, which change nothing.
pub open spec fn mrs_apply(o: ListOptions, t: CliToken, value: Option<Seq<char>>) -> ListOptions {
    if is_flag(t, 'h', "help"@) || t == CliToken::Long("flat"@) {
        o
    } else {
        apply_list_spec(o, t, value)
    }
}

/// The options of `mrs list` read from the parser over `a` after `calls`,
/// starting from `o`, at most `budget + 1` more tokens.
pub open spec fn mrs_list_loop(a: Seq<Seq<char>>, calls: Seq<bool>, o: ListOptions, budget: nat) -> ListOptions
    decreases budget,
{
    let c = calls.push(false);
    match lexopt_reply(a, c) {
        None => o,
        Some(t) => {
            let takes = is_flag(t, 'p', "page"@) || is_flag(t, 's', "size"@);
            let cv = if takes { c.push(true) } else { c };
            let o2 = mrs_apply(o, t, if takes { reply_value(a, cv) } else { None });
            if budget == 0 {
                o2
            } else {
                mrs_list_loop(a, cv, o2, (budget - 1) as nat)
            }
        },
    }
}

/// The usage line of an action given neither `--all` nor a name.
pub open spec fn action_usage(act: MrsAction) -> Seq<char> {
    match act {
        MrsAction::Unload => "Usage: mrs unload <name|index...> or mrs unload -a/--all\n"@,
        MrsAction::Reload => "Usage: mrs reload <name|index...> or mrs reload -a/--all\n"@,
        MrsAction::Pause => "Usage: mrs pause <name|index...> or mrs pause -a/--all\n"@,
        MrsAction::Unpause => "Usage: mrs unpause <name|index...> or mrs unpause -a/--all\n"@,
    }
}

/// The action a lowercased command names, if any.
pub open spec fn action_of(c: Seq<char>) -> Option<MrsAction> {
    if c == "unload"@ {
        Some(MrsAction::Unload)
    } else if c == "reload"@ {
        Some(MrsAction::Reload)
    } else if c == "pause"@ {
        Some(MrsAction::Pause)
    } else if c == "unpause"@ {
        Some(MrsAction::Unpause)
    } else {
        None
    }
}

/// The route of the `mrs` command line whose arguments are `a` (the
/// binary name first), as the tokens `lexopt` gives decide it: no command
/// or an option gives the help; `list` reads its options; `load` and `info`
/// take names (a usage line without any); the actions take `-a` / `--all`
/// or names (a usage line without either); `status` and `version` take
/// nothing; any other command gives the help.
pub open spec fn mrs_routes_as(a: Seq<Seq<char>>, r: MrsRoute) -> bool {
    match lexopt_reply(a, nexts(2)) {
        Some(CliToken::Value(v)) => {
            let c = unicode_lowercase(v);
            let ts = rest_tokens(a, nexts(2), usize::MAX as nat);
            let names = token_values(ts);
            if c == "list"@ {
                r matches MrsRoute::List(o) && o == mrs_list_loop(a, nexts(2), default_list_spec(), usize::MAX as nat)
            } else if c == "load"@ {
                if names.len() == 0 {
                    r matches MrsRoute::Usage(m) && m@ == "Usage: mrs load <file1> [file2...]\n"@
                } else {
                    r matches MrsRoute::Load(ns) && strings(ns@) == names
                }
            } else if action_of(c) is Some {
                if token_asks(ts, 'a', "all"@) {
                    r matches MrsRoute::All(act) && Some(act) == action_of(c)
                } else if names.len() > 0 {
                    r matches MrsRoute::Each(act, ns) && Some(act) == action_of(c) && strings(ns@) == names
                } else {
                    r matches MrsRoute::Usage(m) && m@ == action_usage(action_of(c)->0)
                }
            } else if c == "info"@ {
                if names.len() == 0 {
                    r matches MrsRoute::Usage(m) && m@ == "Usage: mrs info <name|index...>\n"@
                } else {
                    r matches MrsRoute::Info(ns) && strings(ns@) == names
                }
            } else if c == "status"@ {
                r is Status
            } else if c == "version"@ {
                r is Version
            } else {
                r is Help
            }
        },
        _ => r is Help,
    }
}

fn usage_line(act: MrsAction) -> (r: String)
    ensures
        r@ == action_usage(act),
{
    match act {
        MrsAction::Unload => "Usage: mrs unload <name|index...> or mrs unload -a/--all\n".to_string(),
        MrsAction::Reload => "Usage: mrs reload <name|index...> or mrs reload -a/--all\n".to_string(),
        MrsAction::Pause => "Usage: mrs pause <name|index...> or mrs pause -a/--all\n".to_string(),
        MrsAction::Unpause => "Usage: mrs unpause <name|index...> or mrs unpause -a/--all\n".to_string(),
    }
}

fn read_mrs_list(parser: &mut ArgParser) -> (o: ListOptions)
    ensures
        o == mrs_list_loop(old(parser).args_seen(), old(parser).calls_made(), default_list_spec(), usize::MAX as nat),
{
    let ghost a = parser.args_seen();
    let ghost total = mrs_list_loop(a, parser.calls_made(), default_list_spec(), usize::MAX as nat);
    let mut opts = default_list_options();
    let mut budget: usize = usize::MAX;
    loop
        invariant_except_break
            total == mrs_list_loop(a, parser.calls_made(), opts, budget as nat),
        invariant
            parser.args_seen() == a,
        ensures
            total == opts,
        decreases budget,
    {
        let ghost o0 = opts;
        let arg = match next_arg(parser) {
            Some(x) => x,
            None => {
                break;
            },
        };
        let takes = list_option_takes_value(&arg);
        let value = if takes {
            next_value(parser)
        } else {
            None
        };
        assert(!takes ==> str_opt(value) is None);
        let is_flat = match &arg {
            CliArg::Long(s) => {
                let sc = str_chars(s.as_str());
                chars_eq_str(&sc, "flat")
            },
            _ => false,
        };
        assert(is_flat == (arg@ == CliToken::Long("flat"@)));
        if !is_flat {
            let _ = apply_list_option(&mut opts, &arg, value);
        }
        if budget == 0 {
            break;
        }
        budget = budget - 1;
    }
    opts
}

/// Routes an `mrs` command line: the binary name, a command, and the
/// command's options and names.
pub fn route_mrs_command(raw_args: Vec<String>) -> (r: MrsRoute)
    ensures
        mrs_routes_as(raw_args@.map_values(|s: String| s@), r),
{
    let mut parser = arg_parser(raw_args);
    let ghost a = parser.args_seen();
    let _ = next_arg(&mut parser);
    let first = next_arg(&mut parser);
    assert(parser.calls_made() =~= nexts(2));
    let v = match first {
        Some(CliArg::Value(v)) => v,
        _ => {
            return MrsRoute::Help;
        },
    };
    let c = to_lowercase(v.as_str());
    let cc = str_chars(c.as_str());
    proof {
        reveal_strlit("list");
        reveal_strlit("load");
        reveal_strlit("unload");
        reveal_strlit("reload");
        reveal_strlit("pause");
        reveal_strlit("unpause");
        reveal_strlit("info");
        reveal_strlit("status");
        reveal_strlit("version");
    }
    if chars_eq_str(&cc, "list") {
        let o = read_mrs_list(&mut parser);
        return MrsRoute::List(o);
    }
    let tokens = remaining_args(&mut parser);
    proof {
        lemma_token_views(tokens@, 'a', "all"@);
    }
    let names = values_of(&tokens);
    assert(strings(names@) =~= positional_values(tokens@));
    if chars_eq_str(&cc, "load") {
        if names.len() == 0 {
            MrsRoute::Usage("Usage: mrs load <file1> [file2...]\n".to_string())
        } else {
            MrsRoute::Load(names)
        }
    } else if chars_eq_str(&cc, "unload") || chars_eq_str(&cc, "reload") || chars_eq_str(&cc, "pause")
        || chars_eq_str(&cc, "unpause") {
        let act = if chars_eq_str(&cc, "unload") {
            MrsAction::Unload
        } else if chars_eq_str(&cc, "reload") {
            MrsAction::Reload
        } else if chars_eq_str(&cc, "pause") {
            MrsAction::Pause
        } else {
            MrsAction::Unpause
        };
        if any_flag(&tokens, 'a', "all") {
            MrsRoute::All(act)
        } else if names.len() > 0 {
            MrsRoute::Each(act, names)
        } else {
            MrsRoute::Usage(usage_line(act))
        }
    } else if chars_eq_str(&cc, "info") {
        if names.len() == 0 {
            MrsRoute::Usage("Usage: mrs info <name|index...>\n".to_string())
        } else {
            MrsRoute::Info(names)
        }
    } else if chars_eq_str(&cc, "status") {
        MrsRoute::Status
    } else if chars_eq_str(&cc, "version") {
        MrsRoute::Version
    } else {
        MrsRoute::Help
    }
}

/// The help of `mrs`.
pub open spec fn mrs_help_text() -> Seq<char> {
    "--- GoldSrc.rs (meta-rs / mrs) Management CLI ---\n"@
        + "Usage: mrs <COMMAND> [OPTIONS] [TARGET]\n\n"@
        + "Commands:\n"@
        + "  [ Plugin Lifecycle ]\n"@
        + "    load <file>             Load a WASM plugin from plugins/ directory\n"@
        + "    unload <target>         Gracefully unload plugin(s) (-a, --all supported)\n"@
        + "    reload <target>         Reload plugin(s) (-a, --all supported)\n\n"@
        + "  [ Execution Control ]\n"@
        + "    pause <target>          Suspend plugin execution (-a, --all supported)\n"@
        + "    unpause <target>        Resume plugin execution (-a, --all supported)\n\n"@
        + "  [ Inspection & Debugging ]\n"@
        + "    list [OPTIONS]          List loaded plugins. Options:\n"@
        + "                              -p, --page <N>    Show specific page (default: 1)\n"@
        + "                              -s, --size <N>    Set page size (default: 5)\n"@
        + "                              -a, --all         Show all plugins (ignore pagination)\n"@
        + "                              --paused          Show only paused plugins\n"@
        + "    info <target>           Show detailed metadata and exports\n\n"@
        + "  [ System ]\n"@
        + "    status                  Show host runtime stats (RAM, watchers, count)\n"@
        + "    version                 Show host version info\n\n"@
        + "Options:\n"@
        + "  -h, --help                Print this help message\n"@
        + "  -a, --all                 Target all loaded plugins (for unload/reload/pause)\n"@
}

/// Appends the help of `mrs`.
pub fn print_mrs_help(out: &mut String)
    ensures
        final(out)@ == old(out)@ + mrs_help_text(),
{
    let mut v: Vec<char> = Vec::new();
    extend_str(&mut v, "--- GoldSrc.rs (meta-rs / mrs) Management CLI ---\n");
    extend_str(&mut v, "Usage: mrs <COMMAND> [OPTIONS] [TARGET]\n\n");
    extend_str(&mut v, "Commands:\n");
    extend_str(&mut v, "  [ Plugin Lifecycle ]\n");
    extend_str(&mut v, "    load <file>             Load a WASM plugin from plugins/ directory\n");
    extend_str(&mut v, "    unload <target>         Gracefully unload plugin(s) (-a, --all supported)\n");
    extend_str(&mut v, "    reload <target>         Reload plugin(s) (-a, --all supported)\n\n");
    extend_str(&mut v, "  [ Execution Control ]\n");
    extend_str(&mut v, "    pause <target>          Suspend plugin execution (-a, --all supported)\n");
    extend_str(&mut v, "    unpause <target>        Resume plugin execution (-a, --all supported)\n\n");
    extend_str(&mut v, "  [ Inspection & Debugging ]\n");
    extend_str(&mut v, "    list [OPTIONS]          List loaded plugins. Options:\n");
    extend_str(&mut v, "                              -p, --page <N>    Show specific page (default: 1)\n");
    extend_str(&mut v, "                              -s, --size <N>    Set page size (default: 5)\n");
    extend_str(&mut v, "                              -a, --all         Show all plugins (ignore pagination)\n");
    extend_str(&mut v, "                              --paused          Show only paused plugins\n");
    extend_str(&mut v, "    info <target>           Show detailed metadata and exports\n\n");
    extend_str(&mut v, "  [ System ]\n");
    extend_str(&mut v, "    status                  Show host runtime stats (RAM, watchers, count)\n");
    extend_str(&mut v, "    version                 Show host version info\n\n");
    extend_str(&mut v, "Options:\n");
    extend_str(&mut v, "  -h, --help                Print this help message\n");
    extend_str(&mut v, "  -a, --all                 Target all loaded plugins (for unload/reload/pause)\n");
    assert(v@ =~= mrs_help_text());
    append_chars(out, &v);
}

/// `s` padded with spaces on the right to `width` characters (`{:<width}`).
pub open spec fn padded(s: Seq<char>, width: nat) -> Seq<char> {
    if s.len() >= width {
        s
    } else {
        s + Seq::new((width - s.len()) as nat, |i: int| ' ')
    }
}

pub(crate) fn push_padded(dst: &mut Vec<char>, s: &Vec<char>, width: usize)
    ensures
        final(dst)@ == old(dst)@ + padded(s@, width as nat),
{
    let ghost base = dst@;
    extend_chars(dst, s);
    if s.len() < width {
        let mut k: usize = s.len();
        while k < width
            invariant
                s@.len() <= k <= width,
                dst@ == base + s@ + Seq::new((k - s@.len()) as nat, |i: int| ' '),
            decreases width - k,
        {
            dst.push(' ');
            assert(dst@ =~= base + s@ + Seq::new((k + 1 - s@.len()) as nat, |i: int| ' '));
            k = k + 1;
        }
        assert(dst@ =~= base + padded(s@, width as nat));
    } else {
        assert(dst@ =~= base + padded(s@, width as nat));
    }
}

/// The callbacks a plugin exports, joined by `", "`, or `none`.
pub open spec fn exports_text(p: PluginInfo) -> Seq<char> {
    let names = (if p.has_on_load { seq!["on_load"@] } else { Seq::<Seq<char>>::empty() })
        + (if p.has_on_unload { seq!["on_unload"@] } else { Seq::<Seq<char>>::empty() })
        + (if p.has_on_frame { seq!["on_frame"@] } else { Seq::<Seq<char>>::empty() });
    if names.len() == 0 {
        "none"@
    } else {
        crate::plugin_info::comma_joined(names)
    }
}

/// One row of `mrs list`.
pub open spec fn mrs_line(p: PluginInfo) -> Seq<char> {
    "  [#"@ + decimal(p.index as nat) + "] "@ + padded(p.name@, 20) + " | Status: "@ + padded(
        if p.is_paused { "PAUSED"@ } else { "RUNNING"@ },
        7,
    ) + " | Exports: "@ + exports_text(p) + "\n"@
}

fn exports_chars(p: &PluginInfo) -> (r: Vec<char>)
    ensures
        r@ == exports_text(*p),
{
    let ghost names = (if p.has_on_load { seq!["on_load"@] } else { Seq::<Seq<char>>::empty() })
        + (if p.has_on_unload { seq!["on_unload"@] } else { Seq::<Seq<char>>::empty() })
        + (if p.has_on_frame { seq!["on_frame"@] } else { Seq::<Seq<char>>::empty() });
    let mut v: Vec<char> = Vec::new();
    let mut n: usize = 0;
    let ghost mut done: Seq<Seq<char>> = Seq::empty();
    if p.has_on_load {
        extend_str(&mut v, "on_load");
        n = n + 1;
        proof {
            done = done.push("on_load"@);
        }
    }
    assert(v@ =~= crate::plugin_info::comma_joined(done));
    if p.has_on_unload {
        if n > 0 {
            extend_str(&mut v, ", ");
        }
        extend_str(&mut v, "on_unload");
        n = n + 1;
        proof {
            let prev = done;
            done = done.push("on_unload"@);
            assert(done.drop_last() =~= prev);
        }
    }
    assert(v@ =~= crate::plugin_info::comma_joined(done));
    if p.has_on_frame {
        if n > 0 {
            extend_str(&mut v, ", ");
        }
        extend_str(&mut v, "on_frame");
        n = n + 1;
        proof {
            let prev = done;
            done = done.push("on_frame"@);
            assert(done.drop_last() =~= prev);
        }
    }
    assert(done =~= names);
    if n == 0 {
        extend_str(&mut v, "none");
    }
    v
}

/// Builds one row of `mrs list`: index, name padded to 20 characters,
/// status padded to 7, and the exported callbacks.
pub fn mrs_list_line(p: &PluginInfo) -> (r: String)
    ensures
        r@ == mrs_line(*p),
{
    let mut v: Vec<char> = Vec::new();
    extend_str(&mut v, "  [#");
    push_decimal(&mut v, p.index);
    extend_str(&mut v, "] ");
    let name = str_chars(p.name.as_str());
    push_padded(&mut v, &name, 20);
    extend_str(&mut v, " | Status: ");
    let st = if p.is_paused { str_chars("PAUSED") } else { str_chars("RUNNING") };
    push_padded(&mut v, &st, 7);
    extend_str(&mut v, " | Exports: ");
    let ex = exports_chars(p);
    extend_chars(&mut v, &ex);
    extend_str(&mut v, "\n");
    assert(v@ =~= mrs_line(*p));
    chars_to_string(&v)
}

/// A path with its backslashes turned into `/`.
pub open spec fn forward_slashes(s: Seq<char>) -> Seq<char> {
    s.map_values(|c: char| if c == '\\' { '/' } else { c })
}

/// The report of `mrs info` for one plugin.
pub open spec fn mrs_info_text(p: PluginInfo) -> Seq<char> {
    "--- Plugin Info: "@ + p.name@ + " ---\n"@
        + "  Index:        #"@ + decimal(p.index as nat) + "\n"@
        + "  Path:         "@ + forward_slashes(p.path@) + "\n"@
        + "  Status:       "@ + (if p.is_paused { "Paused"@ } else { "Running"@ }) + "\n"@
        + "  on_load:      "@ + (if p.has_on_load { "true"@ } else { "false"@ }) + "\n"@
        + "  on_unload:    "@ + (if p.has_on_unload { "true"@ } else { "false"@ }) + "\n"@
        + "  on_frame:     "@ + (if p.has_on_frame { "true"@ } else { "false"@ }) + "\n"@
}

fn bool_word(b: bool) -> (r: &'static str)
    ensures
        r@ == (if b { "true"@ } else { "false"@ }),
{
    if b { "true" } else { "false" }
}

/// Builds the report of `mrs info` for one plugin.
pub fn mrs_info_report(p: &PluginInfo) -> (r: String)
    ensures
        r@ == mrs_info_text(*p),
{
    let mut v: Vec<char> = Vec::new();
    extend_str(&mut v, "--- Plugin Info: ");
    extend_str(&mut v, p.name.as_str());
    extend_str(&mut v, " ---\n");
    extend_str(&mut v, "  Index:        #");
    push_decimal(&mut v, p.index);
    extend_str(&mut v, "\n");
    extend_str(&mut v, "  Path:         ");
    let path = str_chars(p.path.as_str());
    let ghost base = v@;
    let mut k: usize = 0;
    while k < path.len()
        invariant
            k <= path@.len(),
            v@ == base + forward_slashes(path@.take(k as int)),
        decreases path@.len() - k,
    {
        let c = path[k];
        v.push(if c == '\\' { '/' } else { c });
        assert(forward_slashes(path@.take(k as int + 1)) =~= forward_slashes(path@.take(k as int)).push(
            if c == '\\' { '/' } else { c },
        ));
        k = k + 1;
    }
    assert(path@.take(k as int) =~= path@);
    extend_str(&mut v, "\n");
    extend_str(&mut v, "  Status:       ");
    extend_str(&mut v, if p.is_paused { "Paused" } else { "Running" });
    extend_str(&mut v, "\n");
    extend_str(&mut v, "  on_load:      ");
    extend_str(&mut v, bool_word(p.has_on_load));
    extend_str(&mut v, "\n");
    extend_str(&mut v, "  on_unload:    ");
    extend_str(&mut v, bool_word(p.has_on_unload));
    extend_str(&mut v, "\n");
    extend_str(&mut v, "  on_frame:     ");
    extend_str(&mut v, bool_word(p.has_on_frame));
    extend_str(&mut v, "\n");
    assert(v@ =~= mrs_info_text(*p));
    chars_to_string(&v)
}

/// The report of `mrs status`.
pub open spec fn mrs_status_text(version: Seq<char>, git: Seq<char>, target: Seq<char>, plugins: nat, watchers: nat) -> Seq<char> {
    "--- GoldSrc.rs Host Engine Status ---\n"@
        + "  Version:    v"@ + version + " (git: "@ + git + ")\n"@
        + "  Target:     "@ + target + "\n"@
        + "  WASM Engine: wasmi (Pure Rust Interpreter)\n"@
        + "  Plugins:    "@ + decimal(plugins) + " loaded\n"@
        + "  Watchers:   "@ + decimal(watchers) + " active directory watcher(s)\n"@
}

/// Builds the report of `mrs status`.
pub fn mrs_status_report(version: &str, git: &str, target: &str, plugins: usize, watchers: usize) -> (r: String)
    ensures
        r@ == mrs_status_text(version@, git@, target@, plugins as nat, watchers as nat),
{
    let mut m: Vec<char> = Vec::new();
    extend_str(&mut m, "--- GoldSrc.rs Host Engine Status ---\n");
    extend_str(&mut m, "  Version:    v");
    extend_str(&mut m, version);
    extend_str(&mut m, " (git: ");
    extend_str(&mut m, git);
    extend_str(&mut m, ")\n");
    extend_str(&mut m, "  Target:     ");
    extend_str(&mut m, target);
    extend_str(&mut m, "\n");
    extend_str(&mut m, "  WASM Engine: wasmi (Pure Rust Interpreter)\n");
    extend_str(&mut m, "  Plugins:    ");
    push_decimal(&mut m, plugins);
    extend_str(&mut m, " loaded\n");
    extend_str(&mut m, "  Watchers:   ");
    push_decimal(&mut m, watchers);
    extend_str(&mut m, " active directory watcher(s)\n");
    assert(m@ =~= mrs_status_text(version@, git@, target@, plugins as nat, watchers as nat));
    chars_to_string(&m)
}

} // verus!
