//! Routing of the management command line (`grs <COMMAND> [OPTIONS]`):
//! which help to print, which command runs, and the options of `list`.
//!
//! The arguments are tokenized by `lexopt`; each decision is a verified
//! function of the tokens it is handed.

use vstd::prelude::*;
use crate::cli::{CommandSpec, find_command_spec, first_builtin_from, builtin_names, is_builtin};
use crate::text::{str_chars, chars_eq_str, chars_to_string, extend_str, to_lowercase, unicode_lowercase, parse_usize, parse_usize_chars, decimal, push_decimal};

verus! {

/// A `lexopt` argument parser.
#[verifier::external_type_specification]
#[verifier::external_body]
pub struct ExParser(lexopt::Parser);

/// A command line token.
#[derive(Debug, PartialEq, Eq)]
pub enum CliArg {
    /// A short option, e.g. `Short('p')` for `-p`.
    Short(char),
    /// A long option without its dashes, e.g. `Long("page")`.
    Long(String),
    /// A positional argument.
    Value(String),
}

/// A command line token as a value.
pub enum CliToken {
    Short(char),
    Long(Seq<char>),
    Value(Seq<char>),
}

impl View for CliArg {
    type V = CliToken;

    open spec fn view(&self) -> CliToken {
        match self {
            CliArg::Short(c) => CliToken::Short(*c),
            CliArg::Long(s) => CliToken::Long(s@),
            CliArg::Value(v) => CliToken::Value(v@),
        }
    }
}

/// A token option viewed as a value.
pub open spec fn token_of(a: Option<CliArg>) -> Option<CliToken> {
    match a {
        Some(t) => Some(t@),
        None => None,
    }
}

/// What `lexopt` answers to the last of `calls` made on a parser built by
/// `Parser::from_args(args)`, after the earlier ones: `false` stands for a
/// call of `Parser::next`, `true` for `Parser::value` (whose answer is a
/// `Value`). `None` stands for the end of the arguments or an error.
pub uninterp spec fn lexopt_reply(args: Seq<Seq<char>>, calls: Seq<bool>) -> Option<CliToken>;

/// A `lexopt` parser, with the arguments it was built from and the calls
/// made on it so far.
pub struct ArgParser {
    parser: lexopt::Parser,
    args: Ghost<Seq<Seq<char>>>,
    calls: Ghost<Seq<bool>>,
}

impl ArgParser {
    /// The arguments the parser was built from.
    pub closed spec fn args_seen(self) -> Seq<Seq<char>> {
        self.args@
    }

    /// The calls made on the parser so far (`true` for `value`).
    pub closed spec fn calls_made(self) -> Seq<bool> {
        self.calls@
    }
}

/// `lexopt::Parser::from_args`: a parser over arguments that do not start
/// with the binary name.
#[verifier::external_body]
fn lexopt_from_args(args: Vec<String>) -> lexopt::Parser {
    lexopt::Parser::from_args(args)
}

/// A parser over `args`, with no call made yet.
pub fn arg_parser(args: Vec<String>) -> (p: ArgParser)
    ensures
        p.args_seen() == args@.map_values(|s: String| s@),
        p.calls_made() == Seq::<bool>::empty(),
{
    let ghost a = args@.map_values(|s: String| s@);
    ArgParser { parser: lexopt_from_args(args), args: Ghost(a), calls: Ghost(Seq::empty()) }
}

/// The next token (`Parser::next`); `None` at the end of the arguments and
/// on an error. The answer is a function of the arguments and of the calls
/// made before, as `lexopt` is deterministic; it is named `lexopt_reply`.
#[verifier::external_body]
pub(crate) fn next_arg(p: &mut ArgParser) -> (r: Option<CliArg>)
    ensures
        final(p).args_seen() == old(p).args_seen(),
        final(p).calls_made() == old(p).calls_made().push(false),
        token_of(r) == lexopt_reply(old(p).args_seen(), final(p).calls_made()),
{
    match p.parser.next() {
        Ok(Some(lexopt::Arg::Short(c))) => Some(CliArg::Short(c)),
        Ok(Some(lexopt::Arg::Long(s))) => Some(CliArg::Long(s.to_string())),
        Ok(Some(lexopt::Arg::Value(v))) => Some(CliArg::Value(v.to_string_lossy().into_owned())),
        _ => None,
    }
}

/// The value of the option just read (`Parser::value`); `None` on an error.
/// Its answer is named by `lexopt_reply` as a `Value` token.
#[verifier::external_body]
pub(crate) fn next_value(p: &mut ArgParser) -> (r: Option<String>)
    ensures
        final(p).args_seen() == old(p).args_seen(),
        final(p).calls_made() == old(p).calls_made().push(true),
        match r {
            Some(v) => lexopt_reply(old(p).args_seen(), final(p).calls_made()) == Some(CliToken::Value(v@)),
            None => lexopt_reply(old(p).args_seen(), final(p).calls_made()) is None,
        },
{
    match p.parser.value() {
        Ok(v) => Some(v.to_string_lossy().into_owned()),
        Err(_) => None,
    }
}

/// Options of `grs list`.
#[derive(Debug, PartialEq, Eq)]
pub struct ListOptions {
    /// Page to show (default 1).
    pub page: usize,
    /// Page size, when given (5 when its value does not parse).
    pub size: Option<usize>,
    /// Show only paused plugins.
    pub only_paused: bool,
    /// Show every plugin, ignoring pages.
    pub all: bool,
    /// Do not group plugins by bundle.
    pub flat_view: bool,
}

/// What the first command line token asks for.
pub enum FirstStep {
    /// Print the global help.
    GlobalHelp,
    /// `help` / `?`: print the help of the command named by the next token.
    HelpTopic,
    /// A command (its name lowercased).
    Command(String),
}

/// A string's number, as `str::parse::<usize>` reads it, or `default`.
pub open spec fn number_or(s: Seq<char>, default: nat) -> nat {
    match parse_usize(s) {
        Some(n) => n,
        None => default,
    }
}

/// Whether a token is `-c` or `--long`.
pub open spec fn is_flag(a: CliToken, c: char, long: Seq<char>) -> bool {
    match a {
        CliToken::Short(x) => x == c,
        CliToken::Long(s) => s == long,
        CliToken::Value(_) => false,
    }
}

fn is_flag_exec(a: &CliArg, c: char, long: &str) -> (r: bool)
    ensures
        r == is_flag(a@, c, long@),
{
    match a {
        CliArg::Short(x) => *x == c,
        CliArg::Long(s) => {
            let sc = str_chars(s.as_str());
            chars_eq_str(&sc, long)
        },
        CliArg::Value(_) => false,
    }
}

fn is_long_exec(a: &CliArg, long: &str) -> (r: bool)
    ensures
        r == (a matches CliArg::Long(s) && s@ == long@),
{
    match a {
        CliArg::Long(s) => {
            let sc = str_chars(s.as_str());
            chars_eq_str(&sc, long)
        },
        _ => false,
    }
}

/// Decides what the first token after the binary name asks for.
pub fn first_step(first: Option<CliArg>) -> (r: FirstStep)
    ensures
        match first {
            Some(CliArg::Value(v)) => if unicode_lowercase(v@) == "help"@ || unicode_lowercase(v@) == "?"@ {
                r is HelpTopic
            } else {
                r matches FirstStep::Command(c) && c@ == unicode_lowercase(v@)
            },
            _ => r is GlobalHelp,
        },
{
    match first {
        Some(CliArg::Value(v)) => {
            let c = to_lowercase(v.as_str());
            let cc = str_chars(c.as_str());
            if chars_eq_str(&cc, "help") || chars_eq_str(&cc, "?") {
                FirstStep::HelpTopic
            } else {
                FirstStep::Command(c)
            }
        },
        _ => FirstStep::GlobalHelp,
    }
}

/// The message for a `help` topic that is no command.
pub open spec fn unknown_topic_message(q: Seq<char>) -> Seq<char> {
    "[GoldSrc.rs] Unknown command '"@ + q + "'. Run 'grs help' for command list.\n"@
}

/// The message for a command that does not exist.
pub open spec fn unknown_command_message(q: Seq<char>) -> Seq<char> {
    "[GoldSrc.rs] Unknown command '"@ + q + "'. Run 'grs help' for available commands.\n"@
}

/// Builds `prefix`, `q` and `suffix` into one string.
fn message3(prefix: &str, q: &str, suffix: &str) -> (r: String)
    ensures
        r@ == prefix@ + q@ + suffix@,
{
    let mut v: Vec<char> = Vec::new();
    extend_str(&mut v, prefix);
    extend_str(&mut v, q);
    extend_str(&mut v, suffix);
    assert(v@ =~= prefix@ + q@ + suffix@);
    chars_to_string(&v)
}

/// The page size of `grs list`: every plugin with `--all`, else the
/// `--size` given, else 5.
pub open spec fn list_page_size(total: int, opts: ListOptions) -> int {
    if opts.all {
        if total > 1 { total } else { 1 }
    } else {
        match opts.size {
            Some(s) => s as int,
            None => 5,
        }
    }
}

/// The number of pages of `total` plugins.
pub open spec fn list_total_pages(total: int, opts: ListOptions) -> int {
    let ps = list_page_size(total, opts);
    (total + ps - 1) / (if ps > 1 { ps } else { 1 })
}

/// The first position of the page shown.
pub open spec fn list_start(total: int, opts: ListOptions) -> int {
    let ps = list_page_size(total, opts);
    let pi = if opts.page > 0 { opts.page - 1 } else { 0 };
    if pi * ps < total { pi * ps } else { total }
}

/// Where one page of the plugin list starts and ends, and the page numbers
/// its header shows.
pub struct ListPage {
    /// The page number shown (1 when there are no pages).
    pub shown_page: usize,
    /// The number of pages shown (1 when there are no pages).
    pub shown_pages: usize,
    /// First position of the page.
    pub start: usize,
    /// Position after the last of the page.
    pub end: usize,
}

/// The page of `total` (at least one) plugins that `grs list` shows. The
/// page arithmetic must fit in `usize`.
pub fn list_page(total: usize, opts: &ListOptions) -> (r: ListPage)
    requires
        total > 0,
        total + list_page_size(total as int, *opts) <= usize::MAX,
        (if opts.page > 0 { opts.page - 1 } else { 0 }) * list_page_size(total as int, *opts) <= usize::MAX,
        list_start(total as int, *opts) + list_page_size(total as int, *opts) <= usize::MAX,
    ensures
        r.start == list_start(total as int, *opts),
        r.end == (if r.start + list_page_size(total as int, *opts) < total {
            r.start + list_page_size(total as int, *opts)
        } else {
            total as int
        }),
        r.shown_page == (if list_total_pages(total as int, *opts) == 0 { 1 } else { opts.page as int }),
        r.shown_pages == (if list_total_pages(total as int, *opts) == 0 { 1 } else { list_total_pages(total as int, *opts) }),
{
    let page_size: usize = if opts.all {
        if total > 1 { total } else { 1 }
    } else {
        match opts.size {
            Some(s) => s,
            None => 5,
        }
    };
    let divisor: usize = if page_size > 1 { page_size } else { 1 };
    let total_pages = (total + page_size - 1) / divisor;
    let page_idx: usize = if opts.page > 0 { opts.page - 1 } else { 0 };
    let first = page_idx * page_size;
    let start = if first < total { first } else { total };
    let end = if start + page_size < total { start + page_size } else { total };
    ListPage {
        shown_page: if total_pages == 0 { 1 } else { opts.page },
        shown_pages: if total_pages == 0 { 1 } else { total_pages },
        start,
        end,
    }
}

/// The header of one page of `grs list`.
pub fn list_header(total: usize, page: &ListPage) -> (r: String)
    ensures
        r@ == "[GoldSrc.rs] WASM plugins ("@ + decimal(total as nat) + ") [Page "@ + decimal(page.shown_page as nat)
            + "/"@ + decimal(page.shown_pages as nat) + "]:\n"@,
{
    let mut m: Vec<char> = Vec::new();
    extend_str(&mut m, "[GoldSrc.rs] WASM plugins (");
    push_decimal(&mut m, total);
    extend_str(&mut m, ") [Page ");
    push_decimal(&mut m, page.shown_page);
    extend_str(&mut m, "/");
    push_decimal(&mut m, page.shown_pages);
    extend_str(&mut m, "]:\n");
    chars_to_string(&m)
}

/// The outcome of routing a command line.
pub enum HostRoute {
    /// Print the global help.
    GlobalHelp,
    /// Print the help of one command.
    CommandHelp(CommandSpec),
    /// Print this message.
    Message(String),
    /// Run `list` with these options.
    List(ListOptions),
    /// Run this command; its own arguments follow in the parser.
    Run(CommandSpec, ArgParser),
}

proof fn lemma_first_builtin_range(q: Seq<char>, k: int)
    requires
        0 <= k,
    ensures
        first_builtin_from(q, k) matches Some(i) ==> k <= i < builtin_names().len(),
    decreases builtin_names().len() - k,
{
    if k < builtin_names().len() {
        lemma_first_builtin_range(q, k + 1);
    }
}

/// The route of `help` followed by the token `next`: the help of the
/// command it names, a message when it names none, the global help when
/// there is no topic.
pub open spec fn topic_route(next: Option<CliToken>, r: HostRoute) -> bool {
    match next {
        Some(CliToken::Value(q)) => match first_builtin_from(q, 0) {
            Some(k) => r matches HostRoute::CommandHelp(s) && is_builtin(s, k),
            None => r matches HostRoute::Message(m) && m@ == unknown_topic_message(q),
        },
        _ => r is GlobalHelp,
    }
}

/// The help topic that follows `help`.
pub fn help_topic(next: Option<CliArg>) -> (r: HostRoute)
    ensures
        topic_route(token_of(next), r),
{
    match next {
        Some(CliArg::Value(q)) => match find_command_spec(q.as_str()) {
            Some(spec) => HostRoute::CommandHelp(spec),
            None => HostRoute::Message(message3("[GoldSrc.rs] Unknown command '", q.as_str(),
                "'. Run 'grs help' for command list.\n")),
        },
        _ => HostRoute::GlobalHelp,
    }
}

/// The default options of `list`.
pub fn default_list_options() -> (o: ListOptions)
    ensures
        o.page == 1 && o.size is None && !o.only_paused && !o.all && !o.flat_view,
{
    ListOptions { page: 1, size: None, only_paused: false, all: false, flat_view: false }
}

/// Whether a `list` option takes a value: `-p` / `--page` and `-s` / `--size`.
pub fn list_option_takes_value(arg: &CliArg) -> (r: bool)
    ensures
        r == (is_flag(arg@, 'p', "page"@) || is_flag(arg@, 's', "size"@)),
{
    is_flag_exec(arg, 'p', "page") || is_flag_exec(arg, 's', "size")
}

/// A `String` option viewed as an option of its characters.
pub open spec fn str_opt(o: Option<String>) -> Option<Seq<char>> {
    match o {
        Some(v) => Some(v@),
        None => None,
    }
}

/// The options of `list` after one option token (not `-h` / `--help`)
/// with the value read for it: `-p` / `--page` and `-s` / `--size` take
/// their number (1 and 5 when it does not parse), `-a` / `--all`, `--flat`
/// and `--paused` set their switch; anything else changes nothing.
pub open spec fn apply_list_spec(o: ListOptions, t: CliToken, value: Option<Seq<char>>) -> ListOptions {
    if is_flag(t, 'p', "page"@) {
        match value {
            Some(v) => ListOptions { page: number_or(v, 1) as usize, ..o },
            None => o,
        }
    } else if is_flag(t, 's', "size"@) {
        match value {
            Some(v) => ListOptions { size: Some(number_or(v, 5) as usize), ..o },
            None => o,
        }
    } else {
        ListOptions {
            all: o.all || is_flag(t, 'a', "all"@),
            flat_view: o.flat_view || t == CliToken::Long("flat"@),
            only_paused: o.only_paused || t == CliToken::Long("paused"@),
            ..o
        }
    }
}

/// Applies one `list` option; returns true when it asks for the command's
/// help. `value` is the option's value, for the options that take one.
pub fn apply_list_option(opts: &mut ListOptions, arg: &CliArg, value: Option<String>) -> (help: bool)
    ensures
        help == is_flag(arg@, 'h', "help"@),
        help ==> *final(opts) == *old(opts),
        !help ==> *final(opts) == apply_list_spec(*old(opts), arg@, str_opt(value)),
{
    if is_flag_exec(arg, 'h', "help") {
        return true;
    }
    proof {
        reveal_strlit("all");
        reveal_strlit("flat");
        reveal_strlit("paused");
        assert("all"@.len() == 3 && "flat"@.len() == 4 && "paused"@.len() == 6);
    }
    if is_flag_exec(arg, 'p', "page") {
        match value {
            Some(v) => {
                let vc = str_chars(v.as_str());
                opts.page = match parse_usize_chars(&vc) {
                    Some(n) => n,
                    None => 1,
                };
            },
            None => {},
        }
    } else if is_flag_exec(arg, 's', "size") {
        match value {
            Some(v) => {
                let vc = str_chars(v.as_str());
                opts.size = Some(match parse_usize_chars(&vc) {
                    Some(n) => n,
                    None => 5,
                });
            },
            None => {},
        }
    } else if is_flag_exec(arg, 'a', "all") {
        opts.all = true;
    } else if is_long_exec(arg, "flat") {
        opts.flat_view = true;
    } else if is_long_exec(arg, "paused") {
        opts.only_paused = true;
    }
    false
}

/// `n` calls of `Parser::next`.
pub open spec fn nexts(n: nat) -> Seq<bool> {
    Seq::new(n, |i: int| false)
}

/// The value `Parser::value` gave after `calls`, if any.
pub open spec fn reply_value(a: Seq<Seq<char>>, calls: Seq<bool>) -> Option<Seq<char>> {
    match lexopt_reply(a, calls) {
        Some(CliToken::Value(v)) => Some(v),
        _ => None,
    }
}

/// The options of `list` read from the parser over `a` after `calls`,
/// starting from `o`, at most `budget + 1` more tokens: `None` when `-h` /
/// `--help` comes, else the options once the tokens end. The options
/// `-p` / `--page` and `-s` / `--size` read their value with
/// `Parser::value`.
pub open spec fn list_loop(a: Seq<Seq<char>>, calls: Seq<bool>, o: ListOptions, budget: nat) -> Option<ListOptions>
    decreases budget,
{
    let c = calls.push(false);
    match lexopt_reply(a, c) {
        None => Some(o),
        Some(t) => if is_flag(t, 'h', "help"@) {
            None
        } else {
            let takes = is_flag(t, 'p', "page"@) || is_flag(t, 's', "size"@);
            let cv = if takes { c.push(true) } else { c };
            let o2 = apply_list_spec(o, t, if takes { reply_value(a, cv) } else { None });
            if budget == 0 {
                Some(o2)
            } else {
                list_loop(a, cv, o2, (budget - 1) as nat)
            }
        },
    }
}

/// The default options of `list`.
pub open spec fn default_list_spec() -> ListOptions {
    ListOptions { page: 1, size: None, only_paused: false, all: false, flat_view: false }
}

/// The route of the command line whose arguments are `a` (the binary name
/// first), as the tokens `lexopt` gives for them decide it: no command or
/// an option gives the global help; `help` / `?` the help of the topic
/// that follows; an unknown command a message; `list` its options, or its
/// help on `-h` / `--help`; any other command runs with the parser after
/// the command name.
pub open spec fn routes_as(a: Seq<Seq<char>>, r: HostRoute) -> bool {
    match lexopt_reply(a, nexts(2)) {
        Some(CliToken::Value(v)) => {
            let c = unicode_lowercase(v);
            if c == "help"@ || c == "?"@ {
                topic_route(lexopt_reply(a, nexts(3)), r)
            } else {
                match first_builtin_from(c, 0) {
                    None => r matches HostRoute::Message(m) && m@ == unknown_command_message(c),
                    Some(k) => if builtin_names()[k] == "list"@ {
                        match list_loop(a, nexts(2), default_list_spec(), usize::MAX as nat) {
                            None => r matches HostRoute::CommandHelp(s) && is_builtin(s, k),
                            Some(o) => r matches HostRoute::List(ro) && ro == o,
                        }
                    } else {
                        r matches HostRoute::Run(s, p) && is_builtin(s, k) && p.args_seen() == a && p.calls_made()
                            == nexts(2)
                    },
                }
            }
        },
        _ => r is GlobalHelp,
    }
}

/// Routes a management command line: the binary name, a command (or `help`
/// and a topic), and the command's options.
pub fn dispatch_host_command(raw_args: Vec<String>) -> (r: HostRoute)
    ensures
        routes_as(raw_args@.map_values(|s: String| s@), r),
{
    let mut parser = arg_parser(raw_args);
    let ghost a = parser.args_seen();
    let _ = next_arg(&mut parser);
    let first = next_arg(&mut parser);
    assert(parser.calls_made() =~= nexts(2));
    match first_step(first) {
        FirstStep::GlobalHelp => HostRoute::GlobalHelp,
        FirstStep::HelpTopic => {
            let next = next_arg(&mut parser);
            assert(parser.calls_made() =~= nexts(3));
            help_topic(next)
        },
        FirstStep::Command(c) => match find_command_spec(c.as_str()) {
            None => {
                let m = message3("[GoldSrc.rs] Unknown command '", c.as_str(),
                    "'. Run 'grs help' for available commands.\n");
                assert(m@ == unknown_command_message(c@));
                HostRoute::Message(m)
            },
            Some(spec) => {
                let ghost k = first_builtin_from(c@, 0)->0;
                proof {
                    lemma_first_builtin_range(c@, 0);
                }
                let sn = str_chars(spec.name);
                if chars_eq_str(&sn, "list") {
                    let mut opts = default_list_options();
                    // The arguments are finitely many; the budget only bounds the loop for
                    // the termination check.
                    let mut budget: usize = usize::MAX;
                    assert(list_loop(a, nexts(2), default_list_spec(), usize::MAX as nat) is None ==> routes_as(
                        a,
                        HostRoute::CommandHelp(spec),
                    ));
                    loop
                        invariant_except_break
                            list_loop(a, nexts(2), default_list_spec(), usize::MAX as nat) == list_loop(
                                a,
                                parser.calls_made(),
                                opts,
                                budget as nat,
                            ),
                        invariant
                            parser.args_seen() == a,
                            a == raw_args@.map_values(|s: String| s@),
                            list_loop(a, nexts(2), default_list_spec(), usize::MAX as nat) is None ==> routes_as(
                                a,
                                HostRoute::CommandHelp(spec),
                            ),
                        ensures
                            list_loop(a, nexts(2), default_list_spec(), usize::MAX as nat) == Some(opts),
                        decreases budget,
                    {
                        let ghost before = parser.calls_made();
                        let ghost o0 = opts;
                        let arg = match next_arg(&mut parser) {
                            Some(x) => x,
                            None => {
                                break;
                            },
                        };
                        let takes = list_option_takes_value(&arg);
                        let value = if takes {
                            next_value(&mut parser)
                        } else {
                            None
                        };
                        assert(!takes ==> str_opt(value) is None);
                        if apply_list_option(&mut opts, &arg, value) {
                            assert(lexopt_reply(a, before.push(false)) == Some(arg@));
                            assert(list_loop(a, before, o0, budget as nat) is None);
                            return HostRoute::CommandHelp(spec);
                        }
                        if budget == 0 {
                            break;
                        }
                        budget = budget - 1;
                    }
                    HostRoute::List(opts)
                } else {
                    HostRoute::Run(spec, parser)
                }
            },
        },
    }
}

/// The tokens left in the parser over `a` after `calls`, read with
/// `Parser::next` until the end (at most `budget` of them).
pub open spec fn rest_tokens(a: Seq<Seq<char>>, calls: Seq<bool>, budget: nat) -> Seq<CliToken>
    decreases budget,
{
    if budget == 0 {
        Seq::empty()
    } else {
        let c = calls.push(false);
        match lexopt_reply(a, c) {
            None => Seq::empty(),
            Some(t) => seq![t] + rest_tokens(a, c, (budget - 1) as nat),
        }
    }
}

/// Reads the arguments left in the parser, in order, up to the end or to
/// the first malformed one.
pub fn remaining_args(parser: &mut ArgParser) -> (r: Vec<CliArg>)
    ensures
        final(parser).args_seen() == old(parser).args_seen(),
        r@.map_values(|t: CliArg| t@) == rest_tokens(old(parser).args_seen(), old(parser).calls_made(), usize::MAX as nat),
{
    let ghost a = parser.args_seen();
    let ghost total = rest_tokens(a, parser.calls_made(), usize::MAX as nat);
    let mut args: Vec<CliArg> = Vec::new();
    // The arguments are finitely many; the budget only bounds the loop for
    // the termination check.
    let mut budget: usize = usize::MAX;
    while budget > 0
        invariant_except_break
            args@.map_values(|t: CliArg| t@) + rest_tokens(a, parser.calls_made(), budget as nat) == total,
        invariant
            parser.args_seen() == a,
        ensures
            parser.args_seen() == a,
            args@.map_values(|t: CliArg| t@) == total,
        decreases budget,
    {
        let ghost before = args@.map_values(|t: CliArg| t@);
        let ghost c0 = parser.calls_made();
        match next_arg(parser) {
            Some(x) => {
                args.push(x);
                assert(args@.map_values(|t: CliArg| t@) =~= before.push(x@));
                assert(rest_tokens(a, c0, budget as nat) == seq![x@] + rest_tokens(a, parser.calls_made(), (budget - 1) as nat));
                assert(before + (seq![x@] + rest_tokens(a, parser.calls_made(), (budget - 1) as nat)) =~= before.push(x@)
                    + rest_tokens(a, parser.calls_made(), (budget - 1) as nat));
            },
            None => {
                assert(before + Seq::<CliToken>::empty() =~= before);
                break;
            },
        }
        budget = budget - 1;
    }
    args
}

/// Whether any of the tokens is `-c` or `--long`.
pub open spec fn asks_for(tokens: Seq<CliArg>, c: char, long: Seq<char>) -> bool {
    exists|i: int| 0 <= i < tokens.len() && is_flag(#[trigger] tokens[i]@, c, long)
}

/// The positional arguments among the tokens, in order.
pub open spec fn positional_values(tokens: Seq<CliArg>) -> Seq<Seq<char>>
    decreases tokens.len(),
{
    if tokens.len() == 0 {
        Seq::empty()
    } else {
        let rest = positional_values(tokens.drop_last());
        match tokens.last() {
            CliArg::Value(v) => rest.push(v@),
            _ => rest,
        }
    }
}

/// Whether any token is `-c` or `--long`.
pub fn any_flag(tokens: &Vec<CliArg>, c: char, long: &str) -> (r: bool)
    ensures
        r == asks_for(tokens@, c, long@),
{
    let mut i: usize = 0;
    while i < tokens.len()
        invariant
            i <= tokens.len(),
            forall|j: int| 0 <= j < i ==> !is_flag(#[trigger] tokens@[j]@, c, long@),
        decreases tokens.len() - i,
    {
        if is_flag_exec(&tokens[i], c, long) {
            return true;
        }
        i = i + 1;
    }
    false
}

/// The positional arguments among the tokens, in order.
pub fn values_of(tokens: &Vec<CliArg>) -> (r: Vec<String>)
    ensures
        r@.len() == positional_values(tokens@).len(),
        forall|k: int| 0 <= k < r@.len() ==> #[trigger] r@[k]@ == positional_values(tokens@)[k],
{
    let mut r: Vec<String> = Vec::new();
    let mut i: usize = 0;
    while i < tokens.len()
        invariant
            i <= tokens.len(),
            r@.len() == positional_values(tokens@.take(i as int)).len(),
            forall|k: int| 0 <= k < r@.len() ==> #[trigger] r@[k]@ == positional_values(tokens@.take(i as int))[k],
        decreases tokens.len() - i,
    {
        assert(tokens@.take(i + 1).drop_last() =~= tokens@.take(i as int));
        assert(tokens@.take(i + 1).last() == tokens@[i as int]);
        match &tokens[i] {
            CliArg::Value(v) => r.push(v.clone()),
            _ => {},
        }
        i = i + 1;
    }
    assert(tokens@.take(tokens.len() as int) =~= tokens@);
    r
}

/// What a command that names plugins (`load`, `unload`, `reload`, `pause`,
/// `unpause`) was asked to do.
pub enum TargetAction {
    /// Print the command's help.
    Help,
    /// Report that the plugin host is not running.
    NotInitialized,
    /// Apply the command to every plugin.
    All,
    /// Apply the command to each named plugin, in order.
    Each(Vec<String>),
}

/// The message printed when the plugin host is not running.
pub fn not_initialized_message() -> (r: String)
    ensures
        r@ == "[GoldSrc.rs] Error: WASM Host not initialized.\n"@,
{
    "[GoldSrc.rs] Error: WASM Host not initialized.\n".to_string()
}

/// Decides a command that names plugins, from its tokens. `-h` / `--help`
/// anywhere asks for the help. `load` takes names only: without any it
/// prints its help, whether or not the host runs. The others take
/// `-a` / `--all` too, first need a running host, and print their help
/// when given neither `--all` nor a name.
pub fn plan_targets(tokens: &Vec<CliArg>, loads: bool, initialized: bool) -> (r: TargetAction)
    ensures
        asks_for(tokens@, 'h', "help"@) ==> r is Help,
        !asks_for(tokens@, 'h', "help"@) && loads ==> if positional_values(tokens@).len() == 0 {
            r is Help
        } else if !initialized {
            r is NotInitialized
        } else {
            r is Each
        },
        !asks_for(tokens@, 'h', "help"@) && !loads ==> if !initialized {
            r is NotInitialized
        } else if asks_for(tokens@, 'a', "all"@) {
            r is All
        } else if positional_values(tokens@).len() == 0 {
            r is Help
        } else {
            r is Each
        },
        r matches TargetAction::Each(names) ==> names@.len() == positional_values(tokens@).len()
            && forall|k: int| 0 <= k < names@.len() ==> #[trigger] names@[k]@ == positional_values(tokens@)[k],
{
    if any_flag(tokens, 'h', "help") {
        return TargetAction::Help;
    }
    let names = values_of(tokens);
    if loads {
        if names.len() == 0 {
            TargetAction::Help
        } else if !initialized {
            TargetAction::NotInitialized
        } else {
            TargetAction::Each(names)
        }
    } else if !initialized {
        TargetAction::NotInitialized
    } else if any_flag(tokens, 'a', "all") {
        TargetAction::All
    } else if names.len() == 0 {
        TargetAction::Help
    } else {
        TargetAction::Each(names)
    }
}

/// What `grs status` was asked to do.
pub enum StatusAction {
    /// Print the command's help.
    Help,
    /// Report that the plugin host is not running.
    NotInitialized,
    /// Print the host's status.
    Report,
}

/// Decides `grs status` from its tokens.
pub fn plan_status(tokens: &Vec<CliArg>, initialized: bool) -> (r: StatusAction)
    ensures
        asks_for(tokens@, 'h', "help"@) ==> r is Help,
        !asks_for(tokens@, 'h', "help"@) && !initialized ==> r is NotInitialized,
        !asks_for(tokens@, 'h', "help"@) && initialized ==> r is Report,
{
    if any_flag(tokens, 'h', "help") {
        StatusAction::Help
    } else if !initialized {
        StatusAction::NotInitialized
    } else {
        StatusAction::Report
    }
}

/// The report of `grs status`.
pub open spec fn status_text(version: Seq<char>, git: Seq<char>, target: Seq<char>, plugins: nat, watchers: nat) -> Seq<char> {
    "--- GoldSrc.rs Host Engine Status ---\n"@
        + "  Version:    v"@ + version + " (git: "@ + git + ")\n"@
        + "  Target:     "@ + target + "\n"@
        + "  WASM Engine: wasmtime (Component Model)\n"@
        + "  Plugins:    "@ + decimal(plugins) + " loaded\n"@
        + "  Watchers:   "@ + decimal(watchers) + " active directory watcher(s)\n"@
}

/// Builds the report of `grs status` from the build's version, git hash and
/// target and the host's plugin and watcher counts.
pub fn status_report(version: &str, git: &str, target: &str, plugins: usize, watchers: usize) -> (r: String)
    ensures
        r@ == status_text(version@, git@, target@, plugins as nat, watchers as nat),
{
    let mut m: Vec<char> = Vec::new();
    extend_str(&mut m, "--- GoldSrc.rs Host Engine Status ---\n");
    extend_str(&mut m, "  Version:    v");
    extend_str(&mut m, version);
    extend_str(&mut m, " (git: ");
    extend_str(&mut m, git);
    extend_str(&mut m, ")\n");
    extend_str(&mut m, "  Target:     ");
    extend_str(&mut m, target);
    extend_str(&mut m, "\n");
    extend_str(&mut m, "  WASM Engine: wasmtime (Component Model)\n");
    extend_str(&mut m, "  Plugins:    ");
    push_decimal(&mut m, plugins);
    extend_str(&mut m, " loaded\n");
    extend_str(&mut m, "  Watchers:   ");
    push_decimal(&mut m, watchers);
    extend_str(&mut m, " active directory watcher(s)\n");
    assert(m@ =~= status_text(version@, git@, target@, plugins as nat, watchers as nat));
    chars_to_string(&m)
}

/// What `grs info` was asked to do.
pub enum InfoAction {
    /// Print the command's help.
    Help,
    /// Report that the plugin host is not running.
    NotInitialized,
    /// Show these plugins, whole or only the field named (lowercased).
    Show(Vec<String>, Option<String>),
}

/// The names and the field of `grs info` read from the parser over `a`
/// after `calls`, starting from `names` and `field`, at most `budget + 1`
/// more tokens: `None` when `-h` / `--help` comes. `-f` / `--field` reads
/// its value with `Parser::value`, lowercased; a later one wins.
pub open spec fn info_loop(
    a: Seq<Seq<char>>,
    calls: Seq<bool>,
    names: Seq<Seq<char>>,
    field: Option<Seq<char>>,
    budget: nat,
) -> Option<(Seq<Seq<char>>, Option<Seq<char>>)>
    decreases budget,
{
    let c = calls.push(false);
    match lexopt_reply(a, c) {
        None => Some((names, field)),
        Some(t) => if is_flag(t, 'h', "help"@) {
            None
        } else {
            let takes = is_flag(t, 'f', "field"@);
            let cv = if takes { c.push(true) } else { c };
            let field2 = if takes {
                match reply_value(a, cv) {
                    Some(v) => Some(unicode_lowercase(v)),
                    None => field,
                }
            } else {
                field
            };
            let names2 = match t {
                CliToken::Value(v) => names.push(v),
                _ => names,
            };
            if budget == 0 {
                Some((names2, field2))
            } else {
                info_loop(a, cv, names2, field2, (budget - 1) as nat)
            }
        },
    }
}

/// Decides `grs info` from the arguments left in the parser: its help on
/// `-h` / `--help` or when no plugin is named; else, when the host runs,
/// the plugins named and the field asked for.
pub fn plan_info(parser: &mut ArgParser, initialized: bool) -> (r: InfoAction)
    ensures
        final(parser).args_seen() == old(parser).args_seen(),
        match info_loop(old(parser).args_seen(), old(parser).calls_made(), Seq::empty(), None, usize::MAX as nat) {
            None => r is Help,
            Some((names, field)) => if names.len() == 0 {
                r is Help
            } else if !initialized {
                r is NotInitialized
            } else {
                r matches InfoAction::Show(ns, f) && ns@.map_values(|s: String| s@) == names && str_opt(f) == field
            },
        },
{
    let ghost a = parser.args_seen();
    let ghost total = info_loop(a, parser.calls_made(), Seq::empty(), None, usize::MAX as nat);
    let mut names: Vec<String> = Vec::new();
    let mut field: Option<String> = None;
    let mut budget: usize = usize::MAX;
    assert(names@.map_values(|s: String| s@) =~= Seq::<Seq<char>>::empty());
    loop
        invariant_except_break
            total == info_loop(a, parser.calls_made(), names@.map_values(|s: String| s@), str_opt(field), budget as nat),
        invariant
            parser.args_seen() == a,
            a == old(parser).args_seen(),
            total == info_loop(old(parser).args_seen(), old(parser).calls_made(), Seq::empty(), None, usize::MAX as nat),
        ensures
            parser.args_seen() == a,
            total == Some((names@.map_values(|s: String| s@), str_opt(field))),
        decreases budget,
    {
        let ghost c0 = parser.calls_made();
        let ghost n0 = names@.map_values(|s: String| s@);
        let ghost f0 = str_opt(field);
        let arg = match next_arg(parser) {
            Some(x) => x,
            None => {
                break;
            },
        };
        assert(lexopt_reply(a, c0.push(false)) == Some(arg@));
        if is_flag_exec(&arg, 'h', "help") {
            assert(total is None);
            return InfoAction::Help;
        }
        if is_flag_exec(&arg, 'f', "field") {
            match next_value(parser) {
                Some(v) => {
                    field = Some(to_lowercase(v.as_str()));
                },
                None => {},
            }
        }
        match arg {
            CliArg::Value(v) => {
                names.push(v);
            },
            _ => {},
        }
        assert(names@.map_values(|s: String| s@) =~= match arg@ {
            CliToken::Value(v) => n0.push(v),
            _ => n0,
        });
        if budget == 0 {
            break;
        }
        budget = budget - 1;
    }
    if names.len() == 0 {
        InfoAction::Help
    } else if !initialized {
        InfoAction::NotInitialized
    } else {
        InfoAction::Show(names, field)
    }
}

/// The line of `grs version`: the package version, git hash and build
/// target.
pub fn version_line(pkg: &str, git: &str, target: &str) -> (r: String)
    ensures
        r@ == "[GoldSrc.rs] meta-rs v"@ + pkg@ + " (git: "@ + git@ + ", target: "@ + target@ + ")\n"@,
{
    let mut m: Vec<char> = Vec::new();
    extend_str(&mut m, "[GoldSrc.rs] meta-rs v");
    extend_str(&mut m, pkg);
    extend_str(&mut m, " (git: ");
    extend_str(&mut m, git);
    extend_str(&mut m, ", target: ");
    extend_str(&mut m, target);
    extend_str(&mut m, ")\n");
    chars_to_string(&m)
}

} // verus!
