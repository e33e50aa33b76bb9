//! Structured logging: levels and targets, which messages are emitted, the
//! calendar date of a timestamp, and the lines written to files and to the
//! server console.

use vstd::prelude::*;
use crate::paths::{BackendType, PathResolver, join, framework_dir_spec, join_path, LOGS_DIR_NAME};
use crate::text::{str_chars, chars_to_string, extend_str, chars_eq_str, push_zero_padded, zero_padded};

verus! {

/// The `log` crate's message level.
#[verifier::external_type_specification]
#[verifier::external_body]
pub struct ExLevel(log::Level);

/// The `log` crate's level filter.
#[verifier::external_type_specification]
#[verifier::external_body]
pub struct ExLevelFilter(log::LevelFilter);

/// The rank of a level; a message is emitted when its rank is at least the
/// configured one.
pub open spec fn level_rank(l: LogLevel) -> int {
    match l {
        LogLevel::Trace => 0,
        LogLevel::Debug => 1,
        LogLevel::Info => 2,
        LogLevel::Warn => 3,
        LogLevel::Error => 4,
    }
}

/// The tag of a level in log lines: five characters wide.
pub open spec fn level_tag(l: LogLevel) -> Seq<char> {
    match l {
        LogLevel::Trace => "TRACE"@,
        LogLevel::Debug => "DEBUG"@,
        LogLevel::Info => "INFO "@,
        LogLevel::Warn => "WARN "@,
        LogLevel::Error => "ERROR"@,
    }
}

/// Minimum log level; messages below it are dropped.
#[derive(Debug, Clone, Copy, PartialEq, Eq, Structural, PartialOrd, Ord)]
pub enum LogLevel {
    /// Fine-grained tracing.
    Trace,
    /// Debug diagnostics.
    Debug,
    /// Normal operational messages.
    Info,
    /// Warnings that do not stop execution.
    Warn,
    /// Errors that may indicate failure.
    Error,
}

impl LogLevel {
    /// The fixed-width tag used in log lines (e.g. `"INFO "`).
    pub fn as_str(self) -> (r: &'static str)
        ensures
            r@ == level_tag(self),
            r@.len() == 5,
    {
        proof {
            reveal_strlit("TRACE");
            reveal_strlit("DEBUG");
            reveal_strlit("INFO ");
            reveal_strlit("WARN ");
            reveal_strlit("ERROR");
        }
        match self {
            LogLevel::Trace => "TRACE",
            LogLevel::Debug => "DEBUG",
            LogLevel::Info => "INFO ",
            LogLevel::Warn => "WARN ",
            LogLevel::Error => "ERROR",
        }
    }

    /// The level's rank, from `Trace` (0) to `Error` (4).
    pub fn rank(self) -> (r: u8)
        ensures
            r == level_rank(self),
    {
        match self {
            LogLevel::Trace => 0,
            LogLevel::Debug => 1,
            LogLevel::Info => 2,
            LogLevel::Warn => 3,
            LogLevel::Error => 4,
        }
    }

    /// Converts from `log::Level`, variant by variant.
    #[verifier::external_body]
    pub fn from_log_level(level: log::Level) -> LogLevel {
        match level {
            log::Level::Trace => LogLevel::Trace,
            log::Level::Debug => LogLevel::Debug,
            log::Level::Info => LogLevel::Info,
            log::Level::Warn => LogLevel::Warn,
            log::Level::Error => LogLevel::Error,
        }
    }

    /// Converts to `log::LevelFilter`, variant by variant.
    #[verifier::external_body]
    pub fn to_level_filter(self) -> log::LevelFilter {
        match self {
            LogLevel::Trace => log::LevelFilter::Trace,
            LogLevel::Debug => log::LevelFilter::Debug,
            LogLevel::Info => log::LevelFilter::Info,
            LogLevel::Warn => log::LevelFilter::Warn,
            LogLevel::Error => log::LevelFilter::Error,
        }
    }
}

/// The name of a target in log lines.
pub open spec fn target_name(t: LogTarget) -> Seq<char> {
    match t {
        LogTarget::Core => "core"@,
        LogTarget::Proxy => "proxy"@,
        LogTarget::Wasm => "wasm"@,
        LogTarget::Plugin => "plugin"@,
    }
}

/// The sub-system a message comes from.
#[derive(Debug, Clone, Copy, PartialEq, Eq, Structural)]
pub enum LogTarget {
    /// Framework core (init, lifecycle, config).
    Core,
    /// GameDLL proxy layer.
    Proxy,
    /// WASM host and plugin management.
    Wasm,
    /// Plugin code.
    Plugin,
}

impl LogTarget {
    /// The target named by a `log` target string; anything unknown is `Core`.
    pub fn from_target_str(target: &str) -> (r: LogTarget)
        ensures
            r == (if target@ == "proxy"@ {
                LogTarget::Proxy
            } else if target@ == "wasm"@ {
                LogTarget::Wasm
            } else if target@ == "plugin"@ {
                LogTarget::Plugin
            } else {
                LogTarget::Core
            }),
    {
        let t = str_chars(target);
        if chars_eq_str(&t, "proxy") {
            LogTarget::Proxy
        } else if chars_eq_str(&t, "wasm") {
            LogTarget::Wasm
        } else if chars_eq_str(&t, "plugin") {
            LogTarget::Plugin
        } else {
            LogTarget::Core
        }
    }

    /// The lowercase name used in log lines (e.g. `"core"`).
    pub fn as_str(self) -> (r: &'static str)
        ensures
            r@ == target_name(self),
    {
        match self {
            LogTarget::Core => "core",
            LogTarget::Proxy => "proxy",
            LogTarget::Wasm => "wasm",
            LogTarget::Plugin => "plugin",
        }
    }
}

/// The `[logging]` section of `goldsrc.toml`.
pub struct LogConfig {
    /// Minimum level to emit.
    pub level: LogLevel,
    /// Write log lines to the log directory.
    pub file_output: bool,
    /// Forward log lines to the server console.
    pub console_output: bool,
    /// Only these targets are emitted; empty means all.
    pub targets: Vec<LogTarget>,
}

impl Default for LogConfig {
    fn default() -> (c: Self)
        ensures
            c.level == LogLevel::Info,
            c.file_output,
            c.console_output,
            c.targets@.len() == 0,
    {
        LogConfig { level: LogLevel::Info, file_output: true, console_output: true, targets: Vec::new() }
    }
}

impl Clone for LogConfig {
    fn clone(&self) -> (c: Self)
        ensures
            c.level == self.level,
            c.file_output == self.file_output,
            c.console_output == self.console_output,
            c.targets@ == self.targets@,
    {
        let mut targets: Vec<LogTarget> = Vec::new();
        let mut k: usize = 0;
        while k < self.targets.len()
            invariant
                k <= self.targets@.len(),
                targets@ == self.targets@.take(k as int),
            decreases self.targets@.len() - k,
        {
            targets.push(self.targets[k]);
            assert(targets@ =~= self.targets@.take(k as int + 1));
            k = k + 1;
        }
        assert(self.targets@.take(k as int) =~= self.targets@);
        LogConfig { level: self.level, file_output: self.file_output, console_output: self.console_output, targets }
    }
}

/// The levels in their order of severity.
pub open spec fn severity_order() -> Seq<LogLevel> {
    seq![LogLevel::Trace, LogLevel::Debug, LogLevel::Info, LogLevel::Warn, LogLevel::Error]
}

/// For a target the filter lets through (every target when the filter is
/// empty), a message is emitted exactly when its level is
/// at or above the configured one in the order Trace < Debug < Info < Warn
/// < Error; in particular an error is emitted under every configuration
/// whose targets let it through, and a message of the configured level
/// itself always is.
pub proof fn lemma_emits_by_severity(config: LogConfig, target: LogTarget)
    ensures
        (config.targets@.len() == 0 || config.targets@.contains(target)) ==> forall|i: int, j: int|
            0 <= i < 5 && 0 <= j < 5 && config.level == #[trigger] severity_order()[i] ==> (emits(
                config,
                #[trigger] severity_order()[j],
                target,
            ) <==> i <= j),
        (config.targets@.len() == 0 || config.targets@.contains(target)) ==> emits(config, LogLevel::Error, target),
        (config.targets@.len() == 0 || config.targets@.contains(target)) ==> emits(config, config.level, target),
        config.level == LogLevel::Trace && config.targets@.len() == 0 ==> forall|l: LogLevel| #[trigger] emits(config, l, target),
        config.targets@.len() > 0 && !config.targets@.contains(target) ==> forall|l: LogLevel| !#[trigger] emits(config, l, target),
{
    assert(severity_order()[0] == LogLevel::Trace);
    assert(severity_order()[1] == LogLevel::Debug);
    assert(severity_order()[2] == LogLevel::Info);
    assert(severity_order()[3] == LogLevel::Warn);
    assert(severity_order()[4] == LogLevel::Error);
}

/// Whether a message of `level` from `target` is emitted under `config`.
pub open spec fn emits(config: LogConfig, level: LogLevel, target: LogTarget) -> bool {
    level_rank(level) >= level_rank(config.level)
        && (config.targets@.len() == 0 || config.targets@.contains(target))
}

/// Whether a message of `level` from `target` is emitted.
pub fn should_emit(config: &LogConfig, level: LogLevel, target: LogTarget) -> (r: bool)
    ensures
        r == emits(*config, level, target),
{
    if level.rank() < config.level.rank() {
        return false;
    }
    if config.targets.len() == 0 {
        return true;
    }
    let mut k: usize = 0;
    while k < config.targets.len()
        invariant
            k <= config.targets@.len(),
            level_rank(level) >= level_rank(config.level),
            forall|j: int| 0 <= j < k ==> config.targets@[j] != target,
        decreases config.targets@.len() - k,
    {
        if config.targets[k] == target {
            assert(config.targets@[k as int] == target);
            return true;
        }
        k = k + 1;
    }
    false
}

// ---------------------------------------------------------------------------
// Calendar
// ---------------------------------------------------------------------------

/// Gregorian leap years.
pub open spec fn is_leap(y: int) -> bool {
    (y % 4 == 0 && y % 100 != 0) || y % 400 == 0
}

/// The number of days of a year.
pub open spec fn days_in_year(y: int) -> int {
    if is_leap(y) { 366 } else { 365 }
}

/// The number of days from 1970-01-01 to the first day of year `y`.
pub open spec fn days_before_year(y: int) -> int
    decreases y - 1970,
{
    if y <= 1970 { 0 } else { days_before_year(y - 1) + days_in_year(y - 1) }
}

/// The number of days of month `m` (1 to 12) of year `y`.
pub open spec fn days_in_month(y: int, m: int) -> int {
    if m == 2 {
        if is_leap(y) { 29 } else { 28 }
    } else if m == 4 || m == 6 || m == 9 || m == 11 {
        30
    } else {
        31
    }
}

/// The number of days of year `y` before month `m`.
pub open spec fn days_before_month(y: int, m: int) -> int
    decreases m,
{
    if m <= 1 { 0 } else { days_before_month(y, m - 1) + days_in_month(y, m - 1) }
}

proof fn lemma_days_before_month_full(y: int)
    ensures
        days_before_month(y, 13) == days_in_year(y),
        forall|m: int| 1 <= m <= 12 ==> #[trigger] days_before_month(y, m) + days_in_month(y, m) == days_before_month(y, m + 1),
{
    reveal_with_fuel(days_before_month, 13);
}

/// The leap days up to year `x`, counted by the Gregorian rule.
spec fn leap_count(x: int) -> int {
    x / 4 - x / 100 + x / 400
}

proof fn lemma_leap_step(x: int)
    requires
        x >= 1,
    ensures
        leap_count(x) - leap_count(x - 1) == if is_leap(x) { 1int } else { 0int },
{
    assert(x / 4 - (x - 1) / 4 == if x % 4 == 0 { 1int } else { 0int }) by (nonlinear_arith)
        requires x >= 1;
    assert(x / 100 - (x - 1) / 100 == if x % 100 == 0 { 1int } else { 0int }) by (nonlinear_arith)
        requires x >= 1;
    assert(x / 400 - (x - 1) / 400 == if x % 400 == 0 { 1int } else { 0int }) by (nonlinear_arith)
        requires x >= 1;
    assert(x % 400 == 0 ==> x % 100 == 0) by (nonlinear_arith);
    assert(x % 100 == 0 ==> x % 4 == 0) by (nonlinear_arith);
}

proof fn lemma_days_before_year_closed(y: int)
    requires
        y >= 1970,
    ensures
        days_before_year(y) == 365 * (y - 1970) + leap_count(y - 1) - leap_count(1969),
    decreases y - 1970,
{
    if y > 1970 {
        lemma_days_before_year_closed(y - 1);
        lemma_leap_step(y - 1);
    }
}

/// The Gregorian calendar repeats every 400 years: a year is a leap year
/// exactly when the year 400 later is, a year has as many days as its
/// months together, and 400 consecutive years from 1970 on hold 146097
/// days (97 leap days: every fourth year, but not the centuries that 400
/// does not divide).
pub proof fn lemma_calendar_cycle(y: int)
    requires
        y >= 1970,
    ensures
        is_leap(y + 400) == is_leap(y),
        days_before_month(y, 13) == days_in_year(y),
        days_before_year(y + 400) == days_before_year(y) + 146097,
        days_before_year(y + 1) == days_before_year(y) + days_in_year(y),
{
    lemma_days_before_month_full(y);
    lemma_days_before_year_closed(y);
    lemma_days_before_year_closed(y + 400);
    assert(leap_count(y + 399) == leap_count(y - 1) + 97) by (nonlinear_arith)
        requires y >= 1970;
    assert((y + 400) % 4 == y % 4 && (y + 400) % 100 == y % 100 && (y + 400) % 400 == y % 400) by (nonlinear_arith);
}

/// The UTC calendar date and time of a count of seconds since the Unix epoch.
pub struct CivilTime {
    pub year: u64,
    pub month: u64,
    pub day: u64,
    pub hour: u64,
    pub minute: u64,
    pub second: u64,
}

/// `t` is the calendar date and time `secs` seconds after 1970-01-01 00:00:00.
pub open spec fn is_civil_time(secs: int, t: CivilTime) -> bool {
    &&& t.year >= 1970
    &&& 1 <= t.month <= 12
    &&& 1 <= t.day <= days_in_month(t.year as int, t.month as int)
    &&& days_before_year(t.year as int) + days_before_month(t.year as int, t.month as int) + t.day - 1
        == secs / 86400
    &&& t.hour == (secs / 3600) % 24
    &&& t.minute == (secs / 60) % 60
    &&& t.second == secs % 60
}

fn is_leap_exec(y: u64) -> (r: bool)
    ensures
        r == is_leap(y as int),
{
    (y % 4 == 0 && y % 100 != 0) || y % 400 == 0
}

/// Splits a count of seconds since the Unix epoch into a calendar date and
/// time (UTC).
pub fn civil_time(total_secs: u64) -> (t: CivilTime)
    ensures
        is_civil_time(total_secs as int, t),
{
    let second = total_secs % 60;
    let minute = (total_secs / 60) % 60;
    let hour = (total_secs / 3600) % 24;
    let total_days = total_secs / 86400;
    let mut days = total_days;
    let mut year: u64 = 1970;
    loop
        invariant
            year >= 1970,
            days <= total_days,
            year - 1970 <= total_days - days,
            total_days == total_secs / 86400,
            days_before_year(year as int) + days == total_days,
        ensures
            year >= 1970,
            days_before_year(year as int) + days == total_days,
            days < days_in_year(year as int),
        decreases days,
    {
        let diy: u64 = if is_leap_exec(year) { 366 } else { 365 };
        if days < diy {
            break;
        }
        days = days - diy;
        year = year + 1;
    }
    proof {
        lemma_days_before_month_full(year as int);
    }
    let leap = is_leap_exec(year);
    let mut month: u64 = 1;
    loop
        invariant
            1 <= month <= 12,
            year >= 1970,
            leap == is_leap(year as int),
            days + days_before_month(year as int, month as int) < days_in_year(year as int),
            days_before_year(year as int) + days_before_month(year as int, month as int) + days == total_days,
            forall|m: int| 1 <= m <= 12 ==> #[trigger] days_before_month(year as int, m) + days_in_month(year as int, m)
                == days_before_month(year as int, m + 1),
            days_before_month(year as int, 13) == days_in_year(year as int),
        ensures
            1 <= month <= 12,
            days_before_year(year as int) + days_before_month(year as int, month as int) + days == total_days,
            days < days_in_month(year as int, month as int),
        decreases 12 - month,
    {
        let dim: u64 = if month == 2 {
            if leap { 29 } else { 28 }
        } else if month == 4 || month == 6 || month == 9 || month == 11 {
            30
        } else {
            31
        };
        assert(dim == days_in_month(year as int, month as int));
        if days < dim {
            break;
        }
        assert(days_before_month(year as int, month as int) + days_in_month(year as int, month as int)
            == days_before_month(year as int, month as int + 1));
        days = days - dim;
        month = month + 1;
    }
    CivilTime { year, month, day: days + 1, hour, minute, second }
}

/// `YYYY-MM-DD` of a calendar date.
pub open spec fn date_text(t: CivilTime) -> Seq<char> {
    zero_padded(t.year as nat, 4) + seq!['-'] + zero_padded(t.month as nat, 2) + seq!['-']
        + zero_padded(t.day as nat, 2)
}

/// `YYYY-MM-DD hh:mm:ss` of a calendar date and time.
pub open spec fn timestamp_text(t: CivilTime) -> Seq<char> {
    date_text(t) + seq![' '] + zero_padded(t.hour as nat, 2) + seq![':'] + zero_padded(t.minute as nat, 2)
        + seq![':'] + zero_padded(t.second as nat, 2)
}

/// The date (`YYYY-MM-DD`) and the timestamp (`YYYY-MM-DD hh:mm:ss`) of a
/// count of seconds since the Unix epoch.
pub fn date_and_time(total_secs: u64) -> (r: (String, String))
    ensures
        exists|t: CivilTime| is_civil_time(total_secs as int, t) && r.0@ == date_text(t)
            && r.1@ == timestamp_text(t),
{
    let t = civil_time(total_secs);
    let mut d: Vec<char> = Vec::new();
    push_zero_padded(&mut d, t.year, 4);
    d.push('-');
    push_zero_padded(&mut d, t.month, 2);
    d.push('-');
    push_zero_padded(&mut d, t.day, 2);
    assert(d@ =~= date_text(t));
    let mut full: Vec<char> = Vec::new();
    crate::text::extend_chars(&mut full, &d);
    full.push(' ');
    push_zero_padded(&mut full, t.hour, 2);
    full.push(':');
    push_zero_padded(&mut full, t.minute, 2);
    full.push(':');
    push_zero_padded(&mut full, t.second, 2);
    assert(full@ =~= timestamp_text(t));
    (chars_to_string(&d), chars_to_string(&full))
}

// ---------------------------------------------------------------------------
// Lines and files
// ---------------------------------------------------------------------------

/// The line written to the log files: `[timestamp][LEVEL][target] message`.
pub open spec fn file_line_text(timestamp: Seq<char>, level: LogLevel, target: LogTarget, message: Seq<char>) -> Seq<char> {
    seq!['['] + timestamp + "]["@ + level_tag(level) + "]["@ + target_name(target) + "] "@ + message + seq!['\n']
}

/// The ANSI color of a level on the console.
pub open spec fn level_color(l: LogLevel) -> Seq<char> {
    match l {
        LogLevel::Trace => "\x1b[36m"@,
        LogLevel::Debug => "\x1b[90m"@,
        LogLevel::Info => "\x1b[32m"@,
        LogLevel::Warn => "\x1b[33m"@,
        LogLevel::Error => "\x1b[31m"@,
    }
}

/// The line forwarded to the console: level and target in color.
pub open spec fn console_line_text(level: LogLevel, target: LogTarget, message: Seq<char>) -> Seq<char> {
    seq!['['] + level_color(level) + level_tag(level) + "\x1b[0m"@ + "]["@ + "\x1b[35m"@ + target_name(target)
        + "\x1b[0m"@ + "] "@ + message + seq!['\n']
}

/// Formats the line written to the log files.
pub fn file_line(timestamp: &str, level: LogLevel, target: LogTarget, message: &str) -> (r: String)
    ensures
        r@ == file_line_text(timestamp@, level, target, message@),
{
    let mut v: Vec<char> = Vec::new();
    v.push('[');
    extend_str(&mut v, timestamp);
    extend_str(&mut v, "][");
    extend_str(&mut v, level.as_str());
    extend_str(&mut v, "][");
    extend_str(&mut v, target.as_str());
    extend_str(&mut v, "] ");
    extend_str(&mut v, message);
    v.push('\n');
    assert(v@ =~= file_line_text(timestamp@, level, target, message@));
    chars_to_string(&v)
}

fn level_color_exec(level: LogLevel) -> (r: &'static str)
    ensures
        r@ == level_color(level),
{
    match level {
        LogLevel::Trace => "\x1b[36m",
        LogLevel::Debug => "\x1b[90m",
        LogLevel::Info => "\x1b[32m",
        LogLevel::Warn => "\x1b[33m",
        LogLevel::Error => "\x1b[31m",
    }
}

/// Formats the line forwarded to the console.
pub fn console_line(level: LogLevel, target: LogTarget, message: &str) -> (r: String)
    ensures
        r@ == console_line_text(level, target, message@),
{
    let mut v: Vec<char> = Vec::new();
    v.push('[');
    extend_str(&mut v, level_color_exec(level));
    extend_str(&mut v, level.as_str());
    extend_str(&mut v, "\x1b[0m");
    extend_str(&mut v, "][");
    extend_str(&mut v, "\x1b[35m");
    extend_str(&mut v, target.as_str());
    extend_str(&mut v, "\x1b[0m");
    extend_str(&mut v, "] ");
    extend_str(&mut v, message);
    v.push('\n');
    assert(v@ =~= console_line_text(level, target, message@));
    chars_to_string(&v)
}

/// `name` followed by `.log`.
fn log_file_name(prefix: &str, today: &str) -> (r: String)
    ensures
        r@ == prefix@ + today@ + ".log"@,
{
    let mut v: Vec<char> = Vec::new();
    extend_str(&mut v, prefix);
    extend_str(&mut v, today);
    extend_str(&mut v, ".log");
    assert(v@ =~= prefix@ + today@ + ".log"@);
    chars_to_string(&v)
}

/// The path of the log file of a day: `<framework_dir>/logs/<today>.log`.
pub fn log_file_path(backend: BackendType, today: &str) -> (r: String)
    ensures
        r@ == join(join(framework_dir_spec(backend), "logs"@), today@ + ".log"@),
{
    let fw = PathResolver::framework_dir(backend);
    let logs = join_path(&fw, LOGS_DIR_NAME);
    let name = log_file_name("", today);
    proof {
        reveal_strlit("");
    }
    assert(""@ + today@ + ".log"@ =~= today@ + ".log"@);
    join_path(&logs, &name)
}

/// What the logger does with one message.
pub struct EmitPlan {
    /// The log files to (re)open first: the general and the error log of the day.
    pub reopen: Option<(String, String)>,
    /// The line for the general log file.
    pub general_line: Option<String>,
    /// The line for the error log file.
    pub error_line: Option<String>,
    /// The line for the console.
    pub console_line: Option<String>,
}

/// The file-writing state of the logger.
pub struct LoggerState {
    /// The day the open files belong to.
    pub current_date: String,
    /// Whether the log files are open.
    pub files_open: bool,
}

/// Decides what the logger does with a message, given the day and timestamp
/// of the clock, the directory of the logs and whether a console callback is
/// registered; updates the file state when the files are (re)opened.
pub fn plan_emit(
    config: &LogConfig,
    state: &mut LoggerState,
    logs_dir: &str,
    today: &str,
    timestamp: &str,
    level: LogLevel,
    target: LogTarget,
    message: &str,
    has_console: bool,
) -> (r: EmitPlan)
    ensures
        !emits(*config, level, target) ==> r.reopen is None && r.general_line is None && r.error_line is None
            && r.console_line is None && final(state).current_date@ == old(state).current_date@
            && final(state).files_open == old(state).files_open,
        emits(*config, level, target) ==> {
            &&& !config.file_output ==> r.reopen is None && r.general_line is None && r.error_line is None
                && final(state).current_date@ == old(state).current_date@
                && final(state).files_open == old(state).files_open
            &&& config.file_output ==> {
                &&& (old(state).current_date@ != today@ || !old(state).files_open) ==> (r.reopen matches Some((g, e))
                    && g@ == join(logs_dir@, today@ + ".log"@) && e@ == join(logs_dir@, "error_"@ + today@ + ".log"@))
                &&& (old(state).current_date@ == today@ && old(state).files_open) ==> r.reopen is None
                &&& final(state).current_date@ == today@
                &&& final(state).files_open
                &&& r.general_line matches Some(l) && l@ == file_line_text(timestamp@, level, target, message@)
                &&& level == LogLevel::Error ==> (r.error_line matches Some(l)
                    && l@ == file_line_text(timestamp@, level, target, message@))
                &&& level != LogLevel::Error ==> r.error_line is None
            }
            &&& (config.console_output && has_console) ==> (r.console_line matches Some(l)
                && l@ == console_line_text(level, target, message@))
            &&& !(config.console_output && has_console) ==> r.console_line is None
        },
{
    if !should_emit(config, level, target) {
        return EmitPlan { reopen: None, general_line: None, error_line: None, console_line: None };
    }
    let mut reopen: Option<(String, String)> = None;
    let mut general_line: Option<String> = None;
    let mut error_line: Option<String> = None;
    if config.file_output {
        let cur = str_chars(state.current_date.as_str());
        let day = str_chars(today);
        if !crate::text::chars_eq(&cur, &day) || !state.files_open {
            state.current_date = today.to_string();
            state.files_open = true;
            let g = log_file_name("", today);
            let e = log_file_name("error_", today);
            proof {
                reveal_strlit("");
            }
            assert(""@ + today@ + ".log"@ =~= today@ + ".log"@);
            assert("error_"@ + today@ + ".log"@ =~= "error_"@ + today@ + ".log"@);
            reopen = Some((join_path(logs_dir, &g), join_path(logs_dir, &e)));
        }
        let line = file_line(timestamp, level, target, message);
        if level == LogLevel::Error {
            error_line = Some(file_line(timestamp, level, target, message));
        }
        general_line = Some(line);
    }
    let console = if config.console_output && has_console {
        Some(console_line(level, target, message))
    } else {
        None
    };
    EmitPlan { reopen, general_line, error_line, console_line: console }
}

} // verus!
