//! Hook types, event payloads, and the decisions taken on a client command
//! before it reaches the plugins.

use vstd::prelude::*;
use crate::text::{
    str_chars, chars_to_string, extend_str, trim, trim_chars, is_ws, is_whitespace, parse_usize,
    parse_usize_chars, eq_ignore_ascii_case, eq_ignore_ascii_case_str, chars_eq_str,
};

verus! {

/// Hook execution timing phase.
#[derive(Debug, Clone, Copy, PartialEq, Eq, Structural, Hash)]
pub enum HookTiming {
    /// Runs before the original GameDLL or engine function; may change its
    /// arguments or supercede it.
    Pre,
    /// Runs after the original GameDLL or engine function.
    Post,
}

/// Action control returned from pre-hooks.
#[derive(Debug, Clone, Copy, PartialEq, Eq)]
pub enum HookResult<T> {
    /// Proceed with normal execution.
    Ignored,
    /// Mark the event as handled (does not block the original function).
    Handled,
    /// Block the original function and return this value instead.
    Supercede(T),
    /// Block the original function without returning a value.
    Break,
}

impl<T> HookResult<T> {
    /// Whether the hook asked to supercede the original function.
    pub fn is_superceded(&self) -> (r: bool)
        ensures
            r == (*self is Supercede || *self is Break),
    {
        match self {
            HookResult::Supercede(_) => true,
            HookResult::Break => true,
            _ => false,
        }
    }
}

/// Which function table a set of hooks is installed into.
#[derive(Debug, Clone, Copy, PartialEq, Eq, Structural)]
pub enum HookPhase {
    /// Pre-hook / GameDLL replacement table.
    Pre,
    /// Post-hook / Metamod chaining table.
    Post,
}

/// The four little-endian bytes of a 32-bit pattern.
pub open spec fn le_bytes(u: u32) -> Seq<u8> {
    seq![(u % 256) as u8, ((u / 256) % 256) as u8, ((u / 65536) % 256) as u8, (u / 16777216) as u8]
}

/// The little-endian bytes of a 32-bit pattern (`u32::to_le_bytes`).
pub fn u32_le_bytes(u: u32) -> (r: [u8; 4])
    ensures
        r@ == le_bytes(u),
{
    let r = [(u % 256) as u8, ((u / 256) % 256) as u8, ((u / 65536) % 256) as u8, (u / 16777216) as u8];
    assert(r@ =~= le_bytes(u));
    r
}

/// The payload of a player event: the player index as 4 little-endian bytes.
pub fn player_index_payload(index: i32) -> (r: [u8; 4])
    ensures
        r@ == le_bytes(index as u32),
{
    u32_le_bytes(index as u32)
}

/// Packs two entity indexes into an 8-byte little-endian event payload.
pub fn pack_two_i32(a: i32, b: i32) -> (r: [u8; 8])
    ensures
        r@ == le_bytes(a as u32) + le_bytes(b as u32),
{
    let x = u32_le_bytes(a as u32);
    let y = u32_le_bytes(b as u32);
    let r = [x[0], x[1], x[2], x[3], y[0], y[1], y[2], y[3]];
    assert(r@ =~= le_bytes(a as u32) + le_bytes(b as u32));
    r
}

/// The outcome of the interface version handshake: whether loading goes on,
/// and the version to write back to the engine, if any.
pub fn negotiate_interface_version(offered: Option<i32>, expected: i32, strict: bool) -> (r: (bool, Option<i32>))
    ensures
        match offered {
            None => r == (!strict, None::<i32>),
            Some(v) => if v == expected { r == (true, None::<i32>) } else { r == (!strict, Some(expected)) },
        },
{
    match offered {
        None => (!strict, None),
        Some(v) => if v != expected {
            (!strict, Some(expected))
        } else {
            (true, None)
        },
    }
}

/// What a player event does besides reaching the plugins: a disconnect first
/// drops the player's state; a connect or a disconnect then re-evaluates the
/// plugin rules.
pub fn player_event_effects(name: &str) -> (r: (bool, bool))
    ensures
        r.0 == (name@ == "client_disconnect"@),
        r.1 == (name@ == "client_disconnect"@ || name@ == "client_connect"@),
{
    let n = str_chars(name);
    let disconnect = chars_eq_str(&n, "client_disconnect");
    let connect = chars_eq_str(&n, "client_connect");
    (disconnect, disconnect || connect)
}

/// `str::parse::<u8>`.
pub open spec fn parse_u8(s: Seq<char>) -> Option<nat> {
    match parse_usize(s) {
        Some(v) => if v <= 255 { Some(v) } else { None },
        None => None,
    }
}

/// The menu slot a `menuselect` argument names: a number from 1 to 255, and
/// 10 for anything else.
pub open spec fn menu_slot_of(raw_args: Seq<char>) -> nat {
    match parse_u8(trim(raw_args)) {
        Some(v) => if v == 0 { 10 } else { v },
        None => 10,
    }
}

/// The slot selected by a `menuselect` command.
pub fn menu_slot(raw_args: &str) -> (r: u8)
    ensures
        r as nat == menu_slot_of(raw_args@),
{
    let t = trim_chars(&str_chars(raw_args));
    let v: u8 = match parse_usize_chars(&t) {
        Some(n) => if n <= 255 { n as u8 } else { 0 },
        None => 0,
    };
    if v == 0 { 10 } else { v }
}

// ---------------------------------------------------------------------------
// Splitting on whitespace
// ---------------------------------------------------------------------------

/// The words finished so far and the word being read, after reading `s`.
pub open spec fn words_state(s: Seq<char>) -> (Seq<Seq<char>>, Seq<char>)
    decreases s.len(),
{
    if s.len() == 0 {
        (Seq::empty(), Seq::empty())
    } else {
        let (ws, cur) = words_state(s.drop_last());
        let c = s.last();
        if is_ws(c) {
            if cur.len() > 0 {
                (ws.push(cur), Seq::empty())
            } else {
                (ws, cur)
            }
        } else {
            (ws, cur.push(c))
        }
    }
}

/// The maximal runs of non-whitespace characters (`str::split_whitespace`).
pub open spec fn words(s: Seq<char>) -> Seq<Seq<char>> {
    let (ws, cur) = words_state(s);
    if cur.len() > 0 {
        ws.push(cur)
    } else {
        ws
    }
}

/// Words joined by single spaces (`join(" ")`).
pub open spec fn join_spaced(ws: Seq<Seq<char>>) -> Seq<char>
    decreases ws.len(),
{
    if ws.len() == 0 {
        Seq::empty()
    } else if ws.len() == 1 {
        ws[0]
    } else {
        join_spaced(ws.drop_last()) + seq![' '] + ws.last()
    }
}

/// Splits on whitespace.
pub fn split_words(s: &Vec<char>) -> (r: Vec<Vec<char>>)
    ensures
        r@.len() == words(s@).len(),
        forall|k: int| 0 <= k < r@.len() ==> (#[trigger] r@[k])@ == words(s@)[k],
{
    let mut ws: Vec<Vec<char>> = Vec::new();
    let mut cur: Vec<char> = Vec::new();
    let mut i: usize = 0;
    while i < s.len()
        invariant
            i <= s@.len(),
            ws@.len() == words_state(s@.take(i as int)).0.len(),
            forall|k: int| 0 <= k < ws@.len() ==> (#[trigger] ws@[k])@ == words_state(s@.take(i as int)).0[k],
            cur@ == words_state(s@.take(i as int)).1,
        decreases s@.len() - i,
    {
        let c = s[i];
        assert(s@.take(i as int + 1).drop_last() =~= s@.take(i as int));
        if is_whitespace(c) {
            if cur.len() > 0 {
                let done = cur;
                ws.push(done);
                cur = Vec::new();
            }
        } else {
            cur.push(c);
        }
        i = i + 1;
    }
    assert(s@.take(i as int) =~= s@);
    if cur.len() > 0 {
        ws.push(cur);
    }
    ws
}

/// Joins words with single spaces.
pub fn join_words(ws: &Vec<Vec<char>>, from: usize) -> (r: Vec<char>)
    requires
        from <= ws@.len(),
    ensures
        r@ == join_spaced(ws@.subrange(from as int, ws@.len() as int).map_values(|w: Vec<char>| w@)),
{
    let mut r: Vec<char> = Vec::new();
    let mut k: usize = from;
    while k < ws.len()
        invariant
            from <= k <= ws@.len(),
            r@ == join_spaced(ws@.subrange(from as int, k as int).map_values(|w: Vec<char>| w@)),
        decreases ws@.len() - k,
    {
        let ghost prev = ws@.subrange(from as int, k as int).map_values(|w: Vec<char>| w@);
        let ghost next = ws@.subrange(from as int, k as int + 1).map_values(|w: Vec<char>| w@);
        assert(next.drop_last() =~= prev);
        if k > from {
            r.push(' ');
        }
        let w = &ws[k];
        let mut j: usize = 0;
        let ghost base = r@;
        while j < w.len()
            invariant
                j <= w@.len(),
                r@ == base + w@.take(j as int),
            decreases w@.len() - j,
        {
            r.push(w[j]);
            assert(r@ =~= base + w@.take(j as int + 1));
            j = j + 1;
        }
        assert(w@.take(j as int) =~= w@);
        proof {
            if k > from {
                assert(r@ =~= join_spaced(prev) + seq![' '] + next.last());
            } else {
                assert(prev.len() == 0);
                assert(r@ =~= next[0]);
            }
        }
        k = k + 1;
    }
    r
}

/// The arguments of a server command joined as the plugins receive them:
/// separated by one space, no space before the first non-empty text.
pub open spec fn command_args_text(args: Seq<Seq<char>>) -> Seq<char>
    decreases args.len(),
{
    if args.len() == 0 {
        Seq::empty()
    } else {
        let acc = command_args_text(args.drop_last());
        if acc.len() == 0 {
            args.last()
        } else {
            acc + seq![' '] + args.last()
        }
    }
}

/// Joins the arguments of a plugin's server command (those after the
/// command name that could be read).
pub fn join_command_args(args: &Vec<String>) -> (r: String)
    ensures
        r@ == command_args_text(args@.map_values(|s: String| s@)),
{
    let mut out: Vec<char> = Vec::new();
    let mut k: usize = 0;
    while k < args.len()
        invariant
            k <= args@.len(),
            out@ == command_args_text(args@.take(k as int).map_values(|s: String| s@)),
        decreases args@.len() - k,
    {
        let ghost prev = args@.take(k as int).map_values(|s: String| s@);
        let ghost next = args@.take(k as int + 1).map_values(|s: String| s@);
        assert(next.drop_last() =~= prev);
        let ghost before = out@;
        if out.len() > 0 {
            out.push(' ');
        }
        let w = str_chars(args[k].as_str());
        let ghost mid = out@;
        let mut j: usize = 0;
        while j < w.len()
            invariant
                j <= w@.len(),
                out@ == mid + w@.take(j as int),
            decreases w@.len() - j,
        {
            out.push(w[j]);
            assert(out@ =~= mid + w@.take(j as int + 1));
            j = j + 1;
        }
        assert(w@.take(j as int) =~= w@);
        proof {
            if before.len() > 0 {
                assert(out@ =~= before + seq![' '] + next.last());
            } else {
                assert(out@ =~= next.last());
            }
        }
        k = k + 1;
    }
    assert(args@.take(args@.len() as int) =~= args@);
    chars_to_string(&out)
}

/// The message printed when no plugin handled a server command.
pub fn unhandled_command_message(cmd: &str) -> (r: String)
    ensures
        r@ == "[GoldSrc.rs] Command '"@ + cmd@ + "' was not handled by any active plugin.\n"@,
{
    let mut m: Vec<char> = Vec::new();
    extend_str(&mut m, "[GoldSrc.rs] Command '");
    extend_str(&mut m, cmd);
    extend_str(&mut m, "' was not handled by any active plugin.\n");
    chars_to_string(&m)
}

/// The sequence without its leading `/` and `!` characters.
pub open spec fn strip_command_marks(s: Seq<char>) -> Seq<char>
    decreases s.len(),
{
    if s.len() > 0 && (s[0] == '/' || s[0] == '!') {
        strip_command_marks(s.drop_first())
    } else {
        s
    }
}

fn strip_command_marks_chars(s: &Vec<char>) -> (r: Vec<char>)
    ensures
        r@ == strip_command_marks(s@),
{
    let mut i: usize = 0;
    assert(s@.subrange(0, s@.len() as int) =~= s@);
    while i < s.len() && (s[i] == '/' || s[i] == '!')
        invariant
            i <= s@.len(),
            strip_command_marks(s@) == strip_command_marks(s@.subrange(i as int, s@.len() as int)),
        decreases s@.len() - i,
    {
        assert(s@.subrange(i as int, s@.len() as int).drop_first() =~= s@.subrange(i as int + 1, s@.len() as int));
        i = i + 1;
    }
    let mut r: Vec<char> = Vec::new();
    let mut j: usize = i;
    while j < s.len()
        invariant
            i <= j <= s@.len(),
            r@ == s@.subrange(i as int, j as int),
        decreases s@.len() - j,
    {
        r.push(s[j]);
        assert(r@ =~= s@.subrange(i as int, j as int + 1));
        j = j + 1;
    }
    r
}

/// The text of a chat message: trimmed, and without one pair of surrounding
/// double quotes.
pub open spec fn chat_text(raw_args: Seq<char>) -> Seq<char> {
    let t = trim(raw_args);
    if t.len() >= 2 && t[0] == '"' && t.last() == '"' {
        t.subrange(1, t.len() - 1)
    } else {
        t
    }
}

/// How a client command is handled.
pub enum ClientCommandPlan {
    /// `menuselect`: the plugins get a `menu_select` event with this payload
    /// (player index, then slot, little-endian); the command counts as
    /// handled when the event reached the plugins.
    MenuSelect { slot: u8, payload: [u8; 8] },
    /// `say` / `say_team`: when the message has a first word, the plugins are
    /// offered the command `clean_trigger`, then `trigger`, with `rest_args`;
    /// if neither is taken, `text` goes through the chat pipeline, to the
    /// sender's team only when `team_only`.
    Chat {
        text: String,
        trigger: Option<(String, String)>,
        rest_args: String,
        team_only: bool,
    },
    /// Any other command goes to the plugins as it is.
    Console,
}

/// Decides how a client command is handled.
pub fn plan_client_command(player_idx: i32, cmd: &str, raw_args: &str) -> (r: ClientCommandPlan)
    ensures
        eq_ignore_ascii_case(cmd@, "menuselect"@) ==> (r matches ClientCommandPlan::MenuSelect { slot, payload }
            && slot as nat == menu_slot_of(raw_args@)
            && payload@ == le_bytes(player_idx as u32) + le_bytes(slot as u32)),
        !eq_ignore_ascii_case(cmd@, "menuselect"@) && (eq_ignore_ascii_case(cmd@, "say"@)
            || eq_ignore_ascii_case(cmd@, "say_team"@)) ==> (r matches ClientCommandPlan::Chat {
            text, trigger, rest_args, team_only }
            && text@ == chat_text(raw_args@)
            && team_only == eq_ignore_ascii_case(cmd@, "say_team"@)
            && (words(chat_text(raw_args@)).len() == 0 ==> trigger is None)
            && (words(chat_text(raw_args@)).len() > 0 ==> (trigger matches Some((clean, raw))
                && raw@ == words(chat_text(raw_args@))[0]
                && clean@ == strip_command_marks(words(chat_text(raw_args@))[0])
                && rest_args@ == join_spaced(words(chat_text(raw_args@)).drop_first())))),
        !eq_ignore_ascii_case(cmd@, "menuselect"@) && !eq_ignore_ascii_case(cmd@, "say"@)
            && !eq_ignore_ascii_case(cmd@, "say_team"@) ==> r is Console,
{
    if eq_ignore_ascii_case_str(cmd, "menuselect") {
        let slot = menu_slot(raw_args);
        let payload = pack_i32_u32(player_idx, slot as u32);
        return ClientCommandPlan::MenuSelect { slot, payload };
    }
    let is_say = eq_ignore_ascii_case_str(cmd, "say");
    let is_team = eq_ignore_ascii_case_str(cmd, "say_team");
    if !is_say && !is_team {
        return ClientCommandPlan::Console;
    }
    let t = trim_chars(&str_chars(raw_args));
    let text: Vec<char> = if t.len() >= 2 && t[0] == '"' && t[t.len() - 1] == '"' {
        let mut u: Vec<char> = Vec::new();
        let mut j: usize = 1;
        while j < t.len() - 1
            invariant
                t@.len() >= 2,
                1 <= j <= t@.len() - 1,
                u@ == t@.subrange(1, j as int),
            decreases t@.len() - 1 - j,
        {
            u.push(t[j]);
            assert(u@ =~= t@.subrange(1, j as int + 1));
            j = j + 1;
        }
        u
    } else {
        t
    };
    assert(text@ == chat_text(raw_args@));
    let ws = split_words(&text);
    proof {
        assert(ws@.map_values(|w: Vec<char>| w@) =~= words(text@));
    }
    let mut trigger: Option<(String, String)> = None;
    let mut rest: Vec<char> = Vec::new();
    if ws.len() > 0 {
        let clean = strip_command_marks_chars(&ws[0]);
        rest = join_words(&ws, 1);
        proof {
            assert(ws@.subrange(1, ws@.len() as int).map_values(|w: Vec<char>| w@) =~= words(text@).drop_first());
        }
        trigger = Some((chars_to_string(&clean), chars_to_string(&ws[0])));
    }
    ClientCommandPlan::Chat {
        text: chars_to_string(&text),
        trigger,
        rest_args: chars_to_string(&rest),
        team_only: is_team,
    }
}

/// Packs a signed and an unsigned 32-bit number, little-endian.
fn pack_i32_u32(a: i32, b: u32) -> (r: [u8; 8])
    ensures
        r@ == le_bytes(a as u32) + le_bytes(b),
{
    let x = u32_le_bytes(a as u32);
    let y = u32_le_bytes(b);
    let r = [x[0], x[1], x[2], x[3], y[0], y[1], y[2], y[3]];
    assert(r@ =~= le_bytes(a as u32) + le_bytes(b));
    r
}

/// Whether a client command counts as handled, so that the game does not
/// see it: it does only when the plugin host runs and a plugin took it. A
/// `menuselect` is handled when its event reached the plugins
/// (`event_delivered`); a chat message when a plugin took its trigger,
/// cleaned (`clean_taken`) or as typed (`raw_taken`), or else the chat
/// pipeline handled it (`chat_handled`); any other command when a plugin
/// took it (`console_taken`).
pub fn client_command_handled(
    plan: &ClientCommandPlan,
    host_running: bool,
    event_delivered: bool,
    clean_taken: bool,
    raw_taken: bool,
    chat_handled: bool,
    console_taken: bool,
) -> (r: bool)
    ensures
        r == match plan {
            ClientCommandPlan::MenuSelect { .. } => event_delivered,
            ClientCommandPlan::Chat { trigger, .. } => host_running && ((trigger is Some && (clean_taken || raw_taken))
                || chat_handled),
            ClientCommandPlan::Console => host_running && console_taken,
        },
{
    match plan {
        ClientCommandPlan::MenuSelect { .. } => event_delivered,
        ClientCommandPlan::Chat { trigger, .. } => {
            if !host_running {
                false
            } else if trigger.is_some() && (clean_taken || raw_taken) {
                true
            } else {
                chat_handled
            }
        },
        ClientCommandPlan::Console => host_running && console_taken,
    }
}

/// The distance from `base` up to `addr`, wrapping around the address space
/// (`usize::wrapping_sub`).
pub open spec fn address_offset(addr: usize, base: usize) -> int {
    if addr >= base {
        addr - base
    } else {
        addr - base + usize::MAX + 1
    }
}

/// The entity index of the edict at address `addr`, given the address of
/// the engine's edict array, its number of edicts and the size of one edict;
/// 0 for a null address, before the array is known, or for an address that
/// is not one of its edicts.
pub fn edict_index(addr: usize, base: usize, count: i32, edict_size: usize) -> (r: i32)
    ensures
        r == (if addr != 0 && base != 0 && count > 0 && edict_size > 0 && address_offset(addr, base) % (edict_size as int) == 0
            && 0 <= ((address_offset(addr, base) / (edict_size as int)) as i32) < count {
            (address_offset(addr, base) / (edict_size as int)) as i32
        } else {
            0
        }),
{
    if addr == 0 {
        return 0;
    }
    if base != 0 && count > 0 {
        let diff: usize = if addr >= base {
            addr - base
        } else {
            (usize::MAX - (base - addr)) + 1
        };
        if edict_size > 0 && diff % edict_size == 0 {
            let idx = (diff / edict_size) as i32;
            if idx >= 0 && idx < count {
                return idx;
            }
        }
        return 0;
    }
    0
}

} // verus!
