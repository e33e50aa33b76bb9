//! Deferred server prints and the escaping that makes text safe to print.
//!
//! Printing is deferred to the post-frame hook because the engine is unstable
//! if a plugin prints mid-frame. The server routes its prints through a
//! format library, so `%`, `{` and `}` are escaped.

use vstd::prelude::*;
use std::collections::VecDeque;
use crate::text::{str_chars, chars_to_string, utf8_len, char_utf8_len, len_utf8, lemma_utf8_len_prefix};

verus! {

/// The most characters of one server print, before its final newline.
pub const MAX_SERVER_PRINT_CHARS: usize = 1024;

/// What one character becomes in a server print: NUL, CR and LF vanish,
/// `%` `{` `}` are doubled.
pub open spec fn escape_char(c: char) -> Seq<char> {
    if c == '\0' || c == '\r' || c == '\n' {
        Seq::empty()
    } else if c == '%' || c == '{' || c == '}' {
        seq![c, c]
    } else {
        seq![c]
    }
}

/// A message with every character escaped.
pub open spec fn escape_chars(s: Seq<char>) -> Seq<char>
    decreases s.len(),
{
    if s.len() == 0 {
        Seq::empty()
    } else {
        escape_chars(s.drop_last()) + escape_char(s.last())
    }
}

/// The longest prefix of `s` whose UTF-8 encoding has at most `max` bytes.
pub open spec fn byte_prefix(s: Seq<char>, max: nat) -> Seq<char>
    decreases s.len(),
{
    if utf8_len(s) <= max || s.len() == 0 {
        s
    } else {
        byte_prefix(s.drop_last(), max)
    }
}

/// The escaped text of the longest prefix of `s` whose escaped form has at
/// most `max` characters: the cut falls between escaped characters, so a
/// doubled `%`, `{` or `}` is never split.
pub open spec fn escaped_cut(s: Seq<char>, max: nat) -> Seq<char>
    decreases s.len(),
{
    if s.len() == 0 || escape_chars(s).len() <= max {
        escape_chars(s)
    } else {
        escaped_cut(s.drop_last(), max)
    }
}

/// The line printed for a message: escaped, cut to 1024 characters between
/// escaped characters, and ended by a newline.
pub open spec fn server_print_line(message: Seq<char>) -> Seq<char> {
    escaped_cut(message, 1024) + seq!['\n']
}

proof fn lemma_escaped_len_mono(s: Seq<char>, k: int)
    requires
        0 <= k <= s.len(),
    ensures
        escape_chars(s.take(k)).len() <= escape_chars(s).len(),
    decreases s.len() - k,
{
    if k < s.len() {
        lemma_escaped_len_mono(s.drop_last(), k);
        assert(s.drop_last().take(k) =~= s.take(k));
    } else {
        assert(s.take(k) =~= s);
    }
}

proof fn lemma_escaped_cut(s: Seq<char>, max: nat, k: int)
    requires
        0 <= k <= s.len(),
        escape_chars(s.take(k)).len() <= max,
        k == s.len() || escape_chars(s.take(k + 1)).len() > max,
    ensures
        escaped_cut(s, max) == escape_chars(s.take(k)),
    decreases s.len(),
{
    if k == s.len() {
        assert(s.take(k) =~= s);
    } else {
        lemma_escaped_len_mono(s, k + 1);
        assert(s.drop_last().take(k) =~= s.take(k));
        if k + 1 < s.len() {
            assert(s.drop_last().take(k + 1) =~= s.take(k + 1));
        }
        lemma_escaped_cut(s.drop_last(), max, k);
    }
}

/// The byte-limited prefix is `s.take(k)` when `k` characters fit and one more would not.
pub proof fn lemma_byte_prefix(s: Seq<char>, max: nat, k: int)
    requires
        0 <= k <= s.len(),
        utf8_len(s.take(k)) <= max,
        k == s.len() || utf8_len(s.take(k + 1)) > max,
    ensures
        byte_prefix(s, max) == s.take(k),
    decreases s.len(),
{
    if k == s.len() {
        assert(s.take(k) =~= s);
    } else {
        lemma_utf8_len_prefix(s, k + 1);
        assert(s.drop_last().take(k) =~= s.take(k));
        if k + 1 < s.len() {
            assert(s.drop_last().take(k + 1) =~= s.take(k + 1));
        }
        lemma_byte_prefix(s.drop_last(), max, k);
    }
}

/// Escapes a message for the server console: strips NUL, CR and LF,
/// doubles `%`, `{` and `}`, cuts the line to 1024 characters between
/// escaped characters (a doubled character stays whole) and ends it with a
/// newline.
pub fn escape_server_print(message: &str) -> (r: String)
    ensures
        r@ == server_print_line(message@),
        exists|k: int| 0 <= k <= message@.len() && r@ == escape_chars(#[trigger] message@.take(k)) + seq!['\n'],
        r@.len() <= MAX_SERVER_PRINT_CHARS + 1,
{
    let cs = str_chars(message);
    let mut out: Vec<char> = Vec::new();
    let mut i: usize = 0;
    while i < cs.len()
        invariant
            cs@ == message@,
            i <= cs@.len(),
            out@ == escape_chars(cs@.take(i as int)),
            out@.len() <= MAX_SERVER_PRINT_CHARS,
        ensures
            out@ == escape_chars(cs@.take(i as int)),
            out@.len() <= MAX_SERVER_PRINT_CHARS,
            i <= cs@.len(),
            i == cs@.len() || escape_chars(cs@.take(i + 1)).len() > MAX_SERVER_PRINT_CHARS,
        decreases cs@.len() - i,
    {
        let c = cs[i];
        let ghost next = cs@.take(i + 1);
        assert(next.drop_last() =~= cs@.take(i as int));
        assert(next.last() == c);
        let unit: usize = if c == '\0' || c == '\r' || c == '\n' {
            0
        } else if c == '%' || c == '{' || c == '}' {
            2
        } else {
            1
        };
        assert(unit as nat == escape_char(c).len());
        if unit > MAX_SERVER_PRINT_CHARS - out.len() {
            break;
        }
        if c == '\0' || c == '\r' || c == '\n' {
        } else if c == '%' || c == '{' || c == '}' {
            out.push(c);
            out.push(c);
        } else {
            out.push(c);
        }
        assert(out@ =~= escape_chars(next));
        i = i + 1;
    }
    proof {
        lemma_escaped_cut(cs@, 1024, i as int);
    }
    let ghost body = out@;
    out.push('\n');
    assert(out@ =~= body + seq!['\n']);
    chars_to_string(&out)
}

/// A client print after encoding: NUL bytes dropped, `%` doubled, and a NUL
/// terminator added.
pub open spec fn client_print_bytes(encoded: Seq<u8>) -> Seq<u8>
    decreases encoded.len(),
{
    if encoded.len() == 0 {
        seq![0u8]
    } else {
        let rest = client_print_bytes(encoded.drop_last()).drop_last();
        let b = encoded.last();
        let body = if b == 0 {
            rest
        } else if b == 37 {
            rest + seq![37u8, 37u8]
        } else {
            rest.push(b)
        };
        body.push(0u8)
    }
}

/// Makes an encoded console, center or chat print safe for the client: drops
/// NUL bytes, doubles `%`, and terminates it with NUL.
pub fn sanitize_client_print(encoded: &[u8]) -> (r: Vec<u8>)
    ensures
        r@ == client_print_bytes(encoded@),
{
    let mut out: Vec<u8> = Vec::new();
    let mut i: usize = 0;
    while i < encoded.len()
        invariant
            i <= encoded@.len(),
            out@.push(0u8) == client_print_bytes(encoded@.take(i as int)),
        decreases encoded@.len() - i,
    {
        let b = encoded[i];
        let ghost prev = out@;
        assert(encoded@.take(i as int + 1).drop_last() =~= encoded@.take(i as int));
        assert(client_print_bytes(encoded@.take(i as int)).drop_last() =~= prev);
        if b == 0 {
        } else if b == 37 {
            out.push(37);
            out.push(37);
        } else {
            out.push(b);
        }
        assert(out@.push(0u8) =~= client_print_bytes(encoded@.take(i as int + 1)));
        i = i + 1;
    }
    assert(encoded@.take(i as int) =~= encoded@);
    out.push(0);
    out
}

/// Server prints waiting for the end of the frame, oldest first.
pub struct PrintQueue {
    pending: VecDeque<String>,
}

impl PrintQueue {
    /// The queued messages, oldest first.
    pub closed spec fn messages(&self) -> Seq<Seq<char>> {
        self.pending@.map_values(|m: String| m@)
    }

    /// Creates an empty print queue.
    pub fn new() -> (q: Self)
        ensures
            q.messages() == Seq::<Seq<char>>::empty(),
    {
        let q = PrintQueue { pending: VecDeque::new() };
        assert(q.messages() =~= Seq::<Seq<char>>::empty());
        q
    }

    /// Adds a message to the back of the queue.
    pub fn push(&mut self, message: &str)
        ensures
            final(self).messages() == old(self).messages().push(message@),
    {
        self.pending.push_back(message.to_string());
        assert(self.messages() =~= old(self).messages().push(message@));
    }

    /// Takes all pending messages, oldest first, each escaped for the server
    /// console; the queue is left empty.
    pub fn drain(&mut self) -> (r: Vec<String>)
        ensures
            final(self).messages() == Seq::<Seq<char>>::empty(),
            r@.len() == old(self).messages().len(),
            forall|k: int| 0 <= k < r@.len() ==> (#[trigger] r@[k])@ == server_print_line(old(self).messages()[k]),
    {
        let mut out: Vec<String> = Vec::new();
        let ghost orig = self.messages();
        while self.pending.len() > 0
            invariant
                out@.len() + self.messages().len() == orig.len(),
                forall|k: int| 0 <= k < out@.len() ==> (#[trigger] out@[k])@ == server_print_line(orig[k]),
                forall|k: int| 0 <= k < self.messages().len() ==> #[trigger] self.messages()[k] == orig[out@.len() + k],
            decreases self.pending@.len(),
        {
            let ghost before = self.messages();
            let m = self.pending.pop_front().unwrap();
            assert(self.messages() =~= before.drop_first());
            assert(m@ == before[0]);
            out.push(escape_server_print(m.as_str()));
        }
        assert(self.messages() =~= Seq::<Seq<char>>::empty());
        out
    }
}

impl Default for PrintQueue {
    fn default() -> (q: Self)
        ensures
            q.messages() == Seq::<Seq<char>>::empty(),
    {
        PrintQueue::new()
    }
}

} // verus!
