//! The `ShowMenu` messages a menu text is sent in: the engine's user
//! message buffer holds 192 bytes, so a long text goes out in chunks of at
//! most 150 bytes, cut at character boundaries, each but the last flagged
//! as continued.

use vstd::prelude::*;
use crate::text::{str_chars, chars_to_string, utf8_len, len_utf8, lemma_utf8_len_prefix};
use crate::print::{byte_prefix, lemma_byte_prefix};

verus! {

/// The most text bytes of one `ShowMenu` message.
pub const MAX_SHOW_MENU_CHUNK_SIZE: usize = 150;

/// The `ShowMenu` message id to use: the one the engine registered, or 9
/// when registration gave nothing.
pub fn show_menu_msg_id(registered: i32) -> (r: i32)
    ensures
        r == (if registered <= 0 { 9 } else { registered }),
{
    if registered <= 0 {
        9
    } else {
        registered
    }
}

/// One `ShowMenu` message: the keys the menu accepts, its display time, whether
/// more text follows, and its text.
pub struct ShowMenuPacket {
    pub keys_mask: i32,
    pub timeout: i32,
    pub more: bool,
    pub text: String,
}

/// The number of characters of the next chunk of `s`: the longest prefix
/// of at most `max` bytes, or one character when not even one fits.
pub open spec fn chunk_len(s: Seq<char>, max: nat) -> int {
    if byte_prefix(s, max).len() == 0 {
        1
    } else {
        byte_prefix(s, max).len() as int
    }
}

/// The byte-limited prefix of a sequence is one of its prefixes.
pub proof fn lemma_byte_prefix_is_prefix(s: Seq<char>, max: nat)
    ensures
        byte_prefix(s, max).len() <= s.len(),
        byte_prefix(s, max) == s.take(byte_prefix(s, max).len() as int),
    decreases s.len(),
{
    if utf8_len(s) <= max || s.len() == 0 {
        assert(s.take(s.len() as int) =~= s);
    } else {
        lemma_byte_prefix_is_prefix(s.drop_last(), max);
        let p = byte_prefix(s.drop_last(), max);
        assert(s.drop_last().take(p.len() as int) =~= s.take(p.len() as int));
    }
}

/// The chunks in which `s` is sent.
pub open spec fn menu_chunks(s: Seq<char>, max: nat) -> Seq<Seq<char>>
    decreases s.len(),
{
    if s.len() == 0 {
        Seq::empty()
    } else {
        proof {
            lemma_byte_prefix_is_prefix(s, max);
        }
        seq![s.take(chunk_len(s, max))] + menu_chunks(s.skip(chunk_len(s, max)), max)
    }
}

proof fn lemma_menu_chunks_len(s: Seq<char>, max: nat)
    ensures
        (menu_chunks(s, max).len() == 0) == (s.len() == 0),
{
    if s.len() > 0 {
        lemma_byte_prefix_is_prefix(s, max);
    }
}

/// The messages that show a menu text: one empty message for an empty text,
/// else one per chunk, each but the last flagged as continued.
pub fn show_menu_packets(keys_mask: i32, timeout: i32, text: &str) -> (r: Vec<ShowMenuPacket>)
    ensures
        text@.len() == 0 ==> r@.len() == 1 && r@[0].keys_mask == keys_mask && r@[0].timeout == timeout && !r@[0].more
            && r@[0].text@.len() == 0,
        text@.len() > 0 ==> r@.len() == menu_chunks(text@, 150).len() && forall|k: int|
            0 <= k < r@.len() ==> {
                &&& (#[trigger] r@[k]).keys_mask == keys_mask
                &&& r@[k].timeout == timeout
                &&& r@[k].text@ == menu_chunks(text@, 150)[k]
                &&& r@[k].more == (k + 1 < r@.len())
            },
{
    let cs = str_chars(text);
    let n = cs.len();
    let mut r: Vec<ShowMenuPacket> = Vec::new();
    if n == 0 {
        r.push(ShowMenuPacket { keys_mask, timeout, more: false, text: String::new() });
        return r;
    }
    let ghost all = menu_chunks(text@, 150);
    let mut pos: usize = 0;
    proof {
        assert(cs@.skip(0) =~= cs@);
    }
    while pos < n
        invariant
            cs@ == text@,
            n == cs@.len(),
            pos <= n,
            n > 0,
            all == menu_chunks(text@, 150),
            all.len() == r@.len() + menu_chunks(cs@.skip(pos as int), 150).len(),
            forall|k: int| 0 <= k < r@.len() ==> {
                &&& (#[trigger] r@[k]).keys_mask == keys_mask
                &&& r@[k].timeout == timeout
                &&& r@[k].text@ == all[k]
                &&& r@[k].more == (k + 1 < all.len())
            },
            forall|j: int| r@.len() <= j < all.len() ==> #[trigger] all[j] == menu_chunks(cs@.skip(pos as int), 150)[j
                - r@.len()],
        decreases n - pos,
    {
        let ghost t = cs@.skip(pos as int);
        let mut k: usize = pos;
        let mut used: usize = 0;
        while k < n && used + len_utf8(cs[k]) <= MAX_SHOW_MENU_CHUNK_SIZE
            invariant
                pos <= k <= n,
                n == cs@.len(),
                t == cs@.skip(pos as int),
                used <= MAX_SHOW_MENU_CHUNK_SIZE,
                used as nat == utf8_len(t.take(k - pos)),
            decreases n - k,
        {
            assert(t.take(k - pos + 1).drop_last() =~= t.take(k - pos));
            used = used + len_utf8(cs[k]);
            k = k + 1;
        }
        proof {
            if k < n {
                assert(t.take(k - pos + 1).drop_last() =~= t.take(k - pos));
            }
            lemma_byte_prefix(t, 150, k - pos);
        }
        if k == pos {
            k = pos + 1;
        }
        let mut chunk: Vec<char> = Vec::new();
        let mut q: usize = pos;
        while q < k
            invariant
                pos <= q <= k <= n,
                n == cs@.len(),
                chunk@ == cs@.subrange(pos as int, q as int),
            decreases k - q,
        {
            chunk.push(cs[q]);
            assert(chunk@ =~= cs@.subrange(pos as int, q as int + 1));
            q = q + 1;
        }
        proof {
            assert(t.len() > 0);
            assert(k - pos == chunk_len(t, 150));
            assert(chunk@ =~= t.take(chunk_len(t, 150)));
            assert(t.skip(chunk_len(t, 150)) =~= cs@.skip(k as int));
            assert(menu_chunks(t, 150) == seq![t.take(chunk_len(t, 150))] + menu_chunks(cs@.skip(k as int), 150));
            lemma_menu_chunks_len(cs@.skip(k as int), 150);
        }
        let more = k < n;
        let ghost before = r@;
        r.push(ShowMenuPacket { keys_mask, timeout, more, text: chars_to_string(&chunk) });
        proof {
            lemma_menu_chunks_len(t, 150);
            assert(all[before.len() as int] == menu_chunks(t, 150)[0]);
            assert forall|j: int| r@.len() <= j < all.len() implies #[trigger] all[j] == menu_chunks(cs@.skip(k as int), 150)[j
                - r@.len()] by {
                assert(all[j] == menu_chunks(t, 150)[j - before.len()]);
            }
        }
        pos = k;
    }
    proof {
        assert(cs@.skip(n as int) =~= Seq::<char>::empty());
    }
    r
}

/// The message that closes a player's menu: no keys, no time, no text.
pub fn clear_menu_packet() -> (r: ShowMenuPacket)
    ensures
        r.keys_mask == 0 && r.timeout == 0 && !r.more && r.text@.len() == 0,
{
    ShowMenuPacket { keys_mask: 0, timeout: 0, more: false, text: String::new() }
}

} // verus!
