//! The chat middleware pipeline: a message goes through the registered
//! middleware in order, any of which may stop or block it, and what is
//! left is printed with its prefix.

use vstd::prelude::*;
use crate::text::{chars_to_string, extend_str};

verus! {

/// A chat message on its way through the middleware.
pub struct ChatMessage {
    /// The player who sent it.
    pub sender: i32,
    /// The text as the player typed it.
    pub raw_text: String,
    /// The text as the middleware leave it.
    pub formatted_text: String,
    /// A prefix the middleware put before the text.
    pub prefix: Option<String>,
    /// Whether a middleware blocked the message.
    pub is_blocked: bool,
    /// Whether the message goes to the sender's team only.
    pub team_only: bool,
}

impl ChatMessage {
    /// A message as the player sent it: formatted as typed, without prefix,
    /// not blocked.
    pub fn new(sender: i32, text: &str, team_only: bool) -> (r: Self)
        ensures
            r.sender == sender,
            r.raw_text@ == text@,
            r.formatted_text@ == text@,
            r.prefix is None,
            !r.is_blocked,
            r.team_only == team_only,
    {
        ChatMessage {
            sender,
            raw_text: text.to_string(),
            formatted_text: text.to_string(),
            prefix: None,
            is_blocked: false,
            team_only,
        }
    }
}

/// Whether the pipeline goes on after a middleware: it allowed the message
/// and the message is not blocked.
pub fn chat_goes_on(allowed: bool, msg: &ChatMessage) -> (r: bool)
    ensures
        r == (allowed && !msg.is_blocked),
{
    allowed && !msg.is_blocked
}

/// The text a message ends as: its prefix, then its formatted text.
pub open spec fn final_text(msg: ChatMessage) -> Seq<char> {
    match msg.prefix {
        Some(p) => p@ + msg.formatted_text@,
        None => msg.formatted_text@,
    }
}

/// The text a message that went through every middleware ends as.
pub fn chat_final_text(msg: &ChatMessage) -> (r: String)
    ensures
        r@ == final_text(*msg),
{
    let mut v: Vec<char> = Vec::new();
    match &msg.prefix {
        Some(p) => extend_str(&mut v, p.as_str()),
        None => {},
    }
    extend_str(&mut v, msg.formatted_text.as_str());
    chars_to_string(&v)
}

/// What the pipeline gives for a message, from what each middleware that
/// ran said (whether it allowed the message, and whether the message was
/// blocked after it), in order: nothing when one of them stopped it, else
/// the final text of the message as the last one left it.
pub open spec fn chat_outcome(results: Seq<(bool, bool)>, last: ChatMessage) -> Option<Seq<char>> {
    if exists|i: int| 0 <= i < results.len() && !((#[trigger] results[i]).0 && !results[i].1) {
        None
    } else {
        Some(final_text(last))
    }
}

/// The outcome of the pipeline, as `chat_outcome` says.
pub fn chat_pipeline_outcome(results: &Vec<(bool, bool)>, last: &ChatMessage) -> (r: Option<String>)
    ensures
        match chat_outcome(results@, *last) {
            Some(t) => r matches Some(s) && s@ == t,
            None => r is None,
        },
{
    let mut i: usize = 0;
    while i < results.len()
        invariant
            i <= results@.len(),
            forall|j: int| 0 <= j < i ==> (#[trigger] results@[j]).0 && !results@[j].1,
        decreases results@.len() - i,
    {
        let (allowed, blocked) = results[i];
        if !(allowed && !blocked) {
            assert(!(results@[i as int].0 && !results@[i as int].1));
            return None;
        }
        i = i + 1;
    }
    Some(chat_final_text(last))
}

} // verus!
