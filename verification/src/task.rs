//! The queue of tasks handed to the main engine thread, and the per-frame
//! limit on how many of them run.

use vstd::prelude::*;

verus! {

/// The sending side of a `crossbeam_channel` channel.
#[verifier::external_type_specification]
#[verifier::external_body]
#[verifier::reject_recursive_types(T)]
pub struct ExSender<T>(crossbeam_channel::Sender<T>);

/// The receiving side of a `crossbeam_channel` channel.
#[verifier::external_type_specification]
#[verifier::external_body]
#[verifier::reject_recursive_types(T)]
pub struct ExReceiver<T>(crossbeam_channel::Receiver<T>);

/// Creates an unbounded channel (`crossbeam_channel::unbounded`).
#[verifier::external_body]
fn unbounded_channel<T>() -> (crossbeam_channel::Sender<T>, crossbeam_channel::Receiver<T>) {
    crossbeam_channel::unbounded()
}

/// Sends a message (`Sender::send`); false when every receiver is gone.
/// Nothing is stated of the channel's contents, which other handles share.
#[verifier::external_body]
fn channel_send<T>(tx: &crossbeam_channel::Sender<T>, msg: T) -> bool {
    tx.send(msg).is_ok()
}

/// Takes the oldest message, if one is waiting (`Receiver::try_recv`).
/// What comes back depends on the other threads that share the channel.
#[verifier::external_body]
fn channel_try_recv<T>(rx: &crossbeam_channel::Receiver<T>) -> Option<T> {
    rx.try_recv().ok()
}

/// A queue of tasks for the main thread, fed from any thread.
#[verifier::reject_recursive_types(T)]
pub struct TaskQueue<T> {
    tx: crossbeam_channel::Sender<T>,
    rx: crossbeam_channel::Receiver<T>,
}

impl<T> TaskQueue<T> {
    /// Creates an empty queue.
    pub fn new() -> (q: Self) {
        let (tx, rx) = unbounded_channel();
        TaskQueue { tx, rx }
    }

    /// Queues a task for the main thread.
    pub fn dispatch(&self, task: T) {
        let _ = channel_send(&self.tx, task);
    }

    /// Takes the waiting tasks, oldest first, stopping at `max_tasks` so that
    /// one frame never runs more than that; the caller runs them in order.
    /// What comes back depends on what other threads have queued; each task
    /// the channel hands over is taken as `accept_reply` says.
    pub fn drain_main_tasks(&self, max_tasks: usize) -> (r: Vec<T>)
        ensures
            r@.len() <= max_tasks,
            exists|replies: Seq<Option<T>>|
                r@ == take_until_empty(replies, max_tasks as nat) && (r@.len() < max_tasks ==> replies.len() == r@.len()
                    + 1 && replies.last() is None),
    {
        let mut out: Vec<T> = Vec::new();
        let mut more = max_tasks > 0;
        let ghost mut replies: Seq<Option<T>> = Seq::empty();
        let ghost mut ended = false;
        proof {
            lemma_take_all_tasks(replies, max_tasks as nat);
            assert(replies.map_values(|o: Option<T>| o->0) =~= out@);
        }
        while more
            invariant
                out@.len() <= max_tasks,
                more ==> out@.len() < max_tasks && !ended,
                !more && !ended ==> out@.len() == max_tasks,
                !ended ==> replies.len() == out@.len() && (forall|i: int| 0 <= i < replies.len() ==> (#[trigger] replies[i]) is Some)
                    && replies.map_values(|o: Option<T>| o->0) == out@,
                ended ==> replies.len() == out@.len() + 1 && replies.last() is None && take_until_empty(replies, max_tasks as nat)
                    == out@,
            decreases max_tasks - out@.len() + (if more { 1int } else { 0int }),
        {
            let reply = channel_try_recv(&self.rx);
            let ghost before = out@;
            let ghost got = reply;
            more = accept_reply(&mut out, reply, max_tasks);
            proof {
                match got {
                    Some(t) => {
                        replies = replies.push(got);
                        assert(replies.map_values(|o: Option<T>| o->0) =~= out@);
                    },
                    None => {
                        lemma_take_all_tasks(replies, max_tasks as nat);
                        replies = replies.push(got);
                        ended = true;
                    },
                }
            }
        }
        proof {
            if !ended {
                lemma_take_all_tasks(replies, max_tasks as nat);
            }
        }
        out
    }
}

/// The tasks taken from a sequence of replies of the channel: the tasks of
/// the replies up to the first empty one, at most `max_tasks` of them.
pub open spec fn take_until_empty<T>(replies: Seq<Option<T>>, max_tasks: nat) -> Seq<T>
    decreases replies.len(),
{
    if replies.len() == 0 || max_tasks == 0 {
        Seq::empty()
    } else {
        match replies[0] {
            Some(t) => seq![t] + take_until_empty(replies.drop_first(), (max_tasks - 1) as nat),
            None => Seq::empty(),
        }
    }
}

/// Takes one reply of the channel into the tasks taken so far: a task is
/// appended, an empty reply ends the draining. Returns whether to ask for
/// another reply: only after a task, and while fewer than `max_tasks` are
/// taken.
pub fn accept_reply<T>(taken: &mut Vec<T>, reply: Option<T>, max_tasks: usize) -> (more: bool)
    requires
        old(taken)@.len() < max_tasks,
    ensures
        match reply {
            Some(t) => final(taken)@ == old(taken)@.push(t) && more == (final(taken)@.len() < max_tasks),
            None => final(taken)@ == old(taken)@ && !more,
        },
{
    match reply {
        Some(t) => {
            taken.push(t);
            taken.len() < max_tasks
        },
        None => false,
    }
}

/// Replies that all hold a task, no more than `max_tasks` of them, give
/// all their tasks, also when an empty reply follows them.
proof fn lemma_take_all_tasks<T>(replies: Seq<Option<T>>, max_tasks: nat)
    requires
        replies.len() <= max_tasks,
        forall|i: int| 0 <= i < replies.len() ==> (#[trigger] replies[i]) is Some,
    ensures
        take_until_empty(replies, max_tasks) == replies.map_values(|o: Option<T>| o->0),
        take_until_empty(replies.push(None), max_tasks) == replies.map_values(|o: Option<T>| o->0),
    decreases replies.len(),
{
    if replies.len() > 0 {
        let rest = replies.drop_first();
        assert forall|i: int| 0 <= i < rest.len() implies (#[trigger] rest[i]) is Some by {
            assert(rest[i] == replies[i + 1]);
        }
        lemma_take_all_tasks(rest, (max_tasks - 1) as nat);
        assert(replies.push(None).drop_first() =~= rest.push(None));
        assert(replies.push(None)[0] == replies[0]);
        assert(replies.map_values(|o: Option<T>| o->0) =~= seq![replies[0]->0] + rest.map_values(
            |o: Option<T>| o->0,
        ));
    } else {
        assert(replies.push(None)[0] is None);
        assert(replies.map_values(|o: Option<T>| o->0) =~= Seq::<T>::empty());
    }
}

} // verus!
