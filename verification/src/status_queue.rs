//! The queue of status messages waiting to go out as MAVLink STATUSTEXT (and
//! to Telegram): at most `QUEUE_SIZE` messages of at most `MSG_MAX` bytes each,
//! delivered first in, first out; a message that finds the queue full is
//! dropped.

use vstd::prelude::*;
use vstd::string::StringSliceAdditionalSpecFns;
use embassy_sync::blocking_mutex::raw::CriticalSectionRawMutex;
use embassy_sync::channel::Channel;
use crate::bounded_text::{text128_bytes, text128_new, text128_push_str};

verus! {

/// Maximum number of pending status messages.
pub const QUEUE_SIZE: usize = 8;

/// Maximum length of a single status message in bytes.
pub const MSG_MAX: usize = 128;

/// The status queue: an `embassy_sync` channel of `QUEUE_SIZE` fixed-capacity
/// strings, guarded by a critical-section mutex.
#[verifier::external_body]
pub struct StatusQueue {
    chan: Channel<CriticalSectionRawMutex, heapless::String<MSG_MAX>, QUEUE_SIZE>,
}

/// The messages waiting in the queue, oldest first, each by its bytes.
pub uninterp spec fn queued_messages(q: StatusQueue) -> Seq<Seq<u8>>;

impl View for StatusQueue {
    type V = Seq<Seq<u8>>;

    open spec fn view(&self) -> Seq<Seq<u8>> {
        queued_messages(*self)
    }
}

/// The queue after offering it the message `m`: appended at the back when
/// fewer than `QUEUE_SIZE` messages wait, else unchanged (the message is
/// dropped).
pub open spec fn queue_after_send(q: Seq<Seq<u8>>, m: Seq<u8>) -> Seq<Seq<u8>> {
    if q.len() < QUEUE_SIZE {
        q.push(m)
    } else {
        q
    }
}

/// `Channel::new`: an empty channel.
#[verifier::external_body]
fn channel_new() -> (q: StatusQueue)
    ensures
        queued_messages(q) == Seq::<Seq<u8>>::empty(),
{
    StatusQueue { chan: Channel::new() }
}

/// `Channel::try_send`: the message goes in at the back when fewer than
/// `QUEUE_SIZE` messages wait; otherwise it is refused and the channel is
/// unchanged.
#[verifier::external_body]
fn channel_try_send(q: &mut StatusQueue, m: heapless::String<MSG_MAX>) -> (ok: bool)
    ensures
        ok == (queued_messages(*old(q)).len() < QUEUE_SIZE),
        queued_messages(*final(q)) == if ok { queued_messages(*old(q)).push(text128_bytes(m)) } else { queued_messages(*old(q)) },
{
    q.chan.try_send(m).is_ok()
}

/// `Channel::try_receive`: the oldest message, taken off the front; nothing
/// when the channel is empty.
#[verifier::external_body]
fn channel_try_receive(q: &mut StatusQueue) -> (r: Option<heapless::String<MSG_MAX>>)
    ensures
        match r {
            Some(m) => {
                &&& queued_messages(*old(q)).len() > 0
                &&& text128_bytes(m) == queued_messages(*old(q))[0]
                &&& queued_messages(*final(q)) == queued_messages(*old(q)).drop_first()
            },
            None => {
                &&& queued_messages(*old(q)).len() == 0
                &&& queued_messages(*final(q)) == queued_messages(*old(q))
            },
        },
{
    match q.chan.try_receive() {
        Ok(m) => Some(m),
        Err(_) => None,
    }
}

impl StatusQueue {
    /// An empty queue.
    pub fn new() -> (q: Self)
        ensures
            q@ == Seq::<Seq<u8>>::empty(),
    {
        channel_new()
    }
}

/// Push a text to the queue (non-blocking): a text of more than `MSG_MAX`
/// bytes does not fit a status message and is not queued; otherwise it is
/// offered to the queue, which drops it when full.
pub fn push_str(queue: &mut StatusQueue, text: &str)
    ensures
        final(queue)@ == if text.spec_bytes().len() <= MSG_MAX {
            queue_after_send(old(queue)@, text.spec_bytes())
        } else {
            old(queue)@
        },
{
    let mut msg = text128_new();
    let fits = text128_push_str(&mut msg, text);
    if fits {
        assert(text128_bytes(msg) =~= text.spec_bytes());
        let _ = channel_try_send(queue, msg);
    }
}

/// Push a ready message to the queue (non-blocking); it is dropped when the
/// queue is full.
pub fn push(queue: &mut StatusQueue, msg: heapless::String<MSG_MAX>)
    ensures
        final(queue)@ == queue_after_send(old(queue)@, text128_bytes(msg)),
{
    let _ = channel_try_send(queue, msg);
}

/// Pop the oldest message (non-blocking); `None` when the queue is empty.
pub fn pop(queue: &mut StatusQueue) -> (r: Option<heapless::String<MSG_MAX>>)
    ensures
        match r {
            Some(m) => {
                &&& old(queue)@.len() > 0
                &&& text128_bytes(m) == old(queue)@[0]
                &&& final(queue)@ == old(queue)@.drop_first()
            },
            None => {
                &&& old(queue)@.len() == 0
                &&& final(queue)@ == old(queue)@
            },
        },
{
    channel_try_receive(queue)
}

/// Messages leave in the order they came: a message accepted by a queue
/// comes out after exactly the messages that were waiting before it, which
/// keep their order; taking the oldest message and then sending is the same
/// as sending and then taking the oldest.
pub proof fn lemma_send_is_fifo(q: Seq<Seq<u8>>, m: Seq<u8>)
    requires
        q.len() < QUEUE_SIZE,
    ensures
        queue_after_send(q, m).len() == q.len() + 1,
        queue_after_send(q, m)[q.len() as int] == m,
        queue_after_send(q, m).take(q.len() as int) == q,
        q.len() > 0 ==> queue_after_send(q, m).drop_first() == queue_after_send(q.drop_first(), m),
{
    assert(q.push(m).take(q.len() as int) =~= q);
    if q.len() > 0 {
        assert(q.push(m).drop_first() =~= q.drop_first().push(m));
    }
}

/// A full queue refuses: offering a message to a queue of `QUEUE_SIZE`
/// messages leaves it as it was, and no offer makes a queue hold more than
/// `QUEUE_SIZE` messages.
pub proof fn lemma_send_bounded(q: Seq<Seq<u8>>, m: Seq<u8>)
    requires
        q.len() <= QUEUE_SIZE,
    ensures
        q.len() == QUEUE_SIZE ==> queue_after_send(q, m) == q,
        queue_after_send(q, m).len() <= QUEUE_SIZE,
{
}

/// A single message pushed into an empty queue is the one popped next, and
/// the queue is then empty again.
pub proof fn lemma_push_then_pop(m: Seq<u8>)
    ensures
        queue_after_send(Seq::<Seq<u8>>::empty(), m)[0] == m,
        queue_after_send(Seq::<Seq<u8>>::empty(), m).drop_first() == Seq::<Seq<u8>>::empty(),
{
    assert(queue_after_send(Seq::<Seq<u8>>::empty(), m).drop_first() =~= Seq::<Seq<u8>>::empty());
}

} // verus!
