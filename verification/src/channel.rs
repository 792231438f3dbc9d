//! The event channel: a fixed-capacity FIFO of encoded key events, shared
//! between the scanning context (producer side: `push`) and the transmit
//! context (consumer side: `peek`, `pop`).
//!
//! The storage is a `heapless` single-producer/single-consumer ring buffer.
//! A `heapless::spsc::Queue<u8, 129>` stores at most 128 bytes, so the
//! channel holds up to [`CAPACITY`] events. Safety of the lock-free sharing
//! rests on exactly one producer and one consumer context existing for the
//! channel's whole lifetime; that discipline is the caller's to keep.

use vstd::prelude::*;
use crate::event::FatalError;
use heapless::spsc::Queue;

verus! {

/// How many events the channel can hold at once.
pub const CAPACITY: usize = 128;

#[verifier::external_type_specification]
#[verifier::external_body]
#[verifier::reject_recursive_types(T)]
pub struct ExQueue<T, const N: usize>(Queue<T, N>);

/// The bytes stored in the queue, front (oldest) first.
pub uninterp spec fn queue_items(q: Queue<u8, 129>) -> Seq<u8>;

/// Relies on `heapless::spsc::Queue::new`: the queue starts empty.
#[verifier::external_body]
fn queue_new() -> (q: Queue<u8, 129>)
    ensures
        queue_items(q) == Seq::<u8>::empty(),
{
    Queue::new()
}

/// Relies on `heapless::spsc::Queue::enqueue`: when fewer bytes are stored
/// than the capacity (`N - 1`, here 128) the byte is appended at the back;
/// when the queue is full the byte is handed back and nothing changes.
#[verifier::external_body]
fn queue_enqueue(q: &mut Queue<u8, 129>, b: u8) -> (r: Result<(), u8>)
    ensures
        queue_items(*old(q)).len() < 128 ==> r is Ok && queue_items(*final(q))
            == queue_items(*old(q)).push(b),
        queue_items(*old(q)).len() >= 128 ==> r is Err && queue_items(*final(q))
            == queue_items(*old(q)),
{
    q.enqueue(b)
}

/// Relies on `heapless::spsc::Queue::peek`: a look at the front byte;
/// nothing is removed.
#[verifier::external_body]
fn queue_peek(q: &Queue<u8, 129>) -> (r: Option<u8>)
    ensures
        queue_items(*q).len() == 0 ==> r is None,
        queue_items(*q).len() > 0 ==> r == Some(queue_items(*q)[0]),
{
    q.peek().copied()
}

/// Relies on `heapless::spsc::Queue::dequeue`: removes and returns the
/// front byte, or returns `None` when the queue is empty.
#[verifier::external_body]
fn queue_dequeue(q: &mut Queue<u8, 129>) -> (r: Option<u8>)
    ensures
        queue_items(*old(q)).len() == 0 ==> r is None && queue_items(*final(q))
            == queue_items(*old(q)),
        queue_items(*old(q)).len() > 0 ==> r == Some(queue_items(*old(q))[0])
            && queue_items(*final(q)) == queue_items(*old(q)).drop_first(),
{
    q.dequeue()
}

/// The cross-context event channel.
pub struct Channel {
    q: Queue<u8, 129>,
}

impl Channel {
    /// The queued bytes, front (oldest) first.
    pub closed spec fn contents(&self) -> Seq<u8> {
        queue_items(self.q)
    }

    /// A reachable channel never holds more than [`CAPACITY`] bytes.
    pub open spec fn wf(&self) -> bool {
        self.contents().len() <= CAPACITY
    }

    /// Constructs the channel, empty.
    pub fn new() -> (c: Channel)
        ensures
            c.contents() == Seq::<u8>::empty(),
            c.wf(),
    {
        Channel { q: queue_new() }
    }

    /// Producer side: appends one byte at the back. When [`CAPACITY`]
    /// bytes remain unconsumed the push is refused and the channel is
    /// unchanged — never a silent drop or overwrite.
    pub fn push(&mut self, b: u8) -> (r: Result<(), FatalError>)
        ensures
            old(self).wf() ==> final(self).wf(),
            old(self).contents().len() < CAPACITY ==> r is Ok && final(self).contents()
                == old(self).contents().push(b),
            old(self).contents().len() >= CAPACITY ==> r
                == Err::<(), FatalError>(FatalError::CapacityExhausted) && final(self).contents()
                == old(self).contents(),
    {
        match queue_enqueue(&mut self.q, b) {
            Ok(_) => Ok(()),
            Err(_) => Err(FatalError::CapacityExhausted),
        }
    }

    /// Consumer side: the front byte, nothing removed.
    pub fn peek(&self) -> (r: Option<u8>)
        ensures
            self.contents().len() == 0 ==> r is None,
            self.contents().len() > 0 ==> r == Some(self.contents()[0]),
    {
        queue_peek(&self.q)
    }

    /// Consumer side: removes and returns the front byte.
    pub fn pop(&mut self) -> (r: Option<u8>)
        ensures
            old(self).contents().len() == 0 ==> r is None && final(self).contents()
                == old(self).contents(),
            old(self).contents().len() > 0 ==> r == Some(old(self).contents()[0])
                && final(self).contents() == old(self).contents().drop_first(),
            old(self).wf() ==> final(self).wf(),
    {
        queue_dequeue(&mut self.q)
    }
}

/// Law: the channel preserves FIFO order. Whatever it already holds,
/// events pushed in order are lined up behind it in that same order, and
/// the consumer, who always takes the front element, meets them in push
/// order.
pub proof fn lemma_fifo_order(s: Seq<u8>, e1: u8, e2: u8, e3: u8)
    ensures
        ({
            let t = s.push(e1).push(e2).push(e3);
            t.subrange(s.len() as int, t.len() as int) =~= seq![e1, e2, e3]
        }),
{
}

} // verus!
