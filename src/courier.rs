//! The courier: a bounded first-in first-out queue that carries parsed chat
//! events from a session's receive loop to the delivery scheduler.
//!
//! Sends never block: once the queue holds `capacity` items a send is refused
//! at once and the item is handed back, so the producer can drop it and go on.
use std::collections::VecDeque;
use vstd::prelude::*;

verus! {

/// Why a send was refused. The item that could not be queued is handed back.
pub enum SendError<T> {
    /// The queue already holds as many items as its capacity allows.
    Full(T),
    /// The consuming side has gone away; nothing will ever be received again.
    Disconnected(T),
}

/// A bounded FIFO queue with a capacity fixed at creation.
pub struct Courier<T> {
    items: VecDeque<T>,
    capacity: usize,
    closed: bool,
}

impl<T> View for Courier<T> {
    type V = Seq<T>;

    /// The queued items, oldest first.
    closed spec fn view(&self) -> Seq<T> {
        self.items@
    }
}

impl<T> Courier<T> {
    /// The capacity that the courier was created with.
    pub closed spec fn cap(&self) -> nat {
        self.capacity as nat
    }

    /// Whether the consuming side has gone away.
    pub closed spec fn is_disconnected(&self) -> bool {
        self.closed
    }

    /// A courier never holds more items than its capacity, which is positive.
    pub open spec fn wf(&self) -> bool {
        0 < self.cap() && self@.len() <= self.cap()
    }

    /// Whether a send made now would be queued.
    pub open spec fn accepts(&self) -> bool {
        !self.is_disconnected() && self@.len() < self.cap()
    }

    /// An empty courier that holds at most `capacity` items.
    pub fn new(capacity: usize) -> (r: Courier<T>)
        requires
            capacity > 0,
        ensures
            r.wf(),
            r@ == Seq::<T>::empty(),
            r.cap() == capacity,
            !r.is_disconnected(),
    {
        Courier { items: VecDeque::new(), capacity, closed: false }
    }

    pub fn capacity(&self) -> (r: usize)
        ensures
            r == self.cap(),
    {
        self.capacity
    }

    pub fn len(&self) -> (r: usize)
        ensures
            r == self@.len(),
    {
        self.items.len()
    }

    pub fn is_empty(&self) -> (r: bool)
        ensures
            r == (self@.len() == 0),
    {
        self.items.len() == 0
    }

    pub fn is_closed(&self) -> (r: bool)
        ensures
            r == self.is_disconnected(),
    {
        self.closed
    }

    /// Queues `item` at the back if there is room, without ever waiting.
    /// A full or disconnected courier refuses the item, hands it back and
    /// stays as it was.
    pub fn try_send(&mut self, item: T) -> (r: Result<(), SendError<T>>)
        requires
            old(self).wf(),
        ensures
            final(self).wf(),
            final(self).cap() == old(self).cap(),
            final(self).is_disconnected() == old(self).is_disconnected(),
            old(self).accepts() ==> r is Ok && final(self)@ == old(self)@.push(item),
            old(self).is_disconnected() ==> r == Err::<(), SendError<T>>(SendError::Disconnected(item))
                && final(self)@ == old(self)@,
            !old(self).is_disconnected() && old(self)@.len() == old(self).cap() ==> r == Err::<
                (),
                SendError<T>,
            >(SendError::Full(item)) && final(self)@ == old(self)@,
    {
        if self.closed {
            return Err(SendError::Disconnected(item));
        }
        if self.items.len() >= self.capacity {
            return Err(SendError::Full(item));
        }
        self.items.push_back(item);
        Ok(())
    }

    /// Takes the oldest item, if any, without waiting.
    pub fn try_recv(&mut self) -> (r: Option<T>)
        requires
            old(self).wf(),
        ensures
            final(self).wf(),
            final(self).cap() == old(self).cap(),
            final(self).is_disconnected() == old(self).is_disconnected(),
            old(self)@.len() == 0 ==> r is None && final(self)@ == old(self)@,
            old(self)@.len() > 0 ==> r == Some(old(self)@[0]) && final(self)@ == old(self)@.drop_first(),
    {
        self.items.pop_front()
    }

    /// Takes up to `max` of the oldest items, in queue order.
    pub fn drain_up_to(&mut self, max: usize) -> (r: Vec<T>)
        requires
            old(self).wf(),
        ensures
            final(self).wf(),
            final(self).cap() == old(self).cap(),
            final(self).is_disconnected() == old(self).is_disconnected(),
            r@.len() == vstd::math::min(max as int, old(self)@.len() as int),
            r@ == old(self)@.take(r@.len() as int),
            final(self)@ == old(self)@.skip(r@.len() as int),
    {
        let mut out: Vec<T> = Vec::new();
        let ghost start = self@;
        while out.len() < max && self.items.len() > 0
            invariant
                self.wf(),
                self.cap() == old(self).cap(),
                self.is_disconnected() == old(self).is_disconnected(),
                start == old(self)@,
                out@.len() <= max,
                out@.len() <= start.len(),
                out@ == start.take(out@.len() as int),
                self@ == start.skip(out@.len() as int),
            decreases max - out@.len(),
        {
            match self.items.pop_front() {
                Some(item) => {
                    proof {
                        assert(start.take(out@.len() + 1 as int) =~= start.take(out@.len() as int).push(item));
                    }
                    out.push(item);
                    assert(self@ =~= start.skip(out@.len() as int));
                },
                None => {},
            }
        }
        out
    }

    /// Throws away up to `max` of the oldest items and says how many went.
    pub fn discard_up_to(&mut self, max: usize) -> (n: usize)
        requires
            old(self).wf(),
        ensures
            final(self).wf(),
            final(self).cap() == old(self).cap(),
            final(self).is_disconnected() == old(self).is_disconnected(),
            n == vstd::math::min(max as int, old(self)@.len() as int),
            final(self)@ == old(self)@.skip(n as int),
    {
        let mut n: usize = 0;
        let ghost start = self@;
        while n < max && self.items.len() > 0
            invariant
                self.wf(),
                self.cap() == old(self).cap(),
                self.is_disconnected() == old(self).is_disconnected(),
                start == old(self)@,
                n <= max,
                n <= start.len(),
                self@ == start.skip(n as int),
            decreases max - n,
        {
            match self.items.pop_front() {
                Some(_) => {
                    n = n + 1;
                    assert(self@ =~= start.skip(n as int));
                },
                None => {},
            }
        }
        n
    }

    /// Throws away everything queued and says how many items went.
    pub fn discard_all(&mut self) -> (n: usize)
        requires
            old(self).wf(),
        ensures
            final(self).wf(),
            final(self).cap() == old(self).cap(),
            final(self).is_disconnected() == old(self).is_disconnected(),
            n == old(self)@.len(),
            final(self)@ == Seq::<T>::empty(),
    {
        let n = self.items.len();
        self.items.clear();
        n
    }

    /// Marks the consuming side as gone: every later send is refused with
    /// `Disconnected`. What is queued stays queued.
    pub fn close(&mut self)
        requires
            old(self).wf(),
        ensures
            final(self).wf(),
            final(self).cap() == old(self).cap(),
            final(self)@ == old(self)@,
            final(self).is_disconnected(),
    {
        self.closed = true;
    }
}

/// One operation on a courier, as seen by a model of its history.
pub enum CourierOp<T> {
    Send(T),
    Recv,
}

/// Replays `ops` on a courier that holds `q`, is connected and has capacity
/// `cap`, following the contracts of `try_send` and `try_recv`. The result is
/// the queue afterwards, the items received in order, and the items that
/// sends got queued in order.
pub open spec fn replay<T>(q: Seq<T>, cap: nat, ops: Seq<CourierOp<T>>) -> (Seq<T>, Seq<T>, Seq<T>)
    decreases ops.len(),
{
    if ops.len() == 0 {
        (q, Seq::empty(), Seq::empty())
    } else {
        let prev = replay(q, cap, ops.drop_last());
        let (q1, got, sent) = prev;
        match ops.last() {
            CourierOp::Send(x) => if q1.len() < cap {
                (q1.push(x), got, sent.push(x))
            } else {
                prev
            },
            CourierOp::Recv => if q1.len() > 0 {
                (q1.drop_first(), got.push(q1[0]), sent)
            } else {
                prev
            },
        }
    }
}

/// First in, first out: over any sequence of sends and receives, the items
/// received, followed by those still queued, are exactly the items that were
/// queued at the start followed by those that sends got queued, in the order
/// they were sent. In particular no item is received before one queued
/// earlier, and nothing is received twice or made up.
pub proof fn lemma_courier_fifo<T>(q: Seq<T>, cap: nat, ops: Seq<CourierOp<T>>)
    ensures
        replay(q, cap, ops).1 + replay(q, cap, ops).0 == q + replay(q, cap, ops).2,
    decreases ops.len(),
{
    if ops.len() > 0 {
        lemma_courier_fifo(q, cap, ops.drop_last());
        let (q1, got, sent) = replay(q, cap, ops.drop_last());
        match ops.last() {
            CourierOp::Send(x) => {
                if q1.len() < cap {
                    assert(got + q1.push(x) =~= (got + q1).push(x));
                    assert(q + sent.push(x) =~= (q + sent).push(x));
                }
            },
            CourierOp::Recv => {
                if q1.len() > 0 {
                    assert(got.push(q1[0]) + q1.drop_first() =~= got + q1);
                }
            },
        }
    }
}

/// A courier that starts within its capacity stays within it over any
/// sequence of sends and receives.
pub proof fn lemma_courier_bounded<T>(q: Seq<T>, cap: nat, ops: Seq<CourierOp<T>>)
    requires
        q.len() <= cap,
    ensures
        replay(q, cap, ops).0.len() <= cap,
    decreases ops.len(),
{
    if ops.len() > 0 {
        lemma_courier_bounded(q, cap, ops.drop_last());
    }
}

} // verus!
