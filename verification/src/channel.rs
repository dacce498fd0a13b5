//! The dispatch channel: a bounded FIFO queue that decouples the task source
//! from the execution dispatcher.  Producers observe backpressure when the
//! queue is full — nothing is dropped silently — and the consumer sees items
//! in exactly the order they were pushed.

use vstd::prelude::*;

verus! {

/// The capacity the pipeline configures its dispatch channel with.
pub const DISPATCH_CAPACITY: usize = 1024;

/// Why a push was refused.
#[derive(Debug)]
pub enum PushRefused<T> {
    /// The queue already holds `capacity` items; the item is handed back so
    /// the producer can stall and retry instead of losing it.
    Full(T),
    /// The consumer side has been closed; the item is handed back.
    Closed(T),
}

/// What a pop observed.
#[derive(Debug)]
pub enum Popped<T> {
    /// The oldest queued item.
    Item(T),
    /// Nothing queued right now; the consumer should idle briefly.
    Empty,
    /// Nothing queued and the producer side is closed: a terminated signal.
    Terminated,
}

/// A bounded multi-producer/single-consumer FIFO queue.  Its view is the
/// sequence of queued items, oldest first.
pub struct DispatchChannel<T> {
    items: Vec<T>,
    capacity: usize,
    closed: bool,
}

impl<T> View for DispatchChannel<T> {
    type V = Seq<T>;

    closed spec fn view(&self) -> Seq<T> {
        self.items@
    }
}

impl<T> DispatchChannel<T> {
    /// The fixed bound the channel was created with.
    pub closed spec fn spec_capacity(&self) -> nat {
        self.capacity as nat
    }

    /// Whether the channel has been closed.
    pub closed spec fn spec_closed(&self) -> bool {
        self.closed
    }

    pub open spec fn wf(&self) -> bool {
        self@.len() <= self.spec_capacity() && self.spec_capacity() > 0
    }

    pub fn new(capacity: usize) -> (r: Self)
        requires
            capacity > 0,
        ensures
            r.wf(),
            r@ == Seq::<T>::empty(),
            r.spec_capacity() == capacity,
            !r.spec_closed(),
    {
        DispatchChannel { items: Vec::new(), capacity, closed: false }
    }

    pub fn capacity(&self) -> (r: usize)
        ensures
            r == self.spec_capacity(),
    {
        self.capacity
    }

    pub fn len(&self) -> (r: usize)
        ensures
            r == self@.len(),
    {
        self.items.len()
    }

    /// Push one item at the back.  When the queue is full the push is refused
    /// and the item handed back unchanged — backpressure, never a silent
    /// drop.  A push onto a closed channel is likewise refused.
    pub fn try_push(&mut self, item: T) -> (r: Result<(), PushRefused<T>>)
        requires
            old(self).wf(),
        ensures
            final(self).wf(),
            final(self).spec_capacity() == old(self).spec_capacity(),
            final(self).spec_closed() == old(self).spec_closed(),
            match r {
                Ok(()) => !old(self).spec_closed() && old(self)@.len() < old(
                    self,
                ).spec_capacity() && final(self)@ == old(self)@.push(item),
                Err(e) => final(self)@ == old(self)@ && match e {
                    PushRefused::Full(it) => it == item && !old(self).spec_closed() && old(
                        self,
                    )@.len() == old(self).spec_capacity(),
                    PushRefused::Closed(it) => it == item && old(self).spec_closed(),
                },
            },
    {
        if self.closed {
            return Err(PushRefused::Closed(item));
        }
        if self.items.len() == self.capacity {
            return Err(PushRefused::Full(item));
        }
        self.items.push(item);
        Ok(())
    }

    /// Pop the oldest item.  Items leave in push order; an empty queue
    /// reports either `Empty` or, once closed, `Terminated`.
    pub fn try_pop(&mut self) -> (r: Popped<T>)
        requires
            old(self).wf(),
        ensures
            final(self).wf(),
            final(self).spec_capacity() == old(self).spec_capacity(),
            final(self).spec_closed() == old(self).spec_closed(),
            match r {
                Popped::Item(it) => old(self)@.len() > 0 && it == old(self)@[0] && final(self)@
                    == old(self)@.subrange(1, old(self)@.len() as int),
                Popped::Empty => old(self)@.len() == 0 && !old(self).spec_closed() && final(self)@
                    == old(self)@,
                Popped::Terminated => old(self)@.len() == 0 && old(self).spec_closed() && final(self)@
                    == old(self)@,
            },
    {
        if self.items.len() == 0 {
            if self.closed {
                return Popped::Terminated;
            }
            return Popped::Empty;
        }
        let item = self.items.remove(0);
        Popped::Item(item)
    }

    /// Close the producer side; observable by the consumer as `Terminated`
    /// once the queue drains.
    pub fn close(&mut self)
        requires
            old(self).wf(),
        ensures
            final(self).wf(),
            final(self)@ == old(self)@,
            final(self).spec_capacity() == old(self).spec_capacity(),
            final(self).spec_closed(),
    {
        self.closed = true;
    }
}

/// The queue contents after pushing every item of `ts`, in order, onto a
/// queue holding `q` — the model of a producer that stalls on backpressure
/// until each push is accepted.
pub open spec fn enqueue_all<T>(q: Seq<T>, ts: Seq<T>) -> Seq<T>
    decreases ts.len(),
{
    if ts.len() == 0 {
        q
    } else {
        enqueue_all(q.push(ts[0]), ts.subrange(1, ts.len() as int))
    }
}

/// FIFO order: a consumer that starts from an empty queue and pops after the
/// producer pushed `ts` observes exactly `ts` — element `i` of the queue view
/// is element `i` of what was sent, so successive pops (each returning the
/// front, per `try_pop`) yield the items in push order.
pub proof fn lemma_dispatch_fifo<T>(q: Seq<T>, ts: Seq<T>)
    ensures
        enqueue_all(q, ts) =~= q + ts,
        q.len() == 0 ==> enqueue_all(q, ts) =~= ts,
    decreases ts.len(),
{
    if ts.len() == 0 {
        assert(enqueue_all(q, ts) =~= q + ts);
    } else {
        lemma_dispatch_fifo(q.push(ts[0]), ts.subrange(1, ts.len() as int));
        assert(q.push(ts[0]) + ts.subrange(1, ts.len() as int) =~= q + ts);
    }
}

} // verus!
