//! The event hub: a bounded multi-producer/single-consumer FIFO queue with an
//! explicit overflow policy.
//!
//! Every operation is specified against the mathematical state [`HubV`] by the
//! transition functions [`send_spec`] and [`recv_spec`], so that ordering,
//! backpressure and shutdown can be stated and proved once, over the model.
//!
//! The real program puts one hub between its producer threads and the single
//! consumer task; this type is the queue's logic, synchronization around it is
//! the embedding program's affair.

use vstd::prelude::*;

verus! {

/// Policy applied when `send` finds the queue already holding `capacity`
/// items. Chosen once, at construction, and applied uniformly.
#[derive(Clone, Copy, Debug, PartialEq, Eq, Structural)]
pub enum OverflowPolicy {
    /// Report [`SendOutcome::Full`] and change nothing; the producer is
    /// expected to retry once the consumer has drained an item, so no
    /// message is ever lost (bounded backpressure).
    Backpressure,
    /// Evict the oldest queued item to make room for the new one, and count
    /// the eviction in the hub's drop counter.
    DropOldest,
}

/// What a producer's non-blocking `send` reports.
#[derive(Clone, Copy, Debug, PartialEq, Eq, Structural)]
pub enum SendOutcome {
    /// The message is now queued.
    Enqueued,
    /// The queue was full under the backpressure policy; nothing changed.
    Full,
    /// The receiving side is gone; nothing changed.
    Closed,
}

/// What the consumer's `recv` reports.
#[derive(Debug, PartialEq, Eq)]
pub enum RecvOutcome<T> {
    /// The oldest queued item.
    Item(T),
    /// Nothing queued yet, but producers remain: the caller should suspend
    /// and try again.
    Pending,
    /// Nothing queued and every producer handle has been dropped: the sole
    /// shutdown signal.
    Closed,
}

impl<T: View> View for RecvOutcome<T> {
    type V = RecvOutcome<T::V>;

    open spec fn view(&self) -> RecvOutcome<T::V> {
        match self {
            RecvOutcome::Item(m) => RecvOutcome::Item(m@),
            RecvOutcome::Pending => RecvOutcome::Pending,
            RecvOutcome::Closed => RecvOutcome::Closed,
        }
    }
}

/// Mathematical state of a hub.
#[verifier::ext_equal]
pub struct HubV<A> {
    /// Queued items, oldest first.
    pub queue: Seq<A>,
    /// Fixed bound on the queue length.
    pub capacity: nat,
    /// Count of live producer handles.
    pub producers: nat,
    /// Whether the receiving side is still attached.
    pub receiver_open: bool,
    /// The overflow policy fixed at construction.
    pub policy: OverflowPolicy,
    /// Evictions performed under [`OverflowPolicy::DropOldest`]; saturates at
    /// `usize::MAX`.
    pub dropped: nat,
}

impl<A> HubV<A> {
    /// Well-formedness: the capacity is positive and bounds the queue.
    pub open spec fn wf(self) -> bool {
        &&& 1 <= self.capacity
        &&& self.queue.len() <= self.capacity
    }
}

/// The transition a single `send` performs on the hub state, and its outcome.
pub open spec fn send_spec<A>(h: HubV<A>, m: A) -> (HubV<A>, SendOutcome) {
    if !h.receiver_open {
        (h, SendOutcome::Closed)
    } else if h.queue.len() < h.capacity {
        (HubV { queue: h.queue.push(m), ..h }, SendOutcome::Enqueued)
    } else if h.policy == OverflowPolicy::Backpressure {
        (h, SendOutcome::Full)
    } else {
        (
            HubV {
                queue: h.queue.drop_first().push(m),
                dropped: if h.dropped < usize::MAX as nat {
                    h.dropped + 1
                } else {
                    h.dropped
                },
                ..h
            },
            SendOutcome::Enqueued,
        )
    }
}

/// The transition a single `recv` performs on the hub state, and its outcome.
pub open spec fn recv_spec<A>(h: HubV<A>) -> (HubV<A>, RecvOutcome<A>) {
    if h.queue.len() > 0 {
        (HubV { queue: h.queue.drop_first(), ..h }, RecvOutcome::Item(h.queue.first()))
    } else if h.producers == 0 {
        (h, RecvOutcome::Closed)
    } else {
        (h, RecvOutcome::Pending)
    }
}

/// The hub state after sending `msgs` in order, front first.
pub open spec fn send_all_spec<A>(h: HubV<A>, msgs: Seq<A>) -> HubV<A>
    decreases msgs.len(),
{
    if msgs.len() == 0 {
        h
    } else {
        send_all_spec(send_spec(h, msgs.first()).0, msgs.drop_first())
    }
}

/// The bounded multi-producer/single-consumer ordered queue at the center of
/// the console: producers enqueue [`SendOutcome::Enqueued`]-or-report, the one
/// consumer drains in FIFO order, and dropping the last producer handle is the
/// sole shutdown signal.
pub struct Hub<T: View> {
    items: Vec<T>,
    capacity: usize,
    producers: usize,
    receiver_open: bool,
    policy: OverflowPolicy,
    dropped: usize,
}

impl<T: View> View for Hub<T> {
    type V = HubV<T::V>;

    closed spec fn view(&self) -> HubV<T::V> {
        HubV {
            queue: self.items@.map_values(|t: T| t@),
            capacity: self.capacity as nat,
            producers: self.producers as nat,
            receiver_open: self.receiver_open,
            policy: self.policy,
            dropped: self.dropped as nat,
        }
    }
}

impl<T: View> Hub<T> {
    /// Creates a hub with the given fixed capacity and overflow policy and no
    /// producer handles yet.
    pub fn new(capacity: usize, policy: OverflowPolicy) -> (h: Hub<T>)
        requires
            1 <= capacity,
        ensures
            h@.wf(),
            h@.queue == Seq::<T::V>::empty(),
            h@.capacity == capacity as nat,
            h@.producers == 0,
            h@.receiver_open,
            h@.policy == policy,
            h@.dropped == 0,
    {
        let h = Hub {
            items: Vec::new(),
            capacity,
            producers: 0,
            receiver_open: true,
            policy,
            dropped: 0,
        };
        proof {
            assert(h@.queue =~= Seq::<T::V>::empty());
        }
        h
    }

    /// Registers one more producer handle.
    pub fn add_producer(&mut self)
        requires
            old(self)@.producers < usize::MAX as nat,
        ensures
            final(self)@ == (HubV { producers: old(self)@.producers + 1, ..old(self)@ }),
    {
        self.producers = self.producers + 1;
    }

    /// Releases one producer handle; once the count reaches zero, the
    /// consumer's next `recv` on an empty queue reports `Closed`.
    pub fn drop_producer(&mut self)
        requires
            1 <= old(self)@.producers,
        ensures
            final(self)@ == (HubV { producers: (old(self)@.producers - 1) as nat, ..old(self)@ }),
    {
        self.producers = self.producers - 1;
    }

    /// Detaches the receiving side: every later `send` reports `Closed`.
    pub fn close_receiver(&mut self)
        ensures
            final(self)@ == (HubV { receiver_open: false, ..old(self)@ }),
    {
        self.receiver_open = false;
    }

    /// A producer's non-blocking send: never waits, and changes the state
    /// exactly as [`send_spec`] says.
    pub fn send(&mut self, m: T) -> (r: SendOutcome)
        requires
            old(self)@.wf(),
        ensures
            final(self)@.wf(),
            final(self)@ == send_spec(old(self)@, m@).0,
            r == send_spec(old(self)@, m@).1,
    {
        if !self.receiver_open {
            return SendOutcome::Closed;
        }
        if self.items.len() < self.capacity {
            self.items.push(m);
            proof {
                assert(self@.queue =~= old(self)@.queue.push(m@));
                assert(self@ =~= send_spec(old(self)@, m@).0);
            }
            return SendOutcome::Enqueued;
        }
        match self.policy {
            OverflowPolicy::Backpressure => SendOutcome::Full,
            OverflowPolicy::DropOldest => {
                let _evicted = self.items.remove(0);
                self.items.push(m);
                if self.dropped < usize::MAX {
                    self.dropped = self.dropped + 1;
                }
                proof {
                    assert(self@.queue =~= old(self)@.queue.drop_first().push(m@));
                    assert(self@ =~= send_spec(old(self)@, m@).0);
                }
                SendOutcome::Enqueued
            },
        }
    }

    /// The consumer's non-blocking receive: yields the oldest queued item,
    /// or reports `Pending` while producers remain, or `Closed` once the
    /// queue is empty and every producer handle is gone.
    pub fn recv(&mut self) -> (r: RecvOutcome<T>)
        requires
            old(self)@.wf(),
        ensures
            final(self)@.wf(),
            final(self)@ == recv_spec(old(self)@).0,
            r@ == recv_spec(old(self)@).1,
    {
        if self.items.len() > 0 {
            let m = self.items.remove(0);
            proof {
                assert(self@.queue =~= old(self)@.queue.drop_first());
                assert(self@ =~= recv_spec(old(self)@).0);
            }
            RecvOutcome::Item(m)
        } else if self.producers == 0 {
            RecvOutcome::Closed
        } else {
            RecvOutcome::Pending
        }
    }
}

impl<T: View> Hub<T> {
    /// Number of items currently queued.
    pub fn queued_len(&self) -> (r: usize)
        ensures
            r as nat == self@.queue.len(),
    {
        self.items.len()
    }

    /// The fixed capacity chosen at construction.
    pub fn capacity(&self) -> (r: usize)
        ensures
            r as nat == self@.capacity,
    {
        self.capacity
    }

    /// Count of live producer handles.
    pub fn producer_count(&self) -> (r: usize)
        ensures
            r as nat == self@.producers,
    {
        self.producers
    }

    /// Evictions performed so far under the drop-oldest policy.
    pub fn dropped_count(&self) -> (r: usize)
        ensures
            r as nat == self@.dropped,
    {
        self.dropped
    }

    /// Whether the receiving side is still attached.
    pub fn is_receiver_open(&self) -> (r: bool)
        ensures
            r == self@.receiver_open,
    {
        self.receiver_open
    }
}

/// Single-producer FIFO law: when the hub has room for all of `msgs`, sending
/// them one after another appends them after the items already queued, in the
/// very order they were sent; since `recv` always yields the front of the
/// queue, the consumer observes them in the order they were enqueued.
pub proof fn lemma_single_producer_order<A>(h: HubV<A>, msgs: Seq<A>)
    requires
        h.wf(),
        h.receiver_open,
        h.queue.len() + msgs.len() <= h.capacity,
    ensures
        send_all_spec(h, msgs).wf(),
        send_all_spec(h, msgs).queue == h.queue + msgs,
        send_all_spec(h, msgs).capacity == h.capacity,
        send_all_spec(h, msgs).producers == h.producers,
        send_all_spec(h, msgs).receiver_open == h.receiver_open,
        send_all_spec(h, msgs).policy == h.policy,
        send_all_spec(h, msgs).dropped == h.dropped,
    decreases msgs.len(),
{
    if msgs.len() == 0 {
        assert(h.queue + msgs =~= h.queue);
    } else {
        let h1 = send_spec(h, msgs.first()).0;
        assert(h1.queue =~= h.queue.push(msgs.first()));
        lemma_single_producer_order(h1, msgs.drop_first());
        assert(h.queue.push(msgs.first()) + msgs.drop_first() =~= h.queue + msgs);
    }
}

/// Backpressure law, first half: a send into a full hub under the
/// backpressure policy reports `Full` and loses nothing — the state is
/// exactly what it was.
pub proof fn lemma_backpressure_full_preserves<A>(h: HubV<A>, m: A)
    requires
        h.wf(),
        h.receiver_open,
        h.queue.len() == h.capacity,
        h.policy == OverflowPolicy::Backpressure,
    ensures
        send_spec(h, m).1 == SendOutcome::Full,
        send_spec(h, m).0 == h,
{
}

/// Backpressure law, second half: after the consumer drains one item from the
/// full hub, the retried send succeeds, so under retry-on-`Full` every message
/// is eventually enqueued and none is lost.
pub proof fn lemma_backpressure_retry_succeeds<A>(h: HubV<A>, m: A)
    requires
        h.wf(),
        h.receiver_open,
        h.queue.len() == h.capacity,
        h.policy == OverflowPolicy::Backpressure,
    ensures
        recv_spec(h).1 == RecvOutcome::Item(h.queue.first()),
        send_spec(recv_spec(h).0, m).1 == SendOutcome::Enqueued,
        send_spec(recv_spec(h).0, m).0.queue == h.queue.drop_first().push(m),
{
}

/// Drop-oldest law: a send into a full hub under the drop policy drops
/// exactly one item — the oldest — keeps the relative order of the rest,
/// enqueues the new item, and counts the drop.
pub proof fn lemma_drop_oldest_counts<A>(h: HubV<A>, m: A)
    requires
        h.wf(),
        h.receiver_open,
        h.queue.len() == h.capacity,
        h.policy == OverflowPolicy::DropOldest,
        h.dropped < usize::MAX as nat,
    ensures
        send_spec(h, m).1 == SendOutcome::Enqueued,
        send_spec(h, m).0.queue == h.queue.drop_first().push(m),
        send_spec(h, m).0.queue.len() == h.queue.len(),
        send_spec(h, m).0.dropped == h.dropped + 1,
{
}

} // verus!
