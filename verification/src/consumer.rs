//! The consumer loop: the single cooperative task that drains the hub and
//! renders, one synchronous append to the display sink per message.

use crate::hub::{recv_spec, Hub, HubV, RecvOutcome};
use crate::message::{Message, MessageV};
use vstd::prelude::*;

verus! {

/// The texts the given queued messages render to, in queue order.
pub open spec fn texts_of(q: Seq<MessageV>) -> Seq<Seq<char>> {
    q.map_values(|m: MessageV| m.text())
}

/// Why one run of the consumer loop gave the processor back.
#[derive(Clone, Copy, Debug, PartialEq, Eq, Structural)]
pub enum DrainEnd {
    /// The queue is empty but producers remain: the task suspends awaiting
    /// the next item.
    Suspended,
    /// The hub reported `Closed`: every producer handle is gone and the task
    /// completes. This is the sole shutdown signal.
    Terminated,
}

/// Runs the consumer loop until it would suspend or terminate: drains every
/// queued message and appends exactly one line per message to `log`, in
/// queue order, never blocking.
///
/// The contract carries the shutdown guarantee: after all producer handles
/// are dropped the loop terminates within one step per queued message plus
/// one, observing `Closed`, and every message that was enqueued has been
/// appended — none is silently lost.
pub fn run_consumer(hub: &mut Hub<Message>, log: &mut Vec<String>) -> (r: DrainEnd)
    requires
        old(hub)@.wf(),
    ensures
        final(hub)@.wf(),
        final(hub)@.queue.len() == 0,
        final(hub)@ == (HubV { queue: Seq::<MessageV>::empty(), ..old(hub)@ }),
        final(log).deep_view() == old(log).deep_view() + texts_of(old(hub)@.queue),
        r == DrainEnd::Terminated <==> old(hub)@.producers == 0,
{
    loop
        invariant
            hub@.wf(),
            hub@ == (HubV { queue: hub@.queue, ..old(hub)@ }),
            log.deep_view() + texts_of(hub@.queue) == old(log).deep_view() + texts_of(
                old(hub)@.queue,
            ),
        decreases hub@.queue.len(),
    {
        let ghost pre_q = hub@.queue;
        let ghost pre_log = log.deep_view();
        match hub.recv() {
            RecvOutcome::Item(m) => {
                log.push(m.into_text());
                proof {
                    assert(log.deep_view() =~= pre_log.push(m@.text()));
                    assert(texts_of(pre_q) =~= seq![pre_q.first().text()] + texts_of(
                        pre_q.drop_first(),
                    ));
                    assert(pre_log.push(m@.text()) + texts_of(pre_q.drop_first()) =~= pre_log + (
                    seq![pre_q.first().text()] + texts_of(pre_q.drop_first())));
                }
            },
            RecvOutcome::Pending => {
                proof {
                    assert(texts_of(hub@.queue) =~= Seq::<Seq<char>>::empty());
                    assert(log.deep_view() + texts_of(hub@.queue) =~= log.deep_view());
                }
                return DrainEnd::Suspended;
            },
            RecvOutcome::Closed => {
                proof {
                    assert(texts_of(hub@.queue) =~= Seq::<Seq<char>>::empty());
                    assert(log.deep_view() + texts_of(hub@.queue) =~= log.deep_view());
                }
                return DrainEnd::Terminated;
            },
        }
    }
}

} // verus!
