use mqtt_console::consumer::{run_consumer, DrainEnd};
use mqtt_console::hub::{Hub, OverflowPolicy, RecvOutcome, SendOutcome};
use mqtt_console::message::Message;

fn raw(text: &str) -> Message {
    Message::RawEvent(text.to_string())
}

#[test]
fn fifo_order_single_producer() {
    let mut hub: Hub<Message> = Hub::new(10, OverflowPolicy::Backpressure);
    hub.add_producer();
    assert_eq!(hub.send(raw("first")), SendOutcome::Enqueued);
    assert_eq!(hub.send(raw("second")), SendOutcome::Enqueued);
    assert_eq!(hub.send(raw("third")), SendOutcome::Enqueued);
    assert_eq!(hub.recv(), RecvOutcome::Item(raw("first")));
    assert_eq!(hub.recv(), RecvOutcome::Item(raw("second")));
    assert_eq!(hub.recv(), RecvOutcome::Item(raw("third")));
    assert_eq!(hub.recv(), RecvOutcome::Pending);
}

#[test]
fn backpressure_full_send_loses_nothing() {
    let mut hub: Hub<Message> = Hub::new(10, OverflowPolicy::Backpressure);
    hub.add_producer();
    for i in 0..10 {
        assert_eq!(hub.send(raw(&format!("m{}", i))), SendOutcome::Enqueued);
    }
    // the eleventh send reports Full and changes nothing
    assert_eq!(hub.send(raw("m10")), SendOutcome::Full);
    assert_eq!(hub.queued_len(), 10);
    assert_eq!(hub.dropped_count(), 0);
    // after one drain the retried send succeeds: every message gets through
    assert_eq!(hub.recv(), RecvOutcome::Item(raw("m0")));
    assert_eq!(hub.send(raw("m10")), SendOutcome::Enqueued);
    for i in 1..11 {
        assert_eq!(hub.recv(), RecvOutcome::Item(raw(&format!("m{}", i))));
    }
    assert_eq!(hub.recv(), RecvOutcome::Pending);
}

#[test]
fn drop_oldest_drops_exactly_one_and_counts() {
    let mut hub: Hub<Message> = Hub::new(10, OverflowPolicy::DropOldest);
    hub.add_producer();
    for i in 0..10 {
        assert_eq!(hub.send(raw(&format!("m{}", i))), SendOutcome::Enqueued);
    }
    // the eleventh send evicts the oldest item and counts the drop
    assert_eq!(hub.send(raw("m10")), SendOutcome::Enqueued);
    assert_eq!(hub.queued_len(), 10);
    assert_eq!(hub.dropped_count(), 1);
    for i in 1..11 {
        assert_eq!(hub.recv(), RecvOutcome::Item(raw(&format!("m{}", i))));
    }
    assert_eq!(hub.recv(), RecvOutcome::Pending);
}

#[test]
fn closed_only_after_producers_gone_and_queue_drained() {
    let mut hub: Hub<Message> = Hub::new(10, OverflowPolicy::Backpressure);
    hub.add_producer();
    hub.add_producer();
    assert_eq!(hub.send(raw("a")), SendOutcome::Enqueued);
    hub.drop_producer();
    assert_eq!(hub.send(raw("b")), SendOutcome::Enqueued);
    hub.drop_producer();
    // both producers are gone, but nothing queued may be lost
    assert_eq!(hub.recv(), RecvOutcome::Item(raw("a")));
    assert_eq!(hub.recv(), RecvOutcome::Item(raw("b")));
    assert_eq!(hub.recv(), RecvOutcome::Closed);
}

#[test]
fn send_after_receiver_closed() {
    let mut hub: Hub<Message> = Hub::new(10, OverflowPolicy::Backpressure);
    hub.add_producer();
    hub.close_receiver();
    assert_eq!(hub.send(raw("a")), SendOutcome::Closed);
    assert_eq!(hub.queued_len(), 0);
}

#[test]
fn consumer_terminates_once_producers_dropped() {
    let mut hub: Hub<Message> = Hub::new(10, OverflowPolicy::Backpressure);
    hub.add_producer();
    assert_eq!(hub.send(raw("one")), SendOutcome::Enqueued);
    assert_eq!(hub.send(raw("two")), SendOutcome::Enqueued);
    hub.drop_producer();
    let mut log: Vec<String> = Vec::new();
    assert_eq!(run_consumer(&mut hub, &mut log), DrainEnd::Terminated);
    assert_eq!(log, vec!["one".to_string(), "two".to_string()]);
    assert_eq!(hub.queued_len(), 0);
}

#[test]
fn consumer_suspends_while_producers_remain() {
    let mut hub: Hub<Message> = Hub::new(10, OverflowPolicy::Backpressure);
    hub.add_producer();
    assert_eq!(hub.send(raw("only")), SendOutcome::Enqueued);
    let mut log: Vec<String> = Vec::new();
    assert_eq!(run_consumer(&mut hub, &mut log), DrainEnd::Suspended);
    assert_eq!(log, vec!["only".to_string()]);
}
