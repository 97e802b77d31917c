use mqtt_console::consumer::{run_consumer, DrainEnd};
use mqtt_console::decode::decode_payload;
use mqtt_console::egress::{egress_step, report_send_failure};
use mqtt_console::hub::{Hub, OverflowPolicy, SendOutcome};
use mqtt_console::ingress::{classify, deliver, IngressItem};
use mqtt_console::lifecycle::{lifecycle_step, ConnEvent, ConnState};
use mqtt_console::message::{Message, OutgoingCommand};
use mqtt_console::structured::{parse_document, render_document};

#[test]
fn decode_structured_payload_canonically() {
    let r = decode_payload(b"{\"a\":1}".to_vec());
    assert_eq!(r, Some("{\"a\":1}".to_string()));
}

#[test]
fn decode_strips_leading_zeros() {
    let r = decode_payload(b"{\"a\":007}".to_vec());
    assert_eq!(r, Some("{\"a\":7}".to_string()));
}

#[test]
fn decode_is_idempotent_on_structured_payloads() {
    let first = decode_payload(b"{\"k\":042,\"zz\":9}".to_vec()).unwrap();
    assert_eq!(first, "{\"k\":42,\"zz\":9}".to_string());
    let second = decode_payload(first.clone().into_bytes()).unwrap();
    assert_eq!(second, first);
}

#[test]
fn decode_plain_utf8_passes_text_through() {
    assert_eq!(decode_payload(b"hello".to_vec()), Some("hello".to_string()));
}

#[test]
fn decode_invalid_utf8_yields_nothing() {
    assert_eq!(decode_payload(vec![0xFF, 0xFE]), None);
}

#[test]
fn decode_falls_back_on_near_miss_documents() {
    // valid UTF-8, but none of these parse as a structured document
    assert_eq!(
        decode_payload(b"{\"a\":}".to_vec()),
        Some("{\"a\":}".to_string())
    );
    assert_eq!(decode_payload(b"{}x".to_vec()), Some("{}x".to_string()));
    assert_eq!(
        decode_payload(b"{\"a\":9999999999999999999}".to_vec()),
        Some("{\"a\":9999999999999999999}".to_string())
    );
    assert_eq!(
        decode_payload(b"{\"a\": 1}".to_vec()),
        Some("{\"a\": 1}".to_string())
    );
}

#[test]
fn decode_empty_document() {
    assert_eq!(decode_payload(b"{}".to_vec()), Some("{}".to_string()));
}

#[test]
fn parse_then_render_restores_canonical_bytes() {
    let bytes = b"{\"k\":7,\"z\":42}".to_vec();
    let doc = parse_document(&bytes).unwrap();
    assert_eq!(render_document(&doc), bytes);
}

#[test]
fn classify_structured_publish_gives_raw_and_decoded() {
    let item = IngressItem::Event {
        raw: "Incoming(Publish)".to_string(),
        payload: Some(b"{\"a\":1}".to_vec()),
    };
    let msgs = classify(item);
    assert_eq!(
        msgs,
        vec![
            Message::RawEvent("Incoming(Publish)".to_string()),
            Message::DecodedPayload("{\"a\":1}".to_string()),
        ]
    );
}

#[test]
fn classify_plain_text_publish_gives_raw_and_decoded() {
    let item = IngressItem::Event {
        raw: "Incoming(Publish)".to_string(),
        payload: Some(b"hello".to_vec()),
    };
    let msgs = classify(item);
    assert_eq!(
        msgs,
        vec![
            Message::RawEvent("Incoming(Publish)".to_string()),
            Message::DecodedPayload("hello".to_string()),
        ]
    );
}

#[test]
fn classify_invalid_utf8_publish_gives_only_raw() {
    let item = IngressItem::Event {
        raw: "Incoming(Publish)".to_string(),
        payload: Some(vec![0xFF, 0xFE]),
    };
    let msgs = classify(item);
    assert_eq!(msgs, vec![Message::RawEvent("Incoming(Publish)".to_string())]);
}

#[test]
fn classify_non_publish_event_gives_only_raw() {
    let item = IngressItem::Event {
        raw: "Outgoing(PingReq)".to_string(),
        payload: None,
    };
    let msgs = classify(item);
    assert_eq!(msgs, vec![Message::RawEvent("Outgoing(PingReq)".to_string())]);
}

#[test]
fn classify_connection_error_is_discarded() {
    assert_eq!(classify(IngressItem::ConnError), vec![]);
}

#[test]
fn end_to_end_structured_event_reaches_the_log() {
    let mut hub: Hub<Message> = Hub::new(10, OverflowPolicy::Backpressure);
    hub.add_producer();
    deliver(
        &mut hub,
        IngressItem::Event {
            raw: "Incoming(Publish)".to_string(),
            payload: Some(b"{\"a\":1}".to_vec()),
        },
    );
    deliver(
        &mut hub,
        IngressItem::Event {
            raw: "Incoming(Publish)".to_string(),
            payload: Some(vec![0xFF, 0xFE]),
        },
    );
    hub.drop_producer();
    let mut log: Vec<String> = Vec::new();
    assert_eq!(run_consumer(&mut hub, &mut log), DrainEnd::Terminated);
    assert_eq!(
        log,
        vec![
            "Incoming(Publish)".to_string(),
            "{\"a\":1}".to_string(),
            "Incoming(Publish)".to_string(),
        ]
    );
}

#[test]
fn egress_sends_exactly_the_submitted_text() {
    let action = egress_step(OutgoingCommand::new("hello".to_string()));
    assert_eq!(action.payload, "hello".to_string());
}

#[test]
fn egress_failure_is_routed_through_the_hub() {
    let mut hub: Hub<Message> = Hub::new(10, OverflowPolicy::Backpressure);
    hub.add_producer();
    let outcome = report_send_failure(&mut hub, "send failed: broken pipe".to_string());
    assert_eq!(outcome, SendOutcome::Enqueued);
    assert_eq!(hub.queued_len(), 1);
    let mut log: Vec<String> = Vec::new();
    run_consumer(&mut hub, &mut log);
    assert_eq!(log, vec!["send failed: broken pipe".to_string()]);
}

#[test]
fn lifecycle_follows_the_connection() {
    let s = lifecycle_step(ConnState::Disconnected, ConnEvent::DialStarted);
    assert_eq!(s, ConnState::Connecting);
    let s = lifecycle_step(s, ConnEvent::SessionEstablished);
    assert_eq!(s, ConnState::Running);
    let s = lifecycle_step(s, ConnEvent::ConnectionLost);
    assert_eq!(s, ConnState::Closed);
}

#[test]
fn lifecycle_never_leaves_closed() {
    for e in [
        ConnEvent::DialStarted,
        ConnEvent::SessionEstablished,
        ConnEvent::ConnectionLost,
    ] {
        assert_eq!(lifecycle_step(ConnState::Closed, e), ConnState::Closed);
    }
}
