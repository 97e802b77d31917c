//! Classification of inbound network events into hub messages: the pure core
//! of the ingress adapter.
//!
//! The adapter's thread blocks on the network connection's event iterator and
//! hands each yielded item here as an [`IngressItem`], already reduced to
//! plain values: the debug rendering of the event, and the payload bytes when
//! the event was an inbound publish. For every event exactly one raw message
//! is produced; a publish payload additionally yields one decoded message
//! when (and only when) it is valid UTF-8. Connection-level errors are
//! silently discarded: no retry, no surfaced diagnostic.

use crate::decode::{decode_payload, decode_spec};
use crate::hub::{send_all_spec, Hub};
use crate::message::{Message, MessageV};
use crate::structured::parse_doc;
use vstd::prelude::*;
use vstd::utf8::{decode_utf8, valid_utf8};

verus! {

/// Mathematical form of an [`IngressItem`].
pub enum IngressItemV {
    Event { raw: Seq<char>, payload: Option<Seq<u8>> },
    ConnError,
}

/// One item yielded by the network connection's event iterator, reduced to
/// plain values by the embedding layer.
#[derive(Debug, PartialEq, Eq)]
pub enum IngressItem {
    /// An observed event: its debug-printable rendering, and the payload
    /// bytes when the event was an inbound publish (`None` otherwise).
    Event { raw: String, payload: Option<Vec<u8>> },
    /// The iterator yielded a connection-level failure instead of an event.
    ConnError,
}

impl View for IngressItem {
    type V = IngressItemV;

    open spec fn view(&self) -> IngressItemV {
        match self {
            IngressItem::Event { raw, payload } => IngressItemV::Event {
                raw: raw@,
                payload: match payload {
                    Some(p) => Some(p@),
                    None => None,
                },
            },
            IngressItem::ConnError => IngressItemV::ConnError,
        }
    }
}

/// The messages one ingress item gives rise to, in order: nothing for a
/// connection error; the raw rendering for every event; and, for a publish
/// payload that decodes, the decoded text after the raw rendering.
pub open spec fn classify_spec(i: IngressItemV) -> Seq<MessageV> {
    match i {
        IngressItemV::ConnError => Seq::empty(),
        IngressItemV::Event { raw, payload } => match payload {
            None => seq![MessageV::Raw(raw)],
            Some(p) => match decode_spec(p) {
                Some(t) => seq![MessageV::Raw(raw), MessageV::Decoded(t)],
                None => seq![MessageV::Raw(raw)],
            },
        },
    }
}

/// Turns one ingress item into its messages, exactly as [`classify_spec`]
/// says.
pub fn classify(item: IngressItem) -> (r: Vec<Message>)
    ensures
        r.deep_view() == classify_spec(item@),
{
    let ghost iv = item@;
    match item {
        IngressItem::ConnError => {
            let out: Vec<Message> = Vec::new();
            proof {
                assert(out.deep_view() =~= classify_spec(iv));
            }
            out
        },
        IngressItem::Event { raw, payload } => {
            let mut out: Vec<Message> = Vec::new();
            out.push(Message::RawEvent(raw));
            match payload {
                None => {
                    proof {
                        assert(out.deep_view() =~= classify_spec(iv));
                    }
                    out
                },
                Some(p) => {
                    match decode_payload(p) {
                        Some(t) => {
                            out.push(Message::DecodedPayload(t));
                        },
                        None => {},
                    }
                    proof {
                        assert(out.deep_view() =~= classify_spec(iv));
                    }
                    out
                },
            }
        },
    }
}

/// Classifies one ingress item and sends every resulting message into the
/// hub, in order: the ingress adapter's whole turn for one iterator item.
pub fn deliver(hub: &mut Hub<Message>, item: IngressItem)
    requires
        old(hub)@.wf(),
    ensures
        final(hub)@.wf(),
        final(hub)@ == send_all_spec(old(hub)@, classify_spec(item@)),
{
    let ghost iv = item@;
    let mut rest = classify(item);
    while rest.len() > 0
        invariant
            hub@.wf(),
            send_all_spec(old(hub)@, classify_spec(iv)) == send_all_spec(hub@, rest.deep_view()),
        decreases rest@.len(),
    {
        let ghost pre_msgs = rest.deep_view();
        let ghost pre_hub = hub@;
        let m = rest.remove(0);
        let _ = hub.send(m);
        proof {
            assert(rest.deep_view() =~= pre_msgs.drop_first());
            assert(pre_msgs.first() == m@);
        }
    }
    proof {
        assert(rest.deep_view() =~= Seq::<MessageV>::empty());
    }
}

/// For an inbound publish whose payload is valid UTF-8 but not structured-
/// parseable, classification yields exactly one raw message and exactly one
/// decoded message carrying the payload's plain text, in that order.
pub proof fn lemma_publish_plain_text(raw: Seq<char>, p: Seq<u8>)
    requires
        valid_utf8(p),
        parse_doc(p) is None,
    ensures
        classify_spec(IngressItemV::Event { raw, payload: Some(p) }) == seq![
            MessageV::Raw(raw),
            MessageV::Decoded(decode_utf8(p)),
        ],
{
}

/// For an inbound publish whose payload is not valid UTF-8, classification
/// yields exactly one raw message and no decoded message: the decode failure
/// is silent and non-fatal.
pub proof fn lemma_publish_invalid_utf8(raw: Seq<char>, p: Seq<u8>)
    requires
        !valid_utf8(p),
    ensures
        classify_spec(IngressItemV::Event { raw, payload: Some(p) }) == seq![MessageV::Raw(raw)],
{
}

/// For an inbound publish whose payload parses as a structured document,
/// classification yields exactly one raw message and exactly one decoded
/// message carrying the document's canonical rendering.
pub proof fn lemma_publish_structured(raw: Seq<char>, p: Seq<u8>, es: Seq<(Seq<u8>, nat)>)
    requires
        valid_utf8(p),
        parse_doc(p) == Some(es),
    ensures
        classify_spec(IngressItemV::Event { raw, payload: Some(p) }) == seq![
            MessageV::Raw(raw),
            MessageV::Decoded(decode_utf8(crate::structured::render_doc(es))),
        ],
{
}

} // verus!
