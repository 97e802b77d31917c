//! The values that travel through the hub: messages for the consumer loop
//! and commands for the egress adapter.

use vstd::prelude::*;

verus! {

/// Mathematical form of a [`Message`]: the kind and the text it carries.
#[verifier::ext_equal]
pub enum MessageV {
    Raw(Seq<char>),
    Decoded(Seq<char>),
    SendFail(Seq<char>),
}

impl MessageV {
    /// The text carried by the message, whatever its kind.
    pub open spec fn text(self) -> Seq<char> {
        match self {
            MessageV::Raw(t) => t,
            MessageV::Decoded(t) => t,
            MessageV::SendFail(t) => t,
        }
    }
}

/// A message produced by an adapter and consumed by the consumer loop.
#[derive(Debug, PartialEq, Eq, Clone)]
pub enum Message {
    /// A debug-printable rendering of an observed network event;
    /// produced unconditionally, once per event.
    RawEvent(String),
    /// The decoded payload of an inbound publish event: present only when the
    /// payload is valid UTF-8; canonically re-rendered when it also parses as
    /// a structured document.
    DecodedPayload(String),
    /// A failed outbound send, surfaced as a distinguishable event instead of
    /// silently ending outbound capability.
    SendFailure(String),
}

impl View for Message {
    type V = MessageV;

    open spec fn view(&self) -> MessageV {
        match self {
            Message::RawEvent(t) => MessageV::Raw(t@),
            Message::DecodedPayload(t) => MessageV::Decoded(t@),
            Message::SendFailure(t) => MessageV::SendFail(t@),
        }
    }
}

impl DeepView for Message {
    type V = MessageV;

    open spec fn deep_view(&self) -> MessageV {
        self@
    }
}

impl Message {
    /// Extracts the text to append to the display sink for this message.
    pub fn into_text(self) -> (r: String)
        ensures
            r@ == self@.text(),
    {
        match self {
            Message::RawEvent(t) => t,
            Message::DecodedPayload(t) => t,
            Message::SendFailure(t) => t,
        }
    }
}

/// A single text payload captured from user input, headed for the egress
/// adapter; it carries no topic or metadata beyond the string.
#[derive(Debug, PartialEq, Eq, Clone)]
pub struct OutgoingCommand {
    pub text: String,
}

impl View for OutgoingCommand {
    type V = Seq<char>;

    open spec fn view(&self) -> Seq<char> {
        self.text@
    }
}

impl OutgoingCommand {
    /// Captures one user action as a command.
    pub fn new(text: String) -> (r: OutgoingCommand)
        ensures
            r@ == text@,
    {
        OutgoingCommand { text }
    }
}

} // verus!
