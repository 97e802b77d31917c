//! Event-routing core of an interactive publish/subscribe console.
//!
//! The library normalizes network events arriving on independent producer
//! threads into one ordered stream of [`message::Message`] values, drained by
//! a single cooperative consumer. The pieces are:
//!
//! - [`hub`]: the bounded multi-producer/single-consumer FIFO queue at the
//!   center, with an explicit overflow policy;
//! - [`structured`]: the flat key/value document grammar used to give inbound
//!   payloads a canonical textual form;
//! - [`decode`]: the pure payload decoder (UTF-8, then structured parse);
//! - [`ingress`]: classification of inbound network events into messages;
//! - [`egress`]: the outbound command path;
//! - [`consumer`]: the drain loop feeding the display sink;
//! - [`lifecycle`]: the connection-owning adapters' state machine.
//!
//! All blocking I/O (the network client, the embedded server, the display
//! toolkit) stays outside; the library computes from plain values alone.

pub mod consumer;
pub mod decode;
pub mod egress;
pub mod hub;
pub mod ingress;
pub mod lifecycle;
pub mod message;
pub mod structured;
