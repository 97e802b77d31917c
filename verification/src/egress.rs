//! The outbound command path: the pure core of the egress adapter.
//!
//! The adapter's thread exclusively owns the network connection's send
//! handle, drains the command channel, and performs one blocking send per
//! command. [`egress_step`] fixes what that send carries; it touches no hub,
//! so sending produces no message as a side effect. A failed send is not
//! swallowed: [`report_send_failure`] routes it back through the hub as a
//! distinguishable message.

use crate::hub::{send_spec, Hub, SendOutcome};
use crate::message::{Message, MessageV, OutgoingCommand};
use vstd::prelude::*;

verus! {

/// The one blocking send the egress adapter owes for a command.
#[derive(Debug, PartialEq, Eq)]
pub struct SendAction {
    /// The payload to hand to the network client: exactly the command text.
    pub payload: String,
}

/// Turns one drained command into its send action: the payload is the
/// command's text, unchanged, and nothing else is produced.
pub fn egress_step(cmd: OutgoingCommand) -> (a: SendAction)
    ensures
        a.payload@ == cmd@,
{
    SendAction { payload: cmd.text }
}

/// Routes a failed blocking send back through the hub as one distinguishable
/// message carrying the error text, instead of silently ending outbound
/// capability.
pub fn report_send_failure(hub: &mut Hub<Message>, error_text: String) -> (r: SendOutcome)
    requires
        old(hub)@.wf(),
    ensures
        final(hub)@.wf(),
        final(hub)@ == send_spec(old(hub)@, MessageV::SendFail(error_text@)).0,
        r == send_spec(old(hub)@, MessageV::SendFail(error_text@)).1,
{
    hub.send(Message::SendFailure(error_text))
}

} // verus!
