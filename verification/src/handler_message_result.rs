//! The business verdict for one delivered message, and the acknowledgment
//! dispatcher that turns a verdict into exactly one broker acknowledgment.

use vstd::prelude::*;

verus! {

/// The outcome the business handler reports for one delivered message.
/// There is no other state: retry policy is entirely the requeue flag.
#[derive(Clone, Copy, Debug, PartialEq, Eq, Structural)]
pub enum HandleMessageResult {
    /// The message was processed; acknowledge it positively.
    Ack,
    /// The message is rejected and must not come back: the broker drops or
    /// dead-letters it.
    NackNoRequeue,
    /// The message is rejected but should be redelivered later.
    NackWithRequeue,
}

/// One broker acknowledgment call, as the dispatcher orders it.  The driver
/// performs exactly this call: `Ack` becomes a positive acknowledgment
/// (`basic.ack`), `Nack` a negative one (`basic.nack`) with the given
/// requeue flag.
#[derive(Clone, Copy, Debug, PartialEq, Eq, Structural)]
pub enum AckCommand {
    Ack { delivery_tag: u64, multiple: bool },
    Nack { delivery_tag: u64, multiple: bool, requeue: bool },
}

impl AckCommand {
    /// The delivery identifier this acknowledgment is for.
    pub open spec fn tag(self) -> u64 {
        match self {
            AckCommand::Ack { delivery_tag, .. } => delivery_tag,
            AckCommand::Nack { delivery_tag, .. } => delivery_tag,
        }
    }

    /// Whether this acknowledgment covers earlier unacknowledged deliveries
    /// too.  The dispatcher never issues such a call.
    pub open spec fn is_multiple(self) -> bool {
        match self {
            AckCommand::Ack { multiple, .. } => multiple,
            AckCommand::Nack { multiple, .. } => multiple,
        }
    }

    /// Whether this is a positive acknowledgment.
    pub open spec fn is_positive(self) -> bool {
        self is Ack
    }

    /// Whether this acknowledgment sends the message back to the queue.
    pub open spec fn requeues(self) -> bool {
        self matches AckCommand::Nack { requeue: true, .. }
    }
}

/// The acknowledgment the dispatcher owes for verdict `result` on the
/// delivery identified by `tag`: always exactly one call, always for `tag`
/// alone (never multiple), positive exactly for `Ack`, and requeueing
/// exactly for `NackWithRequeue`.
pub open spec fn command_for(result: HandleMessageResult, tag: u64) -> AckCommand {
    match result {
        HandleMessageResult::Ack => AckCommand::Ack { delivery_tag: tag, multiple: false },
        HandleMessageResult::NackNoRequeue => AckCommand::Nack {
            delivery_tag: tag,
            multiple: false,
            requeue: false,
        },
        HandleMessageResult::NackWithRequeue => AckCommand::Nack {
            delivery_tag: tag,
            multiple: false,
            requeue: true,
        },
    }
}

/// The acknowledgment dispatcher: decides the single broker call owed for
/// one verdict on one delivery.  The driver must issue exactly the returned
/// call, await it, and abort loudly if the call itself fails (an ack failure
/// means the channel is already dying; the reconnect cycle recovers).
pub fn action_result(result: HandleMessageResult, tag: u64) -> (c: AckCommand)
    ensures
        c == command_for(result, tag),
{
    match result {
        HandleMessageResult::Ack => AckCommand::Ack { delivery_tag: tag, multiple: false },
        HandleMessageResult::NackNoRequeue => AckCommand::Nack {
            delivery_tag: tag,
            multiple: false,
            requeue: false,
        },
        HandleMessageResult::NackWithRequeue => AckCommand::Nack {
            delivery_tag: tag,
            multiple: false,
            requeue: true,
        },
    }
}

/// Law: for every verdict, the dispatcher orders exactly one acknowledgment,
/// it names exactly the delivery identifier passed in, it is never a
/// multiple acknowledgment, it is positive if and only if the verdict is
/// `Ack`, and it requeues if and only if the verdict is `NackWithRequeue`.
pub proof fn lemma_dispatch_exact(result: HandleMessageResult, tag: u64)
    ensures
        command_for(result, tag).tag() == tag,
        !command_for(result, tag).is_multiple(),
        command_for(result, tag).is_positive() <==> result is Ack,
        command_for(result, tag).requeues() <==> result is NackWithRequeue,
{
}

} // verus!
