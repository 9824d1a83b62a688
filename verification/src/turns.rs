//! How the two sides of the tunnel take turns on the half-duplex line.
use vstd::prelude::*;

use crate::link::Phase;

verus! {

use crate::controller::{controller_after, controller_can_see, controller_start};
use crate::link::EventView;
use crate::worker::{worker_after, worker_can_see, worker_start};

/// The number of messages that were sent.
pub open spec fn messages_sent(events: Seq<EventView>) -> nat
    decreases events.len(),
{
    if events.len() == 0 {
        0
    } else {
        messages_sent(events.drop_last()) + (if events.last() is Sent { 1nat } else { 0nat })
    }
}

/// The number of messages that were received undamaged.
pub open spec fn messages_received(events: Seq<EventView>) -> nat
    decreases events.len(),
{
    if events.len() == 0 {
        0
    } else {
        messages_received(events.drop_last()) + (if events.last() is Received {
            1nat
        } else {
            0nat
        })
    }
}

/// The number of times that the attempt to receive a message has ended, with a message or without.
pub open spec fn reads_ended(events: Seq<EventView>) -> nat
    decreases events.len(),
{
    if events.len() == 0 {
        0
    } else {
        reads_ended(events.drop_last()) + (if events.last() is Received
            || events.last() is ReceiveFailed {
            1nat
        } else {
            0nat
        })
    }
}

/// The controller makes one attempt to receive an answer for each message that it sends.
pub proof fn law_controller_reads_once_per_message(capacity: usize, events: Seq<EventView>)
    requires
        controller_can_see(controller_start(capacity), events),
    ensures
        ({
            let phase = controller_after(controller_start(capacity), events).phase;
            phase != Phase::Stopped ==> messages_sent(events) == reads_ended(events) + (if phase
                == Phase::Read {
                1int
            } else {
                0int
            })
        }),
    decreases events.len(),
{
    if events.len() > 0 {
        law_controller_reads_once_per_message(capacity, events.drop_last());
    }
}

/// The worker sends one answer for each message that it receives.
pub proof fn law_worker_answers_once_per_message(max_payload_size: usize, events: Seq<EventView>)
    requires
        worker_can_see(worker_start(max_payload_size), events),
    ensures
        ({
            let phase = worker_after(worker_start(max_payload_size), events).phase;
            let answering = phase == Phase::QueryMtu || phase == Phase::Drain || phase
                == Phase::Send;
            &&& phase != Phase::Poll
            &&& phase != Phase::Stopped ==> messages_received(events) == messages_sent(events) + (
            if answering {
                1int
            } else {
                0int
            })
        }),
    decreases events.len(),
{
    if events.len() > 0 {
        law_worker_answers_once_per_message(max_payload_size, events.drop_last());
    }
}

/// Messages do not collide: the two sides do not send at the same time,
/// as long as the worker receives no message that was not sent,
/// and the controller does not give up on an answer that was not sent yet.
pub proof fn law_messages_do_not_collide(
    capacity: usize,
    controller: Seq<EventView>,
    max_payload_size: usize,
    worker: Seq<EventView>,
)
    requires
        controller_can_see(controller_start(capacity), controller),
        worker_can_see(worker_start(max_payload_size), worker),
        messages_received(worker) <= messages_sent(controller),
        reads_ended(controller) <= messages_sent(worker),
    ensures
        !(controller_after(controller_start(capacity), controller).phase == Phase::Send
            && worker_after(worker_start(max_payload_size), worker).phase == Phase::Send),
{
    law_controller_reads_once_per_message(capacity, controller);
    law_worker_answers_once_per_message(max_payload_size, worker);
}

} // verus!
