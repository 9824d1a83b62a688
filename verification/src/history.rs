//! What the two sides of the tunnel do, seen from outside.
//!
//! The statements in this module are about the work that a side asks for and how that work ended.
//! They hold for every way in which all the work since the start may have ended.
use vstd::prelude::*;

use crate::link::{Action, Event, Phase};

verus! {

use crate::controller::{controller_after, controller_can_see, controller_start, packet_buffer_size};
use crate::error::ErrorView;
use crate::link::{action_in, delivered_times, is_outcome, taken_packets, ActionView, EventView};
use crate::packets::{encode_packets, law_parse_returns_the_encoded_packets, lemma_encode_push, lengths_fit};
use crate::packets::{parse_packets, PayloadFault};
use crate::worker::{worker_after, worker_can_see, worker_start};

/// The work ended in a way that there is nothing left to do about:
/// the tunnel interface failed or is gone, a message could not be sent, or the serial port failed.
pub open spec fn is_permanent_failure(event: EventView) -> bool {
    match event {
        EventView::Packet(packet) => packet.len() == 0,
        EventView::InterfaceFailed => true,
        EventView::SendFailed => true,
        EventView::ReceiveFailed(error) => error is SerialPort,
        _ => false,
    }
}

/// The packets that were taken from the tunnel interface since a message was last sent, in order.
pub open spec fn unsent_packets(events: Seq<EventView>) -> Seq<Seq<u8>>
    decreases events.len(),
{
    if events.len() == 0 || events.last() is Sent {
        Seq::empty()
    } else {
        let before = unsent_packets(events.drop_last());
        match events.last() {
            EventView::Packet(packet) => if 0 < packet.len() <= u16::MAX {
                before.push(packet)
            } else {
                before
            },
            _ => before,
        }
    }
}

/// The packets in all messages that were received, in order.
pub open spec fn received_packets(events: Seq<EventView>) -> Seq<Seq<u8>>
    decreases events.len(),
{
    if events.len() == 0 {
        Seq::empty()
    } else {
        let before = received_packets(events.drop_last());
        match events.last() {
            EventView::Received(packets) => before + packets,
            _ => before,
        }
    }
}

/// The packets of the last message that were not written to the tunnel interface yet, in order.
pub open spec fn undelivered_packets(events: Seq<EventView>) -> Seq<Seq<u8>>
    decreases events.len(),
{
    if events.len() == 0 {
        Seq::empty()
    } else {
        let before = undelivered_packets(events.drop_last());
        match events.last() {
            EventView::Received(packets) => packets,
            EventView::Delivered => before.drop_first(),
            _ => before,
        }
    }
}

/// The MTU of the tunnel interface when it was last looked up.
pub open spec fn last_mtu(events: Seq<EventView>) -> u16
    decreases events.len(),
{
    if events.len() == 0 {
        0
    } else {
        match events.last() {
            EventView::Mtu(mtu) => mtu,
            _ => last_mtu(events.drop_last()),
        }
    }
}

/// The other side is assumed to be there:
/// a message was received since the last timeout, or there was no timeout.
pub open spec fn is_heard(events: Seq<EventView>) -> bool
    decreases events.len(),
{
    if events.len() == 0 {
        true
    } else {
        match events.last() {
            EventView::Received(_) => true,
            EventView::ReceiveFailed(ErrorView::TimeoutElapsed) => false,
            _ => is_heard(events.drop_last()),
        }
    }
}

/// The number of bytes that packets take in a payload: two for the length of each packet, and its data.
pub open spec fn wire_size(packets: Seq<Seq<u8>>) -> nat
    decreases packets.len(),
{
    if packets.len() == 0 {
        0
    } else {
        wire_size(packets.drop_last()) + 2 + packets.last().len()
    }
}

/// The packets in all the given payloads, in order.
pub open spec fn packets_in(payloads: Seq<Seq<u8>>) -> Seq<Seq<u8>>
    decreases payloads.len(),
{
    if payloads.len() == 0 {
        Seq::empty()
    } else {
        let before = packets_in(payloads.drop_last());
        match parse_packets(payloads.last()) {
            Ok(packets) => before + packets,
            Err(_) => before,
        }
    }
}

/// Another packet is asked for, with the space that is left behind the packets that were not sent yet.
pub open spec fn takes_another(action: ActionView, capacity: usize, events: Seq<EventView>) -> bool {
    action matches ActionView::TryReceive { space } && wire_size(unsent_packets(events)) + 2 + space
        == capacity
}

/// A packet of the size of the MTU fits behind the packets that were not sent yet.
pub open spec fn full_packet_fits(capacity: usize, events: Seq<EventView>) -> bool {
    wire_size(unsent_packets(events)) + 2 + last_mtu(events) <= capacity
}

/// The first packet that was not written to the tunnel interface yet is the one to be written.
pub open spec fn delivers_next(action: ActionView, events: Seq<EventView>) -> bool {
    &&& undelivered_packets(events).len() > 0
    &&& action == (ActionView::Deliver { packet: undelivered_packets(events)[0] })
}

/// The packets take as many bytes as their payload has.
pub proof fn law_payload_has_the_wire_size(packets: Seq<Seq<u8>>)
    ensures
        encode_packets(packets).len() == wire_size(packets),
    decreases packets.len(),
{
    if packets.len() > 0 {
        law_payload_has_the_wire_size(packets.drop_last());
        lemma_encode_push(packets.drop_last(), packets.last());
        assert(packets.drop_last().push(packets.last()) =~= packets);
    }
}

/// What is taken from the tunnel interface is every packet but those that can not be sent, in order:
/// one more packet is one more packet at the end, if its length can be written in 16 bits and it is not empty.
pub proof fn law_every_packet_is_taken(events: Seq<EventView>, packet: Seq<u8>)
    ensures
        0 < packet.len() <= u16::MAX ==> taken_packets(events.push(EventView::Packet(packet)))
            == taken_packets(events).push(packet),
        packet.len() == 0 || packet.len() > u16::MAX ==> taken_packets(
            events.push(EventView::Packet(packet)),
        ) == taken_packets(events),
        taken_packets(Seq::empty()) == Seq::<Seq<u8>>::empty(),
        forall|event: EventView|
            !(event is Packet) ==> #[trigger] taken_packets(events.push(event)) == taken_packets(events),
{
    assert(events.push(EventView::Packet(packet)).drop_last() =~= events);
    assert forall|event: EventView| !(event is Packet) implies #[trigger] taken_packets(
        events.push(event),
    ) == taken_packets(events) by {
        assert(events.push(event).drop_last() =~= events);
    }
}

/// A payload that was sent adds its packets.
proof fn lemma_packets_in_push(payloads: Seq<Seq<u8>>, payload: Seq<u8>)
    ensures
        packets_in(payloads.push(payload)) == match parse_packets(payload) {
            Ok(packets) => packets_in(payloads) + packets,
            Err(_) => packets_in(payloads),
        },
{
    assert(payloads.push(payload).drop_last() =~= payloads);
}

/// The payloads of the messages that a controller has sent, in order.
pub open spec fn controller_payloads(capacity: usize, events: Seq<EventView>) -> Seq<Seq<u8>>
    decreases events.len(),
{
    if events.len() == 0 {
        Seq::empty()
    } else {
        let before = controller_payloads(capacity, events.drop_last());
        match (action_in(controller_after(controller_start(capacity), events.drop_last())), events.last()) {
            (ActionView::Send { payload }, EventView::Sent) => before.push(payload),
            _ => before,
        }
    }
}

/// The packets that a controller has written to the tunnel interface, in order.
pub open spec fn controller_delivered(capacity: usize, events: Seq<EventView>) -> Seq<Seq<u8>>
    decreases events.len(),
{
    if events.len() == 0 {
        Seq::empty()
    } else {
        let before = controller_delivered(capacity, events.drop_last());
        match (action_in(controller_after(controller_start(capacity), events.drop_last())), events.last()) {
            (ActionView::Deliver { packet }, EventView::Delivered) => before.push(packet),
            _ => before,
        }
    }
}

/// The state of a controller is what its history makes it.
proof fn lemma_controller_history(capacity: usize, events: Seq<EventView>)
    requires
        controller_can_see(controller_start(capacity), events),
    ensures
        ({
            let state = controller_after(controller_start(capacity), events);
            &&& state.capacity == capacity
            &&& state.alive == is_heard(events)
            &&& state.mtu == last_mtu(events)
            &&& lengths_fit(state.outgoing)
            &&& encode_packets(state.outgoing).len() <= capacity
            &&& state.phase == Phase::Stopped <==> (events.len() > 0 && is_permanent_failure(
                events.last(),
            ))
            &&& state.phase != Phase::Stopped ==> {
                &&& state.incoming == undelivered_packets(events)
                &&& state.phase == Phase::Poll || state.phase == Phase::Read || state.phase == Phase::Deliver
                    ==> unsent_packets(events).len() == 0
                &&& state.phase == Phase::Poll || state.phase == Phase::QueryMtu || state.phase == Phase::Drain || state.phase == Phase::Send
                    ==> state.outgoing == unsent_packets(events)
                &&& state.phase == Phase::Deliver ==> undelivered_packets(events).len() > 0
                &&& state.phase != Phase::Deliver ==> undelivered_packets(events).len() == 0
            }
        }),
    decreases events.len(),
{
    crate::controller::law_controller_collects_packets(capacity, events);
    if events.len() > 0 {
        lemma_controller_history(capacity, events.drop_last());
    }
}

/// A controller stops when there is nothing left to do about a failure, and only then:
/// timeouts and damaged messages do not stop it, however many there are.
pub proof fn law_controller_stops_only_on_permanent_failures(capacity: usize, events: Seq<EventView>)
    requires
        controller_can_see(controller_start(capacity), events),
    ensures
        action_in(controller_after(controller_start(capacity), events)) is Stop <==> (events.len() > 0
            && is_permanent_failure(events.last())),
        forall|i: int| 0 <= i < events.len() - 1 ==> !is_permanent_failure(#[trigger] events[i]),
    decreases events.len(),
{
    lemma_controller_history(capacity, events);
    if events.len() > 0 {
        let before = events.drop_last();
        law_controller_stops_only_on_permanent_failures(capacity, before);
        assert forall|i: int| 0 <= i < events.len() - 1 implies !is_permanent_failure(
            #[trigger] events[i],
        ) by {
            assert(events[i] == before[i]);
            assert(before.len() > 0 && i == before.len() - 1 ==> before.last() == events[i]);
        }
    }
}

/// The payload that a controller is about to send is whole:
/// the other side finds in it exactly the packets that were taken since the last message was sent.
/// It is no larger than the buffer.
pub proof fn law_controller_payload_is_whole(capacity: usize, events: Seq<EventView>)
    requires
        controller_can_see(controller_start(capacity), events),
    ensures
        action_in(controller_after(controller_start(capacity), events)) matches ActionView::Send { payload } ==> {
            &&& parse_packets(payload) == Ok::<_, PayloadFault>(unsent_packets(events))
            &&& payload.len() == wire_size(unsent_packets(events))
            &&& payload.len() <= capacity
        },
{
    lemma_controller_history(capacity, events);
    let state = controller_after(controller_start(capacity), events);
    law_parse_returns_the_encoded_packets(state.outgoing);
    law_payload_has_the_wire_size(state.outgoing);
}

/// Every packet that a controller takes from the tunnel interface is sent, in order and once:
/// the packets in the payloads that were sent, and after them those that were taken since the last message,
/// are the packets that were taken. None of them is left when the other side is listened to.
pub proof fn law_controller_sends_every_packet(capacity: usize, events: Seq<EventView>)
    requires
        controller_can_see(controller_start(capacity), events),
    ensures
        packets_in(controller_payloads(capacity, events)) + unsent_packets(events) == taken_packets(events),
        forall|i: int|
            0 <= i < controller_payloads(capacity, events).len() ==> parse_packets(
                #[trigger] controller_payloads(capacity, events)[i],
            ) is Ok,
        action_in(controller_after(controller_start(capacity), events)) is Read ==> packets_in(
            controller_payloads(capacity, events),
        ) == taken_packets(events),
    decreases events.len(),
{
    lemma_controller_history(capacity, events);
    if events.len() > 0 {
        let before = events.drop_last();
        lemma_controller_history(capacity, before);
        law_controller_sends_every_packet(capacity, before);
        law_controller_payload_is_whole(capacity, before);
        let payloads = controller_payloads(capacity, before);
        if let ActionView::Send { payload } = action_in(controller_after(controller_start(capacity), before)) {
            lemma_packets_in_push(payloads, payload);
            if events.last() is Sent {
                assert(controller_payloads(capacity, events) == payloads.push(payload));
                assert(packets_in(payloads.push(payload)) + Seq::empty() =~= packets_in(payloads)
                    + unsent_packets(before));
            }
        }
        if let EventView::Packet(packet) = events.last() {
            if 0 < packet.len() <= u16::MAX {
                assert(packets_in(payloads) + unsent_packets(before).push(packet) =~= (packets_in(
                    payloads,
                ) + unsent_packets(before)).push(packet));
            }
        }
    }
    assert(unsent_packets(events).len() == 0 ==> packets_in(controller_payloads(capacity, events))
        + unsent_packets(events) =~= packets_in(controller_payloads(capacity, events)));
}

/// Every packet that a controller receives is written to the tunnel interface, in order and once:
/// the packets that were written, and after them those that are left of the last message, are the packets
/// that were received. None of them is left when the controller has started its next round.
pub proof fn law_controller_delivers_every_packet(capacity: usize, events: Seq<EventView>)
    requires
        controller_can_see(controller_start(capacity), events),
    ensures
        controller_delivered(capacity, events) + undelivered_packets(events) == received_packets(events),
        action_in(controller_after(controller_start(capacity), events)) is Deliver ==> delivers_next(
            action_in(controller_after(controller_start(capacity), events)),
            events,
        ),
        ({
            let action = action_in(controller_after(controller_start(capacity), events));
            !(action is Deliver) && !(action is Stop)
        }) ==> controller_delivered(capacity, events) == received_packets(events),
    decreases events.len(),
{
    lemma_controller_history(capacity, events);
    if events.len() > 0 {
        let before = events.drop_last();
        lemma_controller_history(capacity, before);
        law_controller_delivers_every_packet(capacity, before);
        let delivered = controller_delivered(capacity, before);
        let left = undelivered_packets(before);
        match events.last() {
            EventView::Received(packets) => {
                assert(left.len() == 0);
                assert(delivered + left =~= delivered);
            },
            EventView::Delivered => {
                assert(controller_delivered(capacity, events) == delivered.push(left[0]));
                assert(delivered.push(left[0]) + left.drop_first() =~= delivered + left);
            },
            _ => {},
        }
    }
    assert(undelivered_packets(events).len() == 0 ==> controller_delivered(capacity, events)
        + undelivered_packets(events) =~= controller_delivered(capacity, events));
}

/// A controller assumes that the other side is there unless the last thing that it knows of it is a timeout.
pub proof fn law_controller_knows_whether_it_is_heard(capacity: usize, events: Seq<EventView>)
    requires
        controller_can_see(controller_start(capacity), events),
    ensures
        controller_after(controller_start(capacity), events).alive == is_heard(events),
{
    lemma_controller_history(capacity, events);
}

/// A new round of a controller: a packet is awaited, of up to the size that fits behind its length.
/// If not even a length fits, a message without packets is sent.
pub open spec fn starts_round(action: ActionView, capacity: usize) -> bool {
    if capacity >= 2 {
        action == (ActionView::Receive { space: (capacity - 2) as nat })
    } else {
        action == (ActionView::Send { payload: Seq::empty() })
    }
}

/// What a controller asks for next.
///
/// - It starts with a new round.
/// - The first packet is followed by a look at the MTU, and no packet in time by a message.
/// - As long as a packet of the size of the MTU fits, another packet is asked for. Otherwise the message is sent.
/// - After a message is sent, the answer is awaited.
/// - The packets of the answer are written to the tunnel interface, and a new round starts after the last one,
///   or at once if there is no answer or a damaged one.
pub proof fn law_controller_goes_on(capacity: usize, events: Seq<EventView>, event: EventView)
    requires
        controller_can_see(controller_start(capacity), events),
        is_outcome(action_in(controller_after(controller_start(capacity), events)), event),
        !is_permanent_failure(event),
    ensures
        starts_round(action_in(controller_start(capacity)), capacity),
        ({
            let before = action_in(controller_after(controller_start(capacity), events));
            let later = events.push(event);
            let action = action_in(controller_after(controller_start(capacity), later));
            match event {
                EventView::Packet(_) if before is Receive => action is QueryMtu,
                EventView::Packet(_) | EventView::Mtu(_) => if full_packet_fits(capacity, later) {
                    takes_another(action, capacity, later)
                } else {
                    action is Send
                },
                EventView::Idle => action is Send,
                EventView::Sent => action is Read,
                _ => if undelivered_packets(later).len() > 0 {
                    delivers_next(action, later)
                } else {
                    starts_round(action, capacity)
                },
            }
        }),
{
    let later = events.push(event);
    assert(later.drop_last() =~= events);
    lemma_controller_history(capacity, events);
    lemma_controller_history(capacity, later);
    law_payload_has_the_wire_size(controller_after(controller_start(capacity), later).outgoing);
    law_payload_has_the_wire_size(Seq::empty());
}

/// A controller takes packets into a buffer of the maximum payload size,
/// or of 65535 bytes if that is less: what it asks for first uses all of it.
pub proof fn law_controller_uses_the_whole_payload(max_payload_size: usize)
    ensures
        ({
            let action = action_in(controller_start(packet_buffer_size(max_payload_size)));
            &&& max_payload_size <= 65535 ==> starts_round(action, max_payload_size)
            &&& max_payload_size > 65535 ==> starts_round(action, 65535)
        }),
{
    law_payload_has_the_wire_size(Seq::empty());
}

/// The payloads of the messages that a worker has sent, in order.
pub open spec fn worker_payloads(max_payload_size: usize, events: Seq<EventView>) -> Seq<Seq<u8>>
    decreases events.len(),
{
    if events.len() == 0 {
        Seq::empty()
    } else {
        let before = worker_payloads(max_payload_size, events.drop_last());
        match (action_in(worker_after(worker_start(max_payload_size), events.drop_last())), events.last()) {
            (ActionView::Send { payload }, EventView::Sent) => before.push(payload),
            _ => before,
        }
    }
}

/// The packets that a worker has written to the tunnel interface, in order.
pub open spec fn worker_delivered(max_payload_size: usize, events: Seq<EventView>) -> Seq<Seq<u8>>
    decreases events.len(),
{
    if events.len() == 0 {
        Seq::empty()
    } else {
        let before = worker_delivered(max_payload_size, events.drop_last());
        match (action_in(worker_after(worker_start(max_payload_size), events.drop_last())), events.last()) {
            (ActionView::Deliver { packet }, EventView::Delivered) => before.push(packet),
            _ => before,
        }
    }
}

/// The state of a worker is what its history makes it.
proof fn lemma_worker_history(max_payload_size: usize, events: Seq<EventView>)
    requires
        worker_can_see(worker_start(max_payload_size), events),
    ensures
        ({
            let state = worker_after(worker_start(max_payload_size), events);
            &&& state.capacity == max_payload_size
            &&& state.alive == is_heard(events)
            &&& state.mtu == last_mtu(events)
            &&& lengths_fit(state.outgoing)
            &&& encode_packets(state.outgoing).len() <= max_payload_size
            &&& state.phase == Phase::Stopped <==> (events.len() > 0 && is_permanent_failure(
                events.last(),
            ))
            &&& state.phase != Phase::Stopped ==> {
                &&& state.incoming == undelivered_packets(events)
                &&& state.phase == Phase::QueryMtu || state.phase == Phase::Read || state.phase == Phase::Deliver
                    ==> unsent_packets(events).len() == 0
                &&& state.phase == Phase::Drain || state.phase == Phase::Send
                    ==> state.outgoing == unsent_packets(events)
                &&& state.phase == Phase::Deliver ==> undelivered_packets(events).len() > 0
                &&& state.phase == Phase::Read ==> undelivered_packets(events).len() == 0
                &&& state.phase != Phase::Poll
            }
        }),
    decreases events.len(),
{
    crate::worker::law_worker_payload_fits(max_payload_size, events);
    if events.len() > 0 {
        lemma_worker_history(max_payload_size, events.drop_last());
    }
}

/// A worker stops when there is nothing left to do about a failure, and only then:
/// timeouts and damaged messages do not stop it, however many there are.
pub proof fn law_worker_stops_only_on_permanent_failures(max_payload_size: usize, events: Seq<EventView>)
    requires
        worker_can_see(worker_start(max_payload_size), events),
    ensures
        action_in(worker_after(worker_start(max_payload_size), events)) is Stop <==> (events.len() > 0
            && is_permanent_failure(events.last())),
        forall|i: int| 0 <= i < events.len() - 1 ==> !is_permanent_failure(#[trigger] events[i]),
    decreases events.len(),
{
    lemma_worker_history(max_payload_size, events);
    if events.len() > 0 {
        let before = events.drop_last();
        law_worker_stops_only_on_permanent_failures(max_payload_size, before);
        assert forall|i: int| 0 <= i < events.len() - 1 implies !is_permanent_failure(
            #[trigger] events[i],
        ) by {
            assert(events[i] == before[i]);
            assert(before.len() > 0 && i == before.len() - 1 ==> before.last() == events[i]);
        }
    }
}

/// The payload that a worker is about to send is whole:
/// the other side finds in it exactly the packets that were taken since the last message was sent.
/// It is no larger than the maximum payload size.
pub proof fn law_worker_payload_is_whole(max_payload_size: usize, events: Seq<EventView>)
    requires
        worker_can_see(worker_start(max_payload_size), events),
    ensures
        action_in(worker_after(worker_start(max_payload_size), events)) matches ActionView::Send { payload } ==> {
            &&& parse_packets(payload) == Ok::<_, PayloadFault>(unsent_packets(events))
            &&& payload.len() == wire_size(unsent_packets(events))
            &&& payload.len() <= max_payload_size
        },
{
    lemma_worker_history(max_payload_size, events);
    let state = worker_after(worker_start(max_payload_size), events);
    law_parse_returns_the_encoded_packets(state.outgoing);
    law_payload_has_the_wire_size(state.outgoing);
}

/// Every packet that a worker takes from the tunnel interface is sent, in order and once:
/// the packets in the payloads that were sent, and after them those that were taken since the last message,
/// are the packets that were taken. None of them is left when the other side is listened to.
pub proof fn law_worker_sends_every_packet(max_payload_size: usize, events: Seq<EventView>)
    requires
        worker_can_see(worker_start(max_payload_size), events),
    ensures
        packets_in(worker_payloads(max_payload_size, events)) + unsent_packets(events) == taken_packets(events),
        forall|i: int|
            0 <= i < worker_payloads(max_payload_size, events).len() ==> parse_packets(
                #[trigger] worker_payloads(max_payload_size, events)[i],
            ) is Ok,
        action_in(worker_after(worker_start(max_payload_size), events)) is Read ==> packets_in(
            worker_payloads(max_payload_size, events),
        ) == taken_packets(events),
    decreases events.len(),
{
    lemma_worker_history(max_payload_size, events);
    if events.len() > 0 {
        let before = events.drop_last();
        lemma_worker_history(max_payload_size, before);
        law_worker_sends_every_packet(max_payload_size, before);
        law_worker_payload_is_whole(max_payload_size, before);
        let payloads = worker_payloads(max_payload_size, before);
        if let ActionView::Send { payload } = action_in(worker_after(worker_start(max_payload_size), before)) {
            lemma_packets_in_push(payloads, payload);
            if events.last() is Sent {
                assert(worker_payloads(max_payload_size, events) == payloads.push(payload));
                assert(packets_in(payloads.push(payload)) + Seq::empty() =~= packets_in(payloads)
                    + unsent_packets(before));
            }
        }
        if let EventView::Packet(packet) = events.last() {
            if 0 < packet.len() <= u16::MAX {
                assert(packets_in(payloads) + unsent_packets(before).push(packet) =~= (packets_in(
                    payloads,
                ) + unsent_packets(before)).push(packet));
            }
        }
    }
    assert(unsent_packets(events).len() == 0 ==> packets_in(worker_payloads(max_payload_size, events))
        + unsent_packets(events) =~= packets_in(worker_payloads(max_payload_size, events)));
}

/// Every packet that a worker receives is written to the tunnel interface, in order and once:
/// the packets that were written, and after them those that are left of the last message, are the packets
/// that were received. None of them is left when the worker waits for the next message.
pub proof fn law_worker_delivers_every_packet(max_payload_size: usize, events: Seq<EventView>)
    requires
        worker_can_see(worker_start(max_payload_size), events),
    ensures
        worker_delivered(max_payload_size, events) + undelivered_packets(events) == received_packets(events),
        action_in(worker_after(worker_start(max_payload_size), events)) is Deliver ==> delivers_next(
            action_in(worker_after(worker_start(max_payload_size), events)),
            events,
        ),
        ({
            let action = action_in(worker_after(worker_start(max_payload_size), events));
            action is Read
        }) ==> worker_delivered(max_payload_size, events) == received_packets(events),
    decreases events.len(),
{
    lemma_worker_history(max_payload_size, events);
    if events.len() > 0 {
        let before = events.drop_last();
        lemma_worker_history(max_payload_size, before);
        law_worker_delivers_every_packet(max_payload_size, before);
        let delivered = worker_delivered(max_payload_size, before);
        let left = undelivered_packets(before);
        match events.last() {
            EventView::Received(packets) => {
                assert(left.len() == 0);
                assert(delivered + left =~= delivered);
            },
            EventView::Delivered => {
                assert(worker_delivered(max_payload_size, events) == delivered.push(left[0]));
                assert(delivered.push(left[0]) + left.drop_first() =~= delivered + left);
            },
            _ => {},
        }
    }
    assert(undelivered_packets(events).len() == 0 ==> worker_delivered(max_payload_size, events)
        + undelivered_packets(events) =~= worker_delivered(max_payload_size, events));
}

/// A worker assumes that the other side is there unless the last thing that it knows of it is a timeout.
pub proof fn law_worker_knows_whether_it_is_heard(max_payload_size: usize, events: Seq<EventView>)
    requires
        worker_can_see(worker_start(max_payload_size), events),
    ensures
        worker_after(worker_start(max_payload_size), events).alive == is_heard(events),
{
    lemma_worker_history(max_payload_size, events);
}

/// What a worker asks for next.
///
/// - It starts by waiting for a message, and waits on if there is none or a damaged one.
/// - After a message, it looks at the MTU and asks for packets.
///   The first one may have any size that fits, the others are asked for as long as one of the size of the MTU fits.
/// - If there is no packet, or no other one fits, the answer is sent.
/// - The packets of the message are written to the tunnel interface after that,
///   and the next message is awaited after the last one.
pub proof fn law_worker_goes_on(max_payload_size: usize, events: Seq<EventView>, event: EventView)
    requires
        worker_can_see(worker_start(max_payload_size), events),
        is_outcome(action_in(worker_after(worker_start(max_payload_size), events)), event),
        !is_permanent_failure(event),
    ensures
        action_in(worker_start(max_payload_size)) is Read,
        ({
            let later = events.push(event);
            let action = action_in(worker_after(worker_start(max_payload_size), later));
            match event {
                EventView::Received(_) => action is QueryMtu,
                EventView::ReceiveFailed(_) => action is Read,
                EventView::Packet(_) | EventView::Mtu(_) => if full_packet_fits(
                    max_payload_size,
                    later,
                ) || (unsent_packets(later).len() == 0 && max_payload_size >= 2) {
                    takes_another(action, max_payload_size, later)
                } else {
                    action is Send
                },
                EventView::Idle => action is Send,
                _ => if undelivered_packets(later).len() > 0 {
                    delivers_next(action, later)
                } else {
                    action is Read
                },
            }
        }),
{
    let later = events.push(event);
    assert(later.drop_last() =~= events);
    lemma_worker_history(max_payload_size, events);
    lemma_worker_history(max_payload_size, later);
    law_payload_has_the_wire_size(worker_after(worker_start(max_payload_size), later).outgoing);
    law_payload_has_the_wire_size(Seq::empty());
}

/// A worker writes the packets of a message after its answer:
/// when a message was received, other work was done, the answer was sent and `n` packets were written,
/// the packet at index `n` is the one to be written.
pub proof fn law_worker_delivers_the_message(
    max_payload_size: usize,
    before: Seq<EventView>,
    packets: Seq<Seq<u8>>,
    between: Seq<EventView>,
    n: nat,
)
    requires
        n < packets.len(),
        forall|i: int|
            0 <= i < between.len() ==> !((#[trigger] between[i]) is Received) && !(between[i] is Delivered),
        worker_can_see(
            worker_start(max_payload_size),
            before.push(EventView::Received(packets)) + between.push(EventView::Sent)
                + delivered_times(n),
        ),
    ensures
        action_in(
            worker_after(
                worker_start(max_payload_size),
                before.push(EventView::Received(packets)) + between.push(EventView::Sent)
                    + delivered_times(n),
            ),
        ) == (ActionView::Deliver { packet: packets[n as int] }),
{
    let received = before.push(EventView::Received(packets));
    let sent = received + between.push(EventView::Sent);
    let events = sent + delivered_times(n);
    lemma_undelivered_kept(received, between.push(EventView::Sent));
    assert(received.drop_last() =~= before);
    lemma_undelivered_after(sent, n);
    assert(undelivered_packets(events)[0] == packets[n as int]);
    lemma_worker_history(max_payload_size, events);
    if n > 0 {
        assert(events.last() == delivered_times(n).last());
        let previous = events.drop_last();
        law_worker_goes_on(max_payload_size, previous, events.last());
        assert(previous.push(events.last()) =~= events);
    } else {
        assert(delivered_times(0) =~= Seq::empty());
        assert(events =~= sent);
        let previous = events.drop_last();
        assert(events.last() == EventView::Sent);
        law_worker_goes_on(max_payload_size, previous, EventView::Sent);
        assert(previous.push(EventView::Sent) =~= events);
    }
}

/// Work other than receiving a message or writing a packet leaves the packets to be written as they are.
proof fn lemma_undelivered_kept(events: Seq<EventView>, more: Seq<EventView>)
    requires
        forall|i: int|
            0 <= i < more.len() ==> !((#[trigger] more[i]) is Received) && !(more[i] is Delivered),
    ensures
        undelivered_packets(events + more) == undelivered_packets(events),
    decreases more.len(),
{
    if more.len() == 0 {
        assert(events + more =~= events);
    } else {
        assert((events + more).drop_last() =~= events + more.drop_last());
        assert((events + more).last() == more[more.len() - 1]);
        lemma_undelivered_kept(events, more.drop_last());
    }
}

/// Each packet that is written is one packet less to be written.
proof fn lemma_undelivered_after(events: Seq<EventView>, n: nat)
    requires
        n <= undelivered_packets(events).len(),
    ensures
        undelivered_packets(events + delivered_times(n)) == undelivered_packets(events).skip(n as int),
    decreases n,
{
    if n == 0 {
        assert(events + delivered_times(0) =~= events);
        assert(undelivered_packets(events).skip(0) =~= undelivered_packets(events));
    } else {
        let before = (n - 1) as nat;
        lemma_undelivered_after(events, before);
        assert((events + delivered_times(n)).drop_last() =~= events + delivered_times(before));
        assert(undelivered_packets(events).skip(before as int).drop_first() =~= undelivered_packets(
            events,
        ).skip(n as int));
    }
}

/// The work can end in every way that the tunnel interface and the serial port allow, and in no other way.
pub proof fn law_every_outcome_is_accepted(action: ActionView, event: EventView)
    ensures
        action matches ActionView::Receive { space } ==> (is_outcome(action, event) <==> (event is Idle
            || event is InterfaceFailed || (event is Packet && event->Packet_0.len() <= space))),
        action matches ActionView::TryReceive { space } ==> (is_outcome(action, event) <==> (
        event is Idle || event is InterfaceFailed || (event is Packet && event->Packet_0.len()
            <= space))),
        action is QueryMtu ==> (is_outcome(action, event) <==> (event is Mtu
            || event is InterfaceFailed)),
        action is Send ==> (is_outcome(action, event) <==> (event is Sent || event is SendFailed)),
        action is Read ==> (is_outcome(action, event) <==> (event is Received
            || event is ReceiveFailed)),
        action is Deliver ==> (is_outcome(action, event) <==> (event is Delivered
            || event is InterfaceFailed)),
        action is Stop ==> !is_outcome(action, event),
{
}

/// An event is spoken of as it is.
pub proof fn law_event_is_spoken_of_as_it_is(event: Event<'_>)
    ensures
        event matches Event::Packet(packet) ==> event@ == EventView::Packet(packet@),
        event is Idle ==> event@ is Idle,
        event is InterfaceFailed ==> event@ is InterfaceFailed,
        event matches Event::Mtu(mtu) ==> event@ == EventView::Mtu(mtu),
        event is Sent ==> event@ is Sent,
        event is SendFailed ==> event@ is SendFailed,
        event matches Event::Received(packets) ==> event@ == EventView::Received(packets@),
        event matches Event::ReceiveFailed(error) ==> event@ == EventView::ReceiveFailed(error@),
        event is Delivered ==> event@ is Delivered,
{
}

/// An action is spoken of as it is.
pub proof fn law_action_is_spoken_of_as_it_is(action: Action<'_>)
    ensures
        action@ matches ActionView::Receive { space } ==> action is Receive && action->Receive_space
            == space,
        action@ is QueryMtu ==> action is QueryMtu,
        action@ matches ActionView::TryReceive { space } ==> action is TryReceive
            && action->TryReceive_space == space,
        action@ matches ActionView::Send { payload } ==> action is Send && action->payload@
            == payload,
        action@ is Read ==> action is Read,
        action@ matches ActionView::Deliver { packet } ==> action is Deliver && action->packet@
            == packet,
        action@ is Stop ==> action is Stop,
{
}

} // verus!
