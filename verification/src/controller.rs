//! The controller side of the tunnel, which initiates all communication.
use core::time::Duration;

use vstd::prelude::*;

use crate::error::Error;
use crate::link::{Action, Event, Link, Phase};
use crate::DEFAULT_MAX_PAYLOAD_SIZE;

verus! {

use crate::buffer::with_packet;
use crate::error::ErrorView;
use crate::link::{action_in, collect, is_consistent, is_outcome, receive_space, stopped};
use crate::link::{EventView, LinkState};
use crate::options::duration_of_millis;
use crate::link::{delivered_times, taken_packets, ActionView};
use crate::packets::{encode_packets, lengths_fit};

/// The largest size of the buffer for packets from the tunnel interface.
pub const PACKET_BUFFER_SIZE: usize = 65535;

/// The size of the buffer for packets from the tunnel interface:
/// no larger than the payload of a message may be.
pub open spec fn packet_buffer_size(max_payload_size: usize) -> usize {
    if max_payload_size < PACKET_BUFFER_SIZE {
        max_payload_size
    } else {
        PACKET_BUFFER_SIZE
    }
}

/// The settings of a controller.
pub struct Controller {
    pub write_timeout: Duration,
    pub read_timeout: Duration,
    pub poll_timeout: Duration,
    pub max_payload_size: usize,
}

impl Controller {
    /// The default settings.
    pub fn new() -> (controller: Self)
        ensures
            controller.read_timeout == duration_of_millis(50),
            controller.write_timeout == duration_of_millis(50),
            controller.poll_timeout == duration_of_millis(10),
            controller.max_payload_size == DEFAULT_MAX_PAYLOAD_SIZE,
    {
        Controller {
            read_timeout: Duration::from_millis(50),
            write_timeout: Duration::from_millis(50),
            poll_timeout: Duration::from_millis(10),
            max_payload_size: DEFAULT_MAX_PAYLOAD_SIZE,
        }
    }

    /// Set the timeout for reading a message from the serial port.
    pub fn set_read_timeout(&mut self, timeout: Duration)
        ensures
            *final(self) == (Controller { read_timeout: timeout, ..*old(self) }),
    {
        self.read_timeout = timeout;
    }

    /// Set the timeout for writing a message to the serial port.
    pub fn set_write_timeout(&mut self, timeout: Duration)
        ensures
            *final(self) == (Controller { write_timeout: timeout, ..*old(self) }),
    {
        self.write_timeout = timeout;
    }

    /// Set the maximum time to wait for a packet from the tunnel interface before polling the worker.
    pub fn set_poll_timeout(&mut self, timeout: Duration)
        ensures
            *final(self) == (Controller { poll_timeout: timeout, ..*old(self) }),
    {
        self.poll_timeout = timeout;
    }

    /// Set the maximum payload size for messages going over the serial port.
    pub fn set_max_payload_size(&mut self, max_size: usize)
        ensures
            *final(self) == (Controller { max_payload_size: max_size, ..*old(self) }),
    {
        self.max_payload_size = max_size;
    }

    /// Start to run with these settings.
    pub fn start(&self) -> (run: ControllerRun)
        ensures
            run.is_valid(),
            run@ == controller_start(packet_buffer_size(self.max_payload_size)),
    {
        if self.max_payload_size < PACKET_BUFFER_SIZE {
            ControllerRun::new(self.max_payload_size)
        } else {
            ControllerRun::new(PACKET_BUFFER_SIZE)
        }
    }
}

/// The start of a round: wait for a packet from the tunnel interface, with an empty buffer.
///
/// If the buffer has no space for a packet, a message without packets is sent.
pub open spec fn poll(state: LinkState) -> LinkState {
    let empty = LinkState { outgoing: Seq::empty(), ..state };
    LinkState {
        phase: if receive_space(empty) is Some {
            Phase::Poll
        } else {
            Phase::Send
        },
        ..empty
    }
}

/// Write the next received packet to the tunnel interface, or start the next round if there is none.
pub open spec fn deliver_or_poll(state: LinkState) -> LinkState {
    if state.incoming.len() > 0 {
        LinkState { phase: Phase::Deliver, ..state }
    } else {
        poll(state)
    }
}

/// The state in which a controller starts.
pub open spec fn controller_start(capacity: usize) -> LinkState {
    poll(
        LinkState {
            phase: Phase::Poll,
            alive: true,
            mtu: 0,
            outgoing: Seq::empty(),
            capacity,
            incoming: Seq::empty(),
        },
    )
}

/// What a controller does about an event.
///
/// - An empty packet means that the tunnel interface is gone.
/// - After the first packet, more packets are taken if they are directly available,
///   as long as a packet of the size of the MTU fits.
/// - After the message is sent, a message from the worker is awaited.
/// - A failure of the serial port is permanent, a timeout or a damaged message is not.
pub open spec fn controller_step(state: LinkState, event: EventView) -> LinkState {
    match event {
        EventView::Packet(packet) => if packet.len() == 0 {
            stopped(state)
        } else {
            let more = LinkState { outgoing: with_packet(state.outgoing, packet), ..state };
            if state.phase == Phase::Poll {
                LinkState { phase: Phase::QueryMtu, ..more }
            } else {
                collect(more, false)
            }
        },
        EventView::Idle => LinkState { phase: Phase::Send, ..state },
        EventView::InterfaceFailed => stopped(state),
        EventView::Mtu(mtu) => collect(LinkState { mtu, ..state }, false),
        EventView::Sent => LinkState { phase: Phase::Read, ..state },
        EventView::SendFailed => stopped(state),
        EventView::Received(packets) => deliver_or_poll(
            LinkState { alive: true, incoming: packets, ..state },
        ),
        EventView::ReceiveFailed(error) => match error {
            ErrorView::TimeoutElapsed => poll(LinkState { alive: false, ..state }),
            ErrorView::SerialPort(_) => stopped(state),
            _ => poll(state),
        },
        EventView::Delivered => deliver_or_poll(
            LinkState { incoming: state.incoming.drop_first(), ..state },
        ),
    }
}

/// A running controller.
///
/// Do the work that it asks for and tell it how the work ended, until it asks to stop.
pub struct ControllerRun {
    link: Link,
}

impl View for ControllerRun {
    type V = LinkState;

    closed spec fn view(&self) -> LinkState {
        self.link@
    }
}

impl ControllerRun {
    /// The link is valid and consistent.
    pub closed spec fn is_valid(&self) -> bool {
        &&& self.link.is_valid()
        &&& is_consistent(self.link@)
    }

    /// Start a controller with a buffer of the given size for packets from the tunnel interface.
    fn new(capacity: usize) -> (run: Self)
        ensures
            run.is_valid(),
            run@ == controller_start(capacity),
    {
        let mut run = ControllerRun { link: Link::new(Phase::Poll, capacity) };
        run.poll();
        run
    }

    /// What is being done.
    pub fn phase(&self) -> (phase: Phase)
        ensures
            phase == self@.phase,
    {
        self.link.phase()
    }

    /// Whether the worker is assumed to be there.
    pub fn alive(&self) -> (alive: bool)
        ensures
            alive == self@.alive,
    {
        self.link.alive()
    }

    /// The work that has to be done next.
    pub fn action(&self) -> (action: Action<'_>)
        requires
            self.is_valid(),
        ensures
            action@ == action_in(self@),
    {
        self.link.action()
    }

    /// Start a round.
    fn poll(&mut self)
        requires
            old(self).link.is_valid(),
        ensures
            final(self).is_valid(),
            final(self)@ == poll(old(self)@),
    {
        self.link.clear_outgoing();
        if self.link.has_space() {
            self.link.enter(Phase::Poll);
        } else {
            self.link.enter(Phase::Send);
        }
    }

    /// Write the next received packet, or start the next round.
    fn deliver_or_poll(&mut self)
        requires
            old(self).link.is_valid(),
        ensures
            final(self).is_valid(),
            final(self)@ == deliver_or_poll(old(self)@),
    {
        if self.link.all_delivered() {
            self.poll();
        } else {
            self.link.enter(Phase::Deliver);
        }
    }

    /// Decide what to do after the work has ended.
    pub fn handle(&mut self, event: Event<'_>)
        requires
            old(self).is_valid(),
            is_outcome(action_in(old(self)@), event@),
        ensures
            final(self).is_valid(),
            final(self)@ == controller_step(old(self)@, event@),
    {
        match event {
            Event::Packet(packet) => {
                if packet.len() == 0 {
                    self.link.enter(Phase::Stopped);
                } else {
                    let first: bool = self.link.phase() == Phase::Poll;
                    self.link.add_outgoing(packet);
                    if first {
                        self.link.enter(Phase::QueryMtu);
                    } else {
                        self.link.collect(false);
                    }
                }
            },
            Event::Idle => self.link.enter(Phase::Send),
            Event::InterfaceFailed => self.link.enter(Phase::Stopped),
            Event::Mtu(mtu) => {
                self.link.set_mtu(mtu);
                self.link.collect(false);
            },
            Event::Sent => self.link.enter(Phase::Read),
            Event::SendFailed => self.link.enter(Phase::Stopped),
            Event::Received(packets) => {
                self.link.set_alive(true);
                self.link.set_incoming(packets);
                self.deliver_or_poll();
            },
            Event::ReceiveFailed(error) => match error {
                Error::TimeoutElapsed => {
                    self.link.set_alive(false);
                    self.poll();
                },
                Error::SerialPort(_) => self.link.enter(Phase::Stopped),
                _ => self.poll(),
            },
            Event::Delivered => {
                self.link.next_incoming();
                self.deliver_or_poll();
            },
        }
    }
}

/// The state of a controller after a number of events.
pub open spec fn controller_after(start: LinkState, events: Seq<EventView>) -> LinkState
    decreases events.len(),
{
    if events.len() == 0 {
        start
    } else {
        controller_step(controller_after(start, events.drop_last()), events.last())
    }
}

/// Each event is one that the work to be done at that time can end with.
pub open spec fn controller_can_see(start: LinkState, events: Seq<EventView>) -> bool
    decreases events.len(),
{
    events.len() == 0 || {
        &&& controller_can_see(start, events.drop_last())
        &&& is_outcome(action_in(controller_after(start, events.drop_last())), events.last())
    }
}

/// A message was sent, and no answer was received or given up since then.
pub open spec fn awaits_answer(events: Seq<EventView>) -> bool
    decreases events.len(),
{
    if events.len() == 0 {
        false
    } else {
        match events.last() {
            EventView::Sent => true,
            EventView::Received(_) => false,
            EventView::ReceiveFailed(_) => false,
            _ => awaits_answer(events.drop_last()),
        }
    }
}

/// The controller initiates all communication, and takes turns with the worker:
/// it listens only after it has sent a message,
/// and it sends its next message only after an answer was received or given up.
pub proof fn law_controller_takes_turns(capacity: usize, events: Seq<EventView>)
    requires
        controller_can_see(controller_start(capacity), events),
    ensures
        ({
            let phase = controller_after(controller_start(capacity), events).phase;
            &&& phase == Phase::Read ==> awaits_answer(events)
            &&& phase == Phase::Send ==> !awaits_answer(events)
        }),
{
    lemma_controller_turn(capacity, events);
}

/// The phases in which a controller awaits an answer.
proof fn lemma_controller_turn(capacity: usize, events: Seq<EventView>)
    requires
        controller_can_see(controller_start(capacity), events),
    ensures
        ({
            let phase = controller_after(controller_start(capacity), events).phase;
            phase != Phase::Stopped ==> (phase == Phase::Read <==> awaits_answer(events))
        }),
    decreases events.len(),
{
    if events.len() > 0 {
        lemma_controller_turn(capacity, events.drop_last());
    }
}

/// The packets that a controller sends are packets that it can send:
/// none of them is empty, and the length of each of them can be written down.
/// Together they fit in the buffer.
pub proof fn law_controller_collects_packets(capacity: usize, events: Seq<EventView>)
    requires
        controller_can_see(controller_start(capacity), events),
    ensures
        ({
            let state = controller_after(controller_start(capacity), events);
            &&& lengths_fit(state.outgoing)
            &&& forall|i: int|
                0 <= i < state.outgoing.len() ==> (#[trigger] state.outgoing[i]).len() > 0
            &&& encode_packets(state.outgoing).len() <= state.capacity
            &&& state.capacity == capacity
        }),
    decreases events.len(),
{
    if events.len() > 0 {
        let before = controller_after(controller_start(capacity), events.drop_last());
        law_controller_collects_packets(capacity, events.drop_last());
        if let EventView::Packet(packet) = events.last() {
            crate::packets::lemma_encode_push(before.outgoing, packet);
            lemma_controller_is_consistent(capacity, events.drop_last());
        }
    }
}

/// The payload that a controller sends is never too large:
/// the packets together take no more than the maximum payload size.
pub proof fn law_controller_payload_fits(max_payload_size: usize, events: Seq<EventView>)
    requires
        controller_can_see(controller_start(packet_buffer_size(max_payload_size)), events),
    ensures
        encode_packets(
            controller_after(
                controller_start(packet_buffer_size(max_payload_size)),
                events,
            ).outgoing,
        ).len() <= max_payload_size,
{
    law_controller_collects_packets(packet_buffer_size(max_payload_size), events);
}

/// The packets in the messages that a controller has sent, in order.
pub open spec fn controller_sent(start: LinkState, events: Seq<EventView>) -> Seq<Seq<u8>>
    decreases events.len(),
{
    if events.len() == 0 {
        Seq::empty()
    } else {
        let before = controller_sent(start, events.drop_last());
        if events.last() is Sent {
            before + controller_after(start, events.drop_last()).outgoing
        } else {
            before
        }
    }
}

/// A controller sends the packets that it takes from the tunnel interface in order and each of them once:
/// as long as nothing has failed for good,
/// they are the packets in the messages that were sent, and after them those that are still to be sent.
pub proof fn law_controller_sends_in_order(capacity: usize, events: Seq<EventView>)
    requires
        controller_can_see(controller_start(capacity), events),
    ensures
        ({
            let state = controller_after(controller_start(capacity), events);
            let sent = controller_sent(controller_start(capacity), events);
            let none_left = state.phase == Phase::Read || state.phase == Phase::Deliver;
            state.phase != Phase::Stopped ==> taken_packets(events) == (if none_left {
                sent
            } else {
                sent + state.outgoing
            })
        }),
    decreases events.len(),
{
    if events.len() > 0 {
        law_controller_sends_in_order(capacity, events.drop_last());
    }
}

/// A running controller is always consistent.
pub proof fn lemma_controller_is_consistent(capacity: usize, events: Seq<EventView>)
    requires
        controller_can_see(controller_start(capacity), events),
    ensures
        is_consistent(controller_after(controller_start(capacity), events)),
    decreases events.len(),
{
    if events.len() > 0 {
        lemma_controller_is_consistent(capacity, events.drop_last());
    }
}

/// The packets of a message are written to the tunnel interface in order and each of them once,
/// and the next round starts after the last one.
pub proof fn law_controller_delivers_in_order(state: LinkState, packets: Seq<Seq<u8>>, n: nat)
    requires
        n <= packets.len(),
    ensures
        ({
            let received = controller_step(state, EventView::Received(packets));
            let later = controller_after(received, delivered_times(n));
            &&& n < packets.len() ==> action_in(later) == (ActionView::Deliver {
                packet: packets[n as int],
            })
            &&& n < packets.len() ==> later.incoming == packets.skip(n as int)
            &&& n == packets.len() ==> later == poll(
                LinkState { alive: true, incoming: Seq::empty(), ..state },
            )
        }),
    decreases n,
{
    let received = controller_step(state, EventView::Received(packets));
    if n == 0 {
        assert(packets.skip(0) =~= packets);
        assert(packets.len() == 0 ==> packets =~= Seq::empty());
    } else {
        let before = (n - 1) as nat;
        law_controller_delivers_in_order(state, packets, before);
        lemma_controller_keeps_while_delivering(state, packets, before);
        assert(delivered_times(n).drop_last() =~= delivered_times(before));
        assert(packets.skip(before as int).drop_first() =~= packets.skip(n as int));
        assert(n == packets.len() ==> packets.skip(n as int) =~= Seq::empty());
    }
}

/// While packets are written to the tunnel interface, only the list of these packets changes.
proof fn lemma_controller_keeps_while_delivering(state: LinkState, packets: Seq<Seq<u8>>, n: nat)
    requires
        n < packets.len(),
    ensures
        controller_after(
            controller_step(state, EventView::Received(packets)),
            delivered_times(n),
        ) == (LinkState {
            phase: Phase::Deliver,
            alive: true,
            incoming: packets.skip(n as int),
            ..state
        }),
    decreases n,
{
    if n == 0 {
        assert(packets.skip(0) =~= packets);
    } else {
        let before = (n - 1) as nat;
        lemma_controller_keeps_while_delivering(state, packets, before);
        assert(delivered_times(n).drop_last() =~= delivered_times(before));
        assert(packets.skip(before as int).drop_first() =~= packets.skip(n as int));
    }
}

/// If no packet has arrived from the tunnel interface in time,
/// the worker is polled with an empty list of packets.
pub proof fn law_idle_controller_polls_the_worker(state: LinkState)
    ensures
        action_in(controller_step(poll(state), EventView::Idle)) == (ActionView::Send {
            payload: Seq::empty(),
        }),
{
}

} // verus!
