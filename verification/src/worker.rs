//! The worker side of the tunnel, which only answers messages from the controller.
use core::time::Duration;

use vstd::prelude::*;

use crate::error::Error;
use crate::link::{Action, Event, Link, Phase};
use crate::DEFAULT_MAX_PAYLOAD_SIZE;

verus! {

use crate::buffer::with_packet;
use crate::error::ErrorView;
use crate::link::{action_in, collect, delivered_times, is_consistent, is_outcome, stopped};
use crate::link::{taken_packets, ActionView, EventView, LinkState};
use crate::options::duration_of_millis;
use crate::packets::{encode_packets, lemma_encode_push, lengths_fit};

/// The settings of a worker.
pub struct Worker {
    pub write_timeout: Duration,
    pub read_timeout: Duration,
    pub max_payload_size: usize,
}

impl Worker {
    /// The default settings.
    pub fn new() -> (worker: Self)
        ensures
            worker.read_timeout == duration_of_millis(50),
            worker.write_timeout == duration_of_millis(50),
            worker.max_payload_size == DEFAULT_MAX_PAYLOAD_SIZE,
    {
        Worker {
            read_timeout: Duration::from_millis(50),
            write_timeout: Duration::from_millis(50),
            max_payload_size: DEFAULT_MAX_PAYLOAD_SIZE,
        }
    }

    /// Set the timeout for reading a message from the serial port.
    pub fn set_read_timeout(&mut self, timeout: Duration)
        ensures
            *final(self) == (Worker { read_timeout: timeout, ..*old(self) }),
    {
        self.read_timeout = timeout;
    }

    /// Set the timeout for writing a message to the serial port.
    pub fn set_write_timeout(&mut self, timeout: Duration)
        ensures
            *final(self) == (Worker { write_timeout: timeout, ..*old(self) }),
    {
        self.write_timeout = timeout;
    }

    /// Set the maximum payload size for messages going over the serial port.
    pub fn set_max_payload_size(&mut self, max_size: usize)
        ensures
            *final(self) == (Worker { max_payload_size: max_size, ..*old(self) }),
    {
        self.max_payload_size = max_size;
    }

    /// Start to run with these settings.
    pub fn start(&self) -> (run: WorkerRun)
        ensures
            run.is_valid(),
            run@ == worker_start(self.max_payload_size),
    {
        WorkerRun::new(self.max_payload_size)
    }
}

/// The state in which a worker starts: it waits for a message from the controller.
pub open spec fn worker_start(max_payload_size: usize) -> LinkState {
    LinkState {
        phase: Phase::Read,
        alive: true,
        mtu: 0,
        outgoing: Seq::empty(),
        capacity: max_payload_size,
        incoming: Seq::empty(),
    }
}

/// Write the next received packet to the tunnel interface,
/// or wait for the next message from the controller if there is none.
pub open spec fn deliver_or_read(state: LinkState) -> LinkState {
    LinkState {
        phase: if state.incoming.len() > 0 {
            Phase::Deliver
        } else {
            Phase::Read
        },
        ..state
    }
}

/// What a worker does about an event.
///
/// - When a message is received, packets that are directly available are taken from the tunnel interface.
///   The first one may have any size, more of them are taken as long as a packet of the size of the MTU fits.
/// - They are sent to the controller before the received packets are written to the tunnel interface.
/// - When no message or a damaged message is received, nothing is sent.
/// - A failure of the serial port is permanent, a timeout or a damaged message is not.
/// - An empty packet means that the tunnel interface is gone.
pub open spec fn worker_step(state: LinkState, event: EventView) -> LinkState {
    match event {
        EventView::Received(packets) => LinkState {
            phase: Phase::QueryMtu,
            alive: true,
            incoming: packets,
            ..state
        },
        EventView::ReceiveFailed(error) => match error {
            ErrorView::TimeoutElapsed => LinkState { alive: false, ..state },
            ErrorView::SerialPort(_) => stopped(state),
            _ => state,
        },
        EventView::Mtu(mtu) => collect(LinkState { mtu, outgoing: Seq::empty(), ..state }, true),
        EventView::Packet(packet) => if packet.len() == 0 {
            stopped(state)
        } else {
            collect(
                LinkState { outgoing: with_packet(state.outgoing, packet), ..state },
                true,
            )
        },
        EventView::Idle => LinkState { phase: Phase::Send, ..state },
        EventView::InterfaceFailed => stopped(state),
        EventView::Sent => deliver_or_read(state),
        EventView::SendFailed => stopped(state),
        EventView::Delivered => deliver_or_read(
            LinkState { incoming: state.incoming.drop_first(), ..state },
        ),
    }
}

/// A running worker.
///
/// Do the work that it asks for and tell it how the work ended, until it asks to stop.
pub struct WorkerRun {
    link: Link,
}

impl View for WorkerRun {
    type V = LinkState;

    closed spec fn view(&self) -> LinkState {
        self.link@
    }
}

impl WorkerRun {
    /// The link is valid and consistent.
    pub closed spec fn is_valid(&self) -> bool {
        &&& self.link.is_valid()
        &&& is_consistent(self.link@)
    }

    /// Start a worker that sends payloads of up to the given size.
    fn new(max_payload_size: usize) -> (run: Self)
        ensures
            run.is_valid(),
            run@ == worker_start(max_payload_size),
    {
        WorkerRun { link: Link::new(Phase::Read, max_payload_size) }
    }

    /// What is being done.
    pub fn phase(&self) -> (phase: Phase)
        ensures
            phase == self@.phase,
    {
        self.link.phase()
    }

    /// Whether the controller is assumed to be there.
    pub fn alive(&self) -> (alive: bool)
        ensures
            alive == self@.alive,
    {
        self.link.alive()
    }

    /// The work that has to be done next.
    pub fn action(&self) -> (action: Action<'_>)
        requires
            self.is_valid(),
        ensures
            action@ == action_in(self@),
    {
        self.link.action()
    }

    /// Write the next received packet, or wait for the next message.
    fn deliver_or_read(&mut self)
        requires
            old(self).link.is_valid(),
        ensures
            final(self).is_valid(),
            final(self)@ == deliver_or_read(old(self)@),
    {
        if self.link.all_delivered() {
            self.link.enter(Phase::Read);
        } else {
            self.link.enter(Phase::Deliver);
        }
    }

    /// Decide what to do after the work has ended.
    pub fn handle(&mut self, event: Event<'_>)
        requires
            old(self).is_valid(),
            is_outcome(action_in(old(self)@), event@),
        ensures
            final(self).is_valid(),
            final(self)@ == worker_step(old(self)@, event@),
    {
        match event {
            Event::Received(packets) => {
                self.link.set_alive(true);
                self.link.set_incoming(packets);
                self.link.enter(Phase::QueryMtu);
            },
            Event::ReceiveFailed(error) => match error {
                Error::TimeoutElapsed => self.link.set_alive(false),
                Error::SerialPort(_) => self.link.enter(Phase::Stopped),
                _ => {},
            },
            Event::Mtu(mtu) => {
                self.link.set_mtu(mtu);
                self.link.clear_outgoing();
                self.link.collect(true);
            },
            Event::Packet(packet) => {
                if packet.len() == 0 {
                    self.link.enter(Phase::Stopped);
                } else {
                    self.link.add_outgoing(packet);
                    self.link.collect(true);
                }
            },
            Event::Idle => self.link.enter(Phase::Send),
            Event::InterfaceFailed => self.link.enter(Phase::Stopped),
            Event::Sent => self.deliver_or_read(),
            Event::SendFailed => self.link.enter(Phase::Stopped),
            Event::Delivered => {
                self.link.next_incoming();
                self.deliver_or_read();
            },
        }
    }
}

/// The state of a worker after a number of events.
pub open spec fn worker_after(start: LinkState, events: Seq<EventView>) -> LinkState
    decreases events.len(),
{
    if events.len() == 0 {
        start
    } else {
        worker_step(worker_after(start, events.drop_last()), events.last())
    }
}

/// Each event is one that the work to be done at that time can end with.
pub open spec fn worker_can_see(start: LinkState, events: Seq<EventView>) -> bool
    decreases events.len(),
{
    events.len() == 0 || {
        &&& worker_can_see(start, events.drop_last())
        &&& is_outcome(action_in(worker_after(start, events.drop_last())), events.last())
    }
}

/// A message was received from the controller, and nothing was sent since then.
pub open spec fn may_answer(events: Seq<EventView>) -> bool
    decreases events.len(),
{
    if events.len() == 0 {
        false
    } else {
        match events.last() {
            EventView::Received(_) => true,
            EventView::Sent => false,
            EventView::SendFailed => false,
            _ => may_answer(events.drop_last()),
        }
    }
}

/// The worker only transmits in direct response to a message from the controller:
/// whenever it sends, it has received a message, undamaged, since it last sent something.
pub proof fn law_worker_only_answers(max_payload_size: usize, events: Seq<EventView>)
    requires
        worker_can_see(worker_start(max_payload_size), events),
    ensures
        worker_after(worker_start(max_payload_size), events).phase == Phase::Send ==> may_answer(
            events,
        ),
{
    lemma_worker_turn(max_payload_size, events);
}

/// The phases in which a worker has a message to answer.
proof fn lemma_worker_turn(max_payload_size: usize, events: Seq<EventView>)
    requires
        worker_can_see(worker_start(max_payload_size), events),
    ensures
        ({
            let phase = worker_after(worker_start(max_payload_size), events).phase;
            &&& phase != Phase::Poll
            &&& phase == Phase::QueryMtu || phase == Phase::Drain || phase == Phase::Send
                ==> may_answer(events)
        }),
    decreases events.len(),
{
    if events.len() > 0 {
        lemma_worker_turn(max_payload_size, events.drop_last());
    }
}

/// The payload that a worker sends is never too large:
/// it holds packets that are not empty and whose length can be written down,
/// and together they take no more than the maximum payload size.
pub proof fn law_worker_payload_fits(max_payload_size: usize, events: Seq<EventView>)
    requires
        worker_can_see(worker_start(max_payload_size), events),
    ensures
        ({
            let state = worker_after(worker_start(max_payload_size), events);
            &&& lengths_fit(state.outgoing)
            &&& forall|i: int|
                0 <= i < state.outgoing.len() ==> (#[trigger] state.outgoing[i]).len() > 0
            &&& encode_packets(state.outgoing).len() <= max_payload_size
            &&& state.capacity == max_payload_size
        }),
    decreases events.len(),
{
    if events.len() > 0 {
        let before = worker_after(worker_start(max_payload_size), events.drop_last());
        law_worker_payload_fits(max_payload_size, events.drop_last());
        if let EventView::Packet(packet) = events.last() {
            lemma_encode_push(before.outgoing, packet);
            lemma_worker_is_consistent(max_payload_size, events.drop_last());
        }
    }
}

/// The packets in the messages that a worker has sent, in order.
pub open spec fn worker_sent(start: LinkState, events: Seq<EventView>) -> Seq<Seq<u8>>
    decreases events.len(),
{
    if events.len() == 0 {
        Seq::empty()
    } else {
        let before = worker_sent(start, events.drop_last());
        if events.last() is Sent {
            before + worker_after(start, events.drop_last()).outgoing
        } else {
            before
        }
    }
}

/// A worker sends the packets that it takes from the tunnel interface in order and each of them once:
/// as long as nothing has failed for good,
/// they are the packets in the messages that were sent, and after them those that are still to be sent.
pub proof fn law_worker_sends_in_order(max_payload_size: usize, events: Seq<EventView>)
    requires
        worker_can_see(worker_start(max_payload_size), events),
    ensures
        ({
            let state = worker_after(worker_start(max_payload_size), events);
            let sent = worker_sent(worker_start(max_payload_size), events);
            let none_left = state.phase == Phase::Read || state.phase == Phase::QueryMtu || state.phase
                == Phase::Deliver;
            state.phase != Phase::Stopped ==> taken_packets(events) == (if none_left {
                sent
            } else {
                sent + state.outgoing
            })
        }),
    decreases events.len(),
{
    if events.len() > 0 {
        law_worker_sends_in_order(max_payload_size, events.drop_last());
    }
}

/// A running worker is always consistent.
pub proof fn lemma_worker_is_consistent(max_payload_size: usize, events: Seq<EventView>)
    requires
        worker_can_see(worker_start(max_payload_size), events),
    ensures
        is_consistent(worker_after(worker_start(max_payload_size), events)),
    decreases events.len(),
{
    if events.len() > 0 {
        lemma_worker_is_consistent(max_payload_size, events.drop_last());
    }
}

/// After the answer is sent, the packets of the message are written to the tunnel interface
/// in order and each of them once, and the next message is awaited after the last one.
pub proof fn law_worker_delivers_in_order(state: LinkState, n: nat)
    requires
        n <= state.incoming.len(),
    ensures
        ({
            let later = worker_after(
                worker_step(state, EventView::Sent),
                delivered_times(n),
            );
            &&& n < state.incoming.len() ==> action_in(later) == (ActionView::Deliver {
                packet: state.incoming[n as int],
            })
            &&& n == state.incoming.len() ==> action_in(later) == ActionView::Read
            &&& later.incoming == state.incoming.skip(n as int)
        }),
    decreases n,
{
    if n == 0 {
        assert(state.incoming.skip(0) =~= state.incoming);
    } else {
        let before = (n - 1) as nat;
        law_worker_delivers_in_order(state, before);
        assert(delivered_times(n).drop_last() =~= delivered_times(before));
        assert(state.incoming.skip(before as int).drop_first() =~= state.incoming.skip(n as int));
    }
}

/// The packets of a message are kept as they are while the answer is collected and sent.
pub proof fn law_worker_keeps_the_message(state: LinkState, event: EventView)
    requires
        !(event is Received),
        !(event is Delivered),
    ensures
        worker_step(state, event).incoming == state.incoming,
{
}

} // verus!
