//! What the two sides of the tunnel have in common.
//!
//! Each side alternates between work on the tunnel interface or the serial port and a decision.
//! The decision is taken on the [`Event`] that the work ended with, and leads to the next [`Action`].
use vstd::prelude::*;

use crate::buffer::PacketBuffer;
use crate::error::Error;
use crate::packets::Packets;

verus! {

use crate::buffer::{packet_space, with_packet, BufferState};
use crate::error::ErrorView;
use crate::packets::encode_packets;

/// What one side of the tunnel is doing.
#[derive(Debug, Clone, Copy, PartialEq, Eq, Structural)]
pub enum Phase {
    /// Waiting for the first packet from the tunnel interface.
    Poll,
    /// Looking up the MTU of the tunnel interface.
    QueryMtu,
    /// Taking packets from the tunnel interface that are directly available.
    Drain,
    /// Sending a message over the serial port.
    Send,
    /// Receiving a message from the serial port.
    Read,
    /// Writing received packets to the tunnel interface.
    Deliver,
    /// Nothing any more, because of a permanent failure.
    Stopped,
}

/// The work that has to be done next.
pub enum Action<'a> {
    /// Wait for a packet of up to `space` bytes from the tunnel interface, up to the poll timeout.
    Receive { space: usize },
    /// Look up the MTU of the tunnel interface.
    QueryMtu,
    /// Take a packet of up to `space` bytes from the tunnel interface, if one is directly available.
    TryReceive { space: usize },
    /// Send a message with this payload over the serial port.
    Send { payload: &'a [u8] },
    /// Receive a message from the serial port.
    Read,
    /// Write this packet to the tunnel interface.
    Deliver { packet: &'a [u8] },
    /// Give up.
    Stop,
}

/// How the work ended.
pub enum Event<'a> {
    /// The tunnel interface gave this packet.
    Packet(&'a [u8]),
    /// The tunnel interface had no packet, or none in time.
    Idle,
    /// The tunnel interface failed.
    InterfaceFailed,
    /// The MTU of the tunnel interface.
    Mtu(u16),
    /// The message was sent.
    Sent,
    /// The message could not be sent.
    SendFailed,
    /// A message with these packets was received.
    Received(Packets),
    /// No message was received, or a damaged one.
    ReceiveFailed(Error),
    /// The packet was written to the tunnel interface.
    Delivered,
}

/// The work that has to be done next, with the bytes as sequences.
pub enum ActionView {
    Receive { space: nat },
    QueryMtu,
    TryReceive { space: nat },
    Send { payload: Seq<u8> },
    Read,
    Deliver { packet: Seq<u8> },
    Stop,
}

/// How the work ended, with the bytes as sequences.
pub enum EventView {
    Packet(Seq<u8>),
    Idle,
    InterfaceFailed,
    Mtu(u16),
    Sent,
    SendFailed,
    Received(Seq<Seq<u8>>),
    ReceiveFailed(ErrorView),
    Delivered,
}

impl<'a> View for Action<'a> {
    type V = ActionView;

    open spec fn view(&self) -> ActionView {
        match self {
            Action::Receive { space } => ActionView::Receive { space: *space as nat },
            Action::QueryMtu => ActionView::QueryMtu,
            Action::TryReceive { space } => ActionView::TryReceive { space: *space as nat },
            Action::Send { payload } => ActionView::Send { payload: payload@ },
            Action::Read => ActionView::Read,
            Action::Deliver { packet } => ActionView::Deliver { packet: packet@ },
            Action::Stop => ActionView::Stop,
        }
    }
}

impl<'a> View for Event<'a> {
    type V = EventView;

    open spec fn view(&self) -> EventView {
        match self {
            Event::Packet(packet) => EventView::Packet(packet@),
            Event::Idle => EventView::Idle,
            Event::InterfaceFailed => EventView::InterfaceFailed,
            Event::Mtu(mtu) => EventView::Mtu(*mtu),
            Event::Sent => EventView::Sent,
            Event::SendFailed => EventView::SendFailed,
            Event::Received(packets) => EventView::Received(packets@),
            Event::ReceiveFailed(error) => EventView::ReceiveFailed(error@),
            Event::Delivered => EventView::Delivered,
        }
    }
}

/// The state of one side of the tunnel.
pub struct LinkState {
    pub phase: Phase,
    /// Whether the other side is assumed to be there.
    pub alive: bool,
    /// The MTU of the tunnel interface when it was last looked up.
    pub mtu: u16,
    /// The packets that were taken from the tunnel interface, to be sent.
    pub outgoing: Seq<Seq<u8>>,
    /// The number of bytes that the packets to be sent can take in the wire format.
    pub capacity: usize,
    /// The packets that were received, to be written to the tunnel interface.
    pub incoming: Seq<Seq<u8>>,
}

/// The state after a permanent failure.
pub open spec fn stopped(state: LinkState) -> LinkState {
    LinkState { phase: Phase::Stopped, ..state }
}

/// The size that the next packet from the tunnel interface can have.
pub open spec fn receive_space(state: LinkState) -> Option<nat> {
    packet_space(BufferState { packets: state.outgoing, capacity: state.capacity })
}

/// Either take another packet that is directly available, or send what was taken.
///
/// Another packet is taken only if a packet of the size of the MTU fits.
/// If `any_first`, this does not hold for the first packet.
pub open spec fn collect(state: LinkState, any_first: bool) -> LinkState {
    let phase = match receive_space(state) {
        Some(space) => if space >= state.mtu || (any_first && state.outgoing.len() == 0) {
            Phase::Drain
        } else {
            Phase::Send
        },
        None => Phase::Send,
    };
    LinkState { phase, ..state }
}

/// The work that has to be done in a state.
pub open spec fn action_in(state: LinkState) -> ActionView {
    match state.phase {
        Phase::Poll => ActionView::Receive { space: receive_space(state)->0 },
        Phase::QueryMtu => ActionView::QueryMtu,
        Phase::Drain => ActionView::TryReceive { space: receive_space(state)->0 },
        Phase::Send => ActionView::Send { payload: encode_packets(state.outgoing) },
        Phase::Read => ActionView::Read,
        Phase::Deliver => ActionView::Deliver { packet: state.incoming.first() },
        Phase::Stopped => ActionView::Stop,
    }
}

/// The event is one that the work to be done can end with.
pub open spec fn is_outcome(action: ActionView, event: EventView) -> bool {
    match action {
        ActionView::Receive { space } | ActionView::TryReceive { space } => match event {
            EventView::Packet(packet) => packet.len() <= space,
            EventView::Idle | EventView::InterfaceFailed => true,
            _ => false,
        },
        ActionView::QueryMtu => event is Mtu || event is InterfaceFailed,
        ActionView::Send { .. } => event is Sent || event is SendFailed,
        ActionView::Read => event is Received || event is ReceiveFailed,
        ActionView::Deliver { .. } => event is Delivered || event is InterfaceFailed,
        ActionView::Stop => false,
    }
}

/// There is space for a packet whenever one is to be taken, and a packet whenever one is to be written.
pub open spec fn is_consistent(state: LinkState) -> bool {
    &&& state.phase == Phase::Poll || state.phase == Phase::Drain ==> receive_space(state) is Some
    &&& state.phase == Phase::Deliver ==> state.incoming.len() > 0
}

/// The packets that were taken from the tunnel interface, in order.
///
/// An empty packet is none, and a packet whose length can not be written down is dropped.
pub open spec fn taken_packets(events: Seq<EventView>) -> Seq<Seq<u8>>
    decreases events.len(),
{
    if events.len() == 0 {
        Seq::empty()
    } else {
        let before = taken_packets(events.drop_last());
        match events.last() {
            EventView::Packet(packet) => if 0 < packet.len() <= u16::MAX {
                before.push(packet)
            } else {
                before
            },
            _ => before,
        }
    }
}

/// A number of packets were written to the tunnel interface, one after another.
pub open spec fn delivered_times(n: nat) -> Seq<EventView> {
    Seq::new(n, |i: int| EventView::Delivered)
}

/// One side of the tunnel, without the decisions that are its own.
pub struct Link {
    phase: Phase,
    alive: bool,
    mtu: u16,
    outgoing: PacketBuffer,
    incoming: Option<Packets>,
    delivered: usize,
}

impl View for Link {
    type V = LinkState;

    closed spec fn view(&self) -> LinkState {
        LinkState {
            phase: self.phase,
            alive: self.alive,
            mtu: self.mtu,
            outgoing: self.outgoing@.packets,
            capacity: self.outgoing@.capacity,
            incoming: match self.incoming {
                Some(packets) => packets@.skip(self.delivered as int),
                None => Seq::empty(),
            },
        }
    }
}

impl Link {
    /// The packets are within their bounds.
    pub closed spec fn is_valid(&self) -> bool {
        &&& self.outgoing.is_valid()
        &&& self.incoming matches Some(packets) ==> self.delivered <= packets@.len()
    }

    /// Start in the given phase, without packets.
    pub(crate) fn new(phase: Phase, capacity: usize) -> (link: Self)
        ensures
            link.is_valid(),
            link@ == (LinkState {
                phase,
                alive: true,
                mtu: 0,
                outgoing: Seq::empty(),
                capacity,
                incoming: Seq::empty(),
            }),
    {
        Link {
            phase,
            alive: true,
            mtu: 0,
            outgoing: PacketBuffer::new(capacity),
            incoming: None,
            delivered: 0,
        }
    }

    /// What is being done.
    pub fn phase(&self) -> (phase: Phase)
        ensures
            phase == self@.phase,
    {
        self.phase
    }

    /// Whether the other side is assumed to be there.
    pub fn alive(&self) -> (alive: bool)
        ensures
            alive == self@.alive,
    {
        self.alive
    }

    /// The work that has to be done next.
    pub fn action(&self) -> (action: Action<'_>)
        requires
            self.is_valid(),
            is_consistent(self@),
        ensures
            action@ == action_in(self@),
    {
        match self.phase {
            Phase::Poll => Action::Receive { space: self.receive_space() },
            Phase::QueryMtu => Action::QueryMtu,
            Phase::Drain => Action::TryReceive { space: self.receive_space() },
            Phase::Send => Action::Send { payload: self.outgoing.payload() },
            Phase::Read => Action::Read,
            Phase::Deliver => match &self.incoming {
                Some(packets) => {
                    assert(self@.incoming.first() == packets@[self.delivered as int]);
                    Action::Deliver { packet: packets.packet(self.delivered) }
                },
                None => {
                    assert(false);
                    Action::Stop
                },
            },
            Phase::Stopped => Action::Stop,
        }
    }

    /// The size that the next packet from the tunnel interface can have.
    fn receive_space(&self) -> (space: usize)
        requires
            self.is_valid(),
            receive_space(self@) is Some,
        ensures
            space == receive_space(self@)->0,
    {
        match self.outgoing.space() {
            Some(space) => space,
            None => 0,
        }
    }

    /// Whether there is space for another packet from the tunnel interface.
    pub(crate) fn has_space(&self) -> (space: bool)
        requires
            self.is_valid(),
        ensures
            space == (receive_space(self@) is Some),
    {
        self.outgoing.space().is_some()
    }

    /// Go on with another phase.
    pub(crate) fn enter(&mut self, phase: Phase)
        requires
            old(self).is_valid(),
        ensures
            final(self).is_valid(),
            final(self)@ == (LinkState { phase, ..old(self)@ }),
    {
        self.phase = phase;
    }

    /// Remember whether the other side is there.
    pub(crate) fn set_alive(&mut self, alive: bool)
        requires
            old(self).is_valid(),
        ensures
            final(self).is_valid(),
            final(self)@ == (LinkState { alive, ..old(self)@ }),
    {
        self.alive = alive;
    }

    /// Remember the MTU of the tunnel interface.
    pub(crate) fn set_mtu(&mut self, mtu: u16)
        requires
            old(self).is_valid(),
        ensures
            final(self).is_valid(),
            final(self)@ == (LinkState { mtu, ..old(self)@ }),
    {
        self.mtu = mtu;
    }

    /// Forget the packets that were taken from the tunnel interface.
    pub(crate) fn clear_outgoing(&mut self)
        requires
            old(self).is_valid(),
        ensures
            final(self).is_valid(),
            final(self)@ == (LinkState { outgoing: Seq::empty(), ..old(self)@ }),
    {
        self.outgoing.clear();
    }

    /// Add a packet from the tunnel interface to the packets to be sent.
    pub(crate) fn add_outgoing(&mut self, packet: &[u8])
        requires
            old(self).is_valid(),
            receive_space(old(self)@) is Some,
            packet@.len() <= receive_space(old(self)@)->0,
        ensures
            final(self).is_valid(),
            final(self)@ == (LinkState {
                outgoing: with_packet(old(self)@.outgoing, packet@),
                ..old(self)@
            }),
    {
        self.outgoing.accept(packet);
    }

    /// Either take another packet from the tunnel interface, or send what was taken.
    pub(crate) fn collect(&mut self, any_first: bool)
        requires
            old(self).is_valid(),
        ensures
            final(self).is_valid(),
            final(self)@ == collect(old(self)@, any_first),
    {
        self.phase = match self.outgoing.space() {
            Some(space) => if space >= self.mtu as usize || (any_first
                && self.outgoing.is_empty()) {
                Phase::Drain
            } else {
                Phase::Send
            },
            None => Phase::Send,
        };
    }

    /// Keep the packets of a message, to be written to the tunnel interface.
    pub(crate) fn set_incoming(&mut self, packets: Packets)
        requires
            old(self).is_valid(),
        ensures
            final(self).is_valid(),
            final(self)@ == (LinkState { incoming: packets@, ..old(self)@ }),
    {
        assert(packets@.skip(0) =~= packets@);
        self.incoming = Some(packets);
        self.delivered = 0;
    }

    /// Whether all received packets are written to the tunnel interface.
    pub(crate) fn all_delivered(&self) -> (all: bool)
        requires
            self.is_valid(),
        ensures
            all == (self@.incoming.len() == 0),
    {
        match &self.incoming {
            Some(packets) => self.delivered == packets.len(),
            None => true,
        }
    }

    /// Forget the packet that was written to the tunnel interface.
    pub(crate) fn next_incoming(&mut self)
        requires
            old(self).is_valid(),
            old(self)@.incoming.len() > 0,
        ensures
            final(self).is_valid(),
            final(self)@ == (LinkState {
                incoming: old(self)@.incoming.drop_first(),
                ..old(self)@
            }),
    {
        if let Some(packets) = &self.incoming {
            let len: usize = packets.len();
            assert(self.delivered < len);
            assert(packets@.skip(self.delivered + 1) =~= self@.incoming.drop_first());
            self.delivered = self.delivered + 1;
        }
    }
}

} // verus!
