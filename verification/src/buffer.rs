//! The buffer in which packets from the tunnel interface are put in the wire format.
use vstd::prelude::*;

use crate::packets::{LENGTH_SIZE, MAX_PACKET_SIZE};

verus! {

use crate::packets::{encode_packet, encode_packets, law_wire_format, lemma_encode_push, lengths_fit};

/// The packets in a buffer, and the number of bytes that it can hold.
pub struct BufferState {
    pub packets: Seq<Seq<u8>>,
    pub capacity: usize,
}

/// The size that a packet can have to be put in the buffer behind its length,
/// or `None` if there is not even space for a length.
pub open spec fn packet_space(state: BufferState) -> Option<nat> {
    let used = encode_packets(state.packets).len();
    if used + LENGTH_SIZE <= state.capacity {
        Some((state.capacity - used - LENGTH_SIZE) as nat)
    } else {
        None
    }
}

/// The packets after one more packet was received: a packet whose length can not be written down is dropped.
pub open spec fn with_packet(packets: Seq<Seq<u8>>, packet: Seq<u8>) -> Seq<Seq<u8>> {
    if packet.len() <= MAX_PACKET_SIZE {
        packets.push(packet)
    } else {
        packets
    }
}

/// Collects packets into a payload of limited size.
pub struct PacketBuffer {
    payload: Vec<u8>,
    capacity: usize,
    packets: Ghost<Seq<Seq<u8>>>,
}

impl View for PacketBuffer {
    type V = BufferState;

    closed spec fn view(&self) -> BufferState {
        BufferState { packets: self.packets@, capacity: self.capacity }
    }
}

impl PacketBuffer {
    /// The payload holds the packets, and it fits in the buffer.
    pub closed spec fn is_valid(&self) -> bool {
        &&& self.payload@ == encode_packets(self.packets@)
        &&& self.payload@.len() <= self.capacity
        &&& lengths_fit(self.packets@)
    }

    /// A buffer without packets.
    pub fn new(capacity: usize) -> (buffer: Self)
        ensures
            buffer.is_valid(),
            buffer@ == (BufferState { packets: Seq::empty(), capacity }),
    {
        let buffer = PacketBuffer { payload: Vec::new(), capacity, packets: Ghost(Seq::empty()) };
        assert(buffer.payload@ =~= encode_packets(buffer.packets@));
        buffer
    }

    /// Remove all packets.
    pub fn clear(&mut self)
        ensures
            final(self).is_valid(),
            final(self)@ == (BufferState { packets: Seq::empty(), ..old(self)@ }),
    {
        self.payload.clear();
        proof {
            self.packets@ = Seq::empty();
        }
        assert(self.payload@ =~= encode_packets(self.packets@));
    }

    /// The payload that holds the packets.
    pub fn payload(&self) -> (payload: &[u8])
        requires
            self.is_valid(),
        ensures
            payload@ == encode_packets(self@.packets),
            payload@.len() <= self@.capacity,
            lengths_fit(self@.packets),
    {
        self.payload.as_slice()
    }

    /// Whether there are no packets.
    pub fn is_empty(&self) -> (empty: bool)
        requires
            self.is_valid(),
        ensures
            empty == (self@.packets.len() == 0),
    {
        self.payload.is_empty()
    }

    /// The size that a packet can have to be received into the buffer, if there is space for its length.
    pub fn space(&self) -> (space: Option<usize>)
        requires
            self.is_valid(),
        ensures
            match packet_space(self@) {
                Some(size) => space == Some(size as usize) && size <= usize::MAX,
                None => space is None,
            },
    {
        let left: usize = self.capacity - self.payload.len();
        if left < LENGTH_SIZE {
            None
        } else {
            Some(left - LENGTH_SIZE)
        }
    }

    /// Put a received packet in the buffer, behind its length.
    ///
    /// A packet that is too large for its length to be written down is dropped.
    pub fn accept(&mut self, packet: &[u8])
        requires
            old(self).is_valid(),
            packet_space(old(self)@) is Some,
            packet@.len() <= packet_space(old(self)@)->0,
        ensures
            final(self).is_valid(),
            final(self)@ == (BufferState {
                packets: with_packet(old(self)@.packets, packet@),
                ..old(self)@
            }),
            packet@.len() <= u16::MAX ==> final(self)@.packets == old(self)@.packets.push(packet@),
            packet@.len() > u16::MAX ==> final(self)@.packets == old(self)@.packets,
            final(self)@.capacity == old(self)@.capacity,
    {
        if packet.len() > MAX_PACKET_SIZE {
            return;
        }
        let ghost before = self.packets@;
        self.payload.push((packet.len() % 256) as u8);
        self.payload.push((packet.len() / 256) as u8);
        self.payload.extend_from_slice(packet);
        proof {
            self.packets@ = before.push(packet@);
            lemma_encode_push(before, packet@);
            assert(self.payload@ =~= encode_packets(before) + encode_packet(packet@));
        }
    }
}

/// A packet that fits is put at the end, whatever its size and whatever is in it:
/// the payload is the payload before, the length of the packet as two bytes with the low byte first, and the packet.
/// Only a packet whose length takes more than 16 bits is left out.
pub proof fn law_packet_is_put_at_the_end(
    packets: Seq<Seq<u8>>,
    packet: Seq<u8>,
    low: u8,
    high: u8,
)
    ensures
        packet.len() <= u16::MAX ==> with_packet(packets, packet) == packets.push(packet),
        packet.len() == low + 256 * high ==> encode_packets(with_packet(packets, packet))
            == encode_packets(packets) + seq![low, high] + packet,
        packet.len() > u16::MAX ==> with_packet(packets, packet) == packets,
{
    if packet.len() == low + 256 * high {
        law_wire_format(packets, packet, low, high);
    }
}

/// The space is what is left of the buffer behind its packets and another length:
/// a packet can be put in the buffer exactly if the payload still fits with it.
pub proof fn law_space_is_what_fits(state: BufferState, packet: Seq<u8>)
    requires
        packet.len() <= u16::MAX,
    ensures
        (packet_space(state) is Some && packet.len() <= packet_space(state)->0) <==> encode_packets(
            state.packets.push(packet),
        ).len() <= state.capacity,
        packet_space(state) is None <==> encode_packets(state.packets).len() + 2 > state.capacity,
{
    lemma_encode_push(state.packets, packet);
}

} // verus!
