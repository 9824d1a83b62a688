//! Packet lists: the payload of a message.
//!
//! The payload is the concatenation, for each packet, of the packet length and the packet data.
//! The length is a 16-bit little endian number.
use std::ops::Range;

use vstd::prelude::*;
use vstd::slice::slice_subrange;

use crate::error::{Error, ErrorView};
use crate::text::hex_string;

verus! {

use crate::text::hex;

/// The size in bytes of the length in front of each packet.
pub const LENGTH_SIZE: usize = 2;

/// The longest packet whose length can be written down.
pub const MAX_PACKET_SIZE: usize = 65535;

/// The number written as a little endian pair of bytes.
pub open spec fn le_value(low: u8, high: u8) -> nat {
    (low + 256 * high) as nat
}

/// A number below 65536 as a little endian pair of bytes.
pub open spec fn le_bytes(value: nat) -> Seq<u8> {
    seq![(value % 256) as u8, (value / 256) as u8]
}

/// A packet with its length in front.
pub open spec fn encode_packet(packet: Seq<u8>) -> Seq<u8> {
    le_bytes(packet.len()) + packet
}

/// The payload that holds the given packets.
pub open spec fn encode_packets(packets: Seq<Seq<u8>>) -> Seq<u8>
    decreases packets.len(),
{
    if packets.len() == 0 {
        Seq::empty()
    } else {
        encode_packet(packets.first()) + encode_packets(packets.drop_first())
    }
}

/// Each packet is short enough for its length to be written down.
pub open spec fn lengths_fit(packets: Seq<Seq<u8>>) -> bool {
    forall|i: int| 0 <= i < packets.len() ==> (#[trigger] packets[i]).len() <= MAX_PACKET_SIZE
}

/// What is wrong with a payload that is not a packet list.
pub enum PayloadFault {
    /// One byte is left where the two bytes of a length should be.
    MalformedLength,
    /// Fewer bytes are left than the length in front of them says.
    MissingData,
}

/// The packets in a payload, or the first thing that is wrong with it.
pub open spec fn parse_packets(payload: Seq<u8>) -> Result<Seq<Seq<u8>>, PayloadFault>
    decreases payload.len(),
{
    if payload.len() == 0 {
        Ok(Seq::empty())
    } else if payload.len() < LENGTH_SIZE {
        Err(PayloadFault::MalformedLength)
    } else {
        let end = LENGTH_SIZE + le_value(payload[0], payload[1]);
        if payload.len() < end {
            Err(PayloadFault::MissingData)
        } else {
            match parse_packets(payload.skip(end as int)) {
                Ok(rest) => Ok(seq![payload.subrange(LENGTH_SIZE as int, end as int)] + rest),
                Err(fault) => Err(fault),
            }
        }
    }
}

/// The error that reports a fault in a payload.
pub open spec fn fault_error(fault: PayloadFault) -> ErrorView {
    match fault {
        PayloadFault::MalformedLength => ErrorView::InvalidMessagePayload {
            reason: "malformed packet length"@,
        },
        PayloadFault::MissingData => ErrorView::InvalidMessagePayload {
            reason: "missing packet data"@,
        },
    }
}

/// The packets in a payload, or the error that it is refused with.
pub open spec fn payload_result(payload: Seq<u8>) -> Result<Seq<Seq<u8>>, ErrorView> {
    match parse_packets(payload) {
        Ok(packets) => Ok(packets),
        Err(fault) => Err(fault_error(fault)),
    }
}

/// The outcome of parsing or receiving packets, in terms of the packets and the error.
pub open spec fn packets_result(result: Result<Packets, Error>) -> Result<Seq<Seq<u8>>, ErrorView> {
    match result {
        Ok(packets) => Ok(packets@),
        Err(error) => Err(error@),
    }
}

/// The packets of a message.
pub struct Packets {
    data: Vec<u8>,
    packets: Vec<Range<usize>>,
}

impl View for Packets {
    type V = Seq<Seq<u8>>;

    /// The data of each packet.
    closed spec fn view(&self) -> Seq<Seq<u8>> {
        slices(self.data@, self.packets@)
    }
}

/// The parts of `data` in the given ranges.
spec fn slices(data: Seq<u8>, ranges: Seq<Range<usize>>) -> Seq<Seq<u8>> {
    Seq::new(
        ranges.len(),
        |i: int| data.subrange(ranges[i].start as int, ranges[i].end as int),
    )
}

/// Each range lies within `len` bytes.
spec fn ranges_within(ranges: Seq<Range<usize>>, len: nat) -> bool {
    forall|i: int|
        0 <= i < ranges.len() ==> (#[trigger] ranges[i]).start <= ranges[i].end <= len
}

impl Packets {
    #[verifier::type_invariant]
    spec fn is_valid(self) -> bool {
        ranges_within(self.packets@, self.data@.len())
    }

    /// Take ownership of a buffer and parse it as a payload containing packets.
    pub fn from_payload(data: Vec<u8>) -> (result: Result<Self, Error>)
        ensures
            packets_result(result) == payload_result(data@),
    {
        let mut packets: Vec<Range<usize>> = Vec::new();
        let mut index: usize = 0;
        proof {
            assert(data@.skip(0) =~= data@);
            assert(slices(data@, packets@) =~= Seq::empty());
        }
        while index < data.len()
            invariant
                index <= data.len(),
                ranges_within(packets@, data@.len()),
                match parse_packets(data@.skip(index as int)) {
                    Ok(rest) => parse_packets(data@) == Ok::<_, PayloadFault>(
                        slices(data@, packets@) + rest,
                    ),
                    Err(fault) => parse_packets(data@) == Err::<Seq<Seq<u8>>, _>(fault),
                },
            decreases data.len() - index,
        {
            let ghost rest = data@.skip(index as int);
            let available: usize = data.len() - index;
            if available < LENGTH_SIZE {
                return Err(Error::InvalidMessagePayload { reason: "malformed packet length" });
            }
            assert(rest[0] == data@[index as int] && rest[1] == data@[index + 1]);
            let packet_len: usize = data[index] as usize + 256 * data[index + 1] as usize;
            if available - LENGTH_SIZE < packet_len {
                return Err(Error::InvalidMessagePayload { reason: "missing packet data" });
            }
            let packet_start: usize = index + LENGTH_SIZE;
            let packet_end: usize = packet_start + packet_len;
            let ghost before = packets@;
            packets.push(packet_start..packet_end);
            proof {
                let packet = data@.subrange(packet_start as int, packet_end as int);
                assert(rest.subrange(2, 2 + packet_len) =~= packet);
                assert(rest.skip(2 + packet_len) =~= data@.skip(packet_end as int));
                assert(slices(data@, packets@) =~= slices(data@, before) + seq![packet]);
                if let Ok(tail) = parse_packets(data@.skip(packet_end as int)) {
                    assert(slices(data@, before) + (seq![packet] + tail) =~= slices(data@, packets@)
                        + tail);
                }
            }
            index = packet_end;
        }
        proof {
            assert(data@.skip(index as int) =~= Seq::empty());
            assert(slices(data@, packets@) + Seq::empty() =~= slices(data@, packets@));
        }
        Ok(Packets { data, packets })
    }

    /// Whether there are no packets.
    pub fn is_empty(&self) -> (empty: bool)
        ensures
            empty == (self@.len() == 0),
    {
        self.packets.is_empty()
    }

    /// The number of packets.
    pub fn len(&self) -> (len: usize)
        ensures
            len == self@.len(),
    {
        self.packets.len()
    }

    /// The packet at the given index.
    pub(crate) fn packet(&self, index: usize) -> (packet: &[u8])
        requires
            index < self@.len(),
        ensures
            packet@ == self@[index as int],
    {
        proof {
            use_type_invariant(self);
        }
        let range = &self.packets[index];
        slice_subrange(self.data.as_slice(), range.start, range.end)
    }

    /// Go through the packets in order.
    pub fn iter(&self) -> (packets: PacketsIterator<'_>)
        ensures
            packets@ == self@,
    {
        let packets = PacketsIterator { packets: self, front: 0, back: self.packets.len() };
        assert(packets@ =~= self@);
        packets
    }

    /// The packets in hexadecimal notation, for logs.
    pub fn debug_text(&self) -> (text: String)
        ensures
            text@ == packets_text(self@),
    {
        let mut list = String::new();
        let ghost texts = self@.map_values(|packet: Seq<u8>| packet_text(packet));
        let mut i: usize = 0;
        assert(texts.take(0) =~= Seq::empty());
        while i < self.len()
            invariant
                i <= self@.len(),
                texts == self@.map_values(|packet: Seq<u8>| packet_text(packet)),
                list@ == listed(texts.take(i as int)),
            decreases self@.len() - i,
        {
            let text = packet_to_text(self.packet(i));
            list = add_listed(list, i == 0, text.as_str(), Ghost(texts.take(i as int)));
            assert(texts.take(i as int).push(text@) =~= texts.take(i + 1));
            i += 1;
        }
        assert(texts.take(i as int) =~= texts);
        "Packets([".to_string().concat(list.as_str()).concat("])")
    }

    /// The packets as a list of slices.
    pub fn to_vec(&self) -> (packets: Vec<&[u8]>)
        ensures
            packets@.len() == self@.len(),
            forall|i: int| 0 <= i < packets@.len() ==> (#[trigger] packets@[i])@ == self@[i],
    {
        let mut result: Vec<&[u8]> = Vec::new();
        let mut packets = self.iter();
        let ghost all = self@;
        loop
            invariant
                all == self@,
                result@.len() <= all.len(),
                packets@ == all.skip(result@.len() as int),
                forall|i: int| 0 <= i < result@.len() ==> (#[trigger] result@[i])@ == all[i],
            ensures
                result@.len() == all.len(),
                forall|i: int| 0 <= i < result@.len() ==> (#[trigger] result@[i])@ == all[i],
            decreases all.len() - result@.len(),
        {
            match packets.next() {
                None => break,
                Some(packet) => result.push(packet),
            }
            assert(packets@ =~= all.skip(result@.len() as int));
        }
        result
    }
}

/// The texts one after another, with a comma between them.
pub open spec fn listed(texts: Seq<Seq<char>>) -> Seq<char>
    decreases texts.len(),
{
    if texts.len() == 0 {
        Seq::empty()
    } else if texts.len() == 1 {
        texts[0]
    } else {
        listed(texts.drop_last()) + ", "@ + texts.last()
    }
}

/// The bytes of a packet in hexadecimal notation.
pub open spec fn packet_text(packet: Seq<u8>) -> Seq<char> {
    "0x["@ + listed(packet.map_values(|byte: u8| hex(byte))) + "]"@
}

/// The packets in hexadecimal notation.
pub open spec fn packets_text(packets: Seq<Seq<u8>>) -> Seq<char> {
    "Packets(["@ + listed(packets.map_values(|packet: Seq<u8>| packet_text(packet))) + "])"@
}

/// Add a text to a list of texts.
fn add_listed(list: String, first: bool, text: &str, texts: Ghost<Seq<Seq<char>>>) -> (longer: String)
    requires
        list@ == listed(texts@),
        first == (texts@.len() == 0),
    ensures
        longer@ == listed(texts@.push(text@)),
{
    proof {
        let longer = texts@.push(text@);
        assert(longer.drop_last() =~= texts@);
        assert(texts@.len() == 0 ==> listed(longer) == text@);
        assert(Seq::<char>::empty() + text@ =~= text@);
    }
    if first {
        list.concat(text)
    } else {
        list.concat(", ").concat(text)
    }
}

/// The bytes of a packet in hexadecimal notation.
fn packet_to_text(packet: &[u8]) -> (text: String)
    ensures
        text@ == packet_text(packet@),
{
    let mut list = String::new();
    let ghost hexes = packet@.map_values(|byte: u8| hex(byte));
    let mut i: usize = 0;
    assert(hexes.take(0) =~= Seq::empty());
    while i < packet.len()
        invariant
            i <= packet@.len(),
            hexes == packet@.map_values(|byte: u8| hex(byte)),
            list@ == listed(hexes.take(i as int)),
        decreases packet@.len() - i,
    {
        let text = hex_string(packet[i]);
        list = add_listed(list, i == 0, text.as_str(), Ghost(hexes.take(i as int)));
        assert(hexes.take(i as int).push(text@) =~= hexes.take(i + 1));
        i += 1;
    }
    assert(hexes.take(i as int) =~= hexes);
    "0x[".to_string().concat(list.as_str()).concat("]")
}

/// Goes through packets from both ends.
pub struct PacketsIterator<'a> {
    packets: &'a Packets,
    front: usize,
    back: usize,
}

impl<'a> View for PacketsIterator<'a> {
    type V = Seq<Seq<u8>>;

    /// The packets that are left to go through.
    closed spec fn view(&self) -> Seq<Seq<u8>> {
        self.packets@.subrange(self.front as int, self.back as int)
    }
}

impl<'a> PacketsIterator<'a> {
    #[verifier::type_invariant]
    spec fn is_valid(self) -> bool {
        self.front <= self.back <= self.packets@.len()
    }

    /// Take the first packet.
    pub fn next(&mut self) -> (packet: Option<&'a [u8]>)
        ensures
            packet is None <==> old(self)@.len() == 0,
            packet is None ==> final(self)@ == old(self)@,
            packet matches Some(packet) ==> {
                &&& packet@ == old(self)@.first()
                &&& final(self)@ == old(self)@.drop_first()
            },
    {
        self.nth(0)
    }

    /// Take the first `n` packets and the packet after them, and give the last one back.
    pub fn nth(&mut self, n: usize) -> (packet: Option<&'a [u8]>)
        ensures
            packet is None <==> old(self)@.len() <= n,
            packet is None ==> final(self)@ == Seq::<Seq<u8>>::empty(),
            packet matches Some(packet) ==> {
                &&& packet@ == old(self)@[n as int]
                &&& final(self)@ == old(self)@.skip(n + 1)
            },
    {
        proof {
            use_type_invariant(&*self);
        }
        if self.back - self.front <= n {
            self.front = self.back;
            assert(self@ =~= Seq::<Seq<u8>>::empty());
            return None;
        }
        let packet = self.packets.packet(self.front + n);
        self.front = self.front + n + 1;
        assert(self@ =~= old(self)@.skip(n + 1));
        Some(packet)
    }

    /// Take the last packet.
    pub fn next_back(&mut self) -> (packet: Option<&'a [u8]>)
        ensures
            packet is None <==> old(self)@.len() == 0,
            packet is None ==> final(self)@ == old(self)@,
            packet matches Some(packet) ==> {
                &&& packet@ == old(self)@.last()
                &&& final(self)@ == old(self)@.drop_last()
            },
    {
        self.nth_back(0)
    }

    /// Take the last `n` packets and the packet before them, and give the first one back.
    pub fn nth_back(&mut self, n: usize) -> (packet: Option<&'a [u8]>)
        ensures
            packet is None <==> old(self)@.len() <= n,
            packet is None ==> final(self)@ == Seq::<Seq<u8>>::empty(),
            packet matches Some(packet) ==> {
                &&& packet@ == old(self)@[old(self)@.len() - 1 - n]
                &&& final(self)@ == old(self)@.take(old(self)@.len() - 1 - n)
            },
    {
        proof {
            use_type_invariant(&*self);
        }
        if self.back - self.front <= n {
            self.back = self.front;
            assert(self@ =~= Seq::<Seq<u8>>::empty());
            return None;
        }
        let packet = self.packets.packet(self.back - 1 - n);
        self.back = self.back - 1 - n;
        assert(self@ =~= old(self)@.take(old(self)@.len() - 1 - n));
        Some(packet)
    }

    /// The number of packets that are left.
    pub fn len(&self) -> (len: usize)
        ensures
            len == self@.len(),
    {
        proof {
            use_type_invariant(self);
        }
        self.back - self.front
    }

    /// The number of packets that are left.
    pub fn count(self) -> (len: usize)
        ensures
            len == self@.len(),
    {
        self.len()
    }

    /// Both bounds on the number of packets that are left, which are exact.
    pub fn size_hint(&self) -> (bounds: (usize, Option<usize>))
        ensures
            bounds.0 == self@.len(),
            bounds.1 == Some(bounds.0),
    {
        let len: usize = self.len();
        (len, Some(len))
    }
}

/// Parsing the payload made of some packets gives those packets back.
pub proof fn law_parse_returns_the_encoded_packets(packets: Seq<Seq<u8>>)
    requires
        lengths_fit(packets),
    ensures
        parse_packets(encode_packets(packets)) == Ok::<_, PayloadFault>(packets),
    decreases packets.len(),
{
    let payload = encode_packets(packets);
    if packets.len() == 0 {
        assert(packets =~= Seq::empty());
    } else {
        let first = packets.first();
        let rest = packets.drop_first();
        assert(packets[0] == first);
        assert forall|i: int| 0 <= i < rest.len() implies (#[trigger] rest[i]).len()
            <= MAX_PACKET_SIZE by {
            assert(rest[i] == packets[i + 1]);
        }
        law_parse_returns_the_encoded_packets(rest);
        assert(payload[0] == (first.len() % 256) as u8);
        assert(payload[1] == (first.len() / 256) as u8);
        assert(le_value(payload[0], payload[1]) == first.len());
        assert(payload.skip(2 + first.len() as int) =~= encode_packets(rest));
        assert(payload.subrange(2, 2 + first.len() as int) =~= first);
        assert(seq![first] + rest =~= packets);
    }
}

/// A payload that parses is made of the packets that were found in it, and of nothing else.
pub proof fn law_parsed_packets_make_up_the_payload(payload: Seq<u8>)
    ensures
        parse_packets(payload) matches Ok(packets) ==> {
            &&& lengths_fit(packets)
            &&& encode_packets(packets) == payload
        },
    decreases payload.len(),
{
    if payload.len() == 0 {
    } else if let Ok(packets) = parse_packets(payload) {
        let end = LENGTH_SIZE + le_value(payload[0], payload[1]);
        law_parsed_packets_make_up_the_payload(payload.skip(end as int));
        let rest = parse_packets(payload.skip(end as int))->Ok_0;
        let first = payload.subrange(LENGTH_SIZE as int, end as int);
        assert(packets =~= seq![first] + rest);
        assert(packets.first() == first);
        assert(packets.drop_first() =~= rest);
        assert(le_bytes(first.len()) =~= payload.take(2));
        assert(encode_packet(first) + payload.skip(end as int) =~= payload);
        assert forall|i: int| 0 <= i < packets.len() implies (#[trigger] packets[i]).len()
            <= MAX_PACKET_SIZE by {
            if i > 0 {
                assert(packets[i] == rest[i - 1]);
            }
        }
    }
}

/// Adding a packet at the end of the list adds its encoding at the end of the payload.
pub proof fn lemma_encode_push(packets: Seq<Seq<u8>>, packet: Seq<u8>)
    ensures
        encode_packets(packets.push(packet)) == encode_packets(packets) + encode_packet(packet),
    decreases packets.len(),
{
    let longer = packets.push(packet);
    if packets.len() == 0 {
        assert(longer.drop_first() =~= packets);
        assert(longer.first() == packet);
        assert(encode_packets(longer) =~= encode_packets(packets) + encode_packet(packet));
    } else {
        assert(longer.first() == packets.first());
        assert(longer.drop_first() =~= packets.drop_first().push(packet));
        lemma_encode_push(packets.drop_first(), packet);
        assert(encode_packets(longer) =~= encode_packets(packets) + encode_packet(packet));
    }
}

/// A packet list is read from the front: the first two bytes are the length of the first packet,
/// the low byte first, the data follows, and what comes after it is a packet list again.
pub proof fn law_packets_are_read_from_the_front(low: u8, high: u8, data: Seq<u8>, rest: Seq<u8>)
    requires
        data.len() == low + 256 * high,
    ensures
        payload_result(seq![low, high] + data + rest) == match payload_result(rest) {
            Ok(packets) => Ok(seq![data] + packets),
            Err(error) => Err(error),
        },
        payload_result(Seq::empty()) == Ok::<_, ErrorView>(Seq::<Seq<u8>>::empty()),
{
    let payload = seq![low, high] + data + rest;
    let end = LENGTH_SIZE + data.len();
    assert(payload[0] == low && payload[1] == high);
    assert(payload.subrange(LENGTH_SIZE as int, end as int) =~= data);
    assert(payload.skip(end as int) =~= rest);
}

/// A packet list that ends within a length or within the data of a packet is refused.
pub proof fn law_cut_off_packets_are_refused(payload: Seq<u8>)
    ensures
        payload.len() == 1 ==> payload_result(payload) == Err::<Seq<Seq<u8>>, _>(
            ErrorView::InvalidMessagePayload { reason: "malformed packet length"@ },
        ),
        payload.len() >= 2 && payload.len() - 2 < payload[0] + 256 * payload[1] ==> payload_result(
            payload,
        ) == Err::<Seq<Seq<u8>>, _>(
            ErrorView::InvalidMessagePayload { reason: "missing packet data"@ },
        ),
{
}

/// The wire format: a packet list without packets has no bytes, and one more packet adds its length
/// as two bytes, the low byte first, and its data.
pub proof fn law_wire_format(packets: Seq<Seq<u8>>, packet: Seq<u8>, low: u8, high: u8)
    requires
        packet.len() == low + 256 * high,
    ensures
        encode_packets(Seq::empty()) == Seq::<u8>::empty(),
        encode_packets(packets.push(packet)) == encode_packets(packets) + seq![low, high] + packet,
{
    lemma_encode_push(packets, packet);
    assert(encode_packets(packets) + seq![low, high] + packet =~= encode_packets(packets)
        + encode_packet(packet));
}

/// A list of texts with one more text, after a comma unless it is the first one.
proof fn lemma_listed_push(texts: Seq<Seq<char>>, text: Seq<char>)
    ensures
        listed(Seq::empty()) == Seq::<char>::empty(),
        texts.len() == 0 ==> listed(texts.push(text)) == text,
        texts.len() > 0 ==> listed(texts.push(text)) == listed(texts) + ", "@ + text,
{
    assert(texts.push(text).drop_last() =~= texts);
}

/// The text of a packet shows each of its bytes, in order and with a comma between them.
pub proof fn law_packet_text_shows_each_byte(packet: Seq<u8>, byte: u8)
    ensures
        packet_text(Seq::empty()) == "0x[]"@,
        packet_text(seq![byte]) == "0x["@ + hex(byte) + "]"@,
        packet.len() > 0 ==> packet_text(packet.push(byte)) == packet_text(packet).drop_last() + ", "@
            + hex(byte) + "]"@,
{
    reveal_strlit("0x[]");
    reveal_strlit("0x[");
    reveal_strlit("]");
    let show = |byte: u8| hex(byte);
    let none = Seq::<u8>::empty();
    let texts = packet.map_values(show);
    lemma_listed_push(texts, hex(byte));
    lemma_listed_push(Seq::empty(), hex(byte));
    assert(none.map_values(show) =~= Seq::empty());
    assert(packet_text(none) =~= "0x[]"@);
    assert(seq![byte].map_values(show) =~= Seq::empty().push(hex(byte)));
    assert(packet.push(byte).map_values(show) =~= texts.push(hex(byte)));
    if packet.len() > 0 {
        assert(packet_text(packet).drop_last() =~= "0x["@ + listed(texts));
        assert(packet_text(packet.push(byte)) =~= "0x["@ + listed(texts) + ", "@ + hex(byte) + "]"@);
    }
}

/// The text of a list of packets shows each of them, in order and with a comma between them.
pub proof fn law_packets_text_shows_each_packet(packets: Seq<Seq<u8>>, packet: Seq<u8>)
    ensures
        packets_text(Seq::empty()) == "Packets([])"@,
        packets_text(seq![packet]) == "Packets(["@ + packet_text(packet) + "])"@,
        packets.len() > 0 ==> packets_text(packets.push(packet)) == packets_text(packets).take(
            packets_text(packets).len() - 2,
        ) + ", "@ + packet_text(packet) + "])"@,
{
    reveal_strlit("Packets([])");
    reveal_strlit("Packets([");
    reveal_strlit("])");
    let show = |packet: Seq<u8>| packet_text(packet);
    let none = Seq::<Seq<u8>>::empty();
    let texts = packets.map_values(show);
    lemma_listed_push(texts, packet_text(packet));
    lemma_listed_push(Seq::empty(), packet_text(packet));
    assert(none.map_values(show) =~= Seq::empty());
    assert(packets_text(none) =~= "Packets([])"@);
    assert(seq![packet].map_values(show) =~= Seq::empty().push(packet_text(packet)));
    assert(packets.push(packet).map_values(show) =~= texts.push(packet_text(packet)));
    if packets.len() > 0 {
        assert(packets_text(packets).take(packets_text(packets).len() - 2) =~= "Packets(["@ + listed(
            texts,
        ));
        assert(packets_text(packets.push(packet)) =~= "Packets(["@ + listed(texts) + ", "@
            + packet_text(packet) + "])"@);
    }
}

/// The outcome of parsing or receiving packets is spoken of as it is.
pub proof fn law_outcome_is_spoken_of_as_it_is(result: Result<Packets, Error>)
    ensures
        result matches Ok(packets) ==> packets_result(result) == Ok::<_, ErrorView>(packets@),
        result matches Err(error) ==> packets_result(result) == Err::<Seq<Seq<u8>>, _>(error@),
{
}

} // verus!
