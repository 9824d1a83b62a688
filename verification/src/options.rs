//! The options of the tunnel.
use core::time::Duration;

use vstd::prelude::*;

use crate::packets::LENGTH_SIZE;
use crate::text::parse_u64;

verus! {

use crate::cobs::cobs_encoded;
use crate::line::law_payload_fits;
use crate::packets::encode_packets;
use crate::protocol::{buffer_size, PREAMBLE_SIZE};
use crate::text::number;
use crate::{DEFAULT_MAX_PAYLOAD_SIZE, DEFAULT_MTU};

/// The smallest MTU that a tunnel interface may have.
pub const MIN_MTU: u16 = 64;

/// The duration that `Duration::from_millis` makes for a number of milliseconds.
pub uninterp spec fn duration_of_millis(millis: u64) -> Duration;

/// `Duration::from_millis` makes a duration from the number of milliseconds alone.
pub assume_specification[ Duration::from_millis ](millis: u64) -> (duration: Duration)
    ensures
        duration == duration_of_millis(millis),
;

/// Parse a number of milliseconds.
pub fn parse_millis(value: &str) -> (result: Result<Duration, &'static str>)
    ensures
        match number(value@) {
            Some(n) => if n <= u64::MAX {
                result == Ok::<_, &'static str>(duration_of_millis(n as u64))
            } else {
                result matches Err(message) && message@ == "expected a number of milliseconds"@
            },
            None => {
                result matches Err(message) && message@ == "expected a number of milliseconds"@
            },
        },
{
    match parse_u64(value) {
        Some(millis) => Ok(Duration::from_millis(millis)),
        None => Err("expected a number of milliseconds"),
    }
}

/// Whether the MTU is less than a tunnel interface may have.
///
/// This is reported as an error, but it does not keep the tunnel from starting.
pub fn is_mtu_too_small(mtu: u16) -> (too_small: bool)
    ensures
        too_small == (mtu < MIN_MTU),
{
    mtu < MIN_MTU
}

/// The maximum payload size for the given MTU and the given option.
///
/// The maximum payload size must be at least two bytes more than the MTU.
/// If it is not given, it is twice the MTU plus eight bytes.
pub fn check_mtu_message_size(mtu: u16, max_payload_size: Option<usize>) -> (result: Result<
    usize,
    (),
>)
    ensures
        match max_payload_size {
            None => result == Ok::<usize, ()>((2 * mtu + 8) as usize),
            Some(size) => if size < mtu + LENGTH_SIZE {
                result == Err::<usize, ()>(())
            } else {
                result == Ok::<usize, ()>(size)
            },
        },
        result matches Ok(size) ==> size >= mtu + LENGTH_SIZE,
        max_payload_size is None ==> result is Ok && result->Ok_0 >= 2 * (mtu + LENGTH_SIZE),
        max_payload_size matches Some(size) ==> (result is Ok <==> size >= mtu + LENGTH_SIZE),
        max_payload_size matches Some(size) ==> (result is Ok ==> result->Ok_0 == size),
{
    let mtu: usize = mtu as usize;
    match max_payload_size {
        None => Ok(mtu * 2 + 8),
        Some(max_payload_size) => {
            if max_payload_size < mtu + LENGTH_SIZE {
                return Err(());
            }
            Ok(max_payload_size)
        },
    }
}

/// A maximum payload size of two bytes more than the MTU is enough:
/// a message with a packet of up to the size of the MTU can be sent,
/// and it fits in the receive buffer of the other side.
pub proof fn law_full_packet_fits(mtu: u16, max_payload_size: usize, packet: Seq<u8>)
    requires
        max_payload_size >= mtu + LENGTH_SIZE,
        packet.len() <= mtu,
    ensures
        encode_packets(seq![packet]).len() <= max_payload_size,
        PREAMBLE_SIZE + cobs_encoded(encode_packets(seq![packet])).len() <= buffer_size(
            max_payload_size,
        ),
{
    let packets = seq![packet];
    reveal_with_fuel(encode_packets, 2);
    assert(packets.drop_first() =~= Seq::empty());
    law_payload_fits(max_payload_size, encode_packets(packets));
}

/// A maximum payload size of twice the MTU plus the length in front of each packet is enough for two packets:
/// a message with two packets of up to the size of the MTU can be sent,
/// and it fits in the receive buffer of the other side.
///
/// Both the default maximum payload size and that for an MTU without any other option are at least that large.
pub proof fn law_two_full_packets_fit(
    mtu: u16,
    max_payload_size: usize,
    first: Seq<u8>,
    second: Seq<u8>,
)
    requires
        max_payload_size >= 2 * (mtu + LENGTH_SIZE),
        first.len() <= mtu,
        second.len() <= mtu,
    ensures
        encode_packets(seq![first, second]).len() <= max_payload_size,
        PREAMBLE_SIZE + cobs_encoded(encode_packets(seq![first, second])).len() <= buffer_size(
            max_payload_size,
        ),
        2 * mtu + 8 >= 2 * (mtu + LENGTH_SIZE),
        DEFAULT_MAX_PAYLOAD_SIZE >= 2 * (DEFAULT_MTU + LENGTH_SIZE),
{
    let packets = seq![first, second];
    reveal_with_fuel(encode_packets, 3);
    assert(packets.drop_first() =~= seq![second]);
    assert(packets.drop_first().drop_first() =~= Seq::empty());
    law_payload_fits(max_payload_size, encode_packets(packets));
}

} // verus!
