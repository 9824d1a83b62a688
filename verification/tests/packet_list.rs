use turnip::error::Error;
use turnip::packets::Packets;

/// Build a payload containing the given packets (without message header).
fn encode_packets(packets: &[&[u8]]) -> Vec<u8> {
    let mut payload = Vec::new();
    for packet in packets {
        payload.extend_from_slice(&(packet.len() as u16).to_le_bytes());
        payload.extend_from_slice(packet);
    }
    payload
}

fn parse(packets: &[&[u8]]) -> Packets {
    match Packets::from_payload(encode_packets(packets)) {
        Ok(packets) => packets,
        Err(error) => panic!("{error:?}"),
    }
}

#[test]
fn parse_empty_payload() {
    let packets = parse(&[]);
    assert!(packets.is_empty());
    assert_eq!(packets.len(), 0);
}

#[test]
fn parse_single_packet() {
    let payload = encode_packets(&[b"hello"]);
    assert_eq!(payload, b"\x05\x00hello");
    let packets = parse(&[b"hello"]);
    assert!(packets.to_vec() == &[b"hello".as_slice()]);
    assert!(!packets.is_empty());
}

#[test]
fn parse_multiple_packets() {
    let packets = parse(&[b"aaa", b"bb", b"c"]);
    assert!(packets.to_vec() == &["aaa".as_bytes(), "bb".as_bytes(), "c".as_bytes()]);
    assert_eq!(packets.len(), 3);
}

#[test]
fn parse_zero_length_packet() {
    let packets = parse(&[b""]);
    assert!(packets.to_vec() == &[b""]);
}

#[test]
fn parse_truncated_packet_length() {
    // Only 1 byte where a 2-byte length header is expected.
    let mut payload = encode_packets(&[b""]);
    payload.truncate(payload.len() - 1);
    let result = Packets::from_payload(payload);
    assert!(matches!(result, Err(Error::InvalidMessagePayload { reason: "malformed packet length" })));
}

#[test]
fn parse_truncated_packet_data() {
    // Header says 10 bytes, but only 3 are present.
    let mut data = encode_packets(&[b"0123456789"]);
    data.truncate(data.len() - 7);
    let result = Packets::from_payload(data);
    assert!(matches!(result, Err(Error::InvalidMessagePayload { reason: "missing packet data" })));
}

#[test]
fn parse_truncated_second_packet() {
    let mut data = encode_packets(&[b"ok", b"not ok"]);
    data.truncate(5);
    let result = Packets::from_payload(data.clone());
    assert!(matches!(result, Err(Error::InvalidMessagePayload { reason: "malformed packet length" })));
    data.push(1);
    data.push(0);
    data.extend_from_slice(b"!");
    assert!(Packets::from_payload(data).is_err());
}

#[test]
fn parse_long_packet() {
    let long = vec![0xA5; 0x1234];
    let payload = encode_packets(&[&long, b"x"]);
    assert_eq!(payload[..2], [0x34, 0x12]);
    let packets = parse(&[&long, b"x"]);
    assert!(packets.to_vec() == &[long.as_slice(), b"x".as_slice()]);
}

#[test]
fn iterate_from_the_front() {
    let packets = parse(&[b"a", b"b", b"c", b"d"]);
    let mut iter = packets.iter();
    assert_eq!(iter.size_hint(), (4, Some(4)));
    assert_eq!(iter.next(), Some(b"a".as_slice()));
    assert_eq!(iter.nth(1), Some(b"c".as_slice()));
    assert_eq!(iter.len(), 1);
    assert_eq!(iter.next(), Some(b"d".as_slice()));
    assert_eq!(iter.next(), None);
    assert_eq!(iter.count(), 0);
}

#[test]
fn iterate_from_the_back() {
    let packets = parse(&[b"a", b"b", b"c", b"d"]);
    let mut iter = packets.iter();
    assert_eq!(iter.next_back(), Some(b"d".as_slice()));
    assert_eq!(iter.nth_back(1), Some(b"b".as_slice()));
    assert_eq!(iter.next(), Some(b"a".as_slice()));
    assert_eq!(iter.next_back(), None);
}

#[test]
fn iterate_past_the_end() {
    let packets = parse(&[b"a", b"b"]);
    let mut iter = packets.iter();
    assert_eq!(iter.nth(2), None);
    assert_eq!(iter.len(), 0);
    let mut iter = packets.iter();
    assert_eq!(iter.nth_back(7), None);
    assert_eq!(iter.next(), None);
}

#[test]
fn packets_in_hexadecimal() {
    assert_eq!(parse(&[]).debug_text(), "Packets([])");
    assert_eq!(
        parse(&[b"\x00\x0A\xFF", b"", b"h"]).debug_text(),
        "Packets([0x[00, 0A, FF], 0x[], 0x[68]])"
    );
}

#[test]
fn parsed_packets_make_up_the_payload() {
    let payload = b"\x00\x00\x03\x00abc\x01\x00\xFF".to_vec();
    let packets = match Packets::from_payload(payload.clone()) {
        Ok(packets) => packets,
        Err(error) => panic!("{error:?}"),
    };
    assert_eq!(encode_packets(&packets.to_vec()), payload);
}
