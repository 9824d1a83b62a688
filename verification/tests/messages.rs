use turnip::cobs::{can_encode, CobsFailure};
use turnip::error::{Error, SerialError};
use turnip::packets::Packets;
use turnip::protocol::{
    encode_message, finish_message, frame, scan_preamble_start, MessageReader, MessageWriter, PREAMBLE,
};

const MAX_PAYLOAD_SIZE: usize = 516;

/// Build a payload containing the given packets (without message header).
fn encode_packets(packets: &[&[u8]]) -> Vec<u8> {
    let mut payload = Vec::new();
    for packet in packets {
        payload.extend_from_slice(&(packet.len() as u16).to_le_bytes());
        payload.extend_from_slice(packet);
    }
    payload
}

/// Build a full message containing the given packets.
fn message_with(packets: &[&[u8]]) -> Vec<u8> {
    let mut message = Vec::new();
    message.extend_from_slice(&PREAMBLE);
    corncobs::encode(&encode_packets(packets), &mut message);
    message
}

/// A serial line that hands out up to `portion` bytes at a time.
struct Line {
    bytes: Vec<u8>,
    portion: usize,
}

impl Line {
    fn new(portion: usize) -> Self {
        Line { bytes: Vec::new(), portion }
    }

    fn write_all(&mut self, bytes: &[u8]) {
        self.bytes.extend_from_slice(bytes);
    }

    /// Send a message, a few bytes at a time.
    fn send_packets(&mut self, payload: &[u8], max_payload_size: usize) -> Result<(), Error> {
        let mut writer = MessageWriter::new(payload, max_payload_size)?;
        while !writer.remaining().is_empty() {
            let written = writer.remaining().len().min(self.portion);
            let bytes = writer.remaining()[..written].to_vec();
            self.write_all(&bytes);
            writer.advance(written)?;
        }
        Ok(())
    }

    /// Receive a message. A line without data is a timeout.
    fn read_packets(&mut self, max_payload_size: usize) -> Result<Packets, Error> {
        let mut reader = MessageReader::new(max_payload_size);
        loop {
            let space = match reader.space() {
                Some(space) => space,
                None => {
                    self.bytes.clear();
                    return Err(reader.overflow(Ok(())));
                }
            };
            if self.bytes.is_empty() {
                return Err(Error::TimeoutElapsed);
            }
            let size = space.min(self.portion).min(self.bytes.len());
            let bytes: Vec<u8> = self.bytes.drain(..size).collect();
            if let Some(result) = reader.receive(&bytes) {
                return result;
            }
        }
    }
}

fn expect(result: Result<Packets, Error>) -> Packets {
    match result {
        Ok(packets) => packets,
        Err(error) => panic!("{error:?}"),
    }
}

#[test]
fn scan_finds_preamble_at_start() {
    let input = [0x00, 0xFF, 0xFF, 0x01, 0xAA, 0xBB, 0xCC, 0xDD];
    assert!(scan_preamble_start(&input) == 0);
}

#[test]
fn scan_finds_preamble_after_garbage() {
    let input = [0xAA, 0xBB, 0x00, 0xFF, 0xFF, 0x01, 0xCC, 0xDD];
    assert!(scan_preamble_start(&input) == 2);
}

#[test]
fn scan_finds_partial_preamble_at_end() {
    // Only first 2 bytes of preamble at the end, still a valid start.
    let input = [0xAA, 0xBB, 0xCC, 0xDD, 0xEE, 0xFF, 0x00, 0xFF];
    assert!(scan_preamble_start(&input) == 6);
}

#[test]
fn scan_returns_length_for_no_match() {
    let input = [0xAA, 0xBB, 0xCC, 0xDD, 0xEE, 0xFF, 0x11, 0x22];
    assert!(scan_preamble_start(&input) == input.len());
    assert!(scan_preamble_start(&[]) == 0);
}

#[test]
fn read_skips_garbage_before_preamble() {
    for portion in [1, 2, 3, 5, 7, 1000] {
        let mut line = Line::new(portion);
        let message = message_with(&[b"data"]);

        // Write garbage followed by a valid message.
        line.write_all(b"garbage!");
        line.write_all(&message);

        let packets = expect(line.read_packets(MAX_PAYLOAD_SIZE));
        assert!(packets.to_vec() == &[b"data".as_slice()]);
    }
}

#[test]
fn read_skips_partial_preamble_in_garbage() {
    for portion in [1, 2, 3, 5, 7, 1000] {
        let mut line = Line::new(portion);
        let message = message_with(&[b"ok"]);

        // Write a partial preamble (first 2 bytes) as garbage, then a valid message.
        line.write_all(&PREAMBLE[..2]);
        line.write_all(&message);

        let packets = expect(line.read_packets(MAX_PAYLOAD_SIZE));
        assert!(packets.to_vec() == &[b"ok".as_slice()]);
    }
}

#[test]
fn read_rejects_oversized_payload() {
    for portion in [1, 2, 3, 5, 7, 1000] {
        let mut line = Line::new(portion);

        let message = message_with(&[b"very big"]);
        let max_payload_size = 7; // Smaller than "very big".

        line.write_all(&message);

        let result = line.read_packets(max_payload_size);
        assert!(matches!(result, Err(Error::BufferFull { max_payload_size: 7 })));
    }
}

/// Receive a message from a line on which no data arrives.
async fn read_from_silent_line(max_payload_size: usize) -> Result<Packets, Error> {
    let mut reader = MessageReader::new(max_payload_size);
    loop {
        if reader.space().is_none() {
            return Err(reader.overflow(Ok(())));
        }
        let bytes = std::future::pending::<Vec<u8>>().await;
        if let Some(result) = reader.receive(&bytes) {
            return result;
        }
    }
}

#[test]
fn read_times_out_on_no_data() {
    let runtime = tokio::runtime::Builder::new_current_thread().enable_time().build().unwrap();
    let result = runtime.block_on(async {
        let timeout = std::time::Duration::from_millis(50);
        match tokio::time::timeout(timeout, read_from_silent_line(MAX_PAYLOAD_SIZE)).await {
            Ok(result) => result,
            Err(elapsed) => Err(Error::from(elapsed)),
        }
    });
    let error = match result {
        Ok(_) => panic!("there is no message"),
        Err(error) => error,
    };
    assert!(matches!(error, Error::TimeoutElapsed));
    assert_eq!(error.message(), "timeout elapsed");
}

#[test]
fn roundtrip_empty_message() {
    let mut line = Line::new(4);
    line.send_packets(&[], MAX_PAYLOAD_SIZE).unwrap();
    assert_eq!(line.bytes, [0x00, 0xFF, 0xFF, 0x01, 0x01, 0x00]);

    let packets = expect(line.read_packets(MAX_PAYLOAD_SIZE));
    assert!(packets.is_empty());
}

#[test]
fn roundtrip_single_packet() {
    let mut line = Line::new(4);
    line.send_packets(&encode_packets(&[b"roundtrip"]), MAX_PAYLOAD_SIZE).unwrap();

    let packets = expect(line.read_packets(MAX_PAYLOAD_SIZE));
    assert!(packets.to_vec() == &[b"roundtrip"]);
}

#[test]
fn roundtrip_multiple_packets() {
    let mut line = Line::new(4);
    line.send_packets(&encode_packets(&[b"alpha", b"beta", b"gamma"]), MAX_PAYLOAD_SIZE).unwrap();

    let packets = expect(line.read_packets(MAX_PAYLOAD_SIZE));
    assert!(packets.to_vec() == &["alpha".as_bytes(), "beta".as_bytes(), "gamma".as_bytes()]);
}

#[test]
fn roundtrip_two_consecutive_messages() {
    let mut line = Line::new(4);

    line.send_packets(&encode_packets(&[b"first"]), MAX_PAYLOAD_SIZE).unwrap();
    let packets = expect(line.read_packets(MAX_PAYLOAD_SIZE));
    assert!(packets.to_vec() == &[b"first"]);

    line.send_packets(&encode_packets(&[b"second"]), MAX_PAYLOAD_SIZE).unwrap();
    let packets = expect(line.read_packets(MAX_PAYLOAD_SIZE));
    assert!(packets.to_vec() == &[b"second"]);
}

#[test]
fn recovery_after_garbage_between_messages() {
    let mut line = Line::new(4);

    // Send a valid message, then garbage, then another valid message.
    line.send_packets(&encode_packets(&[b"first"]), MAX_PAYLOAD_SIZE).unwrap();
    let packets = expect(line.read_packets(MAX_PAYLOAD_SIZE));
    assert!(packets.to_vec() == &[b"first"]);

    line.write_all(b"GARBAGE");
    line.send_packets(&encode_packets(&[b"second"]), MAX_PAYLOAD_SIZE).unwrap();
    let packets = expect(line.read_packets(MAX_PAYLOAD_SIZE));
    assert!(packets.to_vec() == &[b"second"]);
}

#[test]
fn roundtrip_long_payloads() {
    // Runs around the longest run of the encoding, with and without zero bytes.
    for len in [1, 250, 251, 252, 253, 254, 255, 256, 505, 510] {
        for fill in [0x00, 0x01, 0xFF] {
            let packet = vec![fill; len];
            let payload = encode_packets(&[&packet]);
            let mut line = Line::new(100);
            line.send_packets(&payload, MAX_PAYLOAD_SIZE).unwrap();
            assert_eq!(line.bytes.iter().filter(|&&x| x == 0).count(), 2);
            let packets = expect(line.read_packets(MAX_PAYLOAD_SIZE));
            assert!(packets.to_vec() == &[packet.as_slice()]);
        }
    }
}

#[test]
fn message_bytes_are_exact() {
    let message = encode_message(&encode_packets(&[b"hi"]), 4).unwrap();
    assert_eq!(message, [0x00, 0xFF, 0xFF, 0x01, 0x02, 0x02, 0x03, b'h', b'i', 0x00]);
    assert_eq!(message, message_with(&[b"hi"]));
    assert_eq!(frame(&[0x01, 0x00]), [0x00, 0xFF, 0xFF, 0x01, 0x01, 0x00]);
}

#[test]
fn send_rejects_oversized_payload() {
    let error = encode_message(&[0; 8], 7).unwrap_err();
    assert!(matches!(error, Error::MessagePayloadTooLarge { actual: 8, max_payload_size: 7 }));
    assert_eq!(error.message(), "message payload too large: 8 bytes, maximum allowed is 7");
    assert!(encode_message(&[0; 7], 7).is_ok());
    assert!(matches!(
        MessageWriter::new(&[0; 8], 7),
        Err(Error::MessagePayloadTooLarge { actual: 8, max_payload_size: 7 })
    ));
}

#[test]
fn receive_buffer_has_space_for_the_preamble() {
    assert_eq!(MessageReader::new(0).space(), Some(6));
    assert_eq!(MessageReader::new(7).space(), Some(13));
    assert_eq!(MessageReader::new(254).space(), Some(260));
    assert_eq!(MessageReader::new(255).space(), Some(262));
}

#[test]
fn payload_of_the_maximum_size_is_received() {
    let bytes = [0x00, 0xFF, 0xFF, 0x01, 2, 5, 6, b'h', b'e', b'l', b'l', b'o', 0x00];
    for portion in [1, 2, 3, 5, 7, 1000] {
        let mut line = Line::new(portion);
        line.write_all(&bytes);
        assert!(expect(line.read_packets(7)).to_vec() == &[b"hello"]);
    }

    let mut line = Line::new(1000);
    line.send_packets(&encode_packets(&[b"hello"]), 7).unwrap();
    assert_eq!(line.bytes, bytes);

    for len in [0, 1, 2, 250, 251, 252, 253, 254, 255, 300, 505, 506, 507] {
        for fill in [0x00, 0x55] {
            let payload = encode_packets(&[&vec![fill; len]]);
            let mut line = Line::new(100);
            line.send_packets(&payload, payload.len()).unwrap();
            assert!(expect(line.read_packets(payload.len())).to_vec() == &[vec![fill; len].as_slice()]);
        }
    }
}

#[test]
fn message_beyond_the_receive_buffer_is_refused() {
    // The encoding of 8 bytes takes 10 bytes, one more than that of 7 bytes.
    let mut line = Line::new(1000);
    line.send_packets(&encode_packets(&[b"hello!"]), 8).unwrap();
    assert_eq!(line.bytes.len(), 14);
    assert!(matches!(line.read_packets(7), Err(Error::BufferFull { max_payload_size: 7 })));
}

#[test]
fn oversized_payload_is_refused_though_its_message_fits() {
    // Zero bytes make for a short encoding: this message takes no more bytes than the receive buffer has.
    for (max_payload_size, size) in [(301, 302), (1032, 1034), (1032, 1036), (1271, 1272)] {
        for portion in [1, 100, 10000] {
            let payload = vec![0; size];
            let mut line = Line::new(portion);
            line.send_packets(&payload, size).unwrap();
            assert!(line.bytes.len() <= MessageReader::new(max_payload_size).space().unwrap());
            match line.read_packets(max_payload_size) {
                Err(Error::BufferFull { max_payload_size: max }) => assert_eq!(max, max_payload_size),
                _ => panic!("the payload is too large"),
            }
        }
    }

    let mut line = Line::new(100);
    line.send_packets(&[0; 300], 301).unwrap();
    assert_eq!(expect(line.read_packets(301)).to_vec(), vec![b"".as_slice(); 150]);

    // The size is checked before the packets.
    let result = finish_message(Ok(vec![5, 0, 1]), 2);
    assert!(matches!(result, Err(Error::BufferFull { max_payload_size: 2 })));
    let result = finish_message(Ok(vec![1, 0, 9]), 2);
    assert!(matches!(result, Err(Error::BufferFull { max_payload_size: 2 })));
}

#[test]
fn encoding_of_long_runs_is_exact() {
    let encoded = |payload: &[u8]| encode_message(payload, payload.len()).unwrap()[4..].to_vec();

    // A run of the maximum size at the end.
    let run = vec![7; 254];
    assert_eq!(encoded(&run), [&[255], run.as_slice(), &[0]].concat());
    // A run of the maximum size, and a zero byte after it.
    assert_eq!(encoded(&[run.as_slice(), &[0]].concat()), [&[255], run.as_slice(), &[1, 1, 0]].concat());
    // A run of the maximum size, and more of it.
    assert_eq!(encoded(&[run.as_slice(), &[7]].concat()), [&[255], run.as_slice(), &[2, 7, 0]].concat());
    // A run of one byte less, and a zero byte after it.
    assert_eq!(encoded(&[&run[..253], &[0]].concat()), [&[254], &run[..253], &[1, 0]].concat());
    assert_eq!(encoded(&[]), [1, 0]);
    assert_eq!(encoded(&[0, 0]), [1, 1, 1, 0]);
}

#[test]
fn portions_do_not_matter() {
    let mut stream = b"noise\x00\xFF\xFF".to_vec();
    stream.extend_from_slice(&message_with(&[b"one", b"two"]));
    stream.extend_from_slice(b"more noise");
    for portion in 1..stream.len() {
        let mut line = Line::new(portion);
        line.write_all(&stream);
        assert!(expect(line.read_packets(100)).to_vec() == &[b"one", b"two"]);
    }
}

#[test]
fn incomplete_stuffing_is_refused() {
    let mut line = Line::new(1000);
    // The run is announced with five bytes, but the message ends after two.
    line.write_all(&[0x00, 0xFF, 0xFF, 0x01, 0x06, 0x01, 0x02, 0x00]);
    let error = match line.read_packets(100) {
        Ok(_) => panic!("the message is incomplete"),
        Err(error) => error,
    };
    assert!(matches!(error, Error::InvalidMessagePayload { reason: "incomplete COBS payload" }));
    assert_eq!(error.message(), "invalid message payload: incomplete COBS payload");

    let result = finish_message(Err(CobsFailure::Truncated), 100);
    assert!(matches!(result, Err(Error::InvalidMessagePayload { reason: "incomplete COBS payload" })));
}

#[test]
fn damaged_packet_list_is_refused() {
    let mut line = Line::new(1000);
    let mut message = PREAMBLE.to_vec();
    corncobs::encode(&[5, 0, 1], &mut message);
    line.write_all(&message);
    let result = line.read_packets(100);
    assert!(matches!(result, Err(Error::InvalidMessagePayload { reason: "missing packet data" })));

    let result = finish_message(Ok(vec![5, 0, 1]), 100);
    assert!(matches!(result, Err(Error::InvalidMessagePayload { reason: "missing packet data" })));
    assert!(expect(finish_message(Ok(vec![1, 0, 9]), 3)).to_vec() == &[[9]]);
}

#[test]
fn message_that_ends_at_once_has_no_packets() {
    let mut line = Line::new(1000);
    line.write_all(&[0x00, 0xFF, 0xFF, 0x01, 0x00]);
    assert!(expect(line.read_packets(100)).is_empty());
}

#[test]
fn read_of_no_bytes_is_an_error() {
    let mut reader = MessageReader::new(100);
    assert!(reader.receive(b"\x00\xFF").is_none());
    let error = match reader.receive(b"") {
        Some(Err(error)) => error,
        _ => panic!("no bytes were read"),
    };
    assert!(matches!(error, Error::SerialPort(SerialError::UnexpectedEof)));
    assert_eq!(error.message(), "I/O error on serial port: unexpected end of file");
}

#[test]
fn write_of_no_bytes_is_an_error() {
    let mut writer = match MessageWriter::new(&[1, 0, 7], 100) {
        Ok(writer) => writer,
        Err(error) => panic!("{error:?}"),
    };
    assert!(writer.advance(3).is_ok());
    assert_eq!(writer.remaining(), [0x01, 0x02, 0x01, 0x02, 0x07, 0x00]);
    assert!(matches!(writer.advance(0), Err(Error::SerialPort(SerialError::UnexpectedEof))));
    assert!(writer.advance(6).is_ok());
    assert!(writer.remaining().is_empty());
}

#[test]
fn overflow_reports_a_failure_to_discard() {
    let reader = MessageReader::new(9);
    assert!(matches!(reader.overflow(Ok(())), Error::BufferFull { max_payload_size: 9 }));
    let error = reader.overflow(Err(SerialError::Io("gone".to_string())));
    assert_eq!(error.message(), "I/O error on serial port: gone");
    assert_eq!(
        reader.overflow(Ok(())).message(),
        "incoming message too large: receive buffer is already full (9 bytes)"
    );
}

#[test]
fn encodable_sizes() {
    assert!(can_encode(0));
    assert!(can_encode(1 << 20));
    assert!(!can_encode(usize::MAX));
    assert!(!can_encode(isize::MAX as usize));
}

#[test]
fn default_size_carries_two_packets() {
    for mtu in [64usize, 120, 125, 126, 127, 252, 512, 1500] {
        let packet = vec![0x55; mtu];
        for max_payload_size in [
            turnip::options::check_mtu_message_size(mtu as u16, None).unwrap(),
            2 * (mtu + 2),
        ] {
            let mut line = Line::new(100);
            line.send_packets(&encode_packets(&[&packet, &packet]), max_payload_size).unwrap();
            assert!(expect(line.read_packets(max_payload_size)).to_vec() == &[packet.as_slice(), packet.as_slice()]);
        }
    }

    let packet = vec![0x55; turnip::DEFAULT_MTU as usize];
    let mut line = Line::new(100);
    line.send_packets(&encode_packets(&[&packet, &packet]), turnip::DEFAULT_MAX_PAYLOAD_SIZE).unwrap();
    let packets = expect(line.read_packets(turnip::DEFAULT_MAX_PAYLOAD_SIZE));
    assert!(packets.to_vec() == &[packet.as_slice(), packet.as_slice()]);
}

#[test]
fn smallest_size_carries_a_full_packet() {
    for mtu in [64u16, 126, 252, 512, 1500] {
        let max_payload_size = mtu as usize + 2;
        assert_eq!(turnip::options::check_mtu_message_size(mtu, Some(max_payload_size)), Ok(max_payload_size));
        let packet = vec![0x55; mtu as usize];
        let mut line = Line::new(100);
        line.send_packets(&encode_packets(&[&packet]), max_payload_size).unwrap();
        assert!(expect(line.read_packets(max_payload_size)).to_vec() == &[packet.as_slice()]);
    }
}
