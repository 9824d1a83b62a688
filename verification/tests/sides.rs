use std::time::Duration;

use turnip::buffer::PacketBuffer;
use turnip::controller::{Controller, ControllerRun};
use turnip::error::{Error, SerialError};
use turnip::link::{Action, Event, Phase};
use turnip::packets::Packets;
use turnip::protocol::{encode_message, MessageReader};
use turnip::worker::{Worker, WorkerRun};
use turnip::{DEFAULT_MAX_PAYLOAD_SIZE, DEFAULT_MTU};

fn message(payload: &[u8]) -> Packets {
    match Packets::from_payload(payload.to_vec()) {
        Ok(packets) => packets,
        Err(error) => panic!("{error:?}"),
    }
}

/// Start a controller that sends payloads of up to the given size.
fn start_controller(max_payload_size: usize) -> ControllerRun {
    let mut controller = Controller::new();
    controller.set_max_payload_size(max_payload_size);
    controller.start()
}

/// Start a worker that sends payloads of up to the given size.
fn start_worker(max_payload_size: usize) -> WorkerRun {
    let mut worker = Worker::new();
    worker.set_max_payload_size(max_payload_size);
    worker.start()
}

#[test]
fn default_settings() {
    let controller = Controller::new();
    assert_eq!(controller.read_timeout, Duration::from_millis(50));
    assert_eq!(controller.write_timeout, Duration::from_millis(50));
    assert_eq!(controller.poll_timeout, Duration::from_millis(10));
    assert_eq!(controller.max_payload_size, 1028);
    let worker = Worker::new();
    assert_eq!(worker.read_timeout, Duration::from_millis(50));
    assert_eq!(worker.write_timeout, Duration::from_millis(50));
    assert_eq!(worker.max_payload_size, 1028);
    assert_eq!(DEFAULT_MAX_PAYLOAD_SIZE, (DEFAULT_MTU as usize + 2) * 2);
}

#[test]
fn changed_settings() {
    let mut controller = Controller::new();
    controller.set_read_timeout(Duration::from_millis(1));
    controller.set_write_timeout(Duration::from_millis(2));
    controller.set_poll_timeout(Duration::from_millis(3));
    controller.set_max_payload_size(4);
    assert_eq!(controller.read_timeout, Duration::from_millis(1));
    assert_eq!(controller.write_timeout, Duration::from_millis(2));
    assert_eq!(controller.poll_timeout, Duration::from_millis(3));
    assert_eq!(controller.max_payload_size, 4);
    let mut worker = Worker::new();
    worker.set_read_timeout(Duration::from_millis(1));
    worker.set_write_timeout(Duration::from_millis(2));
    worker.set_max_payload_size(4);
    assert_eq!(worker.read_timeout, Duration::from_millis(1));
    assert_eq!(worker.write_timeout, Duration::from_millis(2));
    assert_eq!(worker.max_payload_size, 4);
}

#[test]
fn buffer_holds_the_wire_format() {
    let mut buffer = PacketBuffer::new(10);
    assert!(buffer.is_empty());
    assert_eq!(buffer.space(), Some(8));
    buffer.accept(b"abc");
    assert_eq!(buffer.payload(), b"\x03\x00abc");
    assert_eq!(buffer.space(), Some(3));
    buffer.accept(b"de");
    assert_eq!(buffer.payload(), b"\x03\x00abc\x02\x00de");
    assert_eq!(buffer.space(), None);
    assert!(!buffer.is_empty());
    buffer.clear();
    assert!(buffer.is_empty());
    assert_eq!(buffer.space(), Some(8));
    assert_eq!(PacketBuffer::new(1).space(), None);
}

#[test]
fn extremely_large_packet_is_dropped() {
    let mut buffer = PacketBuffer::new(200_000);
    buffer.accept(&vec![1; 65536]);
    assert!(buffer.is_empty());
    buffer.accept(&vec![1; 65535]);
    assert_eq!(buffer.payload().len(), 65537);
    assert_eq!(buffer.payload()[..2], [0xFF, 0xFF]);
}

#[test]
fn controller_polls_with_an_empty_list() {
    let mut run = Controller::new().start();
    assert!(matches!(run.action(), Action::Receive { space: 1026 }));
    run.handle(Event::Idle);
    assert!(matches!(run.action(), Action::Send { payload: [] }));
    run.handle(Event::Sent);
    assert!(matches!(run.action(), Action::Read));
}

#[test]
fn controller_round() {
    let mut run = Controller::new().start();
    run.handle(Event::Packet(b"one"));
    assert!(matches!(run.action(), Action::QueryMtu));
    run.handle(Event::Mtu(512));
    assert!(matches!(run.action(), Action::TryReceive { space: 1021 }));
    run.handle(Event::Packet(b"two"));
    assert!(matches!(run.action(), Action::TryReceive { space: 1016 }));
    run.handle(Event::Idle);
    assert!(matches!(run.action(), Action::Send { payload: b"\x03\x00one\x03\x00two" }));
    run.handle(Event::Sent);
    assert!(matches!(run.action(), Action::Read));
    run.handle(Event::Received(message(b"\x01\x00a\x01\x00b")));
    assert!(matches!(run.action(), Action::Deliver { packet: b"a" }));
    run.handle(Event::Delivered);
    assert!(matches!(run.action(), Action::Deliver { packet: b"b" }));
    run.handle(Event::Delivered);
    assert!(matches!(run.action(), Action::Receive { space: 1026 }));
}

#[test]
fn controller_stops_collecting_when_no_full_packet_fits() {
    let mut run = start_controller(20);
    assert!(matches!(run.action(), Action::Receive { space: 18 }));
    run.handle(Event::Packet(b"12345678"));
    run.handle(Event::Mtu(9));
    assert!(matches!(run.action(), Action::Send { .. }));

    let mut run = start_controller(20);
    run.handle(Event::Packet(b"12345678"));
    run.handle(Event::Mtu(8));
    assert!(matches!(run.action(), Action::TryReceive { space: 8 }));
    run.handle(Event::Packet(b"12345678"));
    assert!(matches!(run.action(), Action::Send { .. }));
}

#[test]
fn controller_without_buffer_sends_nothing_else() {
    let run = start_controller(1);
    assert!(matches!(run.action(), Action::Send { payload: [] }));
}

#[test]
fn controller_survives_timeouts_and_damage() {
    let mut run = Controller::new().start();
    run.handle(Event::Idle);
    run.handle(Event::Sent);
    run.handle(Event::ReceiveFailed(Error::TimeoutElapsed));
    assert!(!run.alive());
    assert_eq!(run.phase(), Phase::Poll);
    run.handle(Event::Idle);
    run.handle(Event::Sent);
    run.handle(Event::ReceiveFailed(Error::BufferFull { max_payload_size: 7 }));
    assert!(!run.alive());
    assert_eq!(run.phase(), Phase::Poll);
    run.handle(Event::Idle);
    run.handle(Event::Sent);
    run.handle(Event::Received(message(b"")));
    assert!(run.alive());
    assert_eq!(run.phase(), Phase::Poll);
}

#[test]
fn controller_stops_on_permanent_failures() {
    let mut run = Controller::new().start();
    run.handle(Event::Packet(b""));
    assert!(matches!(run.action(), Action::Stop));

    let mut run = Controller::new().start();
    run.handle(Event::InterfaceFailed);
    assert!(matches!(run.action(), Action::Stop));

    let mut run = Controller::new().start();
    run.handle(Event::Idle);
    run.handle(Event::SendFailed);
    assert!(matches!(run.action(), Action::Stop));

    let mut run = Controller::new().start();
    run.handle(Event::Idle);
    run.handle(Event::Sent);
    run.handle(Event::ReceiveFailed(Error::SerialPort(SerialError::UnexpectedEof)));
    assert!(matches!(run.action(), Action::Stop));
}

#[test]
fn worker_only_answers() {
    let mut run = start_worker(100);
    assert!(matches!(run.action(), Action::Read));
    run.handle(Event::ReceiveFailed(Error::TimeoutElapsed));
    assert!(!run.alive());
    assert!(matches!(run.action(), Action::Read));
    run.handle(Event::ReceiveFailed(Error::InvalidMessagePayload { reason: "damaged" }));
    assert!(!run.alive());
    assert!(matches!(run.action(), Action::Read));
    run.handle(Event::Received(message(b"\x01\x00a\x01\x00b")));
    assert!(run.alive());
    assert!(matches!(run.action(), Action::QueryMtu));
    run.handle(Event::Mtu(64));
    assert!(matches!(run.action(), Action::TryReceive { space: 98 }));
    run.handle(Event::Packet(b"x"));
    assert!(matches!(run.action(), Action::TryReceive { space: 95 }));
    run.handle(Event::Idle);
    // The answer is sent before the packets are delivered.
    assert!(matches!(run.action(), Action::Send { payload: b"\x01\x00x" }));
    run.handle(Event::Sent);
    assert!(matches!(run.action(), Action::Deliver { packet: b"a" }));
    run.handle(Event::Delivered);
    assert!(matches!(run.action(), Action::Deliver { packet: b"b" }));
    run.handle(Event::Delivered);
    assert!(matches!(run.action(), Action::Read));
}

#[test]
fn worker_takes_a_first_packet_of_any_size() {
    let mut run = start_worker(20);
    run.handle(Event::Received(message(b"")));
    run.handle(Event::Mtu(512));
    assert!(matches!(run.action(), Action::TryReceive { space: 18 }));
    run.handle(Event::Packet(b"1"));
    assert!(matches!(run.action(), Action::Send { payload: b"\x01\x001" }));
    run.handle(Event::Sent);
    assert_eq!(run.phase(), Phase::Read);

    // The next answer starts without packets.
    run.handle(Event::Received(message(b"")));
    run.handle(Event::Mtu(512));
    run.handle(Event::Idle);
    assert!(matches!(run.action(), Action::Send { payload: [] }));
}

#[test]
fn worker_stops_on_permanent_failures() {
    let mut run = start_worker(100);
    run.handle(Event::ReceiveFailed(Error::SerialPort(SerialError::UnexpectedEof)));
    assert!(matches!(run.action(), Action::Stop));

    let mut run = start_worker(100);
    run.handle(Event::Received(message(b"")));
    run.handle(Event::InterfaceFailed);
    assert!(matches!(run.action(), Action::Stop));

    let mut run = start_worker(100);
    run.handle(Event::Received(message(b"")));
    run.handle(Event::Mtu(64));
    run.handle(Event::Packet(b""));
    assert!(matches!(run.action(), Action::Stop));
}

#[test]
fn worker_payload_is_never_too_large() {
    for max_payload_size in 0..40 {
        let mut run = start_worker(max_payload_size);
        run.handle(Event::Received(message(b"")));
        run.handle(Event::Mtu(3));
        loop {
            let space = match run.action() {
                Action::TryReceive { space } => space,
                _ => break,
            };
            if space == 0 {
                run.handle(Event::Idle);
            } else {
                run.handle(Event::Packet(&vec![7; space.min(5)]));
            }
        }
        match run.action() {
            Action::Send { payload } => {
                assert!(payload.len() <= max_payload_size);
                assert!(encode_message(payload, max_payload_size).is_ok());
            }
            _ => panic!("nothing to send"),
        }
    }
}

#[test]
fn controller_payload_is_never_too_large() {
    for max_payload_size in 2..40 {
        let mut run = start_controller(max_payload_size);
        for _ in 0..3 {
            loop {
                let space = match run.action() {
                    Action::Receive { space } | Action::TryReceive { space } => space,
                    Action::QueryMtu => {
                        run.handle(Event::Mtu(3));
                        continue;
                    }
                    _ => break,
                };
                if space == 0 {
                    run.handle(Event::Idle);
                } else {
                    run.handle(Event::Packet(&vec![7; space.min(5)]));
                }
            }
            match run.action() {
                Action::Send { payload } => {
                    assert!(payload.len() <= max_payload_size);
                    assert!(encode_message(payload, max_payload_size).is_ok());
                }
                _ => panic!("nothing to send"),
            }
            run.handle(Event::Sent);
            run.handle(Event::ReceiveFailed(Error::TimeoutElapsed));
        }
    }
}

#[test]
fn controller_buffer_is_limited() {
    assert!(matches!(start_controller(65534).action(), Action::Receive { space: 65532 }));
    assert!(matches!(start_controller(65535).action(), Action::Receive { space: 65533 }));
    assert!(matches!(start_controller(100_000).action(), Action::Receive { space: 65533 }));
}

#[test]
fn burst_of_packets_is_spread_over_messages() {
    let packets: [&[u8]; 3] = [b"packet one", b"packet two", b"the last 1"];
    let mut waiting = packets.iter();
    let mut run = start_controller(20);
    let mut sent: Vec<Vec<u8>> = Vec::new();
    for _ in 0..4 {
        let received = loop {
            let event = match run.action() {
                Action::Receive { .. } | Action::TryReceive { .. } => match waiting.next() {
                    Some(packet) => Event::Packet(packet),
                    None => Event::Idle,
                },
                Action::QueryMtu => Event::Mtu(10),
                Action::Send { payload } => {
                    assert!(payload.len() <= 20);
                    break message(payload);
                }
                _ => panic!("nothing to send"),
            };
            run.handle(event);
        };
        sent.extend(received.to_vec().iter().map(|packet| packet.to_vec()));
        run.handle(Event::Sent);
        assert!(matches!(run.action(), Action::Read));
        run.handle(Event::Received(message(b"")));
    }
    assert_eq!(sent, packets);
    assert_eq!(run.phase(), Phase::Poll);
}

#[test]
fn worker_sends_packets_in_order() {
    let packets: [&[u8]; 4] = [b"a", b"bc", b"def", b"g"];
    let mut waiting = packets.iter();
    let mut run = start_worker(9);
    let mut sent: Vec<Vec<u8>> = Vec::new();
    for _ in 0..4 {
        run.handle(Event::Received(message(b"")));
        run.handle(Event::Mtu(3));
        while let Action::TryReceive { .. } = run.action() {
            match waiting.next() {
                Some(packet) => run.handle(Event::Packet(packet)),
                None => run.handle(Event::Idle),
            }
        }
        match run.action() {
            Action::Send { payload } => {
                assert!(payload.len() <= 9);
                sent.extend(message(payload).to_vec().iter().map(|packet| packet.to_vec()));
            }
            _ => panic!("nothing to send"),
        }
        run.handle(Event::Sent);
    }
    assert_eq!(sent, packets);
}

#[test]
fn packets_go_through_the_tunnel() {
    let mut controller = Controller::new().start();
    let mut worker = start_worker(100);
    controller.handle(Event::Packet(b"over the line"));
    controller.handle(Event::Mtu(64));
    controller.handle(Event::Idle);
    let sent = match controller.action() {
        Action::Send { payload } => encode_message(payload, 100).unwrap(),
        _ => panic!("nothing to send"),
    };
    controller.handle(Event::Sent);
    let mut reader = MessageReader::new(100);
    match reader.receive(&sent) {
        Some(Ok(packets)) => worker.handle(Event::Received(packets)),
        _ => panic!("no message"),
    }
    worker.handle(Event::Mtu(64));
    worker.handle(Event::Idle);
    worker.handle(Event::Sent);
    assert!(matches!(worker.action(), Action::Deliver { packet: b"over the line" }));
}

/// Do the next piece of work of one side, with `answer` as the outcome of reading.
fn turn(action: &Action<'_>, answer: &[u8]) -> Event<'static> {
    match action {
        Action::Receive { .. } => Event::Packet(b"packet"),
        Action::QueryMtu => Event::Mtu(64),
        Action::TryReceive { .. } => Event::Idle,
        Action::Send { .. } => Event::Sent,
        Action::Read => Event::Received(message(answer)),
        Action::Deliver { .. } => Event::Delivered,
        Action::Stop => panic!("stopped"),
    }
}

#[test]
fn messages_do_not_collide() {
    let mut controller = Controller::new().start();
    let mut worker = start_worker(1028);
    let mut to_worker: Option<Vec<u8>> = None;
    let mut to_controller: Option<Vec<u8>> = None;
    let mut rounds = 0;
    for step in 0..300 {
        assert!(!(controller.phase() == Phase::Send && worker.phase() == Phase::Send));
        // Let the two sides work in an irregular order.
        if step % 7 < 3 || step % 5 == 0 {
            let mut heard = Vec::new();
            if controller.phase() == Phase::Read {
                match to_controller.take() {
                    Some(payload) => heard = payload,
                    None => continue,
                }
            }
            let event = match controller.action() {
                Action::Send { payload } => {
                    assert!(to_worker.is_none() && to_controller.is_none());
                    to_worker = Some(payload.to_vec());
                    Event::Sent
                }
                action => turn(&action, &heard),
            };
            controller.handle(event);
        } else {
            let mut heard = Vec::new();
            if worker.phase() == Phase::Read {
                match to_worker.take() {
                    Some(payload) => heard = payload,
                    None => continue,
                }
            }
            let event = match worker.action() {
                Action::Send { payload } => {
                    assert!(to_worker.is_none() && to_controller.is_none());
                    to_controller = Some(payload.to_vec());
                    rounds += 1;
                    Event::Sent
                }
                action => turn(&action, &heard),
            };
            worker.handle(event);
        }
    }
    assert!(rounds > 3);
}
