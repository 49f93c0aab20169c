use rust_can::bus::RecvOutcome;
use rust_can::j1939::{
    decode_id, encode_id, J1939Bus, J1939Frame, J1939Receiver, Pgn, Priority, BROADCAST_ADDR,
    NULL_ADDR,
};
use rust_can::relay::SubscriberOptions;
use rust_can::virtual_bus::VirtualBus;
use rust_can::{validate_frame, Bus, Frame};

#[test]
fn decode_peer_to_peer() {
    let id: u32 = (6 << 26) | (0xEC << 16) | 0x01;
    let (priority, pgn, src) = decode_id(id);
    assert_eq!(priority.value(), 6);
    assert!(pgn.is_peer_to_peer());
    assert_eq!(src, 0x01);
}

#[test]
fn decode_broadcast() {
    let id: u32 = (6 << 26) | (0xFE << 16) | 0x01;
    let (priority, pgn, src) = decode_id(id);
    assert_eq!(priority.value(), 6);
    assert!(!pgn.is_peer_to_peer());
    assert_eq!(src, 0x01);
}

#[test]
fn encode_decode_roundtrip_broadcast() {
    let priority = Priority(3);
    let pgn = Pgn(0x0FE00);
    let src = 0x22;
    let dst = BROADCAST_ADDR;

    let id = encode_id(priority, pgn, src, dst);
    let (p2, pgn2, src2) = decode_id(id);

    assert_eq!(p2.value(), 3);
    assert_eq!(pgn2, pgn);
    assert_eq!(src2, src);
}

#[test]
fn encode_decode_roundtrip_peer() {
    let priority = Priority(6);
    let pgn = Pgn(0x0EC00);
    let src = 0x10;
    let dst = 0x20;

    let id = encode_id(priority, pgn, src, dst);
    let (p2, pgn2, src2) = decode_id(id);

    assert_eq!(p2.value(), 6);
    assert_eq!(pgn2, pgn);
    assert_eq!(src2, src);
    assert_eq!(((id >> 8) & 0xFF) as u8, dst);
}

fn next(bus: &mut VirtualBus, sub: usize, rx: &J1939Receiver) -> Option<J1939Frame> {
    while let RecvOutcome::Got(f) = bus.recv(sub) {
        if let Some(m) = rx.recv(f) {
            return Some(m);
        }
    }
    None
}

#[test]
fn send_and_receive_j1939() {
    let mut bus = VirtualBus::new();
    let j_bus = J1939Bus::new(0x01);
    let sub = bus.subscribe(vec![], SubscriberOptions::default()).unwrap();
    let rx = j_bus.subscribe(vec![]);

    let frame = J1939Frame {
        priority: Priority(6),
        pgn: Pgn(0x0FEF1),
        src: 0x01,
        dst: BROADCAST_ADDR,
        data: vec![1, 2, 3],
    };

    bus.send(0, j_bus.send(frame)).unwrap();

    let received = next(&mut bus, sub, &rx).unwrap();
    assert_eq!(received.data, vec![1, 2, 3]);
}

#[test]
fn pgn_filter_works() {
    let mut bus = VirtualBus::new();
    let j_bus = J1939Bus::new(0x01);
    let wanted_pgn = Pgn(0x0FEF1);
    let other_pgn = Pgn(0x0FEF2);
    let sub = bus.subscribe(vec![], SubscriberOptions::default()).unwrap();
    let rx = j_bus.subscribe(vec![wanted_pgn]);

    let other_frame = J1939Frame {
        priority: Priority::default(),
        pgn: other_pgn,
        src: 0x01,
        dst: BROADCAST_ADDR,
        data: vec![0xFF],
    };
    bus.send(0, j_bus.send(other_frame)).unwrap();

    let wanted_frame = J1939Frame {
        priority: Priority::default(),
        pgn: wanted_pgn,
        src: 0x01,
        dst: BROADCAST_ADDR,
        data: vec![0xAB],
    };
    bus.send(0, j_bus.send(wanted_frame)).unwrap();

    let received = next(&mut bus, sub, &rx).unwrap();
    assert_eq!(received.pgn, wanted_pgn);
    assert_eq!(received.data, vec![0xAB]);
}

#[test]
fn an_identifier_of_the_standard() {
    assert_eq!(
        encode_id(Priority(3), Pgn(0xF004), 0x00, BROADCAST_ADDR),
        0x0CF0_0400
    );
    assert_eq!(encode_id(Priority(6), Pgn(0xEA00), 0xF9, 0xFF), 0x18EA_FFF9);
    assert_eq!(Priority::default().value(), 6);
    assert_eq!(Priority::from(9).value(), 1);
    assert_eq!(NULL_ADDR, 0xFE);
}

#[test]
fn decoding_then_encoding_gives_the_identifier_back() {
    for id in [0x0CF0_0400u32, 0x18EA_FFF9, 0x18FE_F122] {
        let (p, g, s) = decode_id(id);
        let dst = ((id >> 8) & 0xFF) as u8;
        assert_eq!(encode_id(p, g, s, dst), id);
    }
}

#[test]
fn a_node_sends_under_its_own_address() {
    let f = J1939Bus::new(0x42).send(J1939Frame {
        priority: Priority(6),
        pgn: Pgn(0xFEF1),
        src: 0x01,
        dst: BROADCAST_ADDR,
        data: vec![],
    });
    assert_eq!(f.id & 0xFF, 0x42);
    assert!(f.ext && validate_frame(&f).is_ok());
}

#[test]
fn a_standard_frame_is_no_message() {
    let rx = J1939Bus::new(1).subscribe(vec![]);
    assert!(rx.recv(Frame::default()).is_none());
    assert!(Pgn(0xFEF1).to_string().contains("FEF1"));
}

#[test]
fn a_clone_is_the_same_message() {
    let sent = J1939Frame {
        priority: Priority(6),
        pgn: Pgn(0xFECA),
        src: 0x21,
        dst: BROADCAST_ADDR,
        data: vec![1, 2, 3],
    };
    let copy = sent.clone();
    assert_eq!(copy.priority, sent.priority);
    assert_eq!(copy.pgn, sent.pgn);
    assert_eq!((copy.src, copy.dst), (sent.src, sent.dst));
    assert_eq!(copy.data, sent.data);
}
