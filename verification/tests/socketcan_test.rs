use rust_can::bus::RecvOutcome;
use rust_can::relay::SubscriberOptions;
use rust_can::socketcan::{
    build_can_id, classic_frame, fd_frame, interface_name, parse_classic_frame, parse_fd_frame,
    parse_read, CanFdFrame, OpenAction, Opening, RawFrame, ReadEvent, ReaderStep, SocketCanBus,
    CAN_FD_FRAME_SIZE, CAN_FRAME_SIZE,
};
use rust_can::{Error, Filter, Frame};

#[test]
fn marks_of_a_raw_identifier() {
    let f = Frame {
        id: 0x1234_5678,
        ext: true,
        rtr: true,
        ..Default::default()
    };
    assert_eq!(build_can_id(&f), 0xD234_5678);
}

#[test]
fn a_classic_frame_survives_its_raw_form() {
    let f = Frame {
        id: 0x123,
        rtr: true,
        data: vec![1, 2, 3],
        ..Default::default()
    };
    let raw = classic_frame(&f);
    assert_eq!(raw.can_dlc, 3);
    assert_eq!(raw.data, [1, 2, 3, 0, 0, 0, 0, 0]);
    assert_eq!(parse_classic_frame(&raw), f);
}

#[test]
fn an_fd_frame_survives_its_raw_form() {
    let f = Frame {
        id: 0x1FFF_FFFF,
        ext: true,
        fd: true,
        brs: true,
        esi: true,
        data: vec![7; 48],
        ..Default::default()
    };
    let raw = fd_frame(&f);
    assert_eq!((raw.len, raw.flags), (48, 3));
    assert_eq!(parse_fd_frame(&raw), f);
    assert_eq!(parse_read(&raw, CAN_FD_FRAME_SIZE), f);
}

#[test]
fn a_short_read_is_a_classic_frame() {
    let mut data = [0u8; 64];
    data[0] = 9;
    let raw = CanFdFrame {
        can_id: 0x7FF,
        len: 200,
        flags: 3,
        data,
    };
    let f = parse_read(&raw, CAN_FRAME_SIZE);
    assert!(!f.fd && !f.brs);
    assert_eq!(f.data, vec![9, 0, 0, 0, 0, 0, 0, 0]);
}

#[test]
fn interface_names() {
    assert_eq!(interface_name("vcan0").unwrap(), b"vcan0\0\0\0\0\0\0\0\0\0\0\0");
    assert_eq!(
        interface_name("averyveryverylongname").unwrap(),
        b"averyveryverylon"
    );
    match interface_name("a\0b") {
        Err(Error::Other(text)) => assert_eq!(text, "invalid interface name"),
        other => panic!("expected an error, got {:?}", other),
    }
}

#[test]
fn a_socket_opens_step_by_step() {
    let (mut opening, first) = Opening::new("vcan0");
    assert!(matches!(first, OpenAction::CreateSocket));
    assert!(matches!(opening.on_result(true), OpenAction::LookUp(_)));
    assert!(matches!(opening.on_result(true), OpenAction::Bind));
    assert!(matches!(opening.on_result(true), OpenAction::EnableFd));
    assert!(matches!(opening.on_result(false), OpenAction::Register));
    match opening.on_result(true) {
        OpenAction::Ready(mut bus) => {
            let sub = bus.subscribe(vec![], SubscriberOptions::default()).unwrap();
            let raw = fd_frame(&Frame {
                id: 1,
                fd: true,
                data: vec![1; 12],
                ..Default::default()
            });
            bus.on_read(ReadEvent::Bytes(CAN_FD_FRAME_SIZE, raw), 0);
            match bus.recv(sub) {
                RecvOutcome::Got(f) => assert!(!f.fd && f.data.len() == 8),
                other => panic!("expected a frame, got {:?}", other),
            }
        }
        other => panic!("expected the bus, got {:?}", other),
    }
}

#[test]
fn failures_while_opening() {
    let (mut o, _) = Opening::new("vcan0");
    assert!(matches!(
        o.on_result(false),
        OpenAction::Failed {
            close: false,
            error: None
        }
    ));
    let (mut o, _) = Opening::new("bad\0name");
    assert!(matches!(
        o.on_result(true),
        OpenAction::Failed { error: Some(_), .. }
    ));
    let (mut o, _) = Opening::new("vcan0");
    o.on_result(true);
    o.on_result(true);
    assert!(matches!(
        o.on_result(false),
        OpenAction::Failed {
            close: true,
            error: None
        }
    ));
}

#[test]
fn what_a_bus_writes() {
    let bus = SocketCanBus::new(true);
    assert!(matches!(
        bus.send(&Frame::default()),
        Ok(RawFrame::Classic(_))
    ));
    assert!(matches!(
        bus.send(&Frame {
            fd: true,
            ..Default::default()
        }),
        Ok(RawFrame::Fd(_))
    ));
    assert!(matches!(
        bus.send(&Frame {
            id: 0x800,
            ..Default::default()
        }),
        Err(Error::InvalidFrame { .. })
    ));
}

#[test]
fn the_reader_stops_with_the_bus() {
    let mut bus = SocketCanBus::new(true);
    let sub = bus.subscribe(vec![], SubscriberOptions::default()).unwrap();
    assert_eq!(bus.on_read(ReadEvent::WouldBlock, 0), ReaderStep::Again);
    bus.close();
    bus.close();
    assert!(matches!(bus.recv(sub), RecvOutcome::Ended));
    assert_eq!(bus.on_read(ReadEvent::WouldBlock, 0), ReaderStep::Stop);
    assert!(matches!(bus.send(&Frame::default()), Err(Error::Closed)));
    assert!(matches!(
        bus.subscribe(vec![], SubscriberOptions::default()),
        Err(Error::Closed)
    ));
}

#[test]
fn a_failed_read_ends_subscriptions() {
    let mut bus = SocketCanBus::new(true);
    let sub = bus.subscribe(vec![], SubscriberOptions::default()).unwrap();
    assert_eq!(bus.on_read(ReadEvent::Failed, 0), ReaderStep::Stop);
    assert!(matches!(bus.recv(sub), RecvOutcome::Ended));
    assert_eq!(
        SocketCanBus::new(false).on_read(ReadEvent::Lost, 0),
        ReaderStep::Stop
    );
}

#[test]
fn a_classic_frame_in_the_room_for_an_fd_frame() {
    let f = Frame {
        id: 0x123,
        data: vec![1, 2, 3],
        ..Default::default()
    };
    let raw = classic_frame(&f);
    let mut data = [0xEEu8; 64];
    data[..8].copy_from_slice(&raw.data);
    let room = CanFdFrame {
        can_id: raw.can_id,
        len: raw.can_dlc,
        flags: 0,
        data,
    };
    let mut bus = SocketCanBus::new(true);
    let stays = bus.subscribe(vec![], SubscriberOptions::default()).unwrap();
    let leaves = bus.subscribe(vec![], SubscriberOptions::default()).unwrap();
    bus.unsubscribe(leaves);
    bus.on_read(ReadEvent::Bytes(CAN_FRAME_SIZE, room), 0);
    match bus.recv(stays) {
        RecvOutcome::Got(g) => assert_eq!(g, f),
        other => panic!("expected a frame, got {:?}", other),
    }
    assert!(matches!(bus.recv(leaves), RecvOutcome::Ended));
}

#[test]
fn a_filtered_subscription_gets_only_matches() {
    let mut bus = SocketCanBus::new(false);
    let all = bus.subscribe(vec![], SubscriberOptions::default()).unwrap();
    let some = bus
        .subscribe(
            vec![
                Filter {
                    id: 0x100,
                    mask: 0x7FF,
                },
                Filter {
                    id: 0x200,
                    mask: 0x700,
                },
            ],
            SubscriberOptions::default(),
        )
        .unwrap();
    for id in [0x100u32, 0x101, 0x2AB, 0x300] {
        let raw = classic_frame(&Frame {
            id,
            data: vec![1],
            ..Default::default()
        });
        let mut data = [0u8; 64];
        data[..8].copy_from_slice(&raw.data);
        let room = CanFdFrame {
            can_id: raw.can_id,
            len: raw.can_dlc,
            flags: 0,
            data,
        };
        assert_eq!(
            bus.on_read(ReadEvent::Bytes(CAN_FRAME_SIZE, room), 0),
            ReaderStep::Again
        );
    }
    bus.close();
    for (sub, ids) in [
        (all, vec![0x100u32, 0x101, 0x2AB, 0x300]),
        (some, vec![0x100u32, 0x2AB]),
    ] {
        for id in ids {
            match bus.recv(sub) {
                RecvOutcome::Got(f) => assert_eq!(f.id, id),
                other => panic!("expected a frame, got {:?}", other),
            }
        }
        assert!(matches!(bus.recv(sub), RecvOutcome::Ended));
    }
}
