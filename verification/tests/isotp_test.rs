use rust_can::bus::RecvOutcome;
use rust_can::isotp::{
    st_min_to_duration, Config, Event, IsoTpConn, RecvNext, SendAction, FC_CTS, FC_OVERFLOW,
    TYPE_CF, TYPE_FC, TYPE_FF,
};
use rust_can::relay::SubscriberOptions;
use rust_can::safety;
use rust_can::time::Duration;
use rust_can::virtual_bus::VirtualBus;
use rust_can::{Bus, Error, Filter, Frame};

fn make_cfg(tx_id: u32, rx_id: u32) -> Config {
    Config {
        tx_id,
        rx_id,
        timeout: Duration::from_millis(100),
        ..Default::default()
    }
}

/// Sends a payload from one end to the other over a virtual bus.
fn transfer(sender_cfg: Config, receiver_cfg: Config, payload: &[u8]) -> Vec<u8> {
    let mut bus = VirtualBus::new();
    let sender = IsoTpConn::new(sender_cfg).unwrap();
    let receiver = IsoTpConn::new(receiver_cfg).unwrap();
    let tx_sub = bus
        .subscribe(vec![sender.rx_filter()], SubscriberOptions::default())
        .unwrap();
    let rx_sub = bus
        .subscribe(vec![receiver.rx_filter()], SubscriberOptions::default())
        .unwrap();

    let (mut tx, first) = sender.send(payload).unwrap();
    let mut rx = receiver.recv();
    bus.send(0, first).unwrap();
    let mut action = tx.on_sent();
    let mut received: Option<Vec<u8>> = None;
    for _ in 0..10_000 {
        while let RecvOutcome::Got(f) = bus.recv(rx_sub) {
            let step = rx.on_event(Event::Received(f));
            if let Some(reply) = step.reply {
                bus.send(0, reply).unwrap();
            }
            match step.next {
                RecvNext::Await => {}
                RecvNext::Done(data) => received = Some(data),
                RecvNext::Failed(e) => panic!("receiver failed: {:?}", e),
            }
        }
        action = match action {
            SendAction::Send(f, _) => {
                bus.send(0, f).unwrap();
                tx.on_sent()
            }
            SendAction::Await => match bus.recv(tx_sub) {
                RecvOutcome::Got(f) => tx.on_event(Event::Received(f)),
                other => panic!("no flow control: {:?}", other),
            },
            SendAction::Done => return received.expect("the receiver is done"),
            SendAction::Failed(e) => panic!("sender failed: {:?}", e),
        };
    }
    panic!("the transfer does not end");
}

#[test]
fn single_frame_send_receive() {
    let payload = b"Hello!!";
    let received = transfer(make_cfg(0x7E0, 0x7E8), make_cfg(0x7E8, 0x7E0), payload);
    assert_eq!(received, payload);
}

#[test]
fn multi_frame_send_receive() {
    let payload: Vec<u8> = (0..20).collect();
    let received = transfer(make_cfg(0x7E0, 0x7E8), make_cfg(0x7E8, 0x7E0), &payload);
    assert_eq!(received, payload);
}

#[test]
fn isotp_single_frame_roundtrip() {
    let payload = b"hello!!";
    let received = transfer(make_cfg(0x7E0, 0x7E8), make_cfg(0x7E8, 0x7E0), payload);
    assert_eq!(received, payload);
}

#[test]
fn isotp_multi_frame_roundtrip() {
    let payload: Vec<u8> = (0u8..=99).collect();
    let received = transfer(make_cfg(0x7E0, 0x7E8), make_cfg(0x7E8, 0x7E0), &payload);
    assert_eq!(received, payload);
}

#[test]
fn blocks_and_extended_identifiers() {
    let payload: Vec<u8> = (0..4095u32).map(|i| (i % 251) as u8).collect();
    let sender = Config {
        ext_ids: true,
        ..make_cfg(0x18DA_F110, 0x18DA_10F1)
    };
    let receiver = Config {
        ext_ids: true,
        block_size: 3,
        st_min: 10,
        ..make_cfg(0x18DA_10F1, 0x18DA_F110)
    };
    assert_eq!(transfer(sender, receiver, &payload), payload);
}

#[test]
fn st_min_decode() {
    assert_eq!(st_min_to_duration(0), Duration::from_millis(0));
    assert_eq!(st_min_to_duration(10), Duration::from_millis(10));
    assert_eq!(st_min_to_duration(127), Duration::from_millis(127));
    assert_eq!(st_min_to_duration(0xF1), Duration::from_micros(100));
    assert_eq!(st_min_to_duration(0xF9), Duration::from_micros(900));
    assert_eq!(st_min_to_duration(0x80), Duration::from_secs(0));
}

#[test]
fn recv_timeout() {
    let cfg = Config {
        tx_id: 0x7E0,
        rx_id: 0x7E8,
        timeout: Duration::from_millis(10),
        ..Default::default()
    };
    assert_eq!(cfg.effective_timeout(), Duration::from_millis(10));
    let conn = IsoTpConn::new(cfg).unwrap();
    let result = conn.recv().on_event(Event::TimedOut);
    assert!(matches!(result.next, RecvNext::Failed(Error::Timeout)));
}

#[test]
fn sec_isotp_timeout_prevents_resource_exhaustion() {
    let cfg = Config {
        tx_id: 0x7E0,
        rx_id: 0x7E8,
        timeout: Duration::from_millis(20),
        ..Default::default()
    };
    assert_eq!(cfg.effective_timeout(), Duration::from_millis(20));
    let conn = IsoTpConn::new(cfg).unwrap();
    let result = conn.recv().on_event(Event::TimedOut);
    assert!(matches!(result.next, RecvNext::Failed(Error::Timeout)));
}

#[test]
fn malformed_flow_control_frame_is_rejected_not_panicking() {
    let mut bus = VirtualBus::new();
    let sender = IsoTpConn::new(make_cfg(0x7E0, 0x7E8)).unwrap();
    let tx_sub = bus
        .subscribe(vec![sender.rx_filter()], SubscriberOptions::default())
        .unwrap();
    let peer_rx = bus
        .subscribe(
            vec![Filter {
                id: 0x7E0,
                mask: 0x7FF,
            }],
            SubscriberOptions::default(),
        )
        .unwrap();

    let payload: Vec<u8> = (0..20).collect();
    let (mut tx, first) = sender.send(&payload).unwrap();
    bus.send(0, first).unwrap();
    assert!(matches!(tx.on_sent(), SendAction::Await));

    let ff = match bus.recv(peer_rx) {
        RecvOutcome::Got(f) => f,
        other => panic!("no first frame: {:?}", other),
    };
    assert_eq!(ff.data[0] & 0xF0, TYPE_FF, "expected a First Frame");

    let bad_fc = Frame {
        id: 0x7E8,
        data: vec![TYPE_FC | FC_CTS],
        ..Default::default()
    };
    bus.send(0, bad_fc).unwrap();
    let fc = match bus.recv(tx_sub) {
        RecvOutcome::Got(f) => f,
        other => panic!("no flow control: {:?}", other),
    };
    let result = tx.on_event(Event::Received(fc));
    assert!(
        matches!(result, SendAction::Failed(Error::Other(_))),
        "expected a protocol error, got {result:?}"
    );
}

#[test]
fn mid_transfer_flow_control_update_is_honored() {
    let sender = IsoTpConn::new(make_cfg(0x7E0, 0x7E8)).unwrap();
    let payload: Vec<u8> = (0..27).collect();
    let fc = |block_size: u8| {
        Event::Received(Frame {
            id: 0x7E8,
            data: vec![TYPE_FC | FC_CTS, block_size, 0],
            ..Default::default()
        })
    };
    let (mut tx, ff) = sender.send(&payload).unwrap();
    assert_eq!(ff.data[0] & 0xF0, TYPE_FF);
    assert!(matches!(tx.on_sent(), SendAction::Await));

    match tx.on_event(fc(1)) {
        SendAction::Send(cf1, _) => assert_eq!(cf1.data[0] & 0xF0, TYPE_CF),
        other => panic!("expected a frame, got {:?}", other),
    }
    assert!(matches!(tx.on_sent(), SendAction::Await));

    match tx.on_event(fc(2)) {
        SendAction::Send(cf2, _) => assert_eq!(cf2.data, vec![0x22, 13, 14, 15, 16, 17, 18, 19]),
        other => panic!("expected a frame, got {:?}", other),
    }
    match tx.on_sent() {
        SendAction::Send(cf3, _) => assert_eq!(cf3.data, vec![0x23, 20, 21, 22, 23, 24, 25, 26]),
        other => panic!("expected a frame, got {:?}", other),
    }
    assert!(matches!(tx.on_sent(), SendAction::Done));
}

#[test]
fn a_separation_time_is_kept() {
    let sender = IsoTpConn::new(make_cfg(0x7E0, 0x7E8)).unwrap();
    let payload: Vec<u8> = (0..20).collect();
    let (mut tx, _) = sender.send(&payload).unwrap();
    tx.on_sent();
    let fc = Frame {
        id: 0x7E8,
        data: vec![TYPE_FC | FC_CTS, 0, 25],
        ..Default::default()
    };
    match tx.on_event(Event::Received(fc)) {
        SendAction::Send(_, delay) => assert_eq!(delay, Duration::from_millis(25)),
        other => panic!("expected a frame, got {:?}", other),
    }
}

#[test]
fn a_peer_without_room_ends_the_transfer() {
    let sender = IsoTpConn::new(make_cfg(0x7E0, 0x7E8)).unwrap();
    let payload: Vec<u8> = (0..20).collect();
    let (mut tx, _) = sender.send(&payload).unwrap();
    tx.on_sent();
    let fc = Frame {
        id: 0x7E8,
        data: vec![TYPE_FC | FC_OVERFLOW, 0, 0],
        ..Default::default()
    };
    assert!(matches!(
        tx.on_event(Event::Received(fc)),
        SendAction::Failed(_)
    ));
}

#[test]
fn payloads_that_cannot_be_sent() {
    let conn = IsoTpConn::new(make_cfg(1, 2)).unwrap();
    assert!(matches!(conn.send(&[]), Err(Error::Other(_))));
    assert!(matches!(
        conn.send(&[0u8; 4096]),
        Err(Error::PayloadTooLarge)
    ));
    assert!(IsoTpConn::new(make_cfg(1, 1)).is_err());
}

#[test]
fn a_wrong_sequence_number_is_refused() {
    let conn = IsoTpConn::new(make_cfg(0x7E8, 0x7E0)).unwrap();
    let mut rx = conn.recv();
    let frame = |data: Vec<u8>| {
        Event::Received(Frame {
            id: 0x7E0,
            data,
            ..Default::default()
        })
    };
    let step = rx.on_event(frame(vec![0x10, 20, 0, 1, 2, 3, 4, 5]));
    assert_eq!(step.reply.unwrap().data[0], TYPE_FC | FC_CTS);
    let step = rx.on_event(frame(vec![0x22, 6, 7, 8, 9, 10, 11, 12]));
    assert!(matches!(step.next, RecvNext::Failed(Error::Other(_))));
}

#[test]
fn a_deadline_shortens_a_wait() {
    let cfg = make_cfg(1, 2);
    assert_eq!(cfg.wait_limit(None), Duration::from_millis(100));
    assert_eq!(
        cfg.wait_limit(Some(Duration::from_millis(30))),
        Duration::from_millis(30)
    );
    assert_eq!(
        cfg.wait_limit(Some(Duration::from_secs(5))),
        Duration::from_millis(100)
    );
    let zero = Config {
        timeout: Duration::from_secs(0),
        ..cfg
    };
    assert_eq!(zero.wait_limit(None), Duration::from_millis(250));
}

#[test]
fn a_protected_message_over_isotp() {
    let ids = safety::Config {
        data_id: 1,
        source_id: 16,
    };
    let mut protector = safety::Protector::new(ids);
    let mut receiver = safety::Receiver::new(ids);
    for payload in [vec![1u8, 2, 3], vec![7u8; 4085]] {
        let message = protector.protect(&payload);
        assert!(message.len() > 8);
        let arrived = transfer(make_cfg(0x7E0, 0x7E8), make_cfg(0x7E8, 0x7E0), &message);
        assert_eq!(receiver.unwrap(&arrived).unwrap(), payload);
    }
}
