use rust_can::adapt::CanAdapter;
use rust_can::bus::RecvOutcome;
use rust_can::mock::MockBus;
use rust_can::relay::{BackPressurePolicy, Message, Protocol, SubscriberOptions};
use rust_can::virtual_bus::VirtualBus;
use rust_can::{from_message, to_message, validate_frame, Bus, Filter, Frame, MetricsProvider};
use rust_can::dbc::parse;
use rust_can::j1939::{decode_id, encode_id, Pgn, Priority, BROADCAST_ADDR};
use rust_can::safety::{Config, E2EErrorKind, MessageAuthenticator, Protector, Receiver};
use std::sync::{Arc, Mutex};
use tokio::task::JoinSet;

fn got(r: RecvOutcome) -> Frame {
    match r {
        RecvOutcome::Got(f) => f,
        other => panic!("expected a frame, got {:?}", other),
    }
}

#[test]
fn virtual_bus_send_receive_roundtrip() {
    let mut bus = VirtualBus::new();
    let rx = bus.subscribe(vec![], SubscriberOptions::default()).unwrap();

    let sent = Frame {
        id: 0x123,
        ext: false,
        data: vec![0xDE, 0xAD, 0xBE, 0xEF],
        ..Default::default()
    };

    bus.send(0, sent.clone()).unwrap();

    let received = got(bus.recv(rx));
    assert_eq!(received.id, sent.id);
    assert_eq!(received.data, sent.data);
}

#[test]
fn virtual_bus_multiple_subscribers_all_receive() {
    let mut bus = VirtualBus::new();
    let rx1 = bus.subscribe(vec![], SubscriberOptions::default()).unwrap();
    let rx2 = bus.subscribe(vec![], SubscriberOptions::default()).unwrap();
    let rx3 = bus.subscribe(vec![], SubscriberOptions::default()).unwrap();

    bus.send(
        0,
        Frame {
            id: 0x456,
            data: vec![1],
            ..Default::default()
        },
    )
    .unwrap();

    for rx in [rx1, rx2, rx3] {
        let f = got(bus.recv(rx));
        assert_eq!(f.id, 0x456);
    }
}

#[test]
fn virtual_bus_filter_precision() {
    let mut bus = VirtualBus::new();

    let rx_all = bus.subscribe(vec![], SubscriberOptions::default()).unwrap();
    let rx_100 = bus
        .subscribe(
            vec![Filter {
                id: 0x100,
                mask: 0x7FF,
            }],
            SubscriberOptions::default(),
        )
        .unwrap();

    bus.send(
        0,
        Frame {
            id: 0x100,
            data: vec![1],
            ..Default::default()
        },
    )
    .unwrap();
    bus.send(
        0,
        Frame {
            id: 0x200,
            data: vec![2],
            ..Default::default()
        },
    )
    .unwrap();

    let f1 = got(bus.recv(rx_all));
    let f2 = got(bus.recv(rx_all));
    assert_eq!(f1.id, 0x100);
    assert_eq!(f2.id, 0x200);

    let f = got(bus.recv(rx_100));
    assert_eq!(f.id, 0x100);
    assert!(matches!(bus.recv(rx_100), RecvOutcome::Pending));
}

#[test]
fn close_then_send_returns_closed() {
    let mut bus = VirtualBus::new();
    bus.close().unwrap();
    let err = bus
        .send(
            0,
            Frame {
                id: 0x100,
                ..Default::default()
            },
        )
        .unwrap_err();
    assert!(matches!(err, rust_can::Error::Closed));
}

#[test]
fn close_then_subscribe_returns_closed() {
    let mut bus = VirtualBus::new();
    bus.close().unwrap();
    let err = bus
        .subscribe(vec![], SubscriberOptions::default())
        .expect_err("expected Closed error");
    assert!(matches!(err, rust_can::Error::Closed));
}

#[test]
fn integration_test_close_is_idempotent() {
    let mut bus = VirtualBus::new();
    for _ in 0..5 {
        bus.close().unwrap();
    }
}

#[test]
fn adapt_send_and_receive_via_relay_node() {
    let mut bus = VirtualBus::new();
    let frame_rx = bus.subscribe(vec![], SubscriberOptions::default()).unwrap();

    let node = CanAdapter::new();
    let msg = Message::new(Protocol::Can, "256", vec![0x01, 0x02]);
    let frame = node.frame_to_send(&msg).unwrap();
    bus.send(0, frame).unwrap();

    let f = got(bus.recv(frame_rx));
    assert_eq!(f.id, 256);
    assert_eq!(f.data, vec![0x01, 0x02]);
}

#[test]
fn to_message_from_message_roundtrip() {
    let original = Frame {
        id: 0x7FF,
        ext: false,
        fd: true,
        brs: true,
        data: vec![0xAA, 0xBB, 0xCC],
        ..Default::default()
    };

    let msg = to_message(&original);
    assert_eq!(msg.protocol, Protocol::Can);
    assert_eq!(msg.id, "2047");

    let recovered = from_message(&msg).unwrap();
    assert_eq!(recovered.id, original.id);
    assert_eq!(recovered.fd, original.fd);
    assert_eq!(recovered.brs, original.brs);
    assert_eq!(recovered.data, original.data);
}

#[test]
fn validate_frame_standard_id_boundary() {
    assert!(validate_frame(&Frame {
        id: 0x7FF,
        ..Default::default()
    })
    .is_ok());
    assert!(validate_frame(&Frame {
        id: 0x800,
        ..Default::default()
    })
    .is_err());
}

#[test]
fn validate_frame_extended_id_boundary() {
    assert!(validate_frame(&Frame {
        id: 0x1FFF_FFFF,
        ext: true,
        ..Default::default()
    })
    .is_ok());
    assert!(validate_frame(&Frame {
        id: 0x2000_0000,
        ext: true,
        ..Default::default()
    })
    .is_err());
}

#[test]
fn validate_frame_fd_xl_mutual_exclusion() {
    let f = Frame {
        id: 0x100,
        fd: true,
        xl: true,
        data: vec![0],
        ..Default::default()
    };
    assert!(validate_frame(&f).is_err());
}

#[test]
fn mock_bus_records_and_injects() {
    let mut bus = MockBus::new();
    let rx = bus.subscribe(vec![], SubscriberOptions::default()).unwrap();

    bus.send(
        0,
        Frame {
            id: 0x100,
            data: vec![42],
            ..Default::default()
        },
    )
    .unwrap();
    let sent = bus.sent_frames();
    assert_eq!(sent.len(), 1);
    assert_eq!(sent[0].id, 0x100);

    bus.inject(
        &Frame {
            id: 0x200,
            data: vec![99],
            ..Default::default()
        },
        0,
    );
    let f = got(bus.recv(rx));
    assert_eq!(f.id, 0x200);
    assert_eq!(f.data, vec![99]);
}

#[test]
fn safety_protect_unwrap_roundtrip() {
    let cfg = Config {
        data_id: 0x0001,
        source_id: 0x0002,
    };
    let mut protector = Protector::new(cfg);
    let mut receiver = Receiver::new(cfg);

    let payload = b"test payload for safety";
    let protected = protector.protect(payload);
    assert_eq!(protected.len(), payload.len() + 10);

    let recovered = receiver.unwrap(&protected).unwrap();
    assert_eq!(recovered, payload);
}

#[test]
fn safety_crc_mismatch_detected() {
    let cfg = Config {
        data_id: 0x0001,
        source_id: 0x0002,
    };
    let mut protector = Protector::new(cfg);
    let mut receiver = Receiver::new(cfg);

    let mut protected = protector.protect(b"data");
    protected[10] ^= 0xFF;

    let err = receiver.unwrap(&protected).unwrap_err();
    assert_eq!(err.kind, E2EErrorKind::CrcMismatch);
}

#[test]
fn j1939_encode_decode_roundtrip() {
    let priority = Priority(3);
    let pgn = Pgn(0x0FEF1);
    let src = 0x10u8;
    let dst = BROADCAST_ADDR;

    let id = encode_id(priority, pgn, src, dst);
    let (p, g, s) = decode_id(id);

    assert_eq!(p.value(), 3);
    assert_eq!(g, pgn);
    assert_eq!(s, src);
}

#[test]
fn dbc_parse_and_decode() {
    let dbc_src = r#"
BO_ 100 SpeedMsg: 4 ECU
 SG_ Speed : 0|16@1+ (0.1,0) [0|6553.5] "kph" Vector__XXX

"#;
    let db = parse(dbc_src).unwrap();
    let msg = db.messages.get(&100).unwrap();
    assert_eq!(msg.name, "SpeedMsg");
    assert_eq!(msg.signals.len(), 1);
    assert_eq!(msg.signals[0].name, "Speed");

    let data = vec![0xE8u8, 0x03, 0, 0];
    let values = db.decode(100, &data);
    let v = values.get("Speed").unwrap();
    let speed =
        v.value as f64 * v.factor.parse::<f64>().unwrap() + v.offset.parse::<f64>().unwrap();
    assert!((speed - 100.0).abs() < 0.01, "speed={}", speed);
}

#[test]
fn spec_version_constant() {
    assert_eq!(rust_can::SPEC_VERSION, "1.1");
    assert_eq!(rust_can::RELAY_SPEC_VERSION, "1.1");
}

#[test]
fn concurrent_senders_no_panic() {
    let bus = Arc::new(Mutex::new(VirtualBus::new()));
    let rx = bus
        .lock()
        .unwrap()
        .subscribe(vec![], SubscriberOptions::default())
        .unwrap();

    let runtime = tokio::runtime::Runtime::new().unwrap();
    runtime.block_on(async {
        let mut set = JoinSet::new();
        for i in 0u32..8 {
            let b = bus.clone();
            set.spawn(async move {
                for j in 0u32..16 {
                    b.lock()
                        .unwrap()
                        .send(
                            0,
                            Frame {
                                id: (i * 16 + j) & 0x7FF,
                                data: vec![i as u8, j as u8],
                                ..Default::default()
                            },
                        )
                        .unwrap();
                }
            });
        }
        set.join_all().await;
    });
    assert_eq!(bus.lock().unwrap().metrics().write_count, 128);
    assert!(matches!(
        bus.lock().unwrap().recv(rx),
        RecvOutcome::Got(_)
    ));
}

#[test]
fn validate_frame_brs_requires_fd() {
    assert!(validate_frame(&Frame {
        id: 0x100,
        brs: true,
        fd: false,
        ..Default::default()
    })
    .is_err());
    assert!(validate_frame(&Frame {
        id: 0x100,
        brs: true,
        fd: true,
        ..Default::default()
    })
    .is_ok());
}

#[test]
fn validate_frame_rtr_rejected_on_fd() {
    assert!(validate_frame(&Frame {
        id: 0x100,
        fd: true,
        rtr: true,
        ..Default::default()
    })
    .is_err());
}

#[test]
fn validate_frame_data_length_limits() {
    assert!(validate_frame(&Frame {
        id: 0x100,
        data: vec![0u8; 8],
        ..Default::default()
    })
    .is_ok());
    assert!(validate_frame(&Frame {
        id: 0x100,
        data: vec![0u8; 9],
        ..Default::default()
    })
    .is_err());
    assert!(validate_frame(&Frame {
        id: 0x100,
        fd: true,
        data: vec![0u8; 64],
        ..Default::default()
    })
    .is_ok());
    assert!(validate_frame(&Frame {
        id: 0x100,
        fd: true,
        data: vec![0u8; 65],
        ..Default::default()
    })
    .is_err());
}

#[test]
fn safety_crc_known_vector() {
    let cfg = Config {
        data_id: 0x0000,
        source_id: 0x0000,
    };
    let mut protector = Protector::new(cfg);
    let mut receiver = Receiver::new(cfg);

    let payload = b"";
    let protected = protector.protect(payload);
    assert_eq!(protected.len(), 10);
    receiver
        .unwrap(&protected)
        .expect("known-good vector must verify");
}

#[test]
fn back_pressure_drop_oldest() {
    let mut bus = VirtualBus::new();
    let rx = bus
        .subscribe(
            vec![],
            SubscriberOptions {
                channel_depth: 2,
                back_pressure: BackPressurePolicy::DropOldest,
                rate_limit_per_sec: 0,
            },
        )
        .unwrap();

    for i in 0u32..5 {
        bus.send(
            0,
            Frame {
                id: i & 0x7FF,
                data: vec![i as u8],
                ..Default::default()
            },
        )
        .unwrap();
    }

    let f1 = got(bus.recv(rx));
    let f2 = got(bus.recv(rx));
    assert_eq!(f1.id, 3);
    assert_eq!(f2.id, 4);
}

#[test]
fn sec_frame_id_bounds_injection_prevention() {
    assert!(validate_frame(&Frame {
        id: 0x800,
        ..Default::default()
    })
    .is_err());
    assert!(validate_frame(&Frame {
        id: 0x2000_0000,
        ext: true,
        ..Default::default()
    })
    .is_err());
    assert!(validate_frame(&Frame {
        id: 0x7FF,
        ..Default::default()
    })
    .is_ok());
    assert!(validate_frame(&Frame {
        id: 0x1FFF_FFFF,
        ext: true,
        ..Default::default()
    })
    .is_ok());
}

#[test]
fn sec_e2e_crc_tamper_detection() {
    let cfg = Config {
        data_id: 0xABCD,
        source_id: 0x1234,
    };
    let mut protector = Protector::new(cfg);
    let mut receiver = Receiver::new(cfg);

    let payload = b"safety-critical-command";
    let protected = protector.protect(payload);

    let mut tampered = protected.clone();
    tampered[8] ^= 0xFF;
    let err = receiver.unwrap(&tampered).unwrap_err();
    assert_eq!(err.kind, E2EErrorKind::CrcMismatch);

    let mut tampered2 = protected.clone();
    tampered2[10] ^= 0x01;
    let mut receiver2 = Receiver::new(cfg);
    let err2 = receiver2.unwrap(&tampered2).unwrap_err();
    assert_eq!(err2.kind, E2EErrorKind::CrcMismatch);
}

#[test]
fn sec_replay_detection_via_sequence_counter() {
    let cfg = Config {
        data_id: 0x0001,
        source_id: 0x0001,
    };
    let mut protector = Protector::new(cfg);
    let mut receiver = Receiver::new(cfg);

    let p0 = protector.protect(b"frame 0");
    let _p1 = protector.protect(b"frame 1");
    let p2 = protector.protect(b"frame 2");

    receiver.unwrap(&p0).unwrap();
    let err = receiver.unwrap(&p2).unwrap_err();
    assert_eq!(err.kind, E2EErrorKind::SequenceGap);
}

#[test]
fn sec_dbc_parse_no_panic_on_malformed_input() {
    let malformed_inputs = [
        "",
        "BO_ not_a_number Name: 4 ECU",
        "SG_ Signal : 0|0@1+ (0,0) [] \"\" Vector__XXX",
        &"A".repeat(65536),
        "BO_ 100 X: 0 ECU\n SG_ S : 999|999@1+ (0,0) [] \"\" V",
        "\x00\x01\x02\x03",
    ];

    for input in &malformed_inputs {
        let _ = parse(input);
    }
}

#[test]
fn sec_rate_limit_drops_excess_frames() {
    let mut bus = VirtualBus::new();
    let rx = bus
        .subscribe(
            vec![],
            SubscriberOptions {
                channel_depth: 64,
                back_pressure: BackPressurePolicy::DropNewest,
                rate_limit_per_sec: 3,
            },
        )
        .unwrap();

    for i in 0u32..10 {
        let _ = bus.send(
            0,
            Frame {
                id: i & 0x7FF,
                data: vec![i as u8],
                ..Default::default()
            },
        );
    }

    let mut count = 0usize;
    while let RecvOutcome::Got(_) = bus.recv(rx) {
        count += 1;
    }
    assert!(
        count <= 3,
        "rate limit of 3/s must drop excess frames; got {}",
        count
    );
    assert_eq!(count, 3);
}

#[test]
fn sec_bus_off_error_is_distinct() {
    let e = rust_can::Error::BusOff;
    assert!(e.kind().is_none());
    assert_eq!(e.to_string(), "can: bus-off");
    assert!(!matches!(e, rust_can::Error::Closed));
    assert!(!matches!(e, rust_can::Error::Timeout));
}

struct NullAuth;

impl MessageAuthenticator for NullAuth {
    fn sign(&self, _key: &[u8], data: &[u8]) -> Vec<u8> {
        data.iter()
            .fold(0u8, |acc, &b| acc.wrapping_add(b))
            .to_le_bytes()
            .to_vec()
    }
    fn verify(&self, key: &[u8], data: &[u8], tag: &[u8]) -> bool {
        self.sign(key, data) == tag
    }
    fn tag_len(&self) -> usize {
        1
    }
}

#[test]
fn sec_message_authenticator_trait_is_object_safe() {
    let auth: &dyn MessageAuthenticator = &NullAuth;
    let key = b"test-key";
    let data = b"safety-critical-payload";
    let tag = auth.sign(key, data);
    assert_eq!(tag.len(), auth.tag_len());
    assert!(auth.verify(key, data, &tag));

    let mut bad = data.to_vec();
    bad[0] ^= 0x01;
    assert!(!auth.verify(key, &bad, &tag));
}
