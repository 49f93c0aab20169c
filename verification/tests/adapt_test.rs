use rust_can::adapt::{to_message_at, AdaptQueue, CanAdapter, PopOutcome, PushOutcome};
use rust_can::base64_serde;
use rust_can::bus::RecvOutcome;
use rust_can::mock::MockBus;
use rust_can::relay;
use rust_can::relay::{BackPressurePolicy, Message, Protocol, SubscriberOptions};
use rust_can::textmap::TextMap;
use rust_can::time::Timestamp;
use rust_can::{from_message, to_message, Bus, Error, Frame};

#[test]
fn to_message_roundtrip() {
    let f = Frame {
        id: 0x123,
        ext: false,
        fd: true,
        brs: true,
        data: vec![1, 2, 3],
        ..Default::default()
    };
    let msg = to_message(&f);
    assert_eq!(msg.id, "291");
    assert_eq!(msg.meta.get("can.fd").unwrap(), "true");
    assert_eq!(msg.meta.get("can.brs").unwrap(), "true");
    assert_eq!(msg.payload, vec![1, 2, 3]);

    let f2 = from_message(&msg).unwrap();
    assert_eq!(f2.id, f.id);
    assert_eq!(f2.fd, f.fd);
    assert_eq!(f2.brs, f.brs);
    assert_eq!(f2.data, f.data);
}

#[test]
fn from_message_invalid_id() {
    let msg = Message {
        protocol: Protocol::Can,
        version: Default::default(),
        id: "not_a_number".into(),
        payload: vec![],
        timestamp: to_message(&Frame::default()).timestamp,
        seq: 0,
        meta: TextMap::new(),
    };
    assert!(matches!(
        from_message(&msg),
        Err(Error::InvalidFrame { .. })
    ));
}

#[test]
fn adapt_send_and_subscribe() {
    let mut mock = MockBus::new();
    let node = CanAdapter::new();

    let msg = Message::new(Protocol::Can, "256", vec![0xDE, 0xAD]);
    let frame = node.frame_to_send(&msg).unwrap();
    mock.send(0, frame).unwrap();

    let frames = mock.sent_frames();
    assert_eq!(frames.len(), 1);
    assert_eq!(frames[0].id, 256);
    assert_eq!(frames[0].data, vec![0xDE, 0xAD]);
}

#[test]
fn adapt_send_invalid_id_is_not_payload_too_large() {
    let node = CanAdapter::new();
    let msg = Message::new(Protocol::Can, "not_a_number", vec![]);
    let err = node.frame_to_send(&msg).unwrap_err();
    assert_ne!(err, relay::Error::PayloadTooLarge);
    assert_eq!(err, relay::Error::NotConnected);
}

#[test]
fn adapt_subscribe_drop_oldest_delivers_messages() {
    let mut mock = MockBus::new();
    let mut node = CanAdapter::new();
    let opts = SubscriberOptions {
        channel_depth: 2,
        back_pressure: BackPressurePolicy::DropOldest,
        rate_limit_per_sec: 0,
    };
    let inner = node.bus_options(&opts);
    assert_eq!(inner.channel_depth, 4);
    let sub = mock.subscribe(vec![], inner).unwrap();
    let mut queue = node.queue(&opts);

    mock.inject(
        &Frame {
            id: 0x123,
            data: vec![0xAB],
            ..Default::default()
        },
        0,
    );
    match mock.recv(sub) {
        RecvOutcome::Got(f) => {
            queue.push(node.next_message(&f));
        }
        other => panic!("expected a frame, got {:?}", other),
    }

    match queue.pop() {
        PopOutcome::Got(msg) => assert_eq!(msg.id, "291"),
        other => panic!("expected a message, got {:?}", other),
    }
}

fn queue_msg(id: &str) -> Message {
    Message::new(Protocol::Can, id, vec![])
}

fn popped(q: &mut AdaptQueue) -> Option<String> {
    match q.pop() {
        PopOutcome::Got(m) => Some(m.id),
        PopOutcome::Ended => None,
        PopOutcome::Pending => panic!("the queue is empty and open"),
    }
}

#[test]
fn adapt_queue_drop_oldest_evicts_front() {
    let mut q = AdaptQueue::new(2, BackPressurePolicy::DropOldest);
    q.push(queue_msg("1"));
    q.push(queue_msg("2"));
    q.push(queue_msg("3"));

    assert_eq!(popped(&mut q).unwrap(), "2");
    assert_eq!(popped(&mut q).unwrap(), "3");
}

#[test]
fn adapt_queue_drop_newest_discards_arriving() {
    let mut q = AdaptQueue::new(2, BackPressurePolicy::DropNewest);
    q.push(queue_msg("1"));
    q.push(queue_msg("2"));
    assert!(matches!(q.push(queue_msg("3")), PushOutcome::Dropped));

    assert_eq!(popped(&mut q).unwrap(), "1");
    assert_eq!(popped(&mut q).unwrap(), "2");
}

#[test]
fn adapt_queue_close_drains_then_ends() {
    let mut q = AdaptQueue::new(2, BackPressurePolicy::DropOldest);
    q.push(queue_msg("1"));
    q.close();

    assert_eq!(popped(&mut q).unwrap(), "1");
    assert!(popped(&mut q).is_none());
}

#[test]
fn a_full_blocking_queue_hands_the_message_back() {
    let mut q = AdaptQueue::new(1, BackPressurePolicy::Block);
    assert!(matches!(q.push(queue_msg("1")), PushOutcome::Queued));
    match q.push(queue_msg("2")) {
        PushOutcome::Full(m) => assert_eq!(m.id, "2"),
        other => panic!("expected the message back, got {:?}", other),
    }
}

#[test]
fn messages_of_an_adapter_are_numbered() {
    let mut node = CanAdapter::new();
    let f = Frame::default();
    assert_eq!(node.next_message(&f).seq, 0);
    assert_eq!(node.next_message_at(&f, Timestamp::epoch()).seq, 1);
    assert_eq!(node.next_seq, 2);
    assert_eq!(node.protocol(), Protocol::Can);
}

#[test]
fn sentinels_are_reported_as_they_are() {
    let node = CanAdapter::new();
    assert_eq!(node.report(&Error::Timeout), relay::Error::Timeout);
    assert_eq!(
        node.report(&Error::PayloadTooLarge),
        relay::Error::PayloadTooLarge
    );
    assert_eq!(node.report(&Error::BusOff), relay::Error::Closed);
    for e in [
        relay::Error::Closed,
        relay::Error::NotConnected,
        relay::Error::Timeout,
        relay::Error::PayloadTooLarge,
    ] {
        assert_eq!(Error::from(e).kind(), Some(e));
    }
}

#[test]
fn an_xl_frame_survives_the_message_layer() {
    let f = Frame {
        id: 0x7FF,
        xl: true,
        sdt: 5,
        vcid: 7,
        af: 0xDEAD_BEEF,
        sec: true,
        data: vec![9],
        ..Default::default()
    };
    let msg = to_message_at(&f, Timestamp::epoch());
    assert_eq!(msg.meta.get("can.af").unwrap(), "3735928559");
    assert_eq!(from_message(&msg).unwrap(), f);
    assert_eq!(msg.timestamp, Timestamp::epoch());
}

#[test]
fn a_message_is_stamped_with_this_moment() {
    let msg = to_message(&Frame::default());
    assert!(msg.timestamp.secs > 1_600_000_000);
    assert!(msg.timestamp.nanos < 2_000_000_000);
}

#[test]
fn base64_text_of_bytes() {
    assert_eq!(base64_serde::serialize(&[0xDE, 0xAD, 0xBE, 0xEF]), "3q2+7w==");
    assert_eq!(base64_serde::serialize(&[]), "");
    assert_eq!(base64_serde::serialize(&[0]), "AA==");
    assert_eq!(base64_serde::serialize(&[0xFF, 0xEF]), "/+8=");
    assert_eq!(base64_serde::serialize(b"Man"), "TWFu");
    assert_eq!(base64_serde::serialize(&[0x69, 0xB7, 0x1D, 0x79, 0xF8]), "abcdefg=");
    assert_eq!(
        base64_serde::deserialize("3q2+7w==").unwrap(),
        vec![0xDE, 0xAD, 0xBE, 0xEF]
    );
    assert!(matches!(
        base64_serde::deserialize("3q2+7w"),
        Err(Error::Other(_))
    ));
    assert!(base64_serde::deserialize("*").is_err());
}
