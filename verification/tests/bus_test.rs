use rust_can::bus::{DrainStep, RecvOutcome, SubInner};
use rust_can::mock::MockBus;
use rust_can::relay::{BackPressurePolicy, HealthStatus, SubscriberOptions};
use rust_can::virtual_bus::VirtualBus;
use rust_can::{
    Bus, Drainer, Error, Filter, Frame, HealthProvider, LoanedFrame, LoaningBus, MetricsProvider,
};

fn make_frame(id: u32, data: Vec<u8>) -> Frame {
    Frame {
        id,
        data,
        ..Default::default()
    }
}

fn mock_frame(id: u32) -> Frame {
    make_frame(id, vec![id as u8])
}

fn got(r: RecvOutcome) -> Frame {
    match r {
        RecvOutcome::Got(f) => f,
        other => panic!("expected a frame, got {:?}", other),
    }
}

#[test]
fn sub_inner_push_pop() {
    let mut inner = SubInner::new(4, BackPressurePolicy::DropNewest, 0);
    let f = Frame {
        id: 0x100,
        data: vec![1, 2],
        ..Default::default()
    };
    assert!(inner.push(f.clone(), 0));
    let got = inner.pop().unwrap();
    assert_eq!(got.id, 0x100);
}

#[test]
fn sub_inner_drop_newest() {
    let mut inner = SubInner::new(2, BackPressurePolicy::DropNewest, 0);
    let f1 = Frame {
        id: 1,
        ..Default::default()
    };
    let f2 = Frame {
        id: 2,
        ..Default::default()
    };
    let f3 = Frame {
        id: 3,
        ..Default::default()
    };
    assert!(inner.push(f1, 0));
    assert!(inner.push(f2, 0));
    assert!(!inner.push(f3, 0));
    assert_eq!(inner.pop().unwrap().id, 1);
    assert_eq!(inner.pop().unwrap().id, 2);
    assert!(inner.pop().is_none());
}

#[test]
fn sub_inner_drop_oldest() {
    let mut inner = SubInner::new(2, BackPressurePolicy::DropOldest, 0);
    let f1 = Frame {
        id: 1,
        ..Default::default()
    };
    let f2 = Frame {
        id: 2,
        ..Default::default()
    };
    let f3 = Frame {
        id: 3,
        ..Default::default()
    };
    inner.push(f1, 0);
    inner.push(f2, 0);
    inner.push(f3, 0);
    assert_eq!(inner.pop().unwrap().id, 2);
    assert_eq!(inner.pop().unwrap().id, 3);
    assert!(inner.pop().is_none());
}

#[test]
fn frame_receiver_recv_and_close() {
    let mut inner = SubInner::new(4, BackPressurePolicy::DropNewest, 0);
    let f = Frame {
        id: 0x200,
        ..Default::default()
    };
    inner.push(f, 0);
    inner.close();

    assert_eq!(got(inner.recv()).id, 0x200);
    assert!(matches!(inner.recv(), RecvOutcome::Ended));
}

#[test]
fn an_open_queue_without_frames_is_pending() {
    let mut inner = SubInner::new(4, BackPressurePolicy::Block, 0);
    assert!(inner.is_empty());
    assert!(matches!(inner.recv(), RecvOutcome::Pending));
    inner.push(mock_frame(1), 0);
    assert!(!inner.is_empty() && !inner.is_closed());
    inner.close();
    assert!(inner.is_closed());
}

#[test]
fn the_rate_limit_opens_again_after_a_second() {
    let mut inner = SubInner::new(64, BackPressurePolicy::DropNewest, 2);
    assert!(inner.push(mock_frame(1), 100));
    assert!(inner.push(mock_frame(2), 600));
    assert!(!inner.push(mock_frame(3), 1099));
    assert!(inner.push(mock_frame(4), 1100));
}

// -- virtual bus ------------------------------------------------------------

#[test]
fn send_and_receive() {
    let mut bus = VirtualBus::new();
    let rx = bus.subscribe(vec![], SubscriberOptions::default()).unwrap();

    bus.send(0, make_frame(0x100, vec![1, 2, 3])).unwrap();

    let f = got(bus.recv(rx));
    assert_eq!(f.id, 0x100);
    assert_eq!(f.data, vec![1, 2, 3]);
}

#[test]
fn broadcast_to_multiple_subscribers() {
    let mut bus = VirtualBus::new();
    let rx1 = bus.subscribe(vec![], SubscriberOptions::default()).unwrap();
    let rx2 = bus.subscribe(vec![], SubscriberOptions::default()).unwrap();

    bus.send(0, make_frame(0x200, vec![])).unwrap();

    assert_eq!(got(bus.recv(rx1)).id, 0x200);
    assert_eq!(got(bus.recv(rx2)).id, 0x200);
}

#[test]
fn filter_semantics() {
    let mut bus = VirtualBus::new();
    let filter = vec![Filter {
        id: 0x100,
        mask: 0x7FF,
    }];
    let rx = bus.subscribe(filter, SubscriberOptions::default()).unwrap();

    bus.send(0, make_frame(0x200, vec![])).unwrap();
    bus.send(0, make_frame(0x100, vec![1])).unwrap();

    let f = got(bus.recv(rx));
    assert_eq!(f.id, 0x100);
}

#[test]
fn send_after_close_returns_closed() {
    let mut bus = VirtualBus::new();
    bus.close().unwrap();
    let err = bus.send(0, make_frame(0x100, vec![])).unwrap_err();
    assert!(matches!(err, Error::Closed));
}

#[test]
fn mod_close_is_idempotent() {
    let mut bus = VirtualBus::new();
    bus.close().unwrap();
    bus.close().unwrap();

    let mut mock = MockBus::new();
    mock.close().unwrap();
    mock.close().unwrap();
}

#[test]
fn back_pressure_drop_newest() {
    let mut bus = VirtualBus::new();
    let rx = bus
        .subscribe(
            vec![],
            SubscriberOptions {
                channel_depth: 2,
                back_pressure: BackPressurePolicy::DropNewest,
                ..Default::default()
            },
        )
        .unwrap();

    for i in 0..5u32 {
        bus.send(0, make_frame(i, vec![])).unwrap();
    }

    let f1 = got(bus.recv(rx));
    let f2 = got(bus.recv(rx));
    assert_eq!(f1.id, 0);
    assert_eq!(f2.id, 1);
    assert_eq!(bus.metrics().drop_count, 3);
}

#[test]
fn metrics_tracking() {
    let mut bus = VirtualBus::new();
    let _rx = bus.subscribe(vec![], SubscriberOptions::default()).unwrap();

    bus.send(0, make_frame(0x100, vec![1, 2, 3, 4])).unwrap();

    let m = bus.metrics();
    assert_eq!(m.write_count, 1);
    assert_eq!(m.deliver_count, 1);
    assert_eq!(m.bytes_written, 4);
    assert_eq!(m.bytes_delivered, 4);
}

#[test]
fn health_closed_vs_open() {
    let mut bus = VirtualBus::new();
    assert_eq!(bus.health().status, HealthStatus::Up);
    bus.close().unwrap();
    assert_eq!(bus.health().status, HealthStatus::Down);
    assert_eq!(bus.health().message, "bus is closed");
}

#[test]
fn loaning_bus_roundtrip() {
    let mut bus = VirtualBus::new();
    let rx = bus.subscribe(vec![], SubscriberOptions::default()).unwrap();

    let mut lf: LoanedFrame<fn()> = bus.loan().unwrap();
    lf.frame.id = 0x300;
    lf.frame.data = vec![0xAB];

    bus.send_loaned(0, lf).unwrap();
    let f = got(bus.recv(rx));
    assert_eq!(f.id, 0x300);
}

#[test]
fn a_closed_bus_lends_nothing() {
    let mut bus = VirtualBus::new();
    bus.close().unwrap();
    let r: Result<LoanedFrame<fn()>, Error> = bus.loan();
    assert!(matches!(r, Err(Error::Closed)));
}

#[test]
fn invalid_frame_rejected() {
    let mut bus = VirtualBus::new();
    let rx = bus.subscribe(vec![], SubscriberOptions::default()).unwrap();
    let bad_frame = Frame {
        id: 0xFFF,
        ..Default::default()
    };
    let err = bus.send(0, bad_frame).unwrap_err();
    assert!(matches!(err, Error::InvalidFrame { .. }));
    assert!(matches!(bus.recv(rx), RecvOutcome::Pending));
    assert_eq!(bus.metrics().error_count, 1);
    assert_eq!(bus.metrics().write_count, 0);
}

#[test]
fn frames_that_wait_survive_a_close() {
    let mut bus = VirtualBus::new();
    let rx = bus.subscribe(vec![], SubscriberOptions::default()).unwrap();
    bus.send(0, make_frame(1, vec![])).unwrap();
    bus.close().unwrap();
    assert_eq!(got(bus.recv(rx)).id, 1);
    assert!(matches!(bus.recv(rx), RecvOutcome::Ended));
}

#[test]
fn a_close_ends_every_subscription() {
    let mut bus = VirtualBus::default();
    assert_eq!(bus.metrics().write_count, 0);
    let stays = bus.subscribe(vec![], SubscriberOptions::default()).unwrap();
    let leaves = bus.subscribe(vec![], SubscriberOptions::default()).unwrap();
    let idle = bus.subscribe(vec![], SubscriberOptions::default()).unwrap();
    bus.send(0, make_frame(1, vec![])).unwrap();
    bus.unsubscribe(leaves);
    bus.send(0, make_frame(2, vec![])).unwrap();
    got(bus.recv(idle));
    got(bus.recv(idle));
    assert!(matches!(bus.recv(idle), RecvOutcome::Pending));
    bus.close().unwrap();
    assert_eq!(got(bus.recv(stays)).id, 1);
    assert_eq!(got(bus.recv(stays)).id, 2);
    assert_eq!(got(bus.recv(leaves)).id, 1);
    for sub in [stays, leaves, idle] {
        assert!(matches!(bus.recv(sub), RecvOutcome::Ended));
        assert!(matches!(bus.recv(sub), RecvOutcome::Ended));
    }
}

#[test]
fn an_unsubscribed_queue_gets_nothing() {
    let mut bus = VirtualBus::new();
    let rx = bus.subscribe(vec![], SubscriberOptions::default()).unwrap();
    bus.unsubscribe(rx);
    bus.send(0, make_frame(1, vec![])).unwrap();
    assert!(matches!(bus.recv(rx), RecvOutcome::Ended));
    assert_eq!(bus.metrics().deliver_count, 0);
}

#[test]
fn a_drain_waits_for_subscribers() {
    let mut bus = VirtualBus::new();
    let rx = bus.subscribe(vec![], SubscriberOptions::default()).unwrap();
    bus.send(0, make_frame(1, vec![])).unwrap();
    assert!(matches!(bus.close_with_drain(false), DrainStep::Wait));
    got(bus.recv(rx));
    assert!(matches!(
        bus.close_with_drain(false),
        DrainStep::Finished(Ok(()))
    ));
    assert_eq!(bus.health().status, HealthStatus::Down);
}

#[test]
fn a_drain_ends_at_its_deadline() {
    let mut bus = VirtualBus::new();
    let _rx = bus.subscribe(vec![], SubscriberOptions::default()).unwrap();
    bus.send(0, make_frame(1, vec![])).unwrap();
    assert!(matches!(
        bus.close_with_drain(true),
        DrainStep::Finished(Err(Error::Timeout))
    ));
    assert_eq!(bus.health().status, HealthStatus::Down);
}

// -- mock bus ---------------------------------------------------------------

#[test]
fn records_sent_frames() {
    let mut bus = MockBus::new();
    bus.send(0, mock_frame(0x100)).unwrap();
    bus.send(0, mock_frame(0x200)).unwrap();
    let sent = bus.sent_frames();
    assert_eq!(sent.len(), 2);
    assert_eq!(sent[0].id, 0x100);
    assert_eq!(sent[1].id, 0x200);
}

#[test]
fn reset_clears_sent() {
    let mut bus = MockBus::new();
    bus.send(0, mock_frame(0x100)).unwrap();
    bus.reset();
    assert!(bus.sent_frames().is_empty());
}

#[test]
fn inject_delivers_to_subscribers() {
    let mut bus = MockBus::new();
    let rx = bus.subscribe(vec![], SubscriberOptions::default()).unwrap();

    bus.inject(&mock_frame(0x300), 0);
    let f = got(bus.recv(rx));
    assert_eq!(f.id, 0x300);
}

#[test]
fn inject_delivers_to_multiple_subscribers() {
    let mut bus = MockBus::new();
    let rx1 = bus.subscribe(vec![], SubscriberOptions::default()).unwrap();
    let rx2 = bus.subscribe(vec![], SubscriberOptions::default()).unwrap();

    bus.inject(&mock_frame(0x400), 0);
    assert_eq!(got(bus.recv(rx1)).id, 0x400);
    assert_eq!(got(bus.recv(rx2)).id, 0x400);
}

#[test]
fn send_after_close_returns_error() {
    let mut bus = MockBus::new();
    bus.close().unwrap();
    let err = bus.send(0, mock_frame(0x100)).unwrap_err();
    assert!(matches!(err, Error::Closed));
    assert!(matches!(
        bus.subscribe(vec![], SubscriberOptions::default()),
        Err(Error::Closed)
    ));
}

#[test]
fn a_receiver_of_the_mock_can_leave() {
    let mut bus = MockBus::new();
    let rx = bus.subscribe(vec![], SubscriberOptions::default()).unwrap();
    bus.inject(&mock_frame(1), 0);
    bus.unsubscribe(rx);
    bus.inject(&mock_frame(2), 0);
    assert_eq!(got(bus.recv(rx)).id, 1);
    assert!(matches!(bus.recv(rx), RecvOutcome::Ended));
}
