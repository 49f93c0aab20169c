use rust_can::interop::{
    build_frame, fail_report, failure_note, open_failed, receiver_note, role_str, sender_note,
    subscribe_failed, timeout_note, Cli, FrameRecord, ReceiverEvent, ReceiverRun, Role, SenderRun,
    SenderStep,
};
use rust_can::{validate_frame, Error, Frame};

#[test]
fn frames_of_a_run() {
    let cli = Cli {
        seed: 3,
        ..Cli::for_role(Role::Sender)
    };
    for i in [0usize, 1, 7, 8, 300] {
        let f = build_frame(&cli, i);
        assert_eq!(f.data.len(), 1 + i % 8);
        for (j, b) in f.data.iter().enumerate() {
            let want = 3u8
                .wrapping_add((i as u8).wrapping_mul(31))
                .wrapping_add((j as u8).wrapping_mul(7))
                .wrapping_add(13);
            assert_eq!(*b, want);
        }
        assert!(!f.brs && !f.esi);
        assert!(validate_frame(&f).is_ok());
    }
    let fd = Cli { fd: true, ..cli };
    assert!(build_frame(&fd, 6).brs && build_frame(&fd, 6).esi);
    assert!(!build_frame(&fd, 1).brs && !build_frame(&fd, 1).esi);
}

#[test]
fn a_run_of_the_sender() {
    let cli = Cli {
        count: 2,
        ..Cli::for_role(Role::Sender)
    };
    let mut run = SenderRun::new(&cli);
    for _ in 0..2 {
        match run.next(&cli) {
            SenderStep::Send(f) => assert!(run.on_sent(&cli, &f, Ok(())).is_none()),
            other => panic!("expected a frame, got {:?}", other),
        }
    }
    match run.next(&cli) {
        SenderStep::Finished(report) => {
            assert!(report.ok && report.error.is_none());
            assert_eq!(report.exit_code(), 0);
            assert_eq!(report.role, "sender");
            let sent = report.sent.unwrap();
            assert_eq!((sent[0].data_hex.as_str(), sent[0].dlc), ("0d", 1));
            assert_eq!(sent[1].data_hex, "2c33");
        }
        other => panic!("expected the report, got {:?}", other),
    }
}

#[test]
fn a_failure_ends_the_run_of_the_sender() {
    let cli = Cli::for_role(Role::Sender);
    let mut run = SenderRun::new(&cli);
    let f = match run.next(&cli) {
        SenderStep::Send(f) => f,
        other => panic!("expected a frame, got {:?}", other),
    };
    let report = run.on_sent(&cli, &f, Err(Error::Closed)).unwrap();
    assert_eq!(report.exit_code(), 1);
    assert_eq!(report.error.unwrap(), "send 0 failed: can: closed");
    assert_eq!(report.sent.unwrap().len(), 1);
}

#[test]
fn a_run_of_the_receiver() {
    let cli = Cli {
        count: 2,
        ..Cli::for_role(Role::Receiver)
    };
    let mut run = ReceiverRun::new();
    let f = Frame {
        id: 1,
        data: vec![0xAB],
        ..Default::default()
    };
    assert!(run.wants_more(&cli));
    assert!(run
        .on_event(&cli, ReceiverEvent::Received(f.clone()))
        .is_none());
    assert_eq!(
        timeout_note(&cli, &run),
        "can-interop-peer: recv timeout after 1 frame(s) (wanted 2)"
    );
    let mut short = ReceiverRun::new();
    let report = short.on_event(&cli, ReceiverEvent::Ended).unwrap();
    assert_eq!(
        report.error.unwrap(),
        "received 0 of 2 expected frame(s) within 15s"
    );
    run.on_event(&cli, ReceiverEvent::Received(f));
    assert!(!run.wants_more(&cli));
    let report = run.on_event(&cli, ReceiverEvent::Ended).unwrap();
    assert!(report.ok);
    assert_eq!(report.received.unwrap()[1].data_hex, "ab");
}

#[test]
fn reports_of_failures() {
    let cli = Cli::for_role(Role::Receiver);
    assert_eq!((role_str(Role::Sender), role_str(cli.role)), ("sender", "receiver"));
    let r = fail_report(Role::Sender, "can0", 3, "why".to_string());
    assert!(!r.ok && r.sent.is_none() && r.received.is_none());
    assert_eq!((r.iface.as_str(), r.count), ("can0", 3));
    assert_eq!(
        open_failed(&cli, &Error::Other("invalid interface name".to_string()))
            .error
            .unwrap(),
        "open SocketCAN iface \"vcan0\": invalid interface name"
    );
    assert_eq!(
        subscribe_failed(&cli, &Error::Closed).error.unwrap(),
        "subscribe: can: closed"
    );
    assert_eq!(failure_note("x"), "can-interop-peer: FAIL: x");
    assert_eq!(
        receiver_note(&cli),
        "can-interop-peer: receiver on \"vcan0\" waiting for 5 frame(s)"
    );
    assert_eq!(
        sender_note(&cli),
        "can-interop-peer: sender on \"vcan0\" sending 5 frame(s), id=0x123 ext=false fd=false"
    );
    let rec = FrameRecord::from_frame(&Frame {
        rtr: true,
        ..Default::default()
    });
    assert!(rec.rtr && rec.data_hex.is_empty());
}
