use rust_can::cli;
use rust_can::cli::{FrameFlags, JsonSender, SubscribeRun};
use rust_can::relay::{Message, Protocol};
use rust_can::time::Timestamp;
use rust_can::{Frame, MetricsProvider};

const PLAIN: FrameFlags = FrameFlags {
    fd: false,
    ext: false,
    xl: false,
    sdt: 0,
    vcid: 0,
    af: 0,
    sec: false,
};

#[test]
fn identifiers_of_the_command_line() {
    assert_eq!(cli::parse_id("0x100"), Ok(0x100));
    assert_eq!(cli::parse_id("0Xff"), Ok(0xFF));
    assert_eq!(cli::parse_id("+17"), Ok(17));
    let fault = |s: &str| cli::parse_id(s).unwrap_err();
    assert_eq!(fault(""), "cannot parse integer from empty string");
    assert_eq!(fault("0x"), "cannot parse integer from empty string");
    assert_eq!(fault("12g"), "invalid digit found in string");
    assert_eq!(fault("-1"), "invalid digit found in string");
    assert_eq!(fault("+"), "invalid digit found in string");
    assert_eq!(fault("4294967296"), "number too large to fit in target type");
    assert_eq!(fault("99999999999x"), "number too large to fit in target type");
}

#[test]
fn parse_faults_are_those_of_the_standard_library() {
    for s in ["", "+", "-", "-5", "4294967296", "9x9999999999", "99999999999x", "1 2", "٣"] {
        assert_eq!(
            cli::parse_id(s).unwrap_err(),
            s.parse::<u32>().unwrap_err().to_string(),
            "{:?}",
            s
        );
    }
}

#[test]
fn a_frame_is_sent_from_its_description() {
    assert_eq!(
        cli::send_text(Some("0x100"), Some("DE AD be ef"), PLAIN, 0).unwrap(),
        "sent: id=0x100 ext=false fd=false xl=false data=deadbeef"
    );
    let ext = FrameFlags { ext: true, ..PLAIN };
    assert_eq!(
        cli::send_text(Some("536870911"), Some(""), ext, 0).unwrap(),
        "sent: id=0x1FFFFFFF ext=true fd=false xl=false data="
    );
}

#[test]
fn what_is_wrong_with_a_description() {
    let fault = |id: Option<&str>, data: Option<&str>| {
        cli::send_text(id, data, PLAIN, 0).unwrap_err()
    };
    assert_eq!(
        fault(None, None),
        "rust-can: --id is required in text mode"
    );
    assert_eq!(
        fault(Some("x"), None),
        "rust-can: --data is required in text mode"
    );
    assert_eq!(fault(Some("x"), Some("x")), "invalid digit found in string");
    assert_eq!(fault(Some("1"), Some("abc")), "Odd number of digits");
    assert_eq!(
        fault(Some("1"), Some("zz")),
        "Invalid character 'z' at position 0"
    );
    assert_eq!(
        fault(Some("1"), Some("0a1\n")),
        "Invalid character '\\n' at position 3"
    );
    assert_eq!(
        fault(Some("1"), Some("0a\u{e9}z")),
        "Odd number of digits"
    );
    assert_eq!(
        fault(Some("1"), Some("\u{e9}")),
        "Invalid character '\u{c3}' at position 0"
    );
    assert!(fault(Some("0x800"), Some("")).contains("invalid frame"));
}

#[test]
fn messages_line_by_line() {
    let mut run = JsonSender::new();
    assert!(cli::json_line("  \t ").is_none());
    assert_eq!(cli::json_line(" {} \r\n").unwrap(), "{}");
    let ok = Message::new(Protocol::Can, "256", vec![1]);
    assert!(run.on_message(Ok(ok), 0).is_none());
    let bad_id = Message::new(Protocol::Can, "x", vec![1]);
    assert!(run
        .on_message(Ok(bad_id), 0)
        .unwrap()
        .starts_with("rust-can: send --format json: conversion error: "));
    let long = Message::new(Protocol::Can, "1", vec![0; 9]);
    assert!(run
        .on_message(Ok(long), 0)
        .unwrap()
        .starts_with("rust-can: send --format json: invalid frame: "));
    assert_eq!(
        run.on_message(Err("EOF".to_string()), 0).unwrap(),
        "rust-can: send --format json: parse error: EOF"
    );
    assert_eq!(
        run.summary(),
        "rust-can: send --format json: sent=1 errors=3"
    );
    assert_eq!(run.bus.metrics().write_count, 1);
}

#[test]
fn notes_and_lines_of_subscribe() {
    assert_eq!(
        cli::subscribe_note(0),
        "rust-can: subscribing on virtual bus (unlimited)"
    );
    assert_eq!(
        cli::subscribe_note(3),
        "rust-can: subscribing on virtual bus (3 frames)"
    );
    assert!(SubscribeRun { count: 0, received: 1000 }.wants_more());
    let mut run = SubscribeRun::new(2);
    let f = Frame {
        id: 0xAB,
        fd: true,
        data: vec![0x0F],
        ..Default::default()
    };
    assert_eq!(
        run.on_frame_text(&f),
        "[1] id=0xAB ext=false fd=true xl=false data=0f"
    );
    assert!(run.wants_more());
    let o = run.on_frame_object(&f);
    assert_eq!((o.id.as_str(), o.data.as_str(), o.seq), ("171", "0f", 2));
    assert!(!run.wants_more());
}

#[test]
fn conversion_of_a_frame() {
    assert!(cli::accept_protocol("can").is_ok());
    assert_eq!(
        cli::accept_protocol("LIN").unwrap_err(),
        "rust-can: convert: unsupported protocol 'LIN'; this tool implements CAN"
    );
    let m = cli::convert(&Frame::default()).unwrap();
    assert_eq!(m.timestamp, Timestamp::epoch());
    assert!(cli::convert(&Frame {
        id: 0x800,
        ..Default::default()
    })
    .is_err());
}

#[test]
fn what_the_tool_says_of_itself() {
    assert_eq!(cli::version_lines("0.1.0")[2], "version:      0.1.0");
    assert_eq!(cli::status_lines("0.1.0", true, false)[4], "connected: false");
    assert_eq!(cli::transports(true), vec!["virtual", "socketcan"]);
    assert_eq!(cli::transports(false), vec!["virtual"]);
    assert_eq!(cli::commands().len(), 6);
    assert_eq!(cli::features()[8], "uds");
    assert_eq!(cli::optional_interfaces()[3], "Drainer");
}
