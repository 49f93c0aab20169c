use rust_can::recorder::{format_line, parse_frame_str, parse_line, parse_timestamp, Replay};
use rust_can::time::Duration;
use rust_can::{Error, Frame};

#[test]
fn format_and_parse_classic_frame() {
    let frame = Frame {
        id: 0x123,
        data: vec![0xDE, 0xAD, 0xBE, 0xEF],
        ..Default::default()
    };
    let ts = Duration::from_micros(1_609_459_200_000_000);
    let line = format_line("vcan0", ts, &frame);
    assert!(line.contains("(1609459200.000000)"), "line: {}", line);
    assert!(line.contains("123#DEADBEEF"), "line: {}", line);

    let (parsed_ts, parsed_frame) = parse_line(&line).unwrap();
    assert_eq!(parsed_ts, ts);
    assert_eq!(parsed_frame.id, frame.id);
    assert_eq!(parsed_frame.data, frame.data);
}

#[test]
fn format_and_parse_fd_frame() {
    let frame = Frame {
        id: 0x456,
        fd: true,
        brs: true,
        data: vec![0x01, 0x02, 0x03],
        ..Default::default()
    };
    let ts = Duration::from_micros(1_609_459_200_050_000);
    let line = format_line("vcan0", ts, &frame);
    assert!(line.contains("##"), "FD line must use ##: {}", line);

    let (_, parsed_frame) = parse_line(&line).unwrap();
    assert!(parsed_frame.fd);
    assert!(parsed_frame.brs);
    assert_eq!(parsed_frame.data, frame.data);
}

#[test]
fn parse_extended_id_sets_ext_flag() {
    let line = "(1234567890.000000) vcan0 1FFFFFFF#DEADBEEF";
    let (_, frame) = parse_line(line).unwrap();
    assert!(frame.ext, "extended ID must set ext flag");
    assert_eq!(frame.id, 0x1FFF_FFFF);
}

#[test]
fn malformed_line_returns_error() {
    assert!(parse_line("not a valid line").is_err());
    assert!(parse_line("(bad) vcan0 123#DEAD").is_err());
}

#[test]
fn a_line_in_full() {
    let frame = Frame {
        id: 0x7,
        data: vec![0x0A],
        ..Default::default()
    };
    assert_eq!(
        format_line("can1", Duration::from_micros(1_000_042), &frame).trim_end(),
        "(1.000042) can1 7#0A"
    );
}

#[test]
fn an_extended_frame_reads_back() {
    let frame = Frame {
        id: 0x18DA_F110,
        ext: true,
        data: vec![1, 2],
        ..Default::default()
    };
    let ts = Duration::from_micros(77_000_001);
    let line = format_line("vcan0", ts, &frame);
    let (t, f) = parse_line(&line).unwrap();
    assert_eq!(t, ts);
    assert_eq!(f, frame);
}

#[test]
fn timestamps_of_a_log() {
    assert_eq!(
        parse_timestamp("12.5").unwrap(),
        Duration::from_millis(12_500)
    );
    assert!(parse_timestamp("x.5").is_err());
}

#[test]
fn frame_fields_that_cannot_be_read() {
    let s: Vec<char> = "123#0G".chars().collect();
    match parse_frame_str(&s) {
        Err(Error::Other(text)) => assert_eq!(text, "recorder: invalid data hex"),
        other => panic!("expected an error, got {:?}", other),
    }
    let s: Vec<char> = "123".chars().collect();
    match parse_frame_str(&s) {
        Err(Error::Other(text)) => assert_eq!(text, "recorder: missing '#' in frame field \"123\""),
        other => panic!("expected an error, got {:?}", other),
    }
}

#[test]
fn a_replay_keeps_the_distances() {
    let mut replay = Replay::new();
    let (t0, _) = replay.next("(10.000000) vcan0 123#01").unwrap();
    assert_eq!(t0.unwrap_or(Duration::from_secs(0)), Duration::from_secs(0));
    assert!(replay.next("# a comment").is_none());
    let (t1, f) = replay.next("(10.250000) vcan0 123#02").unwrap();
    assert_eq!(t1.unwrap(), Duration::from_millis(250));
    assert_eq!(f.data, vec![2]);
}
