use rust_can::dbc::{
    decode_signal, extract_raw, is_readable, parse, parse_message_line, parse_signal_line,
    ByteOrder, DbcSignal, SignalValue, ValueType,
};
use rust_can::Error;

const SAMPLE_DBC: &str = r#"
BO_ 256 EngineData: 8 ECU
 SG_ EngineSpeed : 0|16@1+ (0.25,0) [0|16383.75] "rpm" Vector__XXX
 SG_ EngineTemp : 16|8@1- (1,-40) [-40|215] "degC" Vector__XXX

BO_ 512 TransmissionData: 4 TCU
 SG_ GearPosition : 0|4@1+ (1,0) [0|15] "" Vector__XXX
"#;

fn physical(v: &SignalValue) -> f64 {
    v.value as f64 * v.factor.parse::<f64>().unwrap() + v.offset.parse::<f64>().unwrap()
}

#[test]
fn parse_messages() {
    let db = parse(SAMPLE_DBC).unwrap();
    assert_eq!(db.messages.len(), 2);

    let engine = db.messages.get(&256).unwrap();
    assert_eq!(engine.name, "EngineData");
    assert_eq!(engine.dlc, 8);
    assert_eq!(engine.signals.len(), 2);

    let trans = db.messages.get(&512).unwrap();
    assert_eq!(trans.name, "TransmissionData");
    assert_eq!(trans.signals.len(), 1);
}

#[test]
fn decode_unsigned_signal() {
    let db = parse(SAMPLE_DBC).unwrap();
    let data: Vec<u8> = vec![0x00, 0x10, 0, 0, 0, 0, 0, 0];
    assert!(db.can_decode(256, &data));
    let values = db.decode(256, &data);
    let speed = physical(values.get("EngineSpeed").unwrap());
    assert!((speed - 1024.0).abs() < 0.01, "speed={}", speed);
    assert_eq!(values.get("EngineSpeed").unwrap().value, 4096);
}

#[test]
fn decode_signed_signal() {
    let db = parse(SAMPLE_DBC).unwrap();
    let data: Vec<u8> = vec![0, 0, 0x00, 0, 0, 0, 0, 0];
    let values = db.decode(256, &data);
    let temp = physical(values.get("EngineTemp").unwrap());
    assert!((temp - (-40.0)).abs() < 0.01, "temp={}", temp);
}

#[test]
fn decode_unknown_message_returns_empty() {
    let db = parse(SAMPLE_DBC).unwrap();
    let values = db.decode(9999, &[]);
    assert!(values.is_empty());
}

#[test]
fn extract_raw_little_endian() {
    let data = [0x34u8, 0x12];
    let raw = extract_raw(&data, 0, 16, ByteOrder::LittleEndian);
    assert_eq!(raw, 0x1234);
}

#[test]
fn extract_raw_big_endian() {
    let data = [0x12u8, 0x34];
    assert_eq!(extract_raw(&data, 7, 16, ByteOrder::BigEndian), 0x1234);
    assert_eq!(extract_raw(&data, 3, 8, ByteOrder::BigEndian), 0x23);
}

#[test]
fn a_negative_value_keeps_its_sign() {
    let db = parse(SAMPLE_DBC).unwrap();
    let values = db.decode(256, &[0, 0, 0xFF, 0, 0, 0, 0, 0]);
    assert_eq!(values.get("EngineTemp").unwrap().value, -1);
    assert!((physical(values.get("EngineTemp").unwrap()) + 41.0).abs() < 0.01);
}

#[test]
fn a_signed_signal_may_have_all_bits() {
    let sig = DbcSignal {
        name: "S".to_string(),
        start_bit: 0,
        length: 64,
        byte_order: ByteOrder::LittleEndian,
        value_type: ValueType::Signed,
        factor: "1".to_string(),
        offset: "0".to_string(),
        min: "0".to_string(),
        max: "0".to_string(),
        unit: String::new(),
    };
    assert!(is_readable(&sig, &[0xFF; 8]));
    assert_eq!(decode_signal(&sig, &[0xFF; 8]), -1);
    assert_eq!(
        decode_signal(&sig, &[0, 0, 0, 0, 0, 0, 0, 0x80]),
        i64::MIN as i128
    );
}

#[test]
fn the_fields_of_a_signal() {
    let line: Vec<char> = " SG_ Temp : 23|12@0- (0.5,-40) [-40|215] \"degC\" ECU"
        .trim()
        .chars()
        .collect();
    let sig = parse_signal_line(&line).unwrap();
    assert_eq!(sig.name, "Temp");
    assert_eq!((sig.start_bit, sig.length), (23, 12));
    assert_eq!(sig.byte_order, ByteOrder::BigEndian);
    assert_eq!(sig.value_type, ValueType::Signed);
    assert_eq!((sig.factor.as_str(), sig.offset.as_str()), ("0.5", "-40"));
    assert_eq!((sig.min.as_str(), sig.max.as_str()), ("-40", "215"));
    assert_eq!(sig.unit, "degC");
}

#[test]
fn a_bad_message_line_is_an_error() {
    let line: Vec<char> = "BO_ x Name: 8 ECU".chars().collect();
    assert!(matches!(parse_message_line(&line), Err(Error::Other(_))));
    assert!(parse("BO_ x Name: 8 ECU").is_err());
}

#[test]
fn two_files_put_together() {
    let second = r#" SG_ Stray : 0|8@1+ (1,0) [0|255] "" Vector__XXX
BO_ 512 Gearbox: 8 TCU
 SG_ Gear : 0|8@1+ (1,0) [0|15] "" Vector__XXX
 SG_ Oil : 8|8@1+ (1,0) [0|255] "" Vector__XXX
BO_ 768 Brakes: 2 ESP"#;
    for first in [SAMPLE_DBC, SAMPLE_DBC.trim_end()] {
        let db = parse(&format!("{}\n\n{}", first, second)).unwrap();
        assert_eq!(db.messages.len(), 3);
        assert_eq!(db.messages.get(&256).unwrap().signals.len(), 2);
        let gearbox = db.messages.get(&512).unwrap();
        assert_eq!(gearbox.name, "Gearbox");
        assert_eq!(gearbox.signals.len(), 2);
        assert_eq!(db.messages.get(&768).unwrap().name, "Brakes");
    }
    let bad = "BO_ x Name: 8 ECU";
    assert!(parse(&format!("{}\n\n{}", SAMPLE_DBC, bad)).is_err());
    assert!(parse(&format!("{}\n\n{}", bad, SAMPLE_DBC)).is_err());
}

#[test]
fn decoded_signals_are_listed_once() {
    let db = parse(SAMPLE_DBC).unwrap();
    let mut values = db.decode(256, &[0, 0x10, 0, 0, 0, 0, 0, 0]);
    assert_eq!(values.len(), 2);
    assert_eq!(values.key_at(0), "EngineSpeed");
    assert_eq!(values.key_at(1), "EngineTemp");
    let speed = values.get("EngineSpeed").unwrap().clone();
    values.insert("EngineTemp".to_string(), speed.clone());
    assert_eq!(values.len(), 2);
    assert_eq!(values.get("EngineTemp").unwrap().value, speed.value);
    values.insert("Other".to_string(), speed);
    assert_eq!(values.len(), 3);
    assert_eq!(values.key_at(2), "Other");
}

#[test]
fn unknown_flags_are_shown() {
    let fault = |flags: &str| {
        let line = format!("BO_ 1 M: 8 E\nSG_ S : 0|8@{} (1,0) [0|1] \"\" E", flags);
        parse(&line).unwrap_err().to_string()
    };
    assert_eq!(fault("2+"), "dbc: unknown byte order: Some('2')");
    assert_eq!(fault(""), "dbc: unknown byte order: None");
    assert_eq!(fault("1\'"), "dbc: unknown value type: Some('\\'')");
    assert_eq!(fault("1"), "dbc: unknown value type: None");
}
