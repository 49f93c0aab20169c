use rust_can::crc::{crc16_ccitt_false, crc16_ccitt_false_cont};
use rust_can::safety::{
    build_header, Config, E2EErrorKind, HmacSha256Auth, MessageAuthenticator, Protector, Receiver,
    HEADER_SIZE,
};

#[test]
fn known_value() {
    assert_eq!(crc16_ccitt_false(b"123456789"), 0x29B1);
}

#[test]
fn empty_data() {
    assert_eq!(crc16_ccitt_false(&[]), 0xFFFF);
}

#[test]
fn a_checksum_can_be_continued() {
    let front = crc16_ccitt_false(b"1234");
    assert_eq!(crc16_ccitt_false_cont(front, b"56789"), 0x29B1);
    assert_eq!(
        rust_can::safety::crc16_ccitt_false_cont(front, b"56789"),
        0x29B1
    );
}

fn make_pair() -> (Protector, Receiver) {
    let cfg = Config {
        data_id: 0x1234,
        source_id: 0x5678,
    };
    (Protector::new(cfg), Receiver::new(cfg))
}

#[test]
fn header_prepended() {
    let (mut p, _r) = make_pair();
    let payload = b"hello";
    let protected = p.protect(payload);
    assert_eq!(protected.len(), HEADER_SIZE + payload.len());
    assert_eq!(&protected[HEADER_SIZE..], payload);
}

#[test]
fn protect_and_unwrap() {
    let (mut p, mut r) = make_pair();
    let payload = b"test data";
    let protected = p.protect(payload);
    let recovered = r.unwrap(&protected).unwrap();
    assert_eq!(recovered, payload);
}

#[test]
fn sequence_counter_increments() {
    let (mut p, mut r) = make_pair();
    let p1 = p.protect(b"a");
    let p2 = p.protect(b"b");
    let p3 = p.protect(b"c");

    r.unwrap(&p1).unwrap();
    r.unwrap(&p2).unwrap();
    r.unwrap(&p3).unwrap();
}

#[test]
fn crc_mismatch_detected() {
    let (mut p, mut r) = make_pair();
    let mut protected = p.protect(b"hello");
    protected[HEADER_SIZE] ^= 0xFF;
    let err = r.unwrap(&protected).unwrap_err();
    assert_eq!(err.kind, E2EErrorKind::CrcMismatch);
}

#[test]
fn sequence_gap_detected() {
    let (mut p, mut r) = make_pair();
    let p0 = p.protect(b"frame 0");
    let _p1 = p.protect(b"frame 1");
    let p2 = p.protect(b"frame 2");

    r.unwrap(&p0).unwrap();
    let err = r.unwrap(&p2).unwrap_err();
    assert_eq!(err.kind, E2EErrorKind::SequenceGap);
}

#[test]
fn header_too_short_detected() {
    let (_p, mut r) = make_pair();
    let err = r.unwrap(&[0u8; 5]).unwrap_err();
    assert_eq!(err.kind, E2EErrorKind::HeaderTooShort);
}

#[test]
fn empty_payload_works() {
    let (mut p, mut r) = make_pair();
    let protected = p.protect(&[]);
    let recovered = r.unwrap(&protected).unwrap();
    assert!(recovered.is_empty());
}

#[test]
fn the_header_is_little_endian() {
    let h = build_header(0x1234, 0x5678, 0x0102_0304, b"x");
    assert_eq!(&h[..8], &[0x34, 0x12, 0x78, 0x56, 0x04, 0x03, 0x02, 0x01]);
    let mut whole = h[..8].to_vec();
    whole.push(b'x');
    let crc = crc16_ccitt_false(&whole);
    assert_eq!(&h[8..], &crc.to_le_bytes());
}

#[test]
fn a_replayed_message_is_refused() {
    let (mut p, mut r) = make_pair();
    let p0 = p.protect(b"frame 0");
    r.unwrap(&p0).unwrap();
    let err = r.unwrap(&p0).unwrap_err();
    assert_eq!(err.kind, E2EErrorKind::SequenceGap);
}

#[test]
fn up_to_three_wrong_bits_are_found() {
    let (mut p, _r) = make_pair();
    let protected = p.protect(b"safety-critical-command");
    let cfg = Config {
        data_id: 0x1234,
        source_id: 0x5678,
    };
    for (a, b, c) in [
        (4usize, 10usize, 20usize),
        (8, 9, 12),
        (11, 11, 30),
        (0, 2, 3),
        (1, 7, 15),
    ] {
        let mut wrong = protected.clone();
        wrong[a] ^= 0x01;
        wrong[b] ^= 0x80;
        wrong[c] ^= 0x10;
        let err = Receiver::new(cfg).unwrap(&wrong).unwrap_err();
        assert_eq!(err.kind, E2EErrorKind::CrcMismatch);
    }
}

#[test]
fn wrong_identifier_bytes_are_found() {
    let zero = Config {
        data_id: 0,
        source_id: 0,
    };
    let mut r = Receiver::new(zero);
    let message = [1, 0, 0, 0, 0, 0, 0, 0, 0x3E, 0x31];
    let err = r.unwrap(&message).unwrap_err();
    assert_eq!(err.kind, E2EErrorKind::CrcMismatch);
    assert_eq!(
        err.message,
        "CRC mismatch: the header carries other identifiers"
    );
    let sent = Protector::new(zero).protect(&[]);
    assert_eq!(sent, vec![0, 0, 0, 0, 0, 0, 0, 0, 0x3E, 0x31]);
    assert!(r.unwrap(&sent).unwrap().is_empty());
}

#[test]
fn any_wrong_byte_is_found() {
    let (mut p, mut r) = make_pair();
    let sent = p.protect(b"stop");
    for i in 0..sent.len() {
        for flip in [0x01u8, 0x80, 0xFF] {
            let mut wrong = sent.clone();
            wrong[i] ^= flip;
            let err = r.unwrap(&wrong).unwrap_err();
            assert_eq!(err.kind, E2EErrorKind::CrcMismatch);
        }
    }
    assert_eq!(r.unwrap(&sent).unwrap(), b"stop");
}

#[test]
fn two_neighbouring_wrong_bytes_are_found() {
    let (mut p, mut r) = make_pair();
    let sent = p.protect(b"stop now");
    for i in 0..sent.len() - 1 {
        if i == 7 || i == 9 {
            continue;
        }
        for first in 0..=255u8 {
            for second in [0u8, 0x01, 0x21, 0x80, 0xFF] {
                let mut wrong = sent.clone();
                wrong[i] ^= first;
                wrong[i + 1] ^= second;
                if wrong == sent {
                    continue;
                }
                let err = r.unwrap(&wrong).unwrap_err();
                assert_eq!(err.kind, E2EErrorKind::CrcMismatch);
                let counter = [wrong[4], wrong[5], wrong[6], wrong[7]];
                assert_eq!(err.counter, u32::from_le_bytes(counter));
            }
        }
    }
    assert_eq!(r.unwrap(&sent).unwrap(), b"stop now");
}

#[test]
fn a_message_under_other_identifiers_is_refused() {
    let (mut p, _r) = make_pair();
    let sent = p.protect(b"stop");
    for (data_id, source_id) in [(0x1235u16, 0x5678u16), (0x1234, 0x5679), (0, 0)] {
        let mut r = Receiver::new(Config { data_id, source_id });
        let err = r.unwrap(&sent).unwrap_err();
        assert_eq!(err.kind, E2EErrorKind::CrcMismatch);
    }
}

#[test]
fn error_kinds_in_words() {
    assert_eq!(E2EErrorKind::CrcMismatch.to_string(), "CRC mismatch");
    assert_eq!(E2EErrorKind::SequenceGap.to_string(), "sequence gap");
    let (_p, mut r) = make_pair();
    let err = r.unwrap(&[]).unwrap_err();
    assert!(!err.to_string().is_empty());
    assert_eq!(err.counter, 0);
}

#[test]
fn hmac_sign_verify_roundtrip() {
    let auth = HmacSha256Auth;
    let key = b"test-key-32-bytes-padding-padpad";
    let data = b"safety-critical-payload";
    let tag = auth.sign(key, data);
    assert_eq!(tag.len(), 32);
    assert!(auth.verify(key, data, &tag));
}

#[test]
fn hmac_wrong_key_rejected() {
    let auth = HmacSha256Auth;
    let key = b"correct-key-32-bytes-padding-pad";
    let bad_key = b"wrong-key-32-bytes-padding-paddd";
    let data = b"payload";
    let tag = auth.sign(key, data);
    assert!(!auth.verify(bad_key, data, &tag));
}

#[test]
fn hmac_tampered_data_rejected() {
    let auth = HmacSha256Auth;
    let key = b"key-32-bytes-padding-paddingpadd";
    let data = b"original";
    let tag = auth.sign(key, data);
    assert!(!auth.verify(key, b"tampered", &tag));
}

#[test]
fn hmac_tag_len() {
    assert_eq!(HmacSha256Auth.tag_len(), 32);
}

#[test]
fn hmac_of_a_published_test_vector() {
    let tag = HmacSha256Auth.sign(b"Jefe", b"what do ya want for nothing?");
    assert_eq!(
        tag,
        vec![
            0x5b, 0xdc, 0xc1, 0x46, 0xbf, 0x60, 0x75, 0x4e, 0x6a, 0x04, 0x24, 0x26, 0x08, 0x95,
            0x75, 0xc7, 0x5a, 0x00, 0x3f, 0x08, 0x9d, 0x27, 0x39, 0x83, 0x9d, 0xec, 0x58, 0xb9,
            0x64, 0xec, 0x38, 0x43,
        ]
    );
    assert!(!HmacSha256Auth.verify(b"Jefe", b"what do ya want for nothing?", &tag[..31]));
}
