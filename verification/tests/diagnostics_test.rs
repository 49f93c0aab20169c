use rust_can::isotp::{Config, Event, IsoTpConn, RecvNext, SendAction};
use rust_can::obdii;
use rust_can::obdii::{
    decode_mode01, PID_COOLANT_TEMP, PID_ENGINE_LOAD, PID_ENGINE_RPM, PID_TIMING_ADVANCE,
    PID_VEHICLE_SPEED,
};
use rust_can::uds::{
    CallStep, Client, NegativeResponseError, ResetType, SessionType, MAX_RESPONSE_PENDING_RETRIES,
    NRC_RESPONSE_PENDING, POSITIVE_RESPONSE_OFFSET, SID_DIAGNOSTIC_SESSION_CONTROL, SID_ECU_RESET,
    SID_NEGATIVE_RESPONSE, SID_READ_DID, SID_TESTER_PRESENT,
};
use rust_can::Error;

// -- UDS --------------------------------------------------------------------

#[test]
fn negative_response_error_display() {
    let e = NegativeResponseError {
        service: SID_READ_DID,
        nrc: 0x31,
    };
    let s = e.to_string();
    assert!(s.contains("0x31"), "should contain NRC hex: {}", s);
    assert!(
        s.contains("requestOutOfRange"),
        "should contain NRC name: {}",
        s
    );
    assert!(s.contains("0x22"), "should contain service hex: {}", s);
}

#[test]
fn negative_response_error_unknown_nrc() {
    let e = NegativeResponseError {
        service: SID_ECU_RESET,
        nrc: 0xFF,
    };
    assert_eq!(e.nrc_description(), "unknown");
}

#[test]
fn session_type_values() {
    assert_eq!(SessionType::Default.value(), 0x01);
    assert_eq!(SessionType::Programming.value(), 0x02);
    assert_eq!(SessionType::Extended.value(), 0x03);
}

#[test]
fn reset_type_values() {
    assert_eq!(ResetType::Hard.value(), 0x01);
    assert_eq!(ResetType::KeyOffOn.value(), 0x02);
    assert_eq!(ResetType::Soft.value(), 0x03);
}

#[test]
fn security_access_key_level_is_seed_level_plus_one() {
    assert_eq!(0x01_u8 + 1, 0x02);
    assert_eq!(0x03_u8 + 1, 0x04);
    let client = Client::new();
    assert_eq!(client.security_access_request_seed(0x01).request[1], 0x01);
    assert_eq!(client.security_access_send_key(0x01, &[9]).request[1], 0x02);
    assert_eq!(client.security_access_send_key(0x03, &[9]).request[1], 0x04);
}

/// Carries a short message from one end of an ISO-TP connection to the other.
fn carry(from: &IsoTpConn, to: &IsoTpConn, payload: &[u8]) -> Vec<u8> {
    let (mut tx, frame) = from.send(payload).unwrap();
    let mut rx = to.recv();
    let got = match rx.on_event(Event::Received(frame)).next {
        RecvNext::Done(data) => data,
        other => panic!("expected the message, got {:?}", other),
    };
    assert!(matches!(tx.on_sent(), SendAction::Done));
    got
}

fn client_and_ecu_conn() -> (IsoTpConn, IsoTpConn) {
    let client = IsoTpConn::new(Config {
        tx_id: 0x7E0,
        rx_id: 0x7E8,
        ..Default::default()
    })
    .unwrap();
    let ecu = IsoTpConn::new(Config {
        tx_id: 0x7E8,
        rx_id: 0x7E0,
        ..Default::default()
    })
    .unwrap();
    (client, ecu)
}

#[test]
fn request_is_transported_over_isotp() {
    let (client_conn, ecu_conn) = client_and_ecu_conn();
    let mut call = Client::new().diagnostic_session_control(SessionType::Extended);

    let req = carry(&client_conn, &ecu_conn, &call.request);
    assert_eq!(req, vec![SID_DIAGNOSTIC_SESSION_CONTROL, 0x03]);
    let resp = carry(
        &ecu_conn,
        &client_conn,
        &[
            SID_DIAGNOSTIC_SESSION_CONTROL + POSITIVE_RESPONSE_OFFSET,
            0x03,
        ],
    );
    assert!(matches!(call.on_response(resp), CallStep::Done(_)));
}

#[test]
fn request_retries_transparently_on_response_pending_nrc() {
    let (client_conn, ecu_conn) = client_and_ecu_conn();
    let mut call = Client::new().tester_present(false);

    for _ in 0..2 {
        let resp = carry(
            &ecu_conn,
            &client_conn,
            &[
                SID_NEGATIVE_RESPONSE,
                SID_TESTER_PRESENT,
                NRC_RESPONSE_PENDING,
            ],
        );
        assert!(matches!(call.on_response(resp), CallStep::Wait));
    }
    let resp = carry(
        &ecu_conn,
        &client_conn,
        &[SID_TESTER_PRESENT + POSITIVE_RESPONSE_OFFSET, 0x00],
    );
    assert!(matches!(call.on_response(resp), CallStep::Done(_)));
}

#[test]
fn request_surfaces_non_pending_negative_response_immediately() {
    let mut call = Client::new().tester_present(false);
    match call.on_response(vec![SID_NEGATIVE_RESPONSE, SID_TESTER_PRESENT, 0x31]) {
        CallStep::Failed(err) => assert!(err.to_string().contains("0x31")),
        other => panic!("a refusal must end the call, got {:?}", other),
    }
}

#[test]
fn waiting_comes_to_an_end() {
    let mut call = Client::new().ecu_reset(ResetType::Hard);
    for _ in 0..MAX_RESPONSE_PENDING_RETRIES {
        assert!(matches!(
            call.on_response(vec![0x7F, 0x11, 0x78]),
            CallStep::Wait
        ));
    }
    match call.on_response(vec![0x7F, 0x11, 0x78]) {
        CallStep::Failed(err) => assert!(err.to_string().contains("too many")),
        other => panic!("expected a failure, got {:?}", other),
    }
}

#[test]
fn a_data_identifier_is_read() {
    let mut call = Client::new().read_did(0xF190);
    assert_eq!(call.request, vec![0x22, 0xF1, 0x90]);
    match call.on_response(vec![0x62, 0xF1, 0x90, 1, 2]) {
        CallStep::Done(data) => assert_eq!(data, vec![1, 2]),
        other => panic!("expected the data, got {:?}", other),
    }
    let mut call = Client::new().read_did(0xF190);
    match call.on_response(vec![0x62, 0xF1, 0x91, 1]) {
        CallStep::Failed(Error::Other(text)) => {
            assert!(text.contains("[62, F1, 91, 1]"), "{}", text)
        }
        other => panic!("expected a failure, got {:?}", other),
    }
}

#[test]
fn a_data_identifier_is_written() {
    let call = Client::new().write_did(0x1234, &[7, 8]);
    assert_eq!(call.request, vec![0x2E, 0x12, 0x34, 7, 8]);
    assert!(call.answered);
    let call = Client::new().tester_present(true);
    assert_eq!(call.request, vec![0x3E, 0x80]);
    assert!(!call.answered);
}

// -- OBD-II -----------------------------------------------------------------

fn float(v: &obdii::Value) -> f64 {
    v.numerator as f64 / v.denominator as f64
}

#[test]
fn decode_rpm_from_bytes() {
    let v = decode_mode01(PID_ENGINE_RPM, vec![0x0B, 0xB8]);
    assert!(
        (float(&v) - 750.0).abs() < 0.01,
        "expected 750 rpm, got {}",
        float(&v)
    );
    assert_eq!(v.unit, "rpm");
}

#[test]
fn decode_speed_from_byte() {
    let v = decode_mode01(PID_VEHICLE_SPEED, vec![0x64]);
    assert!((float(&v) - 100.0).abs() < 0.01, "expected 100 km/h");
    assert_eq!(v.unit, "km/h");
}

#[test]
fn decode_coolant_temp() {
    let v = decode_mode01(PID_COOLANT_TEMP, vec![0x69]);
    assert!(
        (float(&v) - 65.0).abs() < 0.01,
        "expected 65°C, got {}",
        float(&v)
    );
    assert_eq!(v.unit, "°C");
}

#[test]
fn every_formula_of_mode_one() {
    let cases: [(u8, Vec<u8>, i32, i32, &str); 9] = [
        (PID_ENGINE_LOAD, vec![51], 5100, 255, "%"),
        (PID_TIMING_ADVANCE, vec![0], -128, 2, "°"),
        (obdii::PID_MAF, vec![1, 4], 260, 100, "g/s"),
        (obdii::PID_BAROMETRIC_PRESSURE, vec![101], 101, 1, "kPa"),
        (
            obdii::PID_CONTROL_MODULE_VOLTAGE,
            vec![0x2E, 0xE0],
            12000,
            1000,
            "V",
        ),
        (obdii::PID_RUNTIME_SINCE_START, vec![1, 0], 256, 1, "s"),
        (obdii::PID_AMBIENT_AIR_TEMP, vec![0], -40, 1, "°C"),
        (PID_ENGINE_RPM, vec![1], 0, 1, ""),
        (0xEE, vec![1, 2], 0, 1, ""),
    ];
    for (pid, data, numerator, denominator, unit) in cases {
        let v = decode_mode01(pid, data.clone());
        assert_eq!((v.numerator, v.denominator, v.unit), (numerator, denominator, unit));
        assert_eq!((v.pid, v.raw), (pid, data));
    }
}

#[test]
fn responses_to_obd_requests() {
    let c = obdii::Client::new();
    assert_eq!(c.current_data_request(PID_ENGINE_RPM), vec![0x01, 0x0C]);
    assert_eq!(c.vin_request(), vec![0x09, 0x02]);
    let v = c
        .read_pid(PID_ENGINE_RPM, vec![0x41, 0x0C, 0x0B, 0xB8])
        .unwrap();
    assert_eq!(v.numerator, 3000);
    assert_eq!(
        c.supported_pids(0x00, vec![0x41, 0x00, 0xBE, 0x1F, 0xA8, 0x13])
            .unwrap(),
        0xBE1F_A813
    );
    let mut resp = vec![0x49, 0x02, 0x01];
    resp.extend_from_slice(b"1HGCM82633A004352");
    resp.push(0);
    resp.push(0xFF);
    assert_eq!(c.read_vin(resp).unwrap(), "1HGCM82633A004352");
}

#[test]
fn errors_of_obd_responses() {
    let c = obdii::Client::new();
    let text = |e: Error| e.to_string();
    assert_eq!(
        text(c.read_pid(0x0C, vec![]).unwrap_err()),
        "obdii: empty response"
    );
    assert_eq!(
        text(c.read_pid(0x0C, vec![0x7F, 0x01, 0x12]).unwrap_err()),
        "obdii: negative response for mode 0x01: NRC 0x12"
    );
    assert_eq!(
        text(c.read_vin(vec![0x7F]).unwrap_err()),
        "obdii: negative response for mode 0x09: NRC 0x00"
    );
    assert_eq!(
        text(c.read_pid(0x0C, vec![0x41, 0x0D, 0xAB]).unwrap_err()),
        "obdii: unexpected response for PID 0x0C: [41, D, AB]"
    );
    assert_eq!(
        text(c.supported_pids(0x20, vec![0x41, 0x20]).unwrap_err()),
        "obdii: unexpected supported PIDs response: [41, 20]"
    );
    assert_eq!(
        text(c.read_vin(vec![0x49, 0x02, 0x01]).unwrap_err()),
        "obdii: unexpected VIN response: [49, 2, 1]"
    );
    let e = text(c.read_vin(vec![0x49, 0x02, 0x01, 0xFF]).unwrap_err());
    assert!(e.starts_with("obdii: VIN not valid UTF-8: invalid utf-8"), "{}", e);
}
