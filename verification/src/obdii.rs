//! OBD-II diagnostics over an ISO-TP connection.
use vstd::prelude::*;
use vstd::slice::slice_subrange;
use vstd::slice::slice_to_vec;

use crate::error::{Error, ErrorView};
use crate::text;

verus! {

pub const MODE_CURRENT_DATA: u8 = 0x01;

pub const MODE_FREEZE_DTC: u8 = 0x02;

pub const MODE_STORED_DTC: u8 = 0x03;

pub const MODE_CLEAR_DTC: u8 = 0x04;

pub const MODE_VEHICLE_INFO: u8 = 0x09;

pub const PID_ENGINE_LOAD: u8 = 0x04;

pub const PID_COOLANT_TEMP: u8 = 0x05;

pub const PID_ENGINE_RPM: u8 = 0x0C;

pub const PID_VEHICLE_SPEED: u8 = 0x0D;

pub const PID_THROTTLE_POSITION: u8 = 0x11;

pub const PID_INTAKE_AIR_TEMP: u8 = 0x0F;

pub const PID_MAF: u8 = 0x10;

pub const PID_FUEL_TANK_LEVEL: u8 = 0x2F;

pub const PID_BAROMETRIC_PRESSURE: u8 = 0x33;

pub const PID_AMBIENT_AIR_TEMP: u8 = 0x46;

pub const PID_TIMING_ADVANCE: u8 = 0x0E;

pub const PID_CONTROL_MODULE_VOLTAGE: u8 = 0x42;

pub const PID_RUNTIME_SINCE_START: u8 = 0x1F;

pub const PID_INTAKE_MANIFOLD_PRESSURE: u8 = 0x0B;

pub const PID_VIN: u8 = 0x02;

// ---------------------------------------------------------------------------
// Values
// ---------------------------------------------------------------------------

/// A reading: the physical value is `numerator / denominator`, in the given unit.
#[derive(Debug)]
pub struct Value {
    pub pid: u8,
    pub raw: Vec<u8>,
    pub numerator: i32,
    pub denominator: i32,
    pub unit: &'static str,
}

/// The mathematical value of a [`Value`].
pub struct ValueView {
    pub pid: u8,
    pub raw: Seq<u8>,
    pub numerator: int,
    pub denominator: int,
    pub unit: Seq<char>,
}

impl View for Value {
    type V = ValueView;

    open spec fn view(&self) -> ValueView {
        ValueView {
            pid: self.pid,
            raw: self.raw@,
            numerator: self.numerator as int,
            denominator: self.denominator as int,
            unit: self.unit@,
        }
    }
}

/// The number that the first two bytes write, the high one first.
pub open spec fn word(data: Seq<u8>) -> int {
    data[0] * 256 + data[1]
}

/// Whether a reading is made of two bytes.
pub open spec fn is_wide(pid: u8) -> bool {
    pid == PID_ENGINE_RPM || pid == PID_MAF || pid == PID_CONTROL_MODULE_VOLTAGE || pid
        == PID_RUNTIME_SINCE_START
}

/// Numerator, denominator and unit of a reading whose bytes are all there. A parameter that
/// is not known reads as 0 without a unit.
pub open spec fn scaled(pid: u8, data: Seq<u8>) -> (int, int, Seq<char>) {
    if pid == PID_ENGINE_RPM {
        (word(data), 4, "rpm"@)
    } else if pid == PID_VEHICLE_SPEED {
        (data[0] as int, 1, "km/h"@)
    } else if pid == PID_COOLANT_TEMP || pid == PID_INTAKE_AIR_TEMP || pid
        == PID_AMBIENT_AIR_TEMP {
        (data[0] - 40, 1, "°C"@)
    } else if pid == PID_ENGINE_LOAD || pid == PID_THROTTLE_POSITION || pid
        == PID_FUEL_TANK_LEVEL {
        (data[0] * 100, 255, "%"@)
    } else if pid == PID_MAF {
        (word(data), 100, "g/s"@)
    } else if pid == PID_INTAKE_MANIFOLD_PRESSURE || pid == PID_BAROMETRIC_PRESSURE {
        (data[0] as int, 1, "kPa"@)
    } else if pid == PID_TIMING_ADVANCE {
        (data[0] - 128, 2, "°"@)
    } else if pid == PID_CONTROL_MODULE_VOLTAGE {
        (word(data), 1000, "V"@)
    } else if pid == PID_RUNTIME_SINCE_START {
        (word(data), 1, "s"@)
    } else {
        (0, 1, ""@)
    }
}

/// The reading of a parameter. Where bytes are missing it is 0 without a unit.
pub open spec fn reading(pid: u8, data: Seq<u8>) -> ValueView {
    let (numerator, denominator, unit) = if data.len() < (if is_wide(pid) { 2nat } else { 1nat }) {
        (0int, 1int, ""@)
    } else {
        scaled(pid, data)
    };
    ValueView { pid, raw: data, numerator, denominator, unit }
}

/// Reads the bytes of a current-data parameter.
pub fn decode_mode01(pid: u8, data: Vec<u8>) -> (r: Value)
    ensures
        r@ == reading(pid, data@),
        r.denominator > 0,
{
    let n: usize = data.len();
    let one: i32 = if n >= 1 { data[0] as i32 } else { 0 };
    let two: i32 = if n >= 2 { data[0] as i32 * 256 + data[1] as i32 } else { 0 };
    let mut numerator: i32 = 0;
    let mut denominator: i32 = 1;
    let mut unit: &'static str = "";
    if pid == PID_ENGINE_RPM {
        if n >= 2 {
            numerator = two;
            denominator = 4;
            unit = "rpm";
        }
    } else if pid == PID_VEHICLE_SPEED {
        if n >= 1 {
            numerator = one;
            unit = "km/h";
        }
    } else if pid == PID_COOLANT_TEMP || pid == PID_INTAKE_AIR_TEMP || pid
        == PID_AMBIENT_AIR_TEMP {
        if n >= 1 {
            numerator = one - 40;
            unit = "°C";
        }
    } else if pid == PID_ENGINE_LOAD || pid == PID_THROTTLE_POSITION || pid
        == PID_FUEL_TANK_LEVEL {
        if n >= 1 {
            numerator = one * 100;
            denominator = 255;
            unit = "%";
        }
    } else if pid == PID_MAF {
        if n >= 2 {
            numerator = two;
            denominator = 100;
            unit = "g/s";
        }
    } else if pid == PID_INTAKE_MANIFOLD_PRESSURE || pid == PID_BAROMETRIC_PRESSURE {
        if n >= 1 {
            numerator = one;
            unit = "kPa";
        }
    } else if pid == PID_TIMING_ADVANCE {
        if n >= 1 {
            numerator = one - 128;
            denominator = 2;
            unit = "°";
        }
    } else if pid == PID_CONTROL_MODULE_VOLTAGE {
        if n >= 2 {
            numerator = two;
            denominator = 1000;
            unit = "V";
        }
    } else if pid == PID_RUNTIME_SINCE_START {
        if n >= 2 {
            numerator = two;
            unit = "s";
        }
    }
    Value { pid, raw: data, numerator, denominator, unit }
}

// ---------------------------------------------------------------------------
// Client
// ---------------------------------------------------------------------------

/// Makes requests and reads the responses to them.
#[derive(Debug, Clone, Copy)]
pub struct Client {  }

/// The response to a request of `mode`, if it is neither empty nor a refusal.
pub open spec fn accepted(mode: u8, resp: Seq<u8>) -> Result<Seq<u8>, ErrorView> {
    if resp.len() == 0 {
        Err(ErrorView::Other("obdii: empty response"@))
    } else if resp[0] == 0x7F {
        Err(
            ErrorView::Other(
                "obdii: negative response for mode 0x"@ + text::padded_text(mode as nat, 16, 2)
                    + ": NRC 0x"@ + text::padded_text(
                    if resp.len() >= 3 { resp[2] as nat } else { 0 },
                    16,
                    2,
                ),
            ),
        )
    } else {
        Ok(resp)
    }
}

/// The reading that a response to a request for `pid` carries.
pub open spec fn pid_response(pid: u8, resp: Seq<u8>) -> Result<ValueView, ErrorView> {
    match accepted(0x01, resp) {
        Err(e) => Err(e),
        Ok(resp) => if resp.len() < 3 || resp[0] != 0x41 || resp[1] != pid {
            Err(
                ErrorView::Other(
                    "obdii: unexpected response for PID 0x"@ + text::padded_text(
                        pid as nat,
                        16,
                        2,
                    ) + ": "@ + text::hex_list_text(resp),
                ),
            )
        } else {
            Ok(reading(pid, resp.skip(2)))
        },
    }
}

/// The bytes in front of the first zero byte.
pub open spec fn until_zero(data: Seq<u8>) -> Seq<u8>
    decreases data.len(),
{
    if data.len() == 0 || data[0] == 0 {
        Seq::empty()
    } else {
        seq![data[0]] + until_zero(data.skip(1))
    }
}

/// The vehicle identification number that a response carries.
pub open spec fn vin_response(resp: Seq<u8>) -> Result<Seq<char>, ErrorView> {
    match accepted(0x09, resp) {
        Err(e) => Err(e),
        Ok(resp) => {
            let bytes = until_zero(resp.skip(3));
            if resp.len() < 4 || resp[0] != 0x49 || resp[1] != 0x02 {
                Err(
                    ErrorView::Other(
                        "obdii: unexpected VIN response: "@ + text::hex_list_text(resp),
                    ),
                )
            } else if !vstd::utf8::valid_utf8(bytes) {
                Err(
                    ErrorView::Other(
                        "obdii: VIN not valid UTF-8: "@ + text::utf8_error_text(bytes),
                    ),
                )
            } else {
                Ok(vstd::utf8::decode_utf8(bytes))
            }
        },
    }
}

/// The mask of supported parameters that a response carries, the high byte first.
pub open spec fn mask_response(group: u8, resp: Seq<u8>) -> Result<u32, ErrorView> {
    match accepted(0x01, resp) {
        Err(e) => Err(e),
        Ok(resp) => if resp.len() < 6 || resp[0] != 0x41 || resp[1] != group {
            Err(
                ErrorView::Other(
                    "obdii: unexpected supported PIDs response: "@ + text::hex_list_text(resp),
                ),
            )
        } else {
            Ok(
                (resp[2] * 0x100_0000 + resp[3] * 0x1_0000 + resp[4] * 0x100 + resp[5]) as u32,
            )
        },
    }
}

fn accept(mode: u8, resp: &Vec<u8>) -> (r: Result<(), Error>)
    ensures
        match r {
            Ok(()) => accepted(mode, resp@) == Ok::<Seq<u8>, ErrorView>(resp@),
            Err(e) => accepted(mode, resp@) == Err::<Seq<u8>, ErrorView>(e@),
        },
{
    if resp.len() == 0 {
        return Err(Error::other("obdii: empty response"));
    }
    if resp[0] == 0x7F {
        let nrc: u8 = if resp.len() >= 3 { resp[2] } else { 0 };
        let a = text::padded_string(mode as u64, 16, 2);
        let b = text::padded_string(nrc as u64, 16, 2);
        return Err(
            Error::Other(
                text::join4(
                    "obdii: negative response for mode 0x",
                    a.as_str(),
                    ": NRC 0x",
                    b.as_str(),
                ),
            ),
        );
    }
    Ok(())
}

fn vin_bytes(data: &[u8]) -> (r: Vec<u8>)
    ensures
        r@ == until_zero(data@),
{
    let mut out: Vec<u8> = Vec::new();
    let mut i: usize = 0;
    assert(data@.skip(0) =~= data@);
    assert(out@ + until_zero(data@) =~= until_zero(data@));
    while i < data.len() && data[i] != 0
        invariant
            i <= data@.len(),
            out@ + until_zero(data@.skip(i as int)) == until_zero(data@),
        decreases data@.len() - i,
    {
        let ghost before = out@;
        out.push(data[i]);
        proof {
            let here = data@.skip(i as int);
            assert(here.skip(1) =~= data@.skip(i + 1));
            assert(before + (seq![here[0]] + until_zero(here.skip(1))) =~= out@ + until_zero(
                here.skip(1),
            ));
        }
        i += 1;
    }
    assert(out@ + until_zero(data@.skip(i as int)) =~= out@);
    out
}

impl Client {
    /// A client.
    pub fn new() -> (r: Client)
        ensures
            r == (Client {  }),
    {
        Client {  }
    }

    /// The request for a current-data parameter, or for the mask of a group of them.
    pub fn current_data_request(&self, pid: u8) -> (r: Vec<u8>)
        ensures
            r@ == seq![0x01u8, pid],
    {
        let r: Vec<u8> = vec![MODE_CURRENT_DATA, pid];
        assert(r@ =~= seq![0x01u8, pid]);
        r
    }

    /// The request for the vehicle identification number.
    pub fn vin_request(&self) -> (r: Vec<u8>)
        ensures
            r@ == seq![0x09u8, 0x02u8],
    {
        let r: Vec<u8> = vec![MODE_VEHICLE_INFO, PID_VIN];
        assert(r@ =~= seq![0x09u8, 0x02u8]);
        r
    }

    /// The reading that the response to a request for `pid` carries.
    pub fn read_pid(&self, pid: u8, resp: Vec<u8>) -> (r: Result<Value, Error>)
        ensures
            match r {
                Ok(v) => pid_response(pid, resp@) == Ok::<ValueView, ErrorView>(v@)
                    && v.denominator > 0,
                Err(e) => pid_response(pid, resp@) == Err::<ValueView, ErrorView>(e@),
            },
    {
        if let Err(e) = accept(MODE_CURRENT_DATA, &resp) {
            return Err(e);
        }
        if resp.len() < 3 || resp[0] != 0x41 || resp[1] != pid {
            let a = text::padded_string(pid as u64, 16, 2);
            let b = text::hex_list(&resp);
            return Err(
                Error::Other(
                    text::join4(
                        "obdii: unexpected response for PID 0x",
                        a.as_str(),
                        ": ",
                        b.as_str(),
                    ),
                ),
            );
        }
        let tail = slice_subrange(&resp, 2, resp.len());
        assert(tail@ =~= resp@.skip(2));
        Ok(decode_mode01(pid, slice_to_vec(tail)))
    }

    /// The vehicle identification number that a response carries.
    pub fn read_vin(&self, resp: Vec<u8>) -> (r: Result<String, Error>)
        ensures
            match r {
                Ok(s) => vin_response(resp@) == Ok::<Seq<char>, ErrorView>(s@),
                Err(e) => vin_response(resp@) == Err::<Seq<char>, ErrorView>(e@),
            },
    {
        if let Err(e) = accept(MODE_VEHICLE_INFO, &resp) {
            return Err(e);
        }
        if resp.len() < 4 || resp[0] != 0x49 || resp[1] != PID_VIN {
            let shown = text::hex_list(&resp);
            return Err(
                Error::Other(text::join2("obdii: unexpected VIN response: ", shown.as_str())),
            );
        }
        let tail = slice_subrange(&resp, 3, resp.len());
        assert(tail@ =~= resp@.skip(3));
        match text::utf8_string(vin_bytes(tail)) {
            Ok(s) => Ok(s),
            Err(e) => Err(Error::Other(text::join2("obdii: VIN not valid UTF-8: ", e.as_str()))),
        }
    }

    /// The mask of supported parameters of a group that a response carries.
    pub fn supported_pids(&self, group: u8, resp: Vec<u8>) -> (r: Result<u32, Error>)
        ensures
            match r {
                Ok(m) => mask_response(group, resp@) == Ok::<u32, ErrorView>(m),
                Err(e) => mask_response(group, resp@) == Err::<u32, ErrorView>(e@),
            },
    {
        if let Err(e) = accept(MODE_CURRENT_DATA, &resp) {
            return Err(e);
        }
        if resp.len() < 6 || resp[0] != 0x41 || resp[1] != group {
            let shown = text::hex_list(&resp);
            return Err(
                Error::Other(
                    text::join2("obdii: unexpected supported PIDs response: ", shown.as_str()),
                ),
            );
        }
        Ok(
            resp[2] as u32 * 0x100_0000 + resp[3] as u32 * 0x1_0000 + resp[4] as u32 * 0x100
                + resp[5] as u32,
        )
    }
}

// ---------------------------------------------------------------------------
// Laws
// ---------------------------------------------------------------------------

/// Engine load, throttle position and fuel level are percentages: a byte of 0 is none, a
/// byte of 255 is exactly all, and in between the reading is proportional to the byte. So
/// it never leaves the range of 0 to 100.
pub proof fn percentages(pid: u8, data: Seq<u8>)
    requires
        pid == 0x04 || pid == 0x11 || pid == 0x2F,
        data.len() >= 1,
    ensures
        ({
            let v = reading(pid, data);
            &&& v.denominator > 0
            &&& v.numerator * 255 == data[0] * 100 * v.denominator
            &&& data[0] == 0 ==> v.numerator == 0
            &&& data[0] == 255 ==> v.numerator == 100 * v.denominator
            &&& 0 <= v.numerator <= 100 * v.denominator
            &&& v.unit == "%"@
        }),
{
}

/// Temperatures are whole degrees: a byte of 40 is zero, and each step is one degree.
pub proof fn temperatures(pid: u8, data: Seq<u8>)
    requires
        pid == 0x05 || pid == 0x0F || pid == 0x46,
        data.len() >= 1,
    ensures
        ({
            let v = reading(pid, data);
            &&& v.denominator > 0
            &&& v.numerator == (data[0] - 40) * v.denominator
            &&& -40 * v.denominator <= v.numerator <= 215 * v.denominator
            &&& v.unit == "°C"@
        }),
{
}

/// Speed and pressures are whole units, as many as the byte says.
pub proof fn whole_units(pid: u8, data: Seq<u8>)
    requires
        pid == 0x0D || pid == 0x0B || pid == 0x33,
        data.len() >= 1,
    ensures
        ({
            let v = reading(pid, data);
            &&& v.denominator > 0
            &&& v.numerator == data[0] * v.denominator
            &&& v.unit == (if pid == 0x0D { "km/h"@ } else { "kPa"@ })
        }),
{
}

/// The timing advance has half degrees around a byte of 128.
pub proof fn timing_advance(data: Seq<u8>)
    requires
        data.len() >= 1,
    ensures
        ({
            let v = reading(0x0E, data);
            &&& v.denominator > 0
            &&& 2 * v.numerator == (data[0] - 128) * v.denominator
            &&& -64 * v.denominator <= v.numerator < 64 * v.denominator
            &&& v.unit == "°"@
        }),
{
}

/// Engine speed, air flow, voltage and running time are numbers of two bytes, the high one
/// first, in quarters, hundredths, thousandths and whole units.
pub proof fn wide_readings(pid: u8, data: Seq<u8>)
    requires
        pid == 0x0C || pid == 0x10 || pid == 0x42 || pid == 0x1F,
        data.len() >= 2,
    ensures
        ({
            let v = reading(pid, data);
            let n = data[0] * 256 + data[1];
            &&& v.denominator > 0
            &&& pid == 0x0C ==> 4 * v.numerator == n * v.denominator && v.unit == "rpm"@
            &&& pid == 0x10 ==> 100 * v.numerator == n * v.denominator && v.unit == "g/s"@
            &&& pid == 0x42 ==> 1000 * v.numerator == n * v.denominator && v.unit == "V"@
            &&& pid == 0x1F ==> v.numerator == n * v.denominator && v.unit == "s"@
        }),
{
    let n = data[0] * 256 + data[1];
    let v = reading(pid, data);
    if pid == 0x0C {
        assert(v.denominator == 4 && v.numerator == n);
    } else if pid == 0x10 {
        assert(v.denominator == 100 && v.numerator == n);
    } else if pid == 0x42 {
        assert(v.denominator == 1000 && v.numerator == n);
    } else {
        assert(v.denominator == 1 && v.numerator == n);
    }
}

/// A reading keeps the parameter and the bytes that it was made from. Where a byte is
/// missing, and for a parameter that is not known, it is zero without a unit. What stands
/// behind the bytes of the parameter does not count.
pub proof fn readings_in_general(pid: u8, data: Seq<u8>, more: Seq<u8>)
    ensures
        reading(pid, data).pid == pid,
        reading(pid, data).raw == data,
        ({
            let wide = pid == 0x0C || pid == 0x10 || pid == 0x42 || pid == 0x1F;
            let narrow = pid == 0x04 || pid == 0x05 || pid == 0x0B || pid == 0x0D || pid == 0x0E
                || pid == 0x0F || pid == 0x11 || pid == 0x2F || pid == 0x33 || pid == 0x46;
            let v = reading(pid, data);
            let w = reading(pid, data + more);
            let complete = data.len() >= (if wide { 2nat } else { 1nat });
            &&& (!wide && !narrow) || !complete ==> v.numerator == 0 && v.denominator == 1 && v.unit
                == ""@
            &&& complete ==> w.numerator == v.numerator && w.denominator == v.denominator && w.unit
                == v.unit
        }),
{
    if data.len() >= 1 {
        assert((data + more)[0] == data[0]);
    }
    if data.len() >= 2 {
        assert((data + more)[1] == data[1]);
    }
}

/// A response to a request for a parameter is read exactly where it begins with the mode
/// plus 0x40 and the parameter, and has at least one byte behind them: those bytes are what
/// is read.
pub proof fn parameter_responses(pid: u8, resp: Seq<u8>)
    ensures
        if resp.len() >= 3 && resp[0] == 0x41 && resp[1] == pid {
            pid_response(pid, resp) == Ok::<ValueView, ErrorView>(
                reading(pid, resp.subrange(2, resp.len() as int)),
            )
        } else {
            pid_response(pid, resp) is Err
        },
{
    if resp.len() >= 3 {
        assert(resp.skip(2) =~= resp.subrange(2, resp.len() as int));
    }
}

/// A refusal is an error that gives its reason, the third byte, or 0 where it is missing.
pub proof fn refusals_give_their_reason(pid: u8, resp: Seq<u8>)
    requires
        resp.len() > 0,
        resp[0] == 0x7F,
    ensures
        ({
            let reason = if resp.len() < 3 { 0 } else { resp[2] as nat };
            pid_response(pid, resp) == Err::<ValueView, ErrorView>(
                ErrorView::Other(
                    "obdii: negative response for mode 0x"@ + text::padded_text(1, 16, 2)
                        + ": NRC 0x"@ + text::padded_text(reason, 16, 2),
                ),
            )
        }),
{
}

/// The mask of supported parameters is four bytes of the response, the first of them being
/// the highest; a response is accepted exactly where it names the group and has them.
pub proof fn mask_responses(group: u8, resp: Seq<u8>)
    ensures
        if resp.len() >= 6 && resp[0] == 0x41 && resp[1] == group {
            mask_response(group, resp) matches Ok(m) && m / 0x100_0000 == resp[2] && m / 0x1_0000
                % 256 == resp[3] && m / 0x100 % 256 == resp[4] && m % 256 == resp[5]
        } else {
            mask_response(group, resp) is Err
        },
{
    if resp.len() >= 6 {
        let m = resp[2] * 0x100_0000 + resp[3] * 0x1_0000 + resp[4] * 0x100 + resp[5];
        assert(m / 0x100 == resp[2] * 0x1_0000 + resp[3] * 0x100 + resp[4]);
        assert(m / 0x1_0000 == resp[2] * 0x100 + resp[3]);
        assert(m / 0x100_0000 == resp[2]);
    }
}

proof fn lemma_until_zero(bytes: Seq<u8>, rest: Seq<u8>)
    requires
        forall|i: int| 0 <= i < bytes.len() ==> bytes[i] != 0,
        rest.len() == 0 || rest[0] == 0,
    ensures
        until_zero(bytes + rest) == bytes,
    decreases bytes.len(),
{
    let all = bytes + rest;
    if bytes.len() == 0 {
        assert(all =~= rest);
    } else {
        assert(all[0] == bytes[0]);
        assert(all.skip(1) =~= bytes.skip(1) + rest);
        assert forall|i: int| 0 <= i < bytes.skip(1).len() implies bytes.skip(1)[i] != 0 by {
            assert(bytes.skip(1)[i] == bytes[i + 1]);
        }
        lemma_until_zero(bytes.skip(1), rest);
        assert(seq![bytes[0]] + bytes.skip(1) =~= bytes);
    }
}

proof fn lemma_no_zero_bytes(name: Seq<char>)
    requires
        forall|i: int| 0 <= i < name.len() ==> (#[trigger] name[i]) as u32 != 0,
    ensures
        name.len() > 0 ==> vstd::utf8::encode_utf8(name).len() > 0,
        forall|i: int|
            0 <= i < vstd::utf8::encode_utf8(name).len() ==> vstd::utf8::encode_utf8(name)[i] != 0,
    decreases name.len(),
{
    if name.len() > 0 {
        let c = name[0] as u32;
        let tail = name.drop_first();
        assert forall|i: int| 0 <= i < tail.len() implies (#[trigger] tail[i]) as u32 != 0 by {
            assert(tail[i] == name[i + 1]);
        }
        lemma_no_zero_bytes(tail);
        assert((c != 0 && c <= 0x7F ==> (c & 0x7F) as u8 != 0) && 0xC0u8 | ((c >> 6) & 0x1F) as u8
            != 0 && 0xE0u8 | ((c >> 12) & 0x0F) as u8 != 0 && 0xF0u8 | ((c >> 18) & 0x7) as u8 != 0
            && 0x80u8 | (c & 0x3F) as u8 != 0 && 0x80u8 | ((c >> 6) & 0x3F) as u8 != 0 && 0x80u8 | ((
        c >> 12) & 0x3F) as u8 != 0) by (bit_vector);
        let first = vstd::utf8::encode_scalar(c);
        assert forall|i: int| 0 <= i < first.len() implies first[i] != 0 by {}
        let all = vstd::utf8::encode_utf8(name);
        assert(all == first + vstd::utf8::encode_utf8(tail));
        assert forall|i: int| 0 <= i < all.len() implies all[i] != 0 by {
            if i < first.len() {
                assert(all[i] == first[i]);
            } else {
                assert(all[i] == vstd::utf8::encode_utf8(tail)[i - first.len()]);
            }
        }
    }
}

/// The vehicle identification number is the text behind the mode, the parameter and the
/// count of items, up to a zero byte where there is one: what stands behind that is
/// padding.
pub proof fn vin_is_read_up_to_its_padding(count: u8, name: Seq<char>, padding: Seq<u8>)
    requires
        name.len() > 0,
        forall|i: int| 0 <= i < name.len() ==> (#[trigger] name[i]) as u32 != 0,
        padding.len() == 0 || padding[0] == 0,
    ensures
        vin_response(seq![0x49, 0x02, count] + vstd::utf8::encode_utf8(name) + padding) == Ok::<
            Seq<char>,
            ErrorView,
        >(name),
{
    let bytes = vstd::utf8::encode_utf8(name);
    let resp = seq![0x49, 0x02, count] + bytes + padding;
    vstd::utf8::encode_utf8_valid_utf8(name);
    vstd::utf8::encode_utf8_decode_utf8(name);
    assert(resp.skip(3) =~= bytes + padding);
    lemma_no_zero_bytes(name);
    lemma_until_zero(bytes, padding);
    assert(resp[0] == 0x49 && resp[1] == 0x02);
}

/// A response that does not begin with the mode plus 0x40 and the parameter of the vehicle
/// identification number, or has no text, is no identification number.
pub proof fn other_responses_have_no_vin(resp: Seq<u8>)
    requires
        resp.len() < 4 || resp[0] != 0x49 || resp[1] != 0x02,
    ensures
        vin_response(resp) is Err,
{
}

} // verus!
