//! UDS (ISO 14229) services over an ISO-TP connection.
//!
//! A service is a [`Call`]: the request to send, and what to make of each response. The
//! transport carries the bytes.
use vstd::prelude::*;
use vstd::slice::slice_subrange;
use vstd::slice::slice_to_vec;

use crate::error::{Error, ErrorView};
use crate::text;

verus! {

pub const SID_DIAGNOSTIC_SESSION_CONTROL: u8 = 0x10;

pub const SID_ECU_RESET: u8 = 0x11;

pub const SID_READ_DID: u8 = 0x22;

pub const SID_SECURITY_ACCESS: u8 = 0x27;

pub const SID_WRITE_DID: u8 = 0x2E;

pub const SID_TESTER_PRESENT: u8 = 0x3E;

pub const SID_NEGATIVE_RESPONSE: u8 = 0x7F;

/// What a positive response adds to the service identifier.
pub const POSITIVE_RESPONSE_OFFSET: u8 = 0x40;

/// Negative response code of a server that is still working on the request.
pub const NRC_RESPONSE_PENDING: u8 = 0x78;

/// Responses with that code that a call waits through.
pub const MAX_RESPONSE_PENDING_RETRIES: u32 = 16;

/// Diagnostic sessions.
#[derive(Clone, Copy, Debug, PartialEq, Eq, Structural)]
pub enum SessionType {
    Default,
    Programming,
    Extended,
}

impl SessionType {
    /// The byte that stands for the session.
    pub open spec fn code(self) -> u8 {
        match self {
            SessionType::Default => 0x01,
            SessionType::Programming => 0x02,
            SessionType::Extended => 0x03,
        }
    }

    /// The byte that stands for the session.
    pub fn value(self) -> (r: u8)
        ensures
            r == self.code(),
    {
        match self {
            SessionType::Default => 0x01,
            SessionType::Programming => 0x02,
            SessionType::Extended => 0x03,
        }
    }
}

/// Kinds of reset.
#[derive(Clone, Copy, Debug, PartialEq, Eq, Structural)]
pub enum ResetType {
    Hard,
    KeyOffOn,
    Soft,
}

impl ResetType {
    /// The byte that stands for the kind of reset.
    pub open spec fn code(self) -> u8 {
        match self {
            ResetType::Hard => 0x01,
            ResetType::KeyOffOn => 0x02,
            ResetType::Soft => 0x03,
        }
    }

    /// The byte that stands for the kind of reset.
    pub fn value(self) -> (r: u8)
        ensures
            r == self.code(),
    {
        match self {
            ResetType::Hard => 0x01,
            ResetType::KeyOffOn => 0x02,
            ResetType::Soft => 0x03,
        }
    }
}

/// A server's refusal of a request.
#[derive(Debug, Clone, Copy, PartialEq, Eq, Structural)]
pub struct NegativeResponseError {
    pub service: u8,
    pub nrc: u8,
}

/// The name of a negative response code.
pub open spec fn nrc_name(nrc: u8) -> Seq<char> {
    if nrc == 0x10 {
        "generalReject"@
    } else if nrc == 0x11 {
        "serviceNotSupported"@
    } else if nrc == 0x12 {
        "subFunctionNotSupported"@
    } else if nrc == 0x13 {
        "incorrectMessageLengthOrInvalidFormat"@
    } else if nrc == 0x14 {
        "responseTooLong"@
    } else if nrc == 0x21 {
        "busyRepeatRequest"@
    } else if nrc == 0x22 {
        "conditionsNotCorrect"@
    } else if nrc == 0x24 {
        "requestSequenceError"@
    } else if nrc == 0x25 {
        "noResponseFromSubnetComponent"@
    } else if nrc == 0x26 {
        "failurePreventsExecutionOfRequestedAction"@
    } else if nrc == 0x31 {
        "requestOutOfRange"@
    } else if nrc == 0x33 {
        "securityAccessDenied"@
    } else if nrc == 0x35 {
        "invalidKey"@
    } else if nrc == 0x36 {
        "exceededNumberOfAttempts"@
    } else if nrc == 0x37 {
        "requiredTimeDelayNotExpired"@
    } else if nrc == 0x70 {
        "uploadDownloadNotAccepted"@
    } else if nrc == 0x71 {
        "transferDataSuspended"@
    } else if nrc == 0x72 {
        "generalProgrammingFailure"@
    } else if nrc == 0x73 {
        "wrongBlockSequenceCounter"@
    } else if nrc == 0x78 {
        "requestCorrectlyReceivedResponsePending"@
    } else if nrc == 0x7E {
        "subFunctionNotSupportedInActiveSession"@
    } else if nrc == 0x7F {
        "serviceNotSupportedInActiveSession"@
    } else {
        "unknown"@
    }
}

/// A refusal in words.
pub open spec fn refusal_text(e: NegativeResponseError) -> Seq<char> {
    "uds: NRC 0x"@ + text::padded_text(e.nrc as nat, 16, 2) + " ("@ + nrc_name(e.nrc)
        + ") for service 0x"@ + text::padded_text(e.service as nat, 16, 2)
}

impl NegativeResponseError {
    /// The name of the negative response code.
    pub fn nrc_description(&self) -> (r: &'static str)
        ensures
            r@ == nrc_name(self.nrc),
    {
        match self.nrc {
            0x10 => "generalReject",
            0x11 => "serviceNotSupported",
            0x12 => "subFunctionNotSupported",
            0x13 => "incorrectMessageLengthOrInvalidFormat",
            0x14 => "responseTooLong",
            0x21 => "busyRepeatRequest",
            0x22 => "conditionsNotCorrect",
            0x24 => "requestSequenceError",
            0x25 => "noResponseFromSubnetComponent",
            0x26 => "failurePreventsExecutionOfRequestedAction",
            0x31 => "requestOutOfRange",
            0x33 => "securityAccessDenied",
            0x35 => "invalidKey",
            0x36 => "exceededNumberOfAttempts",
            0x37 => "requiredTimeDelayNotExpired",
            0x70 => "uploadDownloadNotAccepted",
            0x71 => "transferDataSuspended",
            0x72 => "generalProgrammingFailure",
            0x73 => "wrongBlockSequenceCounter",
            0x78 => "requestCorrectlyReceivedResponsePending",
            0x7E => "subFunctionNotSupportedInActiveSession",
            0x7F => "serviceNotSupportedInActiveSession",
            _ => "unknown",
        }
    }

    /// The refusal in words.
    pub fn to_string(&self) -> (r: String)
        ensures
            r@ == refusal_text(*self),
    {
        let nrc = text::padded_string(self.nrc as u64, 16, 2);
        let service = text::padded_string(self.service as u64, 16, 2);
        let head = text::join5(
            "uds: NRC 0x",
            nrc.as_str(),
            " (",
            self.nrc_description(),
            ") for service 0x",
        );
        text::join2(head.as_str(), service.as_str())
    }
}

// ---------------------------------------------------------------------------
// Calls
// ---------------------------------------------------------------------------

/// A service in progress.
#[derive(Debug)]
pub struct Call {
    /// What to send.
    pub request: Vec<u8>,
    /// Whether the server answers at all.
    pub answered: bool,
    /// How a positive response begins.
    pub echo: Vec<u8>,
    /// Length of the shortest positive response.
    pub min_len: usize,
    /// The service in words.
    pub what: &'static str,
    /// Responses so far that say the server is still working.
    pub pending: u32,
}

/// The mathematical value of a [`Call`].
#[verifier::ext_equal]
pub struct CallView {
    pub request: Seq<u8>,
    pub answered: bool,
    pub echo: Seq<u8>,
    pub min_len: nat,
    pub what: Seq<char>,
    pub pending: nat,
}

impl View for Call {
    type V = CallView;

    open spec fn view(&self) -> CallView {
        CallView {
            request: self.request@,
            answered: self.answered,
            echo: self.echo@,
            min_len: self.min_len as nat,
            what: self.what@,
            pending: self.pending as nat,
        }
    }
}

/// What a response means.
#[derive(Debug)]
pub enum CallStep {
    /// The server is still working: wait for another response.
    Wait,
    /// The service is done; these are the bytes behind what the response has to begin with.
    Done(Vec<u8>),
    /// The service failed.
    Failed(Error),
}

/// The mathematical value of a [`CallStep`].
pub enum CallStepView {
    Wait,
    Done(Seq<u8>),
    Failed(ErrorView),
}

impl View for CallStep {
    type V = CallStepView;

    open spec fn view(&self) -> CallStepView {
        match self {
            CallStep::Wait => CallStepView::Wait,
            CallStep::Done(d) => CallStepView::Done(d@),
            CallStep::Failed(e) => CallStepView::Failed(e@),
        }
    }
}

/// The refusal that a negative response carries; bytes that are missing count as 0.
pub open spec fn refusal_in(resp: Seq<u8>) -> NegativeResponseError {
    NegativeResponseError {
        service: if resp.len() >= 2 { resp[1] } else { 0 },
        nrc: if resp.len() >= 3 { resp[2] } else { 0 },
    }
}

/// Whether a response says that the server is still working.
pub open spec fn is_pending(resp: Seq<u8>) -> bool {
    resp.len() > 0 && resp[0] == 0x7F && refusal_in(resp).nrc == 0x78
}

/// Whether `resp` begins with `echo`.
pub open spec fn begins_with(resp: Seq<u8>, echo: Seq<u8>) -> bool {
    resp.len() >= echo.len() && resp.take(echo.len() as int) == echo
}

impl CallView {
    /// A call that was not answered yet.
    pub open spec fn fresh(
        request: Seq<u8>,
        echo: Seq<u8>,
        min_len: nat,
        what: Seq<char>,
    ) -> CallView {
        CallView { request, answered: true, echo, min_len, what, pending: 0 }
    }

    /// What a response means. One that says the server is still working is waited through,
    /// but not more than sixteen times. Any other refusal ends the call.
    pub open spec fn on_response(self, resp: Seq<u8>) -> CallStepView {
        if resp.len() == 0 {
            CallStepView::Failed(ErrorView::Other("uds: empty response"@))
        } else if is_pending(resp) {
            if self.pending >= 16 {
                CallStepView::Failed(
                    ErrorView::Other(
                        "uds: too many consecutive response-pending (NRC 0x78) retries"@,
                    ),
                )
            } else {
                CallStepView::Wait
            }
        } else if resp[0] == 0x7F {
            CallStepView::Failed(ErrorView::Other(refusal_text(refusal_in(resp))))
        } else if resp.len() < self.min_len || !begins_with(resp, self.echo) {
            CallStepView::Failed(
                ErrorView::Other(
                    "uds: unexpected "@ + self.what + " response: "@ + text::hex_list_text(resp),
                ),
            )
        } else {
            CallStepView::Done(resp.skip(self.echo.len() as int))
        }
    }
}

impl Call {
    fn fresh(request: Vec<u8>, echo: Vec<u8>, min_len: usize, what: &'static str) -> (r: Call)
        ensures
            r@ == CallView::fresh(request@, echo@, min_len as nat, what@),
    {
        Call { request, answered: true, echo, min_len, what, pending: 0 }
    }

    fn begins(&self, resp: &Vec<u8>) -> (r: bool)
        ensures
            r == begins_with(resp@, self.echo@),
    {
        if resp.len() < self.echo.len() {
            return false;
        }
        let mut i: usize = 0;
        while i < self.echo.len()
            invariant
                i <= self.echo@.len() <= resp@.len(),
                forall|j: int| 0 <= j < i ==> resp@[j] == self.echo@[j],
            decreases self.echo@.len() - i,
        {
            if resp[i] != self.echo[i] {
                assert(resp@.take(self.echo@.len() as int)[i as int] != self.echo@[i as int]);
                return false;
            }
            i += 1;
        }
        assert(resp@.take(self.echo@.len() as int) =~= self.echo@);
        true
    }

    /// Takes a response.
    pub fn on_response(&mut self, resp: Vec<u8>) -> (r: CallStep)
        requires
            old(self).pending <= 16,
        ensures
            r@ == old(self)@.on_response(resp@),
            final(self)@ == (CallView {
                pending: if r is Wait { old(self)@.pending + 1 } else { old(self)@.pending },
                ..old(self)@
            }),
            final(self).pending <= 16,
    {
        if resp.len() == 0 {
            return CallStep::Failed(Error::other("uds: empty response"));
        }
        if resp[0] == SID_NEGATIVE_RESPONSE {
            let service: u8 = if resp.len() >= 2 { resp[1] } else { 0 };
            let nrc: u8 = if resp.len() >= 3 { resp[2] } else { 0 };
            if nrc == NRC_RESPONSE_PENDING {
                if self.pending >= MAX_RESPONSE_PENDING_RETRIES {
                    return CallStep::Failed(
                        Error::other(
                            "uds: too many consecutive response-pending (NRC 0x78) retries",
                        ),
                    );
                }
                self.pending = self.pending + 1;
                return CallStep::Wait;
            }
            let refusal = NegativeResponseError { service, nrc };
            return CallStep::Failed(Error::Other(refusal.to_string()));
        }
        if resp.len() < self.min_len || !self.begins(&resp) {
            let shown = text::hex_list(&resp);
            return CallStep::Failed(
                Error::Other(
                    text::join4("uds: unexpected ", self.what, " response: ", shown.as_str()),
                ),
            );
        }
        let tail = slice_subrange(&resp, self.echo.len(), resp.len());
        assert(tail@ =~= resp@.skip(self.echo@.len() as int));
        CallStep::Done(slice_to_vec(tail))
    }
}

// ---------------------------------------------------------------------------
// Client
// ---------------------------------------------------------------------------

/// Makes the calls of the services.
#[derive(Debug, Clone, Copy)]
pub struct Client {  }

/// The call of service 0x10.
pub open spec fn session_call(session: SessionType) -> CallView {
    CallView::fresh(seq![0x10, session.code()], seq![0x50, session.code()], 2, "DSC"@)
}

/// The call of service 0x11.
pub open spec fn reset_call(reset: ResetType) -> CallView {
    CallView::fresh(seq![0x11, reset.code()], seq![0x51, reset.code()], 2, "ECUReset"@)
}

/// The call of service 0x22. A response has to carry at least one byte of data.
pub open spec fn read_call(did: u16) -> CallView {
    let hi = (did / 256) as u8;
    let lo = (did % 256) as u8;
    CallView::fresh(seq![0x22, hi, lo], seq![0x62, hi, lo], 4, "ReadDID"@)
}

/// The call of service 0x27 that asks for a seed.
pub open spec fn seed_call(level: u8) -> CallView {
    CallView::fresh(seq![0x27, level], seq![0x67, level], 2, "SecurityAccess seed"@)
}

/// The call of service 0x27 that sends a key, one level above that of the seed.
pub open spec fn key_call(level: u8, key: Seq<u8>) -> CallView {
    let up = (level + 1) as u8;
    CallView::fresh(seq![0x27, up] + key, seq![0x67, up], 2, "SecurityAccess key"@)
}

/// The call of service 0x2E.
pub open spec fn write_call(did: u16, data: Seq<u8>) -> CallView {
    let hi = (did / 256) as u8;
    let lo = (did % 256) as u8;
    CallView::fresh(seq![0x2E, hi, lo] + data, seq![0x6E, hi, lo], 3, "WriteDID"@)
}

/// The call of service 0x3E; the server does not answer where the response is suppressed.
pub open spec fn present_call(suppress: bool) -> CallView {
    let sub: u8 = if suppress { 0x80 } else { 0x00 };
    CallView {
        answered: !suppress,
        ..CallView::fresh(seq![0x3E, sub], seq![0x7E, sub], 2, "TesterPresent"@)
    }
}

impl Client {
    /// A client.
    pub fn new() -> (r: Client)
        ensures
            r == (Client {  }),
    {
        Client {  }
    }

    /// Service 0x10: switches to a diagnostic session.
    pub fn diagnostic_session_control(&self, session: SessionType) -> (r: Call)
        ensures
            r@ == session_call(session),
            r.request@ == seq![SID_DIAGNOSTIC_SESSION_CONTROL, session.code()],
    {
        let code: u8 = session.value();
        let r = Call::fresh(
            vec![SID_DIAGNOSTIC_SESSION_CONTROL, code],
            vec![SID_DIAGNOSTIC_SESSION_CONTROL + POSITIVE_RESPONSE_OFFSET, code],
            2,
            "DSC",
        );
        assert(r@ =~= session_call(session));
        r
    }

    /// Service 0x11: resets the server.
    pub fn ecu_reset(&self, reset: ResetType) -> (r: Call)
        ensures
            r@ == reset_call(reset),
            r.request@ == seq![SID_ECU_RESET, reset.code()],
    {
        let code: u8 = reset.value();
        let r = Call::fresh(
            vec![SID_ECU_RESET, code],
            vec![SID_ECU_RESET + POSITIVE_RESPONSE_OFFSET, code],
            2,
            "ECUReset",
        );
        assert(r@ =~= reset_call(reset));
        r
    }

    /// Service 0x22: reads a data record.
    pub fn read_did(&self, did: u16) -> (r: Call)
        ensures
            r@ == read_call(did),
            r.request@.len() == 3,
            r.request@[0] == SID_READ_DID,
            r.request@[1] * 256 + r.request@[2] == did,
    {
        let hi: u8 = (did / 256) as u8;
        let lo: u8 = (did % 256) as u8;
        let r = Call::fresh(
            vec![SID_READ_DID, hi, lo],
            vec![SID_READ_DID + POSITIVE_RESPONSE_OFFSET, hi, lo],
            4,
            "ReadDID",
        );
        assert(r@ =~= read_call(did));
        r
    }

    /// Service 0x27: asks for the seed of an access level.
    pub fn security_access_request_seed(&self, access_level: u8) -> (r: Call)
        ensures
            r@ == seed_call(access_level),
            r.request@ == seq![SID_SECURITY_ACCESS, access_level],
    {
        let r = Call::fresh(
            vec![SID_SECURITY_ACCESS, access_level],
            vec![SID_SECURITY_ACCESS + POSITIVE_RESPONSE_OFFSET, access_level],
            2,
            "SecurityAccess seed",
        );
        assert(r@ =~= seed_call(access_level));
        r
    }

    /// Service 0x27: sends the key for the seed of an access level.
    pub fn security_access_send_key(&self, access_level: u8, key: &[u8]) -> (r: Call)
        requires
            access_level < 255,
        ensures
            r@ == key_call(access_level, key@),
            r.request@.len() == 2 + key@.len(),
            r.request@[0] == SID_SECURITY_ACCESS,
            r.request@[1] == access_level + 1,
            r.request@.skip(2) == key@,
    {
        let up: u8 = access_level + 1;
        let mut request: Vec<u8> = vec![SID_SECURITY_ACCESS, up];
        request.extend_from_slice(key);
        let r = Call::fresh(
            request,
            vec![SID_SECURITY_ACCESS + POSITIVE_RESPONSE_OFFSET, up],
            2,
            "SecurityAccess key",
        );
        assert(r@ =~= key_call(access_level, key@));
        assert(r.request@.skip(2) =~= key@);
        r
    }

    /// Service 0x2E: writes a data record.
    pub fn write_did(&self, did: u16, data: &[u8]) -> (r: Call)
        ensures
            r@ == write_call(did, data@),
            r.request@.len() == 3 + data@.len(),
            r.request@[0] == SID_WRITE_DID,
            r.request@[1] * 256 + r.request@[2] == did,
            r.request@.skip(3) == data@,
    {
        let hi: u8 = (did / 256) as u8;
        let lo: u8 = (did % 256) as u8;
        let mut request: Vec<u8> = vec![SID_WRITE_DID, hi, lo];
        request.extend_from_slice(data);
        let r = Call::fresh(
            request,
            vec![SID_WRITE_DID + POSITIVE_RESPONSE_OFFSET, hi, lo],
            3,
            "WriteDID",
        );
        assert(r@ =~= write_call(did, data@));
        assert(r.request@.skip(3) =~= data@);
        r
    }

    /// Service 0x3E: keeps the session alive.
    pub fn tester_present(&self, suppress_positive_response: bool) -> (r: Call)
        ensures
            r@ == present_call(suppress_positive_response),
    {
        let sub: u8 = if suppress_positive_response { 0x80 } else { 0x00 };
        let mut r = Call::fresh(
            vec![SID_TESTER_PRESENT, sub],
            vec![SID_TESTER_PRESENT + POSITIVE_RESPONSE_OFFSET, sub],
            2,
            "TesterPresent",
        );
        r.answered = !suppress_positive_response;
        assert(r@ =~= present_call(suppress_positive_response));
        r
    }
}

// ---------------------------------------------------------------------------
// Laws
// ---------------------------------------------------------------------------

/// A call after responses that it waited through.
pub open spec fn after_waiting(c: CallView, responses: Seq<Seq<u8>>) -> CallView {
    CallView { pending: c.pending + responses.len(), ..c }
}

/// A server that is still working is waited through: after up to sixteen such responses
/// any other response means what it would have meant at once.
pub proof fn pending_responses_are_transparent(c: CallView, waits: Seq<Seq<u8>>, resp: Seq<u8>)
    requires
        c.pending == 0,
        waits.len() <= 16,
        forall|i: int| 0 <= i < waits.len() ==> is_pending(#[trigger] waits[i]),
        !is_pending(resp),
    ensures
        forall|i: int|
            0 <= i < waits.len() ==> #[trigger] after_waiting(c, waits.take(i)).on_response(waits[i])
                == CallStepView::Wait,
        after_waiting(c, waits).on_response(resp) == c.on_response(resp),
{
}

/// The wait is bounded: the seventeenth response in a row that says the server is still
/// working ends the call.
pub proof fn waiting_is_bounded(c: CallView, resp: Seq<u8>)
    requires
        is_pending(resp),
        c.pending == 16,
    ensures
        c.on_response(resp) is Failed,
{
}

/// A refusal for any other reason ends the call at once.
pub proof fn other_refusals_end_the_call(c: CallView, resp: Seq<u8>)
    requires
        resp.len() > 0,
        resp[0] == 0x7F,
        !is_pending(resp),
    ensures
        c.on_response(resp) == CallStepView::Failed(
            ErrorView::Other(refusal_text(refusal_in(resp))),
        ),
{
}

/// The request of a key call is the service, the level above that of the seed, and then the
/// key and nothing else. So calls with different keys or for different levels never send
/// the same request.
pub proof fn key_is_sent_whole(level: u8, key: Seq<u8>, other_level: u8, other_key: Seq<u8>)
    requires
        level < 255,
        other_level < 255,
    ensures
        key_call(level, key).request.len() == 2 + key.len(),
        key_call(level, key).request[0] == 0x27,
        key_call(level, key).request[1] == level + 1,
        key_call(level, key).request.skip(2) == key,
        key_call(level, key).request == key_call(other_level, other_key).request <==> level
            == other_level && key == other_key,
        forall|k: Seq<u8>| key_call(level, key).request != #[trigger] seed_call(level).request + k,
{
    let a = key_call(level, key).request;
    let b = key_call(other_level, other_key).request;
    assert(a.skip(2) =~= key);
    assert(b.skip(2) =~= other_key);
    assert(a[1] == level + 1 && b[1] == other_level + 1);
    assert forall|k: Seq<u8>| a != #[trigger] seed_call(level).request + k by {
        assert((seed_call(level).request + k)[1] == level);
    }
}

/// The request of a write is the service, the data identifier with its high byte first, and
/// then the data and nothing else. So writes of different data or under different
/// identifiers never send the same request.
pub proof fn data_is_sent_whole(did: u16, data: Seq<u8>, other_did: u16, other_data: Seq<u8>)
    ensures
        write_call(did, data).request.len() == 3 + data.len(),
        write_call(did, data).request[0] == 0x2E,
        write_call(did, data).request[1] * 256 + write_call(did, data).request[2] == did,
        write_call(did, data).request.skip(3) == data,
        write_call(did, data).request == write_call(other_did, other_data).request <==> did
            == other_did && data == other_data,
{
    let a = write_call(did, data).request;
    let b = write_call(other_did, other_data).request;
    assert(a.skip(3) =~= data);
    assert(b.skip(3) =~= other_data);
    assert(a[1] * 256 + a[2] == did && b[1] * 256 + b[2] == other_did);
}

/// The requests of the other services: the service and one byte that says what is asked
/// for, or the service and a data identifier. Different sessions, resets, levels and
/// identifiers never send the same request.
pub proof fn short_requests(
    session: SessionType,
    reset: ResetType,
    level: u8,
    did: u16,
    suppress: bool,
)
    ensures
        session_call(session).request.len() == 2 && session_call(session).request[0] == 0x10,
        session_call(session).request[1] as int == (match session {
            SessionType::Default => 1int,
            SessionType::Programming => 2,
            SessionType::Extended => 3,
        }),
        reset_call(reset).request.len() == 2 && reset_call(reset).request[0] == 0x11,
        reset_call(reset).request[1] as int == (match reset {
            ResetType::Hard => 1int,
            ResetType::KeyOffOn => 2,
            ResetType::Soft => 3,
        }),
        seed_call(level).request.len() == 2 && seed_call(level).request[0] == 0x27,
        seed_call(level).request[1] == level,
        read_call(did).request.len() == 3 && read_call(did).request[0] == 0x22,
        read_call(did).request[1] * 256 + read_call(did).request[2] == did,
        present_call(suppress).request.len() == 2 && present_call(suppress).request[0] == 0x3E,
        present_call(suppress).request[1] >= 128 <==> suppress,
        present_call(suppress).request[1] % 128 == 0,
        present_call(suppress).answered == !suppress,
        session_call(session).answered && reset_call(reset).answered && seed_call(level).answered
            && read_call(did).answered,
{
}

/// A positive response repeats what was asked for behind the service plus 0x40, and the rest
/// of it is the answer: a data record has at least one byte, a seed may be empty. Any other
/// response that is no refusal fails.
pub proof fn positive_responses(did: u16, level: u8, key: Seq<u8>, data: Seq<u8>, resp: Seq<u8>)
    requires
        resp.len() > 0,
        resp[0] != 0x7F,
        level < 255,
    ensures
        ({
            let named = resp.len() >= 3 && resp[1] * 256 + resp[2] == did;
            let leveled = resp.len() >= 2 && resp[1] == level;
            let raised = resp.len() >= 2 && resp[1] == level + 1;
            &&& if resp[0] == 0x62 && named && resp.len() >= 4 {
                read_call(did).on_response(resp) == CallStepView::Done(resp.skip(3))
            } else {
                read_call(did).on_response(resp) is Failed
            }
            &&& if resp[0] == 0x6E && named {
                write_call(did, data).on_response(resp) == CallStepView::Done(resp.skip(3))
            } else {
                write_call(did, data).on_response(resp) is Failed
            }
            &&& if resp[0] == 0x67 && leveled {
                seed_call(level).on_response(resp) == CallStepView::Done(resp.skip(2))
            } else {
                seed_call(level).on_response(resp) is Failed
            }
            &&& if resp[0] == 0x67 && raised {
                key_call(level, key).on_response(resp) == CallStepView::Done(resp.skip(2))
            } else {
                key_call(level, key).on_response(resp) is Failed
            }
        }),
{
    let hi = (did / 256) as u8;
    let lo = (did % 256) as u8;
    if resp.len() >= 3 {
        assert(resp.take(3) =~= seq![resp[0], resp[1], resp[2]]);
        assert(resp[1] * 256 + resp[2] == did <==> resp[1] == hi && resp[2] == lo);
        lemma_three_bytes(resp[0], resp[1], resp[2], 0x62, hi, lo);
        lemma_three_bytes(resp[0], resp[1], resp[2], 0x6E, hi, lo);
    }
    if resp.len() >= 2 {
        assert(resp.take(2) =~= seq![resp[0], resp[1]]);
        lemma_two_bytes(resp[0], resp[1], 0x67, level);
        lemma_two_bytes(resp[0], resp[1], 0x67, (level + 1) as u8);
    }
}

proof fn lemma_two_bytes(a: u8, b: u8, c: u8, d: u8)
    ensures
        seq![a, b] == seq![c, d] <==> a == c && b == d,
{
    assert(seq![a, b][0] == a && seq![a, b][1] == b);
    assert(seq![c, d][0] == c && seq![c, d][1] == d);
}

proof fn lemma_three_bytes(a: u8, b: u8, c: u8, x: u8, y: u8, z: u8)
    ensures
        seq![a, b, c] == seq![x, y, z] <==> a == x && b == y && c == z,
{
    assert(seq![a, b, c][0] == a && seq![a, b, c][1] == b && seq![a, b, c][2] == c);
    assert(seq![x, y, z][0] == x && seq![x, y, z][1] == y && seq![x, y, z][2] == z);
}

/// The server confirms a session, a reset or a sign of life by repeating the byte that was
/// sent behind the service plus 0x40. Any other response that is no refusal fails.
pub proof fn confirmations(
    session: SessionType,
    reset: ResetType,
    suppress: bool,
    resp: Seq<u8>,
)
    requires
        resp.len() > 0,
        resp[0] != 0x7F,
    ensures
        ({
            let c = session_call(session);
            if resp.len() >= 2 && resp[0] == 0x50 && resp[1] == c.request[1] {
                c.on_response(resp) == CallStepView::Done(resp.skip(2))
            } else {
                c.on_response(resp) is Failed
            }
        }),
        ({
            let c = reset_call(reset);
            if resp.len() >= 2 && resp[0] == 0x51 && resp[1] == c.request[1] {
                c.on_response(resp) == CallStepView::Done(resp.skip(2))
            } else {
                c.on_response(resp) is Failed
            }
        }),
        ({
            let c = present_call(suppress);
            if resp.len() >= 2 && resp[0] == 0x7E && resp[1] == c.request[1] {
                c.on_response(resp) == CallStepView::Done(resp.skip(2))
            } else {
                c.on_response(resp) is Failed
            }
        }),
{
    if resp.len() >= 2 {
        assert(resp.take(2) =~= seq![resp[0], resp[1]]);
        lemma_two_bytes(resp[0], resp[1], 0x50, session.code());
        lemma_two_bytes(resp[0], resp[1], 0x51, reset.code());
        lemma_two_bytes(resp[0], resp[1], 0x7E, present_call(suppress).request[1]);
    }
}

/// A refusal is told from a server that is still working by its third byte alone, whatever
/// the service; such a server is waited for sixteen times. A refusal is reported with that byte and the one in front of it, which names the
/// service.
pub proof fn refusals_are_told_apart(c: CallView, service: u8, nrc: u8, rest: Seq<u8>)
    requires
        c.pending <= 16,
    ensures
        nrc == 0x78 && c.pending < 16 ==> c.on_response(seq![0x7F, service, nrc] + rest)
            == CallStepView::Wait,
        nrc == 0x78 && c.pending == 16 ==> c.on_response(seq![0x7F, service, nrc] + rest)
            is Failed,
        nrc != 0x78 ==> c.on_response(seq![0x7F, service, nrc] + rest) == CallStepView::Failed(
            ErrorView::Other(refusal_text(NegativeResponseError { service, nrc })),
        ),
        c.on_response(seq![0x7F, service]) is Failed,
        c.on_response(seq![0x7F]) is Failed,
        c.on_response(Seq::empty()) is Failed,
{
    let resp = seq![0x7F, service, nrc] + rest;
    assert(resp[0] == 0x7F && resp[1] == service && resp[2] == nrc);
}

/// The names of the refusals.
pub proof fn names_of_refusals()
    ensures
        nrc_name(0x10) == "generalReject"@,
        nrc_name(0x11) == "serviceNotSupported"@,
        nrc_name(0x12) == "subFunctionNotSupported"@,
        nrc_name(0x13) == "incorrectMessageLengthOrInvalidFormat"@,
        nrc_name(0x14) == "responseTooLong"@,
        nrc_name(0x21) == "busyRepeatRequest"@,
        nrc_name(0x22) == "conditionsNotCorrect"@,
        nrc_name(0x24) == "requestSequenceError"@,
        nrc_name(0x25) == "noResponseFromSubnetComponent"@,
        nrc_name(0x26) == "failurePreventsExecutionOfRequestedAction"@,
        nrc_name(0x31) == "requestOutOfRange"@,
        nrc_name(0x33) == "securityAccessDenied"@,
        nrc_name(0x35) == "invalidKey"@,
        nrc_name(0x36) == "exceededNumberOfAttempts"@,
        nrc_name(0x37) == "requiredTimeDelayNotExpired"@,
        nrc_name(0x70) == "uploadDownloadNotAccepted"@,
        nrc_name(0x71) == "transferDataSuspended"@,
        nrc_name(0x72) == "generalProgrammingFailure"@,
        nrc_name(0x73) == "wrongBlockSequenceCounter"@,
        nrc_name(0x78) == "requestCorrectlyReceivedResponsePending"@,
        nrc_name(0x7E) == "subFunctionNotSupportedInActiveSession"@,
        nrc_name(0x7F) == "serviceNotSupportedInActiveSession"@,
        forall|nrc: u8|
            nrc < 0x10 || 0x15 <= nrc <= 0x20 || nrc == 0x23 || 0x27 <= nrc <= 0x30 || nrc == 0x32
                || nrc == 0x34 || 0x38 <= nrc <= 0x6F || 0x74 <= nrc <= 0x77 || 0x79 <= nrc <= 0x7D
                || nrc >= 0x80 ==> #[trigger] nrc_name(nrc) == "unknown"@,
{
}

/// A refusal names the service in its second byte and the reason in its third, and what is
/// missing counts as 0. The server is still working exactly where the reason is 0x78.
pub proof fn refusals_as_they_come(resp: Seq<u8>)
    ensures
        resp.len() >= 3 ==> refusal_in(resp).service == resp[1] && refusal_in(resp).nrc == resp[2],
        resp.len() == 2 ==> refusal_in(resp).service == resp[1] && refusal_in(resp).nrc == 0,
        resp.len() <= 1 ==> refusal_in(resp).service == 0 && refusal_in(resp).nrc == 0,
        is_pending(resp) <==> resp.len() >= 3 && resp[0] == 0x7F && resp[2] == 0x78,
{
}

} // verus!
