//! What the commands of the command line tool compute.
use vstd::prelude::*;
use vstd::slice::slice_subrange;

use crate::adapt;
use crate::bus::Bus;
use crate::error;
use crate::error::{Error, ErrorView};
use crate::frame;
use crate::frame::{Frame, FrameView};
use crate::hexcodec;
use crate::relay::{Message, MessageView, Metrics};
use crate::text;
use crate::time::Timestamp;
use crate::virtual_bus::{VirtualBus, VirtualBusView};

verus! {

/// Exit code of a command that did its work.
pub const EXIT_OK: i32 = 0;

/// Exit code of a command whose input is invalid.
pub const EXIT_INVALID_INPUT: i32 = 1;

/// Exit code of a command whose arguments are invalid.
pub const EXIT_INVALID_ARGS: i32 = 2;

/// Name of the tool.
pub const TOOL: &'static str = "rust-can";

/// Name of the protocol that the tool implements.
pub const PROTOCOL: &'static str = "CAN";

/// Language that the tool is written in.
pub const LANGUAGE: &'static str = "rust";

/// Runtime that the tool needs.
pub const RUNTIME: &'static str = "rustc 1.75+";

// ---------------------------------------------------------------------------
// version, status, capabilities
// ---------------------------------------------------------------------------

/// What a list of names says.
pub open spec fn names(v: Seq<&'static str>) -> Seq<Seq<char>> {
    Seq::new(v.len(), |i: int| v[i]@)
}

/// The lines that `version` prints.
pub fn version_lines(version: &str) -> (r: Vec<String>)
    ensures
        r@.len() == 6,
        r@[0]@ == "tool:         "@ + "rust-can"@,
        r@[1]@ == "protocol:     "@ + "CAN"@,
        r@[2]@ == "version:      "@ + version@,
        r@[3]@ == "spec_version: "@ + "1.1"@,
        r@[4]@ == "language:     "@ + "rust"@,
        r@[5]@ == "runtime:      "@ + "rustc 1.75+"@,
{
    vec![
        text::join2("tool:         ", TOOL),
        text::join2("protocol:     ", PROTOCOL),
        text::join2("version:      ", version),
        text::join2("spec_version: ", crate::SPEC_VERSION),
        text::join2("language:     ", LANGUAGE),
        text::join2("runtime:      ", RUNTIME),
    ]
}

/// The lines that `status` prints.
pub fn status_lines(version: &str, healthy: bool, connected: bool) -> (r: Vec<String>)
    ensures
        r@.len() == 5,
        r@[0]@ == "tool:      "@ + "rust-can"@,
        r@[1]@ == "protocol:  "@ + "CAN"@,
        r@[2]@ == "version:   "@ + version@,
        r@[3]@ == "healthy:   "@ + text::flag_text(healthy),
        r@[4]@ == "connected: "@ + text::flag_text(connected),
{
    let h = text::flag_string(healthy);
    let c = text::flag_string(connected);
    vec![
        text::join2("tool:      ", TOOL),
        text::join2("protocol:  ", PROTOCOL),
        text::join2("version:   ", version),
        text::join2("healthy:   ", h.as_str()),
        text::join2("connected: ", c.as_str()),
    ]
}

/// The commands of the tool.
pub fn commands() -> (r: Vec<&'static str>)
    ensures
        names(r@) == seq![
            "version"@,
            "capabilities"@,
            "status"@,
            "send"@,
            "subscribe"@,
            "convert"@,
        ],
{
    let r = vec!["version", "capabilities", "status", "send", "subscribe", "convert"];
    assert(names(r@) =~= seq![
        "version"@,
        "capabilities"@,
        "status"@,
        "send"@,
        "subscribe"@,
        "convert"@,
    ]);
    r
}

/// The transports of the tool: SocketCAN is there on Linux only.
pub fn transports(linux: bool) -> (r: Vec<&'static str>)
    ensures
        names(r@) == (if linux {
            seq!["virtual"@, "socketcan"@]
        } else {
            seq!["virtual"@]
        }),
{
    if linux {
        let r = vec!["virtual", "socketcan"];
        assert(names(r@) =~= seq!["virtual"@, "socketcan"@]);
        r
    } else {
        let r = vec!["virtual"];
        assert(names(r@) =~= seq!["virtual"@]);
        r
    }
}

/// The features of the library.
pub fn features() -> (r: Vec<&'static str>)
    ensures
        names(r@) == seq![
            "fd"@,
            "xl"@,
            "isotp"@,
            "j1939"@,
            "safety"@,
            "dbc"@,
            "recorder"@,
            "obdii"@,
            "uds"@,
        ],
{
    let r = vec!["fd", "xl", "isotp", "j1939", "safety", "dbc", "recorder", "obdii", "uds"];
    assert(names(r@) =~= seq![
        "fd"@,
        "xl"@,
        "isotp"@,
        "j1939"@,
        "safety"@,
        "dbc"@,
        "recorder"@,
        "obdii"@,
        "uds"@,
    ]);
    r
}

/// The interfaces that a bus may have besides `Bus`.
pub fn optional_interfaces() -> (r: Vec<&'static str>)
    ensures
        names(r@) == seq!["LoaningBus"@, "HealthProvider"@, "MetricsProvider"@, "Drainer"@],
{
    let r = vec!["LoaningBus", "HealthProvider", "MetricsProvider", "Drainer"];
    assert(names(r@) =~= seq!["LoaningBus"@, "HealthProvider"@, "MetricsProvider"@, "Drainer"@]);
    r
}

// ---------------------------------------------------------------------------
// send
// ---------------------------------------------------------------------------

/// The flags of a frame to send.
#[derive(Debug, Clone, Copy)]
pub struct FrameFlags {
    pub fd: bool,
    pub ext: bool,
    pub xl: bool,
    pub sdt: u8,
    pub vcid: u8,
    pub af: u32,
    pub sec: bool,
}

/// The identifier that text gives: hexadecimal behind `0x` or `0X`, else decimal.
pub open spec fn id_in(s: Seq<char>) -> Result<u32, Seq<char>> {
    let hex = text::has_prefix(s, "0x"@) || text::has_prefix(s, "0X"@);
    let digits = if hex { s.skip(2) } else { s };
    let radix = if hex { 16nat } else { 10nat };
    match text::parse_number(digits, radix, u32::MAX as nat) {
        Some(v) => Ok(v as u32),
        None => Err(text::number_fault(digits, radix, u32::MAX as nat)),
    }
}

/// Reads an identifier: hexadecimal behind `0x` or `0X`, else decimal.
pub fn parse_id(s: &str) -> (r: Result<u32, String>)
    ensures
        match r {
            Ok(v) => id_in(s@) == Ok::<u32, Seq<char>>(v),
            Err(e) => id_in(s@) == Err::<u32, Seq<char>>(e@),
        },
{
    let cs = text::chars_of(s);
    proof {
        reveal_strlit("0x");
        reveal_strlit("0X");
    }
    if text::starts_with(&cs, "0x") || text::starts_with(&cs, "0X") {
        let digits = slice_subrange(&cs, 2, cs.len());
        assert(digits@ =~= s@.skip(2));
        match text::parse_unsigned(digits, 16, u32::MAX as u64) {
            Some(v) => Ok(v as u32),
            None => Err(text::number_fault_string(digits, 16, u32::MAX as u64)),
        }
    } else {
        match text::parse_unsigned(&cs, 10, u32::MAX as u64) {
            Some(v) => Ok(v as u32),
            None => Err(text::number_fault_string(&cs, 10, u32::MAX as u64)),
        }
    }
}

/// Text without its spaces.
pub open spec fn without_spaces(s: Seq<char>) -> Seq<char> {
    s.filter(|c: char| c != ' ')
}

/// The text without its spaces.
pub fn remove_spaces(s: &str) -> (r: String)
    ensures
        r@ == without_spaces(s@),
{
    let cs = text::chars_of(s);
    let mut out: Vec<char> = Vec::new();
    let mut i: usize = 0;
    let ghost keep = |c: char| c != ' ';
    proof {
        reveal(Seq::filter);
        assert(cs@.take(0).filter(keep) =~= Seq::empty());
    }
    while i < cs.len()
        invariant
            i <= cs@.len(),
            keep == (|c: char| c != ' '),
            out@ == cs@.take(i as int).filter(keep),
        decreases cs@.len() - i,
    {
        proof {
            reveal(Seq::filter);
            assert(cs@.take(i + 1).drop_last() =~= cs@.take(i as int));
            assert(cs@.take(i + 1).last() == cs@[i as int]);
        }
        if cs[i] != ' ' {
            out.push(cs[i]);
        }
        i += 1;
    }
    assert(cs@.take(i as int) =~= cs@);
    text::string_of(&out)
}

/// The frame with the given identifier, payload and flags.
pub open spec fn flagged(id: u32, data: Seq<u8>, flags: FrameFlags) -> FrameView {
    FrameView {
        ext: flags.ext,
        fd: flags.fd,
        xl: flags.xl,
        sdt: flags.sdt,
        vcid: flags.vcid,
        af: flags.af,
        sec: flags.sec,
        ..frame::plain_frame(id, data)
    }
}

/// The text of an optional argument.
pub open spec fn argument(s: Option<&str>) -> Option<Seq<char>> {
    match s {
        Some(s) => Some(s@),
        None => None,
    }
}

/// The frame that the arguments of `send` describe, or what is wrong with them. The first
/// fault counts: a missing argument, a bad identifier, bad data, an invalid frame.
pub open spec fn described(
    id: Option<Seq<char>>,
    data: Option<Seq<char>>,
    flags: FrameFlags,
) -> Result<FrameView, Seq<char>> {
    match (id, data) {
        (None, _) => Err("rust-can: --id is required in text mode"@),
        (Some(_), None) => Err("rust-can: --data is required in text mode"@),
        (Some(id), Some(data)) => match id_in(id) {
            Err(e) => Err(e),
            Ok(id) => match hexcodec::hex_bytes(without_spaces(data)) {
                None => Err(hexcodec::hex_error_text(without_spaces(data))),
                Some(bytes) => match frame::validation(flagged(id, bytes, flags)) {
                    Err(e) => Err(error::error_text(e)),
                    Ok(()) => Ok(flagged(id, bytes, flags)),
                },
            },
        },
    }
}

/// The frame that the arguments of `send` describe, or what is wrong with them.
pub fn describe_frame(id: Option<&str>, data: Option<&str>, flags: FrameFlags) -> (r: Result<
    Frame,
    String,
>)
    ensures
        match r {
            Ok(f) => described(argument(id), argument(data), flags) == Ok::<FrameView, Seq<char>>(
                f@,
            ),
            Err(e) => described(argument(id), argument(data), flags) == Err::<
                FrameView,
                Seq<char>,
            >(e@),
        },
{
    let id = match id {
        Some(id) => id,
        None => {
            return Err("rust-can: --id is required in text mode".to_owned());
        },
    };
    let data = match data {
        Some(data) => data,
        None => {
            return Err("rust-can: --data is required in text mode".to_owned());
        },
    };
    let id: u32 = match parse_id(id) {
        Ok(id) => id,
        Err(e) => {
            return Err(e);
        },
    };
    let digits = remove_spaces(data);
    let data = match hexcodec::decode(digits.as_str()) {
        Ok(data) => data,
        Err(e) => {
            return Err(e);
        },
    };
    let mut f = Frame::default();
    f.id = id;
    f.ext = flags.ext;
    f.fd = flags.fd;
    f.xl = flags.xl;
    f.sdt = flags.sdt;
    f.vcid = flags.vcid;
    f.af = flags.af;
    f.sec = flags.sec;
    f.data = data;
    match frame::validate_frame(&f) {
        Ok(()) => Ok(f),
        Err(e) => Err(e.to_string()),
    }
}

/// A frame in words.
pub open spec fn frame_line(f: FrameView) -> Seq<char> {
    "id=0x"@ + text::number_text(f.id as nat, 16) + " ext="@ + text::flag_text(f.ext) + " fd="@
        + text::flag_text(f.fd) + " xl="@ + text::flag_text(f.xl) + " data="@
        + hexcodec::hex_lower(f.data)
}

/// A frame in words.
pub fn frame_words(f: &Frame) -> (r: String)
    ensures
        r@ == frame_line(f@),
{
    let id = text::number_string(f.id as u64, 16);
    let ext = text::flag_string(f.ext);
    let fd = text::flag_string(f.fd);
    let xl = text::flag_string(f.xl);
    let data = hexcodec::encode(&f.data);
    let front = text::join5("id=0x", id.as_str(), " ext=", ext.as_str(), " fd=");
    let middle = text::join5(front.as_str(), fd.as_str(), " xl=", xl.as_str(), " data=");
    text::join2(middle.as_str(), data.as_str())
}

/// Sends the frame that the arguments describe on a virtual bus of its own, and says which
/// frame that was.
pub fn send_text(
    id: Option<&str>,
    data: Option<&str>,
    flags: FrameFlags,
    now: u64,
) -> (r: Result<String, String>)
    ensures
        match (r, described(argument(id), argument(data), flags)) {
            (Ok(line), Ok(f)) => line@ == "sent: "@ + frame_line(f),
            (Err(e), Err(text)) => e@ == text,
            _ => false,
        },
{
    let f = match describe_frame(id, data, flags) {
        Ok(f) => f,
        Err(e) => {
            return Err(e);
        },
    };
    let words = frame_words(&f);
    let mut bus = VirtualBus::new();
    match bus.send(now, f) {
        Ok(()) => Ok(text::join2("sent: ", words.as_str())),
        Err(e) => Err(e.to_string()),
    }
}

/// A run of `send` that reads messages line by line.
#[derive(Debug)]
pub struct JsonSender {
    pub bus: VirtualBus,
    pub sent: usize,
    pub errors: usize,
}

/// What becomes of a message that was read, or of a line that could not be read: the frame
/// that is sent, or the note that is printed.
pub open spec fn line_outcome(msg: Result<MessageView, Seq<char>>) -> Result<
    FrameView,
    Seq<char>,
> {
    match msg {
        Err(e) => Err("rust-can: send --format json: parse error: "@ + e),
        Ok(m) => match adapt::frame_of(m) {
            Err(e) => Err(
                "rust-can: send --format json: conversion error: "@ + error::error_text(e),
            ),
            Ok(f) => match frame::validation(f) {
                Err(e) => Err(
                    "rust-can: send --format json: invalid frame: "@ + error::error_text(e),
                ),
                Ok(()) => Ok(f),
            },
        },
    }
}

/// The text that a line holds for `send`: what is between the spaces at its ends. A line
/// of spaces holds none.
pub fn json_line(line: &str) -> (r: Option<String>)
    ensures
        match r {
            Some(s) => text::trimmed(line@).len() > 0 && s@ == text::trimmed(line@),
            None => text::trimmed(line@).len() == 0,
        },
{
    let cs = text::chars_of(line);
    let t = text::trim(&cs);
    if t.len() == 0 {
        None
    } else {
        Some(text::string_of(t))
    }
}

impl JsonSender {
    /// The bus is open.
    pub open spec fn wf(&self) -> bool {
        self.bus.wf() && !self.bus@.closed
    }

    /// A run in which nothing was sent yet.
    pub fn new() -> (r: JsonSender)
        ensures
            r.wf(),
            r.sent == 0 && r.errors == 0,
            r.bus@ == (VirtualBusView {
                subs: Seq::empty(),
                closed: false,
                metrics: Metrics {
                    write_count: 0,
                    deliver_count: 0,
                    drop_count: 0,
                    bytes_written: 0,
                    bytes_delivered: 0,
                    error_count: 0,
                },
            }),
    {
        JsonSender { bus: VirtualBus::new(), sent: 0, errors: 0 }
    }

    /// Sends the message of a line, or returns the note on why it cannot be sent.
    pub fn on_message(&mut self, msg: Result<Message, String>, now: u64) -> (r: Option<String>)
        requires
            old(self).wf(),
            old(self).sent < usize::MAX && old(self).errors < usize::MAX,
            msg matches Ok(m) ==> m.wf(),
        ensures
            final(self).wf(),
            match line_outcome(
                match msg {
                    Ok(m) => Ok(m@),
                    Err(e) => Err(e@),
                },
            ) {
                Ok(f) => {
                    &&& r is None
                    &&& final(self).bus@ == old(self).bus@.after_send(f, now as nat)
                    &&& final(self).sent == old(self).sent + 1
                    &&& final(self).errors == old(self).errors
                },
                Err(note) => {
                    &&& r matches Some(s) && s@ == note
                    &&& final(self).bus@ == old(self).bus@
                    &&& final(self).sent == old(self).sent
                    &&& final(self).errors == old(self).errors + 1
                },
            },
    {
        let msg = match msg {
            Ok(m) => m,
            Err(e) => {
                self.errors = self.errors + 1;
                return Some(
                    text::join2("rust-can: send --format json: parse error: ", e.as_str()),
                );
            },
        };
        let f = match adapt::from_message(&msg) {
            Ok(f) => f,
            Err(e) => {
                self.errors = self.errors + 1;
                let words = e.to_string();
                return Some(
                    text::join2("rust-can: send --format json: conversion error: ", words.as_str()),
                );
            },
        };
        if let Err(e) = frame::validate_frame(&f) {
            self.errors = self.errors + 1;
            let words = e.to_string();
            return Some(
                text::join2("rust-can: send --format json: invalid frame: ", words.as_str()),
            );
        }
        let _ = self.bus.send(now, f);
        self.sent = self.sent + 1;
        None
    }

    /// The last line of a run.
    pub fn summary(&self) -> (r: String)
        ensures
            r@ == "rust-can: send --format json: sent="@ + text::number_text(self.sent as nat, 10)
                + " errors="@ + text::number_text(self.errors as nat, 10),
    {
        let sent = text::number_string(self.sent as u64, 10);
        let errors = text::number_string(self.errors as u64, 10);
        text::join4(
            "rust-can: send --format json: sent=",
            sent.as_str(),
            " errors=",
            errors.as_str(),
        )
    }
}

// ---------------------------------------------------------------------------
// subscribe
// ---------------------------------------------------------------------------

/// The note with which `subscribe` begins. A count of 0 stands for no limit.
pub fn subscribe_note(count: usize) -> (r: String)
    ensures
        r@ == "rust-can: subscribing on virtual bus ("@ + (if count == 0 {
            "unlimited"@
        } else {
            text::number_text(count as nat, 10) + " frames"@
        }) + ")"@,
{
    let limit = if count == 0 {
        "unlimited".to_owned()
    } else {
        let n = text::number_string(count as u64, 10);
        text::join2(n.as_str(), " frames")
    };
    text::join3("rust-can: subscribing on virtual bus (", limit.as_str(), ")")
}

/// The line that `subscribe` prints for the frame with the given number.
pub open spec fn numbered_line(number: nat, f: FrameView) -> Seq<char> {
    "["@ + text::number_text(number, 10) + "] "@ + frame_line(f)
}

/// What `subscribe` prints for a frame as an object.
#[derive(Debug)]
pub struct ReceivedFrame {
    pub id: String,
    pub data: String,
    pub ext: bool,
    pub fd: bool,
    pub xl: bool,
    pub rtr: bool,
    pub seq: usize,
}

/// A run of `subscribe`.
#[derive(Debug, Clone, Copy)]
pub struct SubscribeRun {
    /// Number of frames after which the run ends (0: no limit).
    pub count: usize,
    /// Number of frames that came in.
    pub received: usize,
}

impl SubscribeRun {
    /// A run in which no frame came in yet.
    pub fn new(count: usize) -> (r: SubscribeRun)
        ensures
            r == (SubscribeRun { count, received: 0 }),
    {
        SubscribeRun { count, received: 0 }
    }

    /// Whether the run waits for another frame.
    pub fn wants_more(&self) -> (r: bool)
        ensures
            r == (self.count == 0 || self.received < self.count),
    {
        !(self.count > 0 && self.received >= self.count)
    }

    /// Takes a frame and returns the line for it. Frames are numbered from 1.
    pub fn on_frame_text(&mut self, f: &Frame) -> (r: String)
        requires
            old(self).received < usize::MAX,
        ensures
            final(self).count == old(self).count,
            final(self).received == old(self).received + 1,
            r@ == numbered_line(old(self).received as nat + 1, f@),
    {
        self.received = self.received + 1;
        let n = text::number_string(self.received as u64, 10);
        let words = frame_words(f);
        text::join4("[", n.as_str(), "] ", words.as_str())
    }

    /// Takes a frame and returns the object for it: the identifier is that of the frame's
    /// message. Frames are numbered from 1.
    pub fn on_frame_object(&mut self, f: &Frame) -> (r: ReceivedFrame)
        requires
            old(self).received < usize::MAX,
        ensures
            final(self).count == old(self).count,
            final(self).received == old(self).received + 1,
            forall|t: Timestamp| r.id@ == #[trigger] adapt::message_of(f@, t).id,
            r.data@ == hexcodec::hex_lower(f@.data),
            r.ext == f@.ext,
            r.fd == f@.fd,
            r.xl == f@.xl,
            r.rtr == f@.rtr,
            r.seq == old(self).received + 1,
    {
        self.received = self.received + 1;
        let msg = adapt::to_message(f);
        ReceivedFrame {
            id: msg.id,
            data: hexcodec::encode(&f.data),
            ext: f.ext,
            fd: f.fd,
            xl: f.xl,
            rtr: f.rtr,
            seq: self.received,
        }
    }
}

// ---------------------------------------------------------------------------
// convert
// ---------------------------------------------------------------------------

/// Whether the tool implements a protocol, or the note that it does not.
pub fn accept_protocol(protocol: &str) -> (r: Result<(), String>)
    ensures
        match r {
            Ok(()) => text::same_ignoring_case(protocol@, "CAN"@),
            Err(e) => !text::same_ignoring_case(protocol@, "CAN"@) && e@
                == "rust-can: convert: unsupported protocol '"@ + protocol@
                + "'; this tool implements CAN"@,
        },
{
    let cs = text::chars_of(protocol);
    if text::equals_ignoring_case(&cs, "CAN") {
        Ok(())
    } else {
        Err(
            text::join3(
                "rust-can: convert: unsupported protocol '",
                protocol,
                "'; this tool implements CAN",
            ),
        )
    }
}

/// The message that `convert` prints for a frame: its time is the epoch. An invalid frame
/// is refused.
pub fn convert(f: &Frame) -> (r: Result<Message, Error>)
    ensures
        match r {
            Ok(m) => m.wf() && f@.valid() && m@ == adapt::message_of(
                f@,
                Timestamp { secs: 0, nanos: 0 },
            ),
            Err(e) => frame::validation(f@) == Err::<(), ErrorView>(e@),
        },
{
    match frame::validate_frame(f) {
        Ok(()) => Ok(adapt::to_message_at(f, Timestamp::epoch())),
        Err(e) => Err(e),
    }
}

// ---------------------------------------------------------------------------
// Laws
// ---------------------------------------------------------------------------

/// An identifier is read from its decimal digits, and from its hexadecimal digits behind
/// `0x` or `0X`, up to 32 bits.
pub proof fn identifiers_read_back(n: u32)
    ensures
        id_in(text::number_text(n as nat, 10)) == Ok::<u32, Seq<char>>(n),
        id_in(seq!['0', 'x'] + text::number_text(n as nat, 16)) == Ok::<u32, Seq<char>>(n),
        id_in(seq!['0', 'X'] + text::number_text(n as nat, 16)) == Ok::<u32, Seq<char>>(n),
{
    reveal_strlit("0x");
    reveal_strlit("0X");
    text::number_text_reads_back(n as nat, 10, 0, u32::MAX as nat);
    text::number_text_reads_back(n as nat, 16, 0, u32::MAX as nat);
    let t = text::number_text(n as nat, 10);
    let h = text::number_text(n as nat, 16);
    let a = seq!['0', 'x'] + h;
    let b = seq!['0', 'X'] + h;
    assert(a.skip(2) =~= h);
    assert(b.skip(2) =~= h);
    assert(a.take(2) =~= "0x"@);
    assert(b.take(2) =~= "0X"@);
    if t.len() >= 2 {
        assert(text::digit_value(t[1]) < 10);
        assert(t.take(2)[1] == t[1]);
        assert("0x"@[1] == 'x' && "0X"@[1] == 'X');
    }
}

/// The frame that `send` makes of an identifier and of data in hexadecimal has that
/// identifier, those bytes and the flags that were given, and is otherwise plain. It is
/// made exactly where that frame is valid.
pub proof fn described_frames(n: u32, data: Seq<u8>, flags: FrameFlags)
    ensures
        ({
            let f = FrameView {
                ext: flags.ext,
                fd: flags.fd,
                xl: flags.xl,
                sdt: flags.sdt,
                vcid: flags.vcid,
                af: flags.af,
                sec: flags.sec,
                ..frame::plain_frame(n, data)
            };
            let id = Some(seq!['0', 'x'] + text::number_text(n as nat, 16));
            &&& f.valid() ==> described(id, Some(hexcodec::hex_upper(data)), flags) == Ok::<
                FrameView,
                Seq<char>,
            >(f)
            &&& f.valid() ==> described(id, Some(hexcodec::hex_lower(data)), flags) == Ok::<
                FrameView,
                Seq<char>,
            >(f)
            &&& !f.valid() ==> described(id, Some(hexcodec::hex_upper(data)), flags) is Err
            &&& described(None, Some(hexcodec::hex_upper(data)), flags) is Err
            &&& described(id, None, flags) is Err
        }),
{
    identifiers_read_back(n);
    hexcodec::hex_round_trip(data);
    lemma_no_spaces(hexcodec::hex_upper(data));
    lemma_no_spaces(hexcodec::hex_lower(data));
    frame::fault_iff_invalid(flagged(n, data, flags));
}

proof fn lemma_no_spaces(s: Seq<char>)
    requires
        text::is_number(s, 16),
    ensures
        without_spaces(s) == s,
    decreases s.len(),
{
    reveal(Seq::filter);
    let keep = |c: char| c != ' ';
    if s.len() > 0 {
        let t = s.drop_last();
        assert forall|i: int| 0 <= i < t.len() implies #[trigger] text::digit_value(t[i]) < 16 by {
            assert(text::digit_value(s[i]) < 16);
        }
        lemma_no_spaces(t);
        assert(text::digit_value(s[s.len() - 1]) < 16);
        assert(s.last() != ' ');
        assert(s.filter(keep) =~= t.filter(keep).push(s.last()));
        assert(t.push(s.last()) =~= s);
    } else {
        assert(s.filter(keep) =~= s);
    }
}

/// Spaces in the data do not count, wherever they stand.
pub proof fn spaces_do_not_count(a: Seq<char>, b: Seq<char>)
    ensures
        without_spaces(a + seq![' '] + b) == without_spaces(a + b),
        forall|i: int|
            0 <= i < without_spaces(a).len() ==> #[trigger] without_spaces(a)[i] != ' ',
{
    let keep = |c: char| c != ' ';
    let blank = seq![' '];
    assert(blank.filter(keep) =~= Seq::empty()) by {
        reveal(Seq::filter);
        assert(blank.drop_last() =~= Seq::empty());
        assert(blank.drop_last().filter(keep) =~= Seq::empty());
        assert(blank.last() == ' ');
    }
    Seq::filter_distributes_over_add(a, b, keep);
    Seq::filter_distributes_over_add(a, blank, keep);
    Seq::filter_distributes_over_add(a + blank, b, keep);
    assert(a.filter(keep) + Seq::empty() =~= a.filter(keep));
    a.filter_lemma(keep);
}

/// A message that was read is sent exactly where it stands for a valid frame. Otherwise the
/// note says at which step it failed and why.
pub proof fn messages_that_are_sent(m: MessageView, e: Seq<char>)
    ensures
        match adapt::frame_of(m) {
            Ok(f) => if f.valid() {
                line_outcome(Ok(m)) == Ok::<FrameView, Seq<char>>(f)
            } else {
                frame::validation(f) matches Err(why) && line_outcome(Ok(m)) == Err::<
                    FrameView,
                    Seq<char>,
                >("rust-can: send --format json: invalid frame: "@ + error::error_text(why))
            },
            Err(why) => line_outcome(Ok(m)) == Err::<FrameView, Seq<char>>(
                "rust-can: send --format json: conversion error: "@ + error::error_text(why),
            ),
        },
        line_outcome(Err(e)) == Err::<FrameView, Seq<char>>(
            "rust-can: send --format json: parse error: "@ + e,
        ),
{
    if let Ok(f) = adapt::frame_of(m) {
        frame::fault_iff_invalid(f);
    }
}

/// What is printed of a frame: identifier, format flags and data, each under its own name,
/// with the frame's number in brackets in front where frames are counted.
pub proof fn frames_in_words(f: FrameView, number: nat)
    ensures
        ({
            let flag = |b: bool| if b { "true"@ } else { "false"@ };
            let words = "id=0x"@ + text::number_text(f.id as nat, 16) + " ext="@ + flag(f.ext)
                + " fd="@ + flag(f.fd) + " xl="@ + flag(f.xl) + " data="@ + hexcodec::hex_lower(
                f.data,
            );
            &&& frame_line(f) == words
            &&& numbered_line(number, f) == "["@ + text::number_text(number, 10) + "] "@ + words
        }),
{
}

} // verus!
