//! A peer that sends or receives a run of frames over SocketCAN and reports on it.
use vstd::prelude::*;

use crate::error;
use crate::error::{Error, ErrorView};
use crate::frame;
use crate::frame::{Frame, FrameView};
use crate::hexcodec;
use crate::text;

verus! {

/// What the peer does.
#[derive(Debug, Clone, Copy, PartialEq, Eq, Structural)]
pub enum Role {
    Sender,
    Receiver,
}

/// The arguments of the peer.
#[derive(Debug)]
pub struct Cli {
    pub role: Role,
    /// The network interface.
    pub iface: String,
    /// Identifier of every frame that is sent.
    pub id: u32,
    /// Whether the frames that are sent have the extended format.
    pub ext: bool,
    /// Whether the frames that are sent are CAN FD frames.
    pub fd: bool,
    /// Number of frames to send or to wait for.
    pub count: usize,
    /// Mixed into the payload of the frames that are sent.
    pub seed: u8,
    /// Pause behind each frame that is sent.
    pub interval_ms: u64,
    /// Pause in front of the first frame that is sent.
    pub settle_ms: u64,
    /// How long to wait for all frames.
    pub recv_timeout_secs: u64,
}

impl Cli {
    /// The arguments of a peer for which only the role is given.
    pub fn for_role(role: Role) -> (r: Cli)
        ensures
            r.role == role,
            r.iface@ == "vcan0"@,
            r.id == 0x123,
            !r.ext && !r.fd,
            r.count == 5,
            r.seed == 0,
            r.interval_ms == 20,
            r.settle_ms == 150,
            r.recv_timeout_secs == 15,
    {
        Cli {
            role,
            iface: "vcan0".to_owned(),
            id: 0x123,
            ext: false,
            fd: false,
            count: 5,
            seed: 0,
            interval_ms: 20,
            settle_ms: 150,
            recv_timeout_secs: 15,
        }
    }
}

// ---------------------------------------------------------------------------
// Reports
// ---------------------------------------------------------------------------

/// A frame in a report.
#[derive(Debug)]
pub struct FrameRecord {
    pub id: u32,
    pub ext: bool,
    pub rtr: bool,
    pub fd: bool,
    pub brs: bool,
    pub esi: bool,
    pub dlc: usize,
    pub data_hex: String,
}

/// The mathematical value of a [`FrameRecord`].
#[verifier::ext_equal]
pub struct RecordView {
    pub id: u32,
    pub ext: bool,
    pub rtr: bool,
    pub fd: bool,
    pub brs: bool,
    pub esi: bool,
    pub dlc: nat,
    pub data_hex: Seq<char>,
}

impl View for FrameRecord {
    type V = RecordView;

    open spec fn view(&self) -> RecordView {
        RecordView {
            id: self.id,
            ext: self.ext,
            rtr: self.rtr,
            fd: self.fd,
            brs: self.brs,
            esi: self.esi,
            dlc: self.dlc as nat,
            data_hex: self.data_hex@,
        }
    }
}

/// What a report says of a frame.
pub open spec fn record_of(f: FrameView) -> RecordView {
    RecordView {
        id: f.id,
        ext: f.ext,
        rtr: f.rtr,
        fd: f.fd,
        brs: f.brs,
        esi: f.esi,
        dlc: f.data.len(),
        data_hex: hexcodec::hex_lower(f.data),
    }
}

/// What a report says of frames.
pub open spec fn record_views(s: Seq<FrameRecord>) -> Seq<RecordView> {
    Seq::new(s.len(), |i: int| s[i]@)
}

impl FrameRecord {
    /// What a report says of a frame.
    pub fn from_frame(f: &Frame) -> (r: FrameRecord)
        ensures
            r@ == record_of(f@),
    {
        FrameRecord {
            id: f.id,
            ext: f.ext,
            rtr: f.rtr,
            fd: f.fd,
            brs: f.brs,
            esi: f.esi,
            dlc: f.data.len(),
            data_hex: hexcodec::encode(&f.data),
        }
    }
}

/// The report on a run.
#[derive(Debug)]
pub struct Report {
    pub role: &'static str,
    pub ok: bool,
    pub iface: String,
    pub count: usize,
    pub sent: Option<Vec<FrameRecord>>,
    pub received: Option<Vec<FrameRecord>>,
    pub error: Option<String>,
}

/// The mathematical value of a [`Report`].
#[verifier::ext_equal]
pub struct ReportView {
    pub role: Seq<char>,
    pub ok: bool,
    pub iface: Seq<char>,
    pub count: nat,
    pub sent: Option<Seq<RecordView>>,
    pub received: Option<Seq<RecordView>>,
    pub error: Option<Seq<char>>,
}

impl View for Report {
    type V = ReportView;

    open spec fn view(&self) -> ReportView {
        ReportView {
            role: self.role@,
            ok: self.ok,
            iface: self.iface@,
            count: self.count as nat,
            sent: match self.sent {
                Some(v) => Some(record_views(v@)),
                None => None,
            },
            received: match self.received {
                Some(v) => Some(record_views(v@)),
                None => None,
            },
            error: match self.error {
                Some(s) => Some(s@),
                None => None,
            },
        }
    }
}

impl Report {
    /// The exit code of the peer: 0 where the run succeeded.
    pub fn exit_code(&self) -> (r: i32)
        ensures
            r == (if self@.ok { 0i32 } else { 1i32 }),
    {
        if self.ok {
            0
        } else {
            1
        }
    }
}

/// The name of a role.
pub open spec fn role_text(role: Role) -> Seq<char> {
    match role {
        Role::Sender => "sender"@,
        Role::Receiver => "receiver"@,
    }
}

/// The name of a role.
pub fn role_str(role: Role) -> (r: &'static str)
    ensures
        r@ == role_text(role),
{
    match role {
        Role::Sender => "sender",
        Role::Receiver => "receiver",
    }
}

/// The report on a run that failed before any frame was sent or received.
pub open spec fn failure(role: Role, iface: Seq<char>, count: nat, error: Seq<char>) -> ReportView {
    ReportView {
        role: role_text(role),
        ok: false,
        iface,
        count,
        sent: None,
        received: None,
        error: Some(error),
    }
}

/// The report on a run that failed before any frame was sent or received.
pub fn fail_report(role: Role, iface: &str, count: usize, error: String) -> (r: Report)
    ensures
        r@ == failure(role, iface@, count as nat, error@),
{
    Report {
        role: role_str(role),
        ok: false,
        iface: iface.to_owned(),
        count,
        sent: None,
        received: None,
        error: Some(error),
    }
}

/// The note on a failure.
pub fn failure_note(error: &str) -> (r: String)
    ensures
        r@ == "can-interop-peer: FAIL: "@ + error@,
{
    text::join2("can-interop-peer: FAIL: ", error)
}

/// The report of a peer that cannot open its interface.
pub fn open_failed(cli: &Cli, e: &Error) -> (r: Report)
    ensures
        r@ == failure(
            cli.role,
            cli.iface@,
            cli.count as nat,
            "open SocketCAN iface "@ + text::debug_text(cli.iface@) + ": "@ + error::error_text(e@),
        ),
{
    let iface = text::debug_string(cli.iface.as_str());
    let words = e.to_string();
    let error = text::join4("open SocketCAN iface ", iface.as_str(), ": ", words.as_str());
    fail_report(cli.role, cli.iface.as_str(), cli.count, error)
}

/// The report of a peer that cannot subscribe.
pub fn subscribe_failed(cli: &Cli, e: &Error) -> (r: Report)
    ensures
        r@ == failure(
            cli.role,
            cli.iface@,
            cli.count as nat,
            "subscribe: "@ + error::error_text(e@),
        ),
{
    let words = e.to_string();
    let error = text::join2("subscribe: ", words.as_str());
    fail_report(cli.role, cli.iface.as_str(), cli.count, error)
}

// ---------------------------------------------------------------------------
// Sender
// ---------------------------------------------------------------------------

/// The length of the payload of frame `i`: it counts up from 1 to the largest payload of
/// the format, over and over.
pub open spec fn run_len(fd: bool, i: nat) -> nat {
    1 + i % (if fd { 64nat } else { 8nat })
}

/// Byte `j` of the payload of frame `i`.
pub open spec fn run_byte(seed: u8, i: nat, j: nat) -> u8 {
    ((seed + 31 * i + 7 * j + 13) % 256) as u8
}

/// Frame `i` of a run.
pub open spec fn run_frame(cli: Cli, i: nat) -> FrameView {
    FrameView {
        ext: cli.ext,
        fd: cli.fd,
        brs: cli.fd && i % 2 == 0,
        esi: cli.fd && i % 3 == 0,
        ..frame::plain_frame(
            cli.id,
            Seq::new(run_len(cli.fd, i), |j: int| run_byte(cli.seed, i, j as nat)),
        )
    }
}

/// What is reported of the first `n` frames of a run.
pub open spec fn run_records(cli: Cli, n: nat) -> Seq<RecordView> {
    Seq::new(n, |i: int| record_of(run_frame(cli, i as nat)))
}

fn build_byte(seed: u8, i: usize, j: usize) -> (r: u8)
    requires
        j < 64,
    ensures
        r == run_byte(seed, i as nat, j as nat),
{
    let low: usize = i % 256;
    let sum: usize = seed as usize + 31 * low + 7 * j + 13;
    assert((seed + 31 * i + 7 * j + 13) % 256 == sum as int % 256) by {
        let q = i as int / 256;
        assert(i == 256 * q + low);
        assert(seed + 31 * i + 7 * j + 13 == sum + 256 * (31 * q));
        vstd::arithmetic::div_mod::lemma_mod_multiples_vanish(31 * q, sum as int, 256);
    }
    (sum % 256) as u8
}

/// Frame `i` of a run.
pub fn build_frame(cli: &Cli, i: usize) -> (r: Frame)
    ensures
        r@ == run_frame(*cli, i as nat),
{
    let most: usize = if cli.fd { 64 } else { 8 };
    let len: usize = 1 + (i % most);
    let mut data: Vec<u8> = Vec::new();
    let mut j: usize = 0;
    while j < len
        invariant
            j <= len <= 64,
            data@ == Seq::new(j as nat, |k: int| run_byte(cli.seed, i as nat, k as nat)),
        decreases len - j,
    {
        data.push(build_byte(cli.seed, i, j));
        j += 1;
    }
    let mut f = Frame::default();
    f.id = cli.id;
    f.ext = cli.ext;
    f.fd = cli.fd;
    f.brs = cli.fd && i % 2 == 0;
    f.esi = cli.fd && i % 3 == 0;
    f.data = data;
    assert(f@.data =~= run_frame(*cli, i as nat).data);
    f
}

/// What the sender does next.
#[derive(Debug)]
pub enum SenderStep {
    /// Send this frame.
    Send(Frame),
    /// The run is over.
    Finished(Report),
}

/// A run of the sender.
#[derive(Debug)]
pub struct SenderRun {
    /// What is reported of the frames that were sent.
    pub sent: Vec<FrameRecord>,
}

/// The report on a run of the sender in which `n` frames are recorded.
pub open spec fn sender_report(cli: Cli, n: nat, error: Option<Seq<char>>) -> ReportView {
    ReportView {
        role: "sender"@,
        ok: error is None,
        iface: cli.iface@,
        count: cli.count as nat,
        sent: Some(run_records(cli, n)),
        received: None,
        error,
    }
}

impl SenderRun {
    /// The frames of the run that were sent are on record, one by one.
    pub open spec fn wf(&self, cli: Cli) -> bool {
        self.sent@.len() <= cli.count && record_views(self.sent@) == run_records(
            cli,
            self.sent@.len(),
        )
    }

    /// Begins a run.
    pub fn new(cli: &Cli) -> (r: SenderRun)
        ensures
            r.wf(*cli),
            r.sent@.len() == 0,
    {
        let r = SenderRun { sent: Vec::new() };
        assert(record_views(r.sent@) =~= run_records(*cli, 0));
        r
    }

    /// What the sender does next: it sends the next frame, or it is done after the last.
    pub fn next(&mut self, cli: &Cli) -> (r: SenderStep)
        requires
            old(self).wf(*cli),
        ensures
            match r {
                SenderStep::Send(f) => {
                    &&& old(self).sent@.len() < cli.count
                    &&& f@ == run_frame(*cli, old(self).sent@.len())
                    &&& *final(self) == *old(self)
                },
                SenderStep::Finished(report) => {
                    &&& old(self).sent@.len() == cli.count
                    &&& report@ == sender_report(*cli, cli.count as nat, None)
                    &&& final(self).sent@.len() == 0
                },
            },
    {
        let done: usize = self.sent.len();
        if done < cli.count {
            return SenderStep::Send(build_frame(cli, done));
        }
        let mut sent: Vec<FrameRecord> = Vec::new();
        sent.append(&mut self.sent);
        assert(record_views(sent@) =~= record_views(old(self).sent@));
        SenderStep::Finished(
            Report {
                role: "sender",
                ok: true,
                iface: cli.iface.clone(),
                count: cli.count,
                sent: Some(sent),
                received: None,
                error: None,
            },
        )
    }

    /// Reports what came of sending the next frame. A failure ends the run; the frame that
    /// could not be sent is on record too.
    pub fn on_sent(&mut self, cli: &Cli, frame: &Frame, result: Result<(), Error>) -> (r: Option<
        Report,
    >)
        requires
            old(self).wf(*cli),
            old(self).sent@.len() < cli.count,
            frame@ == run_frame(*cli, old(self).sent@.len()),
        ensures
            match result {
                Ok(()) => {
                    &&& r is None
                    &&& final(self).wf(*cli)
                    &&& final(self).sent@.len() == old(self).sent@.len() + 1
                },
                Err(e) => {
                    &&& r matches Some(report)
                    &&& report@ == sender_report(
                        *cli,
                        old(self).sent@.len() + 1,
                        Some(
                            "send "@ + text::number_text(old(self).sent@.len(), 10) + " failed: "@
                                + error::error_text(e@),
                        ),
                    )
                    &&& final(self).sent@.len() == 0
                },
            },
    {
        let done: usize = self.sent.len();
        self.sent.push(FrameRecord::from_frame(frame));
        proof {
            let before = record_views(old(self).sent@);
            assert(record_views(self.sent@) =~= before.push(record_of(frame@)));
            assert(run_records(*cli, done as nat + 1) =~= run_records(*cli, done as nat).push(
                record_of(frame@),
            ));
        }
        match result {
            Ok(()) => None,
            Err(e) => {
                let n = text::number_string(done as u64, 10);
                let words = e.to_string();
                let mut sent: Vec<FrameRecord> = Vec::new();
                let ghost all = self.sent@;
                sent.append(&mut self.sent);
                assert(record_views(sent@) =~= record_views(all));
                Some(
                    Report {
                        role: "sender",
                        ok: false,
                        iface: cli.iface.clone(),
                        count: cli.count,
                        sent: Some(sent),
                        received: None,
                        error: Some(
                            text::join4("send ", n.as_str(), " failed: ", words.as_str()),
                        ),
                    },
                )
            },
        }
    }
}

/// The note with which the sender begins.
pub fn sender_note(cli: &Cli) -> (r: String)
    ensures
        r@ == "can-interop-peer: sender on "@ + text::debug_text(cli.iface@) + " sending "@
            + text::number_text(cli.count as nat, 10) + " frame(s), id=0x"@ + text::number_text(
            cli.id as nat,
            16,
        ) + " ext="@ + text::flag_text(cli.ext) + " fd="@ + text::flag_text(cli.fd),
{
    let iface = text::debug_string(cli.iface.as_str());
    let count = text::number_string(cli.count as u64, 10);
    let id = text::number_string(cli.id as u64, 16);
    let ext = text::flag_string(cli.ext);
    let fd = text::flag_string(cli.fd);
    let front = text::join5(
        "can-interop-peer: sender on ",
        iface.as_str(),
        " sending ",
        count.as_str(),
        " frame(s), id=0x",
    );
    let middle = text::join5(front.as_str(), id.as_str(), " ext=", ext.as_str(), " fd=");
    text::join2(middle.as_str(), fd.as_str())
}

// ---------------------------------------------------------------------------
// Receiver
// ---------------------------------------------------------------------------

/// What the receiver learns.
#[derive(Debug)]
pub enum ReceiverEvent {
    /// A frame came in.
    Received(Frame),
    /// The subscription ended, or the time is over.
    Ended,
}

/// A run of the receiver.
#[derive(Debug)]
pub struct ReceiverRun {
    /// What is reported of the frames that came in.
    pub received: Vec<FrameRecord>,
}

/// The report on a run of the receiver: it succeeded where all frames came in.
pub open spec fn receiver_report(cli: Cli, received: Seq<RecordView>) -> ReportView {
    let ok = received.len() == cli.count;
    ReportView {
        role: "receiver"@,
        ok,
        iface: cli.iface@,
        count: cli.count as nat,
        sent: None,
        received: Some(received),
        error: if ok {
            None
        } else {
            Some(
                "received "@ + text::number_text(received.len(), 10) + " of "@ + text::number_text(
                    cli.count as nat,
                    10,
                ) + " expected frame(s) within "@ + text::number_text(
                    cli.recv_timeout_secs as nat,
                    10,
                ) + "s"@,
            )
        },
    }
}

impl ReceiverRun {
    /// Begins a run.
    pub fn new() -> (r: ReceiverRun)
        ensures
            r.received@.len() == 0,
    {
        ReceiverRun { received: Vec::new() }
    }

    /// Whether the receiver waits for another frame.
    pub fn wants_more(&self, cli: &Cli) -> (r: bool)
        ensures
            r == (self.received@.len() < cli.count),
    {
        self.received.len() < cli.count
    }

    /// Takes note of a frame, or ends the run with its report.
    pub fn on_event(&mut self, cli: &Cli, event: ReceiverEvent) -> (r: Option<Report>)
        ensures
            match event {
                ReceiverEvent::Received(f) => {
                    &&& r is None
                    &&& record_views(final(self).received@) == record_views(
                        old(self).received@,
                    ).push(record_of(f@))
                },
                ReceiverEvent::Ended => {
                    &&& r matches Some(report)
                    &&& report@ == receiver_report(*cli, record_views(old(self).received@))
                    &&& final(self).received@.len() == 0
                },
            },
    {
        match event {
            ReceiverEvent::Received(f) => {
                self.received.push(FrameRecord::from_frame(&f));
                assert(record_views(self.received@) =~= record_views(old(self).received@).push(
                    record_of(f@),
                ));
                None
            },
            ReceiverEvent::Ended => {
                let mut received: Vec<FrameRecord> = Vec::new();
                received.append(&mut self.received);
                assert(record_views(received@) =~= record_views(old(self).received@));
                let n: usize = received.len();
                let ok = n == cli.count;
                let error = if ok {
                    None
                } else {
                    let got = text::number_string(n as u64, 10);
                    let wanted = text::number_string(cli.count as u64, 10);
                    let secs = text::number_string(cli.recv_timeout_secs, 10);
                    let front = text::join5(
                        "received ",
                        got.as_str(),
                        " of ",
                        wanted.as_str(),
                        " expected frame(s) within ",
                    );
                    Some(text::join3(front.as_str(), secs.as_str(), "s"))
                };
                Some(
                    Report {
                        role: "receiver",
                        ok,
                        iface: cli.iface.clone(),
                        count: cli.count,
                        sent: None,
                        received: Some(received),
                        error,
                    },
                )
            },
        }
    }
}

/// The note with which the receiver begins.
pub fn receiver_note(cli: &Cli) -> (r: String)
    ensures
        r@ == "can-interop-peer: receiver on "@ + text::debug_text(cli.iface@) + " waiting for "@
            + text::number_text(cli.count as nat, 10) + " frame(s)"@,
{
    let iface = text::debug_string(cli.iface.as_str());
    let count = text::number_string(cli.count as u64, 10);
    text::join5(
        "can-interop-peer: receiver on ",
        iface.as_str(),
        " waiting for ",
        count.as_str(),
        " frame(s)",
    )
}

/// The note that the time of the receiver is over.
pub fn timeout_note(cli: &Cli, run: &ReceiverRun) -> (r: String)
    ensures
        r@ == "can-interop-peer: recv timeout after "@ + text::number_text(
            run.received@.len(),
            10,
        ) + " frame(s) (wanted "@ + text::number_text(cli.count as nat, 10) + ")"@,
{
    let got = text::number_string(run.received.len() as u64, 10);
    let wanted = text::number_string(cli.count as u64, 10);
    text::join5(
        "can-interop-peer: recv timeout after ",
        got.as_str(),
        " frame(s) (wanted ",
        wanted.as_str(),
        ")",
    )
}

// ---------------------------------------------------------------------------
// Laws
// ---------------------------------------------------------------------------

/// Every frame of a classic run is valid where the identifier fits its format.
pub proof fn classic_runs_are_valid(cli: Cli, i: nat)
    requires
        !cli.fd,
        cli.id <= (if cli.ext { 0x1FFF_FFFFu32 } else { 0x7FFu32 }),
    ensures
        run_frame(cli, i).valid(),
        1 <= run_frame(cli, i).data.len() <= 8,
{
}

/// A receiver that got exactly the frames of a sender's run reports success and the records
/// that the sender reports.
pub proof fn both_ends_agree(sender: Cli, receiver: Cli)
    requires
        sender.count == receiver.count,
    ensures
        ({
            let s = sender_report(sender, sender.count as nat, None);
            let r = receiver_report(receiver, run_records(sender, sender.count as nat));
            s.ok && r.ok && s.sent == r.received && r.error is None
        }),
{
}

/// The payloads of a run: the lengths go up by one from 1 to the largest payload of the
/// format and start again, the bytes of a frame go up in steps of 7, those of one frame to
/// the next in steps of 31, and the seed moves them all, each modulo 256.
pub proof fn payloads_of_a_run(cli: Cli, i: nat, j: int)
    requires
        0 <= j,
    ensures
        ({
            let most = if cli.fd { 64nat } else { 8nat };
            let f = run_frame(cli, i);
            let g = run_frame(cli, i + 1);
            &&& 1 <= f.data.len() <= most
            &&& run_frame(cli, 0).data.len() == 1
            &&& f.data.len() < most ==> g.data.len() == f.data.len() + 1
            &&& f.data.len() == most ==> g.data.len() == 1
            &&& run_frame(cli, 0).data[0] == (cli.seed + 13) % 256
            &&& j + 1 < f.data.len() ==> f.data[j + 1] == (f.data[j] + 7) % 256
            &&& j < f.data.len() && j < g.data.len() ==> g.data[j] == (f.data[j] + 31) % 256
        }),
{
    lemma_run_lengths(i, if cli.fd { 64 } else { 8 });
    lemma_run_lengths(0, if cli.fd { 64 } else { 8 });
    let x = cli.seed + 31 * i + 7 * j + 13;
    lemma_step_modulo(x, 7);
    lemma_step_modulo(x, 31);
    let f = run_frame(cli, i);
    let g = run_frame(cli, i + 1);
    if j < f.data.len() {
        assert(f.data[j] == x % 256);
    }
    if j + 1 < f.data.len() {
        assert(f.data[j + 1] == (x + 7) % 256);
    }
    if j < g.data.len() {
        assert(g.data[j] == (x + 31) % 256);
    }
    assert(run_frame(cli, 0).data[0] == run_byte(cli.seed, 0, 0));
}

proof fn lemma_step_modulo(x: int, step: int)
    ensures
        (x + step) % 256 == (x % 256 + step) % 256,
{
}

proof fn lemma_run_lengths(i: nat, most: nat)
    requires
        most == 64 || most == 8,
    ensures
        0 <= i % most < most,
        i % most + 1 < most ==> (i + 1) % most == i % most + 1,
        i % most + 1 == most ==> (i + 1) % most == 0,
{
}

/// The marks of the frames of a run: the identifier and the format are as asked for. On CAN
/// FD every second frame switches the bit rate and every third has the error state
/// indicator, beginning with the first; a classic run has neither.
pub proof fn marks_of_a_run(cli: Cli, i: nat)
    ensures
        ({
            let f = run_frame(cli, i);
            &&& f.id == cli.id && f.ext == cli.ext && f.fd == cli.fd
            &&& !f.rtr && !f.xl
            &&& !cli.fd ==> !f.brs && !f.esi
            &&& cli.fd ==> run_frame(cli, 0).brs && run_frame(cli, 0).esi
            &&& cli.fd ==> run_frame(cli, i + 1).brs == !f.brs
            &&& cli.fd ==> run_frame(cli, i + 3).esi == f.esi
            &&& cli.fd && f.esi ==> !run_frame(cli, i + 1).esi && !run_frame(cli, i + 2).esi
        }),
{
}

/// A report says of a frame what it is, and its data can be read back from it.
pub proof fn records_keep_the_frame(f: FrameView)
    ensures
        ({
            let r = record_of(f);
            &&& r.id == f.id && r.ext == f.ext && r.rtr == f.rtr
            &&& r.fd == f.fd && r.brs == f.brs && r.esi == f.esi
            &&& r.dlc == f.data.len()
            &&& hexcodec::hex_bytes(r.data_hex) == Some(f.data)
        }),
{
    hexcodec::hex_round_trip(f.data);
}

/// The report of a receiver is a success exactly where as many frames came in as were asked
/// for, and then has no error; it holds every frame that came in. That of a sender is one
/// exactly where nothing went wrong.
pub proof fn reports_tell_success(cli: Cli, received: Seq<RecordView>, error: Option<Seq<char>>)
    ensures
        receiver_report(cli, received).ok <==> received.len() == cli.count,
        receiver_report(cli, received).error is None <==> received.len() == cli.count,
        receiver_report(cli, received).received == Some(received),
        receiver_report(cli, received).sent is None,
        sender_report(cli, cli.count as nat, error).ok <==> error is None,
        sender_report(cli, cli.count as nat, error).error == error,
        sender_report(cli, cli.count as nat, error).sent matches Some(s) && s.len() == cli.count
            && forall|i: int|
            0 <= i < cli.count ==> #[trigger] s[i] == record_of(run_frame(cli, i as nat)),
        !failure(cli.role, cli.iface@, cli.count as nat, Seq::empty()).ok,
        ({
            let r = receiver_report(cli, received);
            &&& r.role == "receiver"@ && r.iface == cli.iface@ && r.count == cli.count
            &&& received.len() != cli.count ==> r.error == Some(
                "received "@ + text::number_text(received.len(), 10) + " of "@ + text::number_text(
                    cli.count as nat,
                    10,
                ) + " expected frame(s) within "@ + text::number_text(
                    cli.recv_timeout_secs as nat,
                    10,
                ) + "s"@,
            )
        }),
        ({
            let s = sender_report(cli, cli.count as nat, error);
            &&& s.role == "sender"@ && s.iface == cli.iface@ && s.count == cli.count
            &&& s.received is None
        }),
{
}

/// The report on a run that failed at its beginning names the role and the error, and says
/// nothing of frames.
pub proof fn reports_of_failures(role: Role, iface: Seq<char>, count: nat, error: Seq<char>)
    ensures
        ({
            let r = failure(role, iface, count, error);
            &&& !r.ok && r.error == Some(error)
            &&& r.iface == iface && r.count == count
            &&& r.sent is None && r.received is None
            &&& role == Role::Sender ==> r.role == "sender"@
            &&& role == Role::Receiver ==> r.role == "receiver"@
        }),
{
}

} // verus!
