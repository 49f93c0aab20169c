//! ISO 15765-2 transport: messages of up to 4095 bytes over 8-byte CAN frames.
//!
//! A short message travels in a single frame. A longer one is cut into a first frame and
//! consecutive frames, and the receiver paces the sender with flow-control frames. Both
//! ends are state machines here: they say which frame goes out and what to wait for, and
//! are told what came of it.
use vstd::prelude::*;
use vstd::slice::slice_subrange;
use vstd::slice::slice_to_vec;

use crate::error::{Error, ErrorView};
use crate::frame;
use crate::frame::{Filter, Frame, FrameView};
use crate::text;
use crate::time::Duration;

verus! {

/// Frame type of a single frame.
pub const TYPE_SF: u8 = 0x00;

/// Frame type of a first frame.
pub const TYPE_FF: u8 = 0x10;

/// Frame type of a consecutive frame.
pub const TYPE_CF: u8 = 0x20;

/// Frame type of a flow-control frame.
pub const TYPE_FC: u8 = 0x30;

/// Flow status: continue to send.
pub const FC_CTS: u8 = 0x00;

/// Flow status: wait for another flow-control frame.
pub const FC_WAIT: u8 = 0x01;

/// Flow status: the message does not fit the receiver.
pub const FC_OVERFLOW: u8 = 0x02;

/// Length of the longest message.
pub const MAX_PAYLOAD: usize = 4095;

// ---------------------------------------------------------------------------
// Configuration
// ---------------------------------------------------------------------------

/// Settings of one end of a connection.
#[derive(Debug, Clone, Copy)]
pub struct Config {
    /// Identifier of outgoing frames.
    pub tx_id: u32,
    /// Identifier of incoming frames.
    pub rx_id: u32,
    /// Use 29-bit identifiers.
    pub ext_ids: bool,
    /// Consecutive frames per block that this end asks for (0: no limit).
    pub block_size: u8,
    /// Separation time that this end asks for: 0 to 127 are milliseconds, 0xF1 to 0xF9
    /// are 100 to 900 microseconds.
    pub st_min: u8,
    /// Longest wait for a frame. Zero stands for 250 ms.
    pub timeout: Duration,
}

impl Default for Config {
    fn default() -> (r: Config)
        ensures
            r.tx_id == 0x7E0,
            r.rx_id == 0x7E8,
            !r.ext_ids,
            r.block_size == 0,
            r.st_min == 0,
            r.timeout.wf(),
            r.timeout@ == 250_000_000,
    {
        Config {
            tx_id: 0x7E0,
            rx_id: 0x7E8,
            ext_ids: false,
            block_size: 0,
            st_min: 0,
            timeout: Duration::from_millis(250),
        }
    }
}

impl Config {
    /// The longest wait for a frame: the configured one, or 250 ms where that is zero.
    pub fn effective_timeout(&self) -> (r: Duration)
        ensures
            self.timeout@ == 0 ==> r.wf() && r@ == 250_000_000,
            self.timeout@ != 0 ==> r == self.timeout,
    {
        if self.timeout.is_zero() {
            Duration::from_millis(250)
        } else {
            self.timeout
        }
    }

    /// The longest wait for a frame, in nanoseconds.
    pub open spec fn patience(self) -> nat {
        if self.timeout@ == 0 { 250_000_000 } else { self.timeout@ }
    }

    /// The longest wait for a frame while the caller has only `remaining` time left: the
    /// shorter of the two. A caller without a deadline waits as long as the settings say.
    pub fn wait_limit(&self, remaining: Option<Duration>) -> (r: Duration)
        requires
            self.timeout.wf(),
            remaining matches Some(d) ==> d.wf(),
        ensures
            r.wf(),
            r@ == (match remaining {
                Some(d) => if d@ < self.patience() { d@ } else { self.patience() },
                None => self.patience(),
            }),
    {
        let longest = self.effective_timeout();
        match remaining {
            Some(d) => if d.secs < longest.secs || (d.secs == longest.secs && d.nanos
                < longest.nanos) {
                d
            } else {
                longest
            },
            None => longest,
        }
    }

    /// The frame that carries `data` to the peer.
    pub open spec fn outgoing(self, data: Seq<u8>) -> FrameView {
        FrameView { ext: self.ext_ids, ..frame::plain_frame(self.tx_id, data) }
    }

    /// The flow-control data that lets the peer go on.
    pub open spec fn clear_to_send(self) -> Seq<u8> {
        seq![0x30u8, self.block_size, self.st_min]
    }

    /// The frame that carries `data` to the peer.
    pub fn make_frame(&self, data: Vec<u8>) -> (r: Frame)
        ensures
            r@ == self.outgoing(data@),
    {
        Frame {
            id: self.tx_id,
            ext: self.ext_ids,
            rtr: false,
            fd: false,
            brs: false,
            esi: false,
            xl: false,
            sdt: 0,
            vcid: 0,
            af: 0,
            sec: false,
            data,
        }
    }

    fn flow_control(&self) -> (r: Frame)
        ensures
            r@ == self.outgoing(self.clear_to_send()),
    {
        let data: Vec<u8> = vec![TYPE_FC + FC_CTS, self.block_size, self.st_min];
        assert(data@ =~= self.clear_to_send());
        self.make_frame(data)
    }
}

/// The separation time, in nanoseconds, that a flow-control byte asks for.
pub open spec fn separation(st_min: u8) -> nat {
    if st_min <= 0x7F {
        st_min as nat * 1_000_000
    } else if 0xF1 <= st_min <= 0xF9 {
        ((st_min - 0xF0) * 100_000) as nat
    } else {
        0
    }
}

/// Decodes a separation time: 0x00 to 0x7F are 0 to 127 ms, 0xF1 to 0xF9 are 100 to
/// 900 us, and any other value is no delay.
pub fn st_min_to_duration(st_min: u8) -> (r: Duration)
    ensures
        r.wf(),
        r@ == separation(st_min),
{
    if st_min <= 0x7F {
        Duration::from_millis(st_min as u64)
    } else if 0xF1 <= st_min && st_min <= 0xF9 {
        Duration::from_micros((st_min - 0xF0) as u64 * 100)
    } else {
        Duration::from_millis(0)
    }
}

// ---------------------------------------------------------------------------
// Segments
// ---------------------------------------------------------------------------

/// Number of frames that carry a message.
pub open spec fn segment_count(payload: Seq<u8>) -> nat {
    if payload.len() <= 7 { 1 } else { 1 + payload.len() / 7 }
}

/// Where the part of a message that consecutive frame `k` carries begins.
pub open spec fn segment_start(k: int) -> int {
    6 + 7 * (k - 1)
}

/// The smaller of two numbers.
pub open spec fn smaller(a: int, b: int) -> int {
    if a <= b { a } else { b }
}

/// The data of the `k`-th frame that carries a message: frame 0 is the single or the
/// first frame, frame `k` the `k`-th consecutive frame.
pub open spec fn segment(payload: Seq<u8>, k: int) -> Seq<u8> {
    let n = payload.len();
    if n <= 7 {
        seq![n as u8] + payload
    } else if k == 0 {
        seq![(0x10 + n / 256) as u8, (n % 256) as u8] + payload.take(6)
    } else {
        seq![(0x20 + k % 16) as u8] + payload.subrange(
            segment_start(k),
            smaller(segment_start(k) + 7, n as int),
        )
    }
}

/// All frames that carry a message, in order.
pub open spec fn segments(payload: Seq<u8>) -> Seq<Seq<u8>> {
    Seq::new(segment_count(payload), |k: int| segment(payload, k))
}

// ---------------------------------------------------------------------------
// Connection
// ---------------------------------------------------------------------------

/// One end of a connection.
#[derive(Debug, Clone, Copy)]
pub struct IsoTpConn {
    pub cfg: Config,
}

impl IsoTpConn {
    /// A connection with the given settings. The two identifiers must differ.
    pub fn new(cfg: Config) -> (r: Result<IsoTpConn, Error>)
        ensures
            match r {
                Ok(conn) => cfg.tx_id != cfg.rx_id && conn.cfg == cfg,
                Err(e) => cfg.tx_id == cfg.rx_id && e@ == ErrorView::Other(
                    "isotp: tx_id and rx_id must differ"@,
                ),
            },
    {
        if cfg.tx_id == cfg.rx_id {
            return Err(Error::other("isotp: tx_id and rx_id must differ"));
        }
        Ok(IsoTpConn { cfg })
    }

    /// Selects the frames that the peer sends.
    pub fn rx_filter(&self) -> (r: Filter)
        ensures
            r.id == self.cfg.rx_id,
            r.mask == (if self.cfg.ext_ids { 0x1FFF_FFFFu32 } else { 0x7FFu32 }),
    {
        Filter { id: self.cfg.rx_id, mask: if self.cfg.ext_ids { 0x1FFF_FFFF } else { 0x7FF } }
    }

    /// Begins to send `payload`: the machine that sends it, and the first frame.
    ///
    /// A payload of up to 7 bytes takes a single frame, a longer one is cut up.
    pub fn send(&self, payload: &[u8]) -> (r: Result<(Sender, Frame), Error>)
        ensures
            match r {
                Ok((s, f)) => {
                    &&& 0 < payload@.len() <= 4095
                    &&& s.wf()
                    &&& s@ == SenderView::start(self.cfg, payload@)
                    &&& f@ == self.cfg.outgoing(segment(payload@, 0))
                },
                Err(e) => {
                    ||| payload@.len() == 0 && e@ == ErrorView::Other("isotp: empty payload"@)
                    ||| payload@.len() > 4095 && e@ == ErrorView::PayloadTooLarge
                },
            },
    {
        if payload.len() == 0 {
            return Err(Error::other("isotp: empty payload"));
        }
        if payload.len() > MAX_PAYLOAD {
            return Err(Error::PayloadTooLarge);
        }
        let n: usize = payload.len();
        let mut data: Vec<u8> = Vec::new();
        let offset: usize;
        if n <= 7 {
            data.push(TYPE_SF | n as u8);
            data.extend_from_slice(payload);
            offset = n;
            assert(0x00u8 | (n as u8) == n as u8) by (bit_vector);
            assert(data@ =~= segment(payload@, 0));
        } else {
            data.push(TYPE_FF | ((n >> 8) & 0x0F) as u8);
            data.push((n & 0xFF) as u8);
            data.extend_from_slice(slice_subrange(payload, 0, 6));
            offset = 6;
            assert(0x10u8 | ((n >> 8) & 0x0F) as u8 == 0x10 + n / 256 && (n & 0xFF) as u8 == n
                % 256) by (bit_vector)
                requires
                    n <= 4095,
            ;
            assert(data@ =~= segment(payload@, 0));
        }
        let s = Sender {
            cfg: self.cfg,
            payload: slice_to_vec(payload),
            offset,
            sent: 0,
            in_block: 0,
            block_size: 0,
            st_min: 0,
            phase: SendPhase::Sending,
            flow_seen: false,
        };
        Ok((s, self.cfg.make_frame(data)))
    }

    /// Begins to receive a message.
    pub fn recv(&self) -> (r: Receiver)
        ensures
            r.wf(),
            r@ == (ReceiverView { cfg: self.cfg, state: Reassembly::Idle }),
    {
        Receiver {
            cfg: self.cfg,
            phase: RecvPhase::Idle,
            len: 0,
            buf: Vec::new(),
            sn: 1,
            in_block: 0,
        }
    }
}

// ---------------------------------------------------------------------------
// Sender
// ---------------------------------------------------------------------------

/// What a sender waits for.
#[derive(Debug, Clone, Copy, PartialEq, Eq, Structural)]
pub enum SendPhase {
    /// A frame is on its way out.
    Sending,
    /// The peer owes a flow-control frame.
    Awaiting,
    /// The transfer is over.
    Finished,
}

/// What happens while a sender waits for flow control.
#[derive(Debug)]
pub enum Event {
    /// A frame of the peer came in.
    Received(Frame),
    /// The wait took too long.
    TimedOut,
    /// The bus closed.
    Closed,
}

/// The mathematical value of an [`Event`].
pub enum EventView {
    Received(FrameView),
    TimedOut,
    Closed,
}

impl View for Event {
    type V = EventView;

    open spec fn view(&self) -> EventView {
        match self {
            Event::Received(f) => EventView::Received(f@),
            Event::TimedOut => EventView::TimedOut,
            Event::Closed => EventView::Closed,
        }
    }
}

/// What a sender wants done next.
#[derive(Debug)]
pub enum SendAction {
    /// Send the frame, wait for the given time, and report that it is sent.
    Send(Frame, Duration),
    /// Wait for a frame of the peer and report it.
    Await,
    /// The whole message is sent.
    Done,
    /// The transfer failed.
    Failed(Error),
}

/// The mathematical value of a [`SendAction`]; the delay is in nanoseconds.
pub enum SendActionView {
    Send(FrameView, nat),
    Await,
    Done,
    Failed(ErrorView),
}

impl View for SendAction {
    type V = SendActionView;

    open spec fn view(&self) -> SendActionView {
        match self {
            SendAction::Send(f, d) => SendActionView::Send(f@, d@),
            SendAction::Await => SendActionView::Await,
            SendAction::Done => SendActionView::Done,
            SendAction::Failed(e) => SendActionView::Failed(e@),
        }
    }
}

/// Sends one message.
#[derive(Debug)]
pub struct Sender {
    cfg: Config,
    payload: Vec<u8>,
    offset: usize,
    sent: u32,
    in_block: u32,
    block_size: u8,
    st_min: u8,
    phase: SendPhase,
    flow_seen: bool,
}

/// The mathematical value of a [`Sender`].
#[verifier::ext_equal]
pub struct SenderView {
    pub cfg: Config,
    pub payload: Seq<u8>,
    /// Consecutive frames that were handed out.
    pub sent: nat,
    /// Those of them that belong to the current block.
    pub in_block: nat,
    /// Block size and separation time of the latest flow control.
    pub block_size: u8,
    pub st_min: u8,
    pub phase: SendPhase,
    /// Whether the peer has let the sender go on at all.
    pub flow_seen: bool,
}

impl View for Sender {
    type V = SenderView;

    closed spec fn view(&self) -> SenderView {
        SenderView {
            cfg: self.cfg,
            payload: self.payload@,
            sent: self.sent as nat,
            in_block: self.in_block as nat,
            block_size: self.block_size,
            st_min: self.st_min,
            phase: self.phase,
            flow_seen: self.flow_seen,
        }
    }
}

impl SenderView {
    /// A sender whose first frame is on its way out.
    pub open spec fn start(cfg: Config, payload: Seq<u8>) -> SenderView {
        SenderView {
            cfg,
            payload,
            sent: 0,
            in_block: 0,
            block_size: 0,
            st_min: 0,
            phase: SendPhase::Sending,
            flow_seen: false,
        }
    }

    /// Whether every frame of the message was handed out.
    pub open spec fn exhausted(self) -> bool {
        self.sent + 1 >= segment_count(self.payload)
    }

    /// The sender with its next consecutive frame on its way out, and the action for it.
    pub open spec fn emit(self) -> (SenderView, SendActionView) {
        (
            SenderView {
                sent: self.sent + 1,
                in_block: self.in_block + 1,
                phase: SendPhase::Sending,
                ..self
            },
            SendActionView::Send(
                self.cfg.outgoing(segment(self.payload, self.sent as int + 1)),
                separation(self.st_min),
            ),
        )
    }

    /// What follows when the frame on its way out is sent. After the last frame the
    /// transfer is done. After the first frame, and at the end of a block, the peer owes
    /// flow control. Else the next frame goes out.
    pub open spec fn on_sent(self) -> (SenderView, SendActionView) {
        if self.exhausted() {
            (SenderView { phase: SendPhase::Finished, ..self }, SendActionView::Done)
        } else if !self.flow_seen || (self.block_size > 0 && self.in_block >= self.block_size) {
            (SenderView { phase: SendPhase::Awaiting, ..self }, SendActionView::Await)
        } else {
            self.emit()
        }
    }

    /// What follows when something happens while the peer owes flow control. A malformed
    /// frame and an overflow end the transfer. A wait status keeps the sender waiting.
    /// Any other status begins a block with the pacing that this frame asks for.
    pub open spec fn on_event(self, event: EventView) -> (SenderView, SendActionView) {
        let failed = SenderView { phase: SendPhase::Finished, ..self };
        match event {
            EventView::TimedOut => (failed, SendActionView::Failed(ErrorView::Timeout)),
            EventView::Closed => (failed, SendActionView::Failed(ErrorView::Closed)),
            EventView::Received(f) => {
                if f.data.len() < 3 || f.data[0] / 16 != 3 {
                    (
                        failed,
                        SendActionView::Failed(
                            ErrorView::Other(
                                "isotp: malformed or truncated flow control frame"@,
                            ),
                        ),
                    )
                } else if f.data[0] % 16 == 2 {
                    (
                        failed,
                        SendActionView::Failed(ErrorView::Other("isotp: receiver overflow"@)),
                    )
                } else if f.data[0] % 16 == 1 {
                    (
                        SenderView { in_block: 0, phase: SendPhase::Awaiting, ..self },
                        SendActionView::Await,
                    )
                } else {
                    SenderView {
                        in_block: 0,
                        block_size: f.data[1],
                        st_min: f.data[2],
                        flow_seen: true,
                        ..self
                    }.emit()
                }
            },
        }
    }
}

proof fn lemma_segment_counts(n: nat, sent: nat)
    requires
        n > 7,
    ensures
        segment_start(sent as int + 1) < n <==> sent + 1 < 1 + n / 7,
{
}

impl Sender {
    /// The offset follows from the number of frames that were handed out.
    pub closed spec fn wf(&self) -> bool {
        &&& 0 < self.payload@.len() <= 4095
        &&& self.payload@.len() <= 7 ==> self.offset == self.payload@.len() && self.sent == 0
        &&& self.payload@.len() > 7 ==> self.offset == smaller(
            segment_start(self.sent + 1),
            self.payload@.len() as int,
        )
        &&& self.sent < segment_count(self.payload@)
        &&& self.in_block <= self.sent
        &&& self.phase == SendPhase::Awaiting ==> !self@.exhausted()
    }

    fn emit(&mut self) -> (r: SendAction)
        requires
            old(self).payload@.len() <= 4095,
            old(self).payload@.len() > 7,
            old(self).offset == segment_start(old(self).sent + 1),
            old(self).offset < old(self).payload@.len(),
            old(self).sent + 1 < segment_count(old(self).payload@),
            old(self).in_block <= old(self).sent,
        ensures
            final(self).wf(),
            (final(self)@, r@) == old(self)@.emit(),
    {
        let n: usize = self.payload.len();
        let end: usize = if n - self.offset < 7 { n } else { self.offset + 7 };
        self.sent = self.sent + 1;
        let k: u32 = self.sent;
        let mut data: Vec<u8> = Vec::new();
        data.push(TYPE_CF | (k % 16) as u8);
        data.extend_from_slice(slice_subrange(&self.payload, self.offset, end));
        proof {
            let x = (k % 16) as u8;
            assert(0x20u8 | x == 0x20 + x) by (bit_vector)
                requires
                    x < 16,
            ;
            assert(data@ =~= segment(self.payload@, k as int));
        }
        self.offset = end;
        self.in_block = self.in_block + 1;
        self.phase = SendPhase::Sending;
        SendAction::Send(self.cfg.make_frame(data), st_min_to_duration(self.st_min))
    }

    /// Reports that the frame that was on its way out is sent, and its delay has passed.
    pub fn on_sent(&mut self) -> (r: SendAction)
        requires
            old(self).wf(),
            old(self)@.phase == SendPhase::Sending,
        ensures
            final(self).wf(),
            (final(self)@, r@) == old(self)@.on_sent(),
    {
        proof {
            if self.payload@.len() > 7 {
                lemma_segment_counts(self.payload@.len(), self.sent as nat);
            }
        }
        if self.offset >= self.payload.len() {
            self.phase = SendPhase::Finished;
            return SendAction::Done;
        }
        if !self.flow_seen || (self.block_size > 0 && self.in_block >= self.block_size as u32) {
            self.phase = SendPhase::Awaiting;
            return SendAction::Await;
        }
        self.emit()
    }

    /// Reports what happened while the sender waited for flow control.
    pub fn on_event(&mut self, event: Event) -> (r: SendAction)
        requires
            old(self).wf(),
            old(self)@.phase == SendPhase::Awaiting,
        ensures
            final(self).wf(),
            (final(self)@, r@) == old(self)@.on_event(event@),
    {
        match event {
            Event::TimedOut => {
                self.phase = SendPhase::Finished;
                SendAction::Failed(Error::Timeout)
            },
            Event::Closed => {
                self.phase = SendPhase::Finished;
                SendAction::Failed(Error::Closed)
            },
            Event::Received(f) => {
                let len: usize = f.data.len();
                if len < 3 || f.data[0] / 16 != 3 {
                    self.phase = SendPhase::Finished;
                    return SendAction::Failed(
                        Error::other("isotp: malformed or truncated flow control frame"),
                    );
                }
                let status: u8 = f.data[0] % 16;
                if status == FC_OVERFLOW {
                    self.phase = SendPhase::Finished;
                    return SendAction::Failed(Error::other("isotp: receiver overflow"));
                }
                self.in_block = 0;
                if status == FC_WAIT {
                    return SendAction::Await;
                }
                self.block_size = f.data[1];
                self.st_min = f.data[2];
                self.flow_seen = true;
                proof {
                    if self.payload@.len() > 7 {
                        lemma_segment_counts(self.payload@.len(), self.sent as nat);
                    }
                }
                self.emit()
            },
        }
    }
}

// ---------------------------------------------------------------------------
// Receiver
// ---------------------------------------------------------------------------

/// What a receiver wants done next.
#[derive(Debug)]
pub enum RecvNext {
    /// Wait for a frame of the peer and report it.
    Await,
    /// The message is complete.
    Done(Vec<u8>),
    /// The transfer failed.
    Failed(Error),
}

/// What a receiver does with an event: first it may send a frame, then it goes on.
#[derive(Debug)]
pub struct RecvAction {
    pub reply: Option<Frame>,
    pub next: RecvNext,
}

/// The mathematical value of a [`RecvNext`].
pub enum RecvNextView {
    Await,
    Done(Seq<u8>),
    Failed(ErrorView),
}

/// The mathematical value of a [`RecvAction`].
pub struct RecvActionView {
    pub reply: Option<FrameView>,
    pub next: RecvNextView,
}

impl View for RecvNext {
    type V = RecvNextView;

    open spec fn view(&self) -> RecvNextView {
        match self {
            RecvNext::Await => RecvNextView::Await,
            RecvNext::Done(data) => RecvNextView::Done(data@),
            RecvNext::Failed(e) => RecvNextView::Failed(e@),
        }
    }
}

impl View for RecvAction {
    type V = RecvActionView;

    open spec fn view(&self) -> RecvActionView {
        RecvActionView {
            reply: match self.reply {
                Some(f) => Some(f@),
                None => None,
            },
            next: self.next@,
        }
    }
}

/// How far the reassembly of a message has come.
pub enum Reassembly {
    /// No frame of the message was received.
    Idle,
    /// The first frame announced `len` bytes, `buf` are those received so far, `sn` is the
    /// next sequence number, and `in_block` consecutive frames came since the last flow
    /// control (not counted where blocks have no limit).
    Collecting { len: nat, buf: Seq<u8>, sn: nat, in_block: nat },
    /// The transfer is over.
    Over,
}

/// Where a receiver stands.
#[derive(Debug, Clone, Copy, PartialEq, Eq, Structural)]
pub enum RecvPhase {
    Idle,
    Collecting,
    Over,
}

/// Receives one message.
#[derive(Debug)]
pub struct Receiver {
    cfg: Config,
    phase: RecvPhase,
    len: usize,
    buf: Vec<u8>,
    sn: u8,
    in_block: u8,
}

/// The mathematical value of a [`Receiver`].
pub struct ReceiverView {
    pub cfg: Config,
    pub state: Reassembly,
}

impl View for Receiver {
    type V = ReceiverView;

    closed spec fn view(&self) -> ReceiverView {
        ReceiverView {
            cfg: self.cfg,
            state: match self.phase {
                RecvPhase::Idle => Reassembly::Idle,
                RecvPhase::Collecting => Reassembly::Collecting {
                    len: self.len as nat,
                    buf: self.buf@,
                    sn: (self.sn % 16) as nat,
                    in_block: self.in_block as nat,
                },
                RecvPhase::Over => Reassembly::Over,
            },
        }
    }
}

/// A failure in words.
pub open spec fn protocol_error(s: Seq<char>) -> RecvActionView {
    RecvActionView { reply: None, next: RecvNextView::Failed(ErrorView::Other(s)) }
}

impl ReceiverView {
    /// The receiver in another state.
    pub open spec fn with(self, state: Reassembly) -> ReceiverView {
        ReceiverView { cfg: self.cfg, state }
    }

    /// The receiver, and what it does, when `reply` goes out and `buf` was received of a
    /// message of `len` bytes: the message is done, or more frames must come.
    pub open spec fn collected(
        self,
        reply: Option<FrameView>,
        len: nat,
        buf: Seq<u8>,
        sn: nat,
        in_block: nat,
    ) -> (ReceiverView, RecvActionView) {
        if buf.len() >= len {
            (
                self.with(Reassembly::Over),
                RecvActionView { reply, next: RecvNextView::Done(buf) },
            )
        } else {
            (
                self.with(Reassembly::Collecting { len, buf, sn, in_block }),
                RecvActionView { reply, next: RecvNextView::Await },
            )
        }
    }

    /// What a receiver does with the first frame of a message. A single frame is the whole
    /// message. A first frame is answered with flow control.
    pub open spec fn on_first(self, d: Seq<u8>) -> (ReceiverView, RecvActionView) {
        let over = self.with(Reassembly::Over);
        if d.len() == 0 {
            (over, protocol_error("isotp: empty first frame"@))
        } else if d[0] / 16 == 0 {
            let len = (d[0] % 16) as int;
            if len == 0 || len > 7 || len > d.len() - 1 {
                (over, protocol_error("isotp: invalid SF length"@))
            } else {
                (
                    over,
                    RecvActionView {
                        reply: None,
                        next: RecvNextView::Done(d.subrange(1, 1 + len)),
                    },
                )
            }
        } else if d[0] / 16 == 1 {
            if d.len() < 2 {
                (over, protocol_error("isotp: FF too short"@))
            } else {
                let len = ((d[0] % 16) * 256 + d[1]) as nat;
                self.collected(
                    Some(self.cfg.outgoing(self.cfg.clear_to_send())),
                    len,
                    d.skip(2),
                    1,
                    0,
                )
            }
        } else {
            (
                over,
                protocol_error(
                    "isotp: unexpected frame type 0x"@ + text::padded_text(
                        (d[0] / 16 * 16) as nat,
                        16,
                        2,
                    ),
                ),
            )
        }
    }

    /// What a receiver does with a consecutive frame. Bytes beyond the announced length
    /// are padding. Where blocks have a limit, the end of each block but the last is
    /// answered with fresh flow control.
    pub open spec fn on_consecutive(
        self,
        d: Seq<u8>,
        len: nat,
        buf: Seq<u8>,
        sn: nat,
        in_block: nat,
    ) -> (ReceiverView, RecvActionView) {
        let over = self.with(Reassembly::Over);
        if d.len() == 0 {
            (over, protocol_error("isotp: empty CF"@))
        } else if d[0] / 16 != 2 {
            (over, protocol_error("isotp: expected CF"@))
        } else if d[0] % 16 != sn {
            (
                over,
                protocol_error(
                    "isotp: SN mismatch (expected "@ + text::number_text(sn, 10) + ", got "@
                        + text::number_text((d[0] % 16) as nat, 10) + ")"@,
                ),
            )
        } else {
            let all = buf + d.skip(1).take(smaller(d.len() - 1, len - buf.len()));
            let boundary = self.cfg.block_size != 0 && in_block + 1 == self.cfg.block_size
                && all.len() < len;
            self.collected(
                if boundary { Some(self.cfg.outgoing(self.cfg.clear_to_send())) } else { None },
                len,
                all,
                (sn + 1) % 16,
                if self.cfg.block_size == 0 || boundary { 0 } else { in_block + 1 },
            )
        }
    }

    /// What a receiver does with an event.
    pub open spec fn on_event(self, event: EventView) -> (ReceiverView, RecvActionView) {
        match event {
            EventView::TimedOut => (
                self.with(Reassembly::Over),
                RecvActionView { reply: None, next: RecvNextView::Failed(ErrorView::Timeout) },
            ),
            EventView::Closed => (
                self.with(Reassembly::Over),
                RecvActionView { reply: None, next: RecvNextView::Failed(ErrorView::Closed) },
            ),
            EventView::Received(f) => match self.state {
                Reassembly::Collecting { len, buf, sn, in_block } => self.on_consecutive(
                    f.data,
                    len,
                    buf,
                    sn,
                    in_block,
                ),
                _ => self.on_first(f.data),
            },
        }
    }
}

impl Receiver {
    /// A receiver that collects still lacks bytes, and is inside a block.
    pub closed spec fn wf(&self) -> bool {
        self.phase == RecvPhase::Collecting ==> {
            &&& self.buf@.len() < self.len
            &&& if self.cfg.block_size == 0 {
                self.in_block == 0
            } else {
                self.in_block < self.cfg.block_size
            }
        }
    }

    fn fail(&mut self, e: Error) -> (r: RecvAction)
        ensures
            final(self).wf(),
            final(self)@ == old(self)@.with(Reassembly::Over),
            r@ == (RecvActionView { reply: None, next: RecvNextView::Failed(e@) }),
    {
        self.phase = RecvPhase::Over;
        RecvAction { reply: None, next: RecvNext::Failed(e) }
    }

    fn finish(&mut self, reply: Option<Frame>, data: Vec<u8>) -> (r: RecvAction)
        ensures
            final(self).wf(),
            final(self)@ == old(self)@.with(Reassembly::Over),
            r@ == (RecvActionView {
                reply: match reply {
                    Some(f) => Some(f@),
                    None => None,
                },
                next: RecvNextView::Done(data@),
            }),
    {
        self.phase = RecvPhase::Over;
        RecvAction { reply, next: RecvNext::Done(data) }
    }

    fn on_first(&mut self, d: &Vec<u8>) -> (r: RecvAction)
        ensures
            final(self).wf(),
            (final(self)@, r@) == old(self)@.on_first(d@),
    {
        if d.len() == 0 {
            return self.fail(Error::other("isotp: empty first frame"));
        }
        let pci: u8 = d[0] / 16;
        if pci == 0 {
            let len: usize = (d[0] % 16) as usize;
            if len == 0 || len > 7 || len > d.len() - 1 {
                return self.fail(Error::other("isotp: invalid SF length"));
            }
            return self.finish(None, slice_to_vec(slice_subrange(d, 1, 1 + len)));
        }
        if pci == 1 {
            if d.len() < 2 {
                return self.fail(Error::other("isotp: FF too short"));
            }
            let len: usize = (d[0] % 16) as usize * 256 + d[1] as usize;
            let buf: Vec<u8> = slice_to_vec(slice_subrange(d, 2, d.len()));
            assert(buf@ =~= d@.skip(2));
            let reply = self.cfg.flow_control();
            if buf.len() >= len {
                return self.finish(Some(reply), buf);
            }
            self.phase = RecvPhase::Collecting;
            self.len = len;
            self.buf = buf;
            self.sn = 1;
            self.in_block = 0;
            return RecvAction { reply: Some(reply), next: RecvNext::Await };
        }
        let kind = text::padded_string((pci * 16) as u64, 16, 2);
        self.fail(Error::Other(text::join2("isotp: unexpected frame type 0x", kind.as_str())))
    }

    fn on_consecutive(&mut self, d: &Vec<u8>) -> (r: RecvAction)
        requires
            old(self).wf(),
            old(self).phase == RecvPhase::Collecting,
        ensures
            final(self).wf(),
            (final(self)@, r@) == old(self)@.on_event(
                EventView::Received(frame::plain_frame(0, d@)),
            ),
    {
        if d.len() == 0 {
            return self.fail(Error::other("isotp: empty CF"));
        }
        if d[0] / 16 != 2 {
            return self.fail(Error::other("isotp: expected CF"));
        }
        let got: u8 = d[0] % 16;
        let expected: u8 = self.sn % 16;
        if got != expected {
            let a = text::number_string(expected as u64, 10);
            let b = text::number_string(got as u64, 10);
            return self.fail(
                Error::Other(
                    text::join5(
                        "isotp: SN mismatch (expected ",
                        a.as_str(),
                        ", got ",
                        b.as_str(),
                        ")",
                    ),
                ),
            );
        }
        self.sn = self.sn.wrapping_add(1);
        assert(self.sn % 16 == (expected + 1) % 16);
        let missing: usize = self.len - self.buf.len();
        let take: usize = if d.len() - 1 < missing { d.len() - 1 } else { missing };
        let chunk = slice_subrange(d, 1, 1 + take);
        assert(chunk@ =~= d@.skip(1).take(smaller(d@.len() - 1, missing as int)));
        self.buf.extend_from_slice(chunk);
        assert(self.buf@ =~= old(self).buf@ + chunk@);
        let complete = self.buf.len() >= self.len;
        if complete {
            let mut buf: Vec<u8> = Vec::new();
            buf.append(&mut self.buf);
            assert(buf@ =~= old(self).buf@ + chunk@);
            return self.finish(None, buf);
        }
        let boundary = self.cfg.block_size != 0 && self.in_block + 1 == self.cfg.block_size;
        if self.cfg.block_size == 0 || boundary {
            self.in_block = 0;
        } else {
            self.in_block = self.in_block + 1;
        }
        let reply = if boundary { Some(self.cfg.flow_control()) } else { None };
        RecvAction { reply, next: RecvNext::Await }
    }

    /// Reports what happened while the receiver waited for a frame.
    pub fn on_event(&mut self, event: Event) -> (r: RecvAction)
        requires
            old(self).wf(),
            !(old(self)@.state is Over),
        ensures
            final(self).wf(),
            (final(self)@, r@) == old(self)@.on_event(event@),
    {
        match event {
            Event::TimedOut => self.fail(Error::Timeout),
            Event::Closed => self.fail(Error::Closed),
            Event::Received(f) => match self.phase {
                RecvPhase::Collecting => self.on_consecutive(&f.data),
                _ => self.on_first(&f.data),
            },
        }
    }
}

// ---------------------------------------------------------------------------
// Laws
// ---------------------------------------------------------------------------

/// What comes out at the receiver when the frame `f` of the sender `s` reaches it, and
/// all that follows, over a bus that loses nothing. `None` where the two get stuck, one
/// of them fails, or more than `fuel` frames would be needed.
pub open spec fn transfer(s: SenderView, f: FrameView, r: ReceiverView, fuel: nat) -> Option<
    Seq<u8>,
>
    decreases fuel,
{
    let (r1, heard) = r.on_event(EventView::Received(f));
    let (s1, wants) = s.on_sent();
    match (wants, heard.reply, heard.next) {
        (SendActionView::Done, None, RecvNextView::Done(data)) => Some(data),
        (SendActionView::Send(f1, _), None, RecvNextView::Await) => if fuel == 0 {
            None
        } else {
            transfer(s1, f1, r1, (fuel - 1) as nat)
        },
        (SendActionView::Await, Some(reply), RecvNextView::Await) => {
            let (s2, wants2) = s1.on_event(EventView::Received(reply));
            match wants2 {
                SendActionView::Send(f1, _) => if fuel == 0 {
                    None
                } else {
                    transfer(s2, f1, r1, (fuel - 1) as nat)
                },
                _ => None,
            }
        },
        _ => None,
    }
}

/// The states of both ends while consecutive frame `k` is on its way.
spec fn in_step(s: SenderView, r: ReceiverView, k: nat) -> bool {
    let p = s.payload;
    &&& 7 < p.len() <= 4095
    &&& 0 < k < segment_count(p)
    &&& s.sent == k
    &&& s.flow_seen
    &&& s.block_size == r.cfg.block_size
    &&& r.state matches Reassembly::Collecting { len, buf, sn, in_block }
    &&& len == p.len()
    &&& buf == p.take(segment_start(k as int))
    &&& sn == k % 16
    &&& s.block_size == 0 ==> in_block == 0
    &&& s.block_size > 0 ==> in_block < s.block_size && s.in_block == in_block + 1
}

proof fn lemma_transfer_from(s: SenderView, r: ReceiverView, k: nat)
    requires
        in_step(s, r, k),
    ensures
        transfer(
            s,
            s.cfg.outgoing(segment(s.payload, k as int)),
            r,
            (segment_count(s.payload) - 1 - k) as nat,
        ) == Some(s.payload),
    decreases segment_count(s.payload) - k,
{
    let p = s.payload;
    let n = p.len();
    let d = segment(p, k as int);
    let from = segment_start(k as int);
    let to = smaller(from + 7, n as int);
    lemma_segment_counts(n, (k - 1) as nat);
    lemma_segment_counts(n, k);
    assert(from < n);
    assert(d[0] == 0x20 + k % 16);
    assert(d[0] / 16 == 2 && d[0] % 16 == k % 16);
    let buf = p.take(from);
    let all = buf + d.skip(1).take(smaller(d.len() - 1, n - buf.len()));
    assert(all =~= p.take(to));
    let fuel = (segment_count(p) - 1 - k) as nat;
    let f = s.cfg.outgoing(d);
    let (r1, heard) = r.on_event(EventView::Received(f));
    let (s1, wants) = s.on_sent();
    if k + 1 == segment_count(p) {
        assert(to == n);
        assert(all =~= p);
    } else {
        assert(to == segment_start(k as int + 1));
        assert(all.len() < n);
        if wants is Await {
            let reply = heard.reply->0;
            assert(reply.data == r.cfg.clear_to_send());
            let (s2, wants2) = s1.on_event(EventView::Received(reply));
            assert(in_step(s2, r1, k + 1));
            lemma_transfer_from(s2, r1, k + 1);
        } else {
            assert(in_step(s1, r1, k + 1));
            lemma_transfer_from(s1, r1, k + 1);
        }
    }
}

/// A message arrives as it was sent: for every payload of 1 to 4095 bytes and any two
/// configurations, whatever block size and separation time the receiver asks for.
pub proof fn what_is_sent_is_received(sender: Config, receiver: Config, payload: Seq<u8>)
    requires
        0 < payload.len() <= 4095,
    ensures
        transfer(
            SenderView::start(sender, payload),
            sender.outgoing(segment(payload, 0)),
            ReceiverView { cfg: receiver, state: Reassembly::Idle },
            (segment_count(payload) - 1) as nat,
        ) == Some(payload),
{
    let s = SenderView::start(sender, payload);
    let r = ReceiverView { cfg: receiver, state: Reassembly::Idle };
    let n = payload.len();
    let d = segment(payload, 0);
    let f = sender.outgoing(d);
    let (r1, heard) = r.on_event(EventView::Received(f));
    let (s1, wants) = s.on_sent();
    if n <= 7 {
        assert(d[0] == n);
        assert(d[0] / 16 == 0 && d[0] % 16 == n);
        assert(d.subrange(1, 1 + n as int) =~= payload);
    } else {
        lemma_segment_counts(n, 0);
        assert(d[0] == 0x10 + n / 256);
        assert(d[0] / 16 == 1 && d[0] % 16 == n / 256);
        assert(d[1] == n % 256);
        assert(d.skip(2) =~= payload.take(6));
        let reply = heard.reply->0;
        let (s2, wants2) = s1.on_event(EventView::Received(reply));
        assert(reply.data == receiver.clear_to_send());
        assert(in_step(s2, r1, 1));
        lemma_transfer_from(s2, r1, 1);
    }
}

/// Every frame that a sender hands out, and every flow control of a receiver, is a valid
/// frame where the identifier is in range.
pub proof fn segments_are_valid_frames(cfg: Config, payload: Seq<u8>, k: int)
    requires
        0 < payload.len() <= 4095,
        0 <= k < segment_count(payload),
        cfg.tx_id <= (if cfg.ext_ids { frame::CAN_MAX_EXT_ID } else { frame::CAN_MAX_STD_ID }),
    ensures
        cfg.outgoing(segments(payload)[k]).valid(),
        cfg.outgoing(cfg.clear_to_send()).valid(),
{
}

/// A receiver after frames came in, one after the other.
pub open spec fn after_frames(r: ReceiverView, frames: Seq<FrameView>) -> ReceiverView
    decreases frames.len(),
{
    if frames.len() == 0 {
        r
    } else {
        after_frames(r, frames.drop_last()).on_event(EventView::Received(frames.last())).0
    }
}

/// What a receiver does with the last of some frames.
pub open spec fn answer_to_last(r: ReceiverView, frames: Seq<FrameView>) -> RecvActionView {
    after_frames(r, frames.drop_last()).on_event(EventView::Received(frames.last())).1
}

/// The bytes behind the two header bytes of a first frame and the one header byte of each
/// frame that follows it, in order.
pub open spec fn bytes_carried(frames: Seq<FrameView>) -> Seq<u8>
    decreases frames.len(),
{
    if frames.len() == 0 {
        Seq::empty()
    } else if frames.len() == 1 {
        frames[0].data.skip(2)
    } else {
        bytes_carried(frames.drop_last()) + frames.last().data.skip(1)
    }
}

/// Whether frames are a first frame that announces `n` bytes, and consecutive frames that
/// are numbered 1, 2 and so on, 0 following on 15.
pub open spec fn in_sequence(frames: Seq<FrameView>, n: nat) -> bool {
    &&& frames.len() >= 1
    &&& frames[0].data.len() >= 2
    &&& frames[0].data[0] as int == 0x10 + n / 256
    &&& frames[0].data[1] as int == n % 256
    &&& forall|k: int|
        1 <= k < frames.len() ==> (#[trigger] frames[k]).data.len() >= 1
            && frames[k].data[0] as int == 0x20 + k % 16
}

/// While the announced bytes are not all there, a receiver holds those that came so far.
proof fn lemma_collecting(cfg: Config, frames: Seq<FrameView>, n: nat)
    requires
        n <= 4095,
        in_sequence(frames, n),
        bytes_carried(frames).len() < n,
    ensures
        after_frames(ReceiverView { cfg, state: Reassembly::Idle }, frames) == (ReceiverView {
            cfg,
            state: Reassembly::Collecting {
                len: n,
                buf: bytes_carried(frames),
                sn: (frames.len() % 16) as nat,
                in_block: if cfg.block_size == 0 {
                    0
                } else {
                    ((frames.len() - 1) % cfg.block_size as int) as nat
                },
            },
        }),
    decreases frames.len(),
{
    let idle = ReceiverView { cfg, state: Reassembly::Idle };
    let front = frames.drop_last();
    let d = frames.last().data;
    if frames.len() == 1 {
        assert(after_frames(idle, front) == idle);
        assert(d == frames[0].data);
        assert(d[0] / 16 == 1 && d[0] % 16 == n / 256);
        assert((d[0] % 16) * 256 + d[1] == n);
        if cfg.block_size != 0 {
            vstd::arithmetic::div_mod::lemma_small_mod(0, cfg.block_size as nat);
        }
    } else {
        let k = frames.len() - 1;
        assert forall|j: int| 1 <= j < front.len() implies (#[trigger] front[j]).data.len() >= 1
            && front[j].data[0] as int == 0x20 + j % 16 by {
            assert(front[j] == frames[j]);
        }
        assert(front[0] == frames[0]);
        assert(bytes_carried(frames) == bytes_carried(front) + d.skip(1));
        lemma_collecting(cfg, front, n);
        assert(frames[k].data == d);
        assert(d[0] / 16 == 2 && d[0] % 16 == k % 16);
        let buf = bytes_carried(front);
        assert(d.skip(1).take(smaller(d.len() - 1, n - buf.len())) =~= d.skip(1));
        assert((k % 16 + 1) % 16 == (k + 1) % 16);
        if cfg.block_size != 0 {
            let b = cfg.block_size as int;
            lemma_next_in_block(k - 1, b);
        }
    }
}

/// Counting on by one inside blocks of `b`.
proof fn lemma_next_in_block(k: int, b: int)
    requires
        0 <= k,
        0 < b,
    ensures
        0 <= k % b < b,
        k % b + 1 == b ==> (k + 1) % b == 0,
        k % b + 1 < b ==> (k + 1) % b == k % b + 1,
{
    vstd::arithmetic::div_mod::lemma_mod_bound(k, b);
    vstd::arithmetic::div_mod::lemma_fundamental_div_mod(k, b);
    let q = k / b;
    let r = k % b;
    if r + 1 == b {
        assert(k + 1 == b * (q + 1)) by (nonlinear_arith)
            requires
                k == b * q + r,
                r + 1 == b,
        ;
        vstd::arithmetic::div_mod::lemma_mod_multiples_basic(q + 1, b);
        assert(b * (q + 1) == (q + 1) * b) by (nonlinear_arith);
    } else {
        vstd::arithmetic::div_mod::lemma_mod_multiples_vanish(q, r + 1, b);
        vstd::arithmetic::div_mod::lemma_small_mod((r + 1) as nat, b as nat);
        assert(k + 1 == b * q + (r + 1));
    }
}

/// A receiver hands out exactly as many bytes as the first frame announced: the first of
/// those that the frames carried. It waits as long as fewer came, and is done with the
/// frame that brings the last of them, whatever stands behind it there.
pub proof fn message_has_the_announced_length(cfg: Config, frames: Seq<FrameView>, n: nat)
    requires
        n <= 4095,
        in_sequence(frames, n),
        frames[0].data.len() < n + 2,
        bytes_carried(frames.drop_last()).len() < n,
    ensures
        ({
            let all = bytes_carried(frames);
            let next = answer_to_last(ReceiverView { cfg, state: Reassembly::Idle }, frames).next;
            &&& all.len() < n ==> next == RecvNextView::Await
            &&& all.len() >= n ==> next == RecvNextView::Done(all.take(n as int))
        }),
{
    let idle = ReceiverView { cfg, state: Reassembly::Idle };
    let front = frames.drop_last();
    let d = frames.last().data;
    if frames.len() == 1 {
        assert(after_frames(idle, front) == idle);
        assert(d[0] / 16 == 1 && d[0] % 16 == n / 256);
        assert((d[0] % 16) * 256 + d[1] == n);
    } else {
        let k = frames.len() - 1;
        assert forall|j: int| 1 <= j < front.len() implies (#[trigger] front[j]).data.len() >= 1
            && front[j].data[0] as int == 0x20 + j % 16 by {
            assert(front[j] == frames[j]);
        }
        assert(front[0] == frames[0]);
        lemma_collecting(cfg, front, n);
        let buf = bytes_carried(front);
        let all = bytes_carried(frames);
        assert(all == buf + d.skip(1));
        assert(frames[k].data == d);
        assert(d[0] / 16 == 2 && d[0] % 16 == k % 16);
        if all.len() >= n {
            assert(buf + d.skip(1).take(smaller(d.len() - 1, n - buf.len())) =~= all.take(
                n as int,
            ));
        } else {
            assert(buf + d.skip(1).take(smaller(d.len() - 1, n - buf.len())) =~= all);
        }
    }
}

/// A message of more than six bytes is received as it is, whatever the sender puts behind
/// it into the last frame, and by a receiver with any settings: the frames before the last
/// leave the receiver waiting, and the last completes the message.
pub proof fn padding_is_not_payload(cfg: Config, payload: Seq<u8>, frames: Seq<FrameView>)
    requires
        6 < payload.len() <= 4095,
        frames.len() == 1 + payload.len() / 7,
        in_sequence(frames, payload.len()),
        frames[0].data.skip(2) == payload.take(6),
        forall|k: int|
            1 <= k < frames.len() - 1 ==> (#[trigger] frames[k]).data.skip(1) == payload.subrange(
                7 * k - 1,
                7 * k + 6,
            ),
        payload.skip(7 * (payload.len() / 7) - 1).is_prefix_of(frames.last().data.skip(1)),
    ensures
        answer_to_last(ReceiverView { cfg, state: Reassembly::Idle }, frames).next
            == RecvNextView::Done(payload),
        forall|m: int|
            1 <= m < frames.len() ==> answer_to_last(
                ReceiverView { cfg, state: Reassembly::Idle },
                #[trigger] frames.take(m),
            ).next == RecvNextView::Await,
{
    let n = payload.len();
    let front = frames.drop_last();
    let last = frames.len() - 1;
    lemma_whole_frames(payload, frames, last);
    assert(frames.take(last) =~= front);
    assert(frames[0].data.skip(2).len() == 6);
    message_has_the_announced_length(cfg, frames, n);
    let tail = payload.skip(7 * last - 1);
    let d = frames.last().data.skip(1);
    assert(bytes_carried(frames) == bytes_carried(front) + d);
    assert(d.take(tail.len() as int) =~= tail);
    assert((payload.take(7 * last - 1) + d).take(n as int) =~= payload) by {
        assert forall|j: int| 0 <= j < n implies (payload.take(7 * last - 1) + d)[j]
            == payload[j] by {
            if j >= 7 * last - 1 {
                assert(d.take(tail.len() as int)[j - (7 * last - 1)] == tail[j - (7 * last - 1)]);
            }
        }
    }
    assert forall|m: int| 1 <= m < frames.len() implies answer_to_last(
        ReceiverView { cfg, state: Reassembly::Idle },
        #[trigger] frames.take(m),
    ).next == RecvNextView::Await by {
        let some = frames.take(m);
        assert(some[0] == frames[0]);
        assert forall|j: int| 1 <= j < some.len() implies (#[trigger] some[j]).data.len() >= 1
            && some[j].data[0] as int == 0x20 + j % 16 by {
            assert(some[j] == frames[j]);
        }
        assert(some.drop_last() =~= frames.take(m - 1));
        assert(frames[0].data.skip(2).len() == 6);
        lemma_whole_frames(payload, frames, m);
        if m > 1 {
            lemma_whole_frames(payload, frames, m - 1);
        } else {
            assert(bytes_carried(frames.take(0)).len() == 0);
        }
        message_has_the_announced_length(cfg, some, n);
    }
}

proof fn lemma_whole_frames(payload: Seq<u8>, frames: Seq<FrameView>, m: int)
    requires
        6 < payload.len(),
        1 <= m < frames.len(),
        frames.len() == 1 + payload.len() / 7,
        frames[0].data.skip(2) == payload.take(6),
        forall|k: int|
            1 <= k < frames.len() - 1 ==> (#[trigger] frames[k]).data.skip(1) == payload.subrange(
                7 * k - 1,
                7 * k + 6,
            ),
    ensures
        bytes_carried(frames.take(m)) == payload.take(7 * m - 1),
        7 * m - 1 < payload.len(),
    decreases m,
{
    let some = frames.take(m);
    if m == 1 {
        assert(some[0] == frames[0]);
    } else {
        lemma_whole_frames(payload, frames, m - 1);
        assert(some.drop_last() =~= frames.take(m - 1));
        assert(some.last() == frames[m - 1]);
        assert(payload.take(7 * (m - 1) - 1) + payload.subrange(7 * (m - 1) - 1, 7 * (m - 1) + 6)
            =~= payload.take(7 * m - 1));
    }
}

/// A message of up to seven bytes in a single frame is received as it is, whatever the
/// sender puts behind it.
pub proof fn padded_single_frame_is_received(cfg: Config, payload: Seq<u8>, f: FrameView)
    requires
        1 <= payload.len() <= 7,
        f.data.len() >= 1,
        f.data[0] as int == payload.len(),
        payload.is_prefix_of(f.data.skip(1)),
    ensures
        (ReceiverView { cfg, state: Reassembly::Idle }).on_event(EventView::Received(f)).1
            == (RecvActionView { reply: None, next: RecvNextView::Done(payload) }),
{
    let n = payload.len() as int;
    assert(f.data[0] / 16 == 0 && f.data[0] % 16 == n);
    assert(f.data.subrange(1, 1 + n) =~= payload) by {
        assert(f.data.skip(1).take(n) =~= payload);
        assert forall|j: int| 0 <= j < n implies f.data.subrange(1, 1 + n)[j] == payload[j] by {
            assert(f.data.skip(1).take(n)[j] == payload[j]);
        }
    }
}

/// A receiver that waits for consecutive frame `k` of a message fails on any other frame:
/// on one of another kind, on one with another number, and on one without data.
pub proof fn frames_out_of_sequence_fail(cfg: Config, frames: Seq<FrameView>, n: nat, f: FrameView)
    requires
        n <= 4095,
        in_sequence(frames, n),
        bytes_carried(frames).len() < n,
        f.data.len() == 0 || f.data[0] as int != 0x20 + frames.len() as int % 16,
    ensures
        ({
            let (after, action) = after_frames(
                ReceiverView { cfg, state: Reassembly::Idle },
                frames,
            ).on_event(EventView::Received(f));
            after.state is Over && action.next is Failed && action.reply is None
        }),
{
    lemma_collecting(cfg, frames, n);
}

/// The receiver answers the first frame with flow control, and after that only the last
/// frame of each full block, as long as the message is not complete. Flow control is three
/// bytes: the mark of a sender that may go on, and the block size and the separation time
/// of the receiver's settings.
pub proof fn flow_control_is_sent_per_block(cfg: Config, frames: Seq<FrameView>, n: nat)
    requires
        n <= 4095,
        in_sequence(frames, n),
        bytes_carried(frames).len() < n,
    ensures
        ({
            let action = answer_to_last(ReceiverView { cfg, state: Reassembly::Idle }, frames);
            let k = frames.len() - 1;
            if k == 0 || (cfg.block_size > 0 && k % cfg.block_size as int == 0) {
                action.reply matches Some(f) && f.id == cfg.tx_id && f.ext == cfg.ext_ids
                    && f.data == seq![0x30u8, cfg.block_size, cfg.st_min] && f.valid() == (f.id <= (
                if f.ext {
                    0x1FFF_FFFFu32
                } else {
                    0x7FFu32
                }))
            } else {
                action.reply is None
            }
        }),
{
    let idle = ReceiverView { cfg, state: Reassembly::Idle };
    let front = frames.drop_last();
    let d = frames.last().data;
    if frames.len() == 1 {
        assert(after_frames(idle, front) == idle);
        assert(d[0] / 16 == 1 && d[0] % 16 == n / 256);
        assert((d[0] % 16) * 256 + d[1] == n);
    } else {
        let k = frames.len() - 1;
        assert forall|j: int| 1 <= j < front.len() implies (#[trigger] front[j]).data.len() >= 1
            && front[j].data[0] as int == 0x20 + j % 16 by {
            assert(front[j] == frames[j]);
        }
        assert(front[0] == frames[0]);
        assert(bytes_carried(frames) == bytes_carried(front) + d.skip(1));
        lemma_collecting(cfg, front, n);
        assert(frames[k].data == d);
        assert(d[0] / 16 == 2 && d[0] % 16 == k % 16);
        let buf = bytes_carried(front);
        assert(d.skip(1).take(smaller(d.len() - 1, n - buf.len())) =~= d.skip(1));
        if cfg.block_size != 0 {
            lemma_next_in_block(k - 1, cfg.block_size as int);
        }
    }
}

/// The frames of a message are numbered and cut as the transport asks for: a message of up
/// to seven bytes is one frame with its length in front; a longer one has its length in the
/// first twelve bits behind the kind of the first frame, six bytes there, and seven bytes
/// in each frame that follows but the last, which has the rest.
pub proof fn segments_carry_the_message(cfg: Config, payload: Seq<u8>, frames: Seq<FrameView>)
    requires
        0 < payload.len() <= 4095,
        frames.len() == segment_count(payload),
        forall|k: int|
            0 <= k < frames.len() ==> (#[trigger] frames[k]) == cfg.outgoing(segment(payload, k)),
    ensures
        forall|k: int|
            0 <= k < frames.len() ==> (#[trigger] frames[k]).id == cfg.tx_id && frames[k].ext
                == cfg.ext_ids && !frames[k].rtr && !frames[k].fd && !frames[k].xl
                && 2 <= frames[k].data.len() <= 8,
        payload.len() <= 7 ==> frames.len() == 1 && frames[0].data[0] as int == payload.len()
            && frames[0].data.skip(1) == payload,
        payload.len() > 7 ==> in_sequence(frames, payload.len()) && bytes_carried(frames)
            == payload,
        payload.len() > 7 ==> forall|k: int|
            0 <= k < frames.len() - 1 ==> (#[trigger] frames[k]).data.len() == 8,
{
    let n = payload.len();
    if n <= 7 {
        assert(frames[0].data.skip(1) =~= payload);
    } else {
        lemma_segment_counts(n, (frames.len() - 2) as nat);
        assert forall|k: int| 0 <= k < frames.len() implies (#[trigger] frames[k]).data.len() >= 2
            && frames[k].data.len() <= 8 by {
            if k > 0 {
                lemma_segment_counts(n, (k - 1) as nat);
            }
        }
        assert forall|k: int| 0 <= k < frames.len() - 1 implies (#[trigger] frames[k]).data.len()
            == 8 by {
            lemma_segment_counts(n, k as nat);
        }
        lemma_segments_joined(cfg, payload, frames, frames.len() as int);
        assert(frames.take(frames.len() as int) =~= frames);
    }
}

proof fn lemma_segments_joined(cfg: Config, payload: Seq<u8>, frames: Seq<FrameView>, m: int)
    requires
        7 < payload.len() <= 4095,
        frames.len() == segment_count(payload),
        forall|k: int|
            0 <= k < frames.len() ==> (#[trigger] frames[k]) == cfg.outgoing(segment(payload, k)),
        1 <= m <= frames.len(),
    ensures
        bytes_carried(frames.take(m)) == payload.take(
            smaller(segment_start(m), payload.len() as int),
        ),
        m == frames.len() ==> bytes_carried(frames.take(m)) == payload,
    decreases m,
{
    let n = payload.len();
    let some = frames.take(m);
    if m == 1 {
        assert(some[0] == frames[0]);
        assert(some[0].data.skip(2) =~= payload.take(6));
    } else {
        lemma_segments_joined(cfg, payload, frames, m - 1);
        lemma_segment_counts(n, (m - 2) as nat);
        assert(some.drop_last() =~= frames.take(m - 1));
        assert(some.last() == frames[m - 1]);
        let from = segment_start(m - 1);
        let part = payload.subrange(from, smaller(from + 7, n as int));
        assert(some.last().data.skip(1) =~= part);
        assert(payload.take(from) + part =~= payload.take(smaller(from + 7, n as int)));
    }
    if m == frames.len() {
        lemma_segment_counts(n, (m - 1) as nat);
        assert(payload.take(n as int) =~= payload);
    }
}

/// A separation time in whole milliseconds grows by a millisecond with each step up to 127,
/// one in hundreds of microseconds by 100 microseconds with each step from 0xF1 to 0xF9,
/// and no other value asks for a delay.
pub proof fn separation_times(a: u8, b: u8)
    requires
        a < b,
    ensures
        separation(0) == 0,
        b <= 0x7F ==> separation(b) - separation(a) == (b - a) * 1_000_000,
        separation(0xF1) == 100_000,
        0xF1 <= a && b <= 0xF9 ==> separation(b) - separation(a) == (b - a) * 100_000,
        0x80 <= a <= 0xF0 || 0xFA <= a ==> separation(a) == 0,
        separation(a) <= 127_000_000,
{
}

/// A sender that is let go on hands out the next part of the message at once, with the
/// delay that this flow control asks for, and keeps that delay until the next flow control.
/// It stops when the block is full, unless it is done.
pub proof fn sender_keeps_the_pace(s: SenderView, fc: FrameView)
    requires
        fc.data.len() >= 3,
        fc.data[0] == 0x30 || 0x33 <= fc.data[0] <= 0x3F,
    ensures
        ({
            let (s1, a1) = s.on_event(EventView::Received(fc));
            let (s2, a2) = s1.on_sent();
            &&& a1 matches SendActionView::Send(f, pause) && f == s.cfg.outgoing(
                segment(s.payload, s.sent as int + 1),
            ) && pause == separation(fc.data[2])
            &&& a2 matches SendActionView::Send(f, pause) ==> pause == separation(fc.data[2])
                && fc.data[1] != 1 && f == s.cfg.outgoing(segment(s.payload, s.sent as int + 2))
            &&& fc.data[1] == 1 && s1.sent + 1 < segment_count(s.payload) ==> a2
                == SendActionView::Await
            &&& a2 is Done <==> s1.sent + 1 >= segment_count(s.payload)
        }),
{
    let d = fc.data[0];
    assert(d / 16 == 3 && d % 16 == d - 0x30);
}

/// Flow control decides what a waiting sender does: it waits on where it is asked to, and
/// fails where the receiver has no room, where the frame is no flow control, where nothing
/// comes in time and where the bus closes.
pub proof fn sender_obeys_flow_control(s: SenderView, fc: FrameView)
    ensures
        fc.data.len() >= 3 && fc.data[0] == 0x31 ==> ({
            let (s1, a1) = s.on_event(EventView::Received(fc));
            a1 == SendActionView::Await && s1.sent == s.sent && s1.payload == s.payload
                && s1.phase == SendPhase::Awaiting
        }),
        fc.data.len() >= 3 && fc.data[0] == 0x32 ==> s.on_event(EventView::Received(fc)).1
            is Failed,
        fc.data.len() < 3 || fc.data[0] < 0x30 || fc.data[0] > 0x3F ==> s.on_event(
            EventView::Received(fc),
        ).1 is Failed,
        s.on_event(EventView::TimedOut).1 == SendActionView::Failed(ErrorView::Timeout),
        s.on_event(EventView::Closed).1 == SendActionView::Failed(ErrorView::Closed),
{
    if fc.data.len() >= 3 {
        let d = fc.data[0];
        assert(d / 16 == 3 <==> 0x30 <= d <= 0x3F);
    }
}

/// A wait takes no longer than the caller has time for, nor than the settings allow, and
/// zero in the settings stands for a quarter of a second.
pub proof fn patience_is_bounded(cfg: Config)
    ensures
        cfg.patience() > 0,
        cfg.timeout@ > 0 ==> cfg.patience() == cfg.timeout@,
        cfg.timeout@ == 0 ==> 4 * cfg.patience() == 1_000_000_000,
{
}

/// A receiver that waits for a message fails on a frame that cannot begin one: an empty one,
/// a single frame whose length is zero, above seven or more than it carries, a first frame
/// without its length, and a frame of any other kind. It also fails when nothing comes in
/// time, or when the bus closes, whatever came before.
pub proof fn frames_that_begin_no_message_fail(cfg: Config, f: FrameView, state: Reassembly)
    ensures
        ({
            let d = f.data;
            let idle = ReceiverView { cfg, state: Reassembly::Idle };
            let (after, action) = idle.on_event(EventView::Received(f));
            d.len() == 0 || d[0] >= 0x20 || d[0] == 0 || (8 <= d[0] < 0x10) || (d[0] < 0x10
                && d.len() < 1 + d[0]) || (0x10 <= d[0] < 0x20 && d.len() < 2) ==> action.next
                is Failed && action.reply is None && after.state is Over
        }),
        ({
            let (after, action) = (ReceiverView { cfg, state }).on_event(EventView::TimedOut);
            action.next == RecvNextView::Failed(ErrorView::Timeout) && after.state is Over
        }),
        ({
            let (after, action) = (ReceiverView { cfg, state }).on_event(EventView::Closed);
            action.next == RecvNextView::Failed(ErrorView::Closed) && after.state is Over
        }),
{
    if f.data.len() > 0 {
        let x = f.data[0];
        assert(x / 16 == 0 <==> x < 0x10);
        assert(x / 16 == 1 <==> 0x10 <= x < 0x20);
        assert(x < 0x10 ==> x % 16 == x);
    }
}

/// A first frame that announces no more bytes than it carries is a whole message by itself:
/// all its bytes behind the header, and it is answered with flow control like any other.
pub proof fn first_frame_may_carry_all(cfg: Config, f: FrameView, n: nat)
    requires
        n <= 4095,
        f.data.len() >= 2,
        f.data[0] as int == 0x10 + n / 256,
        f.data[1] as int == n % 256,
        f.data.len() - 2 >= n,
    ensures
        ({
            let action = (ReceiverView { cfg, state: Reassembly::Idle }).on_event(
                EventView::Received(f),
            ).1;
            action.next == RecvNextView::Done(f.data.subrange(2, f.data.len() as int))
                && action.reply is Some
        }),
{
    let d = f.data;
    assert(d[0] / 16 == 1 && d[0] % 16 == n / 256);
    assert((d[0] % 16) * 256 + d[1] == n);
    assert(d.skip(2) =~= d.subrange(2, d.len() as int));
}

/// A sender begins with its whole payload before it, an empty block and no pace but its own.
pub proof fn senders_at_the_start(cfg: Config, payload: Seq<u8>)
    ensures
        ({
            let s = SenderView::start(cfg, payload);
            &&& s.cfg == cfg && s.payload == payload
            &&& s.sent == 0 && s.in_block == 0
            &&& s.block_size == 0 && s.st_min == 0 && !s.flow_seen
        }),
{
}

} // verus!
