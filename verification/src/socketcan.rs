//! The Linux SocketCAN interface, but for the system calls: raw frames, the steps of
//! opening a socket, and what is done with what was read.
use vstd::prelude::*;
use vstd::slice::slice_subrange;
use vstd::slice::slice_to_vec;

use crate::bus;
use crate::bus::{RecvOutcome, SubInner, SubView};
use crate::error::{Error, ErrorView};
use crate::frame;
use crate::frame::{Filter, Frame, FrameView};
use crate::relay::SubscriberOptions;

verus! {

/// Mark of the extended format in a raw identifier.
pub const CAN_EFF_FLAG: u32 = 0x8000_0000;

/// Mark of a remote request in a raw identifier.
pub const CAN_RTR_FLAG: u32 = 0x4000_0000;

/// The bits of a standard identifier.
pub const CAN_SFF_MASK: u32 = 0x7FF;

/// The bits of an extended identifier.
pub const CAN_EFF_MASK: u32 = 0x1FFF_FFFF;

/// Mark of the bit rate switch in the flags of a raw CAN FD frame.
pub const CANFD_BRS: u8 = 0x01;

/// Mark of the error state indicator in the flags of a raw CAN FD frame.
pub const CANFD_ESI: u8 = 0x02;

/// Size of a raw classic frame.
pub const CAN_FRAME_SIZE: usize = 16;

/// Size of a raw CAN FD frame.
pub const CAN_FD_FRAME_SIZE: usize = 72;

/// Size of an interface name in a request to the kernel.
pub const IFNAMSIZ: usize = 16;

// ---------------------------------------------------------------------------
// Raw frames
// ---------------------------------------------------------------------------

/// A classic frame as the kernel has it, without its padding.
#[derive(Debug, Clone, Copy)]
pub struct CanFrame {
    pub can_id: u32,
    pub can_dlc: u8,
    pub data: [u8; 8],
}

/// A CAN FD frame as the kernel has it, without its padding.
#[derive(Debug, Clone, Copy)]
pub struct CanFdFrame {
    pub can_id: u32,
    pub len: u8,
    pub flags: u8,
    pub data: [u8; 64],
}

/// The raw identifier: the identifier with the marks of the format.
pub open spec fn raw_id(f: FrameView) -> u32 {
    f.id | (if f.ext { 0x8000_0000u32 } else { 0 }) | (if f.rtr { 0x4000_0000u32 } else { 0 })
}

/// The identifier that a raw identifier holds.
pub open spec fn id_of(raw: u32) -> u32 {
    if raw & 0x8000_0000 != 0 { raw & 0x1FFF_FFFF } else { raw & 0x7FF }
}

/// The first `n` bytes of `data`, with zeros behind where there are fewer.
pub open spec fn filled(data: Seq<u8>, n: nat) -> Seq<u8> {
    Seq::new(n, |i: int| if i < data.len() { data[i] } else { 0 })
}

/// The flags of a raw CAN FD frame.
pub open spec fn fd_flags(f: FrameView) -> u8 {
    ((if f.brs { 1int } else { 0 }) + (if f.esi { 2int } else { 0 })) as u8
}

/// The smaller of two numbers.
pub open spec fn smaller(a: int, b: int) -> int {
    if a <= b { a } else { b }
}

/// The frame that a raw classic frame stands for.
pub open spec fn classic_of(raw: CanFrame) -> FrameView {
    FrameView {
        ext: raw.can_id & 0x8000_0000 != 0,
        rtr: raw.can_id & 0x4000_0000 != 0,
        ..frame::plain_frame(id_of(raw.can_id), raw.data@.take(smaller(raw.can_dlc as int, 8)))
    }
}

/// The frame that a raw CAN FD frame stands for.
pub open spec fn fd_of(raw: CanFdFrame) -> FrameView {
    FrameView {
        ext: raw.can_id & 0x8000_0000 != 0,
        fd: true,
        brs: raw.flags & 1 != 0,
        esi: raw.flags & 2 != 0,
        ..frame::plain_frame(id_of(raw.can_id), raw.data@.take(smaller(raw.len as int, 64)))
    }
}

/// The raw identifier of a frame.
pub fn build_can_id(frame: &Frame) -> (r: u32)
    ensures
        r == raw_id(frame@),
{
    let ext: u32 = if frame.ext { CAN_EFF_FLAG } else { 0 };
    let rtr: u32 = if frame.rtr { CAN_RTR_FLAG } else { 0 };
    frame.id | ext | rtr
}

/// The raw classic frame of a frame. Of a payload that is too long the first eight bytes
/// are taken, and the length is cut to a byte.
pub fn classic_frame(frame: &Frame) -> (r: CanFrame)
    ensures
        r.can_id == raw_id(frame@),
        r.can_dlc == frame@.data.len() % 256,
        r.data@ == filled(frame@.data, 8),
{
    let mut data: [u8; 8] = [0u8; 8];
    let mut i: usize = 0;
    while i < 8
        invariant
            i <= 8,
            data@.len() == 8,
            forall|j: int| 0 <= j < i ==> data@[j] == filled(frame@.data, 8)[j],
        decreases 8 - i,
    {
        data[i] = if i < frame.data.len() { frame.data[i] } else { 0 };
        i += 1;
    }
    assert(data@ =~= filled(frame@.data, 8));
    CanFrame { can_id: build_can_id(frame), can_dlc: (frame.data.len() % 256) as u8, data }
}

/// The raw CAN FD frame of a frame. Of a payload that is too long the first 64 bytes are
/// taken, and the length is cut to a byte.
pub fn fd_frame(frame: &Frame) -> (r: CanFdFrame)
    ensures
        r.can_id == raw_id(frame@),
        r.len == frame@.data.len() % 256,
        r.flags == fd_flags(frame@),
        r.data@ == filled(frame@.data, 64),
{
    let mut data: [u8; 64] = [0u8; 64];
    let mut i: usize = 0;
    while i < 64
        invariant
            i <= 64,
            data@.len() == 64,
            forall|j: int| 0 <= j < i ==> data@[j] == filled(frame@.data, 64)[j],
        decreases 64 - i,
    {
        data[i] = if i < frame.data.len() { frame.data[i] } else { 0 };
        i += 1;
    }
    assert(data@ =~= filled(frame@.data, 64));
    let brs: u8 = if frame.brs { CANFD_BRS } else { 0 };
    let esi: u8 = if frame.esi { CANFD_ESI } else { 0 };
    CanFdFrame {
        can_id: build_can_id(frame),
        len: (frame.data.len() % 256) as u8,
        flags: brs + esi,
        data,
    }
}

/// The frame that a raw classic frame stands for.
pub fn parse_classic_frame(raw: &CanFrame) -> (r: Frame)
    ensures
        r@ == classic_of(*raw),
{
    let ext = (raw.can_id & CAN_EFF_FLAG) != 0;
    let id: u32 = if ext { raw.can_id & CAN_EFF_MASK } else { raw.can_id & CAN_SFF_MASK };
    let len: usize = if raw.can_dlc < 8 { raw.can_dlc as usize } else { 8 };
    let mut f = Frame::default();
    f.id = id;
    f.ext = ext;
    f.rtr = (raw.can_id & CAN_RTR_FLAG) != 0;
    f.data = slice_to_vec(slice_subrange(&raw.data, 0, len));
    assert(f@.data =~= raw.data@.take(smaller(raw.can_dlc as int, 8)));
    f
}

/// The frame that a raw CAN FD frame stands for.
pub fn parse_fd_frame(raw: &CanFdFrame) -> (r: Frame)
    ensures
        r@ == fd_of(*raw),
{
    let ext = (raw.can_id & CAN_EFF_FLAG) != 0;
    let id: u32 = if ext { raw.can_id & CAN_EFF_MASK } else { raw.can_id & CAN_SFF_MASK };
    let len: usize = if raw.len < 64 { raw.len as usize } else { 64 };
    let mut f = Frame::default();
    f.id = id;
    f.ext = ext;
    f.fd = true;
    f.brs = (raw.flags & CANFD_BRS) != 0;
    f.esi = (raw.flags & CANFD_ESI) != 0;
    f.data = slice_to_vec(slice_subrange(&raw.data, 0, len));
    assert(f@.data =~= raw.data@.take(smaller(raw.len as int, 64)));
    f
}

/// The frame that was read into the room for a raw CAN FD frame, of which `n` bytes were
/// filled: a CAN FD frame where all were, and a classic frame, which has its length and
/// its data in the same places, where not.
pub open spec fn frame_read(raw: CanFdFrame, n: int) -> FrameView {
    if n == 72 {
        fd_of(raw)
    } else {
        FrameView {
            ext: raw.can_id & 0x8000_0000 != 0,
            rtr: raw.can_id & 0x4000_0000 != 0,
            ..frame::plain_frame(id_of(raw.can_id), raw.data@.take(smaller(raw.len as int, 8)))
        }
    }
}

/// The frame that was read into the room for a raw CAN FD frame, of which `n` bytes were
/// filled.
pub fn parse_read(raw: &CanFdFrame, n: usize) -> (r: Frame)
    ensures
        r@ == frame_read(*raw, n as int),
{
    if n == CAN_FD_FRAME_SIZE {
        return parse_fd_frame(raw);
    }
    let data: [u8; 8] = [
        raw.data[0],
        raw.data[1],
        raw.data[2],
        raw.data[3],
        raw.data[4],
        raw.data[5],
        raw.data[6],
        raw.data[7],
    ];
    let classic = CanFrame { can_id: raw.can_id, can_dlc: raw.len, data };
    assert(data@.take(smaller(raw.len as int, 8)) =~= raw.data@.take(smaller(raw.len as int, 8)));
    parse_classic_frame(&classic)
}

// ---------------------------------------------------------------------------
// Opening
// ---------------------------------------------------------------------------

/// Whether the UTF-8 form of a name has a zero byte.
pub open spec fn has_nul(bytes: Seq<u8>) -> bool {
    exists|i: int| 0 <= i < bytes.len() && bytes[i] == 0
}

/// The name field of a request to the kernel: the name and a zero byte, as far as they fit,
/// and zeros behind.
pub fn interface_name(name: &str) -> (r: Result<Vec<u8>, Error>)
    ensures
        ({
            let bytes = vstd::utf8::encode_utf8(name@);
            match r {
                Ok(field) => !has_nul(bytes) && field@ == filled(bytes, 16),
                Err(e) => has_nul(bytes) && e@ == ErrorView::Other("invalid interface name"@),
            }
        }),
{
    let bytes = name.as_bytes();
    let mut i: usize = 0;
    while i < bytes.len()
        invariant
            i <= bytes@.len(),
            bytes@ == vstd::utf8::encode_utf8(name@),
            forall|j: int| 0 <= j < i ==> bytes@[j] != 0,
        decreases bytes@.len() - i,
    {
        if bytes[i] == 0 {
            return Err(Error::other("invalid interface name"));
        }
        i += 1;
    }
    let mut field: Vec<u8> = Vec::new();
    let mut k: usize = 0;
    while k < IFNAMSIZ
        invariant
            k <= 16,
            field@ == filled(bytes@, 16).take(k as int),
        decreases 16 - k,
    {
        field.push(if k < bytes.len() { bytes[k] } else { 0 });
        k += 1;
    }
    assert(field@ =~= filled(bytes@, 16));
    Ok(field)
}

/// What is done next to open a socket.
#[derive(Debug)]
pub enum OpenAction {
    /// Create a raw CAN socket.
    CreateSocket,
    /// Look up the interface with this name field.
    LookUp(Vec<u8>),
    /// Bind the socket to the interface.
    Bind,
    /// Ask for CAN FD frames.
    EnableFd,
    /// Make the socket non-blocking and register it with the reactor.
    Register,
    /// The socket is open.
    Ready(SocketCanBus),
    /// Opening failed; where `close` is set the socket has to be closed. `None` stands for
    /// the error of the last system call.
    Failed { close: bool, error: Option<Error> },
}

/// How far opening a socket has come.
#[derive(Debug, Clone, Copy, PartialEq, Eq, Structural)]
pub enum OpenStage {
    Socket,
    Index,
    Bound,
    FdFrames,
    Registered,
    Over,
}

/// The steps of opening a socket.
#[derive(Debug)]
pub struct Opening {
    pub stage: OpenStage,
    pub name: String,
    pub fd_enabled: bool,
}

impl Opening {
    /// Begins to open a socket on an interface.
    pub fn new(iface: &str) -> (r: (Opening, OpenAction))
        ensures
            r.0.stage == OpenStage::Socket,
            r.0.name@ == iface@,
            !r.0.fd_enabled,
            r.1 is CreateSocket,
    {
        (
            Opening { stage: OpenStage::Socket, name: iface.to_owned(), fd_enabled: false },
            OpenAction::CreateSocket,
        )
    }

    /// Reports whether the last step succeeded. A kernel that refuses CAN FD frames is no
    /// failure. A socket that cannot be bound is closed.
    pub fn on_result(&mut self, success: bool) -> (r: OpenAction)
        requires
            old(self).stage != OpenStage::Over,
        ensures
            final(self).name@ == old(self).name@,
            old(self).stage != OpenStage::FdFrames ==> final(self).fd_enabled == old(self).fd_enabled,
            ({
                let bytes = vstd::utf8::encode_utf8(old(self).name@);
                match old(self).stage {
                    OpenStage::Socket => if !success {
                        r matches OpenAction::Failed { close, error } && !close && error is None
                            && final(self).stage == OpenStage::Over
                    } else if has_nul(bytes) {
                        &&& r matches OpenAction::Failed { close, error }
                        &&& !close
                        &&& error matches Some(e)
                        &&& e@ == ErrorView::Other("invalid interface name"@)
                        &&& final(self).stage == OpenStage::Over
                    } else {
                        r matches OpenAction::LookUp(field) && field@ == filled(bytes, 16)
                            && final(self).stage == OpenStage::Index
                    },
                    OpenStage::Index => if !success {
                        r matches OpenAction::Failed { close, error } && !close && error is None
                            && final(self).stage == OpenStage::Over
                    } else {
                        r is Bind && final(self).stage == OpenStage::Bound
                    },
                    OpenStage::Bound => if !success {
                        r matches OpenAction::Failed { close, error } && close && error is None
                            && final(self).stage == OpenStage::Over
                    } else {
                        r is EnableFd && final(self).stage == OpenStage::FdFrames
                    },
                    OpenStage::FdFrames => r is Register && final(self).stage
                        == OpenStage::Registered && final(self).fd_enabled == success,
                    OpenStage::Registered => if !success {
                        r matches OpenAction::Failed { close, error } && !close && error is None
                            && final(self).stage == OpenStage::Over
                    } else {
                        r matches OpenAction::Ready(bus) && bus.wf() && bus@
                            == SocketCanBusView::open(old(self).fd_enabled) && final(self).stage
                            == OpenStage::Over
                    },
                    OpenStage::Over => true,
                }
            }),
    {
        match self.stage {
            OpenStage::Socket => {
                if !success {
                    self.stage = OpenStage::Over;
                    return OpenAction::Failed { close: false, error: None };
                }
                match interface_name(self.name.as_str()) {
                    Ok(field) => {
                        self.stage = OpenStage::Index;
                        OpenAction::LookUp(field)
                    },
                    Err(e) => {
                        self.stage = OpenStage::Over;
                        OpenAction::Failed { close: false, error: Some(e) }
                    },
                }
            },
            OpenStage::Index => {
                if !success {
                    self.stage = OpenStage::Over;
                    return OpenAction::Failed { close: false, error: None };
                }
                self.stage = OpenStage::Bound;
                OpenAction::Bind
            },
            OpenStage::Bound => {
                if !success {
                    self.stage = OpenStage::Over;
                    return OpenAction::Failed { close: true, error: None };
                }
                self.stage = OpenStage::FdFrames;
                OpenAction::EnableFd
            },
            OpenStage::FdFrames => {
                self.fd_enabled = success;
                self.stage = OpenStage::Registered;
                OpenAction::Register
            },
            _ => {
                self.stage = OpenStage::Over;
                if !success {
                    return OpenAction::Failed { close: false, error: None };
                }
                OpenAction::Ready(SocketCanBus::new(self.fd_enabled))
            },
        }
    }
}

// ---------------------------------------------------------------------------
// Bus
// ---------------------------------------------------------------------------

/// A raw frame to write to the socket.
#[derive(Debug, Clone, Copy)]
pub enum RawFrame {
    Classic(CanFrame),
    Fd(CanFdFrame),
}

/// What came of reading the socket.
#[derive(Debug)]
pub enum ReadEvent {
    /// The socket cannot be watched any more.
    Lost,
    /// Nothing was there to read.
    WouldBlock,
    /// Reading failed.
    Failed,
    /// So many bytes of a frame were read.
    Bytes(usize, CanFdFrame),
}

/// Whether the reader goes on.
#[derive(Debug, Clone, Copy, PartialEq, Eq, Structural)]
pub enum ReaderStep {
    Again,
    Stop,
}

/// A subscription: which frames it wants, and the queue of those that wait.
#[derive(Debug)]
pub struct SocketSub {
    filters: Vec<Filter>,
    inner: SubInner,
}

/// The mathematical value of a [`SocketSub`].
#[verifier::ext_equal]
pub struct SocketSubView {
    pub filters: Seq<Filter>,
    pub queue: SubView,
}

impl View for SocketSub {
    type V = SocketSubView;

    closed spec fn view(&self) -> SocketSubView {
        SocketSubView { filters: self.filters@, queue: self.inner@ }
    }
}

impl SocketSubView {
    /// Whether the subscription wants a frame: it is open, and the frame passes a filter.
    pub open spec fn wants(self, f: FrameView) -> bool {
        !self.queue.closed && frame::any_passes(self.filters, f.id)
    }

    /// The subscription after a frame came in at time `now`.
    pub open spec fn after_frame(self, f: FrameView, now: nat) -> SocketSubView {
        if self.wants(f) {
            SocketSubView { queue: self.queue.after_push(f, now), ..self }
        } else {
            self
        }
    }

    /// The subscription, closed.
    pub open spec fn after_close(self) -> SocketSubView {
        SocketSubView { queue: SubView { closed: true, ..self.queue }, ..self }
    }
}

impl SocketSub {
    /// The queue keeps its own invariants and holds only frames that pass the filters.
    pub closed spec fn wf(&self) -> bool {
        self.inner.wf() && self@.queue.holds_only(self@.filters)
    }

    fn offer(&mut self, frame: &Frame, now: u64)
        requires
            old(self).wf(),
        ensures
            final(self).wf(),
            final(self)@ == old(self)@.after_frame(frame@, now as nat),
    {
        proof {
            bus::queue_keeps_to_its_filters(self@.queue, self@.filters, frame@, now as nat);
        }
        if !self.inner.is_closed() && frame::matches_any(&self.filters, frame) {
            let _ = self.inner.push(frame.clone(), now);
        }
    }
}

/// A bus on a SocketCAN socket.
#[derive(Debug)]
pub struct SocketCanBus {
    subscribers: Vec<SocketSub>,
    shut: bool,
    fd_enabled: bool,
}

/// The mathematical value of a [`SocketCanBus`].
#[verifier::ext_equal]
pub struct SocketCanBusView {
    pub subs: Seq<SocketSubView>,
    pub closed: bool,
    /// Whether the kernel hands out CAN FD frames.
    pub fd_enabled: bool,
}

impl View for SocketCanBus {
    type V = SocketCanBusView;

    closed spec fn view(&self) -> SocketCanBusView {
        SocketCanBusView {
            subs: Seq::new(self.subscribers@.len(), |i: int| self.subscribers@[i]@),
            closed: self.shut,
            fd_enabled: self.fd_enabled,
        }
    }
}

impl SocketCanBusView {
    /// An open bus without subscribers.
    pub open spec fn open(fd_enabled: bool) -> SocketCanBusView {
        SocketCanBusView { subs: Seq::empty(), closed: false, fd_enabled }
    }

    /// What holds of every bus: only frames that pass the filters of a subscription wait for
    /// it, and the subscriptions of a closed bus are closed.
    pub open spec fn sound(self) -> bool {
        &&& forall|i: int|
            0 <= i < self.subs.len() ==> (#[trigger] self.subs[i]).queue.holds_only(
                self.subs[i].filters,
            )
        &&& self.closed ==> forall|i: int|
            0 <= i < self.subs.len() ==> (#[trigger] self.subs[i]).queue.closed
    }

    /// The subscriptions after a frame came in: it is offered to every open one whose
    /// filters it passes.
    pub open spec fn delivered(self, f: FrameView, now: nat) -> Seq<SocketSubView> {
        Seq::new(self.subs.len(), |i: int| self.subs[i].after_frame(f, now))
    }

    /// The subscriptions, all closed.
    pub open spec fn all_closed(self) -> Seq<SocketSubView> {
        Seq::new(self.subs.len(), |i: int| self.subs[i].after_close())
    }

    /// The frame that a read of `n` bytes gives. Where the kernel hands out no CAN FD
    /// frames it is always a classic one.
    pub open spec fn frame_in(self, raw: CanFdFrame, n: int) -> FrameView {
        if self.fd_enabled { frame_read(raw, n) } else { frame_read(raw, 0) }
    }
}

impl SocketCanBus {
    /// The subscriptions keep their own invariants, and those of a closed bus are closed.
    pub closed spec fn wf(&self) -> bool {
        &&& forall|i: int|
            0 <= i < self.subscribers@.len() ==> (#[trigger] self.subscribers@[i]).wf()
        &&& self.shut ==> forall|i: int|
            0 <= i < self.subscribers@.len() ==> (#[trigger] self.subscribers@[i])@.queue.closed
    }

    /// An open bus without subscribers.
    pub fn new(fd_enabled: bool) -> (r: SocketCanBus)
        ensures
            r.wf(),
            r@ == SocketCanBusView::open(fd_enabled),
    {
        let r = SocketCanBus { subscribers: Vec::new(), shut: false, fd_enabled };
        assert(r@ =~= SocketCanBusView::open(fd_enabled));
        r
    }

    /// The raw frame to write for a frame. A closed bus and an invalid frame are refused.
    pub fn send(&self, frame: &Frame) -> (r: Result<RawFrame, Error>)
        ensures
            match r {
                Err(e) => if self@.closed {
                    e@ == ErrorView::Closed
                } else {
                    frame::validation(frame@) == Err::<(), ErrorView>(e@)
                },
                Ok(RawFrame::Fd(raw)) => {
                    &&& !self@.closed && frame@.valid() && frame@.fd
                    &&& raw.can_id == raw_id(frame@)
                    &&& raw.len == frame@.data.len()
                    &&& raw.flags == fd_flags(frame@)
                    &&& raw.data@ == filled(frame@.data, 64)
                },
                Ok(RawFrame::Classic(raw)) => {
                    &&& !self@.closed && frame@.valid() && !frame@.fd
                    &&& raw.can_id == raw_id(frame@)
                    &&& raw.can_dlc == frame@.data.len() % 256
                    &&& raw.data@ == filled(frame@.data, 8)
                },
            },
    {
        if self.shut {
            return Err(Error::Closed);
        }
        if let Err(e) = frame::validate_frame(frame) {
            return Err(e);
        }
        if frame.fd {
            Ok(RawFrame::Fd(fd_frame(frame)))
        } else {
            Ok(RawFrame::Classic(classic_frame(frame)))
        }
    }

    /// Adds a subscription to the frames that pass one of the filters, or to every frame
    /// where there is none, and returns its number. A closed bus refuses.
    pub fn subscribe(&mut self, filters: Vec<Filter>, opts: SubscriberOptions) -> (r: Result<
        usize,
        Error,
    >)
        requires
            old(self).wf(),
        ensures
            final(self).wf(),
            match r {
                Ok(i) => {
                    &&& !old(self)@.closed
                    &&& i == old(self)@.subs.len()
                    &&& final(self)@ == (SocketCanBusView {
                        subs: old(self)@.subs.push(
                            SocketSubView {
                                filters: filters@,
                                queue: SubView::fresh(
                                    opts.depth(64) as nat,
                                    opts.back_pressure,
                                    opts.rate_limit_per_sec as nat,
                                ),
                            },
                        ),
                        ..old(self)@
                    })
                },
                Err(e) => {
                    &&& old(self)@.closed
                    &&& e@ == ErrorView::Closed
                    &&& final(self)@ == old(self)@
                },
            },
    {
        if self.shut {
            return Err(Error::Closed);
        }
        let number: usize = self.subscribers.len();
        let ghost before = self@;
        let inner = SubInner::new(
            opts.chan_depth(64),
            opts.back_pressure,
            opts.rate_limit_per_sec,
        );
        let sub = SocketSub { filters, inner };
        self.subscribers.push(sub);
        assert(self@.subs =~= before.subs.push(sub@));
        Ok(number)
    }

    fn deliver(&mut self, frame: &Frame, now: u64)
        requires
            old(self).wf(),
        ensures
            final(self).wf(),
            final(self)@ == (SocketCanBusView {
                subs: old(self)@.delivered(frame@, now as nat),
                ..old(self)@
            }),
    {
        let ghost start = self@.subs;
        let ghost done = self@.delivered(frame@, now as nat);
        let mut i: usize = 0;
        while i < self.subscribers.len()
            invariant
                i <= self.subscribers@.len(),
                self.subscribers@.len() == start.len(),
                done.len() == start.len(),
                start == old(self)@.subs,
                done == old(self)@.delivered(frame@, now as nat),
                self.shut == old(self).shut,
                self.fd_enabled == old(self).fd_enabled,
                forall|j: int|
                    0 <= j < self.subscribers@.len() ==> (#[trigger] self.subscribers@[j]).wf(),
                forall|j: int| 0 <= j < i ==> (#[trigger] self.subscribers@[j])@ == done[j],
                forall|j: int|
                    i <= j < self.subscribers@.len() ==> (#[trigger] self.subscribers@[j])@
                        == start[j],
            decreases self.subscribers@.len() - i,
        {
            assert(self.subscribers@[i as int]@ == start[i as int]);
            self.subscribers[i].offer(frame, now);
            i += 1;
        }
        assert(self@.subs =~= done);
    }

    fn close_all(&mut self)
        requires
            old(self).wf(),
        ensures
            final(self).wf(),
            final(self)@ == (SocketCanBusView { subs: old(self)@.all_closed(), ..old(self)@ }),
    {
        let ghost start = self@.subs;
        let ghost done = self@.all_closed();
        let mut i: usize = 0;
        while i < self.subscribers.len()
            invariant
                i <= self.subscribers@.len(),
                self.subscribers@.len() == start.len(),
                done.len() == start.len(),
                start == old(self)@.subs,
                done == old(self)@.all_closed(),
                self.shut == old(self).shut,
                self.fd_enabled == old(self).fd_enabled,
                forall|j: int|
                    0 <= j < self.subscribers@.len() ==> (#[trigger] self.subscribers@[j]).wf(),
                forall|j: int| 0 <= j < i ==> (#[trigger] self.subscribers@[j])@ == done[j],
                forall|j: int|
                    i <= j < self.subscribers@.len() ==> (#[trigger] self.subscribers@[j])@
                        == start[j],
            decreases self.subscribers@.len() - i,
        {
            assert(self.subscribers@[i as int]@ == start[i as int]);
            self.subscribers[i].inner.close();
            i += 1;
        }
        assert(self@.subs =~= done);
    }

    /// One round of the reader: what is done with what was read, at the time `now` of a
    /// clock that counts milliseconds. The reader stops when the bus is closed or the
    /// socket fails, and closes every queue then.
    pub fn on_read(&mut self, event: ReadEvent, now: u64) -> (r: ReaderStep)
        requires
            old(self).wf(),
        ensures
            final(self).wf(),
            r == ReaderStep::Stop <==> old(self)@.closed || event is Lost || event is Failed,
            final(self)@ == (if r == ReaderStep::Stop {
                SocketCanBusView { subs: old(self)@.all_closed(), ..old(self)@ }
            } else {
                match event {
                    ReadEvent::Bytes(n, raw) => SocketCanBusView {
                        subs: old(self)@.delivered(
                            old(self)@.frame_in(raw, n as int),
                            now as nat,
                        ),
                        ..old(self)@
                    },
                    _ => old(self)@,
                }
            }),
    {
        if self.shut {
            self.close_all();
            return ReaderStep::Stop;
        }
        match event {
            ReadEvent::Lost => {
                self.close_all();
                ReaderStep::Stop
            },
            ReadEvent::Failed => {
                self.close_all();
                ReaderStep::Stop
            },
            ReadEvent::WouldBlock => ReaderStep::Again,
            ReadEvent::Bytes(n, raw) => {
                let frame = parse_read(&raw, if self.fd_enabled { n } else { 0 });
                self.deliver(&frame, now);
                ReaderStep::Again
            },
        }
    }

    /// Takes the next frame of a subscriber.
    pub fn recv(&mut self, sub: usize) -> (r: RecvOutcome)
        requires
            old(self).wf(),
            sub < old(self)@.subs.len(),
        ensures
            final(self).wf(),
            final(self)@ == (SocketCanBusView {
                subs: old(self)@.subs.update(
                    sub as int,
                    SocketSubView {
                        queue: old(self)@.subs[sub as int].queue.after_recv(),
                        ..old(self)@.subs[sub as int]
                    },
                ),
                ..old(self)@
            }),
            ({
                let s = old(self)@.subs[sub as int];
                let waiting = s.queue.queue;
                match r {
                    RecvOutcome::Got(f) => {
                        &&& waiting.len() > 0
                        &&& f@ == waiting[0]
                        &&& frame::any_passes(s.filters, f@.id)
                    },
                    RecvOutcome::Ended => waiting.len() == 0 && s.queue.closed,
                    RecvOutcome::Pending => waiting.len() == 0 && !s.queue.closed,
                }
            }),
    {
        let ghost before = self@;
        assert(self.subscribers@[sub as int].wf());
        let r = self.subscribers[sub].inner.recv();
        assert(self@.subs =~= before.subs.update(
            sub as int,
            SocketSubView {
                queue: before.subs[sub as int].queue.after_recv(),
                ..before.subs[sub as int]
            },
        ));
        r
    }

    /// Closes one subscription, as its receiver does. Waiting frames can still be taken.
    pub fn unsubscribe(&mut self, sub: usize)
        requires
            old(self).wf(),
            sub < old(self)@.subs.len(),
        ensures
            final(self).wf(),
            final(self)@ == (SocketCanBusView {
                subs: old(self)@.subs.update(
                    sub as int,
                    old(self)@.subs[sub as int].after_close(),
                ),
                ..old(self)@
            }),
    {
        let ghost before = self@;
        assert(self.subscribers@[sub as int].wf());
        self.subscribers[sub].inner.close();
        assert(self@.subs =~= before.subs.update(
            sub as int,
            before.subs[sub as int].after_close(),
        ));
    }

    /// Closes the bus and every queue. A second close does nothing.
    pub fn close(&mut self)
        requires
            old(self).wf(),
        ensures
            final(self).wf(),
            final(self)@ == (if old(self)@.closed {
                old(self)@
            } else {
                SocketCanBusView {
                    subs: old(self)@.all_closed(),
                    closed: true,
                    ..old(self)@
                }
            }),
    {
        if self.shut {
            return;
        }
        self.close_all();
        assert forall|i: int| 0 <= i < self.subscribers@.len() implies (
        #[trigger] self.subscribers@[i])@.queue.closed by {
            assert(self.subscribers@[i]@ == self@.subs[i]);
            assert(self@.subs.len() == old(self)@.all_closed().len());
            assert(self@.subs[i] == old(self)@.all_closed()[i]);
        }
        self.shut = true;
        assert(self@ =~= (SocketCanBusView {
            subs: old(self)@.all_closed(),
            closed: true,
            ..old(self)@
        }));
    }
}

// ---------------------------------------------------------------------------
// Laws
// ---------------------------------------------------------------------------

/// A subscription with filters stays as it is when a frame comes in that none of them
/// matches.
pub proof fn filters_keep_frames_out(s: SocketSubView, f: FrameView, now: nat)
    requires
        s.filters.len() > 0,
        forall|j: int| 0 <= j < s.filters.len() ==> !(#[trigger] s.filters[j]).passes(f.id),
    ensures
        s.after_frame(f, now) == s,
{
}

/// A bus that keeps its own invariants is sound.
pub proof fn every_bus_is_sound(b: SocketCanBus)
    requires
        b.wf(),
    ensures
        b@.sound(),
{
    assert forall|i: int| 0 <= i < b@.subs.len() implies (#[trigger] b@.subs[i]).queue.holds_only(
        b@.subs[i].filters,
    ) by {
        assert(b.subscribers@[i].wf());
    }
}

/// A subscription with filters only ever has frames waiting that one of them matches.
pub proof fn waiting_frames_match_a_filter(b: SocketCanBus, i: int, k: int)
    requires
        b.wf(),
        0 <= i < b@.subs.len(),
        0 <= k < b@.subs[i].queue.queue.len(),
        b@.subs[i].filters.len() > 0,
    ensures
        exists|j: int|
            0 <= j < b@.subs[i].filters.len() && #[trigger] b@.subs[i].filters[j].passes(
                b@.subs[i].queue.queue[k].id,
            ),
{
    every_bus_is_sound(b);
    assert(frame::any_passes(b@.subs[i].filters, b@.subs[i].queue.queue[k].id));
}

/// Once the bus is closed, or its reader has stopped, the receiver of a subscription gets
/// the frames that waited, in order, and is then told of the end.
pub proof fn closing_ends_every_subscription(b: SocketCanBusView, i: int, n: nat)
    requires
        0 <= i < b.subs.len(),
    ensures
        ({
            let waiting = b.subs[i].queue.queue;
            let left = b.all_closed()[i].queue.after_recvs(n);
            &&& left.closed
            &&& n < waiting.len() ==> left.queue.len() > 0 && left.queue[0] == waiting[n as int]
            &&& n >= waiting.len() ==> left.queue.len() == 0
        }),
{
    bus::closed_queue_is_read_to_its_end(b.all_closed()[i].queue, n);
}

proof fn lemma_raw_id(f: FrameView)
    requires
        f.id <= (if f.ext { 0x1FFF_FFFFu32 } else { 0x7FFu32 }),
    ensures
        id_of(raw_id(f)) == f.id,
        (raw_id(f) & 0x8000_0000 != 0) == f.ext,
        (raw_id(f) & 0x4000_0000 != 0) == f.rtr,
{
    let id = f.id;
    let ext = f.ext;
    let rtr = f.rtr;
    let raw = raw_id(f);
    assert((raw & 0x8000_0000 != 0) == ext && (raw & 0x4000_0000 != 0) == rtr && (ext ==> raw
        & 0x1FFF_FFFF == id) && (!ext ==> raw & 0x7FF == id)) by (bit_vector)
        requires
            raw == id | (if ext { 0x8000_0000u32 } else { 0 }) | (if rtr {
                0x4000_0000u32
            } else {
                0
            }),
            id <= (if ext { 0x1FFF_FFFFu32 } else { 0x7FFu32 }),
    ;
}

/// A valid classic frame is read as it was written; a remote request keeps the length that
/// it asks for, and its data.
pub proof fn classic_frame_round_trip(f: FrameView, raw: CanFrame)
    requires
        f.valid(),
        !f.fd && !f.xl,
        f.sdt == 0 && f.vcid == 0 && f.af == 0 && !f.sec,
        raw.can_id == raw_id(f),
        raw.can_dlc == f.data.len() % 256,
        raw.data@ == filled(f.data, 8),
    ensures
        classic_of(raw) == f,
{
    lemma_raw_id(f);
    assert(classic_of(raw).data =~= f.data);
}

/// A valid classic frame is also read as it was written where it comes into the room for a
/// CAN FD frame, of which it fills a part.
pub proof fn classic_frame_in_larger_room(f: FrameView, raw: CanFrame, room: CanFdFrame, n: int)
    requires
        f.valid(),
        !f.fd && !f.xl,
        f.sdt == 0 && f.vcid == 0 && f.af == 0 && !f.sec,
        raw.can_id == raw_id(f),
        raw.can_dlc == f.data.len() % 256,
        raw.data@ == filled(f.data, 8),
        room.can_id == raw.can_id,
        room.len == raw.can_dlc,
        room.data@.take(8) == raw.data@,
        n != 72,
    ensures
        frame_read(room, n) == f,
{
    classic_frame_round_trip(f, raw);
    let k = smaller(room.len as int, 8);
    assert(room.data@.take(k) =~= room.data@.take(8).take(k));
}

/// A valid CAN FD frame is read as it was written.
pub proof fn fd_frame_round_trip(f: FrameView, raw: CanFdFrame)
    requires
        f.valid(),
        f.fd,
        f.sdt == 0 && f.vcid == 0 && f.af == 0 && !f.sec,
        raw.can_id == raw_id(f),
        raw.len == f.data.len() % 256,
        raw.flags == fd_flags(f),
        raw.data@ == filled(f.data, 64),
    ensures
        fd_of(raw) == f,
        frame_read(raw, 72) == f,
{
    lemma_raw_id(f);
    assert(0u8 & 1 == 0 && 0u8 & 2 == 0 && 1u8 & 1 != 0 && 1u8 & 2 == 0 && 2u8 & 1 == 0 && 2u8 & 2
        != 0 && 3u8 & 1 != 0 && 3u8 & 2 != 0) by (bit_vector);
    assert(fd_of(raw).data =~= f.data);
}

/// A raw identifier has the format in bit 31, the remote request in bit 30, and the
/// identifier below, where it has at most 29 bits.
pub proof fn marks_of_a_raw_identifier(f: FrameView)
    requires
        f.id < 0x2000_0000,
    ensures
        raw_id(f) == f.id + (if f.ext { 0x8000_0000int } else { 0 }) + (if f.rtr {
            0x4000_0000int
        } else {
            0
        }),
{
    let id = f.id;
    let ext: u32 = if f.ext { 0x8000_0000 } else { 0 };
    let rtr: u32 = if f.rtr { 0x4000_0000 } else { 0 };
    assert(id | ext | rtr == id + ext + rtr) by (bit_vector)
        requires
            id < 0x2000_0000,
            ext == 0x8000_0000 || ext == 0,
            rtr == 0x4000_0000 || rtr == 0,
    ;
}

/// What a raw identifier means: in extended format the lowest 29 bits count, in standard
/// format the lowest 11.
pub proof fn meaning_of_a_raw_identifier(raw: CanFrame, fd: CanFdFrame)
    ensures
        classic_of(raw).ext <==> raw.can_id >= 0x8000_0000,
        classic_of(raw).rtr <==> raw.can_id / 0x4000_0000 % 2 == 1,
        classic_of(raw).id == (if raw.can_id >= 0x8000_0000 {
            raw.can_id % 0x2000_0000
        } else {
            raw.can_id % 0x800
        }),
        fd_of(fd).ext <==> fd.can_id >= 0x8000_0000,
        fd_of(fd).id == (if fd.can_id >= 0x8000_0000 {
            fd.can_id % 0x2000_0000
        } else {
            fd.can_id % 0x800
        }),
        fd_of(fd).brs <==> fd.flags % 2 == 1,
        fd_of(fd).esi <==> fd.flags / 2 % 2 == 1,
        fd_of(fd).fd && !fd_of(fd).rtr && !classic_of(raw).fd && !classic_of(raw).brs
            && !classic_of(raw).esi && !classic_of(raw).xl && !fd_of(fd).xl,
{
    let a = raw.can_id;
    let b = fd.can_id;
    let c = fd.flags;
    assert((a & 0x8000_0000 != 0 <==> a >= 0x8000_0000) && (a & 0x4000_0000 != 0 <==> a
        / 0x4000_0000 % 2 == 1) && a & 0x1FFF_FFFF == a % 0x2000_0000 && a & 0x7FF == a % 0x800 && (b
        & 0x8000_0000 != 0 <==> b >= 0x8000_0000) && b & 0x1FFF_FFFF == b % 0x2000_0000 && b & 0x7FF
        == b % 0x800 && (c & 1 != 0 <==> c % 2 == 1) && (c & 2 != 0 <==> c / 2 % 2 == 1))
        by (bit_vector);
}

/// The data of a raw frame: as many bytes as its length says, but no more than it has room
/// for.
pub proof fn data_of_raw_frames(raw: CanFrame, fd: CanFdFrame)
    ensures
        classic_of(raw).data.len() == (if raw.can_dlc < 8 { raw.can_dlc as nat } else { 8 }),
        classic_of(raw).data.is_prefix_of(raw.data@),
        fd_of(fd).data.len() == (if fd.len < 64 { fd.len as nat } else { 64 }),
        fd_of(fd).data.is_prefix_of(fd.data@),
{
    let a = classic_of(raw).data;
    let b = fd_of(fd).data;
    assert(a =~= raw.data@.take(a.len() as int));
    assert(b =~= fd.data@.take(b.len() as int));
}

/// The flags of a raw CAN FD frame have the bit rate switch in bit 0 and the error state
/// indicator in bit 1, and nothing else. A payload that is written is put in front, and
/// zeros fill the room behind it.
pub proof fn what_is_written_to_raw_frames(f: FrameView, n: nat)
    ensures
        fd_flags(f) % 2 == 1 <==> f.brs,
        fd_flags(f) / 2 == 1 <==> f.esi,
        fd_flags(f) < 4,
        filled(f.data, n).len() == n,
        f.data.len() <= n ==> filled(f.data, n) == f.data + Seq::new(
            (n - f.data.len()) as nat,
            |i: int| 0u8,
        ),
        f.data.len() > n ==> filled(f.data, n) == f.data.subrange(0, n as int),
{
    if f.data.len() <= n {
        assert(filled(f.data, n) =~= f.data + Seq::new((n - f.data.len()) as nat, |i: int| 0u8));
    } else {
        assert(filled(f.data, n) =~= f.data.subrange(0, n as int));
    }
}

/// A read that fills the room for a CAN FD frame gives one; any other read gives a classic
/// frame of at most eight bytes. Where the kernel hands out no CAN FD frames every read
/// gives a classic frame.
pub proof fn reads_tell_the_formats_apart(b: SocketCanBusView, raw: CanFdFrame, n: int)
    ensures
        b.frame_in(raw, n).fd <==> b.fd_enabled && n == 72,
        b.frame_in(raw, n).fd ==> b.frame_in(raw, n) == fd_of(raw),
        !b.frame_in(raw, n).fd ==> b.frame_in(raw, n).data.len() == (if raw.len < 8 {
            raw.len as nat
        } else {
            8
        }) && b.frame_in(raw, n).data.is_prefix_of(raw.data@) && b.frame_in(raw, n).id == fd_of(
            raw,
        ).id && b.frame_in(raw, n).ext == fd_of(raw).ext && (b.frame_in(raw, n).rtr
            <==> raw.can_id / 0x4000_0000 % 2 == 1),
{
    let a = raw.can_id;
    assert(a & 0x4000_0000 != 0 <==> a / 0x4000_0000 % 2 == 1) by (bit_vector);
    let d = b.frame_in(raw, n).data;
    assert(!b.frame_in(raw, n).fd ==> d =~= raw.data@.take(d.len() as int));
}

/// A frame that comes in goes into the queue of every subscription that is open and has no
/// filters or one that matches, at any place of its list, and into no other queue.
pub proof fn frames_go_where_filters_match(b: SocketCanBusView, f: FrameView, now: nat, i: int)
    requires
        0 <= i < b.subs.len(),
    ensures
        ({
            let s = b.subs[i];
            let t = b.delivered(f, now)[i];
            let matched = s.filters.len() == 0 || exists|j: int|
                0 <= j < s.filters.len() && (#[trigger] s.filters[j]).passes(f.id);
            &&& !s.queue.closed && matched ==> t.queue == s.queue.after_push(f, now)
            &&& s.queue.closed || !matched ==> t.queue == s.queue
            &&& t.filters == s.filters
        }),
        b.delivered(f, now).len() == b.subs.len(),
{
}

/// A name has a zero byte exactly where one of its bytes is zero, be it the first or the
/// last.
pub proof fn names_with_a_zero_byte(bytes: Seq<u8>)
    ensures
        has_nul(bytes) <==> bytes.contains(0u8),
{
}

/// A new bus is open, has no subscriber and is on CAN FD where that was asked for.
pub proof fn new_buses(fd_enabled: bool)
    ensures
        !SocketCanBusView::open(fd_enabled).closed,
        SocketCanBusView::open(fd_enabled).subs.len() == 0,
        SocketCanBusView::open(fd_enabled).fd_enabled == fd_enabled,
{
}

} // verus!
