//! CAN frames and the rules that each frame format sets.
use vstd::prelude::*;

use crate::error::{Error, ErrorView};
use crate::text;

verus! {

// ---------------------------------------------------------------------------
// Constants
// ---------------------------------------------------------------------------

/// Maximum data length for a classic CAN frame.
pub const CAN_MAX_DATA_LEN: usize = 8;

/// Maximum data length for a CAN FD frame.
pub const CAN_FD_MAX_DATA_LEN: usize = 64;

/// The data lengths that a CAN FD length code can express.
///
/// The codes 0 to 8 stand for that many bytes, 9 to 15 for the fixed lengths above 8.
/// A controller rounds any other length up and pads it, so the peer would receive a
/// different length than was sent.
pub const CAN_FD_CANONICAL_DATA_LENS: [usize; 16] = [
    0,
    1,
    2,
    3,
    4,
    5,
    6,
    7,
    8,
    12,
    16,
    20,
    24,
    32,
    48,
    64,
];

/// Minimum data length for a CAN XL frame.
pub const CAN_XL_MIN_DATA_LEN: usize = 1;

/// Maximum data length for a CAN XL frame.
pub const CAN_XL_MAX_DATA_LEN: usize = 2048;

/// Largest standard (11-bit) identifier.
pub const CAN_MAX_STD_ID: u32 = 0x7FF;

/// Largest extended (29-bit) identifier.
pub const CAN_MAX_EXT_ID: u32 = 0x1FFF_FFFF;

/// Largest CAN XL priority identifier (11 bits).
pub const CAN_XL_MAX_PRIO_ID: u32 = 0x7FF;

/// The lengths that a CAN FD length code can express.
pub open spec fn canonical_fd_len(len: int) -> bool {
    0 <= len <= 8 || len == 12 || len == 16 || len == 20 || len == 24 || len == 32 || len == 48
        || len == 64
}

/// Whether a CAN FD length code expresses `len`.
pub fn is_canonical_fd_data_len(len: usize) -> (r: bool)
    ensures
        r == canonical_fd_len(len as int),
{
    let lens: [usize; 16] = CAN_FD_CANONICAL_DATA_LENS;
    let mut i: usize = 0;
    while i < 16
        invariant
            i <= 16,
            lens@ == CAN_FD_CANONICAL_DATA_LENS@,
            forall|j: int| 0 <= j < i ==> lens@[j] != len,
        decreases 16 - i,
    {
        if lens[i] == len {
            return true;
        }
        i += 1;
    }
    assert(lens@[0] != len && lens@[1] != len && lens@[2] != len && lens@[3] != len && lens@[4]
        != len && lens@[5] != len && lens@[6] != len && lens@[7] != len && lens@[8] != len
        && lens@[9] != len && lens@[10] != len && lens@[11] != len && lens@[12] != len && lens@[13]
        != len && lens@[14] != len && lens@[15] != len);
    false
}

/// Whether a flag has its default value.
pub fn is_false(b: &bool) -> (r: bool)
    ensures
        r == !*b,
{
    !*b
}

/// Whether a byte has its default value.
pub fn is_zero_u8(v: &u8) -> (r: bool)
    ensures
        r == (*v == 0),
{
    *v == 0
}

/// Whether a word has its default value.
pub fn is_zero_u32(v: &u32) -> (r: bool)
    ensures
        r == (*v == 0),
{
    *v == 0
}

// ---------------------------------------------------------------------------
// Frame
// ---------------------------------------------------------------------------

/// A classic CAN, CAN FD or CAN XL frame.
#[derive(Debug, PartialEq, Eq)]
pub struct Frame {
    /// Arbitration identifier: 11 bits, 29 bits where `ext` is set, an 11-bit priority
    /// identifier on CAN XL.
    pub id: u32,
    /// Extended format (29-bit identifier).
    pub ext: bool,
    /// Remote transmission request. Such a frame carries no bytes on the wire; the length
    /// of `data` is the length of the reply that it asks for.
    pub rtr: bool,
    /// CAN FD format (up to 64 bytes).
    pub fd: bool,
    /// Bit rate switch (CAN FD only).
    pub brs: bool,
    /// Error state indicator (CAN FD and CAN XL).
    pub esi: bool,
    /// CAN XL format (1 to 2048 bytes).
    pub xl: bool,
    /// Service data unit type (CAN XL only).
    pub sdt: u8,
    /// Virtual CAN network identifier (CAN XL only).
    pub vcid: u8,
    /// Acceptance field (CAN XL only).
    pub af: u32,
    /// Simple extended content flag (CAN XL only).
    pub sec: bool,
    /// Payload.
    pub data: Vec<u8>,
}

/// The mathematical value of a [`Frame`].
#[verifier::ext_equal]
pub struct FrameView {
    pub id: u32,
    pub ext: bool,
    pub rtr: bool,
    pub fd: bool,
    pub brs: bool,
    pub esi: bool,
    pub xl: bool,
    pub sdt: u8,
    pub vcid: u8,
    pub af: u32,
    pub sec: bool,
    pub data: Seq<u8>,
}

impl View for Frame {
    type V = FrameView;

    open spec fn view(&self) -> FrameView {
        FrameView {
            id: self.id,
            ext: self.ext,
            rtr: self.rtr,
            fd: self.fd,
            brs: self.brs,
            esi: self.esi,
            xl: self.xl,
            sdt: self.sdt,
            vcid: self.vcid,
            af: self.af,
            sec: self.sec,
            data: self.data@,
        }
    }
}

impl Clone for Frame {
    fn clone(&self) -> (r: Frame)
        ensures
            r@ == self@,
    {
        Frame {
            id: self.id,
            ext: self.ext,
            rtr: self.rtr,
            fd: self.fd,
            brs: self.brs,
            esi: self.esi,
            xl: self.xl,
            sdt: self.sdt,
            vcid: self.vcid,
            af: self.af,
            sec: self.sec,
            data: vstd::slice::slice_to_vec(&self.data),
        }
    }
}

/// The frame whose flags and fields all have their default value.
pub open spec fn plain_frame(id: u32, data: Seq<u8>) -> FrameView {
    FrameView {
        id,
        ext: false,
        rtr: false,
        fd: false,
        brs: false,
        esi: false,
        xl: false,
        sdt: 0,
        vcid: 0,
        af: 0,
        sec: false,
        data,
    }
}

impl Default for Frame {
    /// A valid standard frame with identifier 0 and no payload.
    fn default() -> (r: Frame)
        ensures
            r@ == plain_frame(0, Seq::empty()),
            r@.valid(),
    {
        Frame {
            id: 0,
            ext: false,
            rtr: false,
            fd: false,
            brs: false,
            esi: false,
            xl: false,
            sdt: 0,
            vcid: 0,
            af: 0,
            sec: false,
            data: Vec::new(),
        }
    }
}

impl FrameView {
    /// The largest payload of the frame's format.
    pub open spec fn max_len(self) -> int {
        if self.xl { 2048 } else if self.fd { 64 } else { 8 }
    }

    /// Whether the frame keeps every rule of its format.
    pub open spec fn valid(self) -> bool {
        &&& !(self.xl && self.fd)
        &&& self.data.len() <= self.max_len()
        &&& if self.xl {
            &&& !self.ext && !self.rtr && !self.brs
            &&& self.id <= CAN_XL_MAX_PRIO_ID
            &&& self.data.len() >= CAN_XL_MIN_DATA_LEN
        } else {
            &&& self.id <= (if self.ext { CAN_MAX_EXT_ID } else { CAN_MAX_STD_ID })
            &&& self.brs ==> self.fd
            &&& self.rtr ==> !self.fd
            &&& self.esi ==> self.fd
            &&& self.fd ==> canonical_fd_len(self.data.len() as int)
        }
    }

    /// The first rule that the frame breaks, in words, in the order in which the rules
    /// are checked.
    pub open spec fn fault(self) -> Option<Seq<char>> {
        let len = text::number_text(self.data.len(), 10);
        let hex = text::number_text(self.id as nat, 16);
        if self.xl && self.fd {
            Some("XL and FD are mutually exclusive"@)
        } else if self.xl && self.ext {
            Some("CAN XL frame must not set Ext"@)
        } else if self.xl && self.rtr {
            Some("CAN XL frame must not set RTR"@)
        } else if self.xl && self.brs {
            Some("CAN XL frame must not set BRS"@)
        } else if self.xl && self.id > CAN_XL_MAX_PRIO_ID {
            Some("CAN XL Priority ID 0x"@ + hex + " exceeds 0x7FF"@)
        } else if self.xl && self.data.len() == 0 {
            Some("CAN XL frame must carry at least 1 byte"@)
        } else if self.xl && self.data.len() > CAN_XL_MAX_DATA_LEN {
            Some("CAN XL data length "@ + len + " exceeds 2048"@)
        } else if self.xl {
            None
        } else if self.ext && self.id > CAN_MAX_EXT_ID {
            Some("extended ID 0x"@ + hex + " exceeds 0x1FFFFFFF"@)
        } else if !self.ext && self.id > CAN_MAX_STD_ID {
            Some("standard ID 0x"@ + hex + " exceeds 0x7FF"@)
        } else if self.brs && !self.fd {
            Some("BRS requires FD=true"@)
        } else if self.rtr && self.fd {
            Some("RTR must be false when FD=true"@)
        } else if self.esi && !self.fd {
            Some("ESI requires FD or XL"@)
        } else if self.fd && self.data.len() > CAN_FD_MAX_DATA_LEN {
            Some("CAN FD data length "@ + len + " exceeds 64"@)
        } else if self.fd && !canonical_fd_len(self.data.len() as int) {
            Some(
                "CAN FD data length "@ + len
                    + " is not a canonical DLC length (must be one of 0-8, 12, 16, 20, 24, 32, 48, 64)"@,
            )
        } else if !self.fd && self.data.len() > CAN_MAX_DATA_LEN {
            Some("classic CAN data length "@ + len + " exceeds 8"@)
        } else {
            None
        }
    }
}

/// A frame breaks no rule exactly when it is valid.
pub proof fn fault_iff_invalid(f: FrameView)
    ensures
        f.fault() is None <==> f.valid(),
{
}

impl Frame {
    /// The largest payload of the frame's format: 2048 bytes on CAN XL, 64 on CAN FD and
    /// 8 on classic CAN.
    pub fn max_data_len(&self) -> (r: usize)
        ensures
            r == self@.max_len(),
    {
        if self.xl {
            CAN_XL_MAX_DATA_LEN
        } else if self.fd {
            CAN_FD_MAX_DATA_LEN
        } else {
            CAN_MAX_DATA_LEN
        }
    }

    /// A classic remote transmission request for a reply of `requested_len` bytes, at
    /// most 8. The payload is that many zero bytes: only its length matters.
    pub fn remote_request(id: u32, ext: bool, requested_len: usize) -> (r: Frame)
        ensures
            r@ == remote_request_view(id, ext, requested_len as nat),
    {
        let n: usize = if requested_len < CAN_MAX_DATA_LEN { requested_len } else { CAN_MAX_DATA_LEN };
        let r = Frame {
            id,
            ext,
            rtr: true,
            fd: false,
            brs: false,
            esi: false,
            xl: false,
            sdt: 0,
            vcid: 0,
            af: 0,
            sec: false,
            data: vec![0u8; n],
        };
        assert(r@ =~= remote_request_view(id, ext, requested_len as nat));
        r
    }
}

/// The remote request for `len` bytes, at most 8.
pub open spec fn remote_request_view(id: u32, ext: bool, len: nat) -> FrameView {
    FrameView {
        ext,
        rtr: true,
        ..plain_frame(id, Seq::new(if len <= 8 { len } else { 8 }, |i: int| 0u8))
    }
}

/// A remote request for an identifier in range is a valid frame, whatever length was
/// asked for.
pub proof fn remote_request_is_valid(id: u32, ext: bool, len: nat)
    requires
        id <= (if ext { CAN_MAX_EXT_ID } else { CAN_MAX_STD_ID }),
    ensures
        remote_request_view(id, ext, len).valid(),
{
}

// ---------------------------------------------------------------------------
// Filter
// ---------------------------------------------------------------------------

/// Selects frames by identifier: one passes when it agrees with `id` on every bit that
/// `mask` sets. A filter of zeros passes every frame.
#[derive(Debug, Clone, Copy, PartialEq, Eq, Structural)]
pub struct Filter {
    pub id: u32,
    pub mask: u32,
}

impl Default for Filter {
    fn default() -> (r: Filter)
        ensures
            r == (Filter { id: 0, mask: 0 }),
    {
        Filter { id: 0, mask: 0 }
    }
}

impl Filter {
    /// Whether a frame with identifier `id` passes.
    pub open spec fn passes(self, id: u32) -> bool {
        id & self.mask == self.id & self.mask
    }

    /// Whether `fr` passes this filter.
    pub fn matches(&self, fr: &Frame) -> (r: bool)
        ensures
            r == self.passes(fr@.id),
    {
        (fr.id & self.mask) == (self.id & self.mask)
    }
}

/// Every frame passes the filter of zeros.
pub proof fn zero_filter_passes_all(id: u32)
    ensures
        (Filter { id: 0, mask: 0 }).passes(id),
{
    assert(id & 0 == 0u32 & 0) by (bit_vector);
}

/// Whether an identifier passes a list of filters: an empty list passes everything.
pub open spec fn any_passes(filters: Seq<Filter>, id: u32) -> bool {
    filters.len() == 0 || exists|i: int| 0 <= i < filters.len() && #[trigger] filters[i].passes(id)
}

/// Whether `fr` passes a list of filters: an empty list passes everything.
pub fn matches_any(filters: &Vec<Filter>, fr: &Frame) -> (r: bool)
    ensures
        r == any_passes(filters@, fr@.id),
{
    if filters.len() == 0 {
        return true;
    }
    let mut i: usize = 0;
    while i < filters.len()
        invariant
            i <= filters@.len(),
            forall|j: int| 0 <= j < i ==> !#[trigger] filters@[j].passes(fr@.id),
        decreases filters@.len() - i,
    {
        if filters[i].matches(fr) {
            assert(filters@[i as int].passes(fr@.id));
            return true;
        }
        i += 1;
    }
    false
}

// ---------------------------------------------------------------------------
// LoanedFrame
// ---------------------------------------------------------------------------

/// A frame whose buffer goes back to its pool through a callback.
pub struct LoanedFrame<F> {
    pub frame: Frame,
    /// The callback that gives the buffer back, if there is one.
    pub release: Option<F>,
}

impl<F: FnOnce()> LoanedFrame<F> {
    /// A loaned frame with a release callback.
    pub fn new(frame: Frame, release: F) -> (r: Self)
        ensures
            r.frame == frame,
            r.release == Some(release),
    {
        LoanedFrame { frame, release: Some(release) }
    }

    /// A loaned frame without a release callback.
    pub fn simple(frame: Frame) -> (r: Self)
        ensures
            r.frame == frame,
            r.release is None,
    {
        LoanedFrame { frame, release: None }
    }

    /// Consumes the frame and calls the release callback, if there is one.
    pub fn return_loan(self)
        requires
            self.release matches Some(f) ==> f.requires(()),
        ensures
            self.release matches Some(f) ==> f.ensures((), ()),
    {
        if let Some(f) = self.release {
            f();
        }
    }
}

// ---------------------------------------------------------------------------
// Validation
// ---------------------------------------------------------------------------

/// What checking a frame comes to.
pub open spec fn validation(f: FrameView) -> Result<(), ErrorView> {
    match f.fault() {
        Some(reason) => Err(ErrorView::InvalidFrame(reason)),
        None => Ok(()),
    }
}

fn exceeds(what: &str, n: u64, radix: u64, limit: &str) -> (e: Error)
    requires
        2 <= radix <= 16,
    ensures
        e@ == ErrorView::InvalidFrame(what@ + text::number_text(n as nat, radix as nat) + limit@),
{
    let num = text::number_string(n, radix);
    Error::invalid_frame(text::join3(what, num.as_str(), limit))
}

fn breaks(reason: &str) -> (e: Error)
    ensures
        e@ == ErrorView::InvalidFrame(reason@),
{
    Error::invalid_frame(reason.to_owned())
}

/// Checks a frame against the rules of its format. The error names the first rule that
/// the frame breaks.
pub fn validate_frame(f: &Frame) -> (r: Result<(), Error>)
    ensures
        r matches Err(e) ==> validation(f@) == Err::<(), ErrorView>(e@),
        r is Ok ==> validation(f@) == Ok::<(), ErrorView>(()),
        r is Ok <==> f@.valid(),
{
    let len: u64 = f.data.len() as u64;
    let id: u64 = f.id as u64;
    if f.xl && f.fd {
        return Err(breaks("XL and FD are mutually exclusive"));
    }
    if f.xl {
        if f.ext {
            return Err(breaks("CAN XL frame must not set Ext"));
        }
        if f.rtr {
            return Err(breaks("CAN XL frame must not set RTR"));
        }
        if f.brs {
            return Err(breaks("CAN XL frame must not set BRS"));
        }
        if f.id > CAN_XL_MAX_PRIO_ID {
            return Err(exceeds("CAN XL Priority ID 0x", id, 16, " exceeds 0x7FF"));
        }
        if f.data.len() == 0 {
            return Err(breaks("CAN XL frame must carry at least 1 byte"));
        }
        if f.data.len() > CAN_XL_MAX_DATA_LEN {
            return Err(exceeds("CAN XL data length ", len, 10, " exceeds 2048"));
        }
        return Ok(());
    }
    if f.ext {
        if f.id > CAN_MAX_EXT_ID {
            return Err(exceeds("extended ID 0x", id, 16, " exceeds 0x1FFFFFFF"));
        }
    } else if f.id > CAN_MAX_STD_ID {
        return Err(exceeds("standard ID 0x", id, 16, " exceeds 0x7FF"));
    }
    if f.brs && !f.fd {
        return Err(breaks("BRS requires FD=true"));
    }
    if f.rtr && f.fd {
        return Err(breaks("RTR must be false when FD=true"));
    }
    if f.esi && !f.fd && !f.xl {
        return Err(breaks("ESI requires FD or XL"));
    }
    if f.fd {
        if f.data.len() > CAN_FD_MAX_DATA_LEN {
            return Err(exceeds("CAN FD data length ", len, 10, " exceeds 64"));
        }
        if !is_canonical_fd_data_len(f.data.len()) {
            return Err(
                exceeds(
                    "CAN FD data length ",
                    len,
                    10,
                    " is not a canonical DLC length (must be one of 0-8, 12, 16, 20, 24, 32, 48, 64)",
                ),
            );
        }
    } else if f.data.len() > CAN_MAX_DATA_LEN {
        return Err(exceeds("classic CAN data length ", len, 10, " exceeds 8"));
    }
    Ok(())
}

/// The largest payload of a CAN FD frame (64) or of a classic frame (8).
pub fn max_data_len(fd: bool) -> (r: usize)
    ensures
        r == (if fd { 64usize } else { 8usize }),
{
    if fd {
        CAN_FD_MAX_DATA_LEN
    } else {
        CAN_MAX_DATA_LEN
    }
}

// ---------------------------------------------------------------------------
// Laws
// ---------------------------------------------------------------------------

/// The lengths of a CAN FD frame: any up to eight bytes, multiples of four up to 24, and
/// multiples of sixteen up to 64.
pub proof fn lengths_of_fd_frames(len: int)
    ensures
        canonical_fd_len(len) <==> 0 <= len <= 8 || (8 < len <= 24 && len % 4 == 0) || (24 < len
            <= 64 && len % 16 == 0),
{
}

/// A classic frame is valid exactly where its identifier has 11 bits, or 29 in extended
/// format, it has at most eight bytes, and no mark of the other formats.
pub proof fn valid_classic_frames(f: FrameView)
    requires
        !f.fd,
        !f.xl,
    ensures
        f.valid() <==> f.id < (if f.ext { 0x2000_0000int } else { 0x800 }) && f.data.len() < 9
            && !f.brs && !f.esi,
        f.max_len() == 8,
{
}

/// A CAN FD frame is valid exactly where its identifier has 11 bits, or 29 in extended
/// format, its length can be expressed, and it is neither a remote request nor a CAN XL
/// frame.
pub proof fn valid_fd_frames(f: FrameView)
    requires
        f.fd,
    ensures
        f.valid() <==> !f.xl && !f.rtr && f.id < (if f.ext { 0x2000_0000int } else { 0x800 })
            && f.data.len() < 65 && canonical_fd_len(f.data.len() as int),
        !f.xl ==> f.max_len() == 64,
{
}

/// A CAN XL frame is valid exactly where its identifier has 11 bits, it has 1 to 2048 bytes,
/// and no mark of another format.
pub proof fn valid_xl_frames(f: FrameView)
    requires
        f.xl,
    ensures
        f.valid() <==> !f.fd && !f.ext && !f.rtr && !f.brs && f.id < 0x800 && 0 < f.data.len()
            < 2049,
        f.max_len() == 2048,
{
}

/// Checking a frame succeeds exactly where it is valid, and else calls it invalid.
pub proof fn checking_a_frame(f: FrameView)
    ensures
        validation(f) is Ok <==> f.valid(),
        validation(f) matches Err(e) ==> e is InvalidFrame,
{
}

/// A remote request asks for as many bytes as its data has, at most eight, and keeps
/// identifier and format.
pub proof fn remote_requests(id: u32, ext: bool, len: nat)
    ensures
        ({
            let f = remote_request_view(id, ext, len);
            &&& f.id == id && f.ext == ext && f.rtr
            &&& !f.fd && !f.brs && !f.esi && !f.xl
            &&& f.data.len() <= 8
            &&& len <= 8 ==> f.data.len() == len
            &&& len > 8 ==> f.data.len() == 8
            &&& forall|i: int| 0 <= i < f.data.len() ==> #[trigger] f.data[i] == 0
        }),
{
}

/// A filter passes exactly the identifiers that have its own bit wherever its mask has one:
/// here bit `b`, for any of them.
pub proof fn filters_look_at_the_bits_of_their_mask(filter: Filter, id: u32, b: u32)
    requires
        b < 32,
    ensures
        filter.passes(id) ==> (filter.mask >> b) & 1 == 1 ==> (id >> b) & 1 == (filter.id >> b) & 1,
        (filter.mask >> b) & 1 == 0 ==> filter.passes(id) == filter.passes(id ^ (1u32 << b)),
        (filter.mask >> b) & 1 == 1 && filter.passes(id) ==> !filter.passes(id ^ (1u32 << b)),
        filter.passes(filter.id),
{
    let m = filter.mask;
    let x = filter.id;
    let other = id ^ (1u32 << b);
    assert((id & m == x & m ==> (m >> b) & 1 == 1 ==> (id >> b) & 1 == (x >> b) & 1) && ((m >> b)
        & 1 == 0 ==> (id & m == x & m <==> other & m == x & m)) && ((m >> b) & 1 == 1 && id & m == x
        & m ==> other & m != x & m)) by (bit_vector)
        requires
            b < 32,
            other == id ^ (1u32 << b),
    ;
}

/// A mask of all bits passes one identifier only.
pub proof fn full_masks_pass_one_identifier(filter: Filter, id: u32)
    requires
        filter.mask == 0xFFFF_FFFF,
    ensures
        filter.passes(id) <==> id == filter.id,
{
    let x = filter.id;
    assert(id & 0xFFFF_FFFF == id && x & 0xFFFF_FFFF == x) by (bit_vector);
}

/// A list of filters passes what any of its filters passes, at whatever place, and nothing
/// else; an empty list passes everything.
pub proof fn lists_of_filters(filters: Seq<Filter>, id: u32, i: int)
    ensures
        filters.len() == 0 ==> any_passes(filters, id),
        0 <= i < filters.len() && filters[i].passes(id) ==> any_passes(filters, id),
        filters.len() > 0 && (forall|j: int|
            0 <= j < filters.len() ==> !(#[trigger] filters[j]).passes(id)) ==> !any_passes(
            filters,
            id,
        ),
{
}

/// A plain frame has its identifier and its data, no flag and no field of CAN XL.
pub proof fn plain_frames(id: u32, data: Seq<u8>)
    ensures
        ({
            let f = plain_frame(id, data);
            &&& f.id == id && f.data == data
            &&& !f.ext && !f.rtr && !f.fd && !f.brs && !f.esi && !f.xl && !f.sec
            &&& f.sdt == 0 && f.vcid == 0 && f.af == 0
        }),
{
}

} // verus!
