//! SAE J1939 over CAN.
//!
//! A 29-bit identifier is made of fields:
//!
//! ```text
//! Bits 28-26  priority
//! Bit  25     reserved
//! Bit  24     data page (DP)
//! Bits 23-16  PDU format (PF)
//! Bits 15-8   PDU specific (PS): the destination where PF < 240, else part of the PGN
//! Bits  7-0   source address
//! ```
use vstd::prelude::*;

use crate::frame;
use crate::frame::{Frame, FrameView};
use crate::text;

verus! {

/// Destination address of messages to all nodes.
pub const BROADCAST_ADDR: u8 = 0xFF;

/// Address of a node that has claimed none.
pub const NULL_ADDR: u8 = 0xFE;

/// Message priority, 0 (highest) to 7.
#[derive(Debug, Clone, Copy, PartialEq, Eq, PartialOrd, Ord)]
pub struct Priority(pub u8);

impl Priority {
    /// The priority: the lowest three bits.
    pub fn value(self) -> (r: u8)
        ensures
            r == self.0 % 8,
    {
        self.0 % 8
    }
}

impl Default for Priority {
    /// The priority of ordinary messages, 6.
    fn default() -> (r: Priority)
        ensures
            r.0 == 6,
    {
        Priority(6)
    }
}

impl From<u8> for Priority {
    fn from(n: u8) -> (r: Priority) {
        Priority(n)
    }
}

impl vstd::std_specs::convert::FromSpecImpl<u8> for Priority {
    open spec fn obeys_from_spec() -> bool {
        true
    }

    open spec fn from_spec(n: u8) -> Priority {
        Priority(n)
    }
}

/// Parameter group number: the data page in bit 17, the PDU format in bits 15 to 8, and a
/// group extension in bits 7 to 0.
#[derive(Debug, Clone, Copy, PartialEq, Eq, Hash)]
pub struct Pgn(pub u32);

/// The PDU format of a parameter group.
pub open spec fn format_of(pgn: u32) -> u32 {
    pgn / 256 % 256
}

/// The data page of a parameter group.
pub open spec fn page_of(pgn: u32) -> u32 {
    pgn / 0x2_0000 % 2
}

/// Whether messages of a group go to one node.
pub open spec fn peer_to_peer(pgn: u32) -> bool {
    format_of(pgn) < 240
}

impl Pgn {
    /// Whether the number has only the fields of a parameter group: it has 18 bits, bit 16
    /// is clear, and a group whose messages go to one node has no extension.
    pub open spec fn proper(self) -> bool {
        &&& self.0 < 0x4_0000
        &&& self.0 / 0x1_0000 % 2 == 0
        &&& peer_to_peer(self.0) ==> self.0 % 256 == 0
    }

    /// Whether messages of this group go to one node: the PDU format is below 240.
    pub fn is_peer_to_peer(self) -> (r: bool)
        ensures
            r == peer_to_peer(self.0),
    {
        self.0 / 256 % 256 < 240
    }

    /// The number in hexadecimal, with at least four digits.
    pub fn to_string(&self) -> (r: String)
        ensures
            r@ == "PGN(0x"@ + text::padded_text(self.0 as nat, 16, 4) + ")"@,
    {
        let digits = text::padded_string(self.0 as u64, 16, 4);
        text::join3("PGN(0x", digits.as_str(), ")")
    }
}

/// A J1939 message.
#[derive(Debug)]
pub struct J1939Frame {
    pub priority: Priority,
    pub pgn: Pgn,
    /// Source address.
    pub src: u8,
    /// Destination address, where messages of the group go to one node.
    pub dst: u8,
    pub data: Vec<u8>,
}

/// The mathematical value of a [`J1939Frame`].
pub struct J1939FrameView {
    pub priority: Priority,
    pub pgn: Pgn,
    pub src: u8,
    pub dst: u8,
    pub data: Seq<u8>,
}

impl View for J1939Frame {
    type V = J1939FrameView;

    open spec fn view(&self) -> J1939FrameView {
        J1939FrameView {
            priority: self.priority,
            pgn: self.pgn,
            src: self.src,
            dst: self.dst,
            data: self.data@,
        }
    }
}

impl Clone for J1939Frame {
    fn clone(&self) -> (r: J1939Frame)
        ensures
            r@ == self@,
    {
        J1939Frame {
            priority: self.priority,
            pgn: self.pgn,
            src: self.src,
            dst: self.dst,
            data: vstd::slice::slice_to_vec(&self.data),
        }
    }
}

/// Priority, group and source address of an identifier. The PDU-specific byte belongs to
/// the group where the PDU format is 240 or more.
pub open spec fn decoded(id: u32) -> (Priority, Pgn, u8) {
    let pf = id / 0x1_0000 % 256;
    let ps = id / 256 % 256;
    let dp = id / 0x100_0000 % 2;
    (
        Priority((id / 0x400_0000 % 8) as u8),
        Pgn((dp * 0x2_0000 + pf * 256 + (if pf < 240 { 0 } else { ps as int })) as u32),
        (id % 256) as u8,
    )
}

/// The identifier with the given fields.
pub open spec fn encoded(priority: Priority, pgn: Pgn, src: u8, dst: u8) -> u32 {
    let pf = format_of(pgn.0);
    let ps = if pf >= 240 { pgn.0 % 256 } else { dst as u32 };
    (priority.0 % 8 * 0x400_0000 + page_of(pgn.0) * 0x100_0000 + pf * 0x1_0000 + ps * 256
        + src) as u32
}

/// Reads priority, group and source address from a 29-bit identifier.
pub fn decode_id(id: u32) -> (r: (Priority, Pgn, u8))
    ensures
        r == decoded(id),
{
    let pf: u32 = id / 0x1_0000 % 256;
    let ps: u32 = id / 256 % 256;
    let dp: u32 = id / 0x100_0000 % 2;
    let extension: u32 = if pf < 240 { 0 } else { ps };
    (
        Priority((id / 0x400_0000 % 8) as u8),
        Pgn(dp * 0x2_0000 + pf * 256 + extension),
        (id % 256) as u8,
    )
}

/// Makes the 29-bit identifier of a message.
pub fn encode_id(priority: Priority, pgn: Pgn, src: u8, dst: u8) -> (r: u32)
    ensures
        r == encoded(priority, pgn, src, dst),
{
    let pf: u32 = pgn.0 / 256 % 256;
    let dp: u32 = pgn.0 / 0x2_0000 % 2;
    let ps: u32 = if pf >= 240 { pgn.0 % 256 } else { dst as u32 };
    priority.value() as u32 * 0x400_0000 + dp * 0x100_0000 + pf * 0x1_0000 + ps * 256 + src as u32
}

/// A node that speaks J1939.
#[derive(Debug, Clone, Copy)]
pub struct J1939Bus {
    /// Address of this node.
    pub source_address: u8,
}

impl J1939Bus {
    /// A node with the given address.
    pub fn new(source_address: u8) -> (r: J1939Bus)
        ensures
            r.source_address == source_address,
    {
        J1939Bus { source_address }
    }

    /// The CAN frame that carries a message of this node. The message's own source
    /// address is not looked at.
    pub fn send(&self, frame: J1939Frame) -> (r: Frame)
        ensures
            r@ == carried(frame@, self.source_address),
    {
        let mut f = Frame::default();
        f.id = encode_id(frame.priority, frame.pgn, self.source_address, frame.dst);
        f.ext = true;
        f.data = frame.data;
        f
    }

    /// A subscription to the messages of some groups, or of all groups where none is
    /// given.
    pub fn subscribe(&self, pgns: Vec<Pgn>) -> (r: J1939Receiver)
        ensures
            r.pgns == pgns,
    {
        J1939Receiver { pgns }
    }
}

/// The CAN frame that carries a message of the node with address `src`.
pub open spec fn carried(m: J1939FrameView, src: u8) -> FrameView {
    FrameView {
        ext: true,
        ..frame::plain_frame(encoded(m.priority, m.pgn, src, m.dst), m.data)
    }
}

/// A subscription to J1939 messages.
#[derive(Debug)]
pub struct J1939Receiver {
    /// The groups that are wanted; empty for all.
    pub pgns: Vec<Pgn>,
}

/// Whether a group is wanted.
pub open spec fn wanted(pgns: Seq<Pgn>, pgn: Pgn) -> bool {
    pgns.len() == 0 || exists|i: int| 0 <= i < pgns.len() && #[trigger] pgns[i] == pgn
}

/// The message that a CAN frame carries to a subscription: none where the frame is in
/// standard format, or the group is not wanted. The destination is the PDU-specific byte,
/// or all nodes.
pub open spec fn received(pgns: Seq<Pgn>, f: FrameView) -> Option<J1939FrameView> {
    let (priority, pgn, src) = decoded(f.id);
    if !f.ext || !wanted(pgns, pgn) {
        None
    } else {
        Some(
            J1939FrameView {
                priority,
                pgn,
                src,
                dst: if peer_to_peer(pgn.0) { (f.id / 256 % 256) as u8 } else { 0xFF },
                data: f.data,
            },
        )
    }
}

impl J1939Receiver {
    fn wants(&self, pgn: Pgn) -> (r: bool)
        ensures
            r == wanted(self.pgns@, pgn),
    {
        if self.pgns.len() == 0 {
            return true;
        }
        let mut i: usize = 0;
        while i < self.pgns.len()
            invariant
                i <= self.pgns@.len(),
                forall|j: int| 0 <= j < i ==> #[trigger] self.pgns@[j] != pgn,
            decreases self.pgns@.len() - i,
        {
            if self.pgns[i].0 == pgn.0 {
                assert(self.pgns@[i as int] == pgn);
                return true;
            }
            i += 1;
        }
        false
    }

    /// The message that a CAN frame carries, if it is for this subscription.
    pub fn recv(&self, f: Frame) -> (r: Option<J1939Frame>)
        ensures
            match r {
                Some(m) => received(self.pgns@, f@) == Some(m@),
                None => received(self.pgns@, f@) is None,
            },
    {
        if !f.ext {
            return None;
        }
        let (priority, pgn, src) = decode_id(f.id);
        if !self.wants(pgn) {
            return None;
        }
        let dst: u8 = if pgn.is_peer_to_peer() {
            (f.id / 256 % 256) as u8
        } else {
            BROADCAST_ADDR
        };
        Some(J1939Frame { priority, pgn, src, dst, data: f.data })
    }
}

// ---------------------------------------------------------------------------
// Laws
// ---------------------------------------------------------------------------

/// The fields of a message can be read back from its identifier, which always has at most
/// 29 bits.
pub proof fn encode_then_decode(priority: Priority, pgn: Pgn, src: u8, dst: u8)
    requires
        pgn.proper(),
    ensures
        encoded(priority, pgn, src, dst) <= frame::CAN_MAX_EXT_ID,
        decoded(encoded(priority, pgn, src, dst)) == (Priority(priority.0 % 8), pgn, src),
        peer_to_peer(pgn.0) ==> encoded(priority, pgn, src, dst) / 256 % 256 == dst,
{
    let pf = format_of(pgn.0);
    let dp = page_of(pgn.0);
    let ps = if pf >= 240 { pgn.0 % 256 } else { dst as u32 };
    let p = priority.0 % 8;
    let id = encoded(priority, pgn, src, dst);
    assert(id == p * 0x400_0000 + dp * 0x100_0000 + pf * 0x1_0000 + ps * 256 + src);
    assert(id % 256 == src);
    assert(id / 256 == p * 0x4_0000 + dp * 0x1_0000 + pf * 256 + ps);
    assert(id / 256 % 256 == ps);
    assert(id / 0x1_0000 == p * 0x400 + dp * 0x100 + pf);
    assert(id / 0x1_0000 % 256 == pf);
    assert(id / 0x100_0000 == p * 4 + dp);
    assert(id / 0x100_0000 % 2 == dp);
    assert(id / 0x400_0000 == p);
    assert(pgn.0 == dp * 0x2_0000 + pf * 256 + pgn.0 % 256);
}

/// An identifier of 29 bits whose reserved bit is clear is made again from its fields and
/// its PDU-specific byte.
pub proof fn decode_then_encode(id: u32)
    requires
        id <= frame::CAN_MAX_EXT_ID,
        id / 0x200_0000 % 2 == 0,
    ensures
        ({
            let (priority, pgn, src) = decoded(id);
            encoded(priority, pgn, src, (id / 256 % 256) as u8) == id
        }),
        decoded(id).1.proper(),
{
    let a = id as int / 256;
    let b = a / 256;
    let c = b / 256;
    assert(id / 0x1_0000 == b);
    assert(id / 0x100_0000 == c);
    assert(id / 0x200_0000 == c / 2);
    assert(id / 0x400_0000 == c / 4);
    assert(c == (c / 4) * 4 + c % 2 && c < 32);
    let (priority, pgn, src) = decoded(id);
    lemma_group_fields(c % 2, b % 256, if b % 256 < 240 { 0 } else { a % 256 });
}

proof fn lemma_group_fields(dp: int, pf: int, extension: int)
    requires
        0 <= dp < 2,
        0 <= pf < 256,
        0 <= extension < 256,
    ensures
        ({
            let n = dp * 0x2_0000 + pf * 256 + extension;
            &&& 0 <= n < 0x4_0000
            &&& n / 256 % 256 == pf
            &&& n / 0x2_0000 % 2 == dp
            &&& n / 0x1_0000 % 2 == 0
            &&& n % 256 == extension
        }),
{
    let n = dp * 0x2_0000 + pf * 256 + extension;
    assert(n / 256 == dp * 512 + pf);
    assert(n / 0x1_0000 == dp * 2);
}

/// A message of a proper group reaches a subscription to its group as it was sent, with
/// the address of the sending node as its source, and is a valid frame.
pub proof fn sent_message_is_received(m: J1939FrameView, src: u8, pgns: Seq<Pgn>)
    requires
        m.pgn.proper(),
        m.priority.0 < 8,
        m.data.len() <= 8,
        wanted(pgns, m.pgn),
    ensures
        carried(m, src).valid(),
        received(pgns, carried(m, src)) == Some(
            J1939FrameView {
                src,
                dst: if peer_to_peer(m.pgn.0) { m.dst } else { 0xFF },
                ..m
            },
        ),
{
    encode_then_decode(m.priority, m.pgn, src, m.dst);
}

/// The fields of a 29-bit identifier, from the highest: priority, reserved bit, data page,
/// PDU format, PDU-specific byte, source address. The group is the data page in bit 17, the
/// format in bits 15 to 8, and the PDU-specific byte below it where the format is 240 or
/// more.
pub proof fn fields_of_an_identifier(
    id: u32,
    priority: u8,
    reserved: u8,
    page: u8,
    format: u8,
    specific: u8,
    src: u8,
)
    requires
        priority < 8,
        reserved < 2,
        page < 2,
        id == priority * 0x400_0000 + reserved * 0x200_0000 + page * 0x100_0000 + format * 0x1_0000
            + specific * 0x100 + src,
    ensures
        decoded(id).0 == Priority(priority),
        decoded(id).1.0 == page * 0x2_0000 + format * 0x100 + (if format < 240 {
            0int
        } else {
            specific as int
        }),
        decoded(id).2 == src,
        peer_to_peer(decoded(id).1.0) <==> format < 240,
        id / 256 % 256 == specific,
{
    assert(id % 256 == src);
    assert(id / 256 == priority * 0x4_0000 + reserved * 0x2_0000 + page * 0x1_0000 + format * 256
        + specific);
    assert(id / 256 % 256 == specific);
    assert(id / 0x1_0000 == priority * 0x400 + reserved * 0x200 + page * 0x100 + format);
    assert(id / 0x1_0000 % 256 == format);
    assert(id / 0x100_0000 == priority * 4 + reserved * 2 + page);
    assert(id / 0x100_0000 % 2 == page);
    assert(id / 0x400_0000 == priority);
    lemma_group_fields(
        page as int,
        format as int,
        if format < 240 { 0 } else { specific as int },
    );
}

/// An identifier is made of the same fields: the group's own low byte where its format is
/// 240 or more, and the destination where it is not. The reserved bit is clear.
pub proof fn fields_make_an_identifier(
    priority: u8,
    page: u8,
    format: u8,
    extension: u8,
    src: u8,
    dst: u8,
)
    requires
        priority < 8,
        page < 2,
    ensures
        encoded(
            Priority(priority),
            Pgn((page * 0x2_0000 + format * 0x100 + extension) as u32),
            src,
            dst,
        ) == priority * 0x400_0000 + page * 0x100_0000 + format * 0x1_0000 + (if format < 240 {
            dst
        } else {
            extension
        }) * 0x100 + src,
{
    lemma_group_fields(page as int, format as int, extension as int);
}

/// A subscription to groups gets every frame in extended format whose group is at some place
/// of its list, and no frame of another group; a subscription without a list gets the
/// frames of every group. What it gets are the fields of the identifier, with all nodes as
/// the destination where the format has none, and the data as it is. No subscription gets a
/// frame in standard format.
pub proof fn subscriptions_select_by_group(
    pgns: Seq<Pgn>,
    f: FrameView,
    priority: u8,
    reserved: u8,
    page: u8,
    format: u8,
    specific: u8,
    src: u8,
)
    requires
        priority < 8,
        reserved < 2,
        page < 2,
        f.id == priority * 0x400_0000 + reserved * 0x200_0000 + page * 0x100_0000 + format
            * 0x1_0000 + specific * 0x100 + src,
    ensures
        ({
            let group = Pgn(
                (page * 0x2_0000 + format * 0x100 + (if format < 240 {
                    0int
                } else {
                    specific as int
                })) as u32,
            );
            &&& received(pgns, f) is Some <==> f.ext && (pgns.len() == 0 || pgns.contains(group))
            &&& received(pgns, f) matches Some(m) ==> {
                &&& m.priority == Priority(priority)
                &&& m.pgn == group
                &&& m.src == src
                &&& m.dst == (if format < 240 { specific } else { 0xFF })
                &&& m.data == f.data
            }
            &&& forall|i: int|
                f.ext && 0 <= i < pgns.len() && #[trigger] pgns[i] == group ==> received(pgns, f)
                    is Some
        }),
{
    fields_of_an_identifier(f.id, priority, reserved, page, format, specific, src);
}

/// The frame that carries a message is a classic data frame in extended format with the
/// message's data, whose identifier has the sending node as its source whatever the message
/// says.
pub proof fn messages_travel_in_extended_frames(m: J1939FrameView, src: u8)
    ensures
        ({
            let f = carried(m, src);
            &&& f.ext && !f.rtr && !f.fd && !f.brs && !f.esi && !f.xl
            &&& f.data == m.data
            &&& f.id % 256 == src
            &&& f.id == encoded(m.priority, m.pgn, src, m.dst)
            &&& f == carried(J1939FrameView { src: 0, ..m }, src)
        }),
{
}

} // verus!
