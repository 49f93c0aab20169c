//! End-to-end protection of CAN payloads.
//!
//! A protected message is a 10-byte header and the payload, all numbers little-endian:
//!
//! ```text
//! Bytes  0-1   data identifier
//! Bytes  2-3   source identifier
//! Bytes  4-7   sequence counter
//! Bytes  8-9   CRC-16/CCITT-FALSE over bytes 0-7 and the payload
//! Bytes 10+    payload
//! ```
use vstd::prelude::*;
use vstd::slice::slice_subrange;
use vstd::slice::slice_to_vec;

use crate::crc;
use crate::frame;
use crate::isotp;
use crate::text;

pub mod hmac_auth;

pub use hmac_auth::HmacSha256Auth;

verus! {

/// Size of the header in bytes.
pub const HEADER_SIZE: usize = 10;

// ---------------------------------------------------------------------------
// Message authentication
// ---------------------------------------------------------------------------

/// A keyed message authentication code.
///
/// The checksum of [`Protector`] and [`Receiver`] finds random transmission errors. It
/// holds no secret, so whoever sees a message can forge another one: where that matters,
/// a message also needs a tag from an implementation of this trait.
pub trait MessageAuthenticator: Send + Sync {
    /// The tag of `data` under `key`. Nothing is known of it until an implementation says
    /// what it is.
    open spec fn mac(&self, key: Seq<u8>, data: Seq<u8>) -> Seq<u8> {
        arbitrary()
    }

    /// Length of every tag. Nothing is known of it until an implementation says what it is.
    open spec fn tag_size(&self) -> nat {
        arbitrary()
    }

    /// Computes the tag of `data` under `key`.
    fn sign(&self, key: &[u8], data: &[u8]) -> (r: Vec<u8>)
        ensures
            r@ == self.mac(key@, data@),
            r@.len() == self.tag_size(),
    ;

    /// Whether `tag` is the tag of `data` under `key`: so the tag that `sign` computes is
    /// accepted, and no other. An implementation has to compare in constant time.
    fn verify(&self, key: &[u8], data: &[u8], tag: &[u8]) -> (r: bool)
        ensures
            r == (tag@ == self.mac(key@, data@)),
    ;

    /// Length in bytes of the tag that `sign` computes.
    fn tag_len(&self) -> (r: usize)
        ensures
            r == self.tag_size(),
    ;
}

// ---------------------------------------------------------------------------
// Types
// ---------------------------------------------------------------------------

/// The identifiers that both ends of a protected link agree on.
#[derive(Debug, Clone, Copy, PartialEq, Eq, Structural)]
pub struct Config {
    /// Logical data element identifier.
    pub data_id: u16,
    /// Sender identifier.
    pub source_id: u16,
}

/// Why a received message was refused.
#[derive(Debug, Clone, Copy, PartialEq, Eq, Structural)]
pub enum E2EErrorKind {
    /// The checksum in the header is not that of the message.
    CrcMismatch,
    /// The sequence counter is not the next one.
    SequenceGap,
    /// The message is shorter than a header.
    HeaderTooShort,
}

impl E2EErrorKind {
    /// The kind in words.
    pub open spec fn words(self) -> Seq<char> {
        match self {
            E2EErrorKind::CrcMismatch => "CRC mismatch"@,
            E2EErrorKind::SequenceGap => "sequence gap"@,
            E2EErrorKind::HeaderTooShort => "header too short"@,
        }
    }

    /// The kind in words.
    pub fn to_string(&self) -> (r: String)
        ensures
            r@ == self.words(),
    {
        match self {
            E2EErrorKind::CrcMismatch => "CRC mismatch".to_owned(),
            E2EErrorKind::SequenceGap => "sequence gap".to_owned(),
            E2EErrorKind::HeaderTooShort => "header too short".to_owned(),
        }
    }
}

/// A failed end-to-end check.
#[derive(Debug)]
pub struct E2EError {
    pub kind: E2EErrorKind,
    pub counter: u32,
    pub message: String,
}

/// The mathematical value of an [`E2EError`].
pub struct E2EErrorView {
    pub kind: E2EErrorKind,
    pub counter: u32,
    pub message: Seq<char>,
}

impl View for E2EError {
    type V = E2EErrorView;

    open spec fn view(&self) -> E2EErrorView {
        E2EErrorView { kind: self.kind, counter: self.counter, message: self.message@ }
    }
}

impl E2EError {
    /// The error in words.
    pub fn to_string(&self) -> (r: String)
        ensures
            r@ == "can/safety: E2E "@ + self@.kind.words() + " (counter="@ + text::number_text(
                self@.counter as nat,
                10,
            ) + "): "@ + self@.message,
    {
        let kind = self.kind.to_string();
        let counter = text::number_string(self.counter as u64, 10);
        let head = text::join5(
            "can/safety: E2E ",
            kind.as_str(),
            " (counter=",
            counter.as_str(),
            "): ",
        );
        text::join2(head.as_str(), self.message.as_str())
    }
}

// ---------------------------------------------------------------------------
// Wire format
// ---------------------------------------------------------------------------

/// The two bytes of `x`, the low one first.
pub open spec fn le16(x: u16) -> Seq<u8> {
    seq![(x & 0xFF) as u8, (x >> 8) as u8]
}

/// The four bytes of `x`, the low one first.
pub open spec fn le32(x: u32) -> Seq<u8> {
    seq![
        (x & 0xFF) as u8,
        ((x >> 8) & 0xFF) as u8,
        ((x >> 16) & 0xFF) as u8,
        (x >> 24) as u8,
    ]
}

/// The number that two bytes write, the low one first.
pub open spec fn from_le16(a: u8, b: u8) -> u16 {
    (a as u16) | ((b as u16) << 8)
}

/// The number that four bytes write, the low one first.
pub open spec fn from_le32(a: u8, b: u8, c: u8, d: u8) -> u32 {
    (a as u32) | ((b as u32) << 8) | ((c as u32) << 16) | ((d as u32) << 24)
}

proof fn lemma_le_round_trip(x: u16, y: u32)
    ensures
        from_le16(le16(x)[0], le16(x)[1]) == x,
        from_le32(le32(y)[0], le32(y)[1], le32(y)[2], le32(y)[3]) == y,
{
    assert(from_le16((x & 0xFF) as u8, (x >> 8) as u8) == x && from_le32(
        (y & 0xFF) as u8,
        ((y >> 8) & 0xFF) as u8,
        ((y >> 16) & 0xFF) as u8,
        (y >> 24) as u8,
    ) == y) by (bit_vector);
}

proof fn lemma_from_le_round_trip(a: u8, b: u8, c: u8, d: u8)
    ensures
        le16(from_le16(a, b)) =~= seq![a, b],
        le32(from_le32(a, b, c, d)) =~= seq![a, b, c, d],
        (from_le16(a, b) >> 8) as u8 == b,
        (from_le16(a, b) & 0xFF) as u8 == a,
{
    let x = from_le16(a, b);
    let y = from_le32(a, b, c, d);
    assert((x & 0xFF) as u8 == a && (x >> 8) as u8 == b && (y & 0xFF) as u8 == a && ((y >> 8)
        & 0xFF) as u8 == b && ((y >> 16) & 0xFF) as u8 == c && (y >> 24) as u8 == d) by (bit_vector)
        requires
            x == from_le16(a, b),
            y == from_le32(a, b, c, d),
    ;
}

/// The first eight bytes of a header: the identifiers and the sequence counter.
pub open spec fn header_fields(cfg: Config, seq: u32) -> Seq<u8> {
    le16(cfg.data_id) + le16(cfg.source_id) + le32(seq)
}

/// The checksum of a message.
pub open spec fn message_crc(cfg: Config, seq: u32, payload: Seq<u8>) -> u16 {
    crc::crc16(header_fields(cfg, seq) + payload)
}

/// The ten bytes of a header.
pub open spec fn header(cfg: Config, seq: u32, payload: Seq<u8>) -> Seq<u8> {
    header_fields(cfg, seq) + le16(message_crc(cfg, seq, payload))
}

/// A payload behind its header.
pub open spec fn protected(cfg: Config, seq: u32, payload: Seq<u8>) -> Seq<u8> {
    header(cfg, seq, payload) + payload
}

/// Continues a checksum computation from the register `crc` over `data`.
pub fn crc16_ccitt_false_cont(crc: u16, data: &[u8]) -> (r: u16)
    ensures
        r == crc::crc_from(crc, data@),
{
    crc::crc16_ccitt_false_cont(crc, data)
}

/// Builds the header of a message. The checksum covers the first eight header bytes and
/// the payload, and then fills the last two bytes.
pub fn build_header(data_id: u16, source_id: u16, seq: u32, payload: &[u8]) -> (r: [u8; 10])
    ensures
        r@ == header((Config { data_id, source_id }), seq, payload@),
{
    let fields: [u8; 8] = [
        (data_id & 0xFF) as u8,
        (data_id >> 8) as u8,
        (source_id & 0xFF) as u8,
        (source_id >> 8) as u8,
        (seq & 0xFF) as u8,
        ((seq >> 8) & 0xFF) as u8,
        ((seq >> 16) & 0xFF) as u8,
        (seq >> 24) as u8,
    ];
    let ghost cfg = Config { data_id, source_id };
    assert(fields@ =~= header_fields(cfg, seq));
    let mut sum: u16 = crc::crc16_ccitt_false(&fields);
    sum = crc16_ccitt_false_cont(sum, payload);
    proof {
        crc::crc_of_concatenation(crc::INIT, fields@, payload@);
    }
    let r: [u8; 10] = [
        fields[0],
        fields[1],
        fields[2],
        fields[3],
        fields[4],
        fields[5],
        fields[6],
        fields[7],
        (sum & 0xFF) as u8,
        (sum >> 8) as u8,
    ];
    assert(r@ =~= header(cfg, seq, payload@));
    r
}

// ---------------------------------------------------------------------------
// Protector
// ---------------------------------------------------------------------------

/// Puts a header in front of payloads before they are sent.
pub struct Protector {
    cfg: Config,
    seq: u32,
}

/// The mathematical value of a [`Protector`]: its identifiers and its next counter.
pub struct ProtectorView {
    pub cfg: Config,
    pub seq: u32,
}

impl View for Protector {
    type V = ProtectorView;

    closed spec fn view(&self) -> ProtectorView {
        ProtectorView { cfg: self.cfg, seq: self.seq }
    }
}

impl Protector {
    /// A protector whose first message has the counter 0.
    pub fn new(cfg: Config) -> (r: Protector)
        ensures
            r@ == (ProtectorView { cfg, seq: 0 }),
    {
        Protector { cfg, seq: 0 }
    }

    /// Puts the header in front of `payload`. Each call uses the next counter; after
    /// 4294967295 comes 0.
    pub fn protect(&mut self, payload: &[u8]) -> (r: Vec<u8>)
        ensures
            r@ == protected(old(self)@.cfg, old(self)@.seq, payload@),
            final(self)@ == (ProtectorView {
                cfg: old(self)@.cfg,
                seq: next_counter(old(self)@.seq),
            }),
    {
        let seq: u32 = self.seq;
        self.seq = seq.wrapping_add(1);
        let head = build_header(self.cfg.data_id, self.cfg.source_id, seq, payload);
        let mut out: Vec<u8> = slice_to_vec(&head);
        out.extend_from_slice(payload);
        assert(out@ =~= protected(old(self)@.cfg, old(self)@.seq, payload@));
        out
    }
}

// ---------------------------------------------------------------------------
// Receiver
// ---------------------------------------------------------------------------

/// The counter behind `seq`.
pub open spec fn next_counter(seq: u32) -> u32 {
    if seq == u32::MAX { 0 } else { (seq + 1) as u32 }
}

/// Checks headers and takes them off received messages.
pub struct Receiver {
    cfg: Config,
    last_seq: u32,
    first: bool,
}

/// The mathematical value of a [`Receiver`]: its identifiers and the counter of the last
/// intact message, if there was one.
pub struct ReceiverView {
    pub cfg: Config,
    pub last: Option<u32>,
}

impl View for Receiver {
    type V = ReceiverView;

    closed spec fn view(&self) -> ReceiverView {
        ReceiverView { cfg: self.cfg, last: if self.first { None } else { Some(self.last_seq) } }
    }
}

/// The counter that a message of at least header length carries.
pub open spec fn counter_of(data: Seq<u8>) -> u32 {
    from_le32(data[4], data[5], data[6], data[7])
}

/// The checksum that a message of at least header length carries.
pub open spec fn crc_field_of(data: Seq<u8>) -> u16 {
    from_le16(data[8], data[9])
}

/// Whether a message of at least header length came through whole: its header carries the
/// identifiers `cfg`, and its checksum is that of the bytes in front of it and of the
/// payload.
pub open spec fn intact(cfg: Config, data: Seq<u8>) -> bool {
    &&& data.take(8) == header_fields(cfg, counter_of(data))
    &&& crc_field_of(data) == crc::crc16(data.take(8) + data.skip(10))
}

/// Why a message of at least header length is not intact. Where the checksum is right for
/// the identifiers `cfg`, the header carries other ones.
pub open spec fn mismatch_text(cfg: Config, data: Seq<u8>) -> Seq<char> {
    let expected = message_crc(cfg, counter_of(data), data.skip(10));
    if crc_field_of(data) != expected {
        "CRC mismatch: received=0x"@ + text::padded_text(crc_field_of(data) as nat, 16, 4)
            + " expected=0x"@ + text::padded_text(expected as nat, 16, 4)
    } else {
        "CRC mismatch: the header carries other identifiers"@
    }
}

/// What a receiver makes of a message: the payload or the reason to refuse it.
pub open spec fn verdict(r: ReceiverView, data: Seq<u8>) -> Result<Seq<u8>, E2EErrorView> {
    let seq = counter_of(data);
    if data.len() < 10 {
        Err(
            E2EErrorView {
                kind: E2EErrorKind::HeaderTooShort,
                counter: 0,
                message: "need 10 bytes, got "@ + text::number_text(data.len(), 10),
            },
        )
    } else if !intact(r.cfg, data) {
        Err(
            E2EErrorView {
                kind: E2EErrorKind::CrcMismatch,
                counter: seq,
                message: mismatch_text(r.cfg, data),
            },
        )
    } else if r.last is Some && seq != next_counter(r.last->0) {
        Err(
            E2EErrorView {
                kind: E2EErrorKind::SequenceGap,
                counter: seq,
                message: "expected counter "@ + text::number_text(
                    next_counter(r.last->0) as nat,
                    10,
                ) + ", got "@ + text::number_text(seq as nat, 10),
            },
        )
    } else {
        Ok(data.skip(10))
    }
}

/// The receiver behind a message: it has seen the counter of every intact message, also of
/// one that it refuses for a gap.
pub open spec fn after(r: ReceiverView, data: Seq<u8>) -> ReceiverView {
    if data.len() >= 10 && intact(r.cfg, data) {
        ReceiverView { cfg: r.cfg, last: Some(counter_of(data)) }
    } else {
        r
    }
}

/// A message is intact exactly when its first four bytes are the identifiers and its
/// checksum is the one that they, its counter and its payload call for.
proof fn lemma_intact(cfg: Config, data: Seq<u8>)
    requires
        data.len() >= 10,
    ensures
        intact(cfg, data) <==> {
            &&& data[0] == le16(cfg.data_id)[0]
            &&& data[1] == le16(cfg.data_id)[1]
            &&& data[2] == le16(cfg.source_id)[0]
            &&& data[3] == le16(cfg.source_id)[1]
            &&& crc_field_of(data) == message_crc(cfg, counter_of(data), data.skip(10))
        },
{
    lemma_from_le_round_trip(data[4], data[5], data[6], data[7]);
    let fields = header_fields(cfg, counter_of(data));
    assert(le32(counter_of(data)) == seq![data[4], data[5], data[6], data[7]]);
    assert(fields[0] == le16(cfg.data_id)[0] && fields[1] == le16(cfg.data_id)[1] && fields[2]
        == le16(cfg.source_id)[0] && fields[3] == le16(cfg.source_id)[1]);
    assert(fields[4] == data[4] && fields[5] == data[5] && fields[6] == data[6] && fields[7]
        == data[7]);
    if data[0] == fields[0] && data[1] == fields[1] && data[2] == fields[2] && data[3]
        == fields[3] {
        assert(data.take(8) =~= fields);
    } else {
        assert(data.take(8)[0] == data[0] && data.take(8)[1] == data[1] && data.take(8)[2]
            == data[2] && data.take(8)[3] == data[3]);
    }
}

impl Receiver {
    /// A receiver that accepts any counter in its first message.
    pub fn new(cfg: Config) -> (r: Receiver)
        ensures
            r@ == (ReceiverView { cfg, last: None }),
    {
        Receiver { cfg, last_seq: 0, first: true }
    }

    /// Checks the header of `data` and returns the payload.
    ///
    /// The message is refused where it is shorter than a header, where its checksum is
    /// wrong or its header carries other identifiers, and where its counter does not follow
    /// the last one.
    pub fn unwrap(&mut self, data: &[u8]) -> (r: Result<Vec<u8>, E2EError>)
        ensures
            match r {
                Ok(payload) => verdict(old(self)@, data@) == Ok::<Seq<u8>, E2EErrorView>(payload@),
                Err(e) => verdict(old(self)@, data@) == Err::<Seq<u8>, E2EErrorView>(e@),
            },
            final(self)@ == after(old(self)@, data@),
    {
        if data.len() < HEADER_SIZE {
            let got = text::number_string(data.len() as u64, 10);
            return Err(
                E2EError {
                    kind: E2EErrorKind::HeaderTooShort,
                    counter: 0,
                    message: text::join2("need 10 bytes, got ", got.as_str()),
                },
            );
        }
        let seq: u32 = (data[4] as u32) | ((data[5] as u32) << 8) | ((data[6] as u32) << 16) | ((
        data[7] as u32) << 24);
        let received: u16 = (data[8] as u16) | ((data[9] as u16) << 8);
        let payload = slice_subrange(data, HEADER_SIZE, data.len());
        assert(payload@ =~= data@.skip(10));
        let expected_header = build_header(self.cfg.data_id, self.cfg.source_id, seq, payload);
        let expected: u16 = (expected_header[8] as u16) | ((expected_header[9] as u16) << 8);
        proof {
            let sum = message_crc(self.cfg, seq, payload@);
            assert(expected_header@[8] == le16(sum)[0]);
            assert(expected_header@[9] == le16(sum)[1]);
            lemma_le_round_trip(sum, seq);
            lemma_intact(self.cfg, data@);
        }
        if received != expected {
            let a = text::padded_string(received as u64, 16, 4);
            let b = text::padded_string(expected as u64, 16, 4);
            return Err(
                E2EError {
                    kind: E2EErrorKind::CrcMismatch,
                    counter: seq,
                    message: text::join4(
                        "CRC mismatch: received=0x",
                        a.as_str(),
                        " expected=0x",
                        b.as_str(),
                    ),
                },
            );
        }
        if data[0] != expected_header[0] || data[1] != expected_header[1] || data[2]
            != expected_header[2] || data[3] != expected_header[3] {
            return Err(
                E2EError {
                    kind: E2EErrorKind::CrcMismatch,
                    counter: seq,
                    message: "CRC mismatch: the header carries other identifiers".to_owned(),
                },
            );
        }
        let expected_seq: u32 = self.last_seq.wrapping_add(1);
        if !self.first && seq != expected_seq {
            self.last_seq = seq;
            let a = text::number_string(expected_seq as u64, 10);
            let b = text::number_string(seq as u64, 10);
            return Err(
                E2EError {
                    kind: E2EErrorKind::SequenceGap,
                    counter: seq,
                    message: text::join4("expected counter ", a.as_str(), ", got ", b.as_str()),
                },
            );
        }
        self.first = false;
        self.last_seq = seq;
        Ok(slice_to_vec(payload))
    }
}

// ---------------------------------------------------------------------------
// Laws
// ---------------------------------------------------------------------------

proof fn lemma_protected_fields(cfg: Config, seq: u32, payload: Seq<u8>)
    ensures
        protected(cfg, seq, payload).len() == 10 + payload.len(),
        counter_of(protected(cfg, seq, payload)) == seq,
        crc_field_of(protected(cfg, seq, payload)) == message_crc(cfg, seq, payload),
        protected(cfg, seq, payload).skip(10) == payload,
        protected(cfg, seq, payload).take(8) == header_fields(cfg, seq),
        intact(cfg, protected(cfg, seq, payload)),
{
    let m = protected(cfg, seq, payload);
    let sum = message_crc(cfg, seq, payload);
    assert(m[4] == le32(seq)[0]);
    assert(m[5] == le32(seq)[1]);
    assert(m[6] == le32(seq)[2]);
    assert(m[7] == le32(seq)[3]);
    assert(m[8] == le16(sum)[0]);
    assert(m[9] == le16(sum)[1]);
    lemma_le_round_trip(sum, seq);
    assert(m.skip(10) =~= payload);
    assert(m.take(8) =~= header_fields(cfg, seq));
}

/// A receiver that is in step with the protector gets the payload back, and stays in step.
/// A new receiver is in step with any protector.
pub proof fn protect_then_unwrap(cfg: Config, seq: u32, payload: Seq<u8>, last: Option<u32>)
    requires
        last is None || next_counter(last->0) == seq,
    ensures
        verdict(ReceiverView { cfg, last }, protected(cfg, seq, payload)) == Ok::<
            Seq<u8>,
            E2EErrorView,
        >(payload),
        after(ReceiverView { cfg, last }, protected(cfg, seq, payload)).last == Some(seq),
{
    lemma_protected_fields(cfg, seq, payload);
}

/// A message that does not follow the last one is refused with a sequence gap, whether
/// messages before it were lost or it comes again.
pub proof fn out_of_sequence_is_a_gap(cfg: Config, seq: u32, payload: Seq<u8>, last: u32)
    requires
        next_counter(last) != seq,
    ensures
        verdict(ReceiverView { cfg, last: Some(last) }, protected(cfg, seq, payload)) matches Err(e)
            && e.kind == E2EErrorKind::SequenceGap && e.counter == seq && e.message
            == "expected counter "@ + text::number_text(((last + 1) % 0x1_0000_0000) as nat, 10)
            + ", got "@ + text::number_text(seq as nat, 10),
{
    lemma_protected_fields(cfg, seq, payload);
}

/// A message that was accepted is refused when it is received again.
pub proof fn replay_is_refused(r: ReceiverView, data: Seq<u8>)
    requires
        verdict(r, data) is Ok,
    ensures
        verdict(after(r, data), data) matches Err(e) && e.kind == E2EErrorKind::SequenceGap,
{
}

/// A protected message never fits a classic frame: it takes CAN FD or a transport that
/// cuts it up.
pub proof fn protected_message_needs_more_than_a_classic_frame(
    cfg: Config,
    seq: u32,
    payload: Seq<u8>,
    id: u32,
)
    ensures
        protected(cfg, seq, payload).len() == 10 + payload.len(),
        !frame::plain_frame(id, protected(cfg, seq, payload)).valid(),
{
}

/// A payload of up to 4085 bytes that is protected, sent over ISO-TP and checked at the
/// other end arrives as it was.
pub proof fn protected_over_isotp(
    cfg: Config,
    seq: u32,
    payload: Seq<u8>,
    sender: isotp::Config,
    receiver: isotp::Config,
)
    requires
        payload.len() <= 4085,
    ensures
        ({
            let m = protected(cfg, seq, payload);
            &&& isotp::transfer(
                isotp::SenderView::start(sender, m),
                sender.outgoing(isotp::segment(m, 0)),
                isotp::ReceiverView { cfg: receiver, state: isotp::Reassembly::Idle },
                (isotp::segment_count(m) - 1) as nat,
            ) == Some(m)
            &&& verdict(ReceiverView { cfg, last: None }, m) == Ok::<Seq<u8>, E2EErrorView>(payload)
        }),
{
    let m = protected(cfg, seq, payload);
    protected_message_needs_more_than_a_classic_frame(cfg, seq, payload, 0);
    isotp::what_is_sent_is_received(sender, receiver, m);
    protect_then_unwrap(cfg, seq, payload, None);
}

/// A message under other identifiers than the receiver's is refused.
pub proof fn other_identifiers_are_a_crc_mismatch(
    cfg: Config,
    seq: u32,
    payload: Seq<u8>,
    r: ReceiverView,
)
    requires
        cfg != r.cfg,
    ensures
        verdict(r, protected(cfg, seq, payload)) matches Err(e) && e.kind
            == E2EErrorKind::CrcMismatch,
{
    let m = protected(cfg, seq, payload);
    lemma_protected_fields(cfg, seq, payload);
    lemma_intact(cfg, m);
    lemma_intact(r.cfg, m);
    lemma_le_round_trip(cfg.data_id, 0);
    lemma_le_round_trip(cfg.source_id, 0);
    lemma_le_round_trip(r.cfg.data_id, 0);
    lemma_le_round_trip(r.cfg.source_id, 0);
}

/// The bytes of a message that the checksum covers, with the checksum behind.
pub open spec fn checked_bits(data: Seq<u8>) -> Seq<u8> {
    crc::codeword(data.take(8) + data.skip(10), crc_field_of(data))
}

/// One, two or three wrong bits in a message are always noticed, in messages of up to
/// 32767 bits and by any receiver.
pub proof fn few_wrong_bits_are_a_crc_mismatch(
    cfg: Config,
    seq: u32,
    payload: Seq<u8>,
    r: ReceiverView,
    received: Seq<u8>,
)
    requires
        received.len() == 10 + payload.len(),
        8 * (10 + payload.len()) <= 32767,
        1 <= crc::bit_errors(
            checked_bits(protected(cfg, seq, payload)),
            checked_bits(received),
        ) <= 3,
    ensures
        verdict(r, received) matches Err(e) && e.kind == E2EErrorKind::CrcMismatch,
{
    lemma_protected_fields(cfg, seq, payload);
    crc::crc_detects_up_to_three_bit_errors(
        header_fields(cfg, seq) + payload,
        received.take(8) + received.skip(10),
        crc_field_of(received),
    );
}

/// A single wrong byte anywhere in a message is always noticed, whatever its bits and
/// however long the message.
pub proof fn a_wrong_byte_is_a_crc_mismatch(
    r: ReceiverView,
    seq: u32,
    payload: Seq<u8>,
    i: int,
    b: u8,
)
    requires
        0 <= i < 10 + payload.len(),
        b != protected(r.cfg, seq, payload)[i],
    ensures
        verdict(r, protected(r.cfg, seq, payload).update(i, b)) matches Err(e) && e.kind
            == E2EErrorKind::CrcMismatch,
{
    let sent = protected(r.cfg, seq, payload);
    let got = sent.update(i, b);
    lemma_protected_fields(r.cfg, seq, payload);
    let x = header_fields(r.cfg, seq) + payload;
    let y = got.take(8) + got.skip(10);
    if i == 8 || i == 9 {
        assert(y =~= x);
        lemma_from_le_round_trip(sent[8], sent[9], 0, 0);
        lemma_from_le_round_trip(got[8], got[9], 0, 0);
        assert(crc_field_of(got) != crc_field_of(sent));
    } else {
        let j = if i < 8 { i } else { i - 2 };
        assert(sent.take(8) + sent.skip(10) == x);
        assert(y =~= x.update(j, b));
        crc::crc_detects_a_wrong_byte(crc::INIT, x, j, b);
    }
}

/// Errors in two neighbouring bytes are always noticed, whatever their bits, however long
/// the message and by any receiver, where the checksum covers both bytes or they are the
/// checksum. The error gives the counter that was received.
pub proof fn two_neighbouring_wrong_bytes_are_a_crc_mismatch(
    cfg: Config,
    seq: u32,
    payload: Seq<u8>,
    r: ReceiverView,
    received: Seq<u8>,
    i: int,
)
    requires
        received.len() == 10 + payload.len(),
        0 <= i < received.len() - 1,
        i != 7,
        i != 9,
        received != protected(cfg, seq, payload),
        forall|k: int|
            0 <= k < received.len() && k != i && k != i + 1 ==> #[trigger] received[k]
                == protected(cfg, seq, payload)[k],
    ensures
        verdict(r, received) matches Err(e) && e.kind == E2EErrorKind::CrcMismatch && e.counter
            == counter_of(received),
{
    let sent = protected(cfg, seq, payload);
    lemma_protected_fields(cfg, seq, payload);
    assert(received[i] != sent[i] || received[i + 1] != sent[i + 1]) by {
        if received[i] == sent[i] && received[i + 1] == sent[i + 1] {
            assert(received =~= sent);
        }
    }
    let x = header_fields(cfg, seq) + payload;
    let y = received.take(8) + received.skip(10);
    assert(sent.take(8) + sent.skip(10) == x);
    if i == 8 {
        assert(y =~= x);
        lemma_from_le_round_trip(sent[8], sent[9], 0, 0);
        lemma_from_le_round_trip(received[8], received[9], 0, 0);
        assert(crc_field_of(received) != crc_field_of(sent));
    } else {
        let j = if i < 8 { i } else { i - 2 };
        assert forall|k: int| 0 <= k < x.len() implies #[trigger] x[k] == sent[if k < 8 {
            k
        } else {
            k + 2
        }] by {}
        assert forall|k: int| 0 <= k < y.len() implies #[trigger] y[k] == received[if k < 8 {
            k
        } else {
            k + 2
        }] by {}
        crc::crc_detects_two_neighbouring_bytes(crc::INIT, x, y, j);
    }
}

/// Where the header has its fields, all of them with the low byte first: the two
/// identifiers, the counter, and the checksum of what stands in front of it and of the
/// payload. The payload follows as it is.
pub proof fn layout_of_a_protected_message(cfg: Config, seq: u32, payload: Seq<u8>)
    ensures
        ({
            let m = protected(cfg, seq, payload);
            &&& m.len() == 10 + payload.len()
            &&& m[0] + 256 * m[1] == cfg.data_id
            &&& m[2] + 256 * m[3] == cfg.source_id
            &&& m[4] + 256 * m[5] + 65536 * m[6] + 16777216 * m[7] == seq
            &&& m[8] + 256 * m[9] == crc::crc16(m.subrange(0, 8) + payload)
            &&& m.subrange(10, m.len() as int) == payload
        }),
{
    let m = protected(cfg, seq, payload);
    let a = cfg.data_id;
    let b = cfg.source_id;
    let s = message_crc(cfg, seq, payload);
    assert(m.subrange(0, 8) =~= header_fields(cfg, seq));
    assert(m.subrange(10, m.len() as int) =~= payload);
    assert((a & 0xFF) as u8 + 256 * ((a >> 8) as u8) == a && (b & 0xFF) as u8 + 256 * ((
    b >> 8) as u8) == b && (s & 0xFF) as u8 + 256 * ((s >> 8) as u8) == s && (seq & 0xFF) as u8
        + 256 * (((seq >> 8) & 0xFF) as u8) + 65536 * (((seq >> 16) & 0xFF) as u8) + 16777216 * ((
    seq >> 24) as u8) == seq) by (bit_vector);
}

/// What a receiver makes of any message at all. One shorter than a header is too short. One
/// whose bytes and checksum do not fit its identifiers is damaged, and is forgotten. Any
/// other is taken note of: its counter has to follow the last one, going back to 0 after the
/// largest, unless it is the first; then the bytes behind the header are the payload.
pub proof fn what_a_receiver_accepts(r: ReceiverView, data: Seq<u8>)
    ensures
        data.len() < 10 ==> (verdict(r, data) matches Err(e) && e.kind
            == E2EErrorKind::HeaderTooShort) && after(r, data) == r,
        data.len() >= 10 ==> ({
            let counter = data[4] + 256 * data[5] + 65536 * data[6] + 16777216 * data[7];
            let sound = data[0] + 256 * data[1] == r.cfg.data_id && data[2] + 256 * data[3]
                == r.cfg.source_id && data[8] + 256 * data[9] == crc::crc16(
                data.subrange(0, 8) + data.subrange(10, data.len() as int),
            );
            let next = match r.last {
                Some(n) => counter == (n + 1) % 0x1_0000_0000,
                None => true,
            };
            &&& !sound ==> (verdict(r, data) matches Err(e) && e.kind == E2EErrorKind::CrcMismatch)
                && after(r, data) == r
            &&& sound ==> after(r, data).last == Some(counter as u32) && after(r, data).cfg == r.cfg
            &&& sound && next ==> verdict(r, data) == Ok::<Seq<u8>, E2EErrorView>(
                data.subrange(10, data.len() as int),
            )
            &&& sound && !next ==> (verdict(r, data) matches Err(e) && e.kind
                == E2EErrorKind::SequenceGap && e.counter == counter)
        }),
{
    if data.len() >= 10 {
        let (a, b, c, d) = (data[4], data[5], data[6], data[7]);
        let (p, q, x, y) = (data[0], data[1], data[2], data[3]);
        let (s, t) = (data[8], data[9]);
        let n = counter_of(data);
        let sum = crc_field_of(data);
        let id = r.cfg.data_id;
        let source = r.cfg.source_id;
        lemma_intact(r.cfg, data);
        assert(data.take(8) =~= data.subrange(0, 8));
        assert(data.skip(10) =~= data.subrange(10, data.len() as int));
        assert(n == a + 256 * b + 65536 * c + 16777216 * d && sum == s + 256 * t && (p + 256 * q
            == id <==> p == (id & 0xFF) as u8 && q == (id >> 8) as u8) && (x + 256 * y == source
            <==> x == (source & 0xFF) as u8 && y == (source >> 8) as u8)) by (bit_vector)
            requires
                n == from_le32(a, b, c, d),
                sum == from_le16(s, t),
        ;
        if intact(r.cfg, data) {
            assert(data.take(8) == header_fields(r.cfg, n));
        }
        lemma_intact_from_fields(r.cfg, data);
    }
}

/// A message whose identifiers are right is intact exactly when its checksum is that of its
/// own bytes.
proof fn lemma_intact_from_fields(cfg: Config, data: Seq<u8>)
    requires
        data.len() >= 10,
    ensures
        intact(cfg, data) <==> {
            &&& data[0] == le16(cfg.data_id)[0]
            &&& data[1] == le16(cfg.data_id)[1]
            &&& data[2] == le16(cfg.source_id)[0]
            &&& data[3] == le16(cfg.source_id)[1]
            &&& crc_field_of(data) == crc::crc16(data.take(8) + data.skip(10))
        },
{
    lemma_intact(cfg, data);
    lemma_from_le_round_trip(data[4], data[5], data[6], data[7]);
    let fields = header_fields(cfg, counter_of(data));
    if data[0] == fields[0] && data[1] == fields[1] && data[2] == fields[2] && data[3]
        == fields[3] {
        assert(le32(counter_of(data)) == seq![data[4], data[5], data[6], data[7]]);
        assert(fields[4] == data[4] && fields[5] == data[5] && fields[6] == data[6] && fields[7]
            == data[7]);
        assert(data.take(8) =~= fields);
    }
}

/// Counters go up by one and start again at 0 behind the largest.
pub proof fn counters_go_round(seq: u32)
    ensures
        next_counter(seq) == (seq + 1) % 0x1_0000_0000,
{
}

/// A checksum that is not the expected one is refused with both in four hexadecimal digits.
pub proof fn mismatches_show_both_checksums(r: ReceiverView, data: Seq<u8>)
    requires
        data.len() >= 10,
    ensures
        ({
            let received = data[8] + 256 * data[9];
            let expected = crc::crc16(header_fields(r.cfg, counter_of(data)) + data.skip(10));
            received != expected ==> {
                &&& verdict(r, data) matches Err(e)
                &&& e.kind == E2EErrorKind::CrcMismatch
                &&& e.message == "CRC mismatch: received=0x"@ + text::padded_text(
                    received as nat,
                    16,
                    4,
                ) + " expected=0x"@ + text::padded_text(expected as nat, 16, 4)
            }
        }),
{
    let (lo, hi) = (data[8], data[9]);
    assert((lo as u16) | ((hi as u16) << 8) == lo + 256 * hi) by (bit_vector);
    lemma_intact(r.cfg, data);
}

} // verus!
