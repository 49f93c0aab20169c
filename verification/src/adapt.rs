//! CAN frames as relay messages, and the queue between a bus and a relay subscriber.
use vstd::prelude::*;
use vstd::slice::slice_to_vec;
use std::collections::VecDeque;

use crate::error::{Error, ErrorView};
use crate::frame::{Frame, FrameView};
use crate::relay;
use crate::relay::{
    BackPressurePolicy, Message, MessageView, Protocol, SubscriberOptions, Version,
};
use crate::text;
use crate::textmap::TextMap;
use crate::time::Timestamp;

verus! {

// ---------------------------------------------------------------------------
// Frames to messages
// ---------------------------------------------------------------------------

/// The metadata of a frame. The flags of every format are always there; the error state
/// indicator and the fields of CAN XL only where they are set.
pub open spec fn meta_of(f: FrameView) -> Map<Seq<char>, Seq<char>> {
    let m0 = Map::<Seq<char>, Seq<char>>::empty().insert("can.ext"@, text::flag_text(f.ext)).insert(
        "can.fd"@,
        text::flag_text(f.fd),
    ).insert("can.rtr"@, text::flag_text(f.rtr)).insert("can.brs"@, text::flag_text(f.brs));
    let m1 = if f.esi { m0.insert("can.esi"@, "true"@) } else { m0 };
    if f.xl {
        let m2 = m1.insert("can.xl"@, "true"@);
        let m3 = if f.sdt != 0 {
            m2.insert("can.sdt"@, text::number_text(f.sdt as nat, 10))
        } else {
            m2
        };
        let m4 = if f.vcid != 0 {
            m3.insert("can.vcid"@, text::number_text(f.vcid as nat, 10))
        } else {
            m3
        };
        let m5 = if f.af != 0 {
            m4.insert("can.af"@, text::number_text(f.af as nat, 10))
        } else {
            m4
        };
        if f.sec { m5.insert("can.sec"@, "true"@) } else { m5 }
    } else {
        m1
    }
}

/// The message that stands for a frame at the given time.
pub open spec fn message_of(f: FrameView, timestamp: Timestamp) -> MessageView {
    MessageView {
        protocol: Protocol::Can,
        version: Version { major: 1, minor: 1 },
        id: text::number_text(f.id as nat, 10),
        payload: f.data,
        timestamp,
        seq: 0,
        meta: meta_of(f),
    }
}

/// The message that stands for a frame at the given time.
pub fn to_message_at(f: &Frame, timestamp: Timestamp) -> (r: Message)
    ensures
        r.wf(),
        r@ == message_of(f@, timestamp),
{
    let mut meta: TextMap<String> = TextMap::new();
    meta.insert("can.ext".to_owned(), text::flag_string(f.ext));
    meta.insert("can.fd".to_owned(), text::flag_string(f.fd));
    meta.insert("can.rtr".to_owned(), text::flag_string(f.rtr));
    meta.insert("can.brs".to_owned(), text::flag_string(f.brs));
    if f.esi {
        meta.insert("can.esi".to_owned(), "true".to_owned());
    }
    if f.xl {
        meta.insert("can.xl".to_owned(), "true".to_owned());
        if f.sdt != 0 {
            meta.insert("can.sdt".to_owned(), text::number_string(f.sdt as u64, 10));
        }
        if f.vcid != 0 {
            meta.insert("can.vcid".to_owned(), text::number_string(f.vcid as u64, 10));
        }
        if f.af != 0 {
            meta.insert("can.af".to_owned(), text::number_string(f.af as u64, 10));
        }
        if f.sec {
            meta.insert("can.sec".to_owned(), "true".to_owned());
        }
    }
    Message {
        protocol: Protocol::Can,
        version: Version::default(),
        id: text::number_string(f.id as u64, 10),
        payload: slice_to_vec(&f.data),
        timestamp,
        seq: 0,
        meta,
    }
}

/// The message that stands for a frame at this moment.
pub fn to_message(f: &Frame) -> (r: Message)
    ensures
        r.wf(),
        r@ == message_of(f@, r@.timestamp),
{
    to_message_at(f, Timestamp::now())
}

// ---------------------------------------------------------------------------
// Messages to frames
// ---------------------------------------------------------------------------

/// Whether the metadata sets a flag.
pub open spec fn flag_in(meta: Map<Seq<char>, Seq<char>>, key: Seq<char>) -> bool {
    meta.dom().contains(key) && meta[key] == "true"@
}

/// A number of the metadata, or 0 where it is missing or cannot be read.
pub open spec fn number_in(meta: Map<Seq<char>, Seq<char>>, key: Seq<char>, max: nat) -> nat {
    if meta.dom().contains(key) {
        match text::parse_number(meta[key], 10, max) {
            Some(n) => n,
            None => 0,
        }
    } else {
        0
    }
}

/// The frame that a message stands for.
pub open spec fn frame_of(m: MessageView) -> Result<FrameView, ErrorView> {
    match text::parse_number(m.id, 10, u32::MAX as nat) {
        None => Err(ErrorView::InvalidFrame("invalid CAN ID: '"@ + m.id + "'"@)),
        Some(id) => Ok(
            FrameView {
                id: id as u32,
                ext: flag_in(m.meta, "can.ext"@),
                rtr: flag_in(m.meta, "can.rtr"@),
                fd: flag_in(m.meta, "can.fd"@),
                brs: flag_in(m.meta, "can.brs"@),
                esi: flag_in(m.meta, "can.esi"@),
                xl: flag_in(m.meta, "can.xl"@),
                sdt: number_in(m.meta, "can.sdt"@, 255) as u8,
                vcid: number_in(m.meta, "can.vcid"@, 255) as u8,
                af: number_in(m.meta, "can.af"@, u32::MAX as nat) as u32,
                sec: flag_in(m.meta, "can.sec"@),
                data: m.payload,
            },
        ),
    }
}

fn flag(meta: &TextMap<String>, key: &str) -> (r: bool)
    requires
        meta.wf(),
    ensures
        r == flag_in(meta@, key@),
{
    match meta.get(key) {
        Some(v) => text::same_text(v.as_str(), "true"),
        None => false,
    }
}

fn number(meta: &TextMap<String>, key: &str, max: u64) -> (r: u64)
    requires
        meta.wf(),
    ensures
        r == number_in(meta@, key@, max as nat),
        r <= max,
{
    match meta.get(key) {
        Some(v) => {
            let chars = text::chars_of(v.as_str());
            match text::parse_unsigned(&chars, 10, max) {
                Some(n) => n,
                None => 0,
            }
        },
        None => 0,
    }
}

/// The frame that a message stands for. The message's identifier has to be a number of 32
/// bits; flags and numbers that are missing have their default value.
pub fn from_message(m: &Message) -> (r: Result<Frame, Error>)
    requires
        m.wf(),
    ensures
        match r {
            Ok(f) => frame_of(m@) == Ok::<FrameView, ErrorView>(f@),
            Err(e) => frame_of(m@) == Err::<FrameView, ErrorView>(e@),
        },
{
    let chars = text::chars_of(m.id.as_str());
    let id: u64 = match text::parse_unsigned(&chars, 10, 0xFFFF_FFFF) {
        Some(v) => v,
        None => return Err(
            Error::invalid_frame(text::join3("invalid CAN ID: '", m.id.as_str(), "'")),
        ),
    };
    Ok(
        Frame {
            id: id as u32,
            ext: flag(&m.meta, "can.ext"),
            rtr: flag(&m.meta, "can.rtr"),
            fd: flag(&m.meta, "can.fd"),
            brs: flag(&m.meta, "can.brs"),
            esi: flag(&m.meta, "can.esi"),
            xl: flag(&m.meta, "can.xl"),
            sdt: number(&m.meta, "can.sdt", 255) as u8,
            vcid: number(&m.meta, "can.vcid", 255) as u8,
            af: number(&m.meta, "can.af", 0xFFFF_FFFF) as u32,
            sec: flag(&m.meta, "can.sec"),
            data: slice_to_vec(&m.payload),
        },
    )
}

// ---------------------------------------------------------------------------
// Adapter
// ---------------------------------------------------------------------------

/// The relay error that a bus error is reported as. An error that the relay layer does not
/// know is reported as a closed bus.
pub open spec fn reported(e: ErrorView) -> relay::Error {
    match crate::error::sentinel(e) {
        Some(s) => s,
        None => relay::Error::Closed,
    }
}

/// Presents a CAN bus as a relay node. One value numbers the messages of one subscription.
#[derive(Debug, Clone, Copy)]
pub struct CanAdapter {
    /// Number of the next message.
    pub next_seq: u64,
}

impl CanAdapter {
    /// An adapter whose first message has the number 0.
    pub fn new() -> (r: CanAdapter)
        ensures
            r.next_seq == 0,
    {
        CanAdapter { next_seq: 0 }
    }

    /// The protocol of the bus.
    pub fn protocol(&self) -> (r: Protocol)
        ensures
            r == Protocol::Can,
    {
        Protocol::Can
    }

    /// The frame to send for a message. A message that stands for no frame is reported as
    /// a missing connection, since the relay layer has no error of its own for it.
    pub fn frame_to_send(&self, msg: &Message) -> (r: Result<Frame, relay::Error>)
        requires
            msg.wf(),
        ensures
            match r {
                Ok(f) => frame_of(msg@) == Ok::<FrameView, ErrorView>(f@),
                Err(e) => frame_of(msg@) is Err && e == relay::Error::NotConnected,
            },
    {
        match from_message(msg) {
            Ok(f) => Ok(f),
            Err(_) => Err(relay::Error::NotConnected),
        }
    }

    /// The relay error that a bus error is reported as.
    pub fn report(&self, e: &Error) -> (r: relay::Error)
        ensures
            r == reported(e@),
    {
        match e.kind() {
            Some(s) => s,
            None => relay::Error::Closed,
        }
    }

    /// The options with which the adapter subscribes to the bus: all frames, and a queue
    /// twice as long as the subscriber's own.
    pub fn bus_options(&self, opts: &SubscriberOptions) -> (r: SubscriberOptions)
        requires
            opts.depth(64) * 2 <= usize::MAX,
        ensures
            r == (SubscriberOptions {
                channel_depth: (opts.depth(64) * 2) as usize,
                back_pressure: BackPressurePolicy::DropNewest,
                rate_limit_per_sec: 0,
            }),
    {
        SubscriberOptions {
            channel_depth: opts.chan_depth(64) * 2,
            back_pressure: BackPressurePolicy::DropNewest,
            rate_limit_per_sec: 0,
        }
    }

    /// The queue between the bus and a subscriber.
    pub fn queue(&self, opts: &SubscriberOptions) -> (r: AdaptQueue)
        ensures
            r.wf(),
            r@ == AdaptQueueView::fresh(opts.depth(64) as nat, opts.back_pressure),
    {
        AdaptQueue::new(opts.chan_depth(64), opts.back_pressure)
    }

    /// The next message of a subscription, at the given time.
    pub fn next_message_at(&mut self, f: &Frame, timestamp: Timestamp) -> (r: Message)
        requires
            old(self).next_seq < u64::MAX,
        ensures
            r.wf(),
            r@ == (MessageView { seq: old(self).next_seq, ..message_of(f@, timestamp) }),
            final(self).next_seq == old(self).next_seq + 1,
    {
        let mut msg = to_message_at(f, timestamp);
        msg.seq = self.next_seq;
        self.next_seq = self.next_seq + 1;
        msg
    }

    /// The next message of a subscription, at this moment.
    pub fn next_message(&mut self, f: &Frame) -> (r: Message)
        requires
            old(self).next_seq < u64::MAX,
        ensures
            r.wf(),
            r@ == (MessageView { seq: old(self).next_seq, ..message_of(f@, r@.timestamp) }),
            final(self).next_seq == old(self).next_seq + 1,
    {
        self.next_message_at(f, Timestamp::now())
    }
}

// ---------------------------------------------------------------------------
// Queue
// ---------------------------------------------------------------------------

/// A bounded queue of messages.
#[derive(Debug)]
pub struct AdaptQueue {
    queue: VecDeque<Message>,
    capacity: usize,
    policy: BackPressurePolicy,
    closed: bool,
}

/// The mathematical value of an [`AdaptQueue`].
#[verifier::ext_equal]
pub struct AdaptQueueView {
    pub queue: Seq<MessageView>,
    pub capacity: nat,
    pub policy: BackPressurePolicy,
    pub closed: bool,
}

impl View for AdaptQueue {
    type V = AdaptQueueView;

    closed spec fn view(&self) -> AdaptQueueView {
        AdaptQueueView {
            queue: Seq::new(self.queue@.len(), |i: int| self.queue@[i]@),
            capacity: self.capacity as nat,
            policy: self.policy,
            closed: self.closed,
        }
    }
}

/// What became of a message that was pushed.
#[derive(Debug)]
pub enum PushOutcome {
    /// It waits in the queue.
    Queued,
    /// The queue was full, and the message is lost.
    Dropped,
    /// The queue is full, and the message has to be pushed again when there is room.
    Full(Message),
}

/// What a reader gets when it asks for a message.
#[derive(Debug)]
pub enum PopOutcome {
    /// The oldest waiting message.
    Got(Message),
    /// No message waits, and none will come: the queue is closed.
    Ended,
    /// No message waits yet.
    Pending,
}

impl AdaptQueueView {
    /// An open queue without messages. It has room for one message at least.
    pub open spec fn fresh(capacity: nat, policy: BackPressurePolicy) -> AdaptQueueView {
        AdaptQueueView {
            queue: Seq::empty(),
            capacity: if capacity == 0 { 1 } else { capacity },
            policy,
            closed: false,
        }
    }

    /// The waiting messages after `m` was pushed. A full queue drops its oldest message,
    /// or leaves `m` out, as its policy says.
    pub open spec fn queue_with(self, m: MessageView) -> Seq<MessageView> {
        if self.queue.len() < self.capacity {
            self.queue.push(m)
        } else if self.policy == BackPressurePolicy::DropOldest {
            self.queue.skip(1).push(m)
        } else {
            self.queue
        }
    }
}

impl AdaptQueue {
    /// There is room for a message, and no more messages than room.
    pub closed spec fn wf(&self) -> bool {
        &&& 1 <= self.capacity
        &&& self.queue@.len() <= self.capacity
        &&& forall|i: int| 0 <= i < self.queue@.len() ==> (#[trigger] self.queue@[i]).wf()
    }

    /// An open queue for `capacity` messages, at least one.
    pub fn new(capacity: usize, policy: BackPressurePolicy) -> (r: AdaptQueue)
        ensures
            r.wf(),
            r@ == AdaptQueueView::fresh(capacity as nat, policy),
    {
        let r = AdaptQueue {
            queue: VecDeque::new(),
            capacity: if capacity == 0 { 1 } else { capacity },
            policy,
            closed: false,
        };
        assert(r@.queue =~= Seq::empty());
        r
    }

    /// Pushes a message as the policy says.
    pub fn push(&mut self, msg: Message) -> (r: PushOutcome)
        requires
            old(self).wf(),
            msg.wf(),
        ensures
            final(self).wf(),
            final(self)@ == (AdaptQueueView { queue: old(self)@.queue_with(msg@), ..old(self)@ }),
            final(self)@.queue.len() <= final(self)@.capacity,
            match r {
                PushOutcome::Queued => old(self)@.queue.len() < old(self)@.capacity
                    || old(self)@.policy == BackPressurePolicy::DropOldest,
                PushOutcome::Dropped => old(self)@.queue.len() >= old(self)@.capacity
                    && old(self)@.policy == BackPressurePolicy::DropNewest,
                PushOutcome::Full(m) => old(self)@.queue.len() >= old(self)@.capacity
                    && old(self)@.policy == BackPressurePolicy::Block && m == msg,
            },
    {
        let ghost before = self@;
        if self.queue.len() >= self.capacity {
            match self.policy {
                BackPressurePolicy::DropNewest => {
                    return PushOutcome::Dropped;
                },
                BackPressurePolicy::DropOldest => {
                    let _ = self.queue.pop_front();
                },
                BackPressurePolicy::Block => {
                    return PushOutcome::Full(msg);
                },
            }
        }
        self.queue.push_back(msg);
        assert(self@.queue =~= before.queue_with(msg@));
        PushOutcome::Queued
    }

    /// Takes the oldest waiting message.
    pub fn pop(&mut self) -> (r: PopOutcome)
        requires
            old(self).wf(),
        ensures
            final(self).wf(),
            match r {
                PopOutcome::Got(m) => {
                    &&& old(self)@.queue.len() > 0
                    &&& m@ == old(self)@.queue[0]
                    &&& m.wf()
                    &&& final(self)@ == (AdaptQueueView {
                        queue: old(self)@.queue.skip(1),
                        ..old(self)@
                    })
                },
                PopOutcome::Ended => old(self)@.queue.len() == 0 && old(self)@.closed
                    && final(self)@ == old(self)@,
                PopOutcome::Pending => old(self)@.queue.len() == 0 && !old(self)@.closed
                    && final(self)@ == old(self)@,
            },
    {
        let ghost before = self@;
        match self.queue.pop_front() {
            Some(m) => {
                assert(self@.queue =~= before.queue.skip(1));
                PopOutcome::Got(m)
            },
            None => {
                assert(self@.queue =~= before.queue);
                if self.closed {
                    PopOutcome::Ended
                } else {
                    PopOutcome::Pending
                }
            },
        }
    }

    /// Closes the queue. Waiting messages can still be taken.
    pub fn close(&mut self)
        requires
            old(self).wf(),
        ensures
            final(self).wf(),
            final(self)@ == (AdaptQueueView { closed: true, ..old(self)@ }),
    {
        self.closed = true;
        assert(self@ =~= (AdaptQueueView { closed: true, ..old(self)@ }));
    }
}

// ---------------------------------------------------------------------------
// Laws
// ---------------------------------------------------------------------------

proof fn lemma_keys_differ()
    ensures
        "can.ext"@ != "can.fd"@,
        "can.ext"@ != "can.rtr"@,
        "can.ext"@ != "can.brs"@,
        "can.ext"@ != "can.esi"@,
        "can.ext"@ != "can.xl"@,
        "can.ext"@ != "can.sdt"@,
        "can.ext"@ != "can.vcid"@,
        "can.ext"@ != "can.af"@,
        "can.ext"@ != "can.sec"@,
        "can.fd"@ != "can.rtr"@,
        "can.fd"@ != "can.brs"@,
        "can.fd"@ != "can.esi"@,
        "can.fd"@ != "can.xl"@,
        "can.fd"@ != "can.sdt"@,
        "can.fd"@ != "can.vcid"@,
        "can.fd"@ != "can.af"@,
        "can.fd"@ != "can.sec"@,
        "can.rtr"@ != "can.brs"@,
        "can.rtr"@ != "can.esi"@,
        "can.rtr"@ != "can.xl"@,
        "can.rtr"@ != "can.sdt"@,
        "can.rtr"@ != "can.vcid"@,
        "can.rtr"@ != "can.af"@,
        "can.rtr"@ != "can.sec"@,
        "can.brs"@ != "can.esi"@,
        "can.brs"@ != "can.xl"@,
        "can.brs"@ != "can.sdt"@,
        "can.brs"@ != "can.vcid"@,
        "can.brs"@ != "can.af"@,
        "can.brs"@ != "can.sec"@,
        "can.esi"@ != "can.xl"@,
        "can.esi"@ != "can.sdt"@,
        "can.esi"@ != "can.vcid"@,
        "can.esi"@ != "can.af"@,
        "can.esi"@ != "can.sec"@,
        "can.xl"@ != "can.sdt"@,
        "can.xl"@ != "can.vcid"@,
        "can.xl"@ != "can.af"@,
        "can.xl"@ != "can.sec"@,
        "can.sdt"@ != "can.vcid"@,
        "can.sdt"@ != "can.af"@,
        "can.sdt"@ != "can.sec"@,
        "can.vcid"@ != "can.af"@,
        "can.vcid"@ != "can.sec"@,
        "can.af"@ != "can.sec"@,
        "true"@ != "false"@,
{
    reveal_strlit("can.ext");
    reveal_strlit("can.fd");
    reveal_strlit("can.rtr");
    reveal_strlit("can.brs");
    reveal_strlit("can.esi");
    reveal_strlit("can.xl");
    reveal_strlit("can.sdt");
    reveal_strlit("can.vcid");
    reveal_strlit("can.af");
    reveal_strlit("can.sec");
    reveal_strlit("true");
    reveal_strlit("false");
    assert("can.ext"@[4] == 'e' && "can.ext"@[5] == 'x' && "can.ext"@.len() == 7);
    assert("can.rtr"@[4] == 'r' && "can.rtr"@.len() == 7);
    assert("can.brs"@[4] == 'b' && "can.brs"@.len() == 7);
    assert("can.esi"@[4] == 'e' && "can.esi"@[5] == 's' && "can.esi"@.len() == 7);
    assert("can.sdt"@[4] == 's' && "can.sdt"@[5] == 'd' && "can.sdt"@.len() == 7);
    assert("can.sec"@[4] == 's' && "can.sec"@[5] == 'e' && "can.sec"@.len() == 7);
    assert("can.vcid"@.len() == 8);
    assert("can.fd"@[4] == 'f' && "can.fd"@.len() == 6);
    assert("can.xl"@[4] == 'x' && "can.xl"@.len() == 6);
    assert("can.af"@[4] == 'a' && "can.af"@.len() == 6);
    assert("true"@.len() == 4 && "false"@.len() == 5);
}

/// A frame survives the way into a message and back, unless it has fields of CAN XL set
/// without being a CAN XL frame.
pub proof fn message_round_trip(f: FrameView, timestamp: Timestamp)
    requires
        f.xl || (f.sdt == 0 && f.vcid == 0 && f.af == 0 && !f.sec),
    ensures
        frame_of(message_of(f, timestamp)) == Ok::<FrameView, ErrorView>(f),
{
    lemma_keys_differ();
    text::number_text_reads_back(f.id as nat, 10, 0, u32::MAX as nat);
    text::number_text_reads_back(f.sdt as nat, 10, 0, 255);
    text::number_text_reads_back(f.vcid as nat, 10, 0, 255);
    text::number_text_reads_back(f.af as nat, 10, 0, u32::MAX as nat);
    let m = meta_of(f);
    assert(flag_in(m, "can.ext"@) == f.ext);
    assert(flag_in(m, "can.fd"@) == f.fd);
    assert(flag_in(m, "can.rtr"@) == f.rtr);
    assert(flag_in(m, "can.brs"@) == f.brs);
    assert(flag_in(m, "can.esi"@) == f.esi);
    assert(flag_in(m, "can.xl"@) == f.xl);
    assert(flag_in(m, "can.sec"@) == f.sec);
    assert(number_in(m, "can.sdt"@, 255) == f.sdt);
    assert(number_in(m, "can.vcid"@, 255) == f.vcid);
    assert(number_in(m, "can.af"@, u32::MAX as nat) == f.af);
}

/// A relay error survives the way through a bus error, and an error of a frame is never
/// reported as an oversized payload.
pub proof fn relay_errors_keep_their_meaning(e: ErrorView)
    ensures
        e == ErrorView::Closed ==> reported(e) == relay::Error::Closed,
        e == ErrorView::NotConnected ==> reported(e) == relay::Error::NotConnected,
        e == ErrorView::Timeout ==> reported(e) == relay::Error::Timeout,
        reported(e) == relay::Error::PayloadTooLarge <==> e == ErrorView::PayloadTooLarge,
{
}

/// What the message of a frame says: the identifier in decimal, the data as the payload, and
/// under its own key each flag in words and each number in decimal. A key that is not there
/// stands for a flag that is not set or a number that is zero.
pub proof fn metadata_of_a_frame(f: FrameView, timestamp: Timestamp)
    ensures
        ({
            let m = message_of(f, timestamp);
            let flag = |b: bool| if b { "true"@ } else { "false"@ };
            &&& m.id == text::number_text(f.id as nat, 10)
            &&& m.payload == f.data
            &&& m.timestamp == timestamp
            &&& m.seq == 0 && m.protocol == Protocol::Can && m.version.major == 1
                && m.version.minor == 1
            &&& m.meta.dom().contains("can.ext"@) && m.meta["can.ext"@] == flag(f.ext)
            &&& m.meta.dom().contains("can.fd"@) && m.meta["can.fd"@] == flag(f.fd)
            &&& m.meta.dom().contains("can.rtr"@) && m.meta["can.rtr"@] == flag(f.rtr)
            &&& m.meta.dom().contains("can.brs"@) && m.meta["can.brs"@] == flag(f.brs)
            &&& m.meta.dom().contains("can.esi"@) <==> f.esi
            &&& f.esi ==> m.meta["can.esi"@] == "true"@
            &&& m.meta.dom().contains("can.xl"@) <==> f.xl
            &&& f.xl ==> m.meta["can.xl"@] == "true"@
            &&& m.meta.dom().contains("can.sec"@) <==> f.xl && f.sec
            &&& f.xl && f.sec ==> m.meta["can.sec"@] == "true"@
            &&& m.meta.dom().contains("can.sdt"@) <==> f.xl && f.sdt != 0
            &&& f.xl && f.sdt != 0 ==> m.meta["can.sdt"@] == text::number_text(f.sdt as nat, 10)
            &&& m.meta.dom().contains("can.vcid"@) <==> f.xl && f.vcid != 0
            &&& f.xl && f.vcid != 0 ==> m.meta["can.vcid"@] == text::number_text(f.vcid as nat, 10)
            &&& m.meta.dom().contains("can.af"@) <==> f.xl && f.af != 0
            &&& f.xl && f.af != 0 ==> m.meta["can.af"@] == text::number_text(f.af as nat, 10)
        }),
{
    lemma_keys_differ();
}

/// How a message is read: the identifier has to be a number of 32 bits, the payload is the
/// data, and a flag is set exactly where its own key says so. So metadata that is not there
/// gives a plain frame.
pub proof fn frames_of_messages(m: MessageView)
    ensures
        frame_of(m) is Ok <==> text::parse_number(m.id, 10, 0xFFFF_FFFF) is Some,
        frame_of(m) matches Err(e) ==> e is InvalidFrame,
        frame_of(m) matches Ok(f) ==> {
            &&& text::parse_number(m.id, 10, 0xFFFF_FFFF) == Some(f.id as nat)
            &&& f.data == m.payload
            &&& f.ext <==> m.meta.dom().contains("can.ext"@) && m.meta["can.ext"@] == "true"@
            &&& f.rtr <==> m.meta.dom().contains("can.rtr"@) && m.meta["can.rtr"@] == "true"@
            &&& f.fd <==> m.meta.dom().contains("can.fd"@) && m.meta["can.fd"@] == "true"@
            &&& f.brs <==> m.meta.dom().contains("can.brs"@) && m.meta["can.brs"@] == "true"@
            &&& f.esi <==> m.meta.dom().contains("can.esi"@) && m.meta["can.esi"@] == "true"@
            &&& f.xl <==> m.meta.dom().contains("can.xl"@) && m.meta["can.xl"@] == "true"@
            &&& f.sec <==> m.meta.dom().contains("can.sec"@) && m.meta["can.sec"@] == "true"@
            &&& m.meta.dom().contains("can.sdt"@) && text::parse_number(
                m.meta["can.sdt"@],
                10,
                255,
            ) is Some ==> text::parse_number(m.meta["can.sdt"@], 10, 255) == Some(f.sdt as nat)
            &&& m.meta.dom().contains("can.vcid"@) && text::parse_number(
                m.meta["can.vcid"@],
                10,
                255,
            ) is Some ==> text::parse_number(m.meta["can.vcid"@], 10, 255) == Some(f.vcid as nat)
            &&& m.meta.dom().contains("can.af"@) && text::parse_number(
                m.meta["can.af"@],
                10,
                0xFFFF_FFFF,
            ) is Some ==> text::parse_number(m.meta["can.af"@], 10, 0xFFFF_FFFF) == Some(
                f.af as nat,
            )
            &&& !m.meta.dom().contains("can.sdt"@) || text::parse_number(
                m.meta["can.sdt"@],
                10,
                255,
            ) is None ==> f.sdt == 0
            &&& !m.meta.dom().contains("can.vcid"@) || text::parse_number(
                m.meta["can.vcid"@],
                10,
                255,
            ) is None ==> f.vcid == 0
            &&& !m.meta.dom().contains("can.af"@) || text::parse_number(
                m.meta["can.af"@],
                10,
                0xFFFF_FFFF,
            ) is None ==> f.af == 0
            &&& m.meta == Map::<Seq<char>, Seq<char>>::empty() ==> f
                == crate::frame::plain_frame(f.id, f.data)
        },
{
}

/// A queue of messages keeps their order. With room a message is put behind the others; a
/// full queue gives up its oldest message for it, or leaves it out.
pub proof fn message_queue_policies(q: AdaptQueueView, m: MessageView)
    requires
        1 <= q.capacity,
        q.queue.len() <= q.capacity,
    ensures
        q.queue.len() < q.capacity ==> q.queue_with(m) == q.queue.push(m),
        q.queue.len() == q.capacity && q.policy == BackPressurePolicy::DropOldest ==> q.queue_with(
            m,
        ) == q.queue.subrange(1, q.queue.len() as int).push(m),
        q.queue.len() == q.capacity && q.policy != BackPressurePolicy::DropOldest ==> q.queue_with(
            m,
        ) == q.queue,
        q.queue_with(m).len() <= q.capacity,
        AdaptQueueView::fresh(0, q.policy).capacity == 1,
        AdaptQueueView::fresh(q.capacity, q.policy).capacity == q.capacity,
        AdaptQueueView::fresh(q.capacity, q.policy).queue.len() == 0,
        !AdaptQueueView::fresh(q.capacity, q.policy).closed,
{
    assert(q.queue.skip(1) =~= q.queue.subrange(1, q.queue.len() as int));
}

/// An error that the relay layer does not know is reported as a closed bus.
pub proof fn unknown_errors_are_reported_as_closed(e: ErrorView)
    requires
        e is InvalidFrame || e is BusOff || e is Io || e is Other,
    ensures
        reported(e) == relay::Error::Closed,
{
}

} // verus!
