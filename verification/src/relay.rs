//! Types of the relay message layer.
use vstd::prelude::*;

use crate::textmap::TextMap;
use crate::time::Timestamp;

verus! {

/// The errors that every relay transport shares.
#[derive(Debug, Clone, Copy, PartialEq, Eq, Structural)]
pub enum Error {
    Closed,
    NotConnected,
    Timeout,
    PayloadTooLarge,
}

/// The protocol that a message belongs to.
#[derive(Debug, Clone, Copy, PartialEq, Eq, Structural)]
pub enum Protocol {
    Can,
}

/// Version of the message layout.
#[derive(Debug, Clone, Copy, PartialEq, Eq, Structural)]
pub struct Version {
    pub major: u32,
    pub minor: u32,
}

impl Default for Version {
    fn default() -> (r: Version)
        ensures
            r == (Version { major: 1, minor: 1 }),
    {
        Version { major: 1, minor: 1 }
    }
}

/// A protocol-independent message.
#[derive(Debug)]
pub struct Message {
    pub protocol: Protocol,
    pub version: Version,
    pub id: String,
    pub payload: Vec<u8>,
    pub timestamp: Timestamp,
    pub seq: u64,
    pub meta: TextMap<String>,
}

/// The mathematical value of a [`Message`].
#[verifier::ext_equal]
pub struct MessageView {
    pub protocol: Protocol,
    pub version: Version,
    pub id: Seq<char>,
    pub payload: Seq<u8>,
    pub timestamp: Timestamp,
    pub seq: u64,
    pub meta: Map<Seq<char>, Seq<char>>,
}

impl View for Message {
    type V = MessageView;

    open spec fn view(&self) -> MessageView {
        MessageView {
            protocol: self.protocol,
            version: self.version,
            id: self.id@,
            payload: self.payload@,
            timestamp: self.timestamp,
            seq: self.seq,
            meta: self.meta@,
        }
    }
}

impl Message {
    /// No key of the metadata occurs twice.
    pub open spec fn wf(&self) -> bool {
        self.meta.wf()
    }

    /// A message of the given time, with sequence number 0 and no metadata.
    pub fn at(protocol: Protocol, id: &str, payload: Vec<u8>, timestamp: Timestamp) -> (r: Message)
        ensures
            r.wf(),
            r@ == (MessageView {
                protocol,
                version: Version { major: 1, minor: 1 },
                id: id@,
                payload: payload@,
                timestamp,
                seq: 0,
                meta: Map::empty(),
            }),
    {
        Message {
            protocol,
            version: Version::default(),
            id: id.to_owned(),
            payload,
            timestamp,
            seq: 0,
            meta: TextMap::new(),
        }
    }

    /// A message of this moment, with sequence number 0 and no metadata.
    pub fn new(protocol: Protocol, id: &str, payload: Vec<u8>) -> (r: Message)
        ensures
            r.wf(),
            r@.protocol == protocol,
            r@.version == (Version { major: 1, minor: 1 }),
            r@.id == id@,
            r@.payload == payload@,
            r@.seq == 0,
            r@.meta == Map::<Seq<char>, Seq<char>>::empty(),
    {
        Message::at(protocol, id, payload, Timestamp::now())
    }
}

/// What a full subscriber queue does with the next item.
#[derive(Debug, Clone, Copy, PartialEq, Eq, Structural)]
pub enum BackPressurePolicy {
    /// The item that comes is dropped.
    DropNewest,
    /// The item that has waited longest is dropped.
    DropOldest,
    /// Nothing is dropped.
    Block,
}

/// How a subscriber wants to be served.
#[derive(Debug, Clone, Copy, PartialEq, Eq, Structural)]
pub struct SubscriberOptions {
    /// Items that may wait (0: the default of the bus).
    pub channel_depth: usize,
    /// What happens when that many wait.
    pub back_pressure: BackPressurePolicy,
    /// Items that are accepted within a second (0: no limit).
    pub rate_limit_per_sec: u32,
}

impl Default for SubscriberOptions {
    fn default() -> (r: SubscriberOptions)
        ensures
            r == (SubscriberOptions {
                channel_depth: 0,
                back_pressure: BackPressurePolicy::DropNewest,
                rate_limit_per_sec: 0,
            }),
    {
        SubscriberOptions {
            channel_depth: 0,
            back_pressure: BackPressurePolicy::DropNewest,
            rate_limit_per_sec: 0,
        }
    }
}

impl SubscriberOptions {
    /// The number of items that may wait, or `default` where none is given.
    pub open spec fn depth(self, default: usize) -> usize {
        if self.channel_depth == 0 { default } else { self.channel_depth }
    }

    /// The number of items that may wait, or `default` where none is given.
    pub fn chan_depth(&self, default: usize) -> (r: usize)
        ensures
            r == self.depth(default),
    {
        if self.channel_depth == 0 {
            default
        } else {
            self.channel_depth
        }
    }
}

/// Whether a component works.
#[derive(Debug, Clone, Copy, PartialEq, Eq, Structural)]
pub enum HealthStatus {
    Up,
    Down,
}

/// A component's report on itself.
#[derive(Debug)]
pub struct Health {
    pub status: HealthStatus,
    pub message: String,
}

/// The mathematical value of a [`Health`].
pub struct HealthView {
    pub status: HealthStatus,
    pub message: Seq<char>,
}

impl View for Health {
    type V = HealthView;

    open spec fn view(&self) -> HealthView {
        HealthView { status: self.status, message: self.message@ }
    }
}

impl Health {
    /// The report of a component that works.
    pub fn ok() -> (r: Health)
        ensures
            r@ == (HealthView { status: HealthStatus::Up, message: Seq::empty() }),
    {
        Health { status: HealthStatus::Up, message: String::new() }
    }

    /// The report of a component that does not work.
    pub fn down(message: &str) -> (r: Health)
        ensures
            r@ == (HealthView { status: HealthStatus::Down, message: message@ }),
    {
        Health { status: HealthStatus::Down, message: message.to_owned() }
    }
}

/// What a bus has done so far. Each counter goes back to 0 after its largest value.
#[derive(Debug, Clone, Copy, PartialEq, Eq, Structural)]
pub struct Metrics {
    pub write_count: u64,
    pub deliver_count: u64,
    pub drop_count: u64,
    pub bytes_written: u64,
    pub bytes_delivered: u64,
    pub error_count: u64,
}

/// A subscriber that asks for no number of items gets the default, and any other gets what
/// it asks for.
pub proof fn depth_of_a_queue(opts: SubscriberOptions, default: usize)
    ensures
        opts.channel_depth > 0 ==> opts.depth(default) == opts.channel_depth,
        opts.channel_depth == 0 ==> opts.depth(default) == default,
        default > 0 ==> opts.depth(default) > 0,
{
}

} // verus!
