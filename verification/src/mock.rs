//! A bus for unit tests: it records what is sent, and frames are injected by hand.
use vstd::prelude::*;

use crate::bus;
use crate::bus::{Bus, RecvOutcome, SubInner, SubView};
use crate::error::{Error, ErrorView};
use crate::frame::{Filter, Frame, FrameView};
use crate::relay::SubscriberOptions;

verus! {

/// A bus that records sent frames. There is no broadcast and no filtering: subscribers get
/// the frames that are injected.
#[derive(Debug)]
pub struct MockBus {
    sent: Vec<Frame>,
    shut: bool,
    subscribers: Vec<SubInner>,
}

/// The mathematical value of a [`MockBus`].
#[verifier::ext_equal]
pub struct MockBusView {
    pub sent: Seq<FrameView>,
    pub closed: bool,
    pub queues: Seq<SubView>,
}

impl View for MockBus {
    type V = MockBusView;

    closed spec fn view(&self) -> MockBusView {
        MockBusView {
            sent: bus::frame_views(self.sent@),
            closed: self.shut,
            queues: Seq::new(self.subscribers@.len(), |i: int| self.subscribers@[i]@),
        }
    }
}

impl MockBusView {
    /// The queues after a frame was injected at time `now`: it is offered to every queue
    /// that is open.
    pub open spec fn injected(self, f: FrameView, now: nat) -> Seq<SubView> {
        Seq::new(
            self.queues.len(),
            |i: int|
                if self.queues[i].closed {
                    self.queues[i]
                } else {
                    self.queues[i].after_push(f, now)
                },
        )
    }

    /// The bus after it was closed, with every queue closed.
    pub open spec fn after_close(self) -> MockBusView {
        if self.closed {
            self
        } else {
            MockBusView {
                sent: self.sent,
                closed: true,
                queues: Seq::new(
                    self.queues.len(),
                    |i: int| SubView { closed: true, ..self.queues[i] },
                ),
            }
        }
    }
}

impl MockBus {
    /// A bus on which nothing was sent.
    pub fn new() -> (r: MockBus)
        ensures
            r.wf(),
            r@ == (MockBusView { sent: Seq::empty(), closed: false, queues: Seq::empty() }),
    {
        let r = MockBus { sent: Vec::new(), shut: false, subscribers: Vec::new() };
        assert(r@ =~= (MockBusView { sent: Seq::empty(), closed: false, queues: Seq::empty() }));
        r
    }

    /// Offers a frame to every open subscriber.
    pub fn inject(&mut self, frame: &Frame, now: u64)
        requires
            old(self).wf(),
        ensures
            final(self).wf(),
            final(self)@ == (MockBusView {
                queues: old(self)@.injected(frame@, now as nat),
                ..old(self)@
            }),
    {
        let ghost start = self@.queues;
        let ghost done = self@.injected(frame@, now as nat);
        let mut i: usize = 0;
        while i < self.subscribers.len()
            invariant
                i <= self.subscribers@.len(),
                self.subscribers@.len() == start.len(),
                done.len() == start.len(),
                start == old(self)@.queues,
                done == old(self)@.injected(frame@, now as nat),
                self.sent == old(self).sent,
                self.shut == old(self).shut,
                forall|j: int|
                    0 <= j < self.subscribers@.len() ==> (#[trigger] self.subscribers@[j]).wf(),
                forall|j: int| 0 <= j < i ==> (#[trigger] self.subscribers@[j])@ == done[j],
                forall|j: int|
                    i <= j < self.subscribers@.len() ==> (#[trigger] self.subscribers@[j])@
                        == start[j],
            decreases self.subscribers@.len() - i,
        {
            assert(self.subscribers@[i as int]@ == start[i as int]);
            if !self.subscribers[i].is_closed() {
                let _ = self.subscribers[i].push(frame.clone(), now);
            }
            i += 1;
        }
        assert(self@.queues =~= done);
    }

    /// A copy of the frames that were sent.
    pub fn sent_frames(&self) -> (r: Vec<Frame>)
        ensures
            bus::frame_views(r@) == self@.sent,
    {
        let mut out: Vec<Frame> = Vec::new();
        let mut i: usize = 0;
        while i < self.sent.len()
            invariant
                i <= self.sent@.len(),
                out@.len() == i,
                forall|j: int| 0 <= j < i ==> (#[trigger] out@[j])@ == self.sent@[j]@,
            decreases self.sent@.len() - i,
        {
            out.push(self.sent[i].clone());
            i += 1;
        }
        assert(bus::frame_views(out@) =~= self@.sent);
        out
    }

    /// Forgets the frames that were sent.
    pub fn reset(&mut self)
        requires
            old(self).wf(),
        ensures
            final(self).wf(),
            final(self)@ == (MockBusView { sent: Seq::empty(), ..old(self)@ }),
    {
        self.sent.clear();
        assert(self@ =~= (MockBusView { sent: Seq::empty(), ..old(self)@ }));
    }

    /// Takes the next frame of a subscriber.
    pub fn recv(&mut self, sub: usize) -> (r: RecvOutcome)
        requires
            old(self).wf(),
            sub < old(self)@.queues.len(),
        ensures
            final(self).wf(),
            final(self)@ == (MockBusView {
                queues: old(self)@.queues.update(
                    sub as int,
                    old(self)@.queues[sub as int].after_recv(),
                ),
                ..old(self)@
            }),
            ({
                let q = old(self)@.queues[sub as int];
                match r {
                    RecvOutcome::Got(f) => q.queue.len() > 0 && f@ == q.queue[0],
                    RecvOutcome::Ended => q.queue.len() == 0 && q.closed,
                    RecvOutcome::Pending => q.queue.len() == 0 && !q.closed,
                }
            }),
    {
        let ghost before = self@;
        assert(self.subscribers@[sub as int].wf());
        let r = self.subscribers[sub].recv();
        assert(self@.queues =~= before.queues.update(
            sub as int,
            before.queues[sub as int].after_recv(),
        ));
        r
    }

    /// Closes one subscription, as its receiver does. Waiting frames can still be taken.
    pub fn unsubscribe(&mut self, sub: usize)
        requires
            old(self).wf(),
            sub < old(self)@.queues.len(),
        ensures
            final(self).wf(),
            final(self)@ == (MockBusView {
                queues: old(self)@.queues.update(
                    sub as int,
                    SubView { closed: true, ..old(self)@.queues[sub as int] },
                ),
                ..old(self)@
            }),
    {
        let ghost before = self@;
        assert(self.subscribers@[sub as int].wf());
        self.subscribers[sub].close();
        assert(self@.queues =~= before.queues.update(
            sub as int,
            SubView { closed: true, ..before.queues[sub as int] },
        ));
    }
}

impl Default for MockBus {
    fn default() -> (r: MockBus)
        ensures
            r.wf(),
            r@ == (MockBusView { sent: Seq::empty(), closed: false, queues: Seq::empty() }),
    {
        MockBus::new()
    }
}

impl Bus for MockBus {
    closed spec fn wf(&self) -> bool {
        forall|i: int| 0 <= i < self.subscribers@.len() ==> (#[trigger] self.subscribers@[i]).wf()
    }

    open spec fn closed(&self) -> bool {
        self@.closed
    }

    open spec fn subscriptions(&self) -> nat {
        self@.queues.len()
    }

    /// Records the frame.
    fn send(&mut self, now: u64, frame: Frame) -> (r: Result<(), Error>)
        ensures
            r is Ok <==> !old(self)@.closed,
            final(self)@ == (if old(self)@.closed {
                old(self)@
            } else {
                MockBusView { sent: old(self)@.sent.push(frame@), ..old(self)@ }
            }),
    {
        if self.shut {
            return Err(Error::Closed);
        }
        let ghost before = self@;
        self.sent.push(frame);
        assert(self@.sent =~= before.sent.push(frame@));
        Ok(())
    }

    /// Subscribes to injected frames; filters are not looked at.
    fn subscribe(&mut self, filters: Vec<Filter>, opts: SubscriberOptions) -> (r: Result<
        usize,
        Error,
    >)
        ensures
            final(self)@ == (if old(self)@.closed {
                old(self)@
            } else {
                MockBusView {
                    queues: old(self)@.queues.push(
                        SubView::fresh(
                            opts.depth(64) as nat,
                            opts.back_pressure,
                            opts.rate_limit_per_sec as nat,
                        ),
                    ),
                    ..old(self)@
                }
            }),
    {
        if self.shut {
            return Err(Error::Closed);
        }
        let number: usize = self.subscribers.len();
        let ghost before = self@;
        let sub = SubInner::new(
            opts.chan_depth(64),
            opts.back_pressure,
            opts.rate_limit_per_sec,
        );
        self.subscribers.push(sub);
        assert(self@.queues =~= before.queues.push(sub@));
        Ok(number)
    }

    fn close(&mut self) -> (r: Result<(), Error>)
        ensures
            final(self)@ == old(self)@.after_close(),
    {
        if self.shut {
            return Ok(());
        }
        let ghost start = self@.queues;
        let ghost done = old(self)@.after_close().queues;
        let mut i: usize = 0;
        while i < self.subscribers.len()
            invariant
                i <= self.subscribers@.len(),
                self.subscribers@.len() == start.len(),
                done.len() == start.len(),
                !old(self).shut,
                start == old(self)@.queues,
                done == old(self)@.after_close().queues,
                self.sent == old(self).sent,
                forall|j: int|
                    0 <= j < self.subscribers@.len() ==> (#[trigger] self.subscribers@[j]).wf(),
                forall|j: int| 0 <= j < i ==> (#[trigger] self.subscribers@[j])@ == done[j],
                forall|j: int|
                    i <= j < self.subscribers@.len() ==> (#[trigger] self.subscribers@[j])@
                        == start[j],
            decreases self.subscribers@.len() - i,
        {
            assert(self.subscribers@[i as int]@ == start[i as int]);
            self.subscribers[i].close();
            i += 1;
        }
        self.shut = true;
        assert(self@.queues =~= done);
        Ok(())
    }
}

// ---------------------------------------------------------------------------
// Laws
// ---------------------------------------------------------------------------

/// An injected frame is offered to every subscriber that is open and to no other, and is
/// not taken for one that was sent.
pub proof fn injected_frames_reach_open_subscribers(b: MockBusView, f: FrameView, now: nat, i: int)
    requires
        0 <= i < b.queues.len(),
    ensures
        b.injected(f, now).len() == b.queues.len(),
        !b.queues[i].closed ==> b.injected(f, now)[i] == b.queues[i].after_push(f, now),
        b.queues[i].closed ==> b.injected(f, now)[i] == b.queues[i],
{
}

/// Closing an open bus closes it and every subscriber, and loses neither what was sent nor
/// what waits.
pub proof fn closing_keeps_what_was_recorded(b: MockBusView, i: int)
    requires
        !b.closed,
        0 <= i < b.queues.len(),
    ensures
        b.after_close().closed,
        b.after_close().sent == b.sent,
        b.after_close().queues.len() == b.queues.len(),
        b.after_close().queues[i].closed,
        b.after_close().queues[i].queue == b.queues[i].queue,
        b.after_close().after_close() == b.after_close(),
{
}

} // verus!
