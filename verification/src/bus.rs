//! Buses and the queues of their subscribers.
use vstd::prelude::*;
use std::collections::VecDeque;

use crate::error::{Error, ErrorView};
use crate::frame;
use crate::frame::{Filter, Frame, FrameView, LoanedFrame};
use crate::relay::{BackPressurePolicy, HealthView, Health, Metrics, SubscriberOptions};

verus! {

// ---------------------------------------------------------------------------
// Subscriber queue
// ---------------------------------------------------------------------------

/// Length of the window in which the rate limit counts, in milliseconds.
pub const RATE_WINDOW_MS: u64 = 1000;

/// The queue between a bus and one subscriber.
#[derive(Debug)]
pub struct SubInner {
    queue: VecDeque<Frame>,
    capacity: usize,
    policy: BackPressurePolicy,
    rate_limit: u32,
    window_open: bool,
    window_start: u64,
    accepted: u32,
    closed: bool,
}

/// The mathematical value of a [`SubInner`].
#[verifier::ext_equal]
pub struct SubView {
    /// The frames that wait, the oldest first.
    pub queue: Seq<FrameView>,
    pub capacity: nat,
    pub policy: BackPressurePolicy,
    /// Frames that are accepted within one window (0: no limit).
    pub rate_limit: nat,
    /// When the current window began, in milliseconds, and how many frames were accepted
    /// in it.
    pub window: Option<(nat, nat)>,
    pub closed: bool,
}

/// The mathematical values of a list of frames.
pub open spec fn frame_views(s: Seq<Frame>) -> Seq<FrameView> {
    Seq::new(s.len(), |i: int| s[i]@)
}

impl View for SubInner {
    type V = SubView;

    closed spec fn view(&self) -> SubView {
        SubView {
            queue: frame_views(self.queue@),
            capacity: self.capacity as nat,
            policy: self.policy,
            rate_limit: self.rate_limit as nat,
            window: if self.window_open {
                Some((self.window_start as nat, self.accepted as nat))
            } else {
                None
            },
            closed: self.closed,
        }
    }
}

impl SubView {
    /// An open queue without frames.
    pub open spec fn fresh(capacity: nat, policy: BackPressurePolicy, rate_limit: nat) -> SubView {
        SubView {
            queue: Seq::empty(),
            capacity,
            policy,
            rate_limit,
            window: None,
            closed: false,
        }
    }

    /// The window in which a frame at time `now` counts: the current one for a second,
    /// and then a new one.
    pub open spec fn window_at(self, now: nat) -> (nat, nat) {
        match self.window {
            Some((start, count)) => if now < start + 1000 {
                (start, count)
            } else {
                (now, 0)
            },
            None => (now, 0),
        }
    }

    /// Whether the rate limit leaves room for a frame at time `now`.
    pub open spec fn within_rate(self, now: nat) -> bool {
        self.rate_limit == 0 || self.window_at(now).1 < self.rate_limit
    }

    /// Whether a frame at time `now` is accepted. It is not where the rate limit is used
    /// up, nor where the queue is full and drops the newest frame.
    pub open spec fn accepts(self, now: nat) -> bool {
        self.within_rate(now) && !(self.policy == BackPressurePolicy::DropNewest
            && self.queue.len() >= self.capacity)
    }

    /// The frames that wait once `f` was accepted. A full queue that drops the oldest
    /// frame loses it; nothing else is lost.
    pub open spec fn queue_with(self, f: FrameView) -> Seq<FrameView> {
        if self.policy == BackPressurePolicy::DropOldest && self.queue.len() >= self.capacity
            && self.queue.len() > 0 {
            self.queue.skip(1).push(f)
        } else {
            self.queue.push(f)
        }
    }

    /// The queue after `f` was offered at time `now`.
    pub open spec fn after_push(self, f: FrameView, now: nat) -> SubView {
        let (start, count) = self.window_at(now);
        if self.accepts(now) {
            SubView {
                queue: self.queue_with(f),
                window: if self.rate_limit == 0 {
                    self.window
                } else {
                    Some((start, count + 1))
                },
                ..self
            }
        } else {
            SubView {
                window: if self.rate_limit == 0 { self.window } else { Some((start, count)) },
                ..self
            }
        }
    }

    /// Whether every frame that waits passes a list of filters.
    pub open spec fn holds_only(self, filters: Seq<Filter>) -> bool {
        forall|k: int|
            0 <= k < self.queue.len() ==> frame::any_passes(filters, (#[trigger] self.queue[k]).id)
    }

    /// The queue after its receiver asked for a frame.
    pub open spec fn after_recv(self) -> SubView {
        SubView {
            queue: if self.queue.len() > 0 { self.queue.skip(1) } else { self.queue },
            ..self
        }
    }

    /// The queue after its receiver asked `n` times.
    pub open spec fn after_recvs(self, n: nat) -> SubView
        decreases n,
    {
        if n == 0 { self } else { self.after_recvs((n - 1) as nat).after_recv() }
    }

    /// No window has more accepted frames than the rate limit allows.
    pub open spec fn within_limits(self) -> bool {
        self.rate_limit > 0 ==> (self.window matches Some((_, count)) ==> count <= self.rate_limit)
    }
}

/// What a receiver gets when it asks for a frame.
#[derive(Debug)]
pub enum RecvOutcome {
    /// The oldest waiting frame.
    Got(Frame),
    /// No frame waits, and none will come: the queue is closed.
    Ended,
    /// No frame waits yet.
    Pending,
}

impl SubInner {
    /// The accepted frames of the window are within the rate limit.
    pub closed spec fn wf(&self) -> bool {
        self.rate_limit > 0 ==> self.window_open ==> self.accepted <= self.rate_limit
    }

    /// An open queue for `capacity` frames.
    pub fn new(capacity: usize, policy: BackPressurePolicy, rate_limit: u32) -> (r: SubInner)
        ensures
            r.wf(),
            r@ == SubView::fresh(capacity as nat, policy, rate_limit as nat),
    {
        let r = SubInner {
            queue: VecDeque::new(),
            capacity,
            policy,
            rate_limit,
            window_open: false,
            window_start: 0,
            accepted: 0,
            closed: false,
        };
        assert(r@.queue =~= Seq::empty());
        r
    }

    /// Offers a frame at the time `now` of a clock that counts milliseconds, and says
    /// whether it was accepted.
    pub fn push(&mut self, frame: Frame, now: u64) -> (r: bool)
        requires
            old(self).wf(),
        ensures
            final(self).wf(),
            final(self)@ == old(self)@.after_push(frame@, now as nat),
            r == old(self)@.accepts(now as nat),
            final(self)@.within_limits(),
    {
        if self.rate_limit > 0 {
            let inside = self.window_open && (now < self.window_start || now - self.window_start
                < RATE_WINDOW_MS);
            if !inside {
                self.window_open = true;
                self.window_start = now;
                self.accepted = 0;
            }
            if self.accepted >= self.rate_limit {
                assert(self@ =~= old(self)@.after_push(frame@, now as nat));
                return false;
            }
        }
        let ghost before = self.queue@;
        let full = self.queue.len() >= self.capacity;
        match self.policy {
            BackPressurePolicy::DropNewest => {
                if full {
                    assert(self@ =~= old(self)@.after_push(frame@, now as nat));
                    return false;
                }
            },
            BackPressurePolicy::DropOldest => {
                if full {
                    let _ = self.queue.pop_front();
                }
            },
            BackPressurePolicy::Block => {},
        }
        self.queue.push_back(frame);
        if self.rate_limit > 0 {
            self.accepted = self.accepted + 1;
        }
        proof {
            assert(self@.queue =~= old(self)@.queue_with(frame@));
            assert(self@ =~= old(self)@.after_push(frame@, now as nat));
        }
        true
    }

    /// Takes the oldest waiting frame.
    pub fn pop(&mut self) -> (r: Option<Frame>)
        requires
            old(self).wf(),
        ensures
            final(self).wf(),
            match r {
                Some(f) => {
                    &&& old(self)@.queue.len() > 0
                    &&& f@ == old(self)@.queue[0]
                    &&& final(self)@ == (SubView {
                        queue: old(self)@.queue.skip(1),
                        ..old(self)@
                    })
                },
                None => old(self)@.queue.len() == 0 && final(self)@ == old(self)@,
            },
    {
        let ghost before = self@;
        let r = self.queue.pop_front();
        proof {
            if r is Some {
                assert(self@.queue =~= before.queue.skip(1));
            } else {
                assert(self@.queue =~= before.queue);
            }
        }
        r
    }

    /// Asks for the next frame. The end of the stream shows only when the queue is closed
    /// and every frame was taken.
    pub fn recv(&mut self) -> (r: RecvOutcome)
        requires
            old(self).wf(),
        ensures
            final(self).wf(),
            final(self)@ == old(self)@.after_recv(),
            match r {
                RecvOutcome::Got(f) => old(self)@.queue.len() > 0 && f@ == old(self)@.queue[0],
                RecvOutcome::Ended => old(self)@.queue.len() == 0 && old(self)@.closed,
                RecvOutcome::Pending => old(self)@.queue.len() == 0 && !old(self)@.closed,
            },
    {
        match self.pop() {
            Some(f) => RecvOutcome::Got(f),
            None => if self.closed {
                RecvOutcome::Ended
            } else {
                RecvOutcome::Pending
            },
        }
    }

    /// Whether no frame waits.
    pub fn is_empty(&self) -> (r: bool)
        ensures
            r == (self@.queue.len() == 0),
    {
        self.queue.len() == 0
    }

    /// Whether the queue is closed.
    pub fn is_closed(&self) -> (r: bool)
        ensures
            r == self@.closed,
    {
        self.closed
    }

    /// Closes the queue. Waiting frames can still be taken.
    pub fn close(&mut self)
        requires
            old(self).wf(),
        ensures
            final(self).wf(),
            final(self)@ == (SubView { closed: true, ..old(self)@ }),
    {
        self.closed = true;
        assert(self@ =~= (SubView { closed: true, ..old(self)@ }));
    }
}

// ---------------------------------------------------------------------------
// Buses
// ---------------------------------------------------------------------------

/// A CAN bus. Time is given to it: `now` counts milliseconds of a clock of the caller.
pub trait Bus: Sized {
    /// Whether the bus keeps its own invariants.
    spec fn wf(&self) -> bool;

    /// Whether the bus is closed.
    spec fn closed(&self) -> bool;

    /// Number of subscriptions so far.
    spec fn subscriptions(&self) -> nat;

    /// Transmits a frame. A closed bus refuses it.
    fn send(&mut self, now: u64, frame: Frame) -> (r: Result<(), Error>)
        requires
            old(self).wf(),
        ensures
            final(self).wf(),
            final(self).closed() == old(self).closed(),
            final(self).subscriptions() == old(self).subscriptions(),
            old(self).closed() ==> (r matches Err(e) && e@ == ErrorView::Closed),
    ;

    /// Subscribes to the frames that pass any of the filters, or to all frames where there
    /// is no filter, and returns the number of the subscription. A closed bus refuses.
    fn subscribe(&mut self, filters: Vec<Filter>, opts: SubscriberOptions) -> (r: Result<
        usize,
        Error,
    >)
        requires
            old(self).wf(),
        ensures
            final(self).wf(),
            final(self).closed() == old(self).closed(),
            match r {
                Ok(i) => !old(self).closed() && i == old(self).subscriptions()
                    && final(self).subscriptions() == i + 1,
                Err(e) => old(self).closed() && e@ == ErrorView::Closed
                    && final(self).subscriptions() == old(self).subscriptions(),
            },
    ;

    /// Closes the bus and every subscription. A second close does nothing.
    fn close(&mut self) -> (r: Result<(), Error>)
        requires
            old(self).wf(),
        ensures
            final(self).wf(),
            final(self).closed(),
            final(self).subscriptions() == old(self).subscriptions(),
            old(self).closed() ==> *final(self) == *old(self),
            r is Ok,
    ;
}

/// A bus that lends frame buffers.
pub trait LoaningBus: Bus {
    /// Lends an empty frame. A closed bus refuses.
    fn loan<F: FnOnce()>(&self) -> (r: Result<LoanedFrame<F>, Error>)
        requires
            self.wf(),
        ensures
            match r {
                Ok(_) => !self.closed(),
                Err(e) => self.closed() && e@ == ErrorView::Closed,
            },
    ;

    /// Gives the buffer of a loaned frame back and transmits the frame.
    fn send_loaned<F: FnOnce()>(&mut self, now: u64, frame: LoanedFrame<F>) -> (r: Result<
        (),
        Error,
    >)
        requires
            old(self).wf(),
            frame.release matches Some(f) ==> f.requires(()),
        ensures
            final(self).wf(),
            final(self).closed() == old(self).closed(),
            frame.release matches Some(f) ==> f.ensures((), ()),
            old(self).closed() ==> (r matches Err(e) && e@ == ErrorView::Closed),
    ;
}

/// A component that reports on its health.
pub trait HealthProvider {
    /// The report.
    spec fn report(&self) -> HealthView;

    /// The report.
    fn health(&self) -> (r: Health)
        ensures
            r@ == self.report(),
    ;
}

/// A component that counts what it does.
pub trait MetricsProvider {
    /// The counters.
    spec fn counters(&self) -> Metrics;

    /// The counters.
    fn metrics(&self) -> (r: Metrics)
        ensures
            r == self.counters(),
    ;
}

/// What a graceful shutdown does next.
#[derive(Debug)]
pub enum DrainStep {
    /// Frames still wait: look again later.
    Wait,
    /// The bus is closed, and this is the result.
    Finished(Result<(), Error>),
}

/// A bus that can wait for its subscribers before it closes.
pub trait Drainer: Bus {
    /// Whether every subscriber has taken all its frames.
    spec fn drained(&self) -> bool;

    /// One look of a graceful shutdown. The bus is closed when every subscriber has taken
    /// its frames, or when the deadline has passed; then frames that still wait are the
    /// subscribers' loss, and the result is a timeout.
    fn close_with_drain(&mut self, deadline_passed: bool) -> (r: DrainStep)
        requires
            old(self).wf(),
        ensures
            final(self).wf(),
            match r {
                DrainStep::Wait => !deadline_passed && !old(self).drained() && *final(self)
                    == *old(self),
                DrainStep::Finished(Ok(())) => {
                    &&& !deadline_passed
                    &&& old(self).drained()
                    &&& final(self).closed()
                },
                DrainStep::Finished(Err(e)) => {
                    &&& deadline_passed
                    &&& e@ == ErrorView::Timeout
                    &&& final(self).closed()
                },
            },
    ;
}

// ---------------------------------------------------------------------------
// Laws
// ---------------------------------------------------------------------------

/// With a policy that drops, a queue for at least one frame never holds more frames than
/// its capacity.
pub proof fn queue_stays_within_capacity(s: SubView, f: FrameView, now: nat)
    requires
        s.policy != BackPressurePolicy::Block,
        1 <= s.capacity,
        s.queue.len() <= s.capacity,
    ensures
        s.after_push(f, now).queue.len() <= s.capacity,
{
}

/// Without a rate limit, a queue that drops the oldest frame accepts every frame, and a
/// queue that blocks accepts every frame and loses none.
pub proof fn only_drop_newest_refuses(s: SubView, f: FrameView, now: nat)
    requires
        s.rate_limit == 0,
        s.policy != BackPressurePolicy::DropNewest,
    ensures
        s.accepts(now),
        s.after_push(f, now).queue.last() == f,
        s.policy == BackPressurePolicy::Block ==> s.after_push(f, now).queue == s.queue.push(f),
{
}

/// A queue that holds only frames that pass a list of filters still does when such a frame
/// is offered, when its receiver asks for a frame, and when it is closed.
pub proof fn queue_keeps_to_its_filters(
    s: SubView,
    filters: Seq<Filter>,
    f: FrameView,
    now: nat,
)
    requires
        s.holds_only(filters),
    ensures
        frame::any_passes(filters, f.id) ==> s.after_push(f, now).holds_only(filters),
        s.after_recv().holds_only(filters),
        (SubView { closed: true, ..s }).holds_only(filters),
{
}

/// The receiver of a closed queue gets every frame that waits, in order, and is then told
/// of the end for ever.
pub proof fn closed_queue_is_read_to_its_end(s: SubView, n: nat)
    requires
        s.closed,
    ensures
        s.after_recvs(n).closed,
        n < s.queue.len() ==> s.after_recvs(n).queue.len() > 0 && s.after_recvs(n).queue[0]
            == s.queue[n as int],
        n >= s.queue.len() ==> s.after_recvs(n).queue.len() == 0,
{
    lemma_after_recvs(s, n);
}

proof fn lemma_after_recvs(s: SubView, n: nat)
    ensures
        s.after_recvs(n) == (SubView {
            queue: if n < s.queue.len() { s.queue.skip(n as int) } else { Seq::empty() },
            ..s
        }),
    decreases n,
{
    if n == 0 {
        assert(s.after_recvs(0).queue =~= (if 0 < s.queue.len() {
            s.queue.skip(0)
        } else {
            Seq::empty()
        }));
    } else {
        let before = s.after_recvs((n - 1) as nat);
        lemma_after_recvs(s, (n - 1) as nat);
        assert(before.after_recv().queue =~= (if n < s.queue.len() {
            s.queue.skip(n as int)
        } else {
            Seq::empty()
        }));
    }
}

/// The queue after frames were offered in order, each at its time.
pub open spec fn after_all(s: SubView, frames: Seq<(FrameView, nat)>) -> SubView
    decreases frames.len(),
{
    if frames.len() == 0 {
        s
    } else {
        let last = frames.last();
        after_all(s, frames.drop_last()).after_push(last.0, last.1)
    }
}

/// Number of frames that are accepted when frames are offered in order.
pub open spec fn accepted_of(s: SubView, frames: Seq<(FrameView, nat)>) -> nat
    decreases frames.len(),
{
    if frames.len() == 0 {
        0
    } else {
        let before = after_all(s, frames.drop_last());
        accepted_of(s, frames.drop_last()) + (if before.accepts(frames.last().1) {
            1nat
        } else {
            0nat
        })
    }
}

/// Within a second of the first of them, no more frames are accepted than the rate limit
/// allows, by a queue that has seen none before.
pub proof fn rate_limit_bounds_a_window(
    capacity: nat,
    policy: BackPressurePolicy,
    limit: nat,
    frames: Seq<(FrameView, nat)>,
)
    requires
        limit > 0,
        frames.len() > 0,
        forall|i: int|
            0 <= i < frames.len() ==> frames[0].1 <= #[trigger] frames[i].1 < frames[0].1 + 1000,
    ensures
        accepted_of(SubView::fresh(capacity, policy, limit), frames) <= limit,
        after_all(SubView::fresh(capacity, policy, limit), frames).window == Some(
            (
                frames[0].1,
                accepted_of(SubView::fresh(capacity, policy, limit), frames),
            ),
        ),
        after_all(SubView::fresh(capacity, policy, limit), frames).rate_limit == limit,
    decreases frames.len(),
{
    let fresh = SubView::fresh(capacity, policy, limit);
    let t = frames.drop_last();
    if t.len() == 0 {
        assert(after_all(fresh, t) == fresh);
        assert(accepted_of(fresh, t) == 0);
        assert(frames.last() == frames[0]);
    } else {
        assert(t[0] == frames[0]);
        assert forall|i: int| 0 <= i < t.len() implies t[0].1 <= #[trigger] t[i].1 < t[0].1
            + 1000 by {
            assert(t[i] == frames[i]);
        }
        rate_limit_bounds_a_window(capacity, policy, limit, t);
        assert(frames.last() == frames[frames.len() - 1]);
        assert(frames[0].1 <= frames.last().1 < frames[0].1 + 1000);
    }
}

/// A queue without a rate limit keeps the frames in the order in which they came. With room
/// a frame is put behind the others. A full queue leaves it out, gives up its oldest frame
/// for it, or grows, as its policy says. Nothing else about the queue changes.
pub proof fn queue_order_and_policies(s: SubView, f: FrameView, now: nat)
    requires
        s.rate_limit == 0,
    ensures
        ({
            let t = s.after_push(f, now);
            let full = s.queue.len() >= s.capacity;
            &&& !full || s.policy == BackPressurePolicy::Block ==> t.queue == s.queue.push(f)
                && s.accepts(now)
            &&& full && s.policy == BackPressurePolicy::DropNewest ==> t.queue == s.queue
                && !s.accepts(now)
            &&& full && s.policy == BackPressurePolicy::DropOldest && s.queue.len() > 0 ==> t.queue
                == s.queue.subrange(1, s.queue.len() as int).push(f) && s.accepts(now)
            &&& t.capacity == s.capacity && t.policy == s.policy && t.closed == s.closed
                && t.rate_limit == 0 && t.window == s.window
        }),
{
    if s.queue.len() > 0 {
        assert(s.queue.skip(1) =~= s.queue.subrange(1, s.queue.len() as int));
    }
}

/// A queue that was used up in its second lets a frame through again once a second has
/// passed, and counts from then on; until then it lets none through.
pub proof fn rate_limit_starts_anew_each_second(s: SubView, f: FrameView, now: nat, since: nat)
    requires
        s.rate_limit > 0,
        s.policy != BackPressurePolicy::DropNewest,
        s.window == Some((since, s.rate_limit)),
    ensures
        now >= since + 1000 ==> s.accepts(now) && s.after_push(f, now).window == Some((now, 1nat))
            && s.after_push(f, now).queue.last() == f,
        now < since + 1000 ==> !s.accepts(now) && s.after_push(f, now).queue == s.queue,
{
}

/// Within a second of the first of them, frames are let through up to the rate limit: all of
/// them where they are no more, and as many as the limit allows where they are.
pub proof fn rate_limit_is_used_up(
    capacity: nat,
    policy: BackPressurePolicy,
    limit: nat,
    frames: Seq<(FrameView, nat)>,
)
    requires
        limit > 0,
        policy != BackPressurePolicy::DropNewest,
        frames.len() > 0,
        forall|i: int|
            0 <= i < frames.len() ==> frames[0].1 <= #[trigger] frames[i].1 < frames[0].1 + 1000,
    ensures
        accepted_of(SubView::fresh(capacity, policy, limit), frames) == (if frames.len() <= limit {
            frames.len()
        } else {
            limit
        }),
        after_all(SubView::fresh(capacity, policy, limit), frames).policy == policy,
    decreases frames.len(),
{
    let fresh = SubView::fresh(capacity, policy, limit);
    let t = frames.drop_last();
    if t.len() == 0 {
        assert(after_all(fresh, t) == fresh);
        assert(accepted_of(fresh, t) == 0);
    } else {
        assert(t[0] == frames[0]);
        assert forall|i: int| 0 <= i < t.len() implies t[0].1 <= #[trigger] t[i].1 < t[0].1
            + 1000 by {
            assert(t[i] == frames[i]);
        }
        rate_limit_is_used_up(capacity, policy, limit, t);
        rate_limit_bounds_a_window(capacity, policy, limit, t);
        assert(frames.last() == frames[frames.len() - 1]);
        assert(frames[0].1 <= frames.last().1 < frames[0].1 + 1000);
    }
}

/// A receiver takes the frame that has waited longest, and leaves the others in their order.
pub proof fn frames_are_taken_in_order(s: SubView)
    ensures
        s.queue.len() > 0 ==> s.queue == seq![s.queue[0]] + s.after_recv().queue,
        s.queue.len() == 0 ==> s.after_recv() == s,
        s.after_recv().closed == s.closed && s.after_recv().capacity == s.capacity
            && s.after_recv().policy == s.policy && s.after_recv().rate_limit == s.rate_limit
            && s.after_recv().window == s.window,
{
    if s.queue.len() > 0 {
        assert(s.queue =~= seq![s.queue[0]] + s.queue.skip(1));
    }
}

/// A new queue is empty and open, and has the room, the policy and the limit that were asked
/// for.
pub proof fn new_queues(capacity: nat, policy: BackPressurePolicy, limit: nat)
    ensures
        ({
            let s = SubView::fresh(capacity, policy, limit);
            &&& s.queue.len() == 0 && !s.closed && s.window is None
            &&& s.capacity == capacity && s.policy == policy && s.rate_limit == limit
        }),
{
}

} // verus!
