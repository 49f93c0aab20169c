//! A bus inside the process: every frame goes to all subscribers whose filters it passes.
use vstd::prelude::*;

use crate::bus;
use crate::bus::{
    Bus, DrainStep, Drainer, HealthProvider, LoaningBus, MetricsProvider, RecvOutcome, SubInner,
    SubView,
};
use crate::error::{Error, ErrorView};
use crate::frame;
use crate::frame::{Filter, Frame, FrameView, LoanedFrame};
use crate::relay::{Health, HealthStatus, HealthView, Metrics, SubscriberOptions};

verus! {

/// Frames that may wait for a subscriber that asks for no other number.
pub const DEFAULT_DEPTH: usize = 64;

/// A subscription: which frames it wants, the queue of those that wait, and whether the
/// bus still serves it.
#[derive(Debug)]
pub struct VirtualSub {
    filters: Vec<Filter>,
    inner: SubInner,
    attached: bool,
}

/// The mathematical value of a [`VirtualSub`].
#[verifier::ext_equal]
pub struct VirtualSubView {
    pub filters: Seq<Filter>,
    pub queue: SubView,
    pub attached: bool,
}

impl View for VirtualSub {
    type V = VirtualSubView;

    closed spec fn view(&self) -> VirtualSubView {
        VirtualSubView { filters: self.filters@, queue: self.inner@, attached: self.attached }
    }
}

impl VirtualSubView {
    /// What holds of every subscription: only frames that pass its filters wait, and it is
    /// served or closed.
    pub open spec fn sound(self) -> bool {
        &&& self.queue.holds_only(self.filters)
        &&& self.attached || self.queue.closed
    }

    /// Whether the subscription wants a frame: it is open, and the frame passes a filter.
    pub open spec fn wants(self, f: FrameView) -> bool {
        self.attached && !self.queue.closed && frame::any_passes(self.filters, f.id)
    }

    /// Whether the subscription gets a frame that is sent at time `now`.
    pub open spec fn gets(self, f: FrameView, now: nat) -> bool {
        self.wants(f) && self.queue.accepts(now)
    }

    /// Whether the subscription wants a frame that is sent at time `now`, but its queue
    /// drops it.
    pub open spec fn misses(self, f: FrameView, now: nat) -> bool {
        self.wants(f) && !self.queue.accepts(now)
    }

    /// The subscription after a frame was sent. One that its receiver has closed is no
    /// longer served.
    pub open spec fn after_send(self, f: FrameView, now: nat) -> VirtualSubView {
        VirtualSubView {
            queue: if self.wants(f) { self.queue.after_push(f, now) } else { self.queue },
            attached: self.attached && !self.queue.closed,
            ..self
        }
    }
}

impl VirtualSub {
    /// The queue keeps its own invariants and those of the subscription.
    pub closed spec fn wf(&self) -> bool {
        self.inner.wf() && self@.sound()
    }

    fn matches(&self, frame: &Frame) -> (r: bool)
        ensures
            r == frame::any_passes(self@.filters, frame@.id),
    {
        frame::matches_any(&self.filters, frame)
    }

    /// Serves a frame; the result says whether it was delivered or dropped, if the
    /// subscription wants it at all.
    fn offer(&mut self, frame: &Frame, now: u64) -> (r: Option<bool>)
        requires
            old(self).wf(),
        ensures
            final(self).wf(),
            final(self)@ == old(self)@.after_send(frame@, now as nat),
            r == Some(true) <==> old(self)@.gets(frame@, now as nat),
            r == Some(false) <==> old(self)@.misses(frame@, now as nat),
    {
        proof {
            bus::queue_keeps_to_its_filters(self@.queue, self@.filters, frame@, now as nat);
        }
        if self.inner.is_closed() {
            self.attached = false;
            return None;
        }
        if !self.attached || !self.matches(frame) {
            return None;
        }
        Some(self.inner.push(frame.clone(), now))
    }
}

/// A bus inside the process.
#[derive(Debug)]
pub struct VirtualBus {
    subs: Vec<VirtualSub>,
    shut: bool,
    counts: Metrics,
}

/// The mathematical value of a [`VirtualBus`].
#[verifier::ext_equal]
pub struct VirtualBusView {
    pub subs: Seq<VirtualSubView>,
    pub closed: bool,
    pub metrics: Metrics,
}

impl View for VirtualBus {
    type V = VirtualBusView;

    closed spec fn view(&self) -> VirtualBusView {
        VirtualBusView {
            subs: Seq::new(self.subs@.len(), |i: int| self.subs@[i]@),
            closed: self.shut,
            metrics: self.counts,
        }
    }
}

/// A counter that goes back to 0 after its largest value.
pub open spec fn wrapped(n: int) -> u64 {
    (n % 0x1_0000_0000_0000_0000) as u64
}

/// Number of subscriptions that get a frame.
pub open spec fn delivered(subs: Seq<VirtualSubView>, f: FrameView, now: nat) -> nat
    decreases subs.len(),
{
    if subs.len() == 0 {
        0
    } else {
        delivered(subs.drop_last(), f, now) + (if subs.last().gets(f, now) { 1nat } else { 0nat })
    }
}

/// Number of subscriptions that want a frame and whose queue drops it.
pub open spec fn dropped(subs: Seq<VirtualSubView>, f: FrameView, now: nat) -> nat
    decreases subs.len(),
{
    if subs.len() == 0 {
        0
    } else {
        dropped(subs.drop_last(), f, now) + (if subs.last().misses(f, now) { 1nat } else { 0nat })
    }
}

/// Number of subscriptions that want a frame.
pub open spec fn wanted(subs: Seq<VirtualSubView>, f: FrameView) -> nat
    decreases subs.len(),
{
    if subs.len() == 0 {
        0
    } else {
        wanted(subs.drop_last(), f) + (if subs.last().wants(f) { 1nat } else { 0nat })
    }
}

impl VirtualBusView {
    /// An open bus without subscriptions, on which nothing was counted.
    pub open spec fn open() -> VirtualBusView {
        VirtualBusView {
            subs: Seq::empty(),
            closed: false,
            metrics: Metrics {
                write_count: 0,
                deliver_count: 0,
                drop_count: 0,
                bytes_written: 0,
                bytes_delivered: 0,
                error_count: 0,
            },
        }
    }

    /// What sending a frame comes to.
    pub open spec fn send_result(self, f: FrameView) -> Result<(), ErrorView> {
        if self.closed { Err(ErrorView::Closed) } else { frame::validation(f) }
    }

    /// The bus after a frame was sent. A closed bus and an invalid frame count as errors.
    /// Else the frame and its bytes count once as written, and once for each subscription
    /// that gets it as delivered.
    pub open spec fn after_send(self, f: FrameView, now: nat) -> VirtualBusView {
        let m = self.metrics;
        if self.send_result(f) is Err {
            VirtualBusView {
                metrics: Metrics { error_count: wrapped(m.error_count + 1), ..m },
                ..self
            }
        } else {
            VirtualBusView {
                subs: Seq::new(self.subs.len(), |i: int| self.subs[i].after_send(f, now)),
                closed: self.closed,
                metrics: Metrics {
                    write_count: wrapped(m.write_count + 1),
                    deliver_count: wrapped(m.deliver_count + delivered(self.subs, f, now)),
                    drop_count: wrapped(m.drop_count + dropped(self.subs, f, now)),
                    bytes_written: wrapped(m.bytes_written + f.data.len()),
                    bytes_delivered: wrapped(
                        m.bytes_delivered + f.data.len() * delivered(self.subs, f, now),
                    ),
                    error_count: m.error_count,
                },
            }
        }
    }

    /// The bus after it was closed. The queues are closed too; frames in them can still be
    /// taken.
    pub open spec fn after_close(self) -> VirtualBusView {
        if self.closed {
            self
        } else {
            VirtualBusView {
                subs: Seq::new(
                    self.subs.len(),
                    |i: int|
                        if self.subs[i].attached {
                            VirtualSubView {
                                queue: SubView { closed: true, ..self.subs[i].queue },
                                attached: false,
                                ..self.subs[i]
                            }
                        } else {
                            self.subs[i]
                        },
                ),
                closed: true,
                metrics: self.metrics,
            }
        }
    }

    /// What holds of every bus: its subscriptions are sound, and those of a closed bus are
    /// closed.
    pub open spec fn sound(self) -> bool {
        &&& forall|i: int| 0 <= i < self.subs.len() ==> (#[trigger] self.subs[i]).sound()
        &&& self.closed ==> forall|i: int|
            0 <= i < self.subs.len() ==> (#[trigger] self.subs[i]).queue.closed
    }

    /// Whether no subscription that the bus serves has a frame waiting.
    pub open spec fn drained(self) -> bool {
        forall|i: int|
            0 <= i < self.subs.len() ==> (#[trigger] self.subs[i]).attached ==> self.subs[i].queue
                .queue.len() == 0
    }
}

proof fn lemma_wrapped_product(a: u64, n: u64, k: u64)
    ensures
        a.wrapping_add(n.wrapping_mul(k)) == wrapped(a + n * k),
{
    let m: int = 0x1_0000_0000_0000_0000;
    let p = n as int * k as int;
    assert(n as nat * k as nat == p) by (nonlinear_arith)
        requires
            p == n as int * k as int,
    ;
    vstd::arithmetic::div_mod::lemma_add_mod_noop_right(a as int, p, m);
    vstd::arithmetic::div_mod::lemma_mod_bound(p, m);
}

impl VirtualBus {
    /// A bus without subscriptions.
    pub fn new() -> (r: VirtualBus)
        ensures
            r.wf(),
            r@ == VirtualBusView::open(),
    {
        let r = VirtualBus {
            subs: Vec::new(),
            shut: false,
            counts: Metrics {
                write_count: 0,
                deliver_count: 0,
                drop_count: 0,
                bytes_written: 0,
                bytes_delivered: 0,
                error_count: 0,
            },
        };
        assert(r@.subs =~= Seq::empty());
        r
    }

    /// Serves a frame to every subscription and counts those that get it and those that
    /// drop it.
    fn broadcast(&mut self, frame: &Frame, now: u64) -> (r: (u64, u64))
        requires
            old(self).wf(),
        ensures
            final(self).wf(),
            final(self)@ == (VirtualBusView {
                subs: Seq::new(
                    old(self)@.subs.len(),
                    |i: int| old(self)@.subs[i].after_send(frame@, now as nat),
                ),
                ..old(self)@
            }),
            r.0 == delivered(old(self)@.subs, frame@, now as nat),
            r.1 == dropped(old(self)@.subs, frame@, now as nat),
    {
        let ghost start = self@.subs;
        let mut got: u64 = 0;
        let mut lost: u64 = 0;
        let mut i: usize = 0;
        assert(start.take(0) =~= Seq::empty());
        while i < self.subs.len()
            invariant
                i <= self.subs@.len(),
                self.subs@.len() == start.len(),
                start == old(self)@.subs,
                self.shut == old(self).shut,
                self.counts == old(self).counts,
                got <= i,
                lost <= i,
                got == delivered(start.take(i as int), frame@, now as nat),
                lost == dropped(start.take(i as int), frame@, now as nat),
                forall|j: int| 0 <= j < self.subs@.len() ==> (#[trigger] self.subs@[j]).wf(),
                forall|j: int|
                    0 <= j < i ==> (#[trigger] self.subs@[j])@ == start[j].after_send(
                        frame@,
                        now as nat,
                    ),
                forall|j: int|
                    i <= j < self.subs@.len() ==> (#[trigger] self.subs@[j])@ == start[j],
            decreases self.subs@.len() - i,
        {
            assert(self.subs@[i as int]@ == start[i as int]);
            let r = self.subs[i].offer(frame, now);
            proof {
                assert(start.take(i + 1).drop_last() =~= start.take(i as int));
                assert(start.take(i + 1).last() == start[i as int]);
            }
            match r {
                Some(true) => {
                    got = got + 1;
                },
                Some(false) => {
                    lost = lost + 1;
                },
                None => {},
            }
            i += 1;
        }
        assert(start.take(i as int) =~= start);
        assert(self@.subs =~= Seq::new(
            start.len(),
            |i: int| start[i].after_send(frame@, now as nat),
        ));
        (got, lost)
    }

    /// Takes the next frame of a subscription.
    pub fn recv(&mut self, sub: usize) -> (r: RecvOutcome)
        requires
            old(self).wf(),
            sub < old(self)@.subs.len(),
        ensures
            final(self).wf(),
            final(self)@ == (VirtualBusView {
                subs: old(self)@.subs.update(
                    sub as int,
                    VirtualSubView {
                        queue: old(self)@.subs[sub as int].queue.after_recv(),
                        ..old(self)@.subs[sub as int]
                    },
                ),
                ..old(self)@
            }),
            ({
                let s = old(self)@.subs[sub as int];
                let waiting = s.queue.queue;
                match r {
                    RecvOutcome::Got(f) => {
                        &&& waiting.len() > 0
                        &&& f@ == waiting[0]
                        &&& frame::any_passes(s.filters, f@.id)
                    },
                    RecvOutcome::Ended => waiting.len() == 0 && s.queue.closed,
                    RecvOutcome::Pending => waiting.len() == 0 && !s.queue.closed,
                }
            }),
    {
        let ghost before = self@;
        assert(self.subs@[sub as int].wf());
        let r = self.subs[sub].inner.recv();
        assert(self@.subs =~= before.subs.update(
            sub as int,
            VirtualSubView {
                queue: before.subs[sub as int].queue.after_recv(),
                ..before.subs[sub as int]
            },
        ));
        r
    }

    /// Closes one subscription, as its receiver does. Waiting frames can still be taken.
    pub fn unsubscribe(&mut self, sub: usize)
        requires
            old(self).wf(),
            sub < old(self)@.subs.len(),
        ensures
            final(self).wf(),
            final(self)@ == (VirtualBusView {
                subs: old(self)@.subs.update(
                    sub as int,
                    VirtualSubView {
                        queue: SubView { closed: true, ..old(self)@.subs[sub as int].queue },
                        ..old(self)@.subs[sub as int]
                    },
                ),
                ..old(self)@
            }),
    {
        let ghost before = self@;
        assert(self.subs@[sub as int].wf());
        self.subs[sub].inner.close();
        assert(self@.subs =~= before.subs.update(
            sub as int,
            VirtualSubView {
                queue: SubView { closed: true, ..before.subs[sub as int].queue },
                ..before.subs[sub as int]
            },
        ));
    }
}

impl Default for VirtualBus {
    fn default() -> (r: VirtualBus)
        ensures
            r.wf(),
            r@ == VirtualBusView::open(),
    {
        VirtualBus::new()
    }
}

impl Bus for VirtualBus {
    closed spec fn wf(&self) -> bool {
        &&& forall|i: int| 0 <= i < self.subs@.len() ==> (#[trigger] self.subs@[i]).wf()
        &&& self.shut ==> forall|i: int|
            0 <= i < self.subs@.len() ==> (#[trigger] self.subs@[i])@.queue.closed
    }

    open spec fn closed(&self) -> bool {
        self@.closed
    }

    open spec fn subscriptions(&self) -> nat {
        self@.subs.len()
    }

    fn send(&mut self, now: u64, frame: Frame) -> (r: Result<(), Error>)
        ensures
            final(self)@ == old(self)@.after_send(frame@, now as nat),
            match r {
                Ok(()) => old(self)@.send_result(frame@) == Ok::<(), ErrorView>(()),
                Err(e) => old(self)@.send_result(frame@) == Err::<(), ErrorView>(e@),
            },
    {
        if self.shut {
            self.counts.error_count = self.counts.error_count.wrapping_add(1);
            assert(self@ =~= old(self)@.after_send(frame@, now as nat));
            return Err(Error::Closed);
        }
        if let Err(e) = frame::validate_frame(&frame) {
            self.counts.error_count = self.counts.error_count.wrapping_add(1);
            assert(self@ =~= old(self)@.after_send(frame@, now as nat));
            return Err(e);
        }
        let len: u64 = frame.data.len() as u64;
        let (got, lost) = self.broadcast(&frame, now);
        proof {
            lemma_wrapped_product(self.counts.bytes_delivered, len, got);
        }
        self.counts.bytes_written = self.counts.bytes_written.wrapping_add(len);
        self.counts.write_count = self.counts.write_count.wrapping_add(1);
        self.counts.deliver_count = self.counts.deliver_count.wrapping_add(got);
        self.counts.drop_count = self.counts.drop_count.wrapping_add(lost);
        self.counts.bytes_delivered = self.counts.bytes_delivered.wrapping_add(
            len.wrapping_mul(got),
        );
        assert(self@ =~= old(self)@.after_send(frame@, now as nat));
        Ok(())
    }

    fn subscribe(&mut self, filters: Vec<Filter>, opts: SubscriberOptions) -> (r: Result<
        usize,
        Error,
    >)
        ensures
            final(self)@ == (if old(self)@.closed {
                old(self)@
            } else {
                VirtualBusView {
                    subs: old(self)@.subs.push(
                        VirtualSubView {
                            filters: filters@,
                            queue: SubView::fresh(
                                opts.depth(64) as nat,
                                opts.back_pressure,
                                opts.rate_limit_per_sec as nat,
                            ),
                            attached: true,
                        },
                    ),
                    ..old(self)@
                }
            }),
    {
        if self.shut {
            return Err(Error::Closed);
        }
        let number: usize = self.subs.len();
        let inner = SubInner::new(
            opts.chan_depth(DEFAULT_DEPTH),
            opts.back_pressure,
            opts.rate_limit_per_sec,
        );
        let ghost before = self@.subs;
        let sub = VirtualSub { filters, inner, attached: true };
        self.subs.push(sub);
        assert(self@.subs =~= before.push(sub@));
        Ok(number)
    }

    fn close(&mut self) -> (r: Result<(), Error>)
        ensures
            final(self)@ == old(self)@.after_close(),
            forall|i: int|
                0 <= i < final(self)@.subs.len() ==> (#[trigger] final(self)@.subs[i]).queue.closed,
    {
        if self.shut {
            return Ok(());
        }
        let ghost start = self@.subs;
        let ghost done = old(self)@.after_close().subs;
        let mut i: usize = 0;
        while i < self.subs.len()
            invariant
                i <= self.subs@.len(),
                self.subs@.len() == start.len(),
                done.len() == start.len(),
                !old(self).shut,
                start == old(self)@.subs,
                done == old(self)@.after_close().subs,
                self.shut == old(self).shut,
                self.counts == old(self).counts,
                forall|j: int| 0 <= j < self.subs@.len() ==> (#[trigger] self.subs@[j]).wf(),
                forall|j: int| 0 <= j < i ==> (#[trigger] self.subs@[j])@ == done[j],
                forall|j: int|
                    i <= j < self.subs@.len() ==> (#[trigger] self.subs@[j])@ == start[j],
            decreases self.subs@.len() - i,
        {
            assert(self.subs@[i as int]@ == start[i as int]);
            if self.subs[i].attached {
                self.subs[i].inner.close();
                self.subs[i].attached = false;
            }
            assert(self.subs@[i as int]@ =~= done[i as int]);
            i += 1;
        }
        self.shut = true;
        assert(self@.subs =~= done);
        Ok(())
    }
}

impl LoaningBus for VirtualBus {
    fn loan<F: FnOnce()>(&self) -> (r: Result<LoanedFrame<F>, Error>)
        ensures
            r matches Ok(l) ==> l.frame@ == frame::plain_frame(0, Seq::empty()) && l.release is None,
    {
        if self.shut {
            return Err(Error::Closed);
        }
        Ok(LoanedFrame::simple(Frame::default()))
    }

    fn send_loaned<F: FnOnce()>(&mut self, now: u64, frame: LoanedFrame<F>) -> (r: Result<
        (),
        Error,
    >)
        ensures
            final(self)@ == old(self)@.after_send(frame.frame@, now as nat),
            match r {
                Ok(()) => old(self)@.send_result(frame.frame@) == Ok::<(), ErrorView>(()),
                Err(e) => old(self)@.send_result(frame.frame@) == Err::<(), ErrorView>(e@),
            },
    {
        let f = frame.frame.clone();
        frame.return_loan();
        self.send(now, f)
    }
}

impl HealthProvider for VirtualBus {
    open spec fn report(&self) -> HealthView {
        if self@.closed {
            HealthView { status: HealthStatus::Down, message: "bus is closed"@ }
        } else {
            HealthView { status: HealthStatus::Up, message: Seq::empty() }
        }
    }

    fn health(&self) -> (r: Health) {
        if self.shut {
            Health::down("bus is closed")
        } else {
            Health::ok()
        }
    }
}

impl MetricsProvider for VirtualBus {
    open spec fn counters(&self) -> Metrics {
        self@.metrics
    }

    fn metrics(&self) -> (r: Metrics) {
        self.counts
    }
}

impl Drainer for VirtualBus {
    open spec fn drained(&self) -> bool {
        self@.drained()
    }

    fn close_with_drain(&mut self, deadline_passed: bool) -> (r: DrainStep)
        ensures
            r is Finished ==> final(self)@ == old(self)@.after_close(),
    {
        if deadline_passed {
            let _ = self.close();
            return DrainStep::Finished(Err(Error::Timeout));
        }
        let mut i: usize = 0;
        while i < self.subs.len()
            invariant
                i <= self.subs@.len(),
                !deadline_passed,
                self.wf(),
                *self == *old(self),
                forall|j: int|
                    0 <= j < i ==> (#[trigger] self@.subs[j]).attached ==> self@.subs[j].queue.queue
                        .len() == 0,
            decreases self.subs@.len() - i,
        {
            assert(self@.subs[i as int] == self.subs@[i as int]@);
            if self.subs[i].attached && !self.subs[i].inner.is_empty() {
                return DrainStep::Wait;
            }
            i += 1;
        }
        DrainStep::Finished(self.close())
    }
}

// ---------------------------------------------------------------------------
// Laws
// ---------------------------------------------------------------------------

/// Every subscription that wants a frame either gets it or drops it.
pub proof fn delivered_or_dropped(subs: Seq<VirtualSubView>, f: FrameView, now: nat)
    ensures
        delivered(subs, f, now) + dropped(subs, f, now) == wanted(subs, f),
    decreases subs.len(),
{
    if subs.len() > 0 {
        delivered_or_dropped(subs.drop_last(), f, now);
    }
}

/// A valid frame that is sent on an open bus reaches the end of the queue of every
/// subscription that wants it and has room for it, and changes no other queue.
pub proof fn broadcast_reaches_every_match(b: VirtualBusView, f: FrameView, now: nat, i: int)
    requires
        !b.closed,
        f.valid(),
        0 <= i < b.subs.len(),
    ensures
        b.send_result(f) is Ok,
        b.subs[i].gets(f, now) ==> b.after_send(f, now).subs[i].queue.queue.last() == f,
        b.subs[i].wants(f) && b.subs[i].queue.rate_limit == 0 && b.subs[i].queue.queue.len()
            < b.subs[i].queue.capacity ==> b.after_send(f, now).subs[i].queue.queue
            == b.subs[i].queue.queue.push(f),
        !b.subs[i].gets(f, now) ==> b.after_send(f, now).subs[i].queue.queue
            == b.subs[i].queue.queue,
{
    frame::fault_iff_invalid(f);
}

/// No frame that breaks a rule of its format gets onto the bus: it is refused, and no
/// queue changes.
pub proof fn invalid_frames_are_not_transmitted(b: VirtualBusView, f: FrameView, now: nat)
    requires
        !f.valid(),
    ensures
        b.send_result(f) is Err,
        b.after_send(f, now).subs == b.subs,
{
    frame::fault_iff_invalid(f);
}

/// A subscription whose filters a frame does not pass is left as it is when the frame is
/// sent, but for being dropped where its receiver has closed it.
pub proof fn filters_keep_frames_out(s: VirtualSubView, f: FrameView, now: nat)
    requires
        s.filters.len() > 0,
        forall|j: int| 0 <= j < s.filters.len() ==> !(#[trigger] s.filters[j]).passes(f.id),
    ensures
        !s.wants(f),
        s.after_send(f, now).queue == s.queue,
        s.after_send(f, now).filters == s.filters,
{
}

/// What every bus keeps holds of a new one, and sending and closing keep it.
pub proof fn soundness_is_kept(b: VirtualBusView, f: FrameView, now: nat)
    ensures
        VirtualBusView::open().sound(),
        b.sound() ==> b.after_send(f, now).sound(),
        b.sound() ==> b.after_close().sound(),
{
    if b.sound() {
        assert forall|i: int| 0 <= i < b.subs.len() implies (#[trigger] b.subs[i].after_send(
            f,
            now,
        )).sound() by {
            bus::queue_keeps_to_its_filters(b.subs[i].queue, b.subs[i].filters, f, now);
        }
        assert forall|i: int| 0 <= i < b.subs.len() implies (#[trigger] b.after_close().subs[i])
            .sound() by {
            assert(b.subs[i].sound());
        }
        assert forall|i: int| 0 <= i < b.subs.len() implies (
        #[trigger] b.after_close().subs[i]).queue.closed by {
            assert(b.subs[i].sound());
        }
    }
}

/// A bus that keeps its own invariants is sound.
pub proof fn every_bus_is_sound(b: VirtualBus)
    requires
        b.wf(),
    ensures
        b@.sound(),
{
    assert forall|i: int| 0 <= i < b@.subs.len() implies (#[trigger] b@.subs[i]).sound() by {
        assert(b.subs@[i].wf());
    }
}

/// Closing the bus ends every subscription: its queue is closed, so its receiver gets the
/// frames that waited, in order, and is then told of the end.
pub proof fn close_ends_every_subscription(b: VirtualBusView, i: int, n: nat)
    requires
        b.sound(),
        0 <= i < b.subs.len(),
    ensures
        b.after_close().subs[i].queue.closed,
        ({
            let waiting = b.subs[i].queue.queue;
            let left = b.after_close().subs[i].queue.after_recvs(n);
            &&& left.closed
            &&& n < waiting.len() ==> left.queue.len() > 0 && left.queue[0] == waiting[n as int]
            &&& n >= waiting.len() ==> left.queue.len() == 0
        }),
{
    assert(b.subs[i].sound());
    bus::closed_queue_is_read_to_its_end(b.after_close().subs[i].queue, n);
}

/// Closing twice is closing once, and frames that wait when the bus closes stay in their
/// queues.
pub proof fn close_is_idempotent_and_keeps_frames(b: VirtualBusView)
    ensures
        b.after_close().after_close() == b.after_close(),
        b.after_close().closed,
        b.after_close().subs.len() == b.subs.len(),
        forall|i: int|
            0 <= i < b.subs.len() ==> (#[trigger] b.after_close().subs[i]).queue.queue
                == b.subs[i].queue.queue,
{
}

/// A valid frame on an open bus goes into the queue of a subscription that is served and
/// open exactly where it has no filters or one of them matches, at any place of the list.
/// The queue then takes it as its policy and its rate limit say.
pub proof fn frames_go_where_filters_match(b: VirtualBusView, f: FrameView, now: nat, i: int)
    requires
        !b.closed,
        f.valid(),
        0 <= i < b.subs.len(),
    ensures
        ({
            let s = b.subs[i];
            let t = b.after_send(f, now).subs[i];
            let matched = s.filters.len() == 0 || exists|j: int|
                0 <= j < s.filters.len() && (#[trigger] s.filters[j]).passes(f.id);
            &&& s.attached && !s.queue.closed && matched ==> t.queue == s.queue.after_push(f, now)
            &&& !s.attached || s.queue.closed || !matched ==> t.queue == s.queue
            &&& t.filters == s.filters
            &&& t.attached ==> s.attached && !s.queue.closed
            &&& s.attached && !s.queue.closed ==> t.attached
        }),
        b.after_send(f, now).subs.len() == b.subs.len(),
        !b.after_send(f, now).closed,
{
    frame::fault_iff_invalid(f);
}

/// A frame that is sent counts once as written with all its bytes, once as delivered with
/// all its bytes for each subscription that gets it, and once as dropped for each whose
/// queue has no room; a frame that is refused counts as an error and as nothing else.
/// Stated for counters that are far from their largest value.
pub proof fn counters_of_a_send(b: VirtualBusView, f: FrameView, now: nat)
    requires
        b.subs.len() < 0x1_0000,
        f.data.len() < 0x1_0000,
        b.metrics.write_count < 0x1_0000_0000,
        b.metrics.deliver_count < 0x1_0000_0000,
        b.metrics.drop_count < 0x1_0000_0000,
        b.metrics.bytes_written < 0x1_0000_0000,
        b.metrics.bytes_delivered < 0x1_0000_0000,
        b.metrics.error_count < 0x1_0000_0000,
    ensures
        ({
            let m = b.metrics;
            let n = b.after_send(f, now).metrics;
            let got = n.deliver_count - m.deliver_count;
            if b.closed || !f.valid() {
                &&& n.error_count == m.error_count + 1
                &&& n.write_count == m.write_count && n.bytes_written == m.bytes_written
                &&& got == 0 && n.drop_count == m.drop_count && n.bytes_delivered
                    == m.bytes_delivered
            } else {
                &&& n.error_count == m.error_count
                &&& n.write_count == m.write_count + 1
                &&& n.bytes_written == m.bytes_written + f.data.len()
                &&& got + (n.drop_count - m.drop_count) == wanted(b.subs, f)
                &&& n.bytes_delivered - m.bytes_delivered == f.data.len() * got
                &&& 0 <= got <= b.subs.len()
            }
        }),
{
    frame::fault_iff_invalid(f);
    delivered_or_dropped(b.subs, f, now);
    lemma_wanted_bound(b.subs, f);
    let got = delivered(b.subs, f, now);
    let len = f.data.len();
    assert(0 <= len * got <= 0x1_0000 * 0x1_0000) by (nonlinear_arith)
        requires
            0 <= len < 0x1_0000,
            0 <= got < 0x1_0000,
    ;
}

proof fn lemma_wanted_bound(subs: Seq<VirtualSubView>, f: FrameView)
    ensures
        wanted(subs, f) <= subs.len(),
    decreases subs.len(),
{
    if subs.len() > 0 {
        lemma_wanted_bound(subs.drop_last(), f);
    }
}

/// How many subscriptions get a frame: none of an empty list, and of a longer one those in
/// front and the last where its queue takes the frame and it wants it.
pub proof fn deliveries_are_counted_one_by_one(
    subs: Seq<VirtualSubView>,
    s: VirtualSubView,
    f: FrameView,
    now: nat,
)
    ensures
        ({
            let matched = s.filters.len() == 0 || exists|j: int|
                0 <= j < s.filters.len() && (#[trigger] s.filters[j]).passes(f.id);
            let wants = s.attached && !s.queue.closed && matched;
            &&& delivered(Seq::empty(), f, now) == 0
            &&& dropped(Seq::empty(), f, now) == 0
            &&& delivered(subs.push(s), f, now) - delivered(subs, f, now) == (if wants
                && s.queue.accepts(now) {
                1int
            } else {
                0
            })
            &&& dropped(subs.push(s), f, now) - dropped(subs, f, now) == (if wants
                && !s.queue.accepts(now) {
                1int
            } else {
                0
            })
        }),
{
    assert(subs.push(s).drop_last() =~= subs);
}

/// A bus counts as drained exactly when no subscription that it still serves has a frame
/// waiting, and a closed one is down for good: it refuses every frame.
pub proof fn closed_buses_refuse(b: VirtualBusView, f: FrameView, now: nat)
    ensures
        b.after_close().send_result(f) == Err::<(), ErrorView>(ErrorView::Closed),
        b.after_close().after_send(f, now).subs == b.after_close().subs,
        !b.closed ==> (b.send_result(f) is Ok <==> f.valid()),
        b.after_close().closed && b.after_close().metrics == b.metrics,
        b.after_close().subs.len() == b.subs.len(),
        forall|i: int|
            0 <= i < b.subs.len() ==> (#[trigger] b.after_close().subs[i]).queue.queue
                == b.subs[i].queue.queue,
        !b.closed ==> forall|i: int|
            0 <= i < b.subs.len() ==> !(#[trigger] b.after_close().subs[i]).attached && (
            b.subs[i].attached ==> b.after_close().subs[i].queue.closed),
        b.drained() <==> forall|i: int|
            0 <= i < b.subs.len() && (#[trigger] b.subs[i]).attached ==> b.subs[i].queue.queue.len()
                == 0,
{
    frame::fault_iff_invalid(f);
}

/// A bus reports that it is up exactly as long as it is open, and its counters as they are.
pub proof fn health_of_a_bus(b: VirtualBus)
    ensures
        b.report().status == HealthStatus::Up <==> !b@.closed,
        b.counters() == b@.metrics,
        VirtualBusView::open().subs.len() == 0 && !VirtualBusView::open().closed,
        VirtualBusView::open().metrics.write_count == 0
            && VirtualBusView::open().metrics.deliver_count == 0
            && VirtualBusView::open().metrics.drop_count == 0
            && VirtualBusView::open().metrics.bytes_written == 0
            && VirtualBusView::open().metrics.bytes_delivered == 0
            && VirtualBusView::open().metrics.error_count == 0,
{
}

} // verus!
