//! The runs of a benchmark: each keeps a window of messages on their way until all were
//! delivered or time is up.

use crate::exchange::{
    law_incoming_bytes_are_always_counted, law_seen_data_is_not_answered, reaction, ReactionView,
};
use crate::metrics::{
    accounted, capped, is_reading, law_acknowledging_is_accounted, law_counting_changes_one_count,
    law_sending_counts_frame_and_payload, law_sending_is_accounted, now, nth_id, Metrics,
    MetricsState,
};
use crate::peer::{valid_peer, PeerId};
use crate::wire::{
    data_frame, decoded, encode_data, law_data_reads_back, lemma_data_frame_len, Message,
};
use std::time::Instant;
use vstd::prelude::*;

verus! {

/// How long a run may take, in nanoseconds.
pub const RUN_TIMEOUT_NANOS: u128 = 120_000_000_000;

/// How many messages are sent before incoming ones are looked at.
pub const MAX_BURST: usize = 64;

/// How long to wait after a message could not be published, in milliseconds.
pub const RETRY_PAUSE_MILLIS: u64 = 50;

/// How large a message may be for the network to carry it.
pub const MAX_TRANSMIT_SIZE: usize = 65536;

/// The byte that payloads are filled with.
pub const PAYLOAD_BYTE: u8 = 0x78;

/// The sizes of payloads.
pub open spec fn payload_sizes() -> Seq<usize> {
    seq![32, 1024, 4096]
}

/// The numbers of messages.
pub open spec fn message_counts() -> Seq<usize> {
    seq![100, 1000, 5000]
}

/// The runs of a benchmark: each size with each number of messages, size by size.
pub fn bench_plan() -> (r: Vec<(usize, usize)>)
    ensures
        r@ == Seq::new(9, |i: int| (payload_sizes()[i / 3], message_counts()[i % 3])),
{
    let r: Vec<(usize, usize)> = vec![
        (32, 100),
        (32, 1000),
        (32, 5000),
        (1024, 100),
        (1024, 1000),
        (1024, 5000),
        (4096, 100),
        (4096, 1000),
        (4096, 5000),
    ];
    assert(r@ =~= Seq::new(9, |i: int| (payload_sizes()[i / 3], message_counts()[i % 3])));
    r
}

/// The network can carry every frame of every planned run, whatever its number and its sender.
pub proof fn law_planned_frames_fit(i: int, id: u64, sender: Seq<u8>, payload: Seq<u8>)
    requires
        0 <= i < 9,
        valid_peer(sender),
        payload.len() == payload_sizes()[i / 3],
    ensures
        data_frame(id, sender, payload).len() == 10 + sender.len() + payload.len(),
        data_frame(id, sender, payload).len() <= MAX_TRANSMIT_SIZE,
{
    lemma_data_frame_len(id, sender, payload);
}

/// What a run does next.
pub enum RunAction {
    /// Publish this frame, and report how that went.
    Publish(Vec<u8>),
    /// Wait for an incoming message or the next sample.
    Wait,
    /// The run is over.
    Finish,
}

/// What a run does next.
pub enum RunActionView {
    Publish(Seq<u8>),
    Wait,
    Finish,
}

impl View for RunAction {
    type V = RunActionView;

    open spec fn view(&self) -> RunActionView {
        match *self {
            RunAction::Publish(frame) => RunActionView::Publish(frame@),
            RunAction::Wait => RunActionView::Wait,
            RunAction::Finish => RunActionView::Finish,
        }
    }
}

/// How to go on after a frame was offered for publishing.
#[derive(Clone, Copy, Debug, PartialEq, Eq, Structural)]
pub enum Pause {
    /// Let others run.
    Yield,
    /// Wait a little, then let others run.
    Retry,
}

/// A frame that was handed out for publishing.
#[derive(Clone, Copy, Debug, PartialEq, Eq, Structural)]
pub struct Offer {
    /// Its number.
    pub id: u64,
    /// Its size.
    pub bytes: usize,
}

/// A run of the benchmark.
pub struct BenchRun {
    requested: usize,
    payload: Vec<u8>,
    in_flight: usize,
    sent: usize,
    burst: usize,
    offered: Option<Offer>,
}

/// The state of a run.
#[verifier::ext_equal]
pub struct RunState {
    /// How many messages to deliver.
    pub requested: usize,
    /// What each message carries.
    pub payload: Seq<u8>,
    /// How many messages may be on their way at once.
    pub in_flight: usize,
    /// How many messages were published.
    pub sent: usize,
    /// How many messages were published since incoming ones were looked at.
    pub burst: usize,
    /// The frame that was handed out for publishing.
    pub offered: Option<Offer>,
}

impl View for BenchRun {
    type V = RunState;

    closed spec fn view(&self) -> RunState {
        RunState {
            requested: self.requested,
            payload: self.payload@,
            in_flight: self.in_flight,
            sent: self.sent,
            burst: self.burst,
            offered: self.offered,
        }
    }
}

/// Whether a run has taken too long.
pub open spec fn timed_out(elapsed_nanos: u128) -> bool {
    elapsed_nanos > RUN_TIMEOUT_NANOS
}

impl RunState {
    /// A run that has sent nothing.
    pub open spec fn fresh(requested: usize, size: usize, in_flight: usize) -> RunState {
        RunState {
            requested,
            payload: Seq::new(size as nat, |i: int| PAYLOAD_BYTE),
            in_flight,
            sent: 0,
            burst: 0,
            offered: None,
        }
    }

    /// Whether another message may be published.
    pub open spec fn may_publish(self, m: MetricsState, elapsed_nanos: u128) -> bool {
        &&& self.sent < self.requested
        &&& m.pending.len() < self.in_flight
        &&& self.burst < MAX_BURST
        &&& !timed_out(elapsed_nanos)
    }

    /// Whether all that was requested was published and acknowledged.
    pub open spec fn complete(self, m: MetricsState) -> bool {
        self.sent == self.requested && m.pending.len() == 0
    }

    /// The run, the metrics, and the action after a look at the clock.
    pub open spec fn next(self, m: MetricsState, local: Seq<u8>, elapsed_nanos: u128) -> (
        RunState,
        MetricsState,
        RunActionView,
    ) {
        if self.may_publish(m, elapsed_nanos) {
            let frame = data_frame(m.next_id, local, self.payload);
            (
                RunState { offered: Some((Offer { id: m.next_id, bytes: frame.len() as usize })), ..self },
                m.id_taken(),
                RunActionView::Publish(frame),
            )
        } else if self.complete(m) || timed_out(elapsed_nanos) {
            (self, m, RunActionView::Finish)
        } else {
            (RunState { burst: 0, ..self }, m, RunActionView::Wait)
        }
    }

    /// The run after the offered frame was published.
    pub open spec fn published(self) -> RunState {
        RunState {
            sent: (self.sent + 1) as usize,
            burst: (self.burst + 1) as usize,
            offered: None,
            ..self
        }
    }

    /// The run after the offered frame could not be published.
    pub open spec fn refused(self) -> RunState {
        RunState { offered: None, ..self }
    }

    /// The metrics after the offered frame was published.
    pub open spec fn metrics_published(self, m: MetricsState, sent_at: Instant) -> MetricsState {
        m.with_data_sent(
            self.offered->0.id,
            self.offered->0.bytes,
            self.payload.len() as usize,
            sent_at,
        )
    }
}

impl BenchRun {
    /// There is room to count the offered frame.
    pub open spec fn wf(&self) -> bool {
        &&& self@.sent <= self@.requested
        &&& self@.burst <= MAX_BURST
        &&& self@.offered is Some ==> self@.sent < self@.requested && self@.burst < MAX_BURST
    }

    /// Starts a run, with metrics that start over.
    pub fn start(metrics: &mut Metrics, requested: usize, size: usize, in_flight: usize) -> (r:
        BenchRun)
        ensures
            final(metrics).wf(),
            final(metrics)@ == MetricsState::fresh(old(metrics)@.next_id),
            r.wf(),
            r@ == RunState::fresh(requested, size, in_flight),
    {
        metrics.reset_run();
        let payload: Vec<u8> = vec![PAYLOAD_BYTE; size];
        let r = BenchRun { requested, payload, in_flight, sent: 0, burst: 0, offered: None };
        assert(r@ =~= RunState::fresh(requested, size, in_flight));
        r
    }

    /// What to do so many nanoseconds after the start: publish while the window, the burst
    /// and the time allow it; finish once all is delivered or time is up; otherwise wait.
    pub fn next(&mut self, metrics: &mut Metrics, local: &PeerId, elapsed_nanos: u128) -> (r:
        RunAction)
        requires
            old(self).wf(),
            old(self)@.offered is None,
            old(metrics).wf(),
        ensures
            final(self).wf(),
            final(metrics).wf(),
            (final(self)@, final(metrics)@, r@) == old(self)@.next(
                old(metrics)@,
                local@,
                elapsed_nanos,
            ),
    {
        let late: bool = elapsed_nanos > RUN_TIMEOUT_NANOS;
        let pending: usize = metrics.pending_len();
        if self.sent < self.requested && pending < self.in_flight && self.burst < MAX_BURST
            && !late {
            let id: u64 = metrics.alloc_id();
            let frame = encode_data(id, local, self.payload.as_slice());
            self.offered = Some(Offer { id, bytes: frame.len() });
            RunAction::Publish(frame)
        } else if (self.sent == self.requested && pending == 0) || late {
            RunAction::Finish
        } else {
            self.burst = 0;
            RunAction::Wait
        }
    }

    /// Notes that the offered frame was published, at the given time.
    pub fn published_at(&mut self, metrics: &mut Metrics, sent_at: Instant)
        requires
            old(self).wf(),
            old(self)@.offered is Some,
            old(metrics).wf(),
        ensures
            final(self).wf(),
            final(metrics).wf(),
            final(self)@ == old(self)@.published(),
            final(metrics)@ == old(self)@.metrics_published(old(metrics)@, sent_at),
    {
        if let Some(offer) = self.offered {
            metrics.note_data_send_at(offer.id, offer.bytes, self.payload.len(), sent_at);
        }
        self.sent = self.sent + 1;
        self.burst = self.burst + 1;
        self.offered = None;
    }

    /// Notes whether the offered frame was published, now, and tells how to go on.
    pub fn published(&mut self, metrics: &mut Metrics, success: bool) -> (r: Pause)
        requires
            old(self).wf(),
            old(self)@.offered is Some,
            old(metrics).wf(),
        ensures
            final(self).wf(),
            final(metrics).wf(),
            success ==> {
                &&& r == Pause::Yield
                &&& final(self)@ == old(self)@.published()
                &&& exists|sent_at: Instant|
                    is_reading(sent_at) && final(metrics)@ == #[trigger] old(self)@.metrics_published(
                        old(metrics)@,
                        sent_at,
                    )
            },
            !success ==> {
                &&& r == Pause::Retry
                &&& final(self)@ == old(self)@.refused()
                &&& final(metrics)@ == old(metrics)@.with_publish_failed()
            },
    {
        if success {
            self.published_at(metrics, now());
            Pause::Yield
        } else {
            metrics.note_publish_failed();
            self.offered = None;
            Pause::Retry
        }
    }
}

/// A run with its metrics.
#[verifier::ext_equal]
pub struct Course {
    pub run: RunState,
    pub metrics: MetricsState,
}

/// What may happen in the course of a run.
pub enum CourseEvent {
    /// The clock is looked at, so many nanoseconds after the start.
    Look(u128),
    /// The offered frame was published, at this time.
    Published(Instant),
    /// The offered frame could not be published.
    Refused,
    /// A message of so many bytes came in, which says this, and with this round-trip time if
    /// it acknowledges data on its way.
    Incoming(usize, Option<Message>, u64),
    /// An acknowledgement of so many bytes was published.
    AckPublished(usize),
}

impl Course {
    /// The start of a run that numbers its messages from `first` on.
    pub open spec fn start(first: u64, requested: usize, size: usize, in_flight: usize) -> Course {
        Course {
            run: RunState::fresh(requested, size, in_flight),
            metrics: MetricsState::fresh(first),
        }
    }

    /// A frame is offered, and then published or refused before anything else happens.
    pub open spec fn may_follow(self, event: CourseEvent) -> bool {
        match event {
            CourseEvent::Published(_) | CourseEvent::Refused => self.run.offered is Some,
            _ => self.run.offered is None,
        }
    }

    /// The course after an event.
    pub open spec fn after(self, local: Seq<u8>, event: CourseEvent) -> Course {
        match event {
            CourseEvent::Look(elapsed_nanos) => {
                let (run, metrics, _) = self.run.next(self.metrics, local, elapsed_nanos);
                Course { run, metrics }
            },
            CourseEvent::Published(sent_at) => Course {
                run: self.run.published(),
                metrics: self.run.metrics_published(self.metrics, sent_at),
            },
            CourseEvent::Refused => Course {
                run: self.run.refused(),
                metrics: self.metrics.with_publish_failed(),
            },
            CourseEvent::Incoming(len, message, us) => Course {
                metrics: reaction(self.metrics, local, len, message, us).0,
                ..self
            },
            CourseEvent::AckPublished(bytes) => Course {
                metrics: self.metrics.with_outgoing(bytes),
                ..self
            },
        }
    }

    /// The course after some events.
    pub open spec fn after_all(self, local: Seq<u8>, events: Seq<CourseEvent>) -> Course
        decreases events.len(),
    {
        if events.len() == 0 {
            self
        } else {
            self.after_all(local, events.drop_last()).after(local, events.last())
        }
    }

    /// Whether events may come one after the other.
    pub open spec fn may_follow_all(self, local: Seq<u8>, events: Seq<CourseEvent>) -> bool
        decreases events.len(),
    {
        events.len() > 0 ==> {
            &&& self.may_follow_all(local, events.drop_last())
            &&& self.after_all(local, events.drop_last()).may_follow(events.last())
        }
    }

    /// Whether an event hands out a frame for publishing.
    pub open spec fn is_offer(self, event: CourseEvent) -> bool {
        event matches CourseEvent::Look(elapsed_nanos) && self.run.may_publish(
            self.metrics,
            elapsed_nanos,
        )
    }

    /// Whether the last of the first `i` events hands out a frame.
    pub open spec fn offers_at(self, local: Seq<u8>, events: Seq<CourseEvent>, i: int) -> bool {
        self.after_all(local, events.take(i - 1)).is_offer(events[i - 1])
    }

    /// How many frames some events hand out.
    pub open spec fn offers(self, local: Seq<u8>, events: Seq<CourseEvent>) -> nat
        decreases events.len(),
    {
        if events.len() == 0 {
            0
        } else {
            self.offers(local, events.drop_last()) + if self.after_all(
                local,
                events.drop_last(),
            ).is_offer(events.last()) {
                1nat
            } else {
                0nat
            }
        }
    }

    /// What holds throughout a run: no more is sent than requested, no more is on its way than
    /// the window allows, no more is delivered or on its way than was sent, and no burst is
    /// longer than allowed.
    pub open spec fn in_bounds(self) -> bool {
        &&& self.metrics.wf()
        &&& self.run.sent <= self.run.requested
        &&& self.run.burst <= MAX_BURST
        &&& self.metrics.pending.len() <= self.run.in_flight
        &&& self.metrics.counts.data_sent == self.run.sent
        &&& accounted(self.metrics)
        &&& self.run.offered is Some ==> {
            &&& self.run.sent < self.run.requested
            &&& self.run.burst < MAX_BURST
            &&& self.metrics.pending.len() < self.run.in_flight
        }
    }

    /// How many frames were handed out: those that were sent, those that could not be sent,
    /// and the one that is offered.
    pub open spec fn handed_out(self) -> nat {
        (self.metrics.counts.data_sent + self.metrics.counts.publish_failed + if self.run.offered is Some {
            1int
        } else {
            0int
        }) as nat
    }

    /// What was sent is delivered or on its way, under numbers among the first `taken` from
    /// `first` on, which are those that were handed out.
    spec fn in_balance(self, first: u64, taken: nat) -> bool {
        let unoffered: int = if self.run.offered is Some {
            taken - 1
        } else {
            taken as int
        };
        &&& self.metrics.next_id == nth_id(first, taken)
        &&& forall|id: u64| #[trigger]
            self.metrics.pending.contains_key(id) ==> (id - first) % 0x1_0000_0000_0000_0000
                < unoffered
        &&& self.run.offered matches Some(offer) ==> taken > 0 && offer.id == nth_id(
            first,
            (taken - 1) as nat,
        )
        &&& self.metrics.pending.len() + self.metrics.counts.data_delivered
            == self.metrics.counts.data_sent
        &&& taken == self.handed_out()
        &&& self.metrics.counts.payload_bytes_sent == payload_total(
            self.metrics.counts.data_sent as nat,
            self.run.payload.len(),
        )
    }
}

/// The size of so many payloads together, at most the highest number.
pub open spec fn payload_total(count: nat, size: nat) -> int {
    if count * size > u64::MAX {
        u64::MAX as int
    } else {
        (count * size) as int
    }
}

/// Throughout a run, whatever comes in and whenever the clock is looked at, no more is sent
/// than requested, no more is on its way than the window allows, and no more is delivered
/// than was sent.
pub proof fn law_run_stays_in_bounds(
    first: u64,
    requested: usize,
    size: usize,
    in_flight: usize,
    local: Seq<u8>,
    events: Seq<CourseEvent>,
)
    requires
        Course::start(first, requested, size, in_flight).may_follow_all(local, events),
    ensures
        Course::start(first, requested, size, in_flight).after_all(local, events).in_bounds(),
        Course::start(first, requested, size, in_flight).after_all(local, events).run.requested
            == requested,
        Course::start(first, requested, size, in_flight).after_all(local, events).run.in_flight
            == in_flight,
        Course::start(first, requested, size, in_flight).after_all(local, events).run.payload
            == RunState::fresh(requested, size, in_flight).payload,
    decreases events.len(),
{
    if events.len() > 0 {
        let front = events.drop_last();
        law_run_stays_in_bounds(first, requested, size, in_flight, local, front);
        let before = Course::start(first, requested, size, in_flight).after_all(local, front);
        lemma_in_bounds_after(before, local, events.last());
    }
}

proof fn lemma_in_bounds_after(c: Course, local: Seq<u8>, event: CourseEvent)
    requires
        c.in_bounds(),
        c.may_follow(event),
    ensures
        c.after(local, event).in_bounds(),
{
    match event {
        CourseEvent::Published(sent_at) => {
            law_sending_is_accounted(
                c.metrics,
                c.run.offered->0.id,
                c.run.offered->0.bytes,
                c.run.payload.len() as usize,
                sent_at,
            );
        },
        CourseEvent::Incoming(len, Some(Message::Ack { id, target }), us) => {
            law_acknowledging_is_accounted(c.metrics.with_incoming(len), id, us);
        },
        _ => {},
    }
}

/// In the course of fewer than 2 to the 64 events, all that was sent is delivered or on its
/// way. So a run that finishes before its time is up has delivered exactly what was
/// requested.
pub proof fn law_finished_run_delivered_all(
    first: u64,
    requested: usize,
    size: usize,
    in_flight: usize,
    local: Seq<u8>,
    events: Seq<CourseEvent>,
    elapsed_nanos: u128,
)
    requires
        Course::start(first, requested, size, in_flight).may_follow_all(local, events),
        events.len() < 0x1_0000_0000_0000_0000,
    ensures
        ({
            let c = Course::start(first, requested, size, in_flight).after_all(local, events);
            let counts = c.metrics.counts;
            &&& c.metrics.pending.len() + counts.data_delivered == counts.data_sent
            &&& c.run.next(c.metrics, local, elapsed_nanos).2 is Finish && !timed_out(elapsed_nanos)
                ==> counts.data_sent == requested && counts.data_delivered == requested
        }),
{
    law_run_stays_in_bounds(first, requested, size, in_flight, local, events);
    lemma_in_balance(first, requested, size, in_flight, local, events);
}

/// In the course of fewer than 2 to the 64 events, all that was sent is delivered or on its
/// way; numbers are taken one after the other from `first` on, one for each frame that was
/// handed out; what is on its way has one of the numbers of the frames that were sent or could
/// not be; and the payload bytes sent are as many payloads as were sent.
pub proof fn law_run_balances(
    first: u64,
    requested: usize,
    size: usize,
    in_flight: usize,
    local: Seq<u8>,
    events: Seq<CourseEvent>,
)
    requires
        Course::start(first, requested, size, in_flight).may_follow_all(local, events),
        events.len() < 0x1_0000_0000_0000_0000,
    ensures
        ({
            let c = Course::start(first, requested, size, in_flight).after_all(local, events);
            let counts = c.metrics.counts;
            let done = (counts.data_sent + counts.publish_failed) as nat;
            &&& c.metrics.pending.len() + counts.data_delivered == counts.data_sent
            &&& c.run.offered is None ==> c.metrics.next_id == nth_id(first, done)
            &&& c.run.offered matches Some(offer) ==> {
                &&& offer.id == nth_id(first, done)
                &&& c.metrics.next_id == nth_id(first, done + 1)
            }
            &&& forall|id: u64| #[trigger]
                c.metrics.pending.contains_key(id) ==> exists|k: nat|
                    k < done && id == #[trigger] nth_id(first, k)
            &&& counts.payload_bytes_sent == payload_total(counts.data_sent as nat, size as nat)
        }),
{
    let c = Course::start(first, requested, size, in_flight).after_all(local, events);
    let done = (c.metrics.counts.data_sent + c.metrics.counts.publish_failed) as nat;
    law_run_stays_in_bounds(first, requested, size, in_flight, local, events);
    lemma_in_balance(first, requested, size, in_flight, local, events);
    assert forall|id: u64| #[trigger] c.metrics.pending.contains_key(id) implies exists|k: nat|
        k < done && id == #[trigger] nth_id(first, k) by {
        let k = ((id - first) % 0x1_0000_0000_0000_0000) as nat;
        assert(id == nth_id(first, k));
    }
}

/// What was seen stays seen, whatever happens in the course of a run.
pub proof fn law_seen_data_stays_seen(
    c: Course,
    local: Seq<u8>,
    events: Seq<CourseEvent>,
    sender: Seq<u8>,
    id: u64,
)
    requires
        c.metrics.seen.contains((sender, id)),
    ensures
        c.after_all(local, events).metrics.seen.contains((sender, id)),
    decreases events.len(),
{
    if events.len() > 0 {
        law_seen_data_stays_seen(c, local, events.drop_last(), sender, id);
    }
}

/// Data is acknowledged once: once data of another peer came in, whatever happens afterwards,
/// data with that number from that peer, whatever its payload, is counted as a duplicate, and
/// is answered by nothing.
pub proof fn law_data_is_never_answered_again(
    c: Course,
    local: Seq<u8>,
    id: u64,
    sender: Seq<u8>,
    payload1: Seq<u8>,
    len1: usize,
    us1: u64,
    events: Seq<CourseEvent>,
    payload2: Seq<u8>,
    len2: usize,
    us2: u64,
)
    requires
        sender != local,
    ensures
        ({
            let message1 = Some((Message::Data { id, sender, payload: payload1 }));
            let message2 = Some((Message::Data { id, sender, payload: payload2 }));
            let later = c.after(local, CourseEvent::Incoming(len1, message1, us1)).after_all(
                local,
                events,
            );
            reaction(later.metrics, local, len2, message2, us2) == (
                later.metrics.with_incoming(len2).with_duplicate(),
                ReactionView::Nothing,
            )
        }),
{
    let message1 = Some((Message::Data { id, sender, payload: payload1 }));
    let noted = c.after(local, CourseEvent::Incoming(len1, message1, us1));
    law_seen_data_stays_seen(noted, local, events, sender, id);
    let later = noted.after_all(local, events);
    law_seen_data_is_not_answered(later.metrics, local, id, sender, payload2, len2, us2);
}

proof fn lemma_in_balance(
    first: u64,
    requested: usize,
    size: usize,
    in_flight: usize,
    local: Seq<u8>,
    events: Seq<CourseEvent>,
)
    requires
        Course::start(first, requested, size, in_flight).may_follow_all(local, events),
        events.len() < 0x1_0000_0000_0000_0000,
    ensures
        Course::start(first, requested, size, in_flight).offers(local, events) <= events.len(),
        Course::start(first, requested, size, in_flight).after_all(local, events).in_balance(
            first,
            Course::start(first, requested, size, in_flight).offers(local, events),
        ),
    decreases events.len(),
{
    let start = Course::start(first, requested, size, in_flight);
    if events.len() > 0 {
        let front = events.drop_last();
        lemma_in_balance(first, requested, size, in_flight, local, front);
        law_run_stays_in_bounds(first, requested, size, in_flight, local, front);
        lemma_in_balance_after(
            start.after_all(local, front),
            local,
            events.last(),
            first,
            start.offers(local, front),
        );
    }
}

proof fn lemma_in_balance_after(
    c: Course,
    local: Seq<u8>,
    event: CourseEvent,
    first: u64,
    taken: nat,
)
    requires
        c.in_bounds(),
        c.may_follow(event),
        c.in_balance(first, taken),
        c.run.payload.len() <= usize::MAX,
        taken < 0x1_0000_0000_0000_0000,
    ensures
        c.after(local, event).in_balance(
            first,
            taken + if c.is_offer(event) {
                1nat
            } else {
                0nat
            },
        ),
{
    let d = c.after(local, event);
    match event {
        CourseEvent::Published(sent_at) => {
            let id = c.run.offered->0.id;
            let size = c.run.payload.len();
            let sent = c.metrics.counts.data_sent as nat;
            assert((sent + 1) * size == sent * size + size) by (nonlinear_arith);
            assert((id - first) % 0x1_0000_0000_0000_0000 == taken - 1);
            assert(!c.metrics.pending.contains_key(id));
            assert forall|k: u64| #[trigger] d.metrics.pending.contains_key(k) implies (k - first)
                % 0x1_0000_0000_0000_0000 < taken by {
                if k != id {
                    assert(c.metrics.pending.contains_key(k));
                }
            }
        },
        CourseEvent::Incoming(len, message, us) => {
            if let Some(Message::Ack { id, target }) = message {
                law_acknowledging_is_accounted(c.metrics.with_incoming(len), id, us);
            }
            assert forall|k: u64| #[trigger] d.metrics.pending.contains_key(k) implies (k - first)
                % 0x1_0000_0000_0000_0000 < taken by {
                assert(c.metrics.pending.contains_key(k));
            }
        },
        _ => {},
    }
}

proof fn lemma_prefix(c: Course, local: Seq<u8>, events: Seq<CourseEvent>, i: int, j: int)
    requires
        c.may_follow_all(local, events),
        0 <= i <= j <= events.len(),
    ensures
        c.may_follow_all(local, events.take(j)),
        c.offers(local, events.take(i)) <= c.offers(local, events.take(j)),
        c.offers_at(local, events, j) && i < j ==> c.offers(local, events.take(i)) < c.offers(
            local,
            events.take(j),
        ),
    decreases events.len() - j,
{
    if j < events.len() {
        lemma_prefix(c, local, events, j, j + 1);
        assert(events.take(j + 1).drop_last() =~= events.take(j));
    } else {
        assert(events.take(j) =~= events);
    }
    if i < j {
        lemma_prefix_step(c, local, events, i, j);
    }
}

proof fn lemma_prefix_step(c: Course, local: Seq<u8>, events: Seq<CourseEvent>, i: int, j: int)
    requires
        0 <= i < j <= events.len(),
    ensures
        c.offers(local, events.take(i)) <= c.offers(local, events.take(j)),
        c.offers_at(local, events, j) ==> c.offers(local, events.take(i)) < c.offers(
            local,
            events.take(j),
        ),
    decreases j - i,
{
    assert(events.take(j).drop_last() =~= events.take(j - 1));
    if i < j - 1 {
        lemma_prefix_step(c, local, events, i, j - 1);
    }
}

proof fn lemma_offered_number(
    first: u64,
    requested: usize,
    size: usize,
    in_flight: usize,
    local: Seq<u8>,
    events: Seq<CourseEvent>,
    i: int,
)
    requires
        Course::start(first, requested, size, in_flight).may_follow_all(local, events),
        events.len() < 0x1_0000_0000_0000_0000,
        0 < i <= events.len(),
        Course::start(first, requested, size, in_flight).offers_at(local, events, i),
    ensures
        ({
            let start = Course::start(first, requested, size, in_flight);
            let offered = start.after_all(local, events.take(i)).run.offered;
            let count = start.offers(local, events.take(i));
            &&& offered is Some
            &&& 0 < count <= start.offers(local, events) <= events.len()
            &&& offered->0.id == nth_id(first, (count - 1) as nat)
        }),
{
    let start = Course::start(first, requested, size, in_flight);
    lemma_prefix(start, local, events, 0, i);
    lemma_prefix(start, local, events, i, events.len() as int);
    lemma_in_balance(first, requested, size, in_flight, local, events);
    lemma_in_balance(first, requested, size, in_flight, local, events.take(i));
    assert(events.take(i).drop_last() =~= events.take(i - 1));
    assert(events.take(events.len() as int) =~= events);
}

/// Every frame that a run hands out for publishing has a number of its own, as long as the
/// run sees fewer than 2 to the 64 events.
pub proof fn law_offers_have_their_own_numbers(
    first: u64,
    requested: usize,
    size: usize,
    in_flight: usize,
    local: Seq<u8>,
    events: Seq<CourseEvent>,
    i: int,
    j: int,
)
    requires
        Course::start(first, requested, size, in_flight).may_follow_all(local, events),
        events.len() < 0x1_0000_0000_0000_0000,
        0 < i < j <= events.len(),
        Course::start(first, requested, size, in_flight).offers_at(local, events, i),
        Course::start(first, requested, size, in_flight).offers_at(local, events, j),
    ensures
        ({
            let start = Course::start(first, requested, size, in_flight);
            let one = start.after_all(local, events.take(i)).run.offered;
            let other = start.after_all(local, events.take(j)).run.offered;
            one is Some && other is Some && one->0.id != other->0.id
        }),
{
    let start = Course::start(first, requested, size, in_flight);
    lemma_offered_number(first, requested, size, in_flight, local, events, i);
    lemma_offered_number(first, requested, size, in_flight, local, events, j);
    lemma_prefix(start, local, events, i, j);
}

/// A run that took place.
pub struct PastRun {
    pub requested: usize,
    pub size: usize,
    pub in_flight: usize,
    /// What happened in its course.
    pub events: Seq<CourseEvent>,
}

impl PastRun {
    /// The start of the run, if it numbers its messages from `first` on.
    pub open spec fn start(self, first: u64) -> Course {
        Course::start(first, self.requested, self.size, self.in_flight)
    }

    /// The frame that was offered after the first `i` events of the run.
    pub open spec fn offered(self, first: u64, local: Seq<u8>, i: int) -> Option<Offer> {
        self.start(first).after_all(local, self.events.take(i)).run.offered
    }
}

/// The number from which run `k` of some runs numbers its messages, where each starts at the
/// number at which the one before ended.
pub open spec fn first_number(first: u64, local: Seq<u8>, runs: Seq<PastRun>, k: nat) -> u64
    decreases k,
{
    if k == 0 {
        first
    } else {
        let before = runs[k - 1];
        before.start(first_number(first, local, runs, (k - 1) as nat)).after_all(
            local,
            before.events,
        ).metrics.next_id
    }
}

/// Whether run `k` of some runs may have taken place.
pub open spec fn took_place(first: u64, local: Seq<u8>, runs: Seq<PastRun>, k: nat) -> bool {
    runs[k as int].start(first_number(first, local, runs, k)).may_follow_all(
        local,
        runs[k as int].events,
    )
}

/// How many events the first `k` of some runs saw.
pub open spec fn events_before(runs: Seq<PastRun>, k: nat) -> nat
    decreases k,
{
    if k == 0 {
        0
    } else {
        events_before(runs, (k - 1) as nat) + runs[k - 1].events.len()
    }
}

/// How many frames the first `k` of some runs handed out.
spec fn offers_before(first: u64, local: Seq<u8>, runs: Seq<PastRun>, k: nat) -> nat
    decreases k,
{
    if k == 0 {
        0
    } else {
        let before = runs[k - 1];
        let number = first_number(first, local, runs, (k - 1) as nat);
        offers_before(first, local, runs, (k - 1) as nat) + before.start(number).offers(
            local,
            before.events,
        )
    }
}

proof fn lemma_events_before(runs: Seq<PastRun>, i: nat, j: nat)
    requires
        i <= j,
    ensures
        events_before(runs, i) <= events_before(runs, j),
    decreases j,
{
    if i < j {
        lemma_events_before(runs, i, (j - 1) as nat);
    }
}

proof fn lemma_offers_before(first: u64, local: Seq<u8>, runs: Seq<PastRun>, i: nat, j: nat)
    requires
        i <= j,
    ensures
        offers_before(first, local, runs, i) <= offers_before(first, local, runs, j),
    decreases j,
{
    if i < j {
        lemma_offers_before(first, local, runs, i, (j - 1) as nat);
    }
}

proof fn lemma_nth_id_after(first: u64, next: u64, taken: nat, k: nat)
    requires
        next == nth_id(first, taken),
    ensures
        nth_id(next, k) == nth_id(first, taken + k),
{
}

proof fn lemma_nth_ids_differ(first: u64, a: nat, b: nat)
    requires
        a < b < a + 0x1_0000_0000_0000_0000,
    ensures
        nth_id(first, a) != nth_id(first, b),
{
}

proof fn lemma_first_number(first: u64, local: Seq<u8>, runs: Seq<PastRun>, k: nat)
    requires
        k <= runs.len(),
        forall|r: nat| r < runs.len() ==> #[trigger] took_place(first, local, runs, r),
        events_before(runs, runs.len()) < 0x1_0000_0000_0000_0000,
    ensures
        first_number(first, local, runs, k) == nth_id(
            first,
            offers_before(first, local, runs, k),
        ),
        offers_before(first, local, runs, k) <= events_before(runs, k),
    decreases k,
{
    if k > 0 {
        let prev = (k - 1) as nat;
        lemma_first_number(first, local, runs, prev);
        lemma_events_before(runs, k, runs.len());
        assert(took_place(first, local, runs, prev));
        let before = runs[k - 1];
        let number = first_number(first, local, runs, prev);
        let course = before.start(number);
        lemma_in_balance(
            number,
            before.requested,
            before.size,
            before.in_flight,
            local,
            before.events,
        );
        lemma_nth_id_after(
            first,
            number,
            offers_before(first, local, runs, prev),
            course.offers(local, before.events),
        );
    }
}

/// The number of a frame that one of some runs handed out, counted over all runs.
proof fn lemma_offered_in_chain(
    first: u64,
    local: Seq<u8>,
    runs: Seq<PastRun>,
    k: nat,
    i: int,
) -> (place: nat)
    requires
        k < runs.len(),
        forall|r: nat| r < runs.len() ==> #[trigger] took_place(first, local, runs, r),
        events_before(runs, runs.len()) < 0x1_0000_0000_0000_0000,
        0 < i <= runs[k as int].events.len(),
        runs[k as int].start(first_number(first, local, runs, k)).offers_at(
            local,
            runs[k as int].events,
            i,
        ),
    ensures
        runs[k as int].offered(first_number(first, local, runs, k), local, i) is Some,
        runs[k as int].offered(first_number(first, local, runs, k), local, i)->0.id == nth_id(
            first,
            place,
        ),
        offers_before(first, local, runs, k) <= place < offers_before(first, local, runs, k + 1),
        place < 0x1_0000_0000_0000_0000,
{
    let run = runs[k as int];
    let number = first_number(first, local, runs, k);
    lemma_first_number(first, local, runs, k);
    lemma_first_number(first, local, runs, k + 1);
    lemma_events_before(runs, k + 1, runs.len());
    assert(took_place(first, local, runs, k));
    lemma_offered_number(number, run.requested, run.size, run.in_flight, local, run.events, i);
    let count = run.start(number).offers(local, run.events.take(i));
    let before = offers_before(first, local, runs, k);
    lemma_nth_id_after(first, number, before, (count - 1) as nat);
    (before + count - 1) as nat
}

/// Of some runs, each of which starts at the number at which the one before ended, no two
/// hand out the same number, as long as all together see fewer than 2 to the 64 events.
pub proof fn law_runs_do_not_share_numbers(
    first: u64,
    local: Seq<u8>,
    runs: Seq<PastRun>,
    k1: nat,
    k2: nat,
    i: int,
    j: int,
)
    requires
        k1 < k2 < runs.len(),
        forall|r: nat| r < runs.len() ==> #[trigger] took_place(first, local, runs, r),
        events_before(runs, runs.len()) < 0x1_0000_0000_0000_0000,
        0 < i <= runs[k1 as int].events.len(),
        0 < j <= runs[k2 as int].events.len(),
        runs[k1 as int].start(first_number(first, local, runs, k1)).offers_at(
            local,
            runs[k1 as int].events,
            i,
        ),
        runs[k2 as int].start(first_number(first, local, runs, k2)).offers_at(
            local,
            runs[k2 as int].events,
            j,
        ),
    ensures
        ({
            let one = runs[k1 as int].offered(first_number(first, local, runs, k1), local, i);
            let other = runs[k2 as int].offered(first_number(first, local, runs, k2), local, j);
            one is Some && other is Some && one->0.id != other->0.id
        }),
{
    let place1 = lemma_offered_in_chain(first, local, runs, k1, i);
    let place2 = lemma_offered_in_chain(first, local, runs, k2, j);
    lemma_offers_before(first, local, runs, k1 + 1, k2);
    lemma_nth_ids_differ(first, place1, place2);
}

/// How many frames were published in the course of some events.
pub open spec fn published_in(events: Seq<CourseEvent>) -> nat
    decreases events.len(),
{
    if events.len() == 0 {
        0
    } else {
        published_in(events.drop_last()) + if events.last() is Published {
            1nat
        } else {
            0nat
        }
    }
}

/// How many frames could not be published in the course of some events.
pub open spec fn refused_in(events: Seq<CourseEvent>) -> nat
    decreases events.len(),
{
    if events.len() == 0 {
        0
    } else {
        refused_in(events.drop_last()) + if events.last() is Refused {
            1nat
        } else {
            0nat
        }
    }
}

/// How many bytes of acknowledgements were published in the course of some events.
pub open spec fn ack_bytes_in(events: Seq<CourseEvent>) -> nat
    decreases events.len(),
{
    if events.len() == 0 {
        0
    } else {
        ack_bytes_in(events.drop_last()) + match events.last() {
            CourseEvent::AckPublished(bytes) => bytes as nat,
            _ => 0,
        }
    }
}

/// How many bytes came in in the course of some events.
pub open spec fn bytes_in(events: Seq<CourseEvent>) -> nat
    decreases events.len(),
{
    if events.len() == 0 {
        0
    } else {
        bytes_in(events.drop_last()) + match events.last() {
            CourseEvent::Incoming(len, _, _) => len as nat,
            _ => 0,
        }
    }
}

impl Course {
    /// What the run does at a look at the clock.
    pub open spec fn action(self, local: Seq<u8>, elapsed_nanos: u128) -> RunActionView {
        self.run.next(self.metrics, local, elapsed_nanos).2
    }

    /// How many frames some events published since the run last waited.
    pub open spec fn published_since_wait(self, local: Seq<u8>, events: Seq<CourseEvent>) -> nat
        decreases events.len(),
    {
        if events.len() == 0 {
            0
        } else {
            let front = events.drop_last();
            match events.last() {
                CourseEvent::Published(_) => self.published_since_wait(local, front) + 1,
                CourseEvent::Look(elapsed_nanos) => if self.after_all(local, front).action(
                    local,
                    elapsed_nanos,
                ) is Wait {
                    0
                } else {
                    self.published_since_wait(local, front)
                },
                _ => self.published_since_wait(local, front),
            }
        }
    }

    /// What a run has counted, in terms of the events of its course.
    spec fn counts_match(
        self,
        local: Seq<u8>,
        size: nat,
        published: nat,
        refused: nat,
        ack_bytes: nat,
        incoming: nat,
    ) -> bool {
        let frame = 10 + local.len() + size;
        &&& self.run.sent == published
        &&& self.metrics.counts.data_sent == published
        &&& self.metrics.counts.publish_failed == refused
        &&& self.metrics.counts.outgoing_bytes == capped((published * frame + ack_bytes) as int)
        &&& self.metrics.counts.incoming_bytes == capped(incoming as int)
        &&& self.run.offered matches Some(offer) ==> offer.bytes == frame
    }
}

/// What a run counts is what happened in its course: a message for each frame that was
/// published, of as many bytes as the frame has, which is ten more than the sender and the
/// payload together; a failure for each that could not be; and the bytes of all that came in,
/// and of all acknowledgements that went out. A frame that is offered is as long as that.
pub proof fn law_run_counts_what_happened(
    first: u64,
    requested: usize,
    size: usize,
    in_flight: usize,
    local: Seq<u8>,
    events: Seq<CourseEvent>,
)
    requires
        Course::start(first, requested, size, in_flight).may_follow_all(local, events),
        events.len() < 0x1_0000_0000_0000_0000,
        10 + local.len() + size <= usize::MAX,
    ensures
        ({
            let start = Course::start(first, requested, size, in_flight);
            let c = start.after_all(local, events);
            let counts = c.metrics.counts;
            let frame = 10 + local.len() + size;
            &&& c.run.sent == published_in(events)
            &&& counts.data_sent == published_in(events)
            &&& counts.publish_failed == refused_in(events)
            &&& counts.outgoing_bytes == capped(
                published_in(events) * frame + ack_bytes_in(events),
            )
            &&& counts.payload_bytes_sent == capped(published_in(events) * size as int)
            &&& counts.incoming_bytes == capped(bytes_in(events) as int)
            &&& c.run.burst == start.published_since_wait(local, events)
            &&& c.run.offered matches Some(offer) ==> offer.bytes == frame
        }),
    decreases events.len(),
{
    lemma_counts_match(first, requested, size, in_flight, local, events);
    law_run_balances(first, requested, size, in_flight, local, events);
    let a = published_in(events);
    let frame = 10 + local.len() + size as nat;
    assert(a * frame == a * (10 + local.len() + size)) by (nonlinear_arith)
        requires
            frame == 10 + local.len() + size,
    ;
    assert(a * (size as nat) == a * size as int);
}

proof fn lemma_counts_match(
    first: u64,
    requested: usize,
    size: usize,
    in_flight: usize,
    local: Seq<u8>,
    events: Seq<CourseEvent>,
)
    requires
        Course::start(first, requested, size, in_flight).may_follow_all(local, events),
        events.len() < 0x1_0000_0000_0000_0000,
        10 + local.len() + size <= usize::MAX,
    ensures
        ({
            let start = Course::start(first, requested, size, in_flight);
            let c = start.after_all(local, events);
            &&& c.counts_match(
                local,
                size as nat,
                published_in(events),
                refused_in(events),
                ack_bytes_in(events),
                bytes_in(events),
            )
            &&& c.run.burst == start.published_since_wait(local, events)
            &&& published_in(events) + refused_in(events) <= events.len()
        }),
    decreases events.len(),
{
    let start = Course::start(first, requested, size, in_flight);
    if events.len() > 0 {
        let front = events.drop_last();
        let before = start.after_all(local, front);
        lemma_counts_match(first, requested, size, in_flight, local, front);
        law_run_stays_in_bounds(first, requested, size, in_flight, local, front);
        lemma_data_frame_len(before.metrics.next_id, local, before.run.payload);
        let frame = 10 + local.len() + size as nat;
        let count = published_in(front);
        assert((count + 1) * frame == count * frame + frame) by (nonlinear_arith);
        assert(before.run.payload.len() == size);
        match events.last() {
            CourseEvent::Look(elapsed_nanos) => {
                lemma_next_is_one_of_three(before, local, elapsed_nanos);
            },
            CourseEvent::Published(sent_at) => {
                law_sending_counts_frame_and_payload(
                    before.metrics,
                    before.run.offered->0.id,
                    before.run.offered->0.bytes,
                    size,
                    sent_at,
                );
            },
            CourseEvent::Refused => {
                law_counting_changes_one_count(before.metrics, 0);
            },
            CourseEvent::Incoming(len, message, us) => {
                law_incoming_bytes_are_always_counted(before.metrics, local, len, message, us);
            },
            CourseEvent::AckPublished(bytes) => {
                law_counting_changes_one_count(before.metrics, bytes);
            },
        }
    } else {
        assert(0 * (10 + local.len() + size as nat) == 0) by (nonlinear_arith);
    }
}

proof fn lemma_next_is_one_of_three(c: Course, local: Seq<u8>, elapsed_nanos: u128)
    ensures
        ({
            let (run, metrics, action) = c.run.next(c.metrics, local, elapsed_nanos);
            &&& action is Publish ==> run.burst == c.run.burst && metrics.counts == c.metrics.counts
            &&& action is Wait ==> run.burst == 0 && metrics == c.metrics
            &&& action is Finish ==> run == c.run && metrics == c.metrics
        }),
{
}

/// What a run does at a look at the clock, whatever happened before. It is over exactly if all
/// that was requested was delivered, however many frames were refused on the way, or if more
/// than 120 seconds went by. It publishes exactly while there is something left to publish, the
/// window is not full, fewer than 64 frames were published since it last waited, and there is
/// time. Otherwise it waits. What is on its way is what was published and not delivered.
pub proof fn law_what_a_run_does_next(
    first: u64,
    requested: usize,
    size: usize,
    in_flight: usize,
    local: Seq<u8>,
    events: Seq<CourseEvent>,
    elapsed_nanos: u128,
)
    requires
        Course::start(first, requested, size, in_flight).may_follow_all(local, events),
        events.len() < 0x1_0000_0000_0000_0000,
        10 + local.len() + size <= usize::MAX,
    ensures
        ({
            let start = Course::start(first, requested, size, in_flight);
            let c = start.after_all(local, events);
            let action = c.action(local, elapsed_nanos);
            let delivered = c.metrics.counts.data_delivered;
            let on_its_way = published_in(events) - delivered;
            let late = elapsed_nanos > 120 * 1_000_000_000;
            &&& c.metrics.pending.len() == on_its_way
            &&& action is Finish <==> delivered == requested || late
            &&& action is Publish <==> {
                &&& published_in(events) < requested
                &&& on_its_way < in_flight
                &&& start.published_since_wait(local, events) < 64
                &&& !late
            }
            &&& action is Wait <==> !(action is Finish) && !(action is Publish)
        }),
{
    law_run_counts_what_happened(first, requested, size, in_flight, local, events);
    law_run_stays_in_bounds(first, requested, size, in_flight, local, events);
    law_run_balances(first, requested, size, in_flight, local, events);
}

/// What a run publishes: a data frame of this peer, with the number that comes next after those
/// of the frames handed out before, and a payload of the size asked for that is all `x`. The
/// frame that is offered is that one, by its number and its length; and nothing is counted
/// until it was published or refused.
pub proof fn law_what_a_run_publishes(
    first: u64,
    requested: usize,
    size: usize,
    in_flight: usize,
    local: Seq<u8>,
    events: Seq<CourseEvent>,
    elapsed_nanos: u128,
)
    requires
        Course::start(first, requested, size, in_flight).may_follow_all(local, events),
        Course::start(first, requested, size, in_flight).after_all(local, events).run.offered
            is None,
        events.len() < 0x1_0000_0000_0000_0000,
        10 + local.len() + size <= usize::MAX,
        valid_peer(local),
    ensures
        ({
            let c = Course::start(first, requested, size, in_flight).after_all(local, events);
            let after = c.after(local, CourseEvent::Look(elapsed_nanos));
            c.action(local, elapsed_nanos) matches RunActionView::Publish(frame) ==> {
                let id = (first + published_in(events) + refused_in(events))
                    % 0x1_0000_0000_0000_0000;
                &&& decoded(frame) matches Some(Message::Data { id: number, sender, payload })
                    && number == id && sender == local && payload.len() == size && forall|i: int|
                    0 <= i < payload.len() ==> #[trigger] payload[i] == 120
                &&& frame.len() == 10 + local.len() + size
                &&& after.run.offered matches Some(offer) && offer.id == id && offer.bytes
                    == frame.len()
                &&& after.metrics.counts == c.metrics.counts
                &&& after.metrics.pending == c.metrics.pending
            }
        }),
        ({
            let c = Course::start(first, requested, size, in_flight).after_all(local, events);
            let after = c.after(local, CourseEvent::Look(elapsed_nanos));
            !(c.action(local, elapsed_nanos) is Publish) ==> after.metrics == c.metrics
                && after.run.offered is None && after.run.sent == c.run.sent
        }),
{
    let c = Course::start(first, requested, size, in_flight).after_all(local, events);
    law_run_counts_what_happened(first, requested, size, in_flight, local, events);
    law_run_stays_in_bounds(first, requested, size, in_flight, local, events);
    law_run_balances(first, requested, size, in_flight, local, events);
    law_data_reads_back(c.metrics.next_id, local, c.run.payload);
    lemma_data_frame_len(c.metrics.next_id, local, c.run.payload);
}

/// Of a run that delivered all and saw no acknowledgement go out, the bytes that went out are
/// those of the frames of all messages, and the payload bytes those of their payloads.
pub proof fn law_overhead_of_a_finished_run(
    first: u64,
    requested: usize,
    size: usize,
    in_flight: usize,
    local: Seq<u8>,
    events: Seq<CourseEvent>,
    elapsed_nanos: u128,
)
    requires
        Course::start(first, requested, size, in_flight).may_follow_all(local, events),
        events.len() < 0x1_0000_0000_0000_0000,
        10 + local.len() + size <= usize::MAX,
        ack_bytes_in(events) == 0,
        elapsed_nanos <= 120 * 1_000_000_000,
        Course::start(first, requested, size, in_flight).after_all(local, events).action(
            local,
            elapsed_nanos,
        ) is Finish,
    ensures
        ({
            let counts = Course::start(first, requested, size, in_flight).after_all(
                local,
                events,
            ).metrics.counts;
            &&& counts.outgoing_bytes == capped(requested * (10 + local.len() + size))
            &&& counts.payload_bytes_sent == capped(requested * size)
        }),
{
    law_run_counts_what_happened(first, requested, size, in_flight, local, events);
    law_what_a_run_does_next(first, requested, size, in_flight, local, events, elapsed_nanos);
    law_run_stays_in_bounds(first, requested, size, in_flight, local, events);
}

/// The runs of a benchmark go from the smallest payload to the largest, and for each from the
/// fewest messages to the most.
pub proof fn law_planned_sizes_and_counts()
    ensures
        payload_sizes().len() == 3 && message_counts().len() == 3,
        payload_sizes()[0] == 32 && payload_sizes()[1] == 32 * 32 && payload_sizes()[2] == 4 * 1024,
        message_counts()[0] == 100 && message_counts()[1] == 1000 && message_counts()[2] == 5000,
{
}

/// What a run does says what it holds.
pub proof fn law_action_says_what_it_holds(frame: Vec<u8>)
    ensures
        RunAction::Publish(frame)@ == RunActionView::Publish(frame@),
        RunAction::Wait@ == RunActionView::Wait,
        RunAction::Finish@ == RunActionView::Finish,
{
}

/// A frame that was published is on its way from then on under its number, with the time at
/// which it was published and the size of its payload, and is no longer offered; one that could
/// not be published is neither.
pub proof fn law_published_frame_is_on_its_way(c: Course, local: Seq<u8>, sent_at: Instant)
    requires
        c.run.offered is Some,
        c.run.payload.len() <= usize::MAX,
    ensures
        ({
            let id = c.run.offered->0.id;
            let published = c.after(local, CourseEvent::Published(sent_at));
            let refused = c.after(local, CourseEvent::Refused);
            &&& published.metrics.pending.contains_key(id)
            &&& published.metrics.pending[id].0 == sent_at
            &&& published.metrics.pending[id].1 == c.run.payload.len()
            &&& published.metrics.pending.remove(id) == c.metrics.pending.remove(id)
            &&& published.run.offered is None
            &&& refused.metrics.pending == c.metrics.pending
            &&& refused.run == RunState { offered: None, ..c.run }
        }),
{
    let published = c.after(local, CourseEvent::Published(sent_at));
    let id = c.run.offered->0.id;
    assert(published.metrics.pending.remove(id) =~= c.metrics.pending.remove(id));
}

} // verus!
