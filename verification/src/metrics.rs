//! What a run counts: traffic, deliveries, round-trip times, and what is on its way.

use crate::peer::PeerId;
use crate::percentile::{percentile, percentile_us, Percentile};
use crate::seen::SeenIds;
use std::collections::HashMap;
use std::time::Instant;
use vstd::prelude::*;

verus! {

broadcast use vstd::std_specs::hash::group_hash_axioms;

/// A reading of the monotonic clock.
#[verifier::external_type_specification]
#[verifier::external_body]
pub struct ExInstant(Instant);

/// How many round-trip times are kept.
pub const MAX_RTT_SAMPLES: usize = 200_000;

/// Whether `Instant::now`, called at some time, gives this reading of the clock.
pub uninterp spec fn is_reading(reading: Instant) -> bool;

/// Calls `Instant::now`. The reading is one that the clock gives; which one depends on the
/// time of the call, and is left unsaid.
#[verifier::external_body]
pub(crate) fn now() -> (reading: Instant)
    ensures
        is_reading(reading),
{
    Instant::now()
}

/// Whether `Instant::elapsed`, called at some time on this reading of the clock, gives a
/// duration of this many nanoseconds.
pub uninterp spec fn may_have_elapsed(since: Instant, nanos: u128) -> bool;

/// Calls `Instant::elapsed`, in nanoseconds. What it gives is named as a relation, for it
/// depends on the earlier reading and on the time of the call. How long it has been is left
/// unsaid.
#[verifier::external_body]
fn elapsed_nanos(since: &Instant) -> (nanos: u128)
    ensures
        may_have_elapsed(*since, nanos),
{
    since.elapsed().as_nanos()
}

/// Nanoseconds in whole microseconds, of which the lowest 64 bits are kept.
pub open spec fn micros(nanos: nat) -> nat {
    (nanos / 1000) % 0x1_0000_0000_0000_0000
}

/// Nanoseconds in whole microseconds, of which the lowest 64 bits are kept.
pub fn micros_of_nanos(nanos: u128) -> (r: u64)
    ensures
        r == micros(nanos as nat),
{
    let whole: u128 = nanos / 1000;
    assert(#[verifier::truncate] (whole as u64) == whole % 0x1_0000_0000_0000_0000u128)
        by (bit_vector);
    #[verifier::truncate]
    (whole as u64)
}

/// A sum that stays at the highest number once it reaches it.
pub open spec fn saturating(a: u64, b: int) -> u64 {
    if a + b > u64::MAX {
        u64::MAX
    } else {
        (a + b) as u64
    }
}

/// The distance of two numbers.
pub open spec fn distance(a: u64, b: u64) -> u64 {
    if a >= b {
        (a - b) as u64
    } else {
        (b - a) as u64
    }
}

/// What a run counts.
#[derive(Clone, Copy, Debug, PartialEq, Eq, Structural)]
pub struct Counters {
    pub outgoing_bytes: u64,
    pub incoming_bytes: u64,
    pub payload_bytes_sent: u64,
    pub payload_bytes_delivered: u64,
    pub data_sent: u64,
    pub data_delivered: u64,
    pub publish_failed: u64,
    pub rtt_seen: u64,
    pub duplicates: u64,
}

impl Counters {
    /// Nothing counted.
    pub open spec fn zero() -> Counters {
        Counters {
            outgoing_bytes: 0,
            incoming_bytes: 0,
            payload_bytes_sent: 0,
            payload_bytes_delivered: 0,
            data_sent: 0,
            data_delivered: 0,
            publish_failed: 0,
            rtt_seen: 0,
            duplicates: 0,
        }
    }
}

/// The state of the metrics of a run.
#[verifier::ext_equal]
pub struct MetricsState {
    pub counts: Counters,
    /// The data on its way, by number: when it was sent, and the size of its payload.
    pub pending: Map<u64, (Instant, usize)>,
    /// The first round-trip times, in microseconds.
    pub rtt_us: Seq<u64>,
    /// The latest round-trip time.
    pub prev_rtt_us: Option<u64>,
    /// The number of the next data message.
    pub next_id: u64,
    /// The data messages seen, by sender and number.
    pub seen: Set<(Seq<u8>, u64)>,
}

impl MetricsState {
    /// Round-trip times come with deliveries: there are as many of both, the latest is known
    /// once there is one, and the first are kept.
    pub open spec fn wf(self) -> bool {
        &&& self.pending.dom().finite()
        &&& self.counts.rtt_seen == self.counts.data_delivered
        &&& (self.prev_rtt_us is Some <==> self.counts.rtt_seen > 0)
        &&& self.rtt_us.len() == if self.counts.rtt_seen < MAX_RTT_SAMPLES {
            self.counts.rtt_seen as nat
        } else {
            MAX_RTT_SAMPLES as nat
        }
    }

    /// Nothing counted, nothing on its way, and `next_id` the next number.
    pub open spec fn fresh(next_id: u64) -> MetricsState {
        MetricsState {
            counts: Counters::zero(),
            pending: Map::empty(),
            rtt_us: Seq::empty(),
            prev_rtt_us: None,
            next_id,
            seen: Set::empty(),
        }
    }

    /// The next number is taken; after the highest comes zero.
    pub open spec fn id_taken(self) -> MetricsState {
        MetricsState {
            next_id: if self.next_id == u64::MAX {
                0
            } else {
                (self.next_id + 1) as u64
            },
            ..self
        }
    }

    /// Bytes went out.
    pub open spec fn with_outgoing(self, bytes: usize) -> MetricsState {
        MetricsState {
            counts: Counters {
                outgoing_bytes: saturating(self.counts.outgoing_bytes, bytes as int),
                ..self.counts
            },
            ..self
        }
    }

    /// Bytes came in.
    pub open spec fn with_incoming(self, bytes: usize) -> MetricsState {
        MetricsState {
            counts: Counters {
                incoming_bytes: saturating(self.counts.incoming_bytes, bytes as int),
                ..self.counts
            },
            ..self
        }
    }

    /// Data was sent.
    pub open spec fn with_data_sent(
        self,
        id: u64,
        full_msg_bytes: usize,
        payload_bytes: usize,
        sent_at: Instant,
    ) -> MetricsState {
        MetricsState {
            counts: Counters {
                data_sent: saturating(self.counts.data_sent, 1),
                outgoing_bytes: saturating(self.counts.outgoing_bytes, full_msg_bytes as int),
                payload_bytes_sent: saturating(
                    self.counts.payload_bytes_sent,
                    payload_bytes as int,
                ),
                ..self.counts
            },
            pending: self.pending.insert(id, (sent_at, payload_bytes)),
            ..self
        }
    }

    /// Data could not be sent.
    pub open spec fn with_publish_failed(self) -> MetricsState {
        MetricsState {
            counts: Counters {
                publish_failed: saturating(self.counts.publish_failed, 1),
                ..self.counts
            },
            ..self
        }
    }

    /// A payload arrived here.
    pub open spec fn with_payload_delivered(self, payload_bytes: usize) -> MetricsState {
        MetricsState {
            counts: Counters {
                payload_bytes_delivered: saturating(
                    self.counts.payload_bytes_delivered,
                    payload_bytes as int,
                ),
                ..self.counts
            },
            ..self
        }
    }

    /// Data of ours was acknowledged after `us` microseconds. Where it is not on its way,
    /// nothing changes.
    pub open spec fn with_ack(self, id: u64, us: u64) -> MetricsState {
        if !self.pending.contains_key(id) {
            self
        } else {
            MetricsState {
                counts: Counters {
                    rtt_seen: saturating(self.counts.rtt_seen, 1),
                    data_delivered: saturating(self.counts.data_delivered, 1),
                    payload_bytes_delivered: saturating(
                        self.counts.payload_bytes_delivered,
                        self.pending[id].1 as int,
                    ),
                    ..self.counts
                },
                pending: self.pending.remove(id),
                rtt_us: if self.rtt_us.len() < MAX_RTT_SAMPLES {
                    self.rtt_us.push(us)
                } else {
                    self.rtt_us
                },
                prev_rtt_us: Some(us),
                ..self
            }
        }
    }

    /// Whether `us` may be the time since data was sent: the whole microseconds of what the
    /// clock gives since the sending of that data; zero where it is not on its way.
    pub open spec fn is_round_trip(self, id: u64, us: u64) -> bool {
        if self.pending.contains_key(id) {
            exists|nanos: u128| #[trigger]
                may_have_elapsed(self.pending[id].0, nanos) && us == micros(nanos as nat)
        } else {
            us == 0
        }
    }

    /// How far a round-trip time is from the one before it, where both are known: the step
    /// by which jitter is smoothed.
    pub open spec fn jitter_step(self, id: u64, us: u64) -> Option<u64> {
        if !self.pending.contains_key(id) {
            None
        } else {
            match self.prev_rtt_us {
                Some(prev) => Some(distance(us, prev)),
                None => None,
            }
        }
    }

    /// A data message was seen.
    pub open spec fn with_seen(self, sender: Seq<u8>, id: u64) -> MetricsState {
        MetricsState { seen: self.seen.insert((sender, id)), ..self }
    }

    /// A data message was seen before.
    pub open spec fn with_duplicate(self) -> MetricsState {
        MetricsState {
            counts: Counters {
                duplicates: saturating(self.counts.duplicates, 1),
                ..self.counts
            },
            ..self
        }
    }
}

/// The metrics of a run.
pub struct Metrics {
    counts: Counters,
    pending: HashMap<u64, (Instant, usize)>,
    rtt_us: Vec<u64>,
    prev_rtt_us: Option<u64>,
    next_id: u64,
    seen: SeenIds,
}

impl View for Metrics {
    type V = MetricsState;

    closed spec fn view(&self) -> MetricsState {
        MetricsState {
            counts: self.counts,
            pending: self.pending@,
            rtt_us: self.rtt_us@,
            prev_rtt_us: self.prev_rtt_us,
            next_id: self.next_id,
            seen: self.seen@,
        }
    }
}

impl Metrics {
    pub closed spec fn wf(&self) -> bool {
        self@.wf() && self.seen.wf()
    }

    /// Well-formed metrics are in a well-formed state.
    pub proof fn lemma_wf(&self)
        requires
            self.wf(),
        ensures
            self@.wf(),
    {
    }

    /// Nothing counted; the first number is one.
    pub fn new() -> (r: Metrics)
        ensures
            r.wf(),
            r@ == MetricsState::fresh(1),
    {
        let r = Metrics {
            counts: Counters {
                outgoing_bytes: 0,
                incoming_bytes: 0,
                payload_bytes_sent: 0,
                payload_bytes_delivered: 0,
                data_sent: 0,
                data_delivered: 0,
                publish_failed: 0,
                rtt_seen: 0,
                duplicates: 0,
            },
            pending: HashMap::new(),
            rtt_us: Vec::new(),
            prev_rtt_us: None,
            next_id: 1,
            seen: SeenIds::new(),
        };
        assert(r@ =~= MetricsState::fresh(1));
        r
    }

    /// Starts over, and goes on counting messages.
    pub fn reset_run(&mut self)
        ensures
            final(self).wf(),
            final(self)@ == MetricsState::fresh(old(self)@.next_id),
    {
        self.counts = Counters {
            outgoing_bytes: 0,
            incoming_bytes: 0,
            payload_bytes_sent: 0,
            payload_bytes_delivered: 0,
            data_sent: 0,
            data_delivered: 0,
            publish_failed: 0,
            rtt_seen: 0,
            duplicates: 0,
        };
        self.pending.clear();
        self.rtt_us.clear();
        self.prev_rtt_us = None;
        self.seen.clear();
        assert(self@ =~= MetricsState::fresh(old(self)@.next_id));
    }

    /// Takes the next number.
    pub fn alloc_id(&mut self) -> (id: u64)
        requires
            old(self).wf(),
        ensures
            final(self).wf(),
            id == old(self)@.next_id,
            final(self)@ == old(self)@.id_taken(),
    {
        let id: u64 = self.next_id;
        self.next_id = self.next_id.wrapping_add(1);
        id
    }

    /// Counts bytes that went out.
    pub fn note_outgoing(&mut self, bytes: usize)
        requires
            old(self).wf(),
        ensures
            final(self).wf(),
            final(self)@ == old(self)@.with_outgoing(bytes),
    {
        self.counts.outgoing_bytes = self.counts.outgoing_bytes.saturating_add(bytes as u64);
    }

    /// Counts bytes that came in.
    pub fn note_incoming(&mut self, bytes: usize)
        requires
            old(self).wf(),
        ensures
            final(self).wf(),
            final(self)@ == old(self)@.with_incoming(bytes),
    {
        self.counts.incoming_bytes = self.counts.incoming_bytes.saturating_add(bytes as u64);
    }

    /// Notes that data was sent, at the given time.
    pub fn note_data_send_at(
        &mut self,
        id: u64,
        full_msg_bytes: usize,
        payload_bytes: usize,
        sent_at: Instant,
    )
        requires
            old(self).wf(),
        ensures
            final(self).wf(),
            final(self)@ == old(self)@.with_data_sent(id, full_msg_bytes, payload_bytes, sent_at),
    {
        self.counts.data_sent = self.counts.data_sent.saturating_add(1);
        self.note_outgoing(full_msg_bytes);
        self.counts.payload_bytes_sent = self.counts.payload_bytes_sent.saturating_add(
            payload_bytes as u64,
        );
        self.pending.insert(id, (sent_at, payload_bytes));
        assert(self@ =~= old(self)@.with_data_sent(id, full_msg_bytes, payload_bytes, sent_at));
    }

    /// Notes that data was sent, now.
    pub fn note_data_send(&mut self, id: u64, full_msg_bytes: usize, payload_bytes: usize)
        requires
            old(self).wf(),
        ensures
            final(self).wf(),
            exists|sent_at: Instant|
                is_reading(sent_at) && final(self)@ == #[trigger] old(self)@.with_data_sent(
                    id,
                    full_msg_bytes,
                    payload_bytes,
                    sent_at,
                ),
    {
        self.note_data_send_at(id, full_msg_bytes, payload_bytes, now());
    }

    /// Notes that data could not be sent.
    pub fn note_publish_failed(&mut self)
        requires
            old(self).wf(),
        ensures
            final(self).wf(),
            final(self)@ == old(self)@.with_publish_failed(),
    {
        self.counts.publish_failed = self.counts.publish_failed.saturating_add(1);
    }

    /// Counts an acknowledgement that went out.
    pub fn note_ack_send(&mut self, bytes: usize)
        requires
            old(self).wf(),
        ensures
            final(self).wf(),
            final(self)@ == old(self)@.with_outgoing(bytes),
    {
        self.note_outgoing(bytes);
    }

    /// The time since data was sent, in microseconds; zero where it is not on its way.
    pub fn round_trip_us(&self, id: u64) -> (us: u64)
        ensures
            self@.is_round_trip(id, us),
    {
        match self.pending.get(&id) {
            Some(entry) => micros_of_nanos(elapsed_nanos(&entry.0)),
            None => 0,
        }
    }

    /// Notes that data was acknowledged after `us` microseconds, and hands out the step by
    /// which jitter is smoothed.
    pub fn note_ack_received_after(&mut self, id: u64, us: u64) -> (step: Option<u64>)
        requires
            old(self).wf(),
        ensures
            final(self).wf(),
            final(self)@ == old(self)@.with_ack(id, us),
            step == old(self)@.jitter_step(id, us),
    {
        match self.pending.remove(&id) {
            Some((_, payload_bytes)) => {
                let step: Option<u64> = match self.prev_rtt_us {
                    Some(prev) => if us >= prev {
                        Some(us - prev)
                    } else {
                        Some(prev - us)
                    },
                    None => None,
                };
                self.prev_rtt_us = Some(us);
                self.counts.rtt_seen = self.counts.rtt_seen.saturating_add(1);
                if self.rtt_us.len() < MAX_RTT_SAMPLES {
                    self.rtt_us.push(us);
                }
                self.counts.data_delivered = self.counts.data_delivered.saturating_add(1);
                self.counts.payload_bytes_delivered =
                self.counts.payload_bytes_delivered.saturating_add(payload_bytes as u64);
                assert(self@ =~= old(self)@.with_ack(id, us));
                step
            },
            None => {
                assert(self@ =~= old(self)@);
                None
            },
        }
    }

    /// Notes that data was acknowledged, now, and hands out the step by which jitter is
    /// smoothed.
    pub fn note_ack_received(&mut self, id: u64) -> (step: Option<u64>)
        requires
            old(self).wf(),
        ensures
            final(self).wf(),
            exists|us: u64|
                final(self)@ == #[trigger] old(self)@.with_ack(id, us) && step
                    == old(self)@.jitter_step(id, us) && old(self)@.is_round_trip(id, us),
    {
        let us: u64 = self.round_trip_us(id);
        self.note_ack_received_after(id, us)
    }

    /// Counts a payload that arrived here.
    pub fn note_payload_delivered_receiver_side(&mut self, payload_bytes: usize)
        requires
            old(self).wf(),
        ensures
            final(self).wf(),
            final(self)@ == old(self)@.with_payload_delivered(payload_bytes),
    {
        self.counts.payload_bytes_delivered = self.counts.payload_bytes_delivered.saturating_add(
            payload_bytes as u64,
        );
    }

    /// Notes a data message, and tells whether it was not seen before.
    pub fn note_seen(&mut self, sender: &PeerId, id: u64) -> (fresh: bool)
        requires
            old(self).wf(),
        ensures
            final(self).wf(),
            fresh == !old(self)@.seen.contains((sender@, id)),
            final(self)@ == old(self)@.with_seen(sender@, id),
    {
        self.seen.insert(sender, id)
    }

    /// Counts a data message that was seen before.
    pub fn note_duplicate(&mut self)
        requires
            old(self).wf(),
        ensures
            final(self).wf(),
            final(self)@ == old(self)@.with_duplicate(),
    {
        self.counts.duplicates = self.counts.duplicates.saturating_add(1);
    }

    /// What was counted.
    pub fn counts(&self) -> (r: Counters)
        ensures
            r == self@.counts,
    {
        self.counts
    }

    /// How many data messages are on their way.
    pub fn pending_len(&self) -> (r: usize)
        ensures
            r == self@.pending.len(),
    {
        self.pending.len()
    }

    /// What was delivered and what was sent, in messages; nothing where none was sent.
    pub fn delivery_ratio(&self) -> (r: Option<(u64, u64)>)
        ensures
            r == (if self@.counts.data_sent == 0 {
                None
            } else {
                Some((self@.counts.data_delivered, self@.counts.data_sent))
            }),
    {
        if self.counts.data_sent == 0 {
            None
        } else {
            Some((self.counts.data_delivered, self.counts.data_sent))
        }
    }

    /// What went out and what payload was delivered, in bytes, of which the second is at
    /// least one.
    pub fn overhead_ratio(&self) -> (r: (u64, u64))
        ensures
            r.0 == self@.counts.outgoing_bytes,
            r.1 == (if self@.counts.payload_bytes_delivered == 0 {
                1
            } else {
                self@.counts.payload_bytes_delivered
            }),
    {
        let good: u64 = if self.counts.payload_bytes_delivered == 0 {
            1
        } else {
            self.counts.payload_bytes_delivered
        };
        (self.counts.outgoing_bytes, good)
    }

    /// The median of the round-trip times.
    pub fn median_rtt_us(&self) -> (r: Option<u64>)
        ensures
            r == percentile(self@.rtt_us, Percentile::Median),
    {
        percentile_us(self.rtt_us.as_slice(), Percentile::Median)
    }

    /// The 95th percentile of the round-trip times.
    pub fn p95_rtt_us(&self) -> (r: Option<u64>)
        ensures
            r == percentile(self@.rtt_us, Percentile::P95),
    {
        percentile_us(self.rtt_us.as_slice(), Percentile::P95)
    }

    /// The 99th percentile of the round-trip times.
    pub fn p99_rtt_us(&self) -> (r: Option<u64>)
        ensures
            r == percentile(self@.rtt_us, Percentile::P99),
    {
        percentile_us(self.rtt_us.as_slice(), Percentile::P99)
    }
}

impl Clone for Metrics {
    fn clone(&self) -> (r: Metrics)
        ensures
            r@ == self@,
            self.wf() ==> r.wf(),
    {
        let rtt_us = self.rtt_us.clone();
        assert(rtt_us@ =~= self.rtt_us@);
        Metrics {
            counts: self.counts,
            pending: self.pending.clone(),
            rtt_us,
            prev_rtt_us: self.prev_rtt_us,
            next_id: self.next_id,
            seen: self.seen.clone(),
        }
    }
}

/// The number taken after `taken` others, counting from `first`.
pub open spec fn nth_id(first: u64, taken: nat) -> int {
    (first + taken) % 0x1_0000_0000_0000_0000
}

/// The state after `count` numbers were taken.
pub open spec fn ids_taken(m: MetricsState, count: nat) -> MetricsState
    decreases count,
{
    if count == 0 {
        m
    } else {
        ids_taken(m, (count - 1) as nat).id_taken()
    }
}

/// Numbers are handed out one after the other, and none comes twice before all were used.
pub proof fn law_ids_do_not_repeat(m: MetricsState, i: nat, j: nat)
    requires
        i < j < i + 0x1_0000_0000_0000_0000,
    ensures
        ids_taken(m, i).next_id == nth_id(m.next_id, i),
        ids_taken(m, j).next_id == nth_id(m.next_id, j),
        ids_taken(m, i).next_id != ids_taken(m, j).next_id,
{
    lemma_ids_taken(m, i);
    lemma_ids_taken(m, j);
}

proof fn lemma_ids_taken(m: MetricsState, count: nat)
    ensures
        ids_taken(m, count).next_id == nth_id(m.next_id, count),
    decreases count,
{
    if count > 0 {
        lemma_ids_taken(m, (count - 1) as nat);
    }
}

/// No more is on its way or delivered than was sent.
pub open spec fn accounted(m: MetricsState) -> bool {
    m.pending.len() + m.counts.data_delivered <= m.counts.data_sent
}

/// Sending keeps the account; and where the number was not on its way already, what is on
/// its way grows by one.
pub proof fn law_sending_is_accounted(
    m: MetricsState,
    id: u64,
    full_msg_bytes: usize,
    payload_bytes: usize,
    sent_at: Instant,
)
    requires
        m.wf(),
        accounted(m),
        m.counts.data_sent < u64::MAX,
    ensures
        ({
            let after = m.with_data_sent(id, full_msg_bytes, payload_bytes, sent_at);
            &&& after.wf()
            &&& accounted(after)
            &&& !m.pending.contains_key(id) ==> after.pending.len() == m.pending.len() + 1
        }),
{
}

/// An acknowledgement keeps the account: it takes one message from what is on its way and
/// adds one to what was delivered, or changes nothing.
pub proof fn law_acknowledging_is_accounted(m: MetricsState, id: u64, us: u64)
    requires
        m.wf(),
        accounted(m),
    ensures
        m.with_ack(id, us).wf(),
        accounted(m.with_ack(id, us)),
        m.pending.contains_key(id) ==> {
            &&& m.with_ack(id, us).pending.len() == m.pending.len() - 1
            &&& m.with_ack(id, us).counts.data_delivered == m.counts.data_delivered + 1
        },
        !m.pending.contains_key(id) ==> m.with_ack(id, us) == m,
{
    if m.pending.contains_key(id) {
        assert(m.pending.dom().contains(id));
        assert(m.pending.len() > 0);
    }
}

/// Data is acknowledged once: a second acknowledgement changes nothing.
pub proof fn law_second_ack_changes_nothing(m: MetricsState, id: u64, us1: u64, us2: u64)
    ensures
        m.with_ack(id, us1).with_ack(id, us2) == m.with_ack(id, us1),
        m.with_ack(id, us1).jitter_step(id, us2) is None,
{
}

/// A payload that was sent and then acknowledged is delivered with its size.
pub proof fn law_sent_payload_is_delivered(
    m: MetricsState,
    id: u64,
    full_msg_bytes: usize,
    payload_bytes: usize,
    sent_at: Instant,
    us: u64,
)
    ensures
        ({
            let sent = m.with_data_sent(id, full_msg_bytes, payload_bytes, sent_at);
            let acked = sent.with_ack(id, us);
            &&& acked.counts.data_delivered == saturating(m.counts.data_delivered, 1)
            &&& acked.counts.payload_bytes_delivered == saturating(
                m.counts.payload_bytes_delivered,
                payload_bytes as int,
            )
            &&& acked.pending == m.pending.remove(id)
            &&& acked.prev_rtt_us == Some(us)
        }),
{
    let sent = m.with_data_sent(id, full_msg_bytes, payload_bytes, sent_at);
    assert(sent.pending.remove(id) =~= m.pending.remove(id));
}

/// A number, or the highest of 64 bits where it is past that.
pub open spec fn capped(n: int) -> int {
    if n <= 0xffff_ffff_ffff_ffff {
        n
    } else {
        0xffff_ffff_ffff_ffff
    }
}

/// Whole microseconds: a thousand nanoseconds each, and less than one is left over. That holds
/// for as long as they are a number of 64 bits, which is over half a million years.
pub proof fn law_microseconds_are_thousands(nanos: nat)
    requires
        nanos < 1000 * 0x1_0000_0000_0000_0000,
    ensures
        1000 * micros(nanos) <= nanos < 1000 * micros(nanos) + 1000,
{
}

/// A fresh start has counted nothing, holds nothing, and goes on with the number it is given.
pub proof fn law_fresh_start_is_empty(next_id: u64)
    ensures
        ({
            let m = MetricsState::fresh(next_id);
            let c = m.counts;
            &&& m.next_id == next_id
            &&& c.outgoing_bytes == 0 && c.incoming_bytes == 0
            &&& c.payload_bytes_sent == 0 && c.payload_bytes_delivered == 0
            &&& c.data_sent == 0 && c.data_delivered == 0 && c.publish_failed == 0
            &&& c.rtt_seen == 0 && c.duplicates == 0
            &&& forall|id: u64| !(#[trigger] m.pending.contains_key(id))
            &&& m.rtt_us.len() == 0
            &&& m.prev_rtt_us is None
            &&& forall|pair: (Seq<u8>, u64)| !(#[trigger] m.seen.contains(pair))
        }),
{
}

/// What is counted of one thing is added to the count of that thing, up to the highest number,
/// and nothing else changes: with that count put back, the state is the one before.
pub proof fn law_counting_changes_one_count(m: MetricsState, n: usize)
    ensures
        ({
            let out = m.with_outgoing(n);
            &&& out.counts.outgoing_bytes == capped(m.counts.outgoing_bytes + n)
            &&& m == MetricsState {
                counts: Counters { outgoing_bytes: m.counts.outgoing_bytes, ..out.counts },
                ..out
            }
        }),
        ({
            let came = m.with_incoming(n);
            &&& came.counts.incoming_bytes == capped(m.counts.incoming_bytes + n)
            &&& m == MetricsState {
                counts: Counters { incoming_bytes: m.counts.incoming_bytes, ..came.counts },
                ..came
            }
        }),
        ({
            let arrived = m.with_payload_delivered(n);
            &&& arrived.counts.payload_bytes_delivered == capped(
                m.counts.payload_bytes_delivered + n,
            )
            &&& m == MetricsState {
                counts: Counters {
                    payload_bytes_delivered: m.counts.payload_bytes_delivered,
                    ..arrived.counts
                },
                ..arrived
            }
        }),
        ({
            let failed = m.with_publish_failed();
            &&& failed.counts.publish_failed == capped(m.counts.publish_failed + 1)
            &&& m == MetricsState {
                counts: Counters { publish_failed: m.counts.publish_failed, ..failed.counts },
                ..failed
            }
        }),
        ({
            let again = m.with_duplicate();
            &&& again.counts.duplicates == capped(m.counts.duplicates + 1)
            &&& m == MetricsState {
                counts: Counters { duplicates: m.counts.duplicates, ..again.counts },
                ..again
            }
        }),
{
}

/// To take a number moves on to the next one, and after the highest to zero; nothing else
/// changes.
pub proof fn law_taking_a_number_moves_on(m: MetricsState)
    ensures
        m.next_id < 0xffff_ffff_ffff_ffff ==> m.id_taken().next_id == m.next_id + 1,
        m.next_id == 0xffff_ffff_ffff_ffff ==> m.id_taken().next_id == 0,
        m == (MetricsState { next_id: m.next_id, ..m.id_taken() }),
{
}

/// A message that is seen is among those seen from then on, and no other is for that; nothing
/// else changes.
pub proof fn law_seeing_adds_one_message(m: MetricsState, sender: Seq<u8>, id: u64)
    ensures
        forall|pair: (Seq<u8>, u64)| #[trigger]
            m.with_seen(sender, id).seen.contains(pair) <==> m.seen.contains(pair) || pair == (
                sender,
                id,
            ),
        m == (MetricsState { seen: m.seen, ..m.with_seen(sender, id) }),
{
}

/// Data that is sent counts as one message, with the bytes of its frame and those of its
/// payload, and is on its way from then on with the time and the size it was sent with;
/// nothing else changes, nor does what else is on its way.
pub proof fn law_sending_counts_frame_and_payload(
    m: MetricsState,
    id: u64,
    full_msg_bytes: usize,
    payload_bytes: usize,
    sent_at: Instant,
)
    ensures
        ({
            let sent = m.with_data_sent(id, full_msg_bytes, payload_bytes, sent_at);
            &&& sent.counts.data_sent == capped(m.counts.data_sent + 1)
            &&& sent.counts.outgoing_bytes == capped(m.counts.outgoing_bytes + full_msg_bytes)
            &&& sent.counts.payload_bytes_sent == capped(
                m.counts.payload_bytes_sent + payload_bytes,
            )
            &&& sent.pending.contains_key(id)
            &&& sent.pending[id].0 == sent_at
            &&& sent.pending[id].1 == payload_bytes
            &&& sent.pending.remove(id) == m.pending.remove(id)
            &&& m == MetricsState {
                counts: Counters {
                    data_sent: m.counts.data_sent,
                    outgoing_bytes: m.counts.outgoing_bytes,
                    payload_bytes_sent: m.counts.payload_bytes_sent,
                    ..sent.counts
                },
                pending: m.pending,
                ..sent
            }
        }),
{
    let sent = m.with_data_sent(id, full_msg_bytes, payload_bytes, sent_at);
    assert(sent.pending.remove(id) =~= m.pending.remove(id));
}

/// An acknowledgement of data on its way counts one delivery, with the size of the payload that
/// was sent; the data is no longer on its way, and all other data still is; the time is the
/// latest round-trip time, and is kept, as it is, after those kept before, unless there are
/// 200000 of them; nothing else changes.
pub proof fn law_acknowledgement_keeps_its_time(m: MetricsState, id: u64, us: u64)
    requires
        m.pending.contains_key(id),
    ensures
        ({
            let acked = m.with_ack(id, us);
            &&& acked.counts.data_delivered == capped(m.counts.data_delivered + 1)
            &&& acked.counts.rtt_seen == capped(m.counts.rtt_seen + 1)
            &&& acked.counts.payload_bytes_delivered == capped(
                m.counts.payload_bytes_delivered + m.pending[id].1,
            )
            &&& forall|k: u64| #[trigger]
                acked.pending.contains_key(k) <==> m.pending.contains_key(k) && k != id
            &&& forall|k: u64| #[trigger]
                acked.pending.contains_key(k) ==> acked.pending[k] == m.pending[k]
            &&& acked.prev_rtt_us == Some(us)
            &&& m.rtt_us.len() < 200_000 ==> {
                &&& acked.rtt_us.len() == m.rtt_us.len() + 1
                &&& acked.rtt_us.last() == us
                &&& acked.rtt_us.drop_last() == m.rtt_us
            }
            &&& m.rtt_us.len() >= 200_000 ==> acked.rtt_us == m.rtt_us
            &&& m == MetricsState {
                counts: Counters {
                    data_delivered: m.counts.data_delivered,
                    rtt_seen: m.counts.rtt_seen,
                    payload_bytes_delivered: m.counts.payload_bytes_delivered,
                    ..acked.counts
                },
                pending: m.pending,
                rtt_us: m.rtt_us,
                prev_rtt_us: m.prev_rtt_us,
                ..acked
            }
        }),
{
    let acked = m.with_ack(id, us);
    if m.rtt_us.len() < 200_000 {
        assert(acked.rtt_us.drop_last() =~= m.rtt_us);
    }
}

/// The state after some acknowledgements, each with its number and its time.
pub open spec fn after_acks(m: MetricsState, acks: Seq<(u64, u64)>) -> MetricsState
    decreases acks.len(),
{
    if acks.len() == 0 {
        m
    } else {
        after_acks(m, acks.drop_last()).with_ack(acks.last().0, acks.last().1)
    }
}

/// The round-trip times that are kept are those of the acknowledgements, one for each and in
/// their order, as long as there are no more than 200000.
pub proof fn law_kept_times_are_those_measured(m: MetricsState, acks: Seq<(u64, u64)>)
    requires
        forall|i: int| 0 <= i < acks.len() ==> m.pending.contains_key(#[trigger] acks[i].0),
        forall|i: int, j: int| 0 <= i < j < acks.len() ==> acks[i].0 != acks[j].0,
        m.rtt_us.len() + acks.len() <= 200_000,
    ensures
        ({
            let after = after_acks(m, acks);
            &&& after.rtt_us == m.rtt_us + Seq::new(acks.len(), |i: int| acks[i].1)
            &&& acks.len() > 0 ==> after.prev_rtt_us == Some(acks.last().1)
            &&& forall|id: u64| #[trigger]
                after.pending.contains_key(id) <==> m.pending.contains_key(id) && forall|i: int|
                    0 <= i < acks.len() ==> #[trigger] acks[i].0 != id
        }),
    decreases acks.len(),
{
    if acks.len() > 0 {
        let front = acks.drop_last();
        assert forall|i: int| 0 <= i < front.len() implies m.pending.contains_key(
            #[trigger] front[i].0,
        ) by {
            assert(front[i] == acks[i]);
        }
        law_kept_times_are_those_measured(m, front);
        let before = after_acks(m, front);
        let last = acks.last();
        assert(acks[acks.len() - 1].0 == last.0);
        assert forall|i: int| 0 <= i < front.len() implies #[trigger] front[i].0 != last.0 by {
            assert(front[i].0 == acks[i].0);
        }
        assert(before.pending.contains_key(last.0));
        let after = after_acks(m, acks);
        assert(after.rtt_us =~= m.rtt_us + Seq::new(acks.len(), |i: int| acks[i].1));
        assert forall|id: u64| #[trigger]
            after.pending.contains_key(id) <==> m.pending.contains_key(id) && forall|i: int|
                0 <= i < acks.len() ==> #[trigger] acks[i].0 != id by {
            if after.pending.contains_key(id) {
                assert(before.pending.contains_key(id));
                assert forall|i: int| 0 <= i < acks.len() implies #[trigger] acks[i].0 != id by {
                    if i < front.len() {
                        assert(front[i].0 == acks[i].0);
                    }
                }
            }
            if m.pending.contains_key(id) && forall|i: int|
                0 <= i < acks.len() ==> #[trigger] acks[i].0 != id {
                assert forall|i: int| 0 <= i < front.len() implies #[trigger] front[i].0 != id by {
                    assert(front[i].0 == acks[i].0);
                }
                assert(before.pending.contains_key(id));
                assert(acks[acks.len() - 1].0 != id);
            }
        }
    } else {
        assert(after_acks(m, acks).rtt_us =~= m.rtt_us + Seq::new(acks.len(), |i: int| acks[i].1));
    }
}

/// Jitter is smoothed by how far a round-trip time is from the latest one before it: from the
/// lesser of the two, so much leads to the greater. There is a step exactly for data on its way
/// once there was a round-trip time before.
pub proof fn law_jitter_step_is_the_distance(m: MetricsState, id: u64, us: u64)
    ensures
        m.jitter_step(id, us) is Some <==> m.pending.contains_key(id) && m.prev_rtt_us is Some,
        m.jitter_step(id, us) matches Some(step) ==> {
            ||| m.prev_rtt_us->0 <= us && m.prev_rtt_us->0 + step == us
            ||| us < m.prev_rtt_us->0 && us + step == m.prev_rtt_us->0
        },
{
}

/// The time that is read for data on its way is that since its own sending, in whole
/// microseconds of what the clock gives.
pub proof fn law_round_trip_is_since_sending(
    m: MetricsState,
    id: u64,
    full_msg_bytes: usize,
    payload_bytes: usize,
    sent_at: Instant,
    us: u64,
)
    requires
        m.with_data_sent(id, full_msg_bytes, payload_bytes, sent_at).is_round_trip(id, us),
    ensures
        exists|nanos: u128| #[trigger]
            may_have_elapsed(sent_at, nanos) && (nanos < 1000 * 0x1_0000_0000_0000_0000 ==> 1000
                * us <= nanos < 1000 * us + 1000),
{
    let sent = m.with_data_sent(id, full_msg_bytes, payload_bytes, sent_at);
    assert(sent.pending.contains_key(id));
    let nanos = choose|nanos: u128| #[trigger]
        may_have_elapsed(sent.pending[id].0, nanos) && us == micros(nanos as nat);
    assert(may_have_elapsed(sent_at, nanos));
}

} // verus!
