//! What a peer does with an incoming message.

use crate::metrics::{
    capped, law_acknowledgement_keeps_its_time, saturating, Counters, Metrics, MetricsState,
};
use crate::peer::{valid_peer, PeerId};
use crate::wire::{
    ack_frame, data_frame, decode_msg, decoded, encode_ack, law_ack_reads_back,
    law_data_reads_back, law_frame_layout, said, Message, ParsedMsg,
};
use vstd::prelude::*;

verus! {

/// What is left to do once a message was noted.
pub enum Reaction {
    /// Nothing.
    Nothing,
    /// Publish this acknowledgement, and count it if that succeeds.
    PublishAck(Vec<u8>),
    /// Smooth jitter by this distance between two round-trip times.
    SmoothJitter(u64),
}

/// What a reaction says.
pub enum ReactionView {
    Nothing,
    PublishAck(Seq<u8>),
    SmoothJitter(u64),
}

impl View for Reaction {
    type V = ReactionView;

    open spec fn view(&self) -> ReactionView {
        match *self {
            Reaction::Nothing => ReactionView::Nothing,
            Reaction::PublishAck(frame) => ReactionView::PublishAck(frame@),
            Reaction::SmoothJitter(step) => ReactionView::SmoothJitter(step),
        }
    }
}

/// What comes of a message of `len` bytes that says `message`, with `us` as the round-trip
/// time if it acknowledges data that is on its way.
///
/// Data of another peer is acknowledged once; seen again, it is a duplicate. Data of this
/// peer itself, acknowledgements for other peers, and bytes that are no frame only count as
/// incoming.
pub open spec fn reaction(
    m: MetricsState,
    local: Seq<u8>,
    len: usize,
    message: Option<Message>,
    us: u64,
) -> (MetricsState, ReactionView) {
    let counted = m.with_incoming(len);
    match message {
        Some(Message::Data { id, sender, payload }) => if sender == local {
            (counted, ReactionView::Nothing)
        } else if counted.seen.contains((sender, id)) {
            (counted.with_duplicate(), ReactionView::Nothing)
        } else {
            (
                counted.with_seen(sender, id).with_payload_delivered(payload.len() as usize),
                ReactionView::PublishAck(ack_frame(id, sender)),
            )
        },
        Some(Message::Ack { id, target }) => if target == local {
            (
                counted.with_ack(id, us),
                match counted.jitter_step(id, us) {
                    Some(step) => ReactionView::SmoothJitter(step),
                    None => ReactionView::Nothing,
                },
            )
        } else {
            (counted, ReactionView::Nothing)
        },
        None => (counted, ReactionView::Nothing),
    }
}

/// Notes a decoded message of `len` bytes, with `us` as the round-trip time if it
/// acknowledges data that is on its way.
pub fn react(
    metrics: &mut Metrics,
    local: &PeerId,
    len: usize,
    message: Option<ParsedMsg<'_>>,
    us: u64,
) -> (r: Reaction)
    requires
        old(metrics).wf(),
    ensures
        final(metrics).wf(),
        (final(metrics)@, r@) == reaction(
            old(metrics)@,
            local@,
            len,
            said(message),
            us,
        ),
{
    metrics.note_incoming(len);
    match message {
        Some(ParsedMsg::Data { id, sender, payload }) => {
            if sender.same(local) {
                return Reaction::Nothing;
            }
            let ghost before = metrics@;
            if !metrics.note_seen(&sender, id) {
                metrics.note_duplicate();
                assert(before.seen.insert((sender@, id)) =~= before.seen);
                return Reaction::Nothing;
            }
            metrics.note_payload_delivered_receiver_side(payload.len());
            Reaction::PublishAck(encode_ack(id, &sender))
        },
        Some(ParsedMsg::Ack { id, target }) => {
            if target.same(local) {
                match metrics.note_ack_received_after(id, us) {
                    Some(step) => Reaction::SmoothJitter(step),
                    None => Reaction::Nothing,
                }
            } else {
                Reaction::Nothing
            }
        },
        None => Reaction::Nothing,
    }
}

/// Notes an incoming message. If it acknowledges data that is on its way, the round-trip
/// time is read off the clock.
pub fn handle_message(metrics: &mut Metrics, local: &PeerId, data: &[u8]) -> (r: Reaction)
    requires
        old(metrics).wf(),
    ensures
        final(metrics).wf(),
        exists|us: u64|
            (final(metrics)@, r@) == #[trigger] reaction(
                old(metrics)@,
                local@,
                data@.len() as usize,
                decoded(data@),
                us,
            ) && (decoded(data@) matches Some(Message::Ack { id, .. }) ==> old(
                metrics,
            )@.is_round_trip(id, us)),
{
    let message = decode_msg(data);
    let us: u64 = match &message {
        Some(ParsedMsg::Ack { id, .. }) => metrics.round_trip_us(*id),
        _ => 0,
    };
    let r = react(metrics, local, data.len(), message, us);
    assert((metrics@, r@) == reaction(
        old(metrics)@,
        local@,
        data@.len() as usize,
        decoded(data@),
        us,
    ));
    r
}

/// Counts an acknowledgement, if it was published.
pub fn ack_published(metrics: &mut Metrics, bytes: usize, published: bool)
    requires
        old(metrics).wf(),
    ensures
        final(metrics).wf(),
        final(metrics)@ == (if published {
            old(metrics)@.with_outgoing(bytes)
        } else {
            old(metrics)@
        }),
{
    if published {
        metrics.note_ack_send(bytes);
    }
}

/// The time that is handed in matters only for an acknowledgement of data on its way.
pub proof fn law_time_matters_for_acks_only(
    m: MetricsState,
    local: Seq<u8>,
    len: usize,
    message: Option<Message>,
    us1: u64,
    us2: u64,
)
    requires
        !(message matches Some(Message::Ack { id, target }) && target == local
            && m.pending.contains_key(id)),
    ensures
        reaction(m, local, len, message, us1) == reaction(m, local, len, message, us2),
{
}

/// Data is acknowledged the first time a data frame of another peer comes in: what is published
/// is an acknowledgement with its number that names its sender, and its payload is counted.
/// When the frame comes in again next, it is counted as a duplicate, and nothing is published.
pub proof fn law_data_is_acknowledged_once(
    m: MetricsState,
    local: Seq<u8>,
    id: u64,
    sender: Seq<u8>,
    payload: Seq<u8>,
    len: usize,
    us: u64,
)
    requires
        valid_peer(sender),
        sender != local,
        !m.seen.contains((sender, id)),
        payload.len() <= usize::MAX,
    ensures
        ({
            let message = decoded(data_frame(id, sender, payload));
            let (first, answer) = reaction(m, local, len, message, us);
            let (second, silence) = reaction(first, local, len, message, us);
            &&& answer == ReactionView::PublishAck(ack_frame(id, sender))
            &&& first.counts.payload_bytes_delivered == saturating(
                m.counts.payload_bytes_delivered,
                payload.len() as int,
            )
            &&& silence == ReactionView::Nothing
            &&& second == first.with_incoming(len).with_duplicate()
        }),
{
    law_data_reads_back(id, sender, payload);
}

/// Data of another peer with a number that was seen from it, whatever its payload, is counted
/// as a duplicate, and is answered by nothing.
pub proof fn law_seen_data_is_not_answered(
    m: MetricsState,
    local: Seq<u8>,
    id: u64,
    sender: Seq<u8>,
    payload: Seq<u8>,
    len: usize,
    us: u64,
)
    requires
        sender != local,
        m.seen.contains((sender, id)),
    ensures
        reaction(m, local, len, Some((Message::Data { id, sender, payload })), us) == (
            m.with_incoming(len).with_duplicate(),
            ReactionView::Nothing,
        ),
{
}

/// A peer does not answer its own data.
pub proof fn law_own_data_is_ignored(
    m: MetricsState,
    local: Seq<u8>,
    id: u64,
    payload: Seq<u8>,
    len: usize,
    us: u64,
)
    requires
        valid_peer(local),
    ensures
        reaction(m, local, len, decoded(data_frame(id, local, payload)), us) == (
            m.with_incoming(len),
            ReactionView::Nothing,
        ),
{
    law_data_reads_back(id, local, payload);
}

/// A delivery: data that is on its way from `sender` is acknowledged by a receiver that has
/// not seen it, and the frame that the receiver publishes makes the sender count it as
/// delivered.
pub proof fn law_acknowledged_data_is_delivered(
    sending: MetricsState,
    receiving: MetricsState,
    sender: Seq<u8>,
    receiver: Seq<u8>,
    id: u64,
    payload: Seq<u8>,
    len: usize,
    ack_len: usize,
    us: u64,
)
    requires
        valid_peer(sender),
        sender != receiver,
        sending.pending.contains_key(id),
        !receiving.seen.contains((sender, id)),
    ensures
        ({
            let (_, answer) = reaction(
                receiving,
                receiver,
                len,
                decoded(data_frame(id, sender, payload)),
                us,
            );
            &&& answer is PublishAck
            &&& reaction(sending, sender, ack_len, decoded(answer->PublishAck_0), us).0
                == sending.with_incoming(ack_len).with_ack(id, us)
            &&& !reaction(
                sending,
                sender,
                ack_len,
                decoded(answer->PublishAck_0),
                us,
            ).0.pending.contains_key(id)
        }),
{
    law_data_reads_back(id, sender, payload);
    law_ack_reads_back(id, sender, Seq::empty());
    assert(ack_frame(id, sender) + Seq::<u8>::empty() =~= ack_frame(id, sender));
}

/// An acknowledgement for another peer changes nothing but the count of incoming bytes.
pub proof fn law_foreign_ack_is_ignored(
    m: MetricsState,
    local: Seq<u8>,
    id: u64,
    target: Seq<u8>,
    len: usize,
    us: u64,
)
    requires
        valid_peer(target),
        target != local,
    ensures
        reaction(m, local, len, decoded(ack_frame(id, target)), us) == (
            m.with_incoming(len),
            ReactionView::Nothing,
        ),
{
    law_ack_reads_back(id, target, Seq::empty());
    assert(ack_frame(id, target) + Seq::<u8>::empty() =~= ack_frame(id, target));
}

/// Every message is counted with its bytes, whatever it says; and no message changes what was
/// sent, what could not be, or which number comes next.
pub proof fn law_incoming_bytes_are_always_counted(
    m: MetricsState,
    local: Seq<u8>,
    len: usize,
    message: Option<Message>,
    us: u64,
)
    ensures
        ({
            let after = reaction(m, local, len, message, us).0;
            &&& after.counts.incoming_bytes == capped(m.counts.incoming_bytes + len)
            &&& after.counts.outgoing_bytes == m.counts.outgoing_bytes
            &&& after.counts.data_sent == m.counts.data_sent
            &&& after.counts.payload_bytes_sent == m.counts.payload_bytes_sent
            &&& after.counts.publish_failed == m.counts.publish_failed
            &&& after.next_id == m.next_id
        }),
{
}

/// Bytes that are no frame change nothing but the count of incoming bytes, and are answered by
/// nothing.
pub proof fn law_noise_is_only_counted(m: MetricsState, local: Seq<u8>, len: usize, us: u64)
    ensures
        ({
            let (after, answer) = reaction(m, local, len, None, us);
            &&& answer == ReactionView::Nothing
            &&& after.counts.incoming_bytes == capped(m.counts.incoming_bytes + len)
            &&& m == MetricsState {
                counts: Counters { incoming_bytes: m.counts.incoming_bytes, ..after.counts },
                ..after
            }
        }),
{
}

/// Data of another peer that was not seen is answered by a frame that acknowledges its number
/// to its sender; its payload counts as delivered, it is seen from then on, and nothing else
/// changes but the count of incoming bytes.
pub proof fn law_new_data_is_answered_by_its_acknowledgement(
    m: MetricsState,
    local: Seq<u8>,
    id: u64,
    sender: Seq<u8>,
    payload: Seq<u8>,
    len: usize,
    us: u64,
)
    requires
        valid_peer(sender),
        sender != local,
        !m.seen.contains((sender, id)),
        payload.len() <= usize::MAX,
    ensures
        ({
            let (after, answer) = reaction(
                m,
                local,
                len,
                Some((Message::Data { id, sender, payload })),
                us,
            );
            &&& answer matches ReactionView::PublishAck(frame) && decoded(frame) == Some(
                (Message::Ack { id, target: sender }),
            ) && frame.len() == 10 + sender.len()
            &&& after.counts.payload_bytes_delivered == capped(
                m.counts.payload_bytes_delivered + payload.len(),
            )
            &&& forall|pair: (Seq<u8>, u64)| #[trigger]
                after.seen.contains(pair) <==> m.seen.contains(pair) || pair == (sender, id)
            &&& m == MetricsState {
                counts: Counters {
                    incoming_bytes: m.counts.incoming_bytes,
                    payload_bytes_delivered: m.counts.payload_bytes_delivered,
                    ..after.counts
                },
                seen: m.seen,
                ..after
            }
        }),
{
    law_ack_reads_back(id, sender, Seq::empty());
    assert(ack_frame(id, sender) + Seq::<u8>::empty() =~= ack_frame(id, sender));
    law_frame_layout(id, sender, payload);
}

/// Data that was seen counts as a duplicate, and data of this peer itself does not; neither is
/// answered or counted as delivered, and nothing else changes but the count of incoming bytes.
pub proof fn law_duplicates_are_only_counted(
    m: MetricsState,
    local: Seq<u8>,
    id: u64,
    sender: Seq<u8>,
    payload: Seq<u8>,
    len: usize,
    us: u64,
)
    requires
        sender == local || m.seen.contains((sender, id)),
    ensures
        ({
            let (after, answer) = reaction(
                m,
                local,
                len,
                Some((Message::Data { id, sender, payload })),
                us,
            );
            &&& answer == ReactionView::Nothing
            &&& sender != local ==> after.counts.duplicates == capped(m.counts.duplicates + 1)
            &&& sender == local ==> after.counts.duplicates == m.counts.duplicates
            &&& m == MetricsState {
                counts: Counters {
                    incoming_bytes: m.counts.incoming_bytes,
                    duplicates: m.counts.duplicates,
                    ..after.counts
                },
                ..after
            }
        }),
{
}

/// An acknowledgement to this peer of data on its way counts one delivery with the size of its
/// payload, and keeps the time that is handed in; jitter is then smoothed by the distance to
/// the time before, if there was one.
pub proof fn law_own_acknowledgement_delivers(
    m: MetricsState,
    local: Seq<u8>,
    id: u64,
    len: usize,
    us: u64,
)
    requires
        m.pending.contains_key(id),
        m.rtt_us.len() < 200_000,
    ensures
        ({
            let (after, answer) = reaction(
                m,
                local,
                len,
                Some((Message::Ack { id, target: local })),
                us,
            );
            &&& after.counts.data_delivered == capped(m.counts.data_delivered + 1)
            &&& after.counts.payload_bytes_delivered == capped(
                m.counts.payload_bytes_delivered + m.pending[id].1,
            )
            &&& after.counts.duplicates == m.counts.duplicates
            &&& after.pending == m.pending.remove(id)
            &&& after.rtt_us == m.rtt_us.push(us)
            &&& after.prev_rtt_us == Some(us)
            &&& after.seen == m.seen
            &&& m.prev_rtt_us is None ==> answer == ReactionView::Nothing
            &&& m.prev_rtt_us matches Some(prev) ==> {
                &&& answer is SmoothJitter
                &&& prev <= us ==> prev + answer->SmoothJitter_0 == us
                &&& us < prev ==> us + answer->SmoothJitter_0 == prev
            }
        }),
{
    law_acknowledgement_keeps_its_time(m.with_incoming(len), id, us);
}

/// An acknowledgement that is not of data on its way, or not to this peer, changes nothing but
/// the count of incoming bytes, and is answered by nothing.
pub proof fn law_other_acknowledgements_are_only_counted(
    m: MetricsState,
    local: Seq<u8>,
    id: u64,
    target: Seq<u8>,
    len: usize,
    us: u64,
)
    requires
        target != local || !m.pending.contains_key(id),
    ensures
        ({
            let (after, answer) = reaction(m, local, len, Some((Message::Ack { id, target })), us);
            &&& answer == ReactionView::Nothing
            &&& m == MetricsState {
                counts: Counters { incoming_bytes: m.counts.incoming_bytes, ..after.counts },
                ..after
            }
        }),
{
}

/// A reaction says what it holds.
pub proof fn law_reaction_says_what_it_holds(frame: Vec<u8>, step: u64)
    ensures
        Reaction::Nothing@ == ReactionView::Nothing,
        Reaction::PublishAck(frame)@ == ReactionView::PublishAck(frame@),
        Reaction::SmoothJitter(step)@ == ReactionView::SmoothJitter(step),
{
}

} // verus!
