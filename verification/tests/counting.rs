use p2p_bench::exchange::{ack_published, handle_message, react, Reaction};
use p2p_bench::metrics::{micros_of_nanos, Metrics, MAX_RTT_SAMPLES};
use p2p_bench::peer::PeerId;
use p2p_bench::percentile::{percentile_us, value_at_place, Percentile};
use p2p_bench::resources::sample_total;
use p2p_bench::seen::SeenIds;
use p2p_bench::wire::{decode_msg, encode_ack, encode_data};
use std::time::{Duration, Instant};

fn peer(n: u8) -> PeerId {
    PeerId::from_bytes(&[0, 1, n]).unwrap()
}

#[test]
fn a_fresh_start_counts_nothing() {
    let mut m = Metrics::new();
    let c = m.counts();
    assert_eq!((c.outgoing_bytes, c.incoming_bytes, c.data_sent, c.data_delivered), (0, 0, 0, 0));
    assert_eq!((c.publish_failed, c.duplicates, c.rtt_seen), (0, 0, 0));
    assert_eq!((c.payload_bytes_sent, c.payload_bytes_delivered), (0, 0));
    assert_eq!(m.pending_len(), 0);
    assert_eq!(m.delivery_ratio(), None);
    assert_eq!(m.overhead_ratio(), (0, 1));
    assert_eq!(m.median_rtt_us(), None);
    assert_eq!(m.alloc_id(), 1);
}

#[test]
fn numbers_go_on_after_a_reset() {
    let mut m = Metrics::new();
    assert_eq!((m.alloc_id(), m.alloc_id()), (1, 2));
    m.note_data_send(2, 50, 8);
    m.note_incoming(9);
    m.note_publish_failed();
    m.note_ack_received_after(2, 40);
    m.reset_run();
    assert_eq!(m.counts(), Metrics::new().counts());
    assert_eq!(m.pending_len(), 0);
    assert_eq!(m.p99_rtt_us(), None);
    assert_eq!(m.alloc_id(), 3);
}

#[test]
fn sent_data_is_delivered_once() {
    let mut m = Metrics::new();
    m.note_data_send(7, 76, 32);
    m.note_data_send(8, 76, 32);
    assert_eq!(m.pending_len(), 2);
    let c = m.counts();
    assert_eq!((c.data_sent, c.outgoing_bytes, c.payload_bytes_sent), (2, 152, 64));
    assert_eq!(m.note_ack_received_after(9, 1), None);
    assert_eq!(m.counts().data_delivered, 0);
    assert_eq!(m.note_ack_received_after(7, 100), None);
    assert_eq!(m.note_ack_received_after(7, 100), None);
    assert_eq!(m.counts().data_delivered, 1);
    assert_eq!(m.note_ack_received_after(8, 70), Some(30));
    let c = m.counts();
    assert_eq!((c.data_delivered, c.rtt_seen, c.payload_bytes_delivered), (2, 2, 64));
    assert_eq!(m.pending_len(), 0);
    assert_eq!(m.delivery_ratio(), Some((2, 2)));
    assert_eq!(m.overhead_ratio(), (152, 64));
}

#[test]
fn jitter_steps_are_distances() {
    let mut m = Metrics::new();
    for id in 0..3 {
        m.note_data_send(id, 1, 1);
    }
    assert_eq!(m.note_ack_received_after(0, 10), None);
    assert_eq!(m.note_ack_received_after(1, 25), Some(15));
    assert_eq!(m.note_ack_received_after(2, 5), Some(20));
}

#[test]
fn round_trips_are_read_off_the_clock() {
    let mut m = Metrics::new();
    assert_eq!(m.round_trip_us(1), 0);
    let earlier = Instant::now() - Duration::from_millis(40);
    m.note_data_send_at(1, 10, 1, earlier);
    let us = m.round_trip_us(1);
    assert!((40_000..40_000_000).contains(&us), "{us}");
    m.note_ack_received(1);
    let median = m.median_rtt_us().unwrap();
    assert!((40_000..40_000_000).contains(&median), "{median}");
    m.note_data_send(2, 10, 1);
    assert!(m.round_trip_us(2) < 10_000_000);
}

#[test]
fn nanoseconds_become_whole_microseconds() {
    assert_eq!(micros_of_nanos(0), 0);
    assert_eq!(micros_of_nanos(999), 0);
    assert_eq!(micros_of_nanos(1_999), 1);
    assert_eq!(micros_of_nanos(1000 * ((1 << 64) + 5)), 5);
    let d = Duration::new(12, 345_678_901);
    assert_eq!(micros_of_nanos(d.as_nanos()) as u128, d.as_micros());
}

#[test]
fn counters_stay_at_the_highest_number() {
    let mut m = Metrics::new();
    m.note_outgoing(usize::MAX);
    m.note_outgoing(1);
    assert_eq!(m.counts().outgoing_bytes, u64::MAX);
    m.note_incoming(usize::MAX);
    m.note_incoming(2);
    assert_eq!(m.counts().incoming_bytes, u64::MAX);
    m.note_payload_delivered_receiver_side(usize::MAX);
    m.note_payload_delivered_receiver_side(3);
    assert_eq!(m.counts().payload_bytes_delivered, u64::MAX);
    assert_eq!(m.overhead_ratio(), (u64::MAX, u64::MAX));
}

#[test]
fn only_the_first_round_trips_are_kept() {
    let mut m = Metrics::new();
    for id in 0..MAX_RTT_SAMPLES as u64 {
        m.note_data_send(id, 1, 1);
        m.note_ack_received_after(id, 1);
    }
    m.note_data_send(0, 1, 1);
    assert_eq!(m.note_ack_received_after(0, 50), Some(49));
    assert_eq!(m.counts().rtt_seen, MAX_RTT_SAMPLES as u64 + 1);
    assert_eq!(m.p99_rtt_us(), Some(1));
}

#[test]
fn copies_count_on_their_own() {
    let mut m = Metrics::new();
    m.note_data_send(1, 5, 5);
    m.note_seen(&peer(1), 4);
    let mut copy = m.clone();
    copy.note_ack_received_after(1, 9);
    assert_eq!((m.pending_len(), copy.pending_len()), (1, 0));
    assert!(!copy.note_seen(&peer(1), 4));
    assert_eq!(copy.median_rtt_us(), Some(9));
}

#[test]
fn seen_messages_are_a_set() {
    let mut seen = SeenIds::new();
    assert!(seen.insert(&peer(1), 1));
    assert!(seen.insert(&peer(2), 1));
    assert!(seen.insert(&peer(1), 2));
    assert!(!seen.insert(&peer(1), 1));
    assert!(!seen.insert(&peer(2), 1));
    seen.clear();
    assert!(seen.insert(&peer(2), 1));
}

#[test]
fn percentiles_of_few_values() {
    assert_eq!(percentile_us(&[], Percentile::Median), None);
    assert_eq!(percentile_us(&[7], Percentile::P99), Some(7));
    assert_eq!(percentile_us(&[5, 1, 3], Percentile::Median), Some(3));
    assert_eq!(percentile_us(&[4, 1, 3, 2], Percentile::Median), Some(3));
    assert_eq!(percentile_us(&[4, 1, 3, 2], Percentile::P95), Some(4));
    assert_eq!(percentile_us(&[u64::MAX, 0], Percentile::Median), Some(u64::MAX));
}

#[test]
fn values_are_found_by_their_place() {
    assert_eq!(value_at_place(&[], 0), None);
    let v = [4, 1, 3, 2];
    for place in 0..4 {
        assert_eq!(value_at_place(&v, place), Some(place as u64 + 1));
    }
    assert_eq!(value_at_place(&v, 4), Some(4));
    assert_eq!(value_at_place(&v, usize::MAX), Some(4));
}

#[test]
fn order_of_values_does_not_matter() {
    let (v, w) = ([9, 3, 3, 12, 40, 1], [40, 12, 9, 3, 3, 1]);
    for place in 0..8 {
        assert_eq!(value_at_place(&v, place), value_at_place(&w, place));
    }
    for which in [Percentile::Median, Percentile::P95, Percentile::P99] {
        assert_eq!(percentile_us(&v, which), percentile_us(&w, which));
    }
}

#[test]
fn percentiles_agree_with_floating_point() {
    let mut sizes: Vec<usize> = (1..400).collect();
    sizes.extend([1000, 1011, 4951, 5000, 65_536, 99_951, 199_991, 200_000]);
    for n in sizes {
        let v: Vec<u64> = (0..n as u64).rev().collect();
        let all = [(50.0, Percentile::Median), (95.0, Percentile::P95), (99.0, Percentile::P99)];
        for (percent, which) in all {
            let place = ((percent / 100.0) * (n - 1) as f64).round() as usize;
            assert_eq!(percentile_us(&v, which), Some(place.min(n - 1) as u64), "{n} {percent}");
            assert_eq!(percentile_us(&v, which), value_at_place(&v, place), "{n} {percent}");
        }
    }
}

#[test]
fn percentiles_are_ordered() {
    let v = [9, 3, 3, 12, 40, 1, 8, 2, 2, 77, 5];
    let at = |p| percentile_us(&v, p).unwrap();
    assert_eq!(at(Percentile::Median), 5);
    assert_eq!(at(Percentile::P95), 77);
    assert!(at(Percentile::P95) <= at(Percentile::P99));
}

#[test]
fn samples_add_up_or_overflow() {
    assert_eq!(sample_total(&[]), Some(0));
    assert_eq!(sample_total(&[1, 2, 3]), Some(6));
    assert_eq!(sample_total(&[u64::MAX, 0]), Some(u64::MAX));
    assert_eq!(sample_total(&[u64::MAX, 1, 0]), None);
}

#[test]
fn data_is_acknowledged_once() {
    let mut m = Metrics::new();
    let frame = encode_data(4, &peer(1), b"hello");
    match handle_message(&mut m, &peer(2), &frame) {
        Reaction::PublishAck(ack) => assert_eq!(ack, encode_ack(4, &peer(1))),
        _ => panic!("no acknowledgement"),
    }
    assert_eq!(m.counts().payload_bytes_delivered, 5);
    assert!(matches!(handle_message(&mut m, &peer(2), &frame), Reaction::Nothing));
    let c = m.counts();
    assert_eq!((c.duplicates, c.payload_bytes_delivered), (1, 5));
    assert_eq!(c.incoming_bytes, 2 * frame.len() as u64);
    let same_number = encode_data(4, &peer(3), b"");
    assert!(matches!(handle_message(&mut m, &peer(2), &same_number), Reaction::PublishAck(_)));
}

#[test]
fn seen_data_is_never_answered_again() {
    let mut m = Metrics::new();
    let local = peer(2);
    let first = encode_data(4, &peer(1), b"hello");
    assert!(matches!(handle_message(&mut m, &local, &first), Reaction::PublishAck(_)));
    for id in 5..9 {
        handle_message(&mut m, &local, &encode_data(id, &peer(1), b""));
        handle_message(&mut m, &local, &encode_ack(id, &local));
    }
    let other_payload = encode_data(4, &peer(1), b"another payload");
    assert!(matches!(handle_message(&mut m, &local, &other_payload), Reaction::Nothing));
    assert_eq!((m.counts().duplicates, m.counts().payload_bytes_delivered), (1, 5));
}

#[test]
fn own_data_and_foreign_acks_are_ignored() {
    let mut m = Metrics::new();
    m.note_data_send(4, 20, 5);
    let own = encode_data(4, &peer(2), b"hello");
    for _ in 0..2 {
        assert!(matches!(handle_message(&mut m, &peer(2), &own), Reaction::Nothing));
    }
    let foreign = encode_ack(4, &peer(1));
    assert!(matches!(handle_message(&mut m, &peer(2), &foreign), Reaction::Nothing));
    assert!(matches!(handle_message(&mut m, &peer(2), b"noise"), Reaction::Nothing));
    let c = m.counts();
    assert_eq!((c.duplicates, c.data_delivered, c.payload_bytes_delivered), (0, 0, 0));
    assert_eq!(c.incoming_bytes, (2 * own.len() + foreign.len() + 5) as u64);
    assert_eq!(m.pending_len(), 1);
}

#[test]
fn an_exchange_delivers() {
    let (sender, receiver) = (peer(1), peer(2));
    let (mut sending, mut receiving) = (Metrics::new(), Metrics::new());
    for _ in 0..2 {
        let id = sending.alloc_id();
        let frame = encode_data(id, &sender, &[b'x'; 32]);
        sending.note_data_send(id, frame.len(), 32);
        let ack = match handle_message(&mut receiving, &receiver, &frame) {
            Reaction::PublishAck(ack) => ack,
            _ => panic!("no acknowledgement"),
        };
        ack_published(&mut receiving, ack.len(), true);
        handle_message(&mut sending, &sender, &ack);
    }
    let c = sending.counts();
    assert_eq!((c.data_sent, c.data_delivered, c.payload_bytes_delivered), (2, 2, 64));
    assert_eq!(sending.pending_len(), 0);
    assert_eq!(receiving.counts().outgoing_bytes, 2 * 13);
    ack_published(&mut receiving, 100, false);
    assert_eq!(receiving.counts().outgoing_bytes, 2 * 13);
}

#[test]
fn time_matters_for_acks_only() {
    for frame in [encode_data(1, &peer(1), b"x"), encode_ack(1, &peer(1)), vec![1; 12]] {
        let mut counts = Vec::new();
        for us in [0, u64::MAX] {
            let mut m = Metrics::new();
            m.note_data_send(1, 1, 1);
            react(&mut m, &peer(2), frame.len(), decode_msg(&frame), us);
            assert_eq!(m.pending_len(), 1);
            assert_eq!(m.median_rtt_us(), None);
            counts.push(m.counts());
        }
        assert_eq!(counts[0], counts[1]);
    }
}

#[test]
fn a_decoded_ack_takes_the_given_time() {
    let mut m = Metrics::new();
    m.note_data_send(1, 1, 1);
    m.note_data_send(2, 1, 1);
    for (id, us) in [(1, 500), (2, 420)] {
        let ack = encode_ack(id, &peer(9));
        let reaction = react(&mut m, &peer(9), ack.len(), decode_msg(&ack), us);
        match reaction {
            Reaction::Nothing => assert_eq!(id, 1),
            Reaction::SmoothJitter(step) => assert_eq!((id, step), (2, 80)),
            Reaction::PublishAck(_) => panic!("an acknowledgement of an acknowledgement"),
        }
    }
    assert_eq!(m.p95_rtt_us(), Some(500));
}
