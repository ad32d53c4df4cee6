use p2p_bench::address::{
    dial_addr_for_stack, listen_multiaddr, sender_listen_multiaddr, write_address,
    write_dial_address, AddressError, Multiaddr,
};
use p2p_bench::bench::{
    bench_plan, BenchRun, Pause, RunAction, MAX_BURST, MAX_TRANSMIT_SIZE, RUN_TIMEOUT_NANOS,
};
use p2p_bench::dial::{DialEvent, DialProgress, DialStep};
use p2p_bench::exchange::handle_message;
use p2p_bench::metrics::Metrics;
use p2p_bench::peer::PeerId;
use p2p_bench::report::{
    bench_row, csv_file, progress_line, table_lines, BenchRow, Figures,
};
use p2p_bench::stack::Stack;
use p2p_bench::wire::{decode_msg, encode_ack, encode_data, ParsedMsg};
use std::time::Instant;

fn peer(n: u8) -> PeerId {
    PeerId::from_bytes(&[0, 1, n]).unwrap()
}

#[test]
fn the_plan_goes_size_by_size() {
    assert_eq!(
        bench_plan(),
        vec![
            (32, 100),
            (32, 1000),
            (32, 5000),
            (1024, 100),
            (1024, 1000),
            (1024, 5000),
            (4096, 100),
            (4096, 1000),
            (4096, 5000),
        ]
    );
}

#[test]
fn a_peer_is_ready_once_connected_and_subscribed() {
    let mut p = DialProgress::new(peer(1), "topic".to_string());
    assert_eq!(p.step(0, 10), DialStep::Await);
    assert_eq!(p.step(10, 10), DialStep::Await);
    assert_eq!(p.step(11, 10), DialStep::TimedOut);
    assert_eq!(DialStep::TimedOut.failure(), Some("dial timeout"));
    assert_eq!(DialStep::Ready.failure(), None);
    assert_eq!(DialStep::Await.failure(), None);
    p.note(DialEvent::Other);
    p.note(DialEvent::Connected(peer(2)));
    p.note(DialEvent::Subscribed(peer(1), "other".to_string()));
    p.note(DialEvent::Subscribed(peer(2), "topic".to_string()));
    assert_eq!(p.step(1, 10), DialStep::Await);
    p.note(DialEvent::Subscribed(peer(1), "topic".to_string()));
    assert_eq!(p.step(1, 10), DialStep::Await);
    p.note(DialEvent::Connected(peer(1)));
    assert_eq!(p.step(1, 10), DialStep::Ready);
    assert_eq!(p.step(11, 10), DialStep::Ready);
}

fn publish(run: &mut BenchRun, m: &mut Metrics, local: &PeerId) -> u64 {
    match run.next(m, local, 0) {
        RunAction::Publish(frame) => match decode_msg(&frame) {
            Some(ParsedMsg::Data { id, sender, payload }) => {
                assert!(sender.same(local));
                assert!(payload.iter().all(|b| *b == b'x'));
                assert_eq!(run.published(m, true), Pause::Yield);
                id
            }
            _ => panic!("not data"),
        },
        _ => panic!("nothing to publish"),
    }
}

#[test]
fn a_run_delivers_what_was_requested() {
    let local = peer(1);
    let mut m = Metrics::new();
    let mut run = BenchRun::start(&mut m, 3, 16, 2);
    let first = publish(&mut run, &mut m, &local);
    let second = publish(&mut run, &mut m, &local);
    assert_eq!((first, second), (1, 2));
    assert!(matches!(run.next(&mut m, &local, 0), RunAction::Wait));
    handle_message(&mut m, &local, &encode_ack(first, &local));
    let third = publish(&mut run, &mut m, &local);
    assert!(matches!(run.next(&mut m, &local, 0), RunAction::Wait));
    for id in [third, second] {
        assert!(matches!(run.next(&mut m, &local, 0), RunAction::Wait));
        handle_message(&mut m, &local, &encode_ack(id, &local));
    }
    assert!(matches!(run.next(&mut m, &local, 0), RunAction::Finish));
    let c = m.counts();
    assert_eq!((c.data_sent, c.data_delivered), (3, 3));
    assert_eq!((c.payload_bytes_sent, c.payload_bytes_delivered), (48, 48));
}

#[test]
fn a_refused_frame_costs_a_number() {
    let local = peer(1);
    let mut m = Metrics::new();
    let mut run = BenchRun::start(&mut m, 1, 0, 1);
    assert!(matches!(run.next(&mut m, &local, 0), RunAction::Publish(_)));
    assert_eq!(run.published(&mut m, false), Pause::Retry);
    assert_eq!((m.counts().publish_failed, m.counts().data_sent, m.pending_len()), (1, 0, 0));
    assert_eq!(m.clone().alloc_id(), 2);
    assert_eq!(publish(&mut run, &mut m, &local), 2);
    assert_eq!(m.counts().outgoing_bytes, 13);
}

#[test]
fn runs_do_not_share_numbers() {
    let local = peer(1);
    let mut m = Metrics::new();
    let mut numbers = Vec::new();
    for _ in 0..3 {
        let mut run = BenchRun::start(&mut m, 4, 1, 10);
        for _ in 0..4 {
            numbers.push(publish(&mut run, &mut m, &local));
        }
        assert_eq!(m.counts().data_sent, 4);
    }
    assert_eq!(numbers, (1..=12).collect::<Vec<u64>>());
}

#[test]
fn planned_frames_fit() {
    let mut bytes = vec![0x12, 64];
    bytes.extend([9; 64]);
    let longest = PeerId::from_bytes(&bytes).unwrap();
    for (size, _) in bench_plan() {
        let frame = encode_data(u64::MAX, &longest, &vec![b'x'; size]);
        assert_eq!(frame.len(), 76 + size);
        assert!(frame.len() <= MAX_TRANSMIT_SIZE);
    }
}

#[test]
fn a_burst_is_interrupted() {
    let local = peer(1);
    let mut m = Metrics::new();
    let mut run = BenchRun::start(&mut m, 100, 4, 1000);
    for _ in 0..MAX_BURST {
        publish(&mut run, &mut m, &local);
    }
    assert!(matches!(run.next(&mut m, &local, 0), RunAction::Wait));
    for _ in MAX_BURST..100 {
        publish(&mut run, &mut m, &local);
    }
    assert!(matches!(run.next(&mut m, &local, 0), RunAction::Wait));
    assert_eq!(m.pending_len(), 100);
}

#[test]
fn a_run_ends_when_time_is_up() {
    let local = peer(1);
    let mut m = Metrics::new();
    let mut run = BenchRun::start(&mut m, 5, 4, 10);
    assert!(matches!(
        run.next(&mut m, &local, RUN_TIMEOUT_NANOS),
        RunAction::Publish(_)
    ));
    run.published_at(&mut m, Instant::now());
    assert!(matches!(
        run.next(&mut m, &local, RUN_TIMEOUT_NANOS + 1),
        RunAction::Finish
    ));
    assert_eq!(m.counts().data_sent, 1);
    let mut empty = BenchRun::start(&mut m, 0, 4, 10);
    assert!(matches!(empty.next(&mut m, &local, 0), RunAction::Finish));
    let mut closed = BenchRun::start(&mut m, 1, 4, 0);
    assert!(matches!(closed.next(&mut m, &local, 0), RunAction::Wait));
}

fn bytes_of(text: &str) -> Vec<u8> {
    text.parse::<libp2p::Multiaddr>().unwrap().to_vec()
}

#[test]
fn stacks_listen_on_their_addresses() {
    let cases = [
        (Stack::Tcp, "/ip4/0.0.0.0/tcp/9000"),
        (Stack::Tor, "/ip4/0.0.0.0/tcp/9000"),
        (Stack::WebSocket, "/ip4/0.0.0.0/tcp/9001/ws"),
        (Stack::Quic, "/ip4/0.0.0.0/udp/9002/quic-v1"),
        (Stack::WebRtcUdp, "/ip4/0.0.0.0/udp/9003/webrtc-direct"),
    ];
    for (stack, text) in cases {
        assert_eq!(listen_multiaddr(stack, 9000).unwrap().as_bytes(), &bytes_of(text));
    }
    let tcp = listen_multiaddr(Stack::Tcp, 9000).unwrap();
    assert_eq!(tcp.as_bytes(), &vec![4, 0, 0, 0, 0, 6, 0x23, 0x28]);
    let error = listen_multiaddr(Stack::All, 9000).unwrap_err();
    assert_eq!(error.message(), Some("use multiple listen_on for Stack::All"));
    assert!(sender_listen_multiaddr(Stack::Tcp).is_none());
    assert_eq!(
        sender_listen_multiaddr(Stack::WebRtcUdp).unwrap().unwrap().as_bytes(),
        &bytes_of("/ip4/0.0.0.0/udp/0/webrtc-direct")
    );
    assert_eq!(write_address(Stack::Quic, "1.2.3.4", 5), "/ip4/1.2.3.4/udp/5/quic-v1");
}

#[test]
fn peers_are_dialed_where_they_listen() {
    let p = peer(5);
    let dial = |stack| dial_addr_for_stack(stack, "10.0.0.1", 9000, &p, None, None);
    let cases = [
        (Stack::Tcp, "/ip4/10.0.0.1/tcp/9000/p2p/"),
        (Stack::WebSocket, "/ip4/10.0.0.1/tcp/9001/ws/p2p/"),
        (Stack::Quic, "/ip4/10.0.0.1/udp/9002/quic-v1/p2p/"),
    ];
    for (stack, text) in cases {
        let text = format!("{text}{}", p.to_text());
        assert_eq!(dial(stack).unwrap().as_bytes(), &bytes_of(&text));
    }
    assert_eq!(
        write_dial_address(Stack::WebSocket, "10.0.0.1", 9000, "someone"),
        "/ip4/10.0.0.1/tcp/9001/ws/p2p/someone"
    );
    let here = dial_addr_for_stack(Stack::Quic, "0.0.0.0", 9000, &p, None, None).unwrap();
    let listening = listen_multiaddr(Stack::Quic, 9000).unwrap();
    assert!(here.as_bytes().starts_with(listening.as_bytes()));
    let message = |stack| dial(stack).unwrap_err().message();
    assert_eq!(message(Stack::WebRtcUdp), Some("Need full multiaddr for webrtc"));
    assert_eq!(message(Stack::Tor), Some("Tor dial requires onion multiaddr"));
    assert_eq!(message(Stack::All), Some("use per-stack dial in all mode"));
    let given = Multiaddr::parse("/ip4/1.1.1.1/udp/7/webrtc-direct").unwrap();
    let dialed = dial_addr_for_stack(
        Stack::WebRtcUdp,
        "10.0.0.1",
        9000,
        &p,
        Some(given.clone()),
        None,
    );
    assert_eq!(dialed.unwrap().as_bytes(), given.as_bytes());
    let dialed =
        dial_addr_for_stack(Stack::Tor, "10.0.0.1", 9000, &p, None, Some(given.clone()));
    assert_eq!(dialed.unwrap().as_bytes(), given.as_bytes());
}

#[test]
fn texts_that_are_no_address_are_refused() {
    let ipv6 = dial_addr_for_stack(Stack::Tcp, "::1", 9000, &peer(1), None, None);
    assert!(matches!(ipv6, Err(AddressError::Invalid(_))));
    let error = Multiaddr::parse("tcp/1").unwrap_err();
    assert!(matches!(error, AddressError::Invalid(_)));
    assert_eq!(error.message(), None);
}

fn row(median_us: Option<u64>) -> BenchRow {
    BenchRow {
        stack: Stack::WebSocket,
        payload: 1024,
        requested: 100,
        sent: 100,
        delivered: 99,
        publish_failed: 3,
        dial_ms: 250,
        median_us,
        p95_us: median_us,
        p99_us: Some(123456),
        figures: Figures {
            delivery_percent: format!("{:.2}", 99.0),
            jitter_us: format!("{:.1}", 12.34),
            goodput_mbps: format!("{:.3}", 1.5),
            overhead: format!("{:.3}", 1.0421),
            cpu_avg: format!("{:.2}", 7.0),
            mem_avg: format!("{:.2}", 20.128),
        },
    }
}

#[test]
fn rows_come_from_metrics() {
    let mut m = Metrics::new();
    for id in 0..4 {
        m.note_data_send(id, 10, 5);
    }
    for (id, us) in [(0, 30), (1, 10), (2, 20)] {
        m.note_ack_received_after(id, us);
    }
    m.note_publish_failed();
    let r = bench_row(Stack::Tcp, 5, 4, 77, &m, row(None).figures);
    assert_eq!(r.stack, Stack::Tcp);
    assert_eq!((r.payload, r.requested, r.dial_ms), (5, 4, 77));
    assert_eq!((r.sent, r.delivered, r.publish_failed), (4, 3, 1));
    assert_eq!((r.median_us, r.p95_us, r.p99_us), (Some(20), Some(30), Some(30)));
    assert_eq!(r.figures.overhead, "1.042");
}

#[test]
fn the_file_has_a_line_per_run() {
    assert!(csv_file(&[], 5).is_none());
    let file = csv_file(&[row(Some(42)), row(None)], 1700000000).unwrap();
    assert_eq!(file.name, "results_1700000000.csv");
    assert_eq!(
        file.lines,
        vec![
            "stack,payload,requested,sent,delivered,publish_failed,dial_ms,delivery_percent,median_us,p95_us,p99_us,jitter_us,goodput_mbps,overhead,cpu_avg,mem_avg_mb",
            "ws,1024,100,100,99,3,250,99.00,42,42,123456,12.3,1.500,1.042,7.00,20.13",
            "ws,1024,100,100,99,3,250,99.00,0,0,123456,12.3,1.500,1.042,7.00,20.13",
        ]
    );
    let columns = file.lines[0].split(',').count();
    assert!(file.lines.iter().all(|line| line.split(',').count() == columns));
}

#[test]
fn the_table_is_laid_out_as_formatted() {
    let r = row(None);
    let lines = table_lines(&[r]);
    let dashes = "-".repeat(163);
    let head = format!(
        "{:>6} | {:>7} | {:>8} | {:>7} | {:>7} | {:>7} | {:>7} | {:>8} | {:>9} | {:>9} | {:>9} | {:>8} | {:>9} | {:>9} | {:>7} | {:>7}",
        "stack", "payload", "req", "sent", "deliv", "fail", "dialms", "deliv%", "medianus", "p95us", "p99us", "jitter", "goodput", "overhead", "cpu", "mem"
    );
    let line = format!(
        "{:>6} | {:>7} | {:>8} | {:>7} | {:>7} | {:>7} | {:>7} | {:>7.2}% | {:>9} | {:>9} | {:>9} | {:>7.1} | {:>8.3} | {:>8.3} | {:>6.2} | {:>6.2}",
        "ws", 1024, 100, 100, 99, 3, 250, 99.0, "n/a", "n/a", 123456, 12.34, 1.5, 1.0421, 7.0, 20.128
    );
    assert_eq!(lines, vec!["", &dashes, &head, &dashes, &line, &dashes, ""]);
    assert_eq!(table_lines(&[]).len(), 6);
}

#[test]
fn wide_cells_are_not_cut() {
    let mut r = row(Some(1));
    r.dial_ms = u128::MAX;
    let lines = table_lines(&[r]);
    assert!(lines[4].contains("| 340282366920938463463374607431768211455 |"));
}

#[test]
fn progress_is_shown_per_run() {
    assert_eq!(progress_line(&row(Some(42))), "[ws] 1024B | 99/100 | Some(42)us | 1.500 Mbps");
    assert_eq!(progress_line(&row(None)), "[ws] 1024B | 99/100 | Noneus | 1.500 Mbps");
}
