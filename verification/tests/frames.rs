use p2p_bench::message_id::{
    make_message_id, message_id_of_ack, message_id_of_data, message_id_of_hash, numbered_id,
};
use p2p_bench::peer::PeerId;
use p2p_bench::wire::{decode_msg, decode_with_peer, encode_ack, encode_data, ParsedMsg};
use std::collections::hash_map::DefaultHasher;
use std::hash::{Hash, Hasher};

fn hashed_peer() -> PeerId {
    let mut bytes = vec![0x12, 32];
    bytes.extend(0..32u8);
    PeerId::from_bytes(&bytes).unwrap()
}

fn inline_peer() -> PeerId {
    PeerId::from_bytes(&[0, 3, 7, 8, 9]).unwrap()
}

#[test]
fn peers_have_their_bytes() {
    assert_eq!(inline_peer().as_bytes(), &vec![0, 3, 7, 8, 9]);
    assert_eq!(hashed_peer().as_bytes().len(), 34);
    assert!(inline_peer().same(&inline_peer().clone()));
    assert!(!inline_peer().same(&hashed_peer()));
}

#[test]
fn bytes_that_are_no_peer_are_refused() {
    let mut too_long = vec![0, 43];
    too_long.extend([1; 43]);
    let mut much_too_long = vec![0x12, 65];
    much_too_long.extend([1; 65]);
    let cases: [&[u8]; 7] = [
        &[],
        &[0],
        &[0, 2, 1],
        &[0, 1, 1, 1],
        &[0x13, 1, 1],
        &too_long,
        &much_too_long,
    ];
    for bytes in cases {
        assert!(PeerId::from_bytes(bytes).is_err(), "{bytes:?}");
    }
    let mut longest = vec![0, 42];
    longest.extend([1; 42]);
    assert_eq!(PeerId::from_bytes(&longest).unwrap().as_bytes(), &longest);
    let mut longest_hashed = vec![0x12, 64];
    longest_hashed.extend([1; 64]);
    assert_eq!(PeerId::from_bytes(&longest_hashed).unwrap().as_bytes(), &longest_hashed);
}

#[test]
fn long_spellings_of_a_peer_are_shortened() {
    let mut spelled = vec![0x92];
    spelled.extend([0x80; 8]);
    spelled.extend([0x02, 0x00]);
    assert_eq!(PeerId::from_bytes(&spelled).unwrap().as_bytes(), &vec![0x12, 0x00]);
}

#[test]
fn peers_read_back_from_their_text() {
    for peer in [inline_peer(), hashed_peer()] {
        let text = peer.to_text();
        let known = libp2p::PeerId::from_bytes(peer.as_bytes()).unwrap();
        assert_eq!(text, known.to_string());
        assert!(PeerId::from_text(&text).unwrap().same(&peer));
    }
    assert_eq!(PeerId::from_bytes(&[0, 0]).unwrap().to_text(), "11");
    assert_eq!(PeerId::from_bytes(&[0, 1, 5]).unwrap().to_text(), "15W");
    assert!(PeerId::from_text("").is_err());
    assert!(PeerId::from_text("0OIl").is_err());
    assert!(PeerId::from_text("2").is_err());
}

#[test]
fn frames_are_laid_out_byte_by_byte() {
    let data = encode_data(0x0102030405060708, &inline_peer(), b"xyz");
    assert_eq!(
        data,
        vec![1, 1, 2, 3, 4, 5, 6, 7, 8, 5, 0, 3, 7, 8, 9, b'x', b'y', b'z']
    );
    let ack = encode_ack(u64::MAX, &inline_peer());
    assert_eq!(ack, vec![2, 255, 255, 255, 255, 255, 255, 255, 255, 5, 0, 3, 7, 8, 9]);
}

#[test]
fn data_frames_read_back() {
    for number in [0, 1, 255, 256, 1 << 40, u64::MAX] {
        for body in [&b""[..], &b"x"[..], &[0xab; 4096][..]] {
            let frame = encode_data(number, &hashed_peer(), body);
            assert_eq!(frame.len(), 10 + 34 + body.len());
            match decode_msg(&frame) {
                Some(ParsedMsg::Data { id, sender, payload }) => {
                    assert_eq!(id, number);
                    assert!(sender.same(&hashed_peer()));
                    assert_eq!(payload, body);
                }
                _ => panic!("not data"),
            }
        }
    }
}

#[test]
fn acks_read_back_whatever_follows() {
    let mut frame = encode_ack(77, &inline_peer());
    for _ in 0..2 {
        match decode_msg(&frame) {
            Some(ParsedMsg::Ack { id, target }) => {
                assert_eq!(id, 77);
                assert!(target.same(&inline_peer()));
            }
            _ => panic!("not an acknowledgement"),
        }
        frame.push(0);
    }
}

#[test]
fn other_bytes_are_no_frame() {
    let frame = encode_data(5, &inline_peer(), b"");
    for len in 0..frame.len() {
        assert!(decode_msg(&frame[..len]).is_none(), "{len}");
    }
    let mut other_kind = frame.clone();
    other_kind[0] = 3;
    assert!(decode_msg(&other_kind).is_none());
    let mut other_peer = frame.clone();
    other_peer[10] = 0x11;
    assert!(decode_msg(&other_peer).is_none());
    let mut no_peer = frame;
    no_peer[9] = 0;
    assert!(decode_msg(&no_peer).is_none());
}

#[test]
fn a_frame_is_determined_by_what_it_says() {
    let frame = encode_data(9, &hashed_peer(), b"rest");
    match decode_msg(&frame) {
        Some(ParsedMsg::Data { id, sender, payload }) => {
            assert_eq!(encode_data(id, &sender, payload), frame);
        }
        _ => panic!("not data"),
    }
    // With its peer at greater length, a frame says the same in other bytes.
    let mut spelled = vec![0x92];
    spelled.extend([0x80; 8]);
    spelled.extend([0x02, 0x00]);
    let mut longer = vec![2, 0, 0, 0, 0, 0, 0, 0, 9, spelled.len() as u8];
    longer.extend(&spelled);
    match decode_msg(&longer) {
        Some(ParsedMsg::Ack { id, target }) => {
            assert_eq!(encode_ack(id, &target), vec![2, 0, 0, 0, 0, 0, 0, 0, 9, 2, 0x12, 0]);
        }
        _ => panic!("not an acknowledgement"),
    }
}

#[test]
fn a_frame_is_decoded_with_a_given_peer() {
    let frame = encode_data(5, &inline_peer(), b"p");
    match decode_with_peer(&frame, hashed_peer()) {
        Some(ParsedMsg::Data { id, sender, payload }) => {
            assert_eq!(id, 5);
            assert!(sender.same(&hashed_peer()));
            assert_eq!(payload, b"p");
        }
        _ => panic!("not data"),
    }
    let mut other_kind = frame;
    other_kind[0] = 0;
    assert!(decode_with_peer(&other_kind, inline_peer()).is_none());
}

#[test]
fn message_ids_name_kind_number_and_peer() {
    let peer = PeerId::from_bytes(&[0, 0]).unwrap();
    assert_eq!(make_message_id(&encode_data(12, &peer, b"a")), "d:12:11");
    assert_eq!(make_message_id(&encode_data(12, &peer, b"b")), "d:12:11");
    assert_eq!(make_message_id(&encode_ack(12, &peer)), "a:12:11");
    assert_eq!(message_id_of_data(u64::MAX, &peer), "d:18446744073709551615:11");
    assert_eq!(message_id_of_ack(0, &peer), "a:0:11");
    assert_eq!(numbered_id("d:", 7, "some peer"), "d:7:some peer");
    let other = hashed_peer();
    assert_eq!(
        make_message_id(&encode_data(3, &other, b"")),
        format!("d:3:{}", libp2p::PeerId::from_bytes(other.as_bytes()).unwrap())
    );
}

#[test]
fn message_ids_of_other_bytes_are_hashes() {
    assert_eq!(message_id_of_hash(0), "raw:0");
    assert_eq!(message_id_of_hash(0xdead_beef_0042), "raw:deadbeef0042");
    assert_eq!(message_id_of_hash(u64::MAX), "raw:ffffffffffffffff");
    for data in [&b""[..], &b"hello"[..], &[1; 9][..]] {
        let mut hasher = DefaultHasher::new();
        data.hash(&mut hasher);
        assert_eq!(make_message_id(data), format!("raw:{:x}", hasher.finish()));
        assert_eq!(make_message_id(data), make_message_id(&data.to_vec()));
    }
}
