//! The frames that peers exchange.

use crate::peer::{peer_id_of_bytes, valid_peer, PeerId};
use vstd::arithmetic::power::pow;
use vstd::prelude::*;
use vstd::slice::slice_subrange;

verus! {

/// The first byte of a data frame.
pub const KIND_DATA: u8 = 1;

/// The first byte of an acknowledgement frame.
pub const KIND_ACK: u8 = 2;

/// `n` in `len` bytes, most significant byte first.
pub open spec fn be_bytes(n: nat, len: nat) -> Seq<u8>
    decreases len,
{
    if len == 0 {
        Seq::empty()
    } else {
        be_bytes(n / 256, (len - 1) as nat).push((n % 256) as u8)
    }
}

/// The number that bytes write, most significant byte first.
pub open spec fn be_value(b: Seq<u8>) -> nat
    decreases b.len(),
{
    if b.len() == 0 {
        0
    } else {
        be_value(b.drop_last()) * 256 + b.last() as nat
    }
}

/// What every frame starts with: its kind, its number in eight bytes, the length of a peer
/// identifier, and the identifier.
pub open spec fn frame_head(kind: u8, id: u64, peer: Seq<u8>) -> Seq<u8> {
    seq![kind] + be_bytes(id as nat, 8) + seq![peer.len() as u8] + peer
}

/// A data frame: a head that names the sender, then the payload.
pub open spec fn data_frame(id: u64, sender: Seq<u8>, payload: Seq<u8>) -> Seq<u8> {
    frame_head(KIND_DATA, id, sender) + payload
}

/// An acknowledgement frame: a head that names the peer whose data is acknowledged.
pub open spec fn ack_frame(id: u64, target: Seq<u8>) -> Seq<u8> {
    frame_head(KIND_ACK, id, target)
}

/// What a frame says.
pub enum Message {
    Data { id: u64, sender: Seq<u8>, payload: Seq<u8> },
    Ack { id: u64, target: Seq<u8> },
}

/// Whether the bytes hold a kind, a number, a length, and as many bytes as the length says.
pub open spec fn has_frame_head(b: Seq<u8>) -> bool {
    b.len() >= 10 && b.len() >= 10 + b[9]
}

/// The number of a frame.
pub open spec fn frame_number(b: Seq<u8>) -> nat {
    be_value(b.subrange(1, 9))
}

/// The bytes of a frame that name a peer.
pub open spec fn frame_peer(b: Seq<u8>) -> Seq<u8> {
    b.subrange(10, 10 + b[9])
}

/// What follows the head of a frame.
pub open spec fn frame_rest(b: Seq<u8>) -> Seq<u8> {
    b.skip(10 + b[9])
}

/// What a frame says once its peer is known.
pub open spec fn message_with_peer(b: Seq<u8>, peer: Seq<u8>) -> Option<Message> {
    if b[0] == KIND_DATA {
        Some(Message::Data { id: frame_number(b) as u64, sender: peer, payload: frame_rest(b) })
    } else if b[0] == KIND_ACK {
        Some(Message::Ack { id: frame_number(b) as u64, target: peer })
    } else {
        None
    }
}

/// What bytes say, if they are a frame. An acknowledgement may be followed by anything.
pub open spec fn decoded(b: Seq<u8>) -> Option<Message> {
    if !has_frame_head(b) {
        None
    } else {
        match peer_id_of_bytes(frame_peer(b)) {
            Some(peer) => message_with_peer(b, peer),
            None => None,
        }
    }
}

/// A decoded frame; the payload is borrowed from the frame.
pub enum ParsedMsg<'a> {
    Data { id: u64, sender: PeerId, payload: &'a [u8] },
    Ack { id: u64, target: PeerId },
}

impl<'a> View for ParsedMsg<'a> {
    type V = Message;

    open spec fn view(&self) -> Message {
        match *self {
            ParsedMsg::Data { id, sender, payload } => Message::Data {
                id,
                sender: sender@,
                payload: payload@,
            },
            ParsedMsg::Ack { id, target } => Message::Ack { id, target: target@ },
        }
    }
}

/// What was decoded, if anything was.
pub open spec fn said(r: Option<ParsedMsg<'_>>) -> Option<Message> {
    match r {
        Some(m) => Some(m@),
        None => None,
    }
}

/// Appends `n` in eight bytes, most significant byte first.
fn push_be_u64(out: &mut Vec<u8>, n: u64)
    ensures
        final(out)@ == old(out)@ + be_bytes(n as nat, 8),
{
    let n1: u64 = n / 256;
    let n2: u64 = n1 / 256;
    let n3: u64 = n2 / 256;
    let n4: u64 = n3 / 256;
    let n5: u64 = n4 / 256;
    let n6: u64 = n5 / 256;
    let n7: u64 = n6 / 256;
    proof {
        reveal_with_fuel(be_bytes, 9);
    }
    out.push((n7 % 256) as u8);
    out.push((n6 % 256) as u8);
    out.push((n5 % 256) as u8);
    out.push((n4 % 256) as u8);
    out.push((n3 % 256) as u8);
    out.push((n2 % 256) as u8);
    out.push((n1 % 256) as u8);
    out.push((n % 256) as u8);
    assert(out@ =~= old(out)@ + be_bytes(n as nat, 8));
}

/// The number in the eight bytes from `at` on, most significant byte first.
fn read_be_u64(b: &[u8], at: usize) -> (r: u64)
    requires
        at + 8 <= b@.len(),
    ensures
        r == be_value(b@.subrange(at as int, at + 8)),
{
    let len: usize = b.len();
    let mut value: u64 = 0;
    let mut i: usize = 0;
    while i < 8
        invariant
            i <= 8,
            at + 8 <= len,
            len == b@.len(),
            value == be_value(b@.subrange(at as int, at + i)),
            i == 0 ==> value == 0,
            i == 1 ==> value < 0x100,
            i == 2 ==> value < 0x1_0000,
            i == 3 ==> value < 0x100_0000,
            i == 4 ==> value < 0x1_0000_0000,
            i == 5 ==> value < 0x100_0000_0000,
            i == 6 ==> value < 0x1_0000_0000_0000,
            i == 7 ==> value < 0x100_0000_0000_0000,
        decreases 8 - i,
    {
        assert(b@.subrange(at as int, at + i + 1).drop_last() =~= b@.subrange(at as int, at + i));
        value = value * 256 + b[at + i] as u64;
        i = i + 1;
    }
    value
}

/// The head of a frame of the given kind.
fn encode_head(kind: u8, id: u64, peer: &PeerId) -> (r: Vec<u8>)
    ensures
        r@ == frame_head(kind, id, peer@),
        valid_peer(peer@),
{
    let peer_bytes = peer.as_bytes();
    let mut out: Vec<u8> = Vec::new();
    out.push(kind);
    push_be_u64(&mut out, id);
    out.push(peer_bytes.len() as u8);
    out.extend_from_slice(peer_bytes.as_slice());
    assert(out@ =~= frame_head(kind, id, peer@));
    out
}

/// A data frame.
pub fn encode_data(id: u64, sender: &PeerId, payload: &[u8]) -> (r: Vec<u8>)
    ensures
        r@ == data_frame(id, sender@, payload@),
        decoded(r@) == Some(
            (Message::Data { id, sender: sender@, payload: payload@ }),
        ),
{
    let mut out = encode_head(KIND_DATA, id, sender);
    out.extend_from_slice(payload);
    assert(out@ =~= data_frame(id, sender@, payload@));
    proof {
        law_data_reads_back(id, sender@, payload@);
    }
    out
}

/// An acknowledgement frame.
pub fn encode_ack(id: u64, target: &PeerId) -> (r: Vec<u8>)
    ensures
        r@ == ack_frame(id, target@),
        decoded(r@) == Some((Message::Ack { id, target: target@ })),
{
    let out = encode_head(KIND_ACK, id, target);
    proof {
        law_ack_reads_back(id, target@, Seq::empty());
        assert(out@ =~= ack_frame(id, target@) + Seq::<u8>::empty());
    }
    out
}

/// What a frame says once its peer is known.
pub fn decode_with_peer(bytes: &[u8], peer: PeerId) -> (r: Option<ParsedMsg<'_>>)
    requires
        has_frame_head(bytes@),
    ensures
        said(r) == message_with_peer(bytes@, peer@),
{
    let id: u64 = read_be_u64(bytes, 1);
    let len: usize = bytes[9] as usize;
    if bytes[0] == KIND_DATA {
        let payload = slice_subrange(bytes, 10 + len, bytes.len());
        assert(payload@ =~= frame_rest(bytes@));
        Some(ParsedMsg::Data { id, sender: peer, payload })
    } else if bytes[0] == KIND_ACK {
        Some(ParsedMsg::Ack { id, target: peer })
    } else {
        None
    }
}

/// What bytes say, if they are a frame.
pub fn decode_msg(bytes: &[u8]) -> (r: Option<ParsedMsg<'_>>)
    ensures
        said(r) == decoded(bytes@),
{
    if bytes.len() < 10 {
        return None;
    }
    let len: usize = bytes[9] as usize;
    if bytes.len() < 10 + len {
        return None;
    }
    match PeerId::from_bytes(slice_subrange(bytes, 10, 10 + len)) {
        Ok(peer) => decode_with_peer(bytes, peer),
        Err(_) => None,
    }
}

/// Bytes of a number give the number back, and have the length asked for.
proof fn lemma_be_bytes(n: nat, len: nat)
    ensures
        be_bytes(n, len).len() == len,
        n < pow(256, len) ==> be_value(be_bytes(n, len)) == n,
    decreases len,
{
    reveal(pow);
    if len > 0 {
        lemma_be_bytes(n / 256, (len - 1) as nat);
        assert(be_bytes(n, len).drop_last() =~= be_bytes(n / 256, (len - 1) as nat));
    }
}

proof fn lemma_be_bytes_of_u64(n: u64)
    ensures
        be_bytes(n as nat, 8).len() == 8,
        be_value(be_bytes(n as nat, 8)) == n,
{
    assert(pow(256, 8) == 0x1_0000_0000_0000_0000) by {
        reveal_with_fuel(pow, 9);
    }
    lemma_be_bytes(n as nat, 8);
}

/// Bytes are those of the number that they write.
proof fn lemma_be_value(b: Seq<u8>)
    ensures
        be_bytes(be_value(b), b.len()) == b,
    decreases b.len(),
{
    if b.len() > 0 {
        lemma_be_value(b.drop_last());
        assert(be_value(b) / 256 == be_value(b.drop_last()));
        assert(be_value(b) % 256 == b.last());
        assert(be_bytes(be_value(b), b.len()) =~= b);
    }
}

/// Eight bytes write a number of 64 bits.
proof fn lemma_be_value_bound(b: Seq<u8>)
    ensures
        be_value(b) < pow(256, b.len()),
    decreases b.len(),
{
    reveal(pow);
    if b.len() > 0 {
        lemma_be_value_bound(b.drop_last());
    }
}

/// The parts of a frame that starts with a head.
proof fn lemma_head_parts(kind: u8, id: u64, peer: Seq<u8>, rest: Seq<u8>)
    requires
        valid_peer(peer),
    ensures
        ({
            let b = frame_head(kind, id, peer) + rest;
            &&& has_frame_head(b)
            &&& b[0] == kind
            &&& frame_number(b) == id
            &&& frame_peer(b) == peer
            &&& frame_rest(b) == rest
        }),
{
    lemma_be_bytes_of_u64(id);
    let b = frame_head(kind, id, peer) + rest;
    assert(b.subrange(1, 9) =~= be_bytes(id as nat, 8));
    assert(b[9] == peer.len() as u8);
    assert(frame_peer(b) =~= peer);
    assert(frame_rest(b) =~= rest);
}

/// A data frame is ten bytes longer than its sender and its payload.
pub proof fn lemma_data_frame_len(id: u64, sender: Seq<u8>, payload: Seq<u8>)
    ensures
        data_frame(id, sender, payload).len() == 10 + sender.len() + payload.len(),
{
    lemma_be_bytes_of_u64(id);
}

/// A data frame reads back as the number, the sender and the payload that it was made of.
pub proof fn law_data_reads_back(id: u64, sender: Seq<u8>, payload: Seq<u8>)
    requires
        valid_peer(sender),
    ensures
        decoded(data_frame(id, sender, payload)) == Some((Message::Data { id, sender, payload })),
{
    lemma_head_parts(KIND_DATA, id, sender, payload);
}

/// An acknowledgement frame reads back as the number and the peer that it was made of,
/// whatever follows it.
pub proof fn law_ack_reads_back(id: u64, target: Seq<u8>, rest: Seq<u8>)
    requires
        valid_peer(target),
    ensures
        decoded(ack_frame(id, target) + rest) == Some((Message::Ack { id, target })),
{
    lemma_head_parts(KIND_ACK, id, target, rest);
}

/// A frame whose peer is written in the usual way is the one that its parts are encoded to:
/// no two such frames say the same, but for what follows an acknowledgement.
pub proof fn law_frame_is_determined(b: Seq<u8>)
    requires
        has_frame_head(b),
        valid_peer(frame_peer(b)),
    ensures
        match decoded(b) {
            Some(Message::Data { id, sender, payload }) => b == data_frame(id, sender, payload),
            Some(Message::Ack { id, target }) => b == ack_frame(id, target) + frame_rest(b),
            None => b[0] != KIND_DATA && b[0] != KIND_ACK,
        },
{
    let peer = frame_peer(b);
    let number = b.subrange(1, 9);
    lemma_be_value(number);
    lemma_be_value_bound(number);
    assert(pow(256, 8) == 0x1_0000_0000_0000_0000) by {
        reveal_with_fuel(pow, 9);
    }
    let id = frame_number(b) as u64;
    assert(b =~= frame_head(b[0], id, peer) + frame_rest(b));
}

/// The number that eight bytes write.
proof fn lemma_eight_bytes(b: Seq<u8>)
    requires
        b.len() == 8,
    ensures
        be_value(b) == b[0] * 0x100_0000_0000_0000 + b[1] * 0x1_0000_0000_0000 + b[2]
            * 0x100_0000_0000 + b[3] * 0x1_0000_0000 + b[4] * 0x100_0000 + b[5] * 0x1_0000 + b[6]
            * 0x100 + b[7],
{
    let b7 = b.drop_last();
    let b6 = b7.drop_last();
    let b5 = b6.drop_last();
    let b4 = b5.drop_last();
    let b3 = b4.drop_last();
    let b2 = b3.drop_last();
    let b1 = b2.drop_last();
    let b0 = b1.drop_last();
    assert(be_value(b0) == 0);
    assert(be_value(b1) == b[0]);
    assert(be_value(b2) == b[0] * 0x100 + b[1]);
    assert(be_value(b3) == b[0] * 0x1_0000 + b[1] * 0x100 + b[2]);
    assert(be_value(b4) == b[0] * 0x100_0000 + b[1] * 0x1_0000 + b[2] * 0x100 + b[3]);
    assert(be_value(b5) == b[0] * 0x1_0000_0000 + b[1] * 0x100_0000 + b[2] * 0x1_0000 + b[3] * 0x100
        + b[4]);
    assert(be_value(b6) == b[0] * 0x100_0000_0000 + b[1] * 0x1_0000_0000 + b[2] * 0x100_0000 + b[3]
        * 0x1_0000 + b[4] * 0x100 + b[5]);
    assert(be_value(b7) == b[0] * 0x1_0000_0000_0000 + b[1] * 0x100_0000_0000 + b[2] * 0x1_0000_0000
        + b[3] * 0x100_0000 + b[4] * 0x1_0000 + b[5] * 0x100 + b[6]);
}

/// The bytes of a frame, one by one: 1 for data and 2 for an acknowledgement, the number in
/// eight bytes of which the first weighs most, how many bytes the peer has, the peer, and then
/// the payload of data and nothing of an acknowledgement.
pub proof fn law_frame_layout(id: u64, peer: Seq<u8>, payload: Seq<u8>)
    requires
        valid_peer(peer),
    ensures
        ({
            let data = data_frame(id, peer, payload);
            let ack = ack_frame(id, peer);
            &&& data.len() == 10 + peer.len() + payload.len()
            &&& ack.len() == 10 + peer.len()
            &&& data[0] == 1
            &&& ack[0] == 2
            &&& data.subrange(1, 10 + peer.len() as int) == ack.skip(1)
            &&& id == data[1] * 0x100_0000_0000_0000 + data[2] * 0x1_0000_0000_0000 + data[3]
                * 0x100_0000_0000 + data[4] * 0x1_0000_0000 + data[5] * 0x100_0000 + data[6]
                * 0x1_0000 + data[7] * 0x100 + data[8]
            &&& data[9] == peer.len()
            &&& data.subrange(10, 10 + peer.len() as int) == peer
            &&& data.skip(10 + peer.len() as int) == payload
        }),
{
    let data = data_frame(id, peer, payload);
    let ack = ack_frame(id, peer);
    lemma_be_bytes_of_u64(id);
    lemma_eight_bytes(be_bytes(id as nat, 8));
    assert(data.subrange(1, 9) =~= be_bytes(id as nat, 8));
    assert(forall|i: int| 0 <= i < 8 ==> #[trigger] be_bytes(id as nat, 8)[i] == data[i + 1]);
    assert(data.subrange(1, 10 + peer.len() as int) =~= ack.skip(1));
    assert(data.subrange(10, 10 + peer.len() as int) =~= peer);
    assert(data.skip(10 + peer.len() as int) =~= payload);
}

/// Bytes are a frame exactly if there are ten of them, the tenth counts no more bytes than
/// follow, those are read as a peer, and the first is 1 or 2. Then the number is that of the
/// second to the ninth byte, of which the first weighs most, the peer is the one that is read,
/// and the payload of data is all that follows the peer.
pub proof fn law_bytes_that_are_a_frame(b: Seq<u8>)
    ensures
        decoded(b) is Some <==> {
            &&& b.len() >= 10
            &&& b.len() >= 10 + b[9]
            &&& peer_id_of_bytes(b.subrange(10, 10 + b[9])) is Some
            &&& b[0] == 1 || b[0] == 2
        },
        decoded(b) matches Some(m) ==> {
            let id = b[1] * 0x100_0000_0000_0000 + b[2] * 0x1_0000_0000_0000 + b[3]
                * 0x100_0000_0000 + b[4] * 0x1_0000_0000 + b[5] * 0x100_0000 + b[6] * 0x1_0000 + b[7]
                * 0x100 + b[8];
            let peer = peer_id_of_bytes(b.subrange(10, 10 + b[9]))->0;
            match m {
                Message::Data { id: number, sender, payload } => {
                    &&& b[0] == 1
                    &&& number == id
                    &&& sender == peer
                    &&& payload == b.subrange(10 + b[9], b.len() as int)
                },
                Message::Ack { id: number, target } => {
                    &&& b[0] == 2
                    &&& number == id
                    &&& target == peer
                },
            }
        },
{
    if b.len() >= 10 {
        lemma_eight_bytes(b.subrange(1, 9));
        assert(forall|i: int| 0 <= i < 8 ==> #[trigger] b.subrange(1, 9)[i] == b[i + 1]);
        if has_frame_head(b) {
            assert(frame_rest(b) =~= b.subrange(10 + b[9], b.len() as int));
        }
    }
}

/// What was decoded says what it holds.
pub proof fn law_decoded_says_what_it_holds(id: u64, peer: PeerId, payload: &[u8])
    ensures
        said(Some((ParsedMsg::Data { id, sender: peer, payload }))) == Some(
            (Message::Data { id, sender: peer@, payload: payload@ }),
        ),
        said(Some((ParsedMsg::Ack { id, target: peer }))) == Some(
            (Message::Ack { id, target: peer@ }),
        ),
        said(None) is None,
{
}

} // verus!
