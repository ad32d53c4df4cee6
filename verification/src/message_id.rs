//! The identifiers under which messages are deduplicated.

use crate::peer::{peer_id_of_text, peer_id_text, valid_peer, PeerId};
use crate::text::{
    decimal, hex_value, hexadecimal, is_digit, law_decimal_reads_back, law_hexadecimal_reads_back,
    push_decimal, push_hexadecimal,
};
use crate::wire::{
    ack_frame, data_frame, decode_msg, decoded, law_ack_reads_back, law_data_reads_back, Message,
    ParsedMsg,
};
use std::collections::hash_map::DefaultHasher;
use std::hash::{Hash, Hasher};
use vstd::endian::{endianness, Endian};
use vstd::prelude::*;
use vstd::std_specs::hash::DefaultHasherAdditionalSpecFns;

verus! {

/// A mark, a number in decimal digits, a colon and a text.
pub open spec fn numbered(mark: Seq<char>, id: u64, text: Seq<char>) -> Seq<char> {
    mark + decimal(id as nat) + ":"@ + text
}

/// The identifier under which data with this number, from this sender, is deduplicated.
pub open spec fn data_message_id(id: u64, sender: Seq<u8>) -> Seq<char> {
    numbered("d:"@, id, peer_id_text(sender))
}

/// The identifier under which an acknowledgement is deduplicated.
pub open spec fn ack_message_id(id: u64, target: Seq<u8>) -> Seq<char> {
    numbered("a:"@, id, peer_id_text(target))
}

/// The identifier under which bytes with this hash, which are no frame, are deduplicated.
pub open spec fn hash_message_id(hash: u64) -> Seq<char> {
    "raw:"@ + hexadecimal(hash as nat)
}

/// What `Hash::hash` writes to a hasher for a byte slice, write by write, on a machine with
/// words of this many bits and this order of bytes.
pub uninterp spec fn slice_writes(bytes: Seq<u8>, word_bits: nat, big_endian: bool) -> Seq<Seq<u8>>;

/// The hash of a byte slice on the machine at hand.
pub open spec fn slice_hash(bytes: Seq<u8>) -> u64 {
    DefaultHasher::spec_finish(
        slice_writes(bytes, usize::BITS as nat, endianness() == Endian::Big),
    )
}

/// The identifier under which a message with these bytes is deduplicated: of a frame, its
/// kind, its number and its peer; of other bytes, their hash.
pub open spec fn message_id(data: Seq<u8>) -> Seq<char> {
    match decoded(data) {
        Some(Message::Data { id, sender, .. }) => data_message_id(id, sender),
        Some(Message::Ack { id, target }) => ack_message_id(id, target),
        None => hash_message_id(slice_hash(data)),
    }
}

/// Whether the text of the peer that bytes name, if they are a frame, reads back as that peer.
pub open spec fn names_its_peer(data: Seq<u8>) -> bool {
    match decoded(data) {
        Some(Message::Data { sender, .. }) => peer_id_of_text(peer_id_text(sender)) == Some(sender),
        Some(Message::Ack { target, .. }) => peer_id_of_text(peer_id_text(target)) == Some(target),
        None => true,
    }
}

/// Calls `Hash::hash` on a byte slice, which writes the slice to the hasher. What it writes is
/// named. By its documentation that differs between platforms in the sizes of types and in the
/// order of bytes, so the name takes both, besides the bytes; it speaks of the standard library
/// that the crate is built with.
#[verifier::external_body]
fn feed(bytes: &[u8], hasher: &mut DefaultHasher)
    ensures
        final(hasher)@ == old(hasher)@ + slice_writes(
            bytes@,
            usize::BITS as nat,
            endianness() == Endian::Big,
        ),
{
    bytes.hash(hasher)
}

/// A mark, a number in decimal digits, a colon and the text of a peer.
pub fn numbered_id(mark: &str, id: u64, peer_text: &str) -> (r: String)
    ensures
        r@ == numbered(mark@, id, peer_text@),
{
    let mut out = String::new();
    out.append(mark);
    push_decimal(&mut out, id as u128);
    out.append(":");
    out.append(peer_text);
    assert(out@ =~= numbered(mark@, id, peer_text@));
    out
}

/// The identifier of data with this number, from this sender.
pub fn message_id_of_data(id: u64, sender: &PeerId) -> (r: String)
    ensures
        r@ == data_message_id(id, sender@),
        peer_id_of_text(peer_id_text(sender@)) == Some(sender@),
{
    numbered_id("d:", id, sender.to_text().as_str())
}

/// The identifier of an acknowledgement.
pub fn message_id_of_ack(id: u64, target: &PeerId) -> (r: String)
    ensures
        r@ == ack_message_id(id, target@),
        peer_id_of_text(peer_id_text(target@)) == Some(target@),
{
    numbered_id("a:", id, target.to_text().as_str())
}

/// The identifier of bytes that are no frame, from their hash.
pub fn message_id_of_hash(hash: u64) -> (r: String)
    ensures
        r@ == hash_message_id(hash),
{
    let mut out = String::new();
    out.append("raw:");
    push_hexadecimal(&mut out, hash);
    assert(out@ =~= hash_message_id(hash));
    out
}

/// The identifier under which a message with these bytes is deduplicated.
pub fn make_message_id(data: &[u8]) -> (r: String)
    ensures
        r@ == message_id(data@),
        names_its_peer(data@),
{
    match decode_msg(data) {
        Some(ParsedMsg::Data { id, sender, .. }) => message_id_of_data(id, &sender),
        Some(ParsedMsg::Ack { id, target }) => message_id_of_ack(id, &target),
        None => {
            let mut hasher = DefaultHasher::new();
            feed(data, &mut hasher);
            assert(hasher@ =~= slice_writes(
                data@,
                usize::BITS as nat,
                endianness() == Endian::Big,
            ));
            message_id_of_hash(hasher.finish())
        },
    }
}

/// The part of a text before its first colon.
spec fn before_colon(s: Seq<char>) -> Seq<char>
    decreases s.len(),
{
    if s.len() == 0 || s[0] == ':' {
        Seq::empty()
    } else {
        seq![s[0]] + before_colon(s.drop_first())
    }
}

proof fn lemma_before_colon(front: Seq<char>, rest: Seq<char>)
    requires
        forall|i: int| 0 <= i < front.len() ==> #[trigger] front[i] != ':',
    ensures
        before_colon(front + seq![':'] + rest) == front,
    decreases front.len(),
{
    let s = front + seq![':'] + rest;
    if front.len() > 0 {
        let tail = front.drop_first();
        assert forall|i: int| 0 <= i < tail.len() implies #[trigger] tail[i] != ':' by {
            assert(tail[i] == front[i + 1]);
        }
        lemma_before_colon(tail, rest);
        assert(s.drop_first() =~= tail + seq![':'] + rest);
        assert(s[0] == front[0]);
        assert(seq![s[0]] + tail =~= front);
    }
}

/// Two identifiers made of a mark, a number and a text are equal only if all three are.
proof fn lemma_numbered_text(
    mark1: Seq<char>,
    n1: u64,
    text1: Seq<char>,
    mark2: Seq<char>,
    n2: u64,
    text2: Seq<char>,
)
    requires
        mark1.len() == 2,
        mark2.len() == 2,
        numbered(mark1, n1, text1) == numbered(mark2, n2, text2),
    ensures
        mark1 == mark2,
        n1 == n2,
        text1 == text2,
{
    reveal_strlit(":");
    assert(":"@ =~= seq![':']);
    let d1 = decimal(n1 as nat);
    let d2 = decimal(n2 as nat);
    let s1 = numbered(mark1, n1, text1);
    let s2 = numbered(mark2, n2, text2);
    assert(mark1 =~= s1.take(2));
    assert(mark2 =~= s2.take(2));
    assert(s1.skip(2) =~= d1 + seq![':'] + text1);
    assert(s2.skip(2) =~= d2 + seq![':'] + text2);
    law_decimal_reads_back(n1 as nat);
    law_decimal_reads_back(n2 as nat);
    assert forall|i: int| 0 <= i < d1.len() implies #[trigger] d1[i] != ':' by {
        assert(is_digit(d1[i]));
    }
    assert forall|i: int| 0 <= i < d2.len() implies #[trigger] d2[i] != ':' by {
        assert(is_digit(d2[i]));
    }
    lemma_before_colon(d1, text1);
    lemma_before_colon(d2, text2);
    assert(d1 == d2);
    assert(text1 =~= s1.skip(2).skip(d1.len() as int + 1));
    assert(text2 =~= s2.skip(2).skip(d2.len() as int + 1));
}

/// Frames under one identifier are of one kind and carry one number and one peer, and no
/// frame shares its identifier with bytes that are no frame.
pub proof fn law_message_id_tells_frames_apart(data1: Seq<u8>, data2: Seq<u8>)
    requires
        names_its_peer(data1),
        names_its_peer(data2),
        message_id(data1) == message_id(data2),
    ensures
        match (decoded(data1), decoded(data2)) {
            (
                Some(Message::Data { id: id1, sender: sender1, .. }),
                Some(Message::Data { id: id2, sender: sender2, .. }),
            ) => id1 == id2 && sender1 == sender2,
            (
                Some(Message::Ack { id: id1, target: target1 }),
                Some(Message::Ack { id: id2, target: target2 }),
            ) => id1 == id2 && target1 == target2,
            (None, None) => true,
            _ => false,
        },
{
    let text = message_id(data1);
    reveal_strlit("d:");
    reveal_strlit("a:");
    reveal_strlit("raw:");
    match (decoded(data1), decoded(data2)) {
        (
            Some(Message::Data { id: id1, sender: sender1, .. }),
            Some(Message::Data { id: id2, sender: sender2, .. }),
        ) => {
            lemma_numbered_text(
                "d:"@,
                id1,
                peer_id_text(sender1),
                "d:"@,
                id2,
                peer_id_text(sender2),
            );
        },
        (
            Some(Message::Ack { id: id1, target: target1 }),
            Some(Message::Ack { id: id2, target: target2 }),
        ) => {
            lemma_numbered_text(
                "a:"@,
                id1,
                peer_id_text(target1),
                "a:"@,
                id2,
                peer_id_text(target2),
            );
        },
        (None, None) => {},
        (first, second) => {
            if first is None || second is None {
                assert(text[0] == 'r');
            }
            if (first matches Some(m) && m is Data) || (second matches Some(m) && m is Data) {
                assert(text[0] == 'd');
            }
            if (first matches Some(m) && m is Ack) || (second matches Some(m) && m is Ack) {
                assert(text[0] == 'a');
            }
        },
    }
}

/// The identifier of a data frame does not depend on its payload.
pub proof fn law_message_id_ignores_payload(
    id: u64,
    sender: Seq<u8>,
    payload1: Seq<u8>,
    payload2: Seq<u8>,
)
    requires
        valid_peer(sender),
    ensures
        message_id(data_frame(id, sender, payload1)) == message_id(
            data_frame(id, sender, payload2),
        ),
{
    law_data_reads_back(id, sender, payload1);
    law_data_reads_back(id, sender, payload2);
}

/// Bytes that are no frame have an identifier of their own kind, which depends on the bytes
/// alone: their hash in hexadecimal digits, after a mark that no frame has.
pub proof fn law_message_id_of_other_bytes(data1: Seq<u8>, data2: Seq<u8>)
    requires
        decoded(data1) is None,
    ensures
        message_id(data1) == hash_message_id(slice_hash(data1)),
        data1 == data2 ==> message_id(data1) == message_id(data2),
        decoded(data2) is Some ==> message_id(data1) != message_id(data2),
{
    reveal_strlit("d:");
    reveal_strlit("a:");
    reveal_strlit("raw:");
    assert(message_id(data1)[0] == 'r');
    match decoded(data2) {
        Some(Message::Data { .. }) => {
            assert(message_id(data2)[0] == 'd');
        },
        Some(Message::Ack { .. }) => {
            assert(message_id(data2)[0] == 'a');
        },
        None => {},
    }
}

/// The identifier of data starts with a `d` and that of an acknowledgement with an `a`; then
/// come a colon, the number in decimal digits, a colon, and the text of the peer.
pub proof fn law_message_id_of_frames(id: u64, peer: Seq<u8>, payload: Seq<u8>)
    requires
        valid_peer(peer),
    ensures
        ({
            let data = message_id(data_frame(id, peer, payload));
            let ack = message_id(ack_frame(id, peer));
            let digits = decimal(id as nat);
            let colon = 2 + digits.len() as int;
            &&& data.len() == colon + 1 + peer_id_text(peer).len()
            &&& data[0] == 'd' && data[1] == ':'
            &&& data.subrange(2, colon) == digits
            &&& data[colon] == ':'
            &&& data.skip(colon + 1) == peer_id_text(peer)
            &&& ack[0] == 'a'
            &&& ack.skip(1) == data.skip(1)
        }),
{
    law_data_reads_back(id, peer, payload);
    law_ack_reads_back(id, peer, Seq::empty());
    assert(ack_frame(id, peer) + Seq::<u8>::empty() =~= ack_frame(id, peer));
    reveal_strlit("d:");
    reveal_strlit("a:");
    reveal_strlit(":");
    let data = message_id(data_frame(id, peer, payload));
    let ack = message_id(ack_frame(id, peer));
    let digits = decimal(id as nat);
    let colon = 2 + digits.len() as int;
    assert(data.subrange(2, colon) =~= digits);
    assert(data.skip(colon + 1) =~= peer_id_text(peer));
    assert(ack.skip(1) =~= data.skip(1));
}

/// The identifier of bytes with a hash starts with `raw:`, and what follows is that hash in
/// hexadecimal digits in lower case.
pub proof fn law_hash_reads_back(hash: u64)
    ensures
        hash_message_id(hash).len() > 4,
        hash_message_id(hash).take(4) == seq!['r', 'a', 'w', ':'],
        hex_value(hash_message_id(hash).skip(4)) == hash,
        hash > 0 ==> hash_message_id(hash)[4] != '0',
        forall|i: int|
            4 <= i < hash_message_id(hash).len() ==> '0' <= #[trigger] hash_message_id(hash)[i]
                <= '9' || 'a' <= hash_message_id(hash)[i] <= 'f',
{
    reveal_strlit("raw:");
    let text = hash_message_id(hash);
    let digits = hexadecimal(hash as nat);
    law_hexadecimal_reads_back(hash as nat);
    assert(text.take(4) =~= seq!['r', 'a', 'w', ':']);
    assert(text.skip(4) =~= digits);
    assert forall|i: int| 4 <= i < text.len() implies '0' <= #[trigger] text[i] <= '9' || 'a'
        <= text[i] <= 'f' by {
        assert(text[i] == digits[i - 4]);
    }
}

/// The hash of bytes is that of all of them, as they are written to a hasher on the machine at
/// hand.
pub proof fn law_hash_is_of_all_bytes(bytes: Seq<u8>)
    ensures
        endianness() == Endian::Big ==> slice_hash(bytes) == DefaultHasher::spec_finish(
            slice_writes(bytes, usize::BITS as nat, true),
        ),
        endianness() == Endian::Little ==> slice_hash(bytes) == DefaultHasher::spec_finish(
            slice_writes(bytes, usize::BITS as nat, false),
        ),
{
}

/// Frames of one kind with one number and one peer have one identifier, whatever else they
/// hold: the payload of data, or what follows an acknowledgement.
pub proof fn law_message_id_follows_kind_number_and_peer(
    data1: Seq<u8>,
    data2: Seq<u8>,
    id: u64,
    peer: Seq<u8>,
)
    requires
        ({
            ||| decoded(data1) matches Some(Message::Data { id: id1, sender, .. }) && id1 == id
                && sender == peer && (decoded(data2) matches Some(
                Message::Data { id: id2, sender: sender2, .. },
            ) && id2 == id && sender2 == peer)
            ||| decoded(data1) == Some((Message::Ack { id, target: peer })) && decoded(data2) == Some(
                (Message::Ack { id, target: peer }),
            )
        }),
    ensures
        message_id(data1) == message_id(data2),
        message_id(data1).skip(2) == decimal(id as nat) + ":"@ + peer_id_text(peer),
        message_id(data1)[1] == ':',
        decoded(data1)->0 is Data <==> message_id(data1)[0] == 'd',
        decoded(data1)->0 is Ack <==> message_id(data1)[0] == 'a',
{
    reveal_strlit("d:");
    reveal_strlit("a:");
    reveal_strlit(":");
    assert(message_id(data1).skip(2) =~= decimal(id as nat) + ":"@ + peer_id_text(peer));
}

} // verus!
