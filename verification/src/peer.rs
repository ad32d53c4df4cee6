//! Peer identifiers, held as their bytes.

use crate::wire::be_value;
use vstd::prelude::*;
use vstd::std_specs::cmp::PartialEqSpec;

verus! {

/// The failure of reading a peer identifier.
#[verifier::external_type_specification]
#[verifier::external_body]
pub struct ExPeerParseError(libp2p::identity::ParseError);

/// The longest digest of a peer identifier that hashes its key.
pub const MAX_HASHED_DIGEST: u8 = 64;

/// The longest digest of a peer identifier that holds its key itself.
pub const MAX_INLINE_DIGEST: u8 = 42;

/// The bytes of a peer identifier: the code of the digest (SHA-256, or the key itself), the
/// length of the digest, and the digest.
pub open spec fn is_peer_id(b: Seq<u8>) -> bool {
    &&& b.len() >= 2
    &&& b.len() == 2 + b[1]
    &&& (b[0] == 0x12 && b[1] <= MAX_HASHED_DIGEST) || (b[0] == 0 && b[1] <= MAX_INLINE_DIGEST)
}

/// The bytes of the peer identifier that `libp2p::PeerId::from_bytes` reads, if it reads one.
pub uninterp spec fn peer_id_of_bytes(b: Seq<u8>) -> Option<Seq<u8>>;

/// The bytes of the peer identifier that `libp2p::PeerId::from_str` reads, if it reads one.
pub uninterp spec fn peer_id_of_text(s: Seq<char>) -> Option<Seq<u8>>;

/// The characters of the digits in base 58.
pub open spec fn base58_alphabet() -> Seq<char> {
    "123456789ABCDEFGHJKLMNPQRSTUVWXYZabcdefghijkmnopqrstuvwxyz"@
}

/// `n` in base 58, most significant digit first, without leading zeros; nothing for zero.
pub open spec fn base58_digits(n: nat) -> Seq<char>
    decreases n,
{
    if n == 0 {
        Seq::empty()
    } else {
        base58_digits(n / 58).push(base58_alphabet()[(n % 58) as int])
    }
}

/// How many zeros bytes start with.
pub open spec fn leading_zeros(b: Seq<u8>) -> nat
    decreases b.len(),
{
    if b.len() > 0 && b[0] == 0 {
        1 + leading_zeros(b.drop_first())
    } else {
        0
    }
}

/// The text of a peer identifier with these bytes, in base 58: the digit for zero for each
/// byte that is zero at the start, then the number that the bytes write.
pub open spec fn peer_id_text(b: Seq<u8>) -> Seq<char> {
    Seq::new(leading_zeros(b), |i: int| base58_alphabet()[0]) + base58_digits(be_value(b))
}

/// Bytes of a peer identifier that are read as themselves, as all are that a [`PeerId`] holds.
pub open spec fn valid_peer(b: Seq<u8>) -> bool {
    &&& is_peer_id(b)
    &&& peer_id_of_bytes(b) == Some(b)
}

/// Calls `libp2p::PeerId::from_bytes` and hands out the bytes of what it reads. The result is
/// named; besides, what is read has the bytes of a peer identifier, and such bytes are read
/// as themselves. (Other bytes are read too: a varint may spell the code or the length at
/// greater length than needed.)
#[verifier::external_body]
fn read_bytes(b: &[u8]) -> (r: Result<Vec<u8>, libp2p::identity::ParseError>)
    ensures
        match r {
            Ok(bytes) => {
                &&& peer_id_of_bytes(b@) == Some(bytes@)
                &&& is_peer_id(bytes@)
                &&& peer_id_of_bytes(bytes@) == Some(bytes@)
            },
            Err(_) => peer_id_of_bytes(b@) is None,
        },
        is_peer_id(b@) ==> r is Ok && r->Ok_0@ == b@,
{
    libp2p::PeerId::from_bytes(b).map(|p| p.to_bytes())
}

/// Calls `libp2p::PeerId::from_str` and hands out the bytes of what it reads. The result is
/// named; besides, what is read has the bytes of a peer identifier, which are read as
/// themselves.
#[verifier::external_body]
fn read_text(s: &str) -> (r: Result<Vec<u8>, libp2p::identity::ParseError>)
    ensures
        match r {
            Ok(bytes) => {
                &&& peer_id_of_text(s@) == Some(bytes@)
                &&& is_peer_id(bytes@)
                &&& peer_id_of_bytes(bytes@) == Some(bytes@)
            },
            Err(_) => peer_id_of_text(s@) is None,
        },
{
    s.parse::<libp2p::PeerId>().map(|p| p.to_bytes())
}

/// Calls `libp2p::PeerId::to_base58`, which writes the bytes of the identifier in base 58, in
/// Bitcoin's alphabet. Reading the text gives the identifier back.
#[verifier::external_body]
fn write_text(b: &[u8]) -> (r: String)
    requires
        is_peer_id(b@),
    ensures
        r@ == peer_id_text(b@),
        peer_id_of_text(r@) == Some(b@),
{
    libp2p::PeerId::from_bytes(b).unwrap().to_base58()
}

/// A peer identifier.
#[derive(Debug)]
pub struct PeerId {
    bytes: Vec<u8>,
}

impl View for PeerId {
    type V = Seq<u8>;

    closed spec fn view(&self) -> Seq<u8> {
        self.bytes@
    }
}

impl PeerId {
    #[verifier::type_invariant]
    spec fn holds_valid_bytes(self) -> bool {
        valid_peer(self.bytes@)
    }

    /// Reads a peer identifier from its bytes.
    pub fn from_bytes(b: &[u8]) -> (r: Result<PeerId, libp2p::identity::ParseError>)
        ensures
            match r {
                Ok(p) => peer_id_of_bytes(b@) == Some(p@) && valid_peer(p@),
                Err(_) => peer_id_of_bytes(b@) is None,
            },
            is_peer_id(b@) ==> r is Ok && r->Ok_0@ == b@,
    {
        match read_bytes(b) {
            Ok(bytes) => Ok(PeerId { bytes }),
            Err(e) => Err(e),
        }
    }

    /// Reads a peer identifier from its text.
    pub fn from_text(s: &str) -> (r: Result<PeerId, libp2p::identity::ParseError>)
        ensures
            match r {
                Ok(p) => peer_id_of_text(s@) == Some(p@) && valid_peer(p@),
                Err(_) => peer_id_of_text(s@) is None,
            },
    {
        match read_text(s) {
            Ok(bytes) => Ok(PeerId { bytes }),
            Err(e) => Err(e),
        }
    }

    /// The bytes.
    pub fn as_bytes(&self) -> (r: &Vec<u8>)
        ensures
            r@ == self@,
            valid_peer(r@),
    {
        proof {
            use_type_invariant(self);
        }
        &self.bytes
    }

    /// The text, in base 58.
    pub fn to_text(&self) -> (r: String)
        ensures
            r@ == peer_id_text(self@),
            peer_id_of_text(r@) == Some(self@),
    {
        proof {
            use_type_invariant(self);
        }
        write_text(self.bytes.as_slice())
    }

    /// Whether two identifiers are the same.
    pub fn same(&self, other: &PeerId) -> (r: bool)
        ensures
            r == (self@ == other@),
    {
        let equal: bool = self.bytes == other.bytes;
        proof {
            if equal {
                assert forall|i: int| 0 <= i < self.bytes@.len() implies self.bytes@[i]
                    == other.bytes@[i] by {
                    assert(self.bytes[i].eq_spec(&other.bytes[i]));
                }
                assert(self.bytes@ =~= other.bytes@);
            }
        }
        equal
    }
}

impl Clone for PeerId {
    fn clone(&self) -> (r: PeerId)
        ensures
            r@ == self@,
    {
        proof {
            use_type_invariant(self);
        }
        let bytes = self.bytes.clone();
        assert(bytes@ =~= self.bytes@);
        PeerId { bytes }
    }
}

} // verus!
