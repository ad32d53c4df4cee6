//! The addresses that peers listen on and dial.

use crate::peer::{peer_id_text, PeerId};
use crate::stack::{port_for_stack, port_of, Stack};
use crate::text::{decimal, law_decimal_reads_back, push_decimal};
use vstd::prelude::*;

verus! {

/// The failure of reading a multiaddress.
#[verifier::external_type_specification]
#[verifier::external_body]
pub struct ExMultiaddrError(libp2p::multiaddr::Error);

/// The bytes of the multiaddress that `libp2p::Multiaddr::from_str` reads, if it reads one.
pub uninterp spec fn multiaddr_of_text(s: Seq<char>) -> Option<Seq<u8>>;

/// Calls `libp2p::Multiaddr::from_str` and hands out the bytes of what it reads. The result
/// is named.
#[verifier::external_body]
fn read_multiaddr(s: &str) -> (r: Result<Vec<u8>, libp2p::multiaddr::Error>)
    ensures
        match r {
            Ok(bytes) => multiaddr_of_text(s@) == Some(bytes@),
            Err(_) => multiaddr_of_text(s@) is None,
        },
{
    s.parse::<libp2p::Multiaddr>().map(|a| a.to_vec())
}

/// Why there is no address.
#[derive(Debug)]
pub enum AddressError {
    /// The text is no multiaddress.
    Invalid(libp2p::multiaddr::Error),
    /// All stacks together have no one address to listen on.
    ListenPerStack,
    /// All stacks together have no one address to dial.
    DialPerStack,
    /// WebRTC is dialed by a full address, and none was given.
    NeedsWebRtcAddress,
    /// Tor is dialed by an onion address, and none was given.
    NeedsOnionAddress,
}

impl AddressError {
    /// What is shown of the error; nothing for one that has a text of its own.
    pub open spec fn shown(self) -> Option<Seq<char>> {
        match self {
            AddressError::Invalid(_) => None,
            AddressError::ListenPerStack => Some("use multiple listen_on for Stack::All"@),
            AddressError::DialPerStack => Some("use per-stack dial in all mode"@),
            AddressError::NeedsWebRtcAddress => Some("Need full multiaddr for webrtc"@),
            AddressError::NeedsOnionAddress => Some("Tor dial requires onion multiaddr"@),
        }
    }

    /// What is shown of the error; nothing for one that has a text of its own.
    pub fn message(&self) -> (r: Option<&'static str>)
        ensures
            match self.shown() {
                Some(text) => r is Some && r->0@ == text,
                None => r is None,
            },
    {
        match self {
            AddressError::Invalid(_) => None,
            AddressError::ListenPerStack => Some("use multiple listen_on for Stack::All"),
            AddressError::DialPerStack => Some("use per-stack dial in all mode"),
            AddressError::NeedsWebRtcAddress => Some("Need full multiaddr for webrtc"),
            AddressError::NeedsOnionAddress => Some("Tor dial requires onion multiaddr"),
        }
    }
}

/// A multiaddress, held as its bytes.
#[derive(Debug)]
pub struct Multiaddr {
    bytes: Vec<u8>,
}

impl View for Multiaddr {
    type V = Seq<u8>;

    closed spec fn view(&self) -> Seq<u8> {
        self.bytes@
    }
}

impl Multiaddr {
    /// Reads a multiaddress.
    pub fn parse(s: &str) -> (r: Result<Multiaddr, AddressError>)
        ensures
            is_parse_of(s@, r),
    {
        match read_multiaddr(s) {
            Ok(bytes) => Ok(Multiaddr { bytes }),
            Err(e) => Err(AddressError::Invalid(e)),
        }
    }

    /// The bytes.
    pub fn as_bytes(&self) -> (r: &Vec<u8>)
        ensures
            r@ == self@,
    {
        &self.bytes
    }
}

impl Clone for Multiaddr {
    fn clone(&self) -> (r: Multiaddr)
        ensures
            r@ == self@,
    {
        let bytes = self.bytes.clone();
        assert(bytes@ =~= self.bytes@);
        Multiaddr { bytes }
    }
}

/// Whether a result is what reading a text as a multiaddress gives.
pub open spec fn is_parse_of(s: Seq<char>, r: Result<Multiaddr, AddressError>) -> bool {
    match multiaddr_of_text(s) {
        Some(bytes) => r is Ok && r->Ok_0@ == bytes,
        None => r is Err && r->Err_0 is Invalid,
    }
}

/// What comes before the port in an address: a host, and TCP or UDP.
pub open spec fn before_port(stack: Stack, host: Seq<char>) -> Seq<char> {
    match stack {
        Stack::Quic | Stack::WebRtcUdp => "/ip4/"@ + host + "/udp/"@,
        _ => "/ip4/"@ + host + "/tcp/"@,
    }
}

/// What comes after the port in an address: what runs on top.
pub open spec fn after_port(stack: Stack) -> Seq<char> {
    match stack {
        Stack::WebSocket => "/ws"@,
        Stack::Quic => "/quic-v1"@,
        Stack::WebRtcUdp => "/webrtc-direct"@,
        _ => Seq::empty(),
    }
}

/// The address of a stack on a host and a port.
pub open spec fn address_text(stack: Stack, host: Seq<char>, port: int) -> Seq<char> {
    before_port(stack, host) + decimal(port as nat) + after_port(stack)
}

/// The address that a stack listens on.
pub open spec fn listen_text(stack: Stack, base_port: u16) -> Seq<char> {
    address_text(stack, "0.0.0.0"@, port_of(base_port, stack))
}

/// The address at which a peer is dialed.
pub open spec fn dial_text(stack: Stack, host: Seq<char>, base_port: u16, peer: Seq<u8>) -> Seq<
    char,
> {
    address_text(stack, host, port_of(base_port, stack)) + "/p2p/"@ + peer_id_text(peer)
}

/// The address of a stack on a host and a port.
pub fn write_address(stack: Stack, host: &str, port: u16) -> (r: String)
    ensures
        r@ == address_text(stack, host@, port as int),
{
    let mut out = String::new();
    out.append("/ip4/");
    out.append(host);
    match stack {
        Stack::Quic | Stack::WebRtcUdp => {
            out.append("/udp/");
        },
        _ => {
            out.append("/tcp/");
        },
    }
    assert(out@ =~= before_port(stack, host@));
    push_decimal(&mut out, port as u128);
    match stack {
        Stack::WebSocket => {
            out.append("/ws");
        },
        Stack::Quic => {
            out.append("/quic-v1");
        },
        Stack::WebRtcUdp => {
            out.append("/webrtc-direct");
        },
        _ => {},
    }
    assert(out@ =~= address_text(stack, host@, port as int));
    out
}

/// The address at which a peer with this text is dialed.
pub fn write_dial_address(stack: Stack, host: &str, base_port: u16, peer_text: &str) -> (r: String)
    ensures
        r@ == address_text(stack, host@, port_of(base_port, stack)) + "/p2p/"@ + peer_text@,
{
    let mut out = write_address(stack, host, port_for_stack(base_port, stack));
    out.append("/p2p/");
    out.append(peer_text);
    out
}

/// The address that a stack listens on.
pub fn listen_multiaddr(stack: Stack, base_port: u16) -> (r: Result<Multiaddr, AddressError>)
    ensures
        stack == Stack::All ==> r is Err && r->Err_0 is ListenPerStack,
        stack != Stack::All ==> is_parse_of(listen_text(stack, base_port), r),
{
    if stack == Stack::All {
        return Err(AddressError::ListenPerStack);
    }
    let port: u16 = port_for_stack(base_port, stack);
    Multiaddr::parse(write_address(stack, "0.0.0.0", port).as_str())
}

/// The address that a sender listens on, which only WebRTC needs: any free port.
pub fn sender_listen_multiaddr(stack: Stack) -> (r: Option<Result<Multiaddr, AddressError>>)
    ensures
        r is Some <==> stack == Stack::WebRtcUdp,
        r matches Some(address) ==> is_parse_of(
            address_text(Stack::WebRtcUdp, "0.0.0.0"@, 0),
            address,
        ),
{
    if stack == Stack::WebRtcUdp {
        Some(Multiaddr::parse(write_address(Stack::WebRtcUdp, "0.0.0.0", 0).as_str()))
    } else {
        None
    }
}

/// The address at which a peer is dialed. WebRTC and Tor are dialed by the address given for
/// them.
pub fn dial_addr_for_stack(
    stack: Stack,
    host: &str,
    base_port: u16,
    peer: &PeerId,
    webrtc: Option<Multiaddr>,
    onion: Option<Multiaddr>,
) -> (r: Result<Multiaddr, AddressError>)
    ensures
        match stack {
            Stack::Tcp | Stack::WebSocket | Stack::Quic => is_parse_of(
                dial_text(stack, host@, base_port, peer@),
                r,
            ),
            Stack::WebRtcUdp => match webrtc {
                Some(address) => r == Ok::<Multiaddr, AddressError>(address),
                None => r is Err && r->Err_0 is NeedsWebRtcAddress,
            },
            Stack::Tor => match onion {
                Some(address) => r == Ok::<Multiaddr, AddressError>(address),
                None => r is Err && r->Err_0 is NeedsOnionAddress,
            },
            Stack::All => r is Err && r->Err_0 is DialPerStack,
        },
{
    match stack {
        Stack::Tcp | Stack::WebSocket | Stack::Quic => {
            let text = write_dial_address(stack, host, base_port, peer.to_text().as_str());
            Multiaddr::parse(text.as_str())
        },
        Stack::WebRtcUdp => match webrtc {
            Some(address) => Ok(address),
            None => Err(AddressError::NeedsWebRtcAddress),
        },
        Stack::Tor => match onion {
            Some(address) => Ok(address),
            None => Err(AddressError::NeedsOnionAddress),
        },
        Stack::All => Err(AddressError::DialPerStack),
    }
}

/// A peer is dialed where it listens: the address to dial is the address that the stack
/// listens on, with the host in place of the wildcard host, followed by the peer.
pub proof fn law_dialed_where_it_listens(
    stack: Stack,
    host: Seq<char>,
    base_port: u16,
    peer: Seq<u8>,
)
    ensures
        ({
            let wildcard = "/ip4/"@ + "0.0.0.0"@;
            let listened = listen_text(stack, base_port);
            let rest = listened.skip(wildcard.len() as int);
            &&& listened == wildcard + rest
            &&& dial_text(stack, host, base_port, peer) == "/ip4/"@ + host + rest + "/p2p/"@
                + peer_id_text(peer)
        }),
{
    let wildcard = "/ip4/"@ + "0.0.0.0"@;
    let listened = listen_text(stack, base_port);
    let port = decimal(port_of(base_port, stack) as nat);
    let kind = match stack {
        Stack::Quic | Stack::WebRtcUdp => "/udp/"@,
        _ => "/tcp/"@,
    };
    let rest = kind + port + after_port(stack);
    assert(listened =~= wildcard + rest);
    assert(listened.skip(wildcard.len() as int) =~= rest);
    assert(address_text(stack, host, port_of(base_port, stack)) =~= "/ip4/"@ + host + rest);
}

/// The addresses that the stacks listen on and are dialed at, in full.
pub proof fn law_addresses_in_full(base_port: u16, host: Seq<char>, peer: Seq<u8>)
    ensures
        ({
            let port = |offset: int|
                if base_port + offset <= 65535 {
                    decimal((base_port + offset) as nat)
                } else {
                    decimal(65535)
                };
            let to = "/p2p/"@ + peer_id_text(peer);
            &&& listen_text(Stack::Tcp, base_port) == "/ip4/0.0.0.0/tcp/"@ + port(0)
            &&& listen_text(Stack::Tor, base_port) == "/ip4/0.0.0.0/tcp/"@ + port(0)
            &&& listen_text(Stack::WebSocket, base_port) == "/ip4/0.0.0.0/tcp/"@ + port(1) + "/ws"@
            &&& listen_text(Stack::Quic, base_port) == "/ip4/0.0.0.0/udp/"@ + port(2)
                + "/quic-v1"@
            &&& listen_text(Stack::WebRtcUdp, base_port) == "/ip4/0.0.0.0/udp/"@ + port(3)
                + "/webrtc-direct"@
            &&& dial_text(Stack::Tcp, host, base_port, peer) == "/ip4/"@ + host + "/tcp/"@ + port(0)
                + to
            &&& dial_text(Stack::WebSocket, host, base_port, peer) == "/ip4/"@ + host + "/tcp/"@
                + port(1) + "/ws"@ + to
            &&& dial_text(Stack::Quic, host, base_port, peer) == "/ip4/"@ + host + "/udp/"@ + port(
                2,
            ) + "/quic-v1"@ + to
            &&& address_text(Stack::WebRtcUdp, "0.0.0.0"@, 0)
                == "/ip4/0.0.0.0/udp/0/webrtc-direct"@
        }),
{
    reveal_strlit("/ip4/");
    reveal_strlit("0.0.0.0");
    reveal_strlit("/tcp/");
    reveal_strlit("/udp/");
    reveal_strlit("/ip4/0.0.0.0/tcp/");
    reveal_strlit("/ip4/0.0.0.0/udp/");
    assert("/ip4/"@ + "0.0.0.0"@ + "/tcp/"@ =~= "/ip4/0.0.0.0/tcp/"@);
    assert("/ip4/"@ + "0.0.0.0"@ + "/udp/"@ =~= "/ip4/0.0.0.0/udp/"@);
    let p0 = decimal(base_port as nat);
    let p1 = decimal(port_of(base_port, Stack::WebSocket) as nat);
    let p2 = decimal(port_of(base_port, Stack::Quic) as nat);
    let to = "/p2p/"@ + peer_id_text(peer);
    assert(listen_text(Stack::Tcp, base_port) =~= "/ip4/0.0.0.0/tcp/"@ + p0);
    assert(listen_text(Stack::Tor, base_port) =~= "/ip4/0.0.0.0/tcp/"@ + p0);
    assert(dial_text(Stack::Tcp, host, base_port, peer) =~= "/ip4/"@ + host + "/tcp/"@ + p0 + to);
    assert(dial_text(Stack::WebSocket, host, base_port, peer) =~= "/ip4/"@ + host + "/tcp/"@ + p1
        + "/ws"@ + to);
    assert(dial_text(Stack::Quic, host, base_port, peer) =~= "/ip4/"@ + host + "/udp/"@ + p2
        + "/quic-v1"@ + to);
    reveal_strlit("/webrtc-direct");
    reveal_strlit("/ip4/0.0.0.0/udp/0/webrtc-direct");
    law_decimal_reads_back(0);
    assert(address_text(Stack::WebRtcUdp, "0.0.0.0"@, 0) =~= "/ip4/0.0.0.0/udp/0/webrtc-direct"@);
}

/// Reading a text as a multiaddress gives the bytes that are read, or fails where none are, and
/// for no other reason.
pub proof fn law_reading_fails_only_on_other_texts(
    s: Seq<char>,
    r: Result<Multiaddr, AddressError>,
)
    ensures
        is_parse_of(s, r) ==> {
            &&& r is Ok <==> multiaddr_of_text(s) is Some
            &&& r matches Ok(address) ==> multiaddr_of_text(s) == Some(address@)
            &&& r matches Err(e) ==> e is Invalid
        },
{
}

/// What is shown of an error says which address is missing, or how to ask; an error in reading
/// a text has a text of its own.
pub proof fn law_errors_are_shown(e: AddressError)
    ensures
        e is Invalid <==> e.shown() is None,
        e is ListenPerStack ==> e.shown() == Some("use multiple listen_on for Stack::All"@),
        e is DialPerStack ==> e.shown() == Some("use per-stack dial in all mode"@),
        e is NeedsWebRtcAddress ==> e.shown() == Some("Need full multiaddr for webrtc"@),
        e is NeedsOnionAddress ==> e.shown() == Some("Tor dial requires onion multiaddr"@),
{
}

} // verus!
