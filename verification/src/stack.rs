//! Roles and transport stacks: how they are typed, shown, and mapped to ports.

use crate::text::{
    ascii_lowercase, ascii_lowercase_char, is_whitespace, lemma_lowercase_trimmed, lemma_trimmed, lemma_trimmed_ascii,
    lowercase, same_text, to_lowercase, trim, trimmed, unicode_lowercase,
};
use vstd::prelude::*;
use vstd::utf8::is_ascii_chars;

verus! {

/// Which end of the benchmark a process is.
#[derive(Clone, Copy, Debug, PartialEq, Eq, Structural)]
pub enum Role {
    Receiver,
    Sender,
}

/// A transport stack, or all of them.
#[derive(Clone, Copy, Debug, PartialEq, Eq, Hash, Structural)]
pub enum Stack {
    Tcp,
    Quic,
    WebSocket,
    WebRtcUdp,
    Tor,
    All,
}

/// A typed line, without surrounding whitespace and in lower case.
pub open spec fn token_of(line: Seq<char>) -> Seq<char> {
    lowercase(trimmed(line))
}

/// The role that a token names.
pub open spec fn role_of_token(token: Seq<char>) -> Option<Role> {
    if token == "recv"@ || token == "receiver"@ || token == "2"@ {
        Some(Role::Receiver)
    } else if token == "send"@ || token == "sender"@ || token == "1"@ {
        Some(Role::Sender)
    } else {
        None
    }
}

/// The stack that a token names.
pub open spec fn stack_of_token(token: Seq<char>) -> Option<Stack> {
    if token == "tcp"@ {
        Some(Stack::Tcp)
    } else if token == "quic"@ {
        Some(Stack::Quic)
    } else if token == "ws"@ || token == "websocket"@ {
        Some(Stack::WebSocket)
    } else if token == "udp"@ || token == "webrtc"@ {
        Some(Stack::WebRtcUdp)
    } else if token == "tor"@ {
        Some(Stack::Tor)
    } else if token == "all"@ {
        Some(Stack::All)
    } else {
        None
    }
}

/// The name under which a stack is shown.
pub open spec fn name_of_stack(s: Stack) -> Seq<char> {
    match s {
        Stack::Tcp => "tcp"@,
        Stack::Quic => "quic"@,
        Stack::WebSocket => "ws"@,
        Stack::WebRtcUdp => "udp"@,
        Stack::Tor => "tor"@,
        Stack::All => "all"@,
    }
}

/// How far above the base port a stack listens.
pub open spec fn port_offset(s: Stack) -> int {
    match s {
        Stack::Tcp | Stack::Tor | Stack::All => 0,
        Stack::WebSocket => 1,
        Stack::Quic => 2,
        Stack::WebRtcUdp => 3,
    }
}

/// The port of a stack: the base port plus the offset, at most the highest port.
pub open spec fn port_of(base: u16, s: Stack) -> int {
    if base + port_offset(s) > u16::MAX {
        u16::MAX as int
    } else {
        base + port_offset(s)
    }
}

/// The role that a token names.
pub fn role_from_token(token: &str) -> (r: Option<Role>)
    ensures
        r == role_of_token(token@),
{
    if same_text(token, "recv") || same_text(token, "receiver") || same_text(token, "2") {
        Some(Role::Receiver)
    } else if same_text(token, "send") || same_text(token, "sender") || same_text(token, "1") {
        Some(Role::Sender)
    } else {
        None
    }
}

/// The stack that a token names.
pub fn stack_from_token(token: &str) -> (r: Option<Stack>)
    ensures
        r == stack_of_token(token@),
{
    if same_text(token, "tcp") {
        Some(Stack::Tcp)
    } else if same_text(token, "quic") {
        Some(Stack::Quic)
    } else if same_text(token, "ws") || same_text(token, "websocket") {
        Some(Stack::WebSocket)
    } else if same_text(token, "udp") || same_text(token, "webrtc") {
        Some(Stack::WebRtcUdp)
    } else if same_text(token, "tor") {
        Some(Stack::Tor)
    } else if same_text(token, "all") {
        Some(Stack::All)
    } else {
        None
    }
}

/// The role named on a typed line, whatever its case and surrounding whitespace.
pub fn parse_role(s: &str) -> (r: Option<Role>)
    ensures
        r == role_of_token(token_of(s@)),
{
    role_from_token(to_lowercase(trim(s)).as_str())
}

/// The stack named on a typed line, whatever its case and surrounding whitespace.
pub fn parse_stack(s: &str) -> (r: Option<Stack>)
    ensures
        r == stack_of_token(token_of(s@)),
{
    stack_from_token(to_lowercase(trim(s)).as_str())
}

/// The name under which a stack is shown.
pub fn stack_name(s: Stack) -> (r: &'static str)
    ensures
        r@ == name_of_stack(s),
{
    match s {
        Stack::Tcp => "tcp",
        Stack::Quic => "quic",
        Stack::WebSocket => "ws",
        Stack::WebRtcUdp => "udp",
        Stack::Tor => "tor",
        Stack::All => "all",
    }
}

/// The port of a stack.
pub fn port_for_stack(base: u16, stack: Stack) -> (r: u16)
    ensures
        r == port_of(base, stack),
{
    match stack {
        Stack::Tcp | Stack::Tor => base,
        Stack::WebSocket => base.saturating_add(1),
        Stack::Quic => base.saturating_add(2),
        Stack::WebRtcUdp => base.saturating_add(3),
        Stack::All => base,
    }
}

/// The stacks that make up all of them, in the order in which they are run.
pub open spec fn every_stack() -> Seq<Stack> {
    seq![Stack::Tcp, Stack::WebSocket, Stack::Quic, Stack::WebRtcUdp]
}

/// The stacks that a receiver listens on.
pub fn listen_stacks(stack: Stack) -> (r: Vec<Stack>)
    ensures
        r@ == (if stack == Stack::All {
            every_stack()
        } else {
            seq![stack]
        }),
{
    let r: Vec<Stack> = if stack == Stack::All {
        vec![Stack::Tcp, Stack::WebSocket, Stack::Quic, Stack::WebRtcUdp]
    } else {
        vec![stack]
    };
    assert(r@ =~= if stack == Stack::All {
        every_stack()
    } else {
        seq![stack]
    });
    r
}

/// The stacks that a sender runs one after the other. Without an address for WebRTC, that
/// stack is left out.
pub fn sender_stacks(has_webrtc_address: bool) -> (r: Vec<Stack>)
    ensures
        r@ == every_stack().filter(
            |s: Stack| s != Stack::WebRtcUdp || has_webrtc_address,
        ),
{
    let mut r: Vec<Stack> = vec![Stack::Tcp, Stack::WebSocket, Stack::Quic];
    if has_webrtc_address {
        r.push(Stack::WebRtcUdp);
    }
    proof {
        let keep = |s: Stack| s != Stack::WebRtcUdp || has_webrtc_address;
        reveal_with_fuel(Seq::filter, 5);
        let all = every_stack();
        assert(all.drop_last() =~= seq![Stack::Tcp, Stack::WebSocket, Stack::Quic]);
        assert(all.drop_last().drop_last() =~= seq![Stack::Tcp, Stack::WebSocket]);
        assert(all.drop_last().drop_last().drop_last() =~= seq![Stack::Tcp]);
        assert(all.drop_last().drop_last().drop_last().drop_last() =~= Seq::<Stack>::empty());
        assert(r@ =~= all.filter(keep));
    }
    r
}

/// What a transport runs over.
#[derive(Clone, Copy, Debug, PartialEq, Eq, Structural)]
pub enum Link {
    Tcp,
    WebSocket,
    Quic,
    WebRtc,
    /// TCP, and what TCP does not reach through a SOCKS5 proxy.
    TcpOrSocks5,
}

/// How a transport is put together.
#[derive(Clone, Copy, Debug, PartialEq, Eq, Structural)]
pub struct TransportPlan {
    pub link: Link,
    /// Whether the link has to be authenticated and multiplexed on top.
    pub upgrade: bool,
}

/// How the transport of one stack is put together; nothing for all of them.
pub open spec fn plan_of_stack(s: Stack) -> Option<TransportPlan> {
    match s {
        Stack::Tcp => Some((TransportPlan { link: Link::Tcp, upgrade: true })),
        Stack::WebSocket => Some((TransportPlan { link: Link::WebSocket, upgrade: true })),
        Stack::Quic => Some((TransportPlan { link: Link::Quic, upgrade: false })),
        Stack::WebRtcUdp => Some((TransportPlan { link: Link::WebRtc, upgrade: false })),
        Stack::Tor => Some((TransportPlan { link: Link::TcpOrSocks5, upgrade: true })),
        Stack::All => None,
    }
}

/// How the transport of one stack is put together; nothing for all of them.
pub fn transport_plan(stack: Stack) -> (r: Option<TransportPlan>)
    ensures
        r == plan_of_stack(stack),
{
    match stack {
        Stack::Tcp => Some(TransportPlan { link: Link::Tcp, upgrade: true }),
        Stack::WebSocket => Some(TransportPlan { link: Link::WebSocket, upgrade: true }),
        Stack::Quic => Some(TransportPlan { link: Link::Quic, upgrade: false }),
        Stack::WebRtcUdp => Some(TransportPlan { link: Link::WebRtc, upgrade: false }),
        Stack::Tor => Some(TransportPlan { link: Link::TcpOrSocks5, upgrade: true }),
        Stack::All => None,
    }
}

/// What is shown where all stacks together are asked for one plan.
pub open spec fn no_plan_text() -> Seq<char> {
    "use build_transport_all()"@
}

/// What is shown where all stacks together are asked for one plan.
pub fn no_plan_message() -> (r: &'static str)
    ensures
        r@ == no_plan_text(),
{
    "use build_transport_all()"
}

/// An ASCII word, typed in any case and with any whitespace around it, is read as that word in
/// lower case.
pub proof fn law_word_reads_in_any_case(before: Seq<char>, word: Seq<char>, after: Seq<char>)
    requires
        forall|i: int| 0 <= i < before.len() ==> is_whitespace(#[trigger] before[i]),
        forall|i: int| 0 <= i < after.len() ==> is_whitespace(#[trigger] after[i]),
        is_ascii_chars(word),
        word.len() > 0,
        !is_whitespace(word[0]),
        !is_whitespace(word.last()),
    ensures
        token_of(before + word + after) == ascii_lowercase(word),
        role_of_token(token_of(before + word + after)) == role_of_token(ascii_lowercase(word)),
        stack_of_token(token_of(before + word + after)) == stack_of_token(ascii_lowercase(word)),
{
    lemma_trimmed(before, word, after);
}

/// What is a letter from `a` to `z` in lower case is a letter of ASCII.
proof fn lemma_letter(c: char)
    requires
        'a' <= ascii_lowercase_char(c) <= 'z',
    ensures
        'A' <= c <= 'z',
        !is_whitespace(c),
{
}

/// The name of a stack, typed in any case and with any whitespace around it, is read as that
/// stack.
pub proof fn law_stack_name_reads_back(
    s: Stack,
    before: Seq<char>,
    word: Seq<char>,
    after: Seq<char>,
)
    requires
        forall|i: int| 0 <= i < before.len() ==> is_whitespace(#[trigger] before[i]),
        forall|i: int| 0 <= i < after.len() ==> is_whitespace(#[trigger] after[i]),
        ascii_lowercase(word) == name_of_stack(s),
    ensures
        stack_of_token(token_of(before + word + after)) == Some(s),
{
    let name = name_of_stack(s);
    reveal_strlit("tcp");
    reveal_strlit("quic");
    reveal_strlit("ws");
    reveal_strlit("websocket");
    reveal_strlit("udp");
    reveal_strlit("webrtc");
    reveal_strlit("tor");
    reveal_strlit("all");
    assert(word.len() == name.len());
    assert forall|i: int| 0 <= i < word.len() implies 'A' <= #[trigger] word[i] <= 'z' by {
        assert(name[i] == ascii_lowercase_char(word[i]));
        lemma_letter(word[i]);
    }
    assert(is_ascii_chars(word));
    law_word_reads_in_any_case(before, word, after);
    assert("tcp"@[0] == 't' && "tcp"@[1] == 'c');
    assert("tor"@[0] == 't' && "tor"@[1] == 'o');
    assert("udp"@[0] == 'u' && "all"@[0] == 'a');
}

/// A text in lower or upper case is read as the same role and the same stack.
pub proof fn law_case_does_not_matter(line1: Seq<char>, line2: Seq<char>)
    requires
        is_ascii_chars(line1),
        is_ascii_chars(line2),
        ascii_lowercase(line1) == ascii_lowercase(line2),
    ensures
        role_of_token(token_of(line1)) == role_of_token(token_of(line2)),
        stack_of_token(token_of(line1)) == stack_of_token(token_of(line2)),
{
    lemma_trimmed_ascii(line1);
    lemma_trimmed_ascii(line2);
    lemma_lowercase_trimmed(line1);
    lemma_lowercase_trimmed(line2);
}

/// The stacks that a receiver of all of them listens on have ports of their own, unless the
/// base port is among the highest three.
pub proof fn law_ports_do_not_clash(base: u16, i: int, j: int)
    requires
        base <= u16::MAX - 3,
        0 <= i < j < every_stack().len(),
    ensures
        port_of(base, every_stack()[i]) != port_of(base, every_stack()[j]),
        base <= port_of(base, every_stack()[i]) <= base + 3,
{
}

/// The words for a role are these, and no other word is one.
pub proof fn law_words_for_roles(token: Seq<char>)
    ensures
        role_of_token(token) == Some(Role::Receiver) <==> token == "recv"@ || token == "receiver"@
            || token == "2"@,
        role_of_token(token) == Some(Role::Sender) <==> token == "send"@ || token == "sender"@
            || token == "1"@,
{
    reveal_strlit("recv");
    reveal_strlit("receiver");
    reveal_strlit("2");
    reveal_strlit("send");
    reveal_strlit("sender");
    reveal_strlit("1");
    assert("recv"@[0] == 'r' && "receiver"@[0] == 'r' && "2"@[0] == '2');
    assert("send"@[0] == 's' && "sender"@[0] == 's' && "1"@[0] == '1');
}

/// The words for a stack are its name and, for two of them, a longer word; no other word is
/// one.
pub proof fn law_words_for_stacks(token: Seq<char>, s: Stack)
    ensures
        stack_of_token(token) == Some(s) <==> {
            ||| token == name_of_stack(s)
            ||| s == Stack::WebSocket && token == "websocket"@
            ||| s == Stack::WebRtcUdp && token == "webrtc"@
        },
        name_of_stack(Stack::Tcp) == "tcp"@,
        name_of_stack(Stack::Quic) == "quic"@,
        name_of_stack(Stack::WebSocket) == "ws"@,
        name_of_stack(Stack::WebRtcUdp) == "udp"@,
        name_of_stack(Stack::Tor) == "tor"@,
        name_of_stack(Stack::All) == "all"@,
{
    reveal_strlit("tcp");
    reveal_strlit("quic");
    reveal_strlit("ws");
    reveal_strlit("websocket");
    reveal_strlit("udp");
    reveal_strlit("webrtc");
    reveal_strlit("tor");
    reveal_strlit("all");
    assert("tcp"@[0] == 't' && "tcp"@[1] == 'c');
    assert("tor"@[0] == 't' && "tor"@[1] == 'o');
    assert("udp"@[0] == 'u' && "all"@[0] == 'a' && "quic"@[0] == 'q');
    assert("ws"@.len() == 2 && "websocket"@.len() == 9 && "webrtc"@.len() == 6);
}

/// The stacks are run in the order of TCP, WebSocket, QUIC and WebRTC, and their ports follow
/// each other in that order from the base port on, up to the highest port; Tor has the base
/// port, as TCP has.
pub proof fn law_ports_follow_each_other(base: u16, i: int)
    requires
        0 <= i < 4,
    ensures
        every_stack().len() == 4,
        name_of_stack(every_stack()[0]) == "tcp"@,
        name_of_stack(every_stack()[1]) == "ws"@,
        name_of_stack(every_stack()[2]) == "quic"@,
        name_of_stack(every_stack()[3]) == "udp"@,
        port_of(base, every_stack()[i]) == if base + i <= 65535 {
            base + i
        } else {
            65535
        },
        port_of(base, Stack::Tor) == base,
        port_of(base, Stack::All) == base,
{
}

/// Every stack but all of them together has a plan, no two the same. A link is upgraded exactly
/// where it does not encrypt and multiplex by itself, as QUIC and WebRTC do.
pub proof fn law_plans_are_distinct(s: Stack, t: Stack)
    ensures
        plan_of_stack(s) is None <==> s == Stack::All,
        plan_of_stack(s) == plan_of_stack(t) ==> s == t,
        plan_of_stack(s) matches Some(plan) ==> {
            &&& plan.upgrade <==> plan.link != Link::Quic && plan.link != Link::WebRtc
            &&& plan.link == Link::Quic <==> s == Stack::Quic
            &&& plan.link == Link::WebRtc <==> s == Stack::WebRtcUdp
            &&& plan.link == Link::WebSocket <==> s == Stack::WebSocket
            &&& plan.link == Link::Tcp <==> s == Stack::Tcp
        },
{
}

/// A typed line is read by what is left of it without the whitespace around it: in lower case,
/// letter by letter where it is ASCII, and by the Unicode tables where it is not.
pub proof fn law_line_is_read_in_lower_case(line: Seq<char>)
    ensures
        is_ascii_chars(trimmed(line)) ==> token_of(line) == ascii_lowercase(trimmed(line)),
        !is_ascii_chars(trimmed(line)) ==> token_of(line) == unicode_lowercase(trimmed(line)),
{
}

} // verus!
