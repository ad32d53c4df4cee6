//! What a process is set up to do, from what is typed at its start.

use crate::stack::{
    parse_role, parse_stack, role_of_token, stack_of_token, token_of, Role, Stack,
};
use crate::text::{
    decimal, law_decimal_reads_back, law_number_is_digits, law_zeros_and_plus_do_not_matter,
    parse_unsigned, same_text, trim, trimmed, unsigned_value,
};
use vstd::prelude::*;

verus! {

/// The port that is used unless another is typed.
pub const DEFAULT_PORT: u16 = 9000;

/// The window that is used unless another is typed.
pub const DEFAULT_IN_FLIGHT: usize = 10000;

/// The choices at the start.
#[derive(Clone, Copy, Debug, PartialEq, Eq, Structural)]
pub enum Preset {
    /// A receiver on this machine, over TCP.
    LocalReceiver,
    /// A sender on this machine, over TCP.
    LocalSender,
    /// A receiver over Tor.
    TorReceiver,
    /// All is asked for.
    Manual,
}

/// What a process is set up to do.
#[derive(Clone, Copy, Debug, PartialEq, Eq, Structural)]
pub struct Setup {
    pub role: Role,
    pub stack: Stack,
    pub base_port: u16,
}

/// What is left to ask for.
#[derive(Clone, Copy, Debug, PartialEq, Eq, Structural)]
pub struct Questions {
    /// How many messages may be on their way at once.
    pub window: bool,
    /// An onion address.
    pub onion: bool,
    /// The address of the host to send to.
    pub host: bool,
    /// A full address for WebRTC, which may be left empty.
    pub webrtc: bool,
}

/// The choice that a typed line makes.
pub open spec fn preset_of_line(line: Seq<char>) -> Preset {
    if trimmed(line) == "1"@ {
        Preset::LocalReceiver
    } else if trimmed(line) == "2"@ {
        Preset::LocalSender
    } else if trimmed(line) == "3"@ {
        Preset::TorReceiver
    } else {
        Preset::Manual
    }
}

/// The choice that a typed line makes.
pub fn parse_preset(line: &str) -> (r: Preset)
    ensures
        r == preset_of_line(line@),
{
    let token = trim(line);
    if same_text(token, "1") {
        Preset::LocalReceiver
    } else if same_text(token, "2") {
        Preset::LocalSender
    } else if same_text(token, "3") {
        Preset::TorReceiver
    } else {
        Preset::Manual
    }
}

/// What a choice sets up, unless all is asked for.
pub open spec fn setup_of_preset(preset: Preset) -> Option<Setup> {
    match preset {
        Preset::LocalReceiver => Some(
            (Setup { role: Role::Receiver, stack: Stack::Tcp, base_port: DEFAULT_PORT }),
        ),
        Preset::LocalSender => Some(
            (Setup { role: Role::Sender, stack: Stack::Tcp, base_port: DEFAULT_PORT }),
        ),
        Preset::TorReceiver => Some(
            (Setup { role: Role::Receiver, stack: Stack::Tor, base_port: DEFAULT_PORT }),
        ),
        Preset::Manual => None,
    }
}

/// What a choice sets up, unless all is asked for.
pub fn preset_setup(preset: Preset) -> (r: Option<Setup>)
    ensures
        r == setup_of_preset(preset),
{
    match preset {
        Preset::LocalReceiver => Some(
            Setup { role: Role::Receiver, stack: Stack::Tcp, base_port: DEFAULT_PORT },
        ),
        Preset::LocalSender => Some(
            Setup { role: Role::Sender, stack: Stack::Tcp, base_port: DEFAULT_PORT },
        ),
        Preset::TorReceiver => Some(
            Setup { role: Role::Receiver, stack: Stack::Tor, base_port: DEFAULT_PORT },
        ),
        Preset::Manual => None,
    }
}

/// The number on a line if it is one and at most `max`, and `default` otherwise.
pub open spec fn number_or(line: Seq<char>, max: nat, default: nat) -> nat {
    match unsigned_value(line) {
        Some(n) => if n <= max {
            n
        } else {
            default
        },
        None => default,
    }
}

/// A number that is typed in decimal digits is used, unless it is too high.
pub proof fn law_typed_number_is_used(n: nat, max: nat, default: nat)
    ensures
        number_or(decimal(n), max, default) == (if n <= max {
            n
        } else {
            default
        }),
{
    law_decimal_reads_back(n);
}

/// The port on a typed line, or the default.
pub fn parse_port(line: &str) -> (r: u16)
    ensures
        r == number_or(line@, u16::MAX as nat, DEFAULT_PORT as nat),
{
    match parse_unsigned(line, u16::MAX as u64) {
        Some(n) => n as u16,
        None => DEFAULT_PORT,
    }
}

/// The window on a typed line, or the default.
pub fn parse_window(line: &str) -> (r: usize)
    ensures
        r == number_or(line@, usize::MAX as nat, DEFAULT_IN_FLIGHT as nat),
{
    match parse_unsigned(line, usize::MAX as u64) {
        Some(n) => n as usize,
        None => DEFAULT_IN_FLIGHT,
    }
}

/// What typed lines set up: a receiver, TCP and the default port where they say nothing else.
pub fn manual_setup(role_line: &str, stack_line: &str, port_line: &str) -> (r: Setup)
    ensures
        r.role == (match role_of_token(token_of(role_line@)) {
            Some(role) => role,
            None => Role::Receiver,
        }),
        r.stack == (match stack_of_token(token_of(stack_line@)) {
            Some(stack) => stack,
            None => Stack::Tcp,
        }),
        r.base_port == number_or(port_line@, u16::MAX as nat, DEFAULT_PORT as nat),
{
    Setup {
        role: parse_role(role_line).unwrap_or(Role::Receiver),
        stack: parse_stack(stack_line).unwrap_or(Stack::Tcp),
        base_port: parse_port(port_line),
    }
}

/// What is left to ask for: a sender is asked for its window, and for the host unless it is
/// this machine's by choice; Tor needs an onion address; and a sender over WebRTC, alone or
/// among all stacks, may be given a full address.
pub fn questions(preset: Preset, setup: Setup) -> (r: Questions)
    ensures
        r.window == (setup.role == Role::Sender),
        r.onion == (setup.stack == Stack::Tor),
        r.host == (setup.role == Role::Sender && preset != Preset::LocalSender),
        r.webrtc == (setup.role == Role::Sender && (setup.stack == Stack::WebRtcUdp || setup.stack
            == Stack::All)),
{
    let sender: bool = setup.role == Role::Sender;
    Questions {
        window: sender,
        onion: setup.stack == Stack::Tor,
        host: sender && preset != Preset::LocalSender,
        webrtc: sender && (setup.stack == Stack::WebRtcUdp || setup.stack == Stack::All),
    }
}

/// A typed line chooses by the digit on it, whatever whitespace surrounds it; any other line
/// leaves all to be asked for.
pub proof fn law_preset_is_chosen_by_digit(line: Seq<char>)
    ensures
        preset_of_line(line) == Preset::LocalReceiver <==> trimmed(line) == seq!['1'],
        preset_of_line(line) == Preset::LocalSender <==> trimmed(line) == seq!['2'],
        preset_of_line(line) == Preset::TorReceiver <==> trimmed(line) == seq!['3'],
{
    reveal_strlit("1");
    reveal_strlit("2");
    reveal_strlit("3");
    assert("1"@ =~= seq!['1']);
    assert("2"@ =~= seq!['2']);
    assert("3"@ =~= seq!['3']);
    assert("1"@[0] == '1' && "2"@[0] == '2' && "3"@[0] == '3');
}

/// A choice sets up the port 9000; a sender is set up by the choice of one and no other; and
/// only the receiver over Tor is not over TCP.
pub proof fn law_presets_are_local(preset: Preset)
    ensures
        setup_of_preset(preset) is None <==> preset == Preset::Manual,
        setup_of_preset(preset) matches Some(setup) ==> {
            &&& setup.base_port == 9000
            &&& setup.role == Role::Sender <==> preset == Preset::LocalSender
            &&& setup.stack == Stack::Tor <==> preset == Preset::TorReceiver
            &&& setup.stack == Stack::Tcp <==> preset != Preset::TorReceiver
        },
{
}

/// A line that is no number, or one that is too high, leaves the default; and a number with
/// zeros or a plus sign in front is that number.
pub proof fn law_other_lines_leave_the_default(
    line: Seq<char>,
    zeros: Seq<char>,
    n: nat,
    max: nat,
    default: nat,
)
    requires
        forall|i: int| 0 <= i < zeros.len() ==> #[trigger] zeros[i] == '0',
        n <= max,
    ensures
        line.len() == 0 ==> number_or(line, max, default) == default,
        (exists|i: int|
            0 < i < line.len() && !('0' <= #[trigger] line[i] <= '9')) ==> number_or(
            line,
            max,
            default,
        ) == default,
        number_or(zeros + decimal(n), max, default) == n,
        number_or(seq!['+'] + zeros + decimal(n), max, default) == n,
{
    law_number_is_digits(line);
    law_zeros_and_plus_do_not_matter(n, zeros);
}

} // verus!
