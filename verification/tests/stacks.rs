use p2p_bench::setup::{
    manual_setup, parse_port, parse_preset, parse_window, preset_setup, questions, Preset, Setup,
};
use p2p_bench::stack::{
    listen_stacks, no_plan_message, parse_role, parse_stack, port_for_stack, role_from_token, sender_stacks,
    stack_from_token, stack_name, transport_plan, Link, Role, Stack, TransportPlan,
};

const STACKS: [Stack; 6] = [
    Stack::Tcp,
    Stack::Quic,
    Stack::WebSocket,
    Stack::WebRtcUdp,
    Stack::Tor,
    Stack::All,
];

#[test]
fn roles_are_read_in_any_case_and_with_spaces() {
    for s in ["recv", "receiver", "2", " RECV\t", "Receiver\r\n", "\u{3000}2\u{a0}"] {
        assert_eq!(parse_role(s), Some(Role::Receiver), "{s:?}");
    }
    for s in ["send", "sender", "1", " Send ", "SENDER"] {
        assert_eq!(parse_role(s), Some(Role::Sender), "{s:?}");
    }
    for s in ["", " ", "3", "re cv", "senders", "\u{200b}send"] {
        assert_eq!(parse_role(s), None, "{s:?}");
    }
}

#[test]
fn stacks_are_read_in_any_case_and_with_spaces() {
    assert_eq!(parse_stack("TCP"), Some(Stack::Tcp));
    assert_eq!(parse_stack(" quic"), Some(Stack::Quic));
    assert_eq!(parse_stack("ws"), Some(Stack::WebSocket));
    assert_eq!(parse_stack("WebSocket"), Some(Stack::WebSocket));
    assert_eq!(parse_stack("udp\n"), Some(Stack::WebRtcUdp));
    assert_eq!(parse_stack("webrtc"), Some(Stack::WebRtcUdp));
    assert_eq!(parse_stack("tor"), Some(Stack::Tor));
    assert_eq!(parse_stack("all"), Some(Stack::All));
    assert_eq!(parse_stack("tcp4"), None);
    assert_eq!(parse_stack(""), None);
}

#[test]
fn letters_outside_ascii_follow_the_unicode_tables() {
    // The Kelvin sign is a capital k.
    assert_eq!(parse_stack("WEBSOC\u{212a}ET"), Some(Stack::WebSocket));
    assert_eq!(parse_stack("t\u{441}p"), None);
}

#[test]
fn tokens_are_read_as_they_stand() {
    assert_eq!(role_from_token("send"), Some(Role::Sender));
    assert_eq!(role_from_token("SEND"), None);
    assert_eq!(stack_from_token("quic"), Some(Stack::Quic));
    assert_eq!(stack_from_token(" quic"), None);
}

#[test]
fn stack_names_read_back() {
    let names = ["tcp", "quic", "ws", "udp", "tor", "all"];
    for (stack, name) in STACKS.into_iter().zip(names) {
        assert_eq!(stack_name(stack), name);
        assert_eq!(parse_stack(&format!("\t {name} ")), Some(stack));
        let mixed = format!("\u{3000}{}{}\u{85}", name[..1].to_uppercase(), &name[1..]);
        assert_eq!(parse_stack(&mixed), Some(stack));
    }
}

#[test]
fn ports_follow_the_base_port() {
    let ports: Vec<u16> = STACKS.into_iter().map(|s| port_for_stack(9000, s)).collect();
    assert_eq!(ports, vec![9000, 9002, 9001, 9003, 9000, 9000]);
    let highest: Vec<u16> = STACKS.into_iter().map(|s| port_for_stack(65534, s)).collect();
    assert_eq!(highest, vec![65534, 65535, 65535, 65535, 65534, 65534]);
}

#[test]
fn stacks_of_a_receiver_and_a_sender() {
    let four = vec![Stack::Tcp, Stack::WebSocket, Stack::Quic, Stack::WebRtcUdp];
    assert_eq!(listen_stacks(Stack::All), four);
    assert_eq!(listen_stacks(Stack::Tor), vec![Stack::Tor]);
    assert_eq!(sender_stacks(true), four);
    assert_eq!(sender_stacks(false), vec![Stack::Tcp, Stack::WebSocket, Stack::Quic]);
}

#[test]
fn transports_are_planned_per_stack() {
    let plan = |link, upgrade| Some(TransportPlan { link, upgrade });
    assert_eq!(transport_plan(Stack::Tcp), plan(Link::Tcp, true));
    assert_eq!(transport_plan(Stack::WebSocket), plan(Link::WebSocket, true));
    assert_eq!(transport_plan(Stack::Quic), plan(Link::Quic, false));
    assert_eq!(transport_plan(Stack::WebRtcUdp), plan(Link::WebRtc, false));
    assert_eq!(transport_plan(Stack::Tor), plan(Link::TcpOrSocks5, true));
    assert_eq!(transport_plan(Stack::All), None);
    assert_eq!(no_plan_message(), "use build_transport_all()");
}

#[test]
fn presets_are_chosen_by_number() {
    assert_eq!(parse_preset(" 1 "), Preset::LocalReceiver);
    assert_eq!(parse_preset("2"), Preset::LocalSender);
    assert_eq!(parse_preset("3\n"), Preset::TorReceiver);
    for s in ["4", "", "12", "one"] {
        assert_eq!(parse_preset(s), Preset::Manual);
    }
    let setup = |role, stack| Some(Setup { role, stack, base_port: 9000 });
    assert_eq!(preset_setup(Preset::LocalReceiver), setup(Role::Receiver, Stack::Tcp));
    assert_eq!(preset_setup(Preset::LocalSender), setup(Role::Sender, Stack::Tcp));
    assert_eq!(preset_setup(Preset::TorReceiver), setup(Role::Receiver, Stack::Tor));
    assert_eq!(preset_setup(Preset::Manual), None);
}

#[test]
fn manual_setup_falls_back_to_defaults() {
    assert_eq!(
        manual_setup("send", "ws", "1234"),
        Setup { role: Role::Sender, stack: Stack::WebSocket, base_port: 1234 }
    );
    assert_eq!(
        manual_setup("", "?", ""),
        Setup { role: Role::Receiver, stack: Stack::Tcp, base_port: 9000 }
    );
}

#[test]
fn typed_numbers_are_read_as_the_standard_library_reads_them() {
    let lines = [
        "", "0", "+7", "+", "++7", "-1", "-0", "65535", "65536", "0000065535", " 8", "8 ", "1_0",
        "\u{661}", "99999999999999999999999999999999999999999999", "18446744073709551615",
        "18446744073709551616",
    ];
    for line in lines {
        assert_eq!(parse_port(line), line.parse().unwrap_or(9000), "{line:?}");
        assert_eq!(parse_window(line), line.parse().unwrap_or(10000), "{line:?}");
    }
}

#[test]
fn questions_depend_on_role_and_stack() {
    let ask = |preset, role, stack| {
        let q = questions(preset, Setup { role, stack, base_port: 1 });
        (q.window, q.onion, q.host, q.webrtc)
    };
    assert_eq!(
        ask(Preset::LocalReceiver, Role::Receiver, Stack::Tcp),
        (false, false, false, false)
    );
    assert_eq!(ask(Preset::LocalSender, Role::Sender, Stack::Tcp), (true, false, false, false));
    assert_eq!(
        ask(Preset::TorReceiver, Role::Receiver, Stack::Tor),
        (false, true, false, false)
    );
    assert_eq!(ask(Preset::Manual, Role::Sender, Stack::Tor), (true, true, true, false));
    assert_eq!(ask(Preset::Manual, Role::Sender, Stack::WebRtcUdp), (true, false, true, true));
    assert_eq!(ask(Preset::Manual, Role::Sender, Stack::All), (true, false, true, true));
    assert_eq!(
        ask(Preset::Manual, Role::Receiver, Stack::All),
        (false, false, false, false)
    );
}
