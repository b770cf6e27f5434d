use lan_mouse::cli::{
    execute, handle_event, list_line, parse_u32_auto, parse_u8_auto, CliActionTrigger, CliStep,
    CliSubcommand, ClientArgs, Pending,
};
use lan_mouse::ipc::{
    ActionTrigger, ClientAction, ClientConfig, ClientInfo, ClientState, FrontendEvent,
    FrontendRequest, Position, Status,
};
use lan_mouse::net::{IpAddr, SocketAddr};

fn info(handle: u64) -> ClientInfo {
    ClientInfo {
        handle,
        config: ClientConfig::new(),
        state: ClientState::new(),
    }
}

#[test]
fn numbers_are_decimal_or_hexadecimal() {
    assert_eq!(parse_u32_auto("42"), Ok(42));
    assert_eq!(parse_u32_auto(" 0x2A "), Ok(42));
    assert_eq!(parse_u32_auto("0Xff"), Ok(255));
    assert_eq!(parse_u32_auto("+7"), Ok(7));
    assert_eq!(parse_u32_auto("4294967295"), Ok(u32::MAX));
    assert_eq!(
        parse_u32_auto("4294967296"),
        Err("number too large to fit in target type".to_string())
    );
    assert_eq!(
        parse_u32_auto("12z"),
        Err("invalid digit found in string".to_string())
    );
    assert_eq!(
        parse_u32_auto("0x"),
        Err("cannot parse integer from empty string".to_string())
    );
    assert_eq!(
        parse_u32_auto("-1"),
        Err("invalid digit found in string".to_string())
    );
}

#[test]
fn small_numbers_have_to_fit() {
    assert_eq!(parse_u8_auto("0x60"), Ok(0x60));
    assert_eq!(parse_u8_auto("255"), Ok(255));
    assert_eq!(
        parse_u8_auto(" 256"),
        Err("\" 256\" is outside u8 range".to_string())
    );
    assert_eq!(
        parse_u8_auto("x"),
        Err("invalid digit found in string".to_string())
    );
}

#[test]
fn simple_commands_are_one_request() {
    let requests = [
        CliSubcommand::RemoveClient { id: 1 },
        CliSubcommand::Activate { id: 1 },
        CliSubcommand::Deactivate { id: 1 },
        CliSubcommand::SetHost { id: 1, host: None },
        CliSubcommand::SetPeerFingerprint { id: 1, fingerprint: None },
        CliSubcommand::SetEnterHook { id: 1, hook: None },
        CliSubcommand::SetLeaveHook { id: 1, hook: None },
        CliSubcommand::ClearActions { id: 1 },
        CliSubcommand::SetPort { id: 1, port: 2 },
        CliSubcommand::SetPosition { id: 1, pos: Position::Top },
        CliSubcommand::SetIps { id: 1, ips: vec![] },
        CliSubcommand::EnableCapture,
        CliSubcommand::EnableEmulation,
        CliSubcommand::AuthorizeKey {
            description: "mac".to_string(),
            sha256_fingerprint: "aa".to_string(),
        },
        CliSubcommand::RemoveAuthorizedKey { sha256_fingerprint: "aa".to_string() },
        CliSubcommand::SaveConfig,
    ]
    .map(|cmd| {
        let (request, pending) = execute(cmd);
        assert!(pending.is_none());
        request
    });
    assert!(matches!(requests[0], FrontendRequest::Delete(1)));
    assert!(matches!(requests[1], FrontendRequest::Activate(1, true)));
    assert!(matches!(requests[2], FrontendRequest::Activate(1, false)));
    assert!(matches!(requests[3], FrontendRequest::UpdateHostname(1, None)));
    assert!(matches!(
        requests[4],
        FrontendRequest::UpdatePeerFingerprint(1, None)
    ));
    assert!(matches!(requests[5], FrontendRequest::UpdateEnterHook(1, None)));
    assert!(matches!(requests[6], FrontendRequest::UpdateLeaveHook(1, None)));
    assert!(matches!(&requests[7], FrontendRequest::UpdateActions(1, a) if a.is_empty()));
    assert!(matches!(requests[8], FrontendRequest::UpdatePort(1, 2)));
    assert!(matches!(
        requests[9],
        FrontendRequest::UpdatePosition(1, Position::Top)
    ));
    assert!(matches!(&requests[10], FrontendRequest::UpdateFixIps(1, i) if i.is_empty()));
    assert!(matches!(requests[11], FrontendRequest::EnableCapture));
    assert!(matches!(requests[12], FrontendRequest::EnableEmulation));
    assert!(matches!(
        &requests[13],
        FrontendRequest::AuthorizeKey(d, f) if d == "mac" && f == "aa"
    ));
    assert!(matches!(
        &requests[14],
        FrontendRequest::RemoveAuthorizedKey(f) if f == "aa"
    ));
    assert!(matches!(requests[15], FrontendRequest::SaveConfiguration));
}

#[test]
fn a_new_client_gets_what_was_given() {
    let (request, pending) = execute(CliSubcommand::AddClient(ClientArgs {
        hostname: Some("mac".to_string()),
        peer_fingerprint: None,
        port: Some(5000),
        ips: Some(vec![IpAddr::V4(1)]),
        enter_hook: None,
        leave_hook: Some("bye".to_string()),
    }));
    assert!(matches!(request, FrontendRequest::Create));
    let pending = match handle_event(
        pending.unwrap(),
        FrontendEvent::CaptureStatus(Status::Enabled),
    ) {
        CliStep::Wait(pending) => pending,
        _ => panic!("other events are passed over"),
    };
    match handle_event(pending, FrontendEvent::Created(info(3))) {
        CliStep::Send(requests) => {
            assert_eq!(requests.len(), 4);
            assert!(matches!(
                &requests[0],
                FrontendRequest::UpdateHostname(3, Some(h)) if h == "mac"
            ));
            assert!(matches!(requests[1], FrontendRequest::UpdatePort(3, 5000)));
            assert!(matches!(&requests[2], FrontendRequest::UpdateFixIps(3, i) if i.len() == 1));
            assert!(matches!(
                &requests[3],
                FrontendRequest::UpdateLeaveHook(3, Some(h)) if h == "bye"
            ));
        }
        _ => panic!("the client is configured"),
    }
}

#[test]
fn an_action_is_appended() {
    let cmd = || CliSubcommand::AddDdcVcpAction {
        id: 2,
        on: CliActionTrigger::Leave,
        monitor: Some("dell".to_string()),
        code: 0x60,
        value: 17,
    };
    let mut client = info(2);
    client.config.actions.push(ClientAction::DdcVcp {
        on: ActionTrigger::Enter,
        monitor: None,
        code: 1,
        value: 2,
    });
    let (request, pending) = execute(cmd());
    assert!(matches!(request, FrontendRequest::Enumerate));
    match handle_event(
        pending.unwrap(),
        FrontendEvent::Enumerate(vec![info(1), client]),
    ) {
        CliStep::Send(requests) => match &requests[0] {
            FrontendRequest::UpdateActions(2, actions) => {
                assert_eq!(actions.len(), 2);
                let ClientAction::DdcVcp { on, value, .. } = &actions[1];
                assert_eq!((*on, *value), (ActionTrigger::Leave, 17));
            }
            _ => panic!("the actions are updated"),
        },
        _ => panic!("a request is sent"),
    }
    let (_, pending) = execute(cmd());
    assert!(matches!(
        handle_event(pending.unwrap(), FrontendEvent::Enumerate(vec![info(1)])),
        CliStep::Send(requests) if requests.is_empty()
    ));
}

#[test]
fn clients_are_listed() {
    let (request, pending) = execute(CliSubcommand::List);
    assert!(matches!(request, FrontendRequest::Enumerate));
    assert!(matches!(pending, Some(Pending::Listing)));
    let mut c = info(4);
    assert_eq!(
        list_line(&c),
        "id 4: unknown:4242 (left) active: false, ips: {}, alive: false, resolving: false"
    );
    c.config.hostname = Some("mac".to_string());
    c.config.peer_fingerprint = Some("aa".to_string());
    c.config.pos = Position::Bottom;
    c.config.cmd = Some("say \"hi\"".to_string());
    c.config.cmd_leave = Some("bye".to_string());
    c.config.actions = vec![
        ClientAction::DdcVcp {
            on: ActionTrigger::Enter,
            monitor: Some("dell".to_string()),
            code: 96,
            value: 15,
        },
        ClientAction::DdcVcp {
            on: ActionTrigger::Leave,
            monitor: None,
            code: 96,
            value: 17,
        },
    ];
    c.state.active = true;
    c.state.alive = true;
    c.state.resolving = true;
    c.state.active_addr = Some(SocketAddr::new(IpAddr::V4(0xc0a8_0a9b), 4242));
    c.state.peer_commit = Some(*b"0a1b2c3d");
    c.state.ips.insert(IpAddr::V4(0xc0a8_0a9b));
    c.state.ips.insert(IpAddr::V6(1));
    assert_eq!(
        list_line(&c),
        "id 4: mac:4242 (bottom) active: true, ips: {192.168.10.155, ::1}, \
         alive: true, resolving: true, active_addr: 192.168.10.155:4242, \
         peer_commit: 0a1b2c3d, peer_fingerprint: aa, enter_hook: \"say \\\"hi\\\"\", leave_hook: \"bye\", \
         actions: [DdcVcp { on: Enter, monitor: Some(\"dell\"), code: 96, value: 15 }, \
         DdcVcp { on: Leave, monitor: None, code: 96, value: 17 }]"
    );
    assert!(matches!(
        handle_event(Pending::Listing, FrontendEvent::Enumerate(vec![c])),
        CliStep::List(clients) if clients.len() == 1
    ));
}
