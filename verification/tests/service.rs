use lan_mouse::capture::{CaptureType, ICaptureEvent};
use lan_mouse::client::ConfigClient;
use lan_mouse::discovery::FingerprintCache;
use lan_mouse::ipc::{
    ActionTrigger, ClientAction, FrontendEvent, FrontendRequest, KeyRing, Position, Status,
};
use lan_mouse::net::{IpAddr, IpSet, SocketAddr};
use lan_mouse::service::{
    Config, DnsEvent, Effect, EmulationEvent, HealthError, HookKind, Service, ENTER_HANDLE_BEGIN,
};

const LAN: IpAddr = IpAddr::V4(0xc0a8_0a9b);
const OTHER: IpAddr = IpAddr::V4(0xc0a8_0a02);

fn client(pos: Position, active: bool) -> ConfigClient {
    let mut ips = IpSet::new();
    ips.insert(LAN);
    ConfigClient {
        ips,
        hostname: Some("mac.local".to_string()),
        peer_fingerprint: Some("aa:bb".to_string()),
        port: 4242,
        pos,
        active,
        enter_hook: Some("enter".to_string()),
        leave_hook: None,
        actions: vec![
            ClientAction::DdcVcp {
                on: ActionTrigger::Enter,
                monitor: None,
                code: 0x60,
                value: 15,
            },
            ClientAction::DdcVcp {
                on: ActionTrigger::Leave,
                monitor: None,
                code: 0x60,
                value: 17,
            },
        ],
    }
}

fn config(clients: Vec<ConfigClient>) -> Config {
    Config {
        clients,
        authorized: KeyRing::new(),
        release_bind: vec![29, 42],
        release_threshold_px: 0,
        mdns_discovery: true,
        port: 4242,
    }
}

fn service(clients: Vec<ConfigClient>) -> Service {
    Service::new(config(clients), "ff:ff".to_string())
}

fn request(s: &mut Service, r: FrontendRequest) -> Vec<Effect> {
    let mut out = Vec::new();
    s.handle_frontend_request(r, &mut out);
    out
}

fn emulated(s: &mut Service, e: EmulationEvent) -> Vec<Effect> {
    let mut out = Vec::new();
    let mut cache = FingerprintCache::new();
    s.handle_emulation_event(e, &mut cache, &mut out);
    out
}

fn captured(s: &mut Service, e: ICaptureEvent) -> Vec<Effect> {
    let mut out = Vec::new();
    s.handle_capture_event(e, &mut out);
    out
}

/// The handles of the captures that are created and destroyed.
fn captures(effects: &[Effect]) -> Vec<(bool, u64)> {
    effects
        .iter()
        .filter_map(|e| match e {
            Effect::CaptureCreate(h, _, _) => Some((true, *h)),
            Effect::CaptureDestroy(h) => Some((false, *h)),
            _ => None,
        })
        .collect()
}

fn is_active(s: &Service, handle: u64) -> bool {
    s.clients.get_state(handle).unwrap().state.active
}

#[test]
fn of_several_clients_at_a_position_the_last_stays_active() {
    let mut s = service(vec![
        client(Position::Left, true),
        client(Position::Left, true),
        client(Position::Right, true),
        client(Position::Top, false),
    ]);
    let mut out = Vec::new();
    s.run(&mut out);
    assert_eq!(
        captures(&out),
        vec![(true, 0), (false, 0), (true, 1), (true, 2)]
    );
    assert!(!is_active(&s, 0));
    assert!(is_active(&s, 1));
    assert!(is_active(&s, 2));
    assert!(!is_active(&s, 3));
    assert!(matches!(&out[0], Effect::Resolve(0, host) if host == "mac.local"));
}

#[test]
fn activating_makes_room() {
    let mut s = service(vec![client(Position::Left, false), client(Position::Left, false)]);
    let out = request(&mut s, FrontendRequest::Activate(0, true));
    assert_eq!(captures(&out), vec![(true, 0)]);
    assert!(matches!(out.last(), Some(Effect::WriteConfig)));
    let out = request(&mut s, FrontendRequest::Activate(1, true));
    assert_eq!(captures(&out), vec![(false, 0), (true, 1)]);
    assert!(s.config.clients[1].active);
    assert!(!s.config.clients[0].active);
    let out = request(&mut s, FrontendRequest::Activate(1, true));
    assert_eq!(captures(&out), vec![]);
    let out = request(&mut s, FrontendRequest::Activate(1, false));
    assert_eq!(captures(&out), vec![(false, 1)]);
}

#[test]
fn moving_an_active_client_moves_its_capture() {
    let mut s = service(vec![client(Position::Left, false), client(Position::Right, false)]);
    request(&mut s, FrontendRequest::Activate(0, true));
    request(&mut s, FrontendRequest::Activate(1, true));
    let out = request(&mut s, FrontendRequest::UpdatePosition(0, Position::Right));
    assert_eq!(captures(&out), vec![(false, 0), (false, 1), (true, 0)]);
    assert!(out.iter().any(|e| matches!(
        e,
        Effect::CaptureCreate(0, Position::Right, CaptureType::Default)
    )));
    let out = request(&mut s, FrontendRequest::UpdatePosition(1, Position::Top));
    assert_eq!(captures(&out), vec![]);
}

#[test]
fn clients_come_and_go() {
    let mut s = service(vec![]);
    let out = request(&mut s, FrontendRequest::Create);
    assert!(matches!(
        &out[0],
        Effect::Notify(FrontendEvent::Created(c))
            if c.handle == 0 && c.config.port == 4242 && !c.state.active
    ));
    request(&mut s, FrontendRequest::Activate(0, true));
    let out = request(&mut s, FrontendRequest::Delete(0));
    assert_eq!(captures(&out), vec![(false, 0)]);
    assert!(matches!(
        out[1],
        Effect::Notify(FrontendEvent::Deleted(0))
    ));
    let out = request(&mut s, FrontendRequest::Create);
    assert!(matches!(
        &out[0],
        Effect::Notify(FrontendEvent::Created(c)) if c.handle == 1
    ));
}

#[test]
fn unknown_clients_are_reported() {
    let mut s = service(vec![]);
    for r in [
        FrontendRequest::UpdatePort(9, 1),
        FrontendRequest::UpdateHostname(9, None),
        FrontendRequest::UpdateFixIps(9, vec![]),
        FrontendRequest::UpdatePosition(9, Position::Top),
        FrontendRequest::UpdatePeerFingerprint(9, None),
        FrontendRequest::UpdateEnterHook(9, None),
        FrontendRequest::UpdateLeaveHook(9, None),
        FrontendRequest::UpdateActions(9, vec![]),
    ] {
        let out = request(&mut s, r);
        assert_eq!(out.len(), 2);
        assert!(matches!(
            out[0],
            Effect::Notify(FrontendEvent::NoSuchClient(9))
        ));
        assert!(matches!(out[1], Effect::WriteConfig));
    }
    assert!(captures(&request(&mut s, FrontendRequest::Activate(9, true))).is_empty());
}

#[test]
fn updates_reach_the_client_and_the_file() {
    let mut s = service(vec![client(Position::Left, false)]);
    let out = request(
        &mut s,
        FrontendRequest::UpdateHostname(0, Some("pc.local".to_string())),
    );
    assert!(matches!(&out[0], Effect::Resolve(0, h) if h == "pc.local"));
    let out = request(
        &mut s,
        FrontendRequest::UpdateHostname(0, Some("pc.local".to_string())),
    );
    assert!(matches!(out[0], Effect::Notify(FrontendEvent::State(_))));
    request(
        &mut s,
        FrontendRequest::UpdatePeerFingerprint(0, Some(" CC:DD ".to_string())),
    );
    request(&mut s, FrontendRequest::UpdatePort(0, 99));
    request(&mut s, FrontendRequest::UpdateFixIps(0, vec![OTHER]));
    request(&mut s, FrontendRequest::UpdateEnterHook(0, None));
    request(
        &mut s,
        FrontendRequest::UpdateLeaveHook(0, Some("bye".to_string())),
    );
    request(&mut s, FrontendRequest::UpdateActions(0, vec![]));
    let c = &s.config.clients[0];
    assert_eq!(c.hostname, Some("pc.local".to_string()));
    assert_eq!(c.peer_fingerprint, Some("cc:dd".to_string()));
    assert_eq!(c.port, 99);
    assert!(c.ips.contains(OTHER) && !c.ips.contains(LAN));
    assert_eq!(c.enter_hook, None);
    assert_eq!(c.leave_hook, Some("bye".to_string()));
    assert!(c.actions.is_empty());
    request(
        &mut s,
        FrontendRequest::UpdatePeerFingerprint(0, Some("   ".to_string())),
    );
    assert_eq!(s.config.clients[0].peer_fingerprint, None);
}

#[test]
fn saved_clients_are_loaded_again() {
    let mut s = service(vec![client(Position::Left, true), client(Position::Top, false)]);
    let mut out = Vec::new();
    s.save_config(&mut out);
    let saved = Config {
        clients: s.config.clients.iter().map(|c| c.copy()).collect(),
        ..config(vec![])
    };
    let t = Service::new(saved, "ff:ff".to_string());
    assert_eq!(t.clients.registered_clients(), vec![0, 1]);
    assert!(is_active(&t, 0));
    let c = t.clients.get_state(0).unwrap();
    assert_eq!(c.config.fix_ips, vec![LAN]);
    assert_eq!(c.config.pos, Position::Left);
    assert_eq!(c.config.actions.len(), 2);
}

#[test]
fn requests_about_the_service() {
    let mut s = service(vec![client(Position::Left, false)]);
    assert!(matches!(
        request(&mut s, FrontendRequest::ChangePort(5000))[0],
        Effect::EmulationPort(5000)
    ));
    assert!(matches!(
        request(&mut s, FrontendRequest::ChangePort(4242))[0],
        Effect::Notify(FrontendEvent::PortChanged(4242, None))
    ));
    assert!(matches!(
        request(&mut s, FrontendRequest::EnableCapture)[0],
        Effect::CaptureReenable
    ));
    assert!(matches!(
        request(&mut s, FrontendRequest::EnableEmulation)[0],
        Effect::EmulationReenable
    ));
    assert!(matches!(
        &request(&mut s, FrontendRequest::Enumerate)[0],
        Effect::Notify(FrontendEvent::Enumerate(c)) if c.len() == 1
    ));
    assert!(matches!(
        request(&mut s, FrontendRequest::ResolveDns(0))[0],
        Effect::Resolve(0, _)
    ));
    assert_eq!(request(&mut s, FrontendRequest::Sync).len(), 8);
    assert!(matches!(
        request(&mut s, FrontendRequest::SaveConfiguration)[0],
        Effect::WriteConfig
    ));
    let out = request(&mut s, FrontendRequest::SetReleaseThreshold(80));
    assert!(matches!(out[0], Effect::CaptureReleaseThreshold(80)));
    assert_eq!(s.config.release_threshold_px, 80);
    let out = request(&mut s, FrontendRequest::SetMdnsDiscovery(false));
    assert!(matches!(out[0], Effect::DiscoverySwitch(false)));
    assert!(!s.config.mdns_discovery);
}

#[test]
fn keys_are_trusted_until_they_are_removed() {
    let mut s = service(vec![]);
    request(
        &mut s,
        FrontendRequest::AuthorizeKey("mac".to_string(), "aa".to_string()),
    );
    assert_eq!(
        s.config.authorized.map.get(&"aa".to_string()),
        Some(&"mac".to_string())
    );
    request(&mut s, FrontendRequest::RemoveAuthorizedKey("aa".to_string()));
    assert_eq!(s.config.authorized.map.get(&"aa".to_string()), None);
}

#[test]
fn a_changed_file_replaces_the_clients() {
    let mut s = service(vec![client(Position::Left, false)]);
    request(&mut s, FrontendRequest::Activate(0, true));
    s.config = config(vec![client(Position::Right, true), client(Position::Top, false)]);
    let mut out = Vec::new();
    s.handle_config_change(&mut out);
    assert_eq!(captures(&out), vec![(false, 0), (true, 1)]);
    assert_eq!(s.clients.registered_clients(), vec![1, 2]);
    assert!(out
        .iter()
        .any(|e| matches!(e, Effect::CaptureReleaseBind(b) if *b == vec![29, 42])));
}

#[test]
fn incoming_connections_have_captures_of_their_own() {
    let mut s = service(vec![]);
    let addr = SocketAddr::new(LAN, 4242);
    let entered = |pos, fp: &str| EmulationEvent::Entered {
        addr,
        pos,
        fingerprint: fp.to_string(),
    };
    let out = emulated(&mut s, entered(Position::Left, "aa"));
    assert!(matches!(
        out[0],
        Effect::CaptureCreate(ENTER_HANDLE_BEGIN, Position::Left, CaptureType::EnterOnly)
    ));
    assert!(matches!(
        out[1],
        Effect::Notify(FrontendEvent::DeviceEntered { .. })
    ));
    assert!(emulated(&mut s, entered(Position::Left, "aa")).is_empty());
    let out = emulated(&mut s, entered(Position::Right, "aa"));
    assert_eq!(
        captures(&out),
        vec![(false, ENTER_HANDLE_BEGIN), (true, ENTER_HANDLE_BEGIN + 1)]
    );
    assert_eq!(out.len(), 4);
    let out = captured(&mut s, ICaptureEvent::CaptureBegin(ENTER_HANDLE_BEGIN + 1));
    assert!(matches!(out[0], Effect::EmulationLeave(a) if a == addr));
    let out = emulated(&mut s, EmulationEvent::Disconnected { addr });
    assert_eq!(captures(&out), vec![(false, ENTER_HANDLE_BEGIN + 1)]);
    assert!(matches!(
        out[1],
        Effect::Notify(FrontendEvent::IncomingDisconnected(_))
    ));
    assert!(emulated(&mut s, EmulationEvent::Disconnected { addr }).is_empty());
}

#[test]
fn addresses_of_peers_become_candidates() {
    let mut s = service(vec![]);
    let mut out = Vec::new();
    let mut cache = FingerprintCache::new();
    let connected = EmulationEvent::Connected {
        addr: SocketAddr::new(LAN, 4242),
        fingerprint: "AA".to_string(),
    };
    s.handle_emulation_event(connected, &mut cache, &mut out);
    assert!(cache.get(&"aa".to_string()).unwrap().contains(LAN));
    assert!(matches!(
        out[0],
        Effect::Notify(FrontendEvent::DeviceConnected { .. })
    ));
}

#[test]
fn emulation_events_are_told() {
    let mut s = service(vec![]);
    let out = emulated(
        &mut s,
        EmulationEvent::ConnectionAttempt { fingerprint: "aa".to_string() },
    );
    assert!(matches!(
        &out[0],
        Effect::Notify(FrontendEvent::ConnectionAttempt { fingerprint }) if fingerprint == "aa"
    ));
    let out = emulated(&mut s, EmulationEvent::PortChanged(Ok(5000)));
    assert!(matches!(out[0], Effect::DiscoveryPort(5000)));
    assert_eq!(s.port, 5000);
    let out = emulated(
        &mut s,
        EmulationEvent::PortChanged(Err("in use".to_string())),
    );
    assert!(matches!(
        &out[0],
        Effect::Notify(FrontendEvent::PortChanged(5000, Some(e))) if e == "in use"
    ));
    emulated(&mut s, EmulationEvent::EmulationEnabled);
    assert_eq!(s.emulation_status, Status::Enabled);
    emulated(&mut s, EmulationEvent::EmulationDisabled);
    assert_eq!(s.emulation_status, Status::Disabled);
    let out = emulated(&mut s, EmulationEvent::ReleaseNotify);
    assert!(matches!(out[0], Effect::CaptureRelease));
}

#[test]
fn builds_are_noted_by_fingerprint_or_address() {
    let mut s = service(vec![client(Position::Left, false)]);
    let hello = |ip, fingerprint: Option<&str>, commit: &[u8; 8]| EmulationEvent::PeerHello {
        addr: SocketAddr::new(ip, 1),
        fingerprint: fingerprint.map(|s| s.to_string()),
        commit: *commit,
    };
    emulated(&mut s, hello(OTHER, Some("AA:BB"), b"11111111"));
    let commit = |s: &Service| s.clients.get_state(0).unwrap().state.peer_commit;
    assert_eq!(commit(&s), Some(*b"11111111"));
    assert!(emulated(&mut s, hello(LAN, None, b"22222222")).is_empty());
    request(&mut s, FrontendRequest::Activate(0, true));
    emulated(&mut s, hello(LAN, Some("zz"), b"22222222"));
    assert_eq!(commit(&s), Some(*b"22222222"));
}

fn runs(effects: &[Effect]) -> Vec<(usize, Option<String>, &'static str)> {
    effects
        .iter()
        .filter_map(|e| match e {
            Effect::Run { actions, cmd, label } => Some((actions.len(), cmd.clone(), *label)),
            _ => None,
        })
        .collect()
}

#[test]
fn enter_actions_run_once() {
    let mut s = service(vec![client(Position::Left, false)]);
    let out = captured(&mut s, ICaptureEvent::CaptureBegin(0));
    assert!(runs(&out).is_empty());
    let out = captured(&mut s, ICaptureEvent::ClientEntered(0));
    assert_eq!(runs(&out), vec![(1, Some("enter".to_string()), "enter")]);

    s.clients
        .set_active_addr(0, Some(SocketAddr::new(LAN, 4242)));
    s.clients.set_alive(0, true);
    assert!(s.client_ready_for_prefire(0));
    let out = captured(&mut s, ICaptureEvent::CaptureBegin(0));
    assert_eq!(runs(&out), vec![(1, None, "prefire enter")]);
    let out = captured(&mut s, ICaptureEvent::ClientEntered(0));
    assert_eq!(runs(&out), vec![(0, Some("enter".to_string()), "enter")]);
    let out = captured(&mut s, ICaptureEvent::ClientLeft(0));
    assert_eq!(runs(&out), vec![(1, None, "leave")]);
    assert_eq!(HookKind::Enter.label(), "enter");
    assert_eq!(HookKind::Leave.action_trigger(), ActionTrigger::Leave);
}

#[test]
fn the_capture_status_is_told() {
    let mut s = service(vec![]);
    let out = captured(&mut s, ICaptureEvent::CaptureEnabled);
    assert!(matches!(
        out[0],
        Effect::Notify(FrontendEvent::CaptureStatus(Status::Enabled))
    ));
    captured(&mut s, ICaptureEvent::CaptureDisabled);
    assert_eq!(s.capture_status, Status::Disabled);
}

#[test]
fn resolved_addresses_join_those_of_the_file() {
    let mut s = service(vec![client(Position::Left, false)]);
    let mut out = Vec::new();
    s.handle_resolver_event(DnsEvent::Resolving(0), &mut out);
    assert!(s.clients.get_state(0).unwrap().state.resolving);
    s.handle_resolver_event(DnsEvent::Resolved(0, "mac.local".to_string(), Ok(vec![OTHER])), &mut out);
    let state = s.clients.get_state(0).unwrap().state;
    assert!(!state.resolving);
    assert!(state.ips.contains(LAN) && state.ips.contains(OTHER));
    s.handle_resolver_event(DnsEvent::Resolved(0, "mac.local".to_string(), Err("no".to_string())), &mut out);
    assert!(!s.clients.get_state(0).unwrap().state.ips.contains(OTHER));
    s.handle_resolver_event(DnsEvent::Resolving(7), &mut out);
    assert!(matches!(
        out.last(),
        Some(Effect::Notify(FrontendEvent::NoSuchClient(7)))
    ));
}

#[test]
fn what_stays_disabled_is_given_up() {
    let mut s = service(vec![]);
    captured(&mut s, ICaptureEvent::CaptureDisabled);
    emulated(&mut s, EmulationEvent::EmulationEnabled);
    let mut out = Vec::new();
    assert_eq!(s.health_check(&mut out), Ok(()));
    assert_eq!(s.health_check(&mut out), Ok(()));
    assert_eq!(s.health_check(&mut out), Err(HealthError::Capture));
    assert_eq!(out.len(), 3);
    assert_eq!(
        HealthError::Capture.message(),
        "capture backend stayed disabled after 3 recovery attempts"
    );
    captured(&mut s, ICaptureEvent::CaptureEnabled);
    emulated(&mut s, EmulationEvent::EmulationDisabled);
    assert_eq!(s.health_check(&mut out), Ok(()));
    assert_eq!(s.capture_recovery_attempts, 0);
    assert_eq!(s.health_check(&mut out), Ok(()));
    assert_eq!(s.health_check(&mut out), Err(HealthError::Emulation));
    assert_eq!(
        HealthError::Emulation.message(),
        "emulation backend stayed disabled after 3 recovery attempts"
    );
}

#[test]
fn unconnected_clients_are_looked_for() {
    let mut bare = client(Position::Left, true);
    bare.ips = IpSet::new();
    bare.peer_fingerprint = Some("CC:DD".to_string());
    let mut nameless = client(Position::Top, true);
    nameless.hostname = None;
    let mut s = service(vec![
        bare,
        client(Position::Right, true),
        nameless,
        client(Position::Bottom, false),
    ]);
    let mut out = Vec::new();
    s.refresh_hostnames(&mut out);
    assert_eq!(out.len(), 2);
    assert!(matches!(&out[0], Effect::Resolve(0, host) if host == "mac.local"));
    assert!(matches!(&out[1], Effect::Resolve(1, _)));
    out.clear();
    s.probe_peers(&mut out);
    assert_eq!(out.len(), 1);
    assert!(matches!(&out[0], Effect::Probe(0, fp) if fp == "cc:dd"));
    s.clients
        .set_active_addr(0, Some(SocketAddr::new(OTHER, 4242)));
    out.clear();
    s.refresh_hostnames(&mut out);
    s.probe_peers(&mut out);
    assert_eq!(out.len(), 1);
    assert!(matches!(&out[0], Effect::Resolve(1, _)));
}

#[test]
fn other_operations_do_not_count_as_checks() {
    let mut s = service(vec![]);
    let mut out = Vec::new();
    s.handle_emulation_event(
        EmulationEvent::EmulationEnabled,
        &mut FingerprintCache::new(),
        &mut out,
    );
    assert_eq!(s.health_check(&mut out), Ok(()));
    s.handle_frontend_request(FrontendRequest::Sync, &mut out);
    s.handle_capture_event(ICaptureEvent::CaptureEnabled, &mut out);
    s.handle_capture_event(ICaptureEvent::CaptureDisabled, &mut out);
    assert_eq!(s.health_check(&mut out), Ok(()));
    s.handle_frontend_request(FrontendRequest::Create, &mut out);
    assert_eq!(s.health_check(&mut out), Err(HealthError::Capture));
    s.handle_frontend_request(FrontendRequest::EnableCapture, &mut out);
    assert_eq!(s.health_check(&mut out), Err(HealthError::Capture));
}

#[test]
fn peers_in_other_scopes_are_other_peers() {
    let mut s = service(vec![]);
    let mut cache = FingerprintCache::new();
    let mut out = Vec::new();
    // fe80::1
    let ip = IpAddr::V6(0xfe80_0000_0000_0000_0000_0000_0000_0001);
    for scope_id in [2, 3] {
        let addr = SocketAddr {
            scope_id,
            ..SocketAddr::new(ip, 4242)
        };
        s.handle_emulation_event(
            EmulationEvent::Entered {
                addr,
                pos: Position::Left,
                fingerprint: "aa".to_string(),
            },
            &mut cache,
            &mut out,
        );
    }
    assert_eq!(s.incoming.entries.len(), 2);
}
