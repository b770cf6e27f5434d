use std::collections::HashMap;

use lan_mouse::client::ClientManager;
use lan_mouse::collections::AssocMap;
use lan_mouse::connect::{
    after_ping, arm_capture, check_answer, clear_attempt_state, connect_to_handle, connected, disconnect,
    discovery_hint_for, ensure_connected, is_connected, is_droppable_inbound_event, is_ready,
    other_addrs, race_step, receive, receiving_goes_on, record_attempt_failure,
    record_attempt_failure_with_signature, reserve_attempt, reserve_attempt_slot, send,
    signature_of, start_race, verify_peer_certificate, Arming, ConnectPlan, ConnectionAttemptState,
    Connections, Delivery, EnsurePlan, PingResponses, PingStep, RaceEvent, RaceStep, ReceiveStep,
    SendPlan, INITIAL_RETRY_BACKOFF, MAX_RETRY_BACKOFF,
};
use lan_mouse::discovery::{insert_fingerprint_candidate, FingerprintCache, PrimaryCache};
use lan_mouse::input::{Event, F64Bits, KeyboardEvent, PointerEvent, BTN_LEFT};
use lan_mouse::net::{IpAddr, IpSet, SocketAddr};
use lan_mouse::proto::{ProtoEvent, MAX_EVENT_SIZE};

const LOCALHOST: IpAddr = IpAddr::V4(0x7f00_0001);
const LAN: IpAddr = IpAddr::V4(0xc0a8_0a9b);
const OTHER: IpAddr = IpAddr::V4(0xc0a8_0a02);

fn from_millis(ms: u64) -> u64 {
    ms * 1_000_000
}

fn attempts() -> HashMap<u64, ConnectionAttemptState> {
    HashMap::new()
}

fn set(ips: &[IpAddr]) -> IpSet {
    let mut s = IpSet::new();
    for ip in ips {
        s.insert(*ip);
    }
    s
}

/// A manager with one client of the fingerprint and the address.
fn one_client(ip: IpAddr) -> (ClientManager, u64) {
    let mut manager = ClientManager::new();
    let handle = manager.add_client();
    manager.set_fix_ips(handle, vec![ip]);
    manager.set_peer_fingerprint(handle, Some("AA:BB".to_string()));
    (manager, handle)
}

#[test]
fn attempt_slot_rejects_duplicate_while_connecting() {
    let mut attempts = attempts();
    let now = from_millis(1);

    assert!(reserve_attempt_slot(&mut attempts, 7, 11, now));
    assert!(!reserve_attempt_slot(&mut attempts, 7, 11, now));
    assert!(attempts.get(&7).is_some_and(|state| state.connecting));
}

#[test]
fn attempt_failure_sets_backoff_and_allows_after_cooldown() {
    let mut attempts = attempts();
    let now = from_millis(1);

    assert!(reserve_attempt_slot(&mut attempts, 7, 11, now));
    record_attempt_failure_with_signature(&mut attempts, 7, 11, now);

    assert!(!reserve_attempt_slot(
        &mut attempts,
        7,
        11,
        now + from_millis(500)
    ));
    assert!(reserve_attempt_slot(
        &mut attempts,
        7,
        11,
        now + INITIAL_RETRY_BACKOFF
    ));
}

#[test]
fn attempt_signature_change_bypasses_backoff() {
    let mut attempts = attempts();
    let now = from_millis(1);

    assert!(reserve_attempt_slot(&mut attempts, 7, 11, now));
    record_attempt_failure_with_signature(&mut attempts, 7, 11, now);

    assert!(reserve_attempt_slot(
        &mut attempts,
        7,
        12,
        now + from_millis(100)
    ));
    let state = attempts.get(&7).expect("attempt state");
    assert_eq!(state.signature, 12);
    assert_eq!(state.backoff, INITIAL_RETRY_BACKOFF);
    assert!(state.connecting);
}

#[test]
fn only_pointer_motion_is_droppable_under_backpressure() {
    assert!(is_droppable_inbound_event(&ProtoEvent::Input(
        Event::Pointer(PointerEvent::Motion {
            time: 0,
            dx: F64Bits(1.0f64.to_bits()),
            dy: F64Bits(1.0f64.to_bits()),
        })
    )));
    assert!(!is_droppable_inbound_event(&ProtoEvent::Input(
        Event::Pointer(PointerEvent::Button {
            time: 0,
            button: BTN_LEFT,
            state: 0,
        })
    )));
    assert!(!is_droppable_inbound_event(&ProtoEvent::Input(
        Event::Keyboard(KeyboardEvent::Key {
            time: 0,
            key: 30,
            state: 0,
        })
    )));
    assert!(!is_droppable_inbound_event(&ProtoEvent::Leave(0)));
}

#[test]
fn send_failure_is_returned_to_caller() {
    let mut manager = ClientManager::new();
    let handle = manager.add_client();
    manager.set_alive(handle, true);
    let addr = SocketAddr::new(LOCALHOST, 4242);
    manager.set_active_addr(handle, Some(addr));
    manager.set_fix_ips(handle, vec![addr.ip]);
    let mut conns: Connections = AssocMap::new();
    conns.insert(addr, 1);

    // The transport of this connection fails.
    let failed = match send(&manager, &conns, ProtoEvent::Ping, handle) {
        SendPlan::Transmit { addr, connection, buf, len } => {
            assert_eq!(&buf[..len], &[6]);
            (addr, connection)
        }
        _ => panic!("send should be tried"),
    };
    assert_eq!(failed, (addr, 1));
    assert!(disconnect(&mut manager, &mut conns, handle, failed.0, failed.1));
    assert!(!is_connected(&manager, &conns, handle));
    assert!(matches!(
        send(&manager, &conns, ProtoEvent::Ping, handle),
        SendPlan::NotConnected
    ));
}

#[test]
fn backoff_doubles_up_to_the_maximum() {
    let mut attempts = attempts();
    let mut now = 0;
    let mut pauses = Vec::new();
    for _ in 0..7 {
        assert!(reserve_attempt_slot(&mut attempts, 7, 11, now));
        record_attempt_failure_with_signature(&mut attempts, 7, 11, now);
        let next = u64::try_from(attempts[&7].next_attempt_at).unwrap();
        pauses.push((next - now) / 1_000_000_000);
        now = next;
    }
    assert_eq!(pauses, vec![1, 2, 4, 8, 16, 30, 30]);
    assert_eq!(attempts[&7].backoff, MAX_RETRY_BACKOFF);
    clear_attempt_state(&mut attempts, 7);
    assert!(reserve_attempt_slot(&mut attempts, 7, 11, now));
}

#[test]
fn a_failure_at_the_end_of_time_imposes_its_pause() {
    let mut attempts = attempts();
    record_attempt_failure_with_signature(&mut attempts, 7, 11, u64::MAX);
    assert_eq!(
        attempts[&7].next_attempt_at,
        u128::from(u64::MAX) + u128::from(INITIAL_RETRY_BACKOFF)
    );
    assert!(!reserve_attempt_slot(&mut attempts, 7, 11, u64::MAX));
}

#[test]
fn attempts_of_clients_are_independent() {
    let mut attempts = attempts();
    assert!(reserve_attempt_slot(&mut attempts, 7, 11, 0));
    assert!(reserve_attempt_slot(&mut attempts, 8, 11, 0));
}

#[test]
fn signatures_tell_address_sets_apart() {
    let a = signature_of(&set(&[LAN, OTHER]), None);
    assert_eq!(a, signature_of(&set(&[OTHER, LAN]), None));
    assert_ne!(a, signature_of(&set(&[LAN]), None));
    assert_ne!(a, signature_of(&set(&[LAN, OTHER]), Some(LAN)));
    let mut attempts = attempts();
    record_attempt_failure(&mut attempts, 7, &set(&[LAN]), None, 5);
    assert_eq!(attempts[&7].signature, signature_of(&set(&[LAN]), None));
}

#[test]
fn the_hint_prefers_the_fingerprint() {
    let (mut manager, handle) = one_client(LAN);
    manager.set_hostname(handle, Some("Mac.local.".to_string()));
    let mut primaries: PrimaryCache = AssocMap::new();
    let mut fingerprints = FingerprintCache::new();
    assert_eq!(
        discovery_hint_for(&manager, handle, &primaries, &fingerprints),
        None
    );
    primaries.insert("mac".to_string(), LAN);
    assert_eq!(
        discovery_hint_for(&manager, handle, &primaries, &fingerprints),
        Some(LAN)
    );
    insert_fingerprint_candidate(&mut fingerprints, "aa:bb", OTHER);
    assert_eq!(
        discovery_hint_for(&manager, handle, &primaries, &fingerprints),
        Some(OTHER)
    );
    manager.set_peer_fingerprint(handle, Some("cc".to_string()));
    assert_eq!(
        discovery_hint_for(&manager, handle, &primaries, &fingerprints),
        Some(LAN)
    );
}

#[test]
fn a_client_is_dialed_at_all_its_addresses() {
    let (manager, handle) = one_client(LAN);
    let primaries: PrimaryCache = AssocMap::new();
    let mut fingerprints = FingerprintCache::new();
    insert_fingerprint_candidate(&mut fingerprints, "aa:bb", OTHER);
    let mut attempts = attempts();
    match connect_to_handle(&manager, &mut attempts, handle, &primaries, &fingerprints, 0) {
        ConnectPlan::Dial { addrs, preferred, fingerprint, .. } => {
            assert_eq!(
                addrs,
                vec![SocketAddr::new(OTHER, 4242), SocketAddr::new(LAN, 4242)]
            );
            assert_eq!(preferred, Some(SocketAddr::new(OTHER, 4242)));
            assert_eq!(fingerprint, "aa:bb");
            assert_eq!(
                other_addrs(&addrs, preferred),
                vec![SocketAddr::new(LAN, 4242)]
            );
        }
        _ => panic!("the client should be dialed"),
    }
}

#[test]
fn an_attempt_without_fingerprint_or_address_has_failed() {
    let primaries: PrimaryCache = AssocMap::new();
    let fingerprints = FingerprintCache::new();
    let mut attempts = attempts();
    let (mut manager, handle) = one_client(LAN);
    manager.set_peer_fingerprint(handle, None);
    assert!(matches!(
        connect_to_handle(&manager, &mut attempts, handle, &primaries, &fingerprints, 0),
        ConnectPlan::Refuse
    ));
    assert_eq!(attempts[&handle].next_attempt_at, u128::from(INITIAL_RETRY_BACKOFF));
    let (mut manager, handle) = one_client(LAN);
    manager.set_fix_ips(handle, vec![]);
    assert!(matches!(
        connect_to_handle(&manager, &mut attempts, handle, &primaries, &fingerprints, 0),
        ConnectPlan::NothingToDial
    ));
    assert!(matches!(
        connect_to_handle(&manager, &mut attempts, 99, &primaries, &fingerprints, 0),
        ConnectPlan::NoClient
    ));
}

#[test]
fn a_connected_client_has_to_answer_before_it_is_ready() {
    let (mut manager, handle) = one_client(LAN);
    let addr = SocketAddr::new(LAN, 4242);
    let mut conns: Connections = AssocMap::new();
    let mut attempts = attempts();
    let mut fingerprints = FingerprintCache::new();
    let primaries: PrimaryCache = AssocMap::new();
    assert!(reserve_attempt(&manager, &mut attempts, handle, &primaries, &fingerprints, 0));
    let (buf, len) = connected(
        &mut manager,
        &mut conns,
        &mut attempts,
        &mut fingerprints,
        handle,
        addr,
        1,
        "AA:BB",
        *b"0123abcd",
    );
    assert_eq!(&buf[..len], b"\x0e0123abcd");
    assert!(attempts.is_empty());
    assert!(fingerprints.get(&"aa:bb".to_string()).unwrap().contains(LAN));
    assert!(is_connected(&manager, &conns, handle));
    assert!(!is_ready(&manager, &conns, handle));
    assert!(matches!(
        send(&manager, &conns, ProtoEvent::Ping, handle),
        SendPlan::TargetEmulationDisabled
    ));

    let mut responses: PingResponses = AssocMap::new();
    let expected = Some("aa:bb".to_string());
    let step = receive(&mut manager, &mut responses, handle, addr, &expected, &[7, 1]);
    assert!(matches!(step, ReceiveStep::Noted));
    assert!(is_ready(&manager, &conns, handle));
    assert!(check_answer(&mut responses, addr));
    assert!(!check_answer(&mut responses, addr));
    assert_eq!(
        ensure_connected(&manager, &conns, &mut attempts, handle, &primaries, &fingerprints, 0),
        EnsurePlan::Connected
    );
}

#[test]
fn an_unconnected_client_is_connected_once() {
    let (manager, handle) = one_client(LAN);
    let conns: Connections = AssocMap::new();
    let mut attempts = attempts();
    let fingerprints = FingerprintCache::new();
    let primaries: PrimaryCache = AssocMap::new();
    let mut plan = || {
        ensure_connected(&manager, &conns, &mut attempts, handle, &primaries, &fingerprints, 0)
    };
    assert_eq!(plan(), EnsurePlan::Connect);
    assert_eq!(plan(), EnsurePlan::Wait);
}

#[test]
fn nothing_is_started_without_an_address() {
    let mut manager = ClientManager::new();
    let handle = manager.add_client();
    manager.set_peer_fingerprint(handle, Some("aa:bb".to_string()));
    let conns: Connections = AssocMap::new();
    let mut attempts = attempts();
    let mut fingerprints = FingerprintCache::new();
    let primaries: PrimaryCache = AssocMap::new();
    assert_eq!(
        ensure_connected(&manager, &conns, &mut attempts, handle, &primaries, &fingerprints, 0),
        EnsurePlan::Wait
    );
    assert_eq!(
        arm_capture(&manager, &conns, &mut attempts, handle, &primaries, &fingerprints, 0),
        Arming::NotArmed
    );
    assert!(attempts.is_empty());
    insert_fingerprint_candidate(&mut fingerprints, "aa:bb", LAN);
    assert_eq!(
        ensure_connected(&manager, &conns, &mut attempts, handle, &primaries, &fingerprints, 0),
        EnsurePlan::Connect
    );
}

#[test]
fn capture_is_not_armed_during_a_pause() {
    let (mut manager, handle) = one_client(LAN);
    let mut conns: Connections = AssocMap::new();
    let mut attempts = attempts();
    let fingerprints = FingerprintCache::new();
    let primaries: PrimaryCache = AssocMap::new();
    assert_eq!(
        arm_capture(&manager, &conns, &mut attempts, handle, &primaries, &fingerprints, 0),
        Arming::Connect
    );
    assert_eq!(
        arm_capture(&manager, &conns, &mut attempts, handle, &primaries, &fingerprints, 1),
        Arming::Await
    );
    record_attempt_failure(&mut attempts, handle, &set(&[LAN]), None, 2);
    assert_eq!(
        arm_capture(&manager, &conns, &mut attempts, handle, &primaries, &fingerprints, 3),
        Arming::NotArmed
    );
    assert_eq!(
        arm_capture(
            &manager,
            &conns,
            &mut attempts,
            handle,
            &primaries,
            &fingerprints,
            2 + INITIAL_RETRY_BACKOFF
        ),
        Arming::Connect
    );
    let addr = SocketAddr::new(LAN, 4242);
    conns.insert(addr, 1);
    manager.set_active_addr(handle, Some(addr));
    assert_eq!(
        arm_capture(&manager, &conns, &mut attempts, handle, &primaries, &fingerprints, 9),
        Arming::Await
    );
    manager.set_alive(handle, true);
    assert_eq!(
        arm_capture(&manager, &conns, &mut attempts, handle, &primaries, &fingerprints, 9),
        Arming::Ready
    );
}

#[test]
fn a_replaced_connection_does_not_take_the_new_one_away() {
    let (mut manager, handle) = one_client(LAN);
    let addr = SocketAddr::new(LAN, 4242);
    let mut conns: Connections = AssocMap::new();
    conns.insert(addr, 2);
    assert!(!disconnect(&mut manager, &mut conns, handle, addr, 1));
    assert!(conns.contains_key(&addr));
}

#[test]
fn datagrams_are_told_apart() {
    let (mut manager, handle) = one_client(LAN);
    let addr = SocketAddr::new(LAN, 4242);
    let mut responses: PingResponses = AssocMap::new();
    let expected = Some("aa:bb".to_string());
    let step = receive(&mut manager, &mut responses, handle, addr, &expected, &[9, 0, 0, 0, 0]);
    assert!(matches!(
        step,
        ReceiveStep::Forward { event: ProtoEvent::Leave(0), may_drop: false }
    ));
    let motion = ProtoEvent::Input(Event::Pointer(PointerEvent::Motion {
        time: 0,
        dx: F64Bits(0),
        dy: F64Bits(0),
    }));
    let (buf, len): ([u8; MAX_EVENT_SIZE], usize) = motion.into();
    let step = receive(&mut manager, &mut responses, handle, addr, &expected, &buf[..len]);
    assert!(matches!(step, ReceiveStep::Forward { may_drop: true, .. }));
    let step = receive(&mut manager, &mut responses, handle, addr, &expected, &[200]);
    assert!(matches!(step, ReceiveStep::Undecodable));
    let other = Some("cc:dd".to_string());
    let step = receive(&mut manager, &mut responses, handle, addr, &other, &[7, 1]);
    assert!(matches!(step, ReceiveStep::Stale));
    assert!(!manager.alive(handle));
    let step = receive(
        &mut manager,
        &mut responses,
        handle,
        addr,
        &expected,
        b"\x0e0123abcd",
    );
    assert!(matches!(step, ReceiveStep::Noted));
    assert_eq!(
        manager.get_state(handle).unwrap().state.peer_commit,
        Some(*b"0123abcd")
    );
}

#[test]
fn peers_with_another_certificate_are_refused() {
    assert_eq!(verify_peer_certificate("aa", Some("aa")), Ok(()));
    assert_eq!(
        verify_peer_certificate("aa", None),
        Err("peer did not present a certificate".to_string())
    );
    assert_eq!(
        verify_peer_certificate("aa", Some("bb")),
        Err("peer fingerprint mismatch: expected aa, got bb".to_string())
    );
}

#[test]
fn the_preferred_address_has_a_head_start() {
    let (race, step) = start_race(true, 2);
    assert_eq!(step, RaceStep::DialPreferred);
    let (race, step) = race_step(race, RaceEvent::Failed);
    assert_eq!(step, RaceStep::Wait);
    let (race, step) = race_step(race, RaceEvent::HeadStartOver);
    assert_eq!(step, RaceStep::DialOthers);
    let (race, step) = race_step(race, RaceEvent::Failed);
    assert_eq!(step, RaceStep::Wait);
    let (_, won) = race_step(race, RaceEvent::Succeeded);
    assert_eq!(won, RaceStep::Take);
    let (_, lost) = race_step(race, RaceEvent::Failed);
    assert_eq!(lost, RaceStep::NotConnected);
    assert_eq!(start_race(false, 0).1, RaceStep::NotConnected);
    assert_eq!(start_race(false, 3).1, RaceStep::DialOthers);
}

#[test]
fn pings_come_in_rounds() {
    assert_eq!(after_ping(1, true), PingStep::Next);
    assert_eq!(after_ping(4, true), PingStep::WaitAndCheck);
    assert_eq!(after_ping(2, false), PingStep::CloseAndCheck);
}

#[test]
fn receiving_ends_when_nobody_listens() {
    assert!(receiving_goes_on(Delivery::Delivered));
    assert!(receiving_goes_on(Delivery::Full));
    assert!(!receiving_goes_on(Delivery::Closed));
}
