use lan_mouse::discovery::{PrimaryTxt, Resolved};
use lan_mouse::ipc::{ActionTrigger, ClientAction, KeyRing, Position};
use lan_mouse::net::IpAddr;
use lan_mouse::pairing::{
    ddc_actions, discover_command, is_text_before, pair_command, paired_line, BrowseEvent,
    DiscoverArgs, DiscoveredPeer, PairArgs, Peers,
};
use lan_mouse::service::Config;

const LAN: IpAddr = IpAddr::V4(0xc0a8_0a9b);
const OTHER: IpAddr = IpAddr::V4(0xc0a8_0a02);

fn resolved(instance: &str, fingerprint: Option<&str>) -> BrowseEvent {
    BrowseEvent::Resolved(Resolved {
        fullname: format!("{instance}._lan-mouse._udp.local."),
        hostname: format!("{instance}.local."),
        port: 5000,
        primary: PrimaryTxt::Address(OTHER),
        fingerprint: fingerprint.map(|s| s.to_string()),
        addresses: vec![LAN, OTHER, LAN],
    })
}

fn peers(events: &[BrowseEvent]) -> Vec<DiscoveredPeer> {
    let mut peers = Peers::new();
    for e in events {
        peers.handle(e);
    }
    peers.sorted()
}

fn config() -> Config {
    Config {
        clients: vec![],
        authorized: KeyRing::new(),
        release_bind: vec![],
        release_threshold_px: 0,
        mdns_discovery: false,
        port: 4242,
    }
}

fn args(key: &str) -> PairArgs {
    PairArgs::new(key.to_string(), Position::Right)
}

#[test]
fn peers_are_listed_by_instance() {
    let found = peers(&[
        resolved("mac", Some(" AA ")),
        resolved("air", None),
        resolved("mac", Some("BB")),
        BrowseEvent::Other,
    ]);
    assert_eq!(found.len(), 2);
    assert_eq!(found[0].instance, "air");
    assert_eq!(found[0].fingerprint, None);
    assert_eq!(found[1].instance, "mac");
    assert_eq!(found[1].hostname, "mac.local");
    assert_eq!(found[1].fingerprint, Some("bb".to_string()));
    assert_eq!(found[1].primary, Some(OTHER));
    assert_eq!(found[1].addresses, vec![OTHER, LAN]);
    assert!(!Peers::new().handle(&BrowseEvent::Closed));
}

#[test]
fn texts_are_ordered_by_character() {
    assert!(is_text_before("a", "b"));
    assert!(is_text_before("a", "aa"));
    assert!(is_text_before("", "a"));
    assert!(is_text_before("B", "a"));
    assert!(!is_text_before("a", "a"));
    assert!(!is_text_before("b", "aa"));
}

#[test]
fn discovered_peers_are_printed() {
    let found = peers(&[resolved("mac", Some("aa"))]);
    let args = DiscoverArgs::default();
    assert_eq!(args.timeout_ms, 2500);
    assert_eq!(
        discover_command(args, &found),
        Some(vec![
            "mac host=mac.local port=5000 fp=aa primary=192.168.10.2 \
             addrs=[192.168.10.2, 192.168.10.155]"
                .to_string()
        ])
    );
    let mut bare = peers(&[resolved("mac", None)]);
    bare[0].primary = None;
    assert_eq!(
        discover_command(args, &bare).unwrap()[0],
        "mac host=mac.local port=5000 fp=- primary=- addrs=[192.168.10.2, 192.168.10.155]"
    );
    assert_eq!(
        discover_command(args, &vec![]),
        Some(vec!["no lan-mouse peers discovered".to_string()])
    );
    assert_eq!(
        discover_command(DiscoverArgs { json: true, ..args }, &found),
        None
    );
}

#[test]
fn a_discovered_peer_is_paired() {
    let found = peers(&[resolved("air", Some("cc")), resolved("mac", Some("aa"))]);
    let mut config = config();
    assert_eq!(pair_command(&mut config, args(" AA "), &found), Some(1));
    assert_eq!(config.clients.len(), 1);
    let c = &config.clients[0];
    assert_eq!(c.peer_fingerprint, Some("aa".to_string()));
    assert_eq!(c.hostname, Some("mac.local".to_string()));
    assert_eq!(c.port, 5000);
    assert_eq!(c.pos, Position::Right);
    assert!(c.active && c.ips.is_empty());
    assert_eq!(config.port, 5000);
    assert!(config.mdns_discovery);
    assert_eq!(
        config.authorized.map.get(&"aa".to_string()),
        Some(&"mac".to_string())
    );
    assert_eq!(
        paired_line(Some(&found[1]), "aa", "\"config.toml\""),
        "paired mac (mac.local) by fingerprint aa; config=\"config.toml\""
    );
}

#[test]
fn pairing_again_replaces_the_client() {
    let mut config = config();
    assert_eq!(pair_command(&mut config, args("aa"), &vec![]), None);
    assert_eq!(pair_command(&mut config, args("bb"), &vec![]), None);
    let mut again = args("AA");
    again.position = Position::Top;
    again.hostname = Some("mine".to_string());
    again.ddc_monitor = Some("dell".to_string());
    again.ddc_enter_input = Some(15);
    pair_command(&mut config, again, &vec![]);
    assert_eq!(config.clients.len(), 2);
    assert_eq!(config.clients[0].pos, Position::Top);
    assert_eq!(config.clients[0].hostname, Some("mine".to_string()));
    assert_eq!(config.clients[0].actions.len(), 1);
    assert_eq!(config.clients[1].peer_fingerprint, Some("bb".to_string()));
    assert_eq!(config.port, 4242);
    assert_eq!(
        paired_line(None, "aa", "x"),
        "paired fingerprint aa; no matching mDNS peer was seen during discovery; config=x"
    );
}

#[test]
fn a_monitor_is_needed_for_switching() {
    assert!(ddc_actions(None, 0x60, Some(1), Some(2)).is_empty());
    let actions = ddc_actions(Some("dell".to_string()), 0x60, Some(1), Some(2));
    assert_eq!(actions.len(), 2);
    let ClientAction::DdcVcp { on, monitor, code, value } = &actions[1];
    assert_eq!((*on, *code, *value), (ActionTrigger::Leave, 0x60, 2));
    assert_eq!(*monitor, Some("dell".to_string()));
    assert!(ddc_actions(Some("dell".to_string()), 0x60, None, None).is_empty());
}

#[test]
fn without_discovery_no_peer_is_matched() {
    let found = peers(&[resolved("mac", Some("aa"))]);
    let mut config = config();
    let mut args = args("aa");
    args.no_discover = true;
    assert_eq!(pair_command(&mut config, args, &found), None);
    assert_eq!(config.clients[0].hostname, None);
    assert_eq!(config.clients[0].port, 4242);
}
