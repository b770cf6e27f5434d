use lan_mouse::collections::AssocMap;
use lan_mouse::discovery::{
    insert_fingerprint_candidate, instance_from_fullname, is_learnable_ip,
    is_usable_candidate_ip, load_last_success_candidates, normalize_fingerprint,
    normalize_mdns_name, now_unix_secs, persist_last_success_candidate,
    strip_bonjour_collision_suffix, strip_trailing_dot, Announcement, Browser, ClockError,
    Discovery, FingerprintCache, LastSuccessEntry, LastSuccessFile, PrimaryCache, PrimaryTxt,
    Resolved, Switch, LAST_SUCCESS_TTL_SECS, SERVICE_TYPE,
};
use lan_mouse::net::{IpAddr, IpSet};

const LAN: IpAddr = IpAddr::V4(0xc0a8_0a9b);
const LINK_LOCAL: IpAddr = IpAddr::V6(0xfe80_0000_0000_0000_0000_0000_0000_0001);

fn is_empty(cache: &FingerprintCache) -> bool {
    cache.map.entries.is_empty()
}

#[test]
fn persists_and_loads_last_success_candidates() {
    let now = 1_700_000_000;
    let mut file = LastSuccessFile::new();
    let mut cache = FingerprintCache::new();

    assert!(persist_last_success_candidate(&mut file, " AA:BB ", LAN, now));
    load_last_success_candidates(&mut cache, &file, now);

    let ips = cache.get(&"aa:bb".to_string()).expect("fingerprint cache entry");
    assert!(ips.contains(LAN));
}

#[test]
fn normalizes_bonjour_collision_suffix() {
    assert_eq!(
        normalize_mdns_name("sangwha-KWEN (2).local."),
        "sangwha-kwen"
    );
}

#[test]
fn skips_link_local_ipv6_candidates() {
    let mut cache = FingerprintCache::new();
    insert_fingerprint_candidate(&mut cache, "aa:bb", LINK_LOCAL);
    assert!(is_empty(&cache));
}

#[test]
fn ignores_expired_last_success_candidates() {
    let now = 1_700_000_000;
    let stale = now - LAST_SUCCESS_TTL_SECS - 1;
    let mut ips = IpSet::new();
    ips.insert(LAN);
    let mut file = LastSuccessFile::new();
    file.fingerprints.insert(
        "aa:bb".to_string(),
        LastSuccessEntry::Timed { ips, updated_at_unix: stale },
    );

    let mut cache = FingerprintCache::new();
    load_last_success_candidates(&mut cache, &file, now);
    assert!(is_empty(&cache));
}

#[test]
fn entries_without_a_time_are_loaded() {
    let mut ips = IpSet::new();
    ips.insert(LAN);
    let mut file = LastSuccessFile::new();
    file.fingerprints
        .insert("aa:bb".to_string(), LastSuccessEntry::Legacy(ips));
    let mut cache = FingerprintCache::new();
    load_last_success_candidates(&mut cache, &file, u64::MAX);
    assert!(cache.get(&"aa:bb".to_string()).unwrap().contains(LAN));
}

#[test]
fn an_entry_lasts_for_its_time() {
    let entry = LastSuccessEntry::Timed { ips: IpSet::new(), updated_at_unix: 100 };
    assert!(!entry.is_expired(100 + LAST_SUCCESS_TTL_SECS));
    assert!(entry.is_expired(101 + LAST_SUCCESS_TTL_SECS));
    assert!(!entry.is_expired(0));
}

#[test]
fn nothing_is_remembered_of_unusable_peers() {
    let mut file = LastSuccessFile::new();
    assert!(!persist_last_success_candidate(&mut file, "   ", LAN, 1));
    assert!(!persist_last_success_candidate(&mut file, "aa", LINK_LOCAL, 1));
    // 100.64.0.1
    assert!(!persist_last_success_candidate(&mut file, "aa", IpAddr::V4(0x6440_0001), 1));
    assert!(file.fingerprints.entries.is_empty());
}

#[test]
fn fingerprints_and_names_are_normalised() {
    assert_eq!(normalize_fingerprint("  Ab:CD\n"), "ab:cd");
    assert_eq!(strip_trailing_dot("foo.local."), "foo.local");
    assert_eq!(strip_trailing_dot("foo"), "foo");
    assert_eq!(strip_trailing_dot("foo.."), "foo.");
    assert_eq!(strip_bonjour_collision_suffix("mac (12)"), "mac");
    assert_eq!(strip_bonjour_collision_suffix("mac (x)"), "mac (x)");
    assert_eq!(strip_bonjour_collision_suffix("mac ()"), "mac");
    assert_eq!(
        instance_from_fullname("mac._lan-mouse._udp.local.", SERVICE_TYPE),
        "mac"
    );
    assert_eq!(instance_from_fullname("mac", SERVICE_TYPE), "mac");
    assert_eq!(normalize_mdns_name("Mac"), "mac");
    assert_eq!(normalize_mdns_name("mac.local"), "mac");
}

#[test]
fn addresses_that_may_be_kept() {
    assert!(is_usable_candidate_ip(LAN));
    assert!(!is_usable_candidate_ip(LINK_LOCAL));
    assert!(is_learnable_ip(LAN));
    assert!(!is_learnable_ip(LINK_LOCAL));
    // 100.64.0.1
    assert!(!is_learnable_ip(IpAddr::V4(0x6440_0001)));
    // 127.0.0.1
    assert!(!is_learnable_ip(IpAddr::V4(0x7f00_0001)));
    // 169.254.1.1
    assert!(!is_learnable_ip(IpAddr::V4(0xa9fe_0101)));
    // 224.0.0.251
    assert!(!is_learnable_ip(IpAddr::V4(0xe000_00fb)));
    // ::1
    assert!(!is_learnable_ip(IpAddr::V6(1)));
    // 2001:db8::1
    assert!(is_learnable_ip(IpAddr::V6(0x2001_0db8_0000_0000_0000_0000_0000_0001)));
}

#[test]
fn the_clock_counts_whole_seconds() {
    assert!(matches!(now_unix_secs(Some(1_999_999_999)), Ok(1)));
    assert!(matches!(now_unix_secs(None), Err(ClockError::BeforeEpoch)));
}

#[test]
fn the_service_is_registered_under_its_full_name() {
    let mut d = Discovery::new(4242, true, true, true, "aa:bb".to_string());
    let r = d.register("mac", Some(0xc0a8_0a9b), &vec![]).expect("a registration");
    assert_eq!(r.fullname, "mac._lan-mouse._udp.local.");
    assert_eq!(r.host, "mac");
    assert_eq!(r.host_record, "mac.local.");
    assert_eq!(r.primary_text, "192.168.10.155");
    assert_eq!(r.fingerprint, "aa:bb");
    assert_eq!(r.unregister, None);
    d.registered(r, true);
    assert!(d.register("mac", Some(0xc0a8_0a9b), &vec![]).is_none());
    assert!(d.set_port(4243));
    let r = d.register("mac", Some(0xc0a8_0a9b), &vec![]).expect("a refresh");
    assert_eq!(r.port, 4243);
    assert_eq!(
        r.unregister,
        Some("mac._lan-mouse._udp.local.".to_string())
    );
}

#[test]
fn every_usable_address_is_advertised() {
    let mut d = Discovery::new(4242, true, true, true, "aa:bb".to_string());
    // 192.168.10.155, 127.0.0.1, 100.64.0.1 and 10.0.0.7
    let lan = vec![0xc0a8_0a9b, 0x7f00_0001, 0x6440_0001, 0x0a00_0007];
    let r = d.register("mac", Some(0xc0a8_0a9b), &lan).expect("a registration");
    assert_eq!(r.fullname, "mac._lan-mouse._udp.local.");
    assert_eq!(r.addresses.ips, vec![IpAddr::V4(0x0a00_0007), LAN]);
    d.registered(r, true);
    assert!(d.register("mac", Some(0xc0a8_0a9b), &lan).is_none());
    assert!(d.register("mac", Some(0xc0a8_0a9b), &vec![0x0a00_0007]).is_none());
    let r = d.register("mac", Some(0xc0a8_0a9b), &vec![]).expect("a refresh");
    assert_eq!(r.addresses.ips, vec![LAN]);
    d.registered(r, false);
    assert!(d.register("mac", Some(0xc0a8_0a9b), &vec![]).is_some());
}

#[test]
fn an_unusable_primary_address_is_not_advertised() {
    let mut d = Discovery::new(4242, true, true, true, "aa:bb".to_string());
    // 100.64.0.1 and 10.0.0.7
    let r = d.register("mac", Some(0x6440_0001), &vec![0x6440_0001, 0x0a00_0007]);
    let r = r.expect("a registration");
    assert_eq!(r.primary_text, "100.64.0.1");
    assert_eq!(r.addresses.ips, vec![IpAddr::V4(0x0a00_0007)]);
    let mut d = Discovery::new(4242, true, true, true, "aa:bb".to_string());
    let r = d.register("mac", Some(0x6440_0001), &vec![]).expect("a registration");
    assert!(r.addresses.is_empty());
}

#[test]
fn dots_in_an_instance_are_escaped() {
    let mut d = Discovery::new(4242, true, true, true, "aa:bb".to_string());
    let r = d.register("my.mac", Some(1), &vec![]).expect("a registration");
    assert_eq!(r.fullname, "my\\.mac._lan-mouse._udp.local.");
}

#[test]
fn without_a_daemon_nothing_is_registered() {
    let mut d = Discovery::inert(4242, "aa".to_string());
    assert!(d.register("mac", Some(1), &vec![]).is_none());
    let mut d = Discovery::new(4242, false, true, true, "aa".to_string());
    assert!(d.register("mac", Some(1), &vec![]).is_none());
    let mut d = Discovery::new(4242, true, true, true, "aa".to_string());
    assert!(d.register("mac", None, &vec![]).is_none());
}

#[test]
fn discovery_is_switched() {
    let mut d = Discovery::inert(4242, "aa".to_string());
    assert!(matches!(d.set_enabled(false), Switch::Nothing));
    assert!(matches!(d.set_enabled(true), Switch::Start));
    let mut d = Discovery::new(4242, true, true, true, "aa".to_string());
    let r = d.register("mac", Some(1), &vec![]).expect("a registration");
    d.registered(r, true);
    match d.shutdown() {
        Switch::Stop { unregister } => {
            assert_eq!(unregister, Some("mac._lan-mouse._udp.local.".to_string()))
        }
        _ => panic!("a running daemon is stopped"),
    }
    assert!(matches!(d.shutdown(), Switch::Nothing));
}

fn announcement(fullname: &str, primary: PrimaryTxt, fingerprint: &str) -> Resolved {
    Resolved {
        fullname: fullname.to_string(),
        hostname: "mac.local.".to_string(),
        port: 4242,
        primary,
        fingerprint: Some(fingerprint.to_string()),
        addresses: vec![LAN, LINK_LOCAL],
    }
}

#[test]
fn announcements_of_peers_are_remembered() {
    let mut browser = Browser::new("FF", "pc");
    let mut primaries: PrimaryCache = AssocMap::new();
    let mut fingerprints = FingerprintCache::new();
    let r = announcement("Mac._lan-mouse._udp.local.", PrimaryTxt::Address(LAN), "AA");
    assert_eq!(
        browser.resolved(&r, &mut primaries, &mut fingerprints),
        Announcement::News
    );
    assert_eq!(
        browser.resolved(&r, &mut primaries, &mut fingerprints),
        Announcement::Refresh
    );
    assert_eq!(primaries.get(&"mac".to_string()), Some(&LAN));
    let ips = fingerprints.get(&"aa".to_string()).unwrap();
    assert!(ips.contains(LAN));
    assert!(!ips.contains(LINK_LOCAL));
}

#[test]
fn other_announcements_are_passed_over() {
    let mut browser = Browser::new("FF", "pc");
    let mut primaries: PrimaryCache = AssocMap::new();
    let mut fingerprints = FingerprintCache::new();
    let own = announcement("pc._lan-mouse._udp.local.", PrimaryTxt::Address(LAN), "ff");
    assert_eq!(
        browser.resolved(&own, &mut primaries, &mut fingerprints),
        Announcement::Own
    );
    let r = announcement("x._lan-mouse._udp.local.", PrimaryTxt::Malformed, "AA");
    assert_eq!(
        browser.resolved(&r, &mut primaries, &mut fingerprints),
        Announcement::MalformedPrimary
    );
    let r = announcement("x._lan-mouse._udp.local.", PrimaryTxt::Absent, "BB");
    assert_eq!(
        browser.resolved(&r, &mut primaries, &mut fingerprints),
        Announcement::NoPrimary
    );
    assert!(primaries.entries.is_empty());
}
