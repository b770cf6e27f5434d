use lan_mouse::dns::{failure_is_news, Failures, Report};
use lan_mouse::net::IpAddr;
use lan_mouse::service::DnsEvent;

fn failure(handle: u64, error: &str) -> DnsEvent {
    DnsEvent::Resolved(handle, "mac.local".to_string(), Err(error.to_string()))
}

#[test]
fn another_failure_is_news() {
    assert!(failure_is_news(&None, "no"));
    assert!(failure_is_news(&Some("yes".to_string()), "no"));
    assert!(!failure_is_news(&Some("no".to_string()), "no"));
}

#[test]
fn identical_failures_are_warned_of_once() {
    let mut failures = Failures::new();
    match failures.note(&failure(0, "no")) {
        Report::Warning(text) => assert_eq!(text, "could not resolve mac.local: no"),
        _ => panic!("the first failure is a warning"),
    }
    assert!(matches!(failures.note(&DnsEvent::Resolving(0)), Report::Nothing));
    assert!(matches!(failures.note(&failure(1, "no")), Report::Warning(_)));
    match failures.note(&failure(0, "no")) {
        Report::Repeated(text) => assert_eq!(text, "could not resolve mac.local: no"),
        _ => panic!("the same failure is repeated"),
    }
    assert!(matches!(failures.note(&failure(0, "timeout")), Report::Warning(_)));
    let resolved = DnsEvent::Resolved(0, "mac.local".to_string(), Ok(vec![IpAddr::V4(1)]));
    assert!(matches!(failures.note(&resolved), Report::Nothing));
    assert!(matches!(failures.note(&failure(0, "timeout")), Report::Warning(_)));
}
