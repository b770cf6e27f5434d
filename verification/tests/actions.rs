use lan_mouse::actions::{
    action_trigger, enumerate_physical_monitors, is_fast_enter_prefire_supported,
    monitor_description, select_monitor, set_vcp, vcp_result, ActionError, PhysicalMonitor,
    VcpCall,
};
use lan_mouse::ipc::{ActionTrigger, ClientAction};

fn units(s: &str) -> Vec<u16> {
    s.encode_utf16().collect()
}

fn monitors() -> Vec<PhysicalMonitor> {
    let mut dell = units("DELL U2720Q");
    dell.extend([0, 0x41]);
    match enumerate_physical_monitors(&vec![
        vec![dell],
        vec![],
        vec![units("LG HDR 4K"), units("Generic PnP Monitor")],
    ]) {
        Ok(m) => m,
        Err(e) => panic!("{}", e.message()),
    }
}

fn selected(selector: Option<&str>) -> Option<usize> {
    select_monitor(&monitors(), &selector.map(|s| s.to_string())).map(|m| m.index)
}

#[test]
fn monitors_are_numbered_over_all_displays() {
    let m = monitors();
    assert_eq!(m.len(), 3);
    assert_eq!(m[0].description, "DELL U2720Q");
    assert_eq!(m[2].index, 2);
    assert!(matches!(
        enumerate_physical_monitors(&vec![vec![]]),
        Err(e) if e.message() == "no physical monitors were enumerated"
    ));
}

#[test]
fn descriptions_are_utf16_up_to_a_zero() {
    assert_eq!(monitor_description(&vec![0x48, 0x69, 0, 0x21]), "Hi");
    assert_eq!(monitor_description(&vec![]), "");
    assert_eq!(monitor_description(&vec![0xd83d, 0xde00]), "\u{1f600}");
    assert_eq!(monitor_description(&vec![0xd83d, 0x41]), "\u{fffd}A");
    assert_eq!(monitor_description(&vec![0xde00]), "\u{fffd}");
}

#[test]
fn selectors_choose_the_first_match() {
    assert_eq!(selected(None), Some(0));
    assert_eq!(selected(Some("  ")), Some(0));
    assert_eq!(selected(Some("2")), Some(2));
    assert_eq!(selected(Some(" 1 ")), Some(1));
    assert_eq!(selected(Some("3")), None);
    assert_eq!(selected(Some("lg hdr")), Some(1));
    assert_eq!(selected(Some("Monitor")), Some(2));
    assert_eq!(selected(Some("\\\\.\\MONITOR1")), Some(1));
    assert_eq!(selected(Some("samsung")), None);
    assert!(select_monitor(&vec![], &None).is_none());
}

#[test]
fn a_feature_is_set_on_the_selected_monitor() {
    let found = Some(monitors());
    assert!(matches!(
        set_vcp(&found, &Some("lg".to_string()), 0x60, 15),
        Ok(VcpCall { monitor: 1, code: 0x60, value: 15 })
    ));
    match set_vcp(&found, &Some("x\"y".to_string()), 0x60, 15) {
        Err(e) => assert_eq!(
            e.message(),
            "no matching physical monitor for selector Some(\"x\\\"y\"); available: \
             [0:DELL U2720Q, 1:LG HDR 4K, 2:Generic PnP Monitor]"
        ),
        Ok(_) => panic!("there is no such monitor"),
    }
    match set_vcp(&Some(vec![]), &None, 0x60, 15) {
        Err(e) => assert_eq!(
            e.message(),
            "no matching physical monitor for selector None; available: []"
        ),
        Ok(_) => panic!("there is no monitor"),
    }
    assert!(matches!(
        set_vcp(&None, &None, 0x60, 15),
        Err(ActionError::Unsupported)
    ));
}

#[test]
fn refusals_of_the_platform_are_told() {
    let m = monitors();
    assert!(vcp_result(&m[1], 0x60, 15, &None).is_ok());
    match vcp_result(&m[1], 0x0a, 15, &Some("denied".to_string())) {
        Err(e) => assert_eq!(
            e.message(),
            "SetVCPFeature(code=0x0a, value=15) failed on monitor 1:LG HDR 4K: denied"
        ),
        Ok(()) => panic!("the platform refused"),
    }
    assert_eq!(
        ActionError::Unsupported.message(),
        "DDC/VCP actions are only supported on Windows"
    );
    assert_eq!(
        ActionError::Join("panic".to_string()).message(),
        "blocking action task failed: panic"
    );
}

#[test]
fn enter_actions_can_be_started_early() {
    let action = |on| ClientAction::DdcVcp { on, monitor: None, code: 1, value: 2 };
    assert!(is_fast_enter_prefire_supported(&action(ActionTrigger::Enter)));
    assert!(!is_fast_enter_prefire_supported(&action(ActionTrigger::Leave)));
    assert_eq!(action_trigger(&action(ActionTrigger::Leave)), ActionTrigger::Leave);
}
