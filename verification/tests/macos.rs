use lan_mouse::input::{
    Event, F64Bits, KeyboardEvent, PointerEvent, BTN_BACK, BTN_FORWARD, BTN_LEFT, BTN_RIGHT,
};
use lan_mouse::macos::{
    canonical_side_button, drag_event_type, evdev_is_modifier, frontmost_window_pid,
    get_display_at_point, is_chrome_bundle_id, lines_of, macos_keycode_from_evdev,
    post_media_key, request_macos_emulation_permissions, set_modifiers, side_button_cg_number,
    side_button_name, side_button_route, side_button_route_for_bundle, to_cgevent_flags,
    update_modifiers, wheels_of, CgFlags, MacAction, MacOSEmulation,
    MacOSEmulationCreationError, MouseButton, MouseEventType, SideButtonRoute, Window, XMods,
    DEFAULT_REPEAT_DELAY, DEFAULT_REPEAT_INTERVAL, KEY_F9, KEY_LEFTCTRL, KEY_LEFTMETA,
    KEY_LEFTSHIFT, KEY_RIGHTALT, KEY_VOLUMEUP, MAX_KEY_REPEATS, STUCK_RESET_IDLE,
};

const KEY_1: u32 = 2;
const KEY_A: u32 = 30;
const KEY_B: u32 = 48;
const KEY_SPACE: u32 = 57;
const MS: u64 = 1_000_000;

const NO_FLAGS: CgFlags = CgFlags {
    shift: false,
    alpha_shift: false,
    control: false,
    alternate: false,
    command: false,
};

fn emulation() -> MacOSEmulation {
    match MacOSEmulation::new(true, true) {
        Ok(e) => e,
        Err(e) => panic!("{e:?}"),
    }
}

fn key(key: u32, state: u8) -> Event {
    Event::Keyboard(KeyboardEvent::Key { time: 0, key, state })
}

fn button(button: u32, state: u32) -> Event {
    Event::Pointer(PointerEvent::Button {
        time: 0,
        button,
        state,
    })
}

#[test]
fn chrome_routes_side_buttons_as_native_mouse_events() {
    assert_eq!(
        side_button_route_for_bundle(BTN_BACK, Some("com.google.Chrome")),
        Some(SideButtonRoute::NativeMouse)
    );
    assert_eq!(
        side_button_route_for_bundle(BTN_FORWARD, Some("com.google.Chrome")),
        Some(SideButtonRoute::NativeMouse)
    );
    assert_eq!(
        side_button_route_for_bundle(3, Some("com.google.Chrome")),
        Some(SideButtonRoute::NativeMouse)
    );
    assert_eq!(
        side_button_route_for_bundle(4, Some("com.google.Chrome")),
        Some(SideButtonRoute::NativeMouse)
    );
    assert_eq!(
        side_button_route_for_bundle(BTN_BACK, Some("com.google.Chrome.canary")),
        Some(SideButtonRoute::NativeMouse)
    );
}

#[test]
fn non_chrome_routes_side_buttons_to_existing_function_keys() {
    assert_eq!(
        side_button_route_for_bundle(BTN_BACK, Some("com.apple.finder")),
        Some(SideButtonRoute::MissionControl)
    );
    assert_eq!(
        side_button_route_for_bundle(BTN_FORWARD, Some("com.apple.finder")),
        Some(SideButtonRoute::ShowDesktop)
    );
    assert_eq!(
        side_button_route_for_bundle(3, None),
        Some(SideButtonRoute::MissionControl)
    );
    assert_eq!(
        side_button_route_for_bundle(4, None),
        Some(SideButtonRoute::ShowDesktop)
    );
}

#[test]
fn non_side_buttons_do_not_use_side_button_routing() {
    assert_eq!(
        side_button_route_for_bundle(BTN_LEFT, Some("com.google.Chrome")),
        None
    );
}

#[test]
fn right_alt_evdev_maps_to_right_option_keycode() {
    const MACOS_RIGHT_OPTION: u16 = 0x3d;

    assert_eq!(
        macos_keycode_from_evdev(KEY_RIGHTALT),
        Some(MACOS_RIGHT_OPTION)
    );
}

#[test]
fn evdev_is_modifier_matches_modifier_keys_only() {
    for key in [KEY_LEFTSHIFT, KEY_LEFTCTRL, KEY_RIGHTALT, KEY_LEFTMETA] {
        assert!(evdev_is_modifier(key), "{key:?} should be a modifier");
    }
    for key in [KEY_A, KEY_1, KEY_SPACE] {
        assert!(!evdev_is_modifier(key), "{key:?} should not be a modifier");
    }
    // an out-of-range evdev code is not a modifier
    assert!(!evdev_is_modifier(u32::MAX));
}

#[test]
fn key_codes_are_those_of_macos() {
    assert_eq!(macos_keycode_from_evdev(KEY_A), Some(0x00));
    assert_eq!(macos_keycode_from_evdev(KEY_B), Some(0x0b));
    assert_eq!(macos_keycode_from_evdev(KEY_LEFTSHIFT), Some(0x38));
    assert_eq!(macos_keycode_from_evdev(u32::MAX), None);
    assert_eq!(macos_keycode_from_evdev(0x1_0000 + KEY_B), Some(0x0b));
}

#[test]
fn both_permissions_are_needed() {
    assert_eq!(request_macos_emulation_permissions(true, true), Ok(()));
    assert_eq!(
        request_macos_emulation_permissions(false, true),
        Err(MacOSEmulationCreationError::AccessibilityPermission)
    );
    assert_eq!(
        request_macos_emulation_permissions(true, false),
        Err(MacOSEmulationCreationError::InputControlPermission)
    );
    assert!(MacOSEmulation::new(false, false).is_err());
}

#[test]
fn side_buttons_have_names_and_numbers() {
    assert_eq!(canonical_side_button(3), Some(BTN_BACK));
    assert_eq!(canonical_side_button(BTN_FORWARD), Some(BTN_FORWARD));
    assert_eq!(canonical_side_button(BTN_LEFT), None);
    assert_eq!(side_button_name(BTN_BACK), "back");
    assert_eq!(side_button_name(BTN_FORWARD), "forward");
    assert_eq!(side_button_cg_number(BTN_BACK), Some(3));
    assert_eq!(side_button_cg_number(4), Some(4));
    assert_eq!(side_button_cg_number(BTN_LEFT), None);
    assert!(is_chrome_bundle_id("com.google.Chrome.canary"));
    assert!(!is_chrome_bundle_id("com.google.Chrome.beta"));
    assert_eq!(
        side_button_route(BTN_BACK, &Some("com.google.Chrome".to_string())),
        Some(SideButtonRoute::NativeMouse)
    );
}

#[test]
fn drags_depend_on_the_button() {
    assert_eq!(drag_event_type(BTN_LEFT), MouseEventType::LeftMouseDragged);
    assert_eq!(drag_event_type(BTN_RIGHT), MouseEventType::RightMouseDragged);
    assert_eq!(drag_event_type(BTN_BACK), MouseEventType::OtherMouseDragged);
}

#[test]
fn the_owner_of_the_first_ordinary_window_is_in_front() {
    let window = |layer, owner_pid| Window { layer, owner_pid };
    assert_eq!(
        frontmost_window_pid(&vec![
            window(Some(25), Some(1)),
            window(Some(0), None),
            window(Some(0), Some(7)),
            window(Some(0), Some(8)),
        ]),
        Some(7)
    );
    assert_eq!(frontmost_window_pid(&vec![window(None, Some(1))]), None);
}

#[test]
fn displays_at_points() {
    assert_eq!(get_display_at_point(0, 2, 5), Some(5));
    assert_eq!(get_display_at_point(1, 2, 5), None);
    assert_eq!(get_display_at_point(0, 0, 5), None);
}

#[test]
fn media_keys_are_pressed_and_released() {
    let (down, up) = post_media_key(7, false);
    assert_eq!((down.flags, down.data1), (0xa00, 0x70a00));
    assert_eq!((up.flags, up.data1), (0xb00, 0x70b00));
    let (down, up) = post_media_key(0, true);
    assert_eq!((down.flags, down.data1), (0xa0a00, 0xa00));
    assert_eq!((up.flags, up.data1), (0xa0b00, 0xb00));
}

#[test]
fn wheels_follow_the_axis() {
    let w = wheels_of(0, 5).unwrap();
    assert_eq!((w.count, w.wheel1, w.wheel2, w.wheel3), (1, 5, 0, 0));
    let w = wheels_of(1, -5).unwrap();
    assert_eq!((w.count, w.wheel1, w.wheel2, w.wheel3), (2, 0, -5, 0));
    assert_eq!(wheels_of(2, 5), None);
    assert_eq!(lines_of(120), 3);
    assert_eq!(lines_of(-120), -3);
    assert_eq!(lines_of(39), 0);
    assert_eq!(lines_of(-79), -1);
    assert_eq!(lines_of(i32::MIN), i32::MIN / 40);
}

#[test]
fn modifiers_are_tracked() {
    let mut mods = XMods(0);
    assert!(update_modifiers(&mut mods, KEY_LEFTSHIFT, 1));
    assert!(update_modifiers(&mut mods, KEY_LEFTCTRL, 1));
    assert_eq!(
        to_cgevent_flags(mods),
        CgFlags { shift: true, control: true, ..NO_FLAGS }
    );
    assert!(update_modifiers(&mut mods, KEY_LEFTSHIFT, 0));
    assert!(update_modifiers(&mut mods, KEY_LEFTCTRL, 0));
    assert_eq!(mods, XMods(0));
    assert!(!update_modifiers(&mut mods, KEY_A, 1));
    set_modifiers(&mut mods, 64, 0, 0, 0);
    assert_eq!(to_cgevent_flags(mods), CgFlags { command: true, ..NO_FLAGS });
    set_modifiers(&mut mods, 0x100, 0, 0, 0);
    assert_eq!(mods, XMods(0));
}

#[test]
fn keys_are_repeated_up_to_the_limit() {
    let mut e = emulation();
    let actions = e.consume(key(KEY_A, 1), 0, &None);
    assert_eq!(
        actions,
        vec![
            MacAction::Key { code: 0, down: true, flags: NO_FLAGS },
            MacAction::ArmRepeat(DEFAULT_REPEAT_DELAY),
        ]
    );
    for _ in 0..MAX_KEY_REPEATS - 1 {
        let actions = e.repeat_elapsed();
        assert_eq!(
            actions,
            vec![
                MacAction::Key { code: 0, down: true, flags: NO_FLAGS },
                MacAction::ArmRepeat(DEFAULT_REPEAT_INTERVAL),
            ]
        );
    }
    let actions = e.repeat_elapsed();
    assert_eq!(
        actions,
        vec![
            MacAction::Key { code: 0, down: true, flags: NO_FLAGS },
            MacAction::Key { code: 0, down: false, flags: NO_FLAGS },
        ]
    );
    assert_eq!(e.repeat_elapsed(), vec![]);
}

#[test]
fn a_new_key_ends_the_repetition_of_the_old() {
    let mut e = emulation();
    e.consume(key(KEY_A, 1), 0, &None);
    let actions = e.consume(key(KEY_B, 1), 10 * MS, &None);
    assert!(actions.contains(&MacAction::Key { code: 0, down: false, flags: NO_FLAGS }));
    assert!(actions.contains(&MacAction::Key { code: 0x0b, down: true, flags: NO_FLAGS }));
    let actions = e.consume(key(KEY_B, 0), 20 * MS, &None);
    assert!(actions.contains(&MacAction::Key { code: 0x0b, down: false, flags: NO_FLAGS }));
}

#[test]
fn stranded_modifiers_are_dropped_after_a_pause() {
    let mut e = emulation();
    e.consume(key(KEY_LEFTSHIFT, 1), 0, &None);
    assert!(e.modifiers != XMods(0));
    let actions = e.consume(key(KEY_LEFTCTRL, 1), STUCK_RESET_IDLE, &None);
    assert_eq!(
        actions[0],
        MacAction::FlagsChanged { flags: NO_FLAGS, code: None }
    );
    assert_eq!(
        to_cgevent_flags(e.modifiers),
        CgFlags { control: true, ..NO_FLAGS }
    );
}

#[test]
fn system_keys_act_on_their_press() {
    let mut e = emulation();
    assert_eq!(
        e.consume(key(KEY_F9, 1), 0, &None),
        vec![MacAction::MissionControl]
    );
    assert_eq!(e.consume(key(KEY_F9, 0), 0, &None), vec![]);
    assert_eq!(
        e.consume(key(KEY_VOLUMEUP, 1), 0, &None),
        vec![MacAction::MediaKey { key_type: 0, fine_step: true }]
    );
}

#[test]
fn unknown_keys_are_ignored() {
    let mut e = emulation();
    assert_eq!(e.consume(key(u32::MAX, 1), 0, &None), vec![]);
    assert_eq!(e.consume_key(KEY_A, 1, 0, None), vec![]);
}

#[test]
fn clicks_are_counted_within_the_interval() {
    let mut e = emulation();
    let count = |actions: Vec<MacAction>| match actions[0] {
        MacAction::Button { click_state, .. } => click_state,
        _ => 0,
    };
    assert_eq!(count(e.consume(button(BTN_LEFT, 1), 0, &None)), 1);
    assert_eq!(count(e.consume(button(BTN_LEFT, 0), 50 * MS, &None)), 1);
    assert_eq!(count(e.consume(button(BTN_LEFT, 1), 499 * MS, &None)), 2);
    assert_eq!(count(e.consume(button(BTN_RIGHT, 1), 510 * MS, &None)), 1);
    assert_eq!(count(e.consume(button(BTN_RIGHT, 1), 1010 * MS, &None)), 1);
}

#[test]
fn side_button_that_became_a_key_swallows_its_release() {
    let mut e = emulation();
    assert_eq!(
        e.consume(button(BTN_BACK, 1), 0, &None),
        vec![MacAction::MissionControl]
    );
    assert_eq!(e.consume(button(BTN_BACK, 0), 0, &None), vec![]);
    assert_eq!(
        e.consume(button(BTN_FORWARD, 1), 0, &None),
        vec![MacAction::ShowDesktop]
    );
    assert_eq!(e.consume(button(4, 0), 0, &None), vec![]);
    assert!(e.pressed_buttons.is_empty());
    let chrome = Some("com.google.Chrome".to_string());
    assert_eq!(
        e.consume(button(BTN_BACK, 1), 0, &chrome),
        vec![MacAction::Button {
            event_type: MouseEventType::OtherMouseDown,
            button: MouseButton::Center,
            click_state: 1,
            number: Some(3),
        }]
    );
}

#[test]
fn moving_with_a_button_down_is_a_drag() {
    let mut e = emulation();
    let dx = F64Bits(2.0f64.to_bits());
    let dy = F64Bits(3.0f64.to_bits());
    let motion = Event::Pointer(PointerEvent::Motion { time: 0, dx, dy });
    assert_eq!(
        e.consume(motion, 0, &None),
        vec![MacAction::Move { event_type: MouseEventType::MouseMoved, dx, dy }]
    );
    e.consume(button(BTN_RIGHT, 1), 0, &None);
    assert_eq!(
        e.consume(motion, 0, &None),
        vec![MacAction::Move { event_type: MouseEventType::RightMouseDragged, dx, dy }]
    );
}
