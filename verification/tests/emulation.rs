use lan_mouse::emulation::{
    candidate_backends, first_backend, next_backend, Attempt, Backend, InputEmulation, Selection,
};
use lan_mouse::input::{Event, F64Bits, KeyboardEvent, PointerEvent, BTN_LEFT};

fn left_button(state: u32) -> Event {
    Event::Pointer(PointerEvent::Button {
        time: 0,
        button: BTN_LEFT,
        state,
    })
}

fn key(key: u32, state: u8) -> Event {
    Event::Keyboard(KeyboardEvent::Key { time: 0, key, state })
}

/// Hands an event on, and records it if the backend is to consume it.
fn consume(emulation: &mut InputEmulation, events: &mut Vec<(Event, u64)>, event: Event, handle: u64) {
    if emulation.consume(event, handle) {
        events.push((event, handle));
    }
}

/// Destroys a session, and records what the backend is to consume.
fn destroy(emulation: &mut InputEmulation, events: &mut Vec<(Event, u64)>, handle: u64) {
    let teardown = emulation.destroy(handle);
    for event in teardown.buttons.iter().chain(teardown.keys.iter()) {
        events.push((*event, handle));
    }
}

#[test]
fn destroy_releases_pressed_pointer_buttons() {
    let mut events = Vec::new();
    let mut emulation = InputEmulation::new();

    emulation.create(7);
    consume(&mut emulation, &mut events, left_button(1), 7);
    destroy(&mut emulation, &mut events, 7);

    assert_eq!(events[0], (left_button(1), 7));
    assert!(events.contains(&(left_button(0), 7)));
}

#[test]
fn duplicate_pointer_button_transitions_are_suppressed() {
    let mut events = Vec::new();
    let mut emulation = InputEmulation::new();

    emulation.create(7);
    consume(&mut emulation, &mut events, left_button(1), 7);
    consume(&mut emulation, &mut events, left_button(1), 7);
    consume(&mut emulation, &mut events, left_button(0), 7);
    consume(&mut emulation, &mut events, left_button(0), 7);

    assert_eq!(events, vec![(left_button(1), 7), (left_button(0), 7)]);
}

#[test]
fn duplicate_key_transitions_are_suppressed() {
    let mut emulation = InputEmulation::new();
    assert!(emulation.create(7));
    assert!(!emulation.create(7));
    assert!(emulation.consume(key(30, 1), 7));
    assert!(!emulation.consume(key(30, 1), 7));
    assert!(emulation.has_pressed_keys(7));
    assert!(emulation.consume(key(30, 0), 7));
    assert!(!emulation.consume(key(30, 0), 7));
    assert!(!emulation.has_pressed_keys(7));
}

#[test]
fn other_events_pass_every_time() {
    let mut emulation = InputEmulation::new();
    let motion = Event::Pointer(PointerEvent::Motion {
        time: 0,
        dx: F64Bits(1.0f64.to_bits()),
        dy: F64Bits(0),
    });
    assert!(emulation.create(7));
    assert!(emulation.consume(motion, 7));
    assert!(emulation.consume(motion, 7));
}

#[test]
fn sessions_do_not_share_what_is_pressed() {
    let mut emulation = InputEmulation::new();
    assert!(emulation.create(7));
    assert!(emulation.create(8));
    assert!(emulation.consume(key(30, 1), 7));
    assert!(emulation.consume(key(30, 1), 8));
    assert!(emulation.has_pressed_keys(8));
    let released = emulation.release_keys(8);
    assert!(released.contains(&key(30, 0)));
    assert!(!emulation.has_pressed_keys(8));
    assert!(emulation.has_pressed_keys(7));
}

#[test]
fn buttons_are_released_once() {
    let mut emulation = InputEmulation::new();
    assert!(emulation.create(7));
    assert!(emulation.consume(left_button(1), 7));
    assert_eq!(emulation.release_buttons(7), vec![left_button(0)]);
    assert_eq!(emulation.release_buttons(7), vec![]);
}

#[test]
fn all_sessions_are_listed_for_termination() {
    let mut emulation = InputEmulation::new();
    assert!(emulation.create(7));
    assert!(emulation.create(8));
    assert_eq!(emulation.terminate(), vec![7, 8]);
}

#[test]
fn unknown_sessions_consume_nothing() {
    let mut emulation = InputEmulation::new();
    assert!(!emulation.has_pressed_keys(9));
    let teardown = emulation.destroy(9);
    assert!(teardown.buttons.is_empty());
    assert_eq!(
        teardown.keys,
        vec![Event::Keyboard(KeyboardEvent::Modifiers {
            depressed: 0,
            latched: 0,
            locked: 0,
            group: 0,
        })]
    );
    assert!(!teardown.destroy);
}

#[test]
fn first_backend_that_works_is_used() {
    let backends = candidate_backends(None, vec![Backend::Libei, Backend::X11, Backend::Dummy]);
    assert_eq!(backends, vec![Backend::Libei, Backend::X11, Backend::Dummy]);
    assert_eq!(first_backend(3), Selection::Try(0));
    assert_eq!(next_backend(false, 3, 0, Attempt::Failed), Selection::Try(1));
    assert_eq!(next_backend(false, 3, 1, Attempt::Created), Selection::Use(1));
}

#[test]
fn a_backend_that_is_asked_for_is_the_only_one() {
    let backends = candidate_backends(Some(Backend::X11), vec![Backend::Libei, Backend::Dummy]);
    assert_eq!(backends, vec![Backend::X11]);
    assert_eq!(next_backend(true, 1, 0, Attempt::Failed), Selection::Abort(0));
}

#[test]
fn a_refusal_of_the_user_is_final() {
    assert_eq!(
        next_backend(false, 3, 1, Attempt::CancelledByUser),
        Selection::Abort(1)
    );
    assert_eq!(
        next_backend(false, 3, 2, Attempt::Failed),
        Selection::NoAvailableBackend
    );
    assert_eq!(first_backend(0), Selection::NoAvailableBackend);
}

#[test]
fn backends_have_names() {
    assert_eq!(Backend::Wlroots.as_str(), "wlroots");
    assert_eq!(Backend::Libei.as_str(), "libei");
    assert_eq!(Backend::Xdp.as_str(), "xdg-desktop-portal");
    assert_eq!(Backend::X11.as_str(), "X11");
    assert_eq!(Backend::Windows.as_str(), "windows");
    assert_eq!(Backend::MacOs.as_str(), "macos");
    assert_eq!(Backend::Dummy.as_str(), "dummy");
}
