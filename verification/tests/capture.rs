use lan_mouse::capture::{
    after_ready_poll, can_drop_while_target_emulation_disabled, pause, should_auto_retry_capture,
    to_capture_pos, to_proto_pos, virtual_screen_rect, CaptureAction, CaptureCreationError,
    CaptureError, CaptureEvent, CaptureRequest, CaptureTask, CaptureType, EventStep,
    ICaptureEvent, InputCaptureError, MacosCaptureCreationError, PeerStep, Position, RequestStep,
    SendOutcome, SessionEvent, SessionStep, State, CAPTURE_RETRY_INITIAL_DELAY, CAPTURE_RETRY_MAX_DELAY,
};
use lan_mouse::input::{Event, F32Bits, F64Bits, KeyboardEvent, PointerEvent, BTN_LEFT};
use lan_mouse::ipc;
use lan_mouse::proto;
use lan_mouse::proto::ProtoEvent;

fn one() -> F64Bits {
    F64Bits(1.0f64.to_bits())
}

fn motion() -> CaptureEvent {
    CaptureEvent::Input(Event::Pointer(PointerEvent::Motion {
        time: 0,
        dx: one(),
        dy: one(),
    }))
}

fn task() -> CaptureTask {
    let mut task = CaptureTask::new(vec![29, 42], 0);
    task.add_capture(1, Position::Left, CaptureType::Default);
    task.add_capture(2, Position::Right, CaptureType::EnterOnly);
    task
}

#[test]
fn only_stateless_pointer_events_are_dropped_when_target_emulation_is_disabled() {
    assert!(can_drop_while_target_emulation_disabled(
        CaptureEvent::Input(Event::Pointer(PointerEvent::Motion {
            time: 0,
            dx: one(),
            dy: one(),
        }))
    ));
    assert!(can_drop_while_target_emulation_disabled(
        CaptureEvent::Input(Event::Pointer(PointerEvent::Axis {
            time: 0,
            axis: 0,
            value: one(),
        }))
    ));
    assert!(can_drop_while_target_emulation_disabled(
        CaptureEvent::Input(Event::Pointer(PointerEvent::AxisDiscrete120 {
            axis: 0,
            value: 120,
        }))
    ));

    assert!(!can_drop_while_target_emulation_disabled(
        CaptureEvent::Input(Event::Pointer(PointerEvent::Button {
            time: 0,
            button: BTN_LEFT,
            state: 0,
        }))
    ));
    assert!(!can_drop_while_target_emulation_disabled(
        CaptureEvent::Input(Event::Keyboard(KeyboardEvent::Key {
            time: 0,
            key: 30,
            state: 0,
        }))
    ));
    assert!(!can_drop_while_target_emulation_disabled(
        CaptureEvent::Begin { cursor: None }
    ));
}

#[test]
fn event_tap_disabled_is_auto_recoverable_on_macos() {
    assert!(should_auto_retry_capture(&InputCaptureError::Capture(
        CaptureError::EventTapDisabled,
    )));
}

#[test]
fn event_tap_creation_is_auto_recoverable_on_macos() {
    assert!(should_auto_retry_capture(&InputCaptureError::Create(
        CaptureCreationError::MacOS(MacosCaptureCreationError::EventTapCreation),
    )));
}

#[test]
fn missing_accessibility_permission_is_not_auto_recoverable_on_macos() {
    assert!(!should_auto_retry_capture(&InputCaptureError::Create(
        CaptureCreationError::MacOS(MacosCaptureCreationError::AccessibilityPermission),
    )));
}

#[test]
fn retries_double_up_to_the_maximum() {
    let error = Some(InputCaptureError::Capture(CaptureError::EventTapDisabled));
    let mut delay = CAPTURE_RETRY_INITIAL_DELAY;
    let mut delays = Vec::new();
    for _ in 0..7 {
        let p = pause(&error, true, delay);
        delays.push(p.retry_after.unwrap() / 1_000_000_000);
        delay = p.next_delay;
    }
    assert_eq!(delays, vec![1, 2, 4, 8, 16, 30, 30]);
    assert_eq!(delay, CAPTURE_RETRY_MAX_DELAY);
}

#[test]
fn without_recovery_capture_waits_to_be_enabled() {
    let p = pause(&None, true, CAPTURE_RETRY_MAX_DELAY);
    assert_eq!(p.retry_after, None);
    assert_eq!(p.next_delay, CAPTURE_RETRY_INITIAL_DELAY);
    let error = Some(InputCaptureError::Capture(CaptureError::EventTapDisabled));
    assert_eq!(pause(&error, false, 1).retry_after, None);
}

#[test]
fn positions_keep_their_side() {
    assert_eq!(to_capture_pos(ipc::Position::Top), Position::Top);
    assert_eq!(to_proto_pos(Position::Bottom), proto::Position::Bottom);
    assert_eq!(Position::Left.opposite(), Position::Right);
    assert_eq!(Position::Top.opposite().opposite(), Position::Top);
}

#[test]
fn input_waits_for_the_acknowledgement() {
    let mut task = task();
    let mut actions = Vec::new();
    let begin = CaptureEvent::Begin { cursor: None };
    assert_eq!(
        task.handle_capture_event(1, begin, false, &mut actions),
        EventStep::AwaitReady(Position::Left)
    );
    assert_eq!(
        actions,
        vec![CaptureAction::Notify(ICaptureEvent::CaptureBegin(1))]
    );
    assert_eq!(
        task.begin(1, Position::Left, true),
        EventStep::Send(ProtoEvent::Enter(proto::Position::Right))
    );
    assert_eq!(task.active_client, Some(1));
    assert_eq!(
        task.handle_capture_event(1, motion(), false, &mut actions),
        EventStep::Send(ProtoEvent::Enter(proto::Position::Right))
    );
    assert_eq!(
        task.handle_peer_event(1, ProtoEvent::Ack(0)),
        PeerStep::Entered
    );
    assert_eq!(task.state, State::Sending);
    assert!(matches!(
        task.handle_capture_event(1, motion(), false, &mut actions),
        EventStep::Send(ProtoEvent::Input(_))
    ));
}

#[test]
fn a_client_that_is_not_ready_is_not_entered() {
    let mut task = task();
    assert_eq!(
        task.begin(1, Position::Left, false),
        EventStep::ReleaseBackend
    );
    assert_eq!(task.active_client, None);
}

#[test]
fn the_cursor_is_sent_behind_the_entering() {
    let task = task();
    let begin = CaptureEvent::Begin {
        cursor: Some((10, 20)),
    };
    let half = F32Bits(0.5f32.to_bits());
    assert_eq!(
        task.sent(begin, Position::Left, SendOutcome::Sent, Some((half, half))),
        EventStep::Send(ProtoEvent::CursorPos {
            pos: proto::Position::Right,
            nx: half,
            ny: half
        })
    );
    assert_eq!(
        task.sent(motion(), Position::Left, SendOutcome::TargetEmulationDisabled, None),
        EventStep::Done
    );
    assert_eq!(
        task.sent(begin, Position::Left, SendOutcome::TargetEmulationDisabled, None),
        EventStep::Release
    );
    assert_eq!(
        task.sent(motion(), Position::Left, SendOutcome::Failed, None),
        EventStep::Release
    );
}

#[test]
fn releasing_lifts_every_held_key() {
    let mut task = task();
    task.begin(1, Position::Left, true);
    let actions = task.release_capture(&vec![30, 42]);
    let up = |key: u32| {
        CaptureAction::Send(
            1,
            ProtoEvent::Input(Event::Keyboard(KeyboardEvent::Key {
                time: 0,
                key,
                state: 0,
            })),
        )
    };
    let mods = CaptureAction::Send(
        1,
        ProtoEvent::Input(Event::Keyboard(KeyboardEvent::Modifiers {
            depressed: 0,
            latched: 0,
            locked: 0,
            group: 0,
        })),
    );
    assert_eq!(
        actions,
        vec![
            up(30),
            up(42),
            mods,
            CaptureAction::Send(1, ProtoEvent::Leave(0)),
            CaptureAction::Release { host_warp: true },
        ]
    );
    assert_eq!(task.active_client, None);
    assert_eq!(
        task.release_capture_handover(&vec![]),
        vec![CaptureAction::Release { host_warp: false }]
    );
    assert_eq!(task.notify_peer_of_leave(&vec![]), vec![]);
}

#[test]
fn only_the_active_client_is_listened_to() {
    let mut task = task();
    task.add_capture(3, Position::Top, CaptureType::Default);
    task.begin(1, Position::Left, true);
    assert_eq!(
        task.handle_peer_event(3, ProtoEvent::Ack(0)),
        PeerStep::Ignored
    );
    assert_eq!(
        task.handle_peer_event(9, ProtoEvent::Leave(0)),
        PeerStep::Ignored
    );
    assert_eq!(
        task.handle_peer_event(1, ProtoEvent::Leave(0)),
        PeerStep::Left
    );
    assert_eq!(
        task.handle_peer_event(1, ProtoEvent::Bounds { width: 800, height: 600 }),
        PeerStep::Bounds(Position::Left, 800, 600)
    );
}

#[test]
fn the_release_keys_and_the_backend_release() {
    let task = task();
    let mut actions = Vec::new();
    assert_eq!(
        task.handle_capture_event(1, motion(), true, &mut actions),
        EventStep::Release
    );
    assert_eq!(
        task.handle_capture_event(1, CaptureEvent::AutoRelease, false, &mut actions),
        EventStep::Release
    );
    assert_eq!(
        task.handle_capture_event(9, motion(), false, &mut actions),
        EventStep::Done
    );
    assert!(actions.is_empty());
}

#[test]
fn an_enter_only_capture_is_released_at_once() {
    let mut task = task();
    let mut actions = Vec::new();
    let begin = CaptureEvent::Begin { cursor: None };
    assert_eq!(
        task.handle_capture_event(2, begin, false, &mut actions),
        EventStep::ReleaseBackend
    );
    task.add_capture(3, Position::Right, CaptureType::Default);
    assert_eq!(
        task.handle_capture_event(2, begin, false, &mut actions),
        EventStep::Done
    );
    assert!(task.is_default_capture_at(Position::Right));
    assert!(!task.is_default_capture_at(Position::Top));
}

#[test]
fn requests_change_the_captures() {
    let mut task = CaptureTask::new(vec![], 0);
    assert_eq!(
        task.handle_request(CaptureRequest::Create(5, Position::Top, CaptureType::Default)),
        RequestStep::CreateBarrier(5, Position::Top)
    );
    assert_eq!(
        task.get_capture(5),
        Some((Position::Top, CaptureType::Default))
    );
    assert_eq!(
        task.handle_request(CaptureRequest::Destroy(5)),
        RequestStep::DestroyBarrier(5, Position::Top)
    );
    assert!(!task.has_capture(5));
    assert_eq!(
        task.handle_request(CaptureRequest::Destroy(5)),
        RequestStep::Nothing
    );
    assert_eq!(
        task.handle_request(CaptureRequest::SetReleaseThreshold(80)),
        RequestStep::SetReleaseThreshold(80)
    );
    assert_eq!(
        task.handle_request(CaptureRequest::SetReleaseBind(vec![1])),
        RequestStep::Nothing
    );
    assert_eq!(task.release_bind, vec![1]);
    assert_eq!(
        task.handle_request(CaptureRequest::ReleaseForHandover),
        RequestStep::ReleaseForHandover
    );
    assert_eq!(
        task.handle_request(CaptureRequest::Reenable),
        RequestStep::Nothing
    );
}

#[test]
fn only_enabling_starts_capture_again() {
    let mut task = CaptureTask::new(vec![], 0);
    assert_eq!(
        task.handle_idle_request(CaptureRequest::Create(5, Position::Top, CaptureType::Default)),
        RequestStep::Nothing
    );
    assert!(task.has_capture(5));
    assert_eq!(
        task.handle_idle_request(CaptureRequest::Reenable),
        RequestStep::Restart
    );
}

#[test]
fn waiting_for_a_client_ends() {
    assert_eq!(after_ready_poll(true, true, 0, 10, true), Some(false));
    assert_eq!(after_ready_poll(false, true, 0, 10, false), Some(true));
    assert_eq!(after_ready_poll(false, false, 9, 10, true), None);
    assert_eq!(after_ready_poll(false, false, 10, 10, true), Some(true));
    assert_eq!(after_ready_poll(false, false, 10, 10, false), Some(false));
}

#[test]
fn an_empty_screen_has_no_rectangle() {
    assert_eq!(
        virtual_screen_rect(-1920, 0, 3840, 1080),
        Some((-1920, 0, 3840, 1080))
    );
    assert_eq!(virtual_screen_rect(0, 0, 0, 1080), None);
    assert_eq!(virtual_screen_rect(0, 0, 1920, -1), None);
}

/// The task with client 1 entered.
fn entered() -> CaptureTask {
    let mut task = task();
    assert_eq!(
        task.begin(1, Position::Left, true),
        EventStep::Send(ProtoEvent::Enter(proto::Position::Right))
    );
    task
}

#[test]
fn a_session_tells_of_entering_and_leaving() {
    let mut task = entered();
    let mut actions = Vec::new();
    let step = task.do_capture_session(
        SessionEvent::Peer(1, ProtoEvent::Ack(0)),
        false,
        &mut actions,
    );
    assert_eq!(step, SessionStep::Peer(1, PeerStep::Entered));
    assert!(!task.needs_held_keys(step));
    assert_eq!(
        task.conclude(step, &vec![]),
        vec![CaptureAction::Notify(ICaptureEvent::ClientEntered(1))]
    );
    assert_eq!(task.state, State::Sending);

    let step = task.do_capture_session(
        SessionEvent::Peer(1, ProtoEvent::Leave(0)),
        false,
        &mut actions,
    );
    assert_eq!(step, SessionStep::Peer(1, PeerStep::Left));
    assert!(task.needs_held_keys(step));
    let concluded = task.conclude(step, &vec![30]);
    assert_eq!(concluded.len(), 5);
    assert_eq!(
        concluded[0],
        CaptureAction::Send(
            1,
            ProtoEvent::Input(Event::Keyboard(KeyboardEvent::Key {
                time: 0,
                key: 30,
                state: 0,
            }))
        )
    );
    assert_eq!(concluded[2], CaptureAction::Send(1, ProtoEvent::Leave(0)));
    assert_eq!(concluded[3], CaptureAction::Release { host_warp: false });
    assert_eq!(
        concluded[4],
        CaptureAction::Notify(ICaptureEvent::ClientLeft(1))
    );
    assert_eq!(task.active_client, None);
    assert!(actions.is_empty());
}

#[test]
fn a_failed_session_takes_leave_and_ends() {
    let mut task = entered();
    let mut actions = Vec::new();
    let error = InputCaptureError::Capture(CaptureError::EventTapDisabled);
    let step = task.do_capture_session(SessionEvent::Failed(error), false, &mut actions);
    assert_eq!(step, SessionStep::Fail(error));
    assert!(task.needs_held_keys(step));
    let concluded = task.conclude(step, &vec![]);
    assert_eq!(concluded.len(), 2);
    assert_eq!(concluded[1], CaptureAction::Send(1, ProtoEvent::Leave(0)));
    assert_eq!(task.active_client, None);

    let mut task = entered();
    for event in [SessionEvent::Ended, SessionEvent::Cancelled] {
        let step = task.do_capture_session(event, false, &mut actions);
        assert_eq!(step, SessionStep::End);
        assert!(task.conclude(step, &vec![]).is_empty());
        assert_eq!(task.active_client, Some(1));
    }
}

#[test]
fn a_session_follows_requests() {
    let mut task = task();
    let mut actions = Vec::new();
    let step = task.do_capture_session(
        SessionEvent::Request(CaptureRequest::Create(3, Position::Top, CaptureType::Default)),
        false,
        &mut actions,
    );
    assert_eq!(
        task.conclude(step, &vec![]),
        vec![CaptureAction::CreateBarrier(3, Position::Top)]
    );
    let step = task.do_capture_session(
        SessionEvent::Peer(
            3,
            ProtoEvent::Bounds {
                width: 640,
                height: 480,
            },
        ),
        false,
        &mut actions,
    );
    assert_eq!(
        task.conclude(step, &vec![]),
        vec![CaptureAction::SetPeerBounds(Position::Top, 640, 480)]
    );
    let step = task.do_capture_session(
        SessionEvent::Request(CaptureRequest::Destroy(3)),
        false,
        &mut actions,
    );
    assert_eq!(
        task.conclude(step, &vec![]),
        vec![
            CaptureAction::DestroyBarrier(3),
            CaptureAction::ClearPeerBounds(Position::Top),
        ]
    );
    assert!(!task.has_capture(3));
    let step = task.do_capture_session(
        SessionEvent::Request(CaptureRequest::SetReleaseThreshold(9)),
        false,
        &mut actions,
    );
    assert_eq!(
        task.conclude(step, &vec![]),
        vec![CaptureAction::SetReleaseThreshold(9)]
    );
}

#[test]
fn a_session_releases_on_the_release_keys() {
    let mut task = entered();
    let mut actions = Vec::new();
    let step = task.do_capture_session(SessionEvent::Captured(1, motion()), true, &mut actions);
    assert_eq!(step, SessionStep::Event(EventStep::Release));
    let concluded = task.conclude(step, &vec![29, 42]);
    assert_eq!(concluded.len(), 5);
    assert_eq!(concluded[4], CaptureAction::Release { host_warp: true });

    let step = task.do_capture_session(
        SessionEvent::Captured(1, CaptureEvent::Begin { cursor: None }),
        false,
        &mut actions,
    );
    assert_eq!(
        step,
        SessionStep::Event(EventStep::AwaitReady(Position::Left))
    );
    assert_eq!(
        actions,
        vec![CaptureAction::Notify(ICaptureEvent::CaptureBegin(1))]
    );
}
