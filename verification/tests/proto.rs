use lan_mouse::input::{Event, F32Bits, F64Bits, KeyboardEvent, PointerEvent};
use lan_mouse::proto::{
    event_wire_len, EventType, Position, ProtoEvent, ProtocolError, MAX_EVENT_SIZE,
    RETIRED_MOTION_ABSOLUTE_EVENT_ID,
};

fn bits(x: f64) -> F64Bits {
    F64Bits(x.to_bits())
}

fn every_kind_of_event() -> Vec<ProtoEvent> {
    vec![
        ProtoEvent::Enter(Position::Bottom),
        ProtoEvent::Leave(0x0102_0304),
        ProtoEvent::Ack(7),
        ProtoEvent::Input(Event::Pointer(PointerEvent::Motion {
            time: 5,
            dx: bits(1.5),
            dy: bits(-2.25),
        })),
        ProtoEvent::Input(Event::Pointer(PointerEvent::Button {
            time: 1,
            button: 0x110,
            state: 1,
        })),
        ProtoEvent::Input(Event::Pointer(PointerEvent::Axis {
            time: 2,
            axis: 1,
            value: bits(3.0),
        })),
        ProtoEvent::Input(Event::Pointer(PointerEvent::AxisDiscrete120 {
            axis: 0,
            value: -120,
        })),
        ProtoEvent::Input(Event::Keyboard(KeyboardEvent::Key {
            time: 9,
            key: 30,
            state: 1,
        })),
        ProtoEvent::Input(Event::Keyboard(KeyboardEvent::Modifiers {
            depressed: 1,
            latched: 2,
            locked: 3,
            group: 4,
        })),
        ProtoEvent::Ping,
        ProtoEvent::Pong(true),
        ProtoEvent::Pong(false),
        ProtoEvent::Bounds {
            width: 1920,
            height: 1080,
        },
        ProtoEvent::CursorPos {
            pos: Position::Top,
            nx: F32Bits(0.5f32.to_bits()),
            ny: F32Bits(0.25f32.to_bits()),
        },
        ProtoEvent::Hello {
            commit: *b"0123abcd",
        },
    ]
}

#[test]
fn legacy_motion_absolute_event_id_is_unsupported() {
    let mut buf = [0u8; MAX_EVENT_SIZE];
    buf[0] = RETIRED_MOTION_ABSOLUTE_EVENT_ID;

    assert!(matches!(
        ProtoEvent::try_from(buf),
        Err(ProtocolError::UnsupportedEvent("MotionAbsolute"))
    ));
}

#[test]
fn truncated_pong_is_rejected() {
    let buf = [EventType::Pong as u8];

    assert!(matches!(
        ProtoEvent::try_from(&buf[..]),
        Err(ProtocolError::Truncated {
            event: "Pong",
            expected: 2,
            actual: 1,
        })
    ));
}

#[test]
fn short_ping_is_accepted_but_padded_ping_is_rejected() {
    let (buf, len): ([u8; MAX_EVENT_SIZE], usize) = ProtoEvent::Ping.into();

    assert!(matches!(
        ProtoEvent::try_from(&buf[..len]),
        Ok(ProtoEvent::Ping)
    ));
    assert!(matches!(
        ProtoEvent::try_from(&buf[..]),
        Err(ProtocolError::Truncated {
            event: "Ping",
            expected: 1,
            actual: MAX_EVENT_SIZE,
        })
    ));
}

#[test]
fn cursor_pos_requires_exact_payload_length() {
    let (buf, len): ([u8; MAX_EVENT_SIZE], usize) = ProtoEvent::CursorPos {
        pos: Position::Left,
        nx: F32Bits(0.5f32.to_bits()),
        ny: F32Bits(0.25f32.to_bits()),
    }
    .into();

    assert!(matches!(
        ProtoEvent::try_from(&buf[..len - 1]),
        Err(ProtocolError::Truncated {
            event: "CursorPos",
            expected: 10,
            actual,
        }) if actual == len - 1
    ));
    assert!(matches!(
        ProtoEvent::try_from(&buf[..len]),
        Ok(ProtoEvent::CursorPos {
            pos: Position::Left,
            ..
        })
    ));
}

#[test]
fn every_event_is_decoded_as_it_was_encoded() {
    for event in every_kind_of_event() {
        let (buf, len): ([u8; MAX_EVENT_SIZE], usize) = event.into();
        assert_eq!(ProtoEvent::try_from(&buf[..len]), Ok(event));
        assert!(buf[len..].iter().all(|b| *b == 0));
    }
}

#[test]
fn numbers_are_big_endian_on_the_wire() {
    let (buf, len): ([u8; MAX_EVENT_SIZE], usize) = ProtoEvent::Leave(0x0102_0304).into();
    assert_eq!(&buf[..len], &[9, 1, 2, 3, 4]);
    let (buf, len): ([u8; MAX_EVENT_SIZE], usize) =
        ProtoEvent::Input(Event::Pointer(PointerEvent::Motion {
            time: 1,
            dx: bits(1.0),
            dy: bits(-2.0),
        }))
        .into();
    assert_eq!(len, MAX_EVENT_SIZE);
    assert_eq!(
        &buf[..],
        &[0, 0, 0, 0, 1, 0x3f, 0xf0, 0, 0, 0, 0, 0, 0, 0xc0, 0, 0, 0, 0, 0, 0, 0]
    );
}

#[test]
fn first_byte_tells_name_and_length() {
    assert_eq!(event_wire_len(6), Ok(("Ping", 1)));
    assert_eq!(event_wire_len(13), Ok(("CursorPos", 10)));
    assert_eq!(event_wire_len(0), Ok(("PointerMotion", 21)));
    assert_eq!(
        event_wire_len(RETIRED_MOTION_ABSOLUTE_EVENT_ID),
        Err(ProtocolError::UnsupportedEvent("MotionAbsolute"))
    );
    assert_eq!(event_wire_len(99), Err(ProtocolError::InvalidEventId(99)));
}

#[test]
fn malformed_buffers_are_refused() {
    let none: [u8; 0] = [];
    assert!(matches!(
        ProtoEvent::try_from(&none[..]),
        Err(ProtocolError::Truncated { expected: 1, actual: 0, .. })
    ));
    assert_eq!(
        ProtoEvent::try_from(&[99u8][..]),
        Err(ProtocolError::InvalidEventId(99))
    );
    assert_eq!(
        ProtoEvent::try_from(&[8u8, 4][..]),
        Err(ProtocolError::InvalidPosition(4))
    );
}

#[test]
fn any_other_byte_than_zero_is_an_alive_pong() {
    assert_eq!(
        ProtoEvent::try_from(&[7u8, 0][..]),
        Ok(ProtoEvent::Pong(false))
    );
    assert_eq!(
        ProtoEvent::try_from(&[7u8, 9][..]),
        Ok(ProtoEvent::Pong(true))
    );
}

#[test]
fn protocol_errors_have_messages() {
    assert_eq!(
        ProtocolError::InvalidEventId(99).message(),
        "invalid event id: `No discriminant in enum `EventType` matches the value `99``"
    );
    assert_eq!(
        ProtocolError::InvalidPosition(4).message(),
        "invalid event id: `No discriminant in enum `Position` matches the value `4``"
    );
    assert_eq!(
        ProtocolError::UnsupportedEvent("MotionAbsolute").message(),
        "unsupported event: `MotionAbsolute`"
    );
    assert_eq!(
        ProtocolError::Truncated {
            event: "Pong",
            expected: 2,
            actual: 1
        }
        .message(),
        "truncated event `Pong`: expected 2 bytes, got 1"
    );
}

#[test]
fn events_have_texts() {
    let text = |e: ProtoEvent| e.to_text("input", "0.5000", "0.2500");
    assert_eq!(text(ProtoEvent::Enter(Position::Left)), "Enter(left)");
    assert_eq!(text(ProtoEvent::Leave(3)), "Leave(3)");
    assert_eq!(text(ProtoEvent::Ack(0)), "Ack(0)");
    assert_eq!(text(every_kind_of_event()[3]), "input");
    assert_eq!(text(ProtoEvent::Ping), "ping");
    assert_eq!(text(ProtoEvent::Pong(true)), "pong: alive");
    assert_eq!(text(ProtoEvent::Pong(false)), "pong: not available");
    assert_eq!(
        text(ProtoEvent::Bounds { width: 1920, height: 1080 }),
        "Bounds(1920x1080)"
    );
    assert_eq!(
        text(every_kind_of_event()[13]),
        "CursorPos(top, 0.5000, 0.2500)"
    );
    assert_eq!(
        text(ProtoEvent::Hello { commit: *b"0123abcd" }),
        "Hello(0123abcd)"
    );
    assert_eq!(
        text(ProtoEvent::Hello { commit: [0xff; 8] }),
        "Hello(????????)"
    );
}
