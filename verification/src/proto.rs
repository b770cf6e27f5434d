//! The wire protocol between two devices.
use crate::input::{Event as InputEvent, F32Bits, F64Bits, KeyboardEvent, PointerEvent};
use crate::text::{decimal, decimal_of, joined};
use vstd::prelude::*;
use vstd::string::StringExecFns;
use vstd::utf8::{decode_utf8, valid_utf8};

verus! {

/// The longest encoded event: the pointer motion event, made of the event
/// type (one byte), the time (four) and two coordinates (eight each).
pub const MAX_EVENT_SIZE: usize = 21;

/// The event id of absolute pointer motion, which is no longer spoken.
pub const RETIRED_MOTION_ABSOLUTE_EVENT_ID: u8 = 12;

/// The side of the screen at which a client sits.
#[derive(Clone, Copy, Debug, PartialEq, Eq, Structural)]
pub enum Position {
    Left,
    Right,
    Top,
    Bottom,
}

/// A violation of the protocol.
#[derive(Clone, Copy, Debug, PartialEq, Eq)]
pub enum ProtocolError {
    /// The first byte is no event id.
    InvalidEventId(u8),
    /// The byte in the place of a position is none.
    InvalidPosition(u8),
    /// The event id is that of a retired event.
    UnsupportedEvent(&'static str),
    /// The buffer is not as long as its event.
    Truncated { event: &'static str, expected: usize, actual: usize },
}

/// The event ids.
#[derive(Clone, Copy, Debug, PartialEq, Eq, Structural)]
pub enum EventType {
    PointerMotion,
    PointerButton,
    PointerAxis,
    PointerAxisValue120,
    KeyboardKey,
    KeyboardModifiers,
    Ping,
    Pong,
    Enter,
    Leave,
    Ack,
    Bounds,
    CursorPos,
    Hello,
}

/// An event of the protocol.
#[derive(Clone, Copy, Debug, PartialEq, Eq)]
pub enum ProtoEvent {
    /// The cursor entered the receiver's region at the given side.
    Enter(Position),
    /// The cursor left the receiver's region.
    Leave(u32),
    /// Acknowledges an [`ProtoEvent::Enter`] or [`ProtoEvent::Leave`].
    Ack(u32),
    /// An input event.
    Input(InputEvent),
    /// Asks for a [`ProtoEvent::Pong`].
    Ping,
    /// Answers a ping: whether emulation is available.
    Pong(bool),
    /// The size of the union of the sender's displays, in pixels.
    Bounds { width: u32, height: u32 },
    /// The sender's cursor, normalised to its displays, and the side at which
    /// it enters.
    CursorPos { pos: Position, nx: F32Bits, ny: F32Bits },
    /// The sender's build: an eight byte ASCII short commit hash.
    Hello { commit: [u8; 8] },
}

impl Position {
    /// The position's byte on the wire.
    pub open spec fn id(self) -> u8 {
        match self {
            Position::Left => 0,
            Position::Right => 1,
            Position::Top => 2,
            Position::Bottom => 3,
        }
    }

    /// The position whose byte is `id`, where there is one.
    pub open spec fn of_id(id: u8) -> Option<Position> {
        if id == 0 {
            Some(Position::Left)
        } else if id == 1 {
            Some(Position::Right)
        } else if id == 2 {
            Some(Position::Top)
        } else if id == 3 {
            Some(Position::Bottom)
        } else {
            None
        }
    }

    /// The position's byte on the wire.
    pub fn to_u8(self) -> (id: u8)
        ensures
            id == self.id(),
    {
        match self {
            Position::Left => 0,
            Position::Right => 1,
            Position::Top => 2,
            Position::Bottom => 3,
        }
    }

    /// The position whose byte is `id`; an error names the byte.
    pub fn from_u8(id: u8) -> (res: Result<Position, ProtocolError>)
        ensures
            res == match Position::of_id(id) {
                Some(pos) => Ok::<Position, ProtocolError>(pos),
                None => Err(ProtocolError::InvalidPosition(id)),
            },
    {
        match id {
            0 => Ok(Position::Left),
            1 => Ok(Position::Right),
            2 => Ok(Position::Top),
            3 => Ok(Position::Bottom),
            _ => Err(ProtocolError::InvalidPosition(id)),
        }
    }

    /// The position's name.
    pub open spec fn text(self) -> Seq<char> {
        match self {
            Position::Left => "left"@,
            Position::Right => "right"@,
            Position::Top => "top"@,
            Position::Bottom => "bottom"@,
        }
    }

    /// The position's name.
    pub fn as_str(self) -> (s: &'static str)
        ensures
            s@ == self.text(),
    {
        match self {
            Position::Left => "left",
            Position::Right => "right",
            Position::Top => "top",
            Position::Bottom => "bottom",
        }
    }
}

impl EventType {
    /// The event id on the wire.
    pub open spec fn id(self) -> u8 {
        match self {
            EventType::PointerMotion => 0,
            EventType::PointerButton => 1,
            EventType::PointerAxis => 2,
            EventType::PointerAxisValue120 => 3,
            EventType::KeyboardKey => 4,
            EventType::KeyboardModifiers => 5,
            EventType::Ping => 6,
            EventType::Pong => 7,
            EventType::Enter => 8,
            EventType::Leave => 9,
            EventType::Ack => 10,
            EventType::Bounds => 11,
            EventType::CursorPos => 13,
            EventType::Hello => 14,
        }
    }

    /// The event type whose id is `id`, where there is one.
    pub open spec fn of_id(id: u8) -> Option<EventType> {
        match id {
            0 => Some(EventType::PointerMotion),
            1 => Some(EventType::PointerButton),
            2 => Some(EventType::PointerAxis),
            3 => Some(EventType::PointerAxisValue120),
            4 => Some(EventType::KeyboardKey),
            5 => Some(EventType::KeyboardModifiers),
            6 => Some(EventType::Ping),
            7 => Some(EventType::Pong),
            8 => Some(EventType::Enter),
            9 => Some(EventType::Leave),
            10 => Some(EventType::Ack),
            11 => Some(EventType::Bounds),
            13 => Some(EventType::CursorPos),
            14 => Some(EventType::Hello),
            _ => None,
        }
    }

    /// The number of bytes that an event of this type takes on the wire.
    pub open spec fn wire_len(self) -> usize {
        match self {
            EventType::PointerMotion => 21,
            EventType::PointerButton => 13,
            EventType::PointerAxis => 14,
            EventType::PointerAxisValue120 => 6,
            EventType::KeyboardKey => 10,
            EventType::KeyboardModifiers => 17,
            EventType::Ping => 1,
            EventType::Pong => 2,
            EventType::Enter => 2,
            EventType::Leave => 5,
            EventType::Ack => 5,
            EventType::Bounds => 9,
            EventType::CursorPos => 10,
            EventType::Hello => 9,
        }
    }

    /// The name under which errors speak of events of this type.
    pub open spec fn name(self) -> &'static str {
        match self {
            EventType::PointerMotion => "PointerMotion",
            EventType::PointerButton => "PointerButton",
            EventType::PointerAxis => "PointerAxis",
            EventType::PointerAxisValue120 => "PointerAxisValue120",
            EventType::KeyboardKey => "KeyboardKey",
            EventType::KeyboardModifiers => "KeyboardModifiers",
            EventType::Ping => "Ping",
            EventType::Pong => "Pong",
            EventType::Enter => "Enter",
            EventType::Leave => "Leave",
            EventType::Ack => "Ack",
            EventType::Bounds => "Bounds",
            EventType::CursorPos => "CursorPos",
            EventType::Hello => "Hello",
        }
    }

    /// The event id on the wire.
    pub fn to_u8(self) -> (id: u8)
        ensures
            id == self.id(),
    {
        match self {
            EventType::PointerMotion => 0,
            EventType::PointerButton => 1,
            EventType::PointerAxis => 2,
            EventType::PointerAxisValue120 => 3,
            EventType::KeyboardKey => 4,
            EventType::KeyboardModifiers => 5,
            EventType::Ping => 6,
            EventType::Pong => 7,
            EventType::Enter => 8,
            EventType::Leave => 9,
            EventType::Ack => 10,
            EventType::Bounds => 11,
            EventType::CursorPos => 13,
            EventType::Hello => 14,
        }
    }

    /// The event type whose id is `id`; an error names the byte.
    pub fn from_u8(id: u8) -> (res: Result<EventType, ProtocolError>)
        ensures
            res == match EventType::of_id(id) {
                Some(t) => Ok::<EventType, ProtocolError>(t),
                None => Err(ProtocolError::InvalidEventId(id)),
            },
    {
        match id {
            0 => Ok(EventType::PointerMotion),
            1 => Ok(EventType::PointerButton),
            2 => Ok(EventType::PointerAxis),
            3 => Ok(EventType::PointerAxisValue120),
            4 => Ok(EventType::KeyboardKey),
            5 => Ok(EventType::KeyboardModifiers),
            6 => Ok(EventType::Ping),
            7 => Ok(EventType::Pong),
            8 => Ok(EventType::Enter),
            9 => Ok(EventType::Leave),
            10 => Ok(EventType::Ack),
            11 => Ok(EventType::Bounds),
            13 => Ok(EventType::CursorPos),
            14 => Ok(EventType::Hello),
            _ => Err(ProtocolError::InvalidEventId(id)),
        }
    }
}

/// What is known of an event from its first byte: its name and its length, or
/// the error that the byte is answered with.
pub open spec fn wire_len_of(event_type: u8) -> Result<(&'static str, usize), ProtocolError> {
    if event_type == RETIRED_MOTION_ABSOLUTE_EVENT_ID {
        Err(ProtocolError::UnsupportedEvent("MotionAbsolute"))
    } else {
        match EventType::of_id(event_type) {
            Some(t) => Ok((t.name(), t.wire_len())),
            None => Err(ProtocolError::InvalidEventId(event_type)),
        }
    }
}

/// The name and the length on the wire of the event that starts with the byte
/// `event_type`.
pub fn event_wire_len(event_type: u8) -> (res: Result<(&'static str, usize), ProtocolError>)
    ensures
        res == wire_len_of(event_type),
{
    if event_type == RETIRED_MOTION_ABSOLUTE_EVENT_ID {
        return Err(ProtocolError::UnsupportedEvent("MotionAbsolute"));
    }
    let event_type = match EventType::from_u8(event_type) {
        Ok(t) => t,
        Err(e) => return Err(e),
    };
    let spec = match event_type {
        EventType::PointerMotion => ("PointerMotion", 1 + 4 + 8 + 8),
        EventType::PointerButton => ("PointerButton", 1 + 4 + 4 + 4),
        EventType::PointerAxis => ("PointerAxis", 1 + 4 + 1 + 8),
        EventType::PointerAxisValue120 => ("PointerAxisValue120", 1 + 1 + 4),
        EventType::KeyboardKey => ("KeyboardKey", 1 + 4 + 4 + 1),
        EventType::KeyboardModifiers => ("KeyboardModifiers", 1 + 4 + 4 + 4 + 4),
        EventType::Ping => ("Ping", 1),
        EventType::Pong => ("Pong", 1 + 1),
        EventType::Enter => ("Enter", 1 + 1),
        EventType::Leave => ("Leave", 1 + 4),
        EventType::Ack => ("Ack", 1 + 4),
        EventType::Bounds => ("Bounds", 1 + 4 + 4),
        EventType::CursorPos => ("CursorPos", 1 + 1 + 4 + 4),
        EventType::Hello => ("Hello", 1 + 8),
    };
    Ok(spec)
}

/// The big-endian bytes of `n`.
pub open spec fn be_bytes_u32(n: u32) -> Seq<u8> {
    seq![
        (n / 0x1000000) as u8,
        ((n / 0x10000) % 0x100) as u8,
        ((n / 0x100) % 0x100) as u8,
        (n % 0x100) as u8,
    ]
}

/// The big-endian bytes of `n`.
pub open spec fn be_bytes_u64(n: u64) -> Seq<u8> {
    be_bytes_u32((n / 0x1_0000_0000) as u32) + be_bytes_u32((n % 0x1_0000_0000) as u32)
}

/// The number whose big-endian bytes stand in `bytes` from `at` on.
pub open spec fn be_u32_at(bytes: Seq<u8>, at: int) -> u32 {
    (bytes[at] * 0x1000000 + bytes[at + 1] * 0x10000 + bytes[at + 2] * 0x100
        + bytes[at + 3]) as u32
}

/// The number whose big-endian bytes stand in `bytes` from `at` on.
pub open spec fn be_u64_at(bytes: Seq<u8>, at: int) -> u64 {
    (be_u32_at(bytes, at) * 0x1_0000_0000 + be_u32_at(bytes, at + 4)) as u64
}

impl ProtoEvent {
    /// The type of the event.
    pub open spec fn kind(self) -> EventType {
        match self {
            ProtoEvent::Input(InputEvent::Pointer(p)) => match p {
                PointerEvent::Motion { .. } => EventType::PointerMotion,
                PointerEvent::Button { .. } => EventType::PointerButton,
                PointerEvent::Axis { .. } => EventType::PointerAxis,
                PointerEvent::AxisDiscrete120 { .. } => EventType::PointerAxisValue120,
            },
            ProtoEvent::Input(InputEvent::Keyboard(k)) => match k {
                KeyboardEvent::Key { .. } => EventType::KeyboardKey,
                KeyboardEvent::Modifiers { .. } => EventType::KeyboardModifiers,
            },
            ProtoEvent::Ping => EventType::Ping,
            ProtoEvent::Pong(_) => EventType::Pong,
            ProtoEvent::Enter(_) => EventType::Enter,
            ProtoEvent::Leave(_) => EventType::Leave,
            ProtoEvent::Ack(_) => EventType::Ack,
            ProtoEvent::Bounds { .. } => EventType::Bounds,
            ProtoEvent::CursorPos { .. } => EventType::CursorPos,
            ProtoEvent::Hello { .. } => EventType::Hello,
        }
    }

    /// The bytes of the event behind its event id.
    pub open spec fn payload(self) -> Seq<u8> {
        match self {
            ProtoEvent::Input(InputEvent::Pointer(p)) => match p {
                PointerEvent::Motion { time, dx, dy } => be_bytes_u32(time) + be_bytes_u64(dx.0)
                    + be_bytes_u64(dy.0),
                PointerEvent::Button { time, button, state } => be_bytes_u32(time) + be_bytes_u32(
                    button,
                ) + be_bytes_u32(state),
                PointerEvent::Axis { time, axis, value } => be_bytes_u32(time) + seq![axis]
                    + be_bytes_u64(value.0),
                PointerEvent::AxisDiscrete120 { axis, value } => seq![axis] + be_bytes_u32(
                    value as u32,
                ),
            },
            ProtoEvent::Input(InputEvent::Keyboard(k)) => match k {
                KeyboardEvent::Key { time, key, state } => be_bytes_u32(time) + be_bytes_u32(key)
                    + seq![state],
                KeyboardEvent::Modifiers { depressed, latched, locked, group } => be_bytes_u32(
                    depressed,
                ) + be_bytes_u32(latched) + be_bytes_u32(locked) + be_bytes_u32(group),
            },
            ProtoEvent::Ping => seq![],
            ProtoEvent::Pong(alive) => seq![if alive { 1u8 } else { 0u8 }],
            ProtoEvent::Enter(pos) => seq![pos.id()],
            ProtoEvent::Leave(serial) => be_bytes_u32(serial),
            ProtoEvent::Ack(serial) => be_bytes_u32(serial),
            ProtoEvent::Bounds { width, height } => be_bytes_u32(width) + be_bytes_u32(height),
            ProtoEvent::CursorPos { pos, nx, ny } => seq![pos.id()] + be_bytes_u32(nx.0)
                + be_bytes_u32(ny.0),
            ProtoEvent::Hello { commit } => commit@,
        }
    }

    /// The event on the wire.
    pub open spec fn wire(self) -> Seq<u8> {
        seq![self.kind().id()] + self.payload()
    }

    /// The type of the event.
    pub fn event_type(&self) -> (t: EventType)
        ensures
            t == self.kind(),
    {
        match self {
            ProtoEvent::Input(e) => match e {
                InputEvent::Pointer(p) => match p {
                    PointerEvent::Motion { .. } => EventType::PointerMotion,
                    PointerEvent::Button { .. } => EventType::PointerButton,
                    PointerEvent::Axis { .. } => EventType::PointerAxis,
                    PointerEvent::AxisDiscrete120 { .. } => EventType::PointerAxisValue120,
                },
                InputEvent::Keyboard(k) => match k {
                    KeyboardEvent::Key { .. } => EventType::KeyboardKey,
                    KeyboardEvent::Modifiers { .. } => EventType::KeyboardModifiers,
                },
            },
            ProtoEvent::Ping => EventType::Ping,
            ProtoEvent::Pong(_) => EventType::Pong,
            ProtoEvent::Enter(_) => EventType::Enter,
            ProtoEvent::Leave(_) => EventType::Leave,
            ProtoEvent::Ack(_) => EventType::Ack,
            ProtoEvent::Bounds { .. } => EventType::Bounds,
            ProtoEvent::CursorPos { .. } => EventType::CursorPos,
            ProtoEvent::Hello { .. } => EventType::Hello,
        }
    }
}

/// The event of type `t` whose bytes are `buf`, where `buf` has the length of
/// such an event.
pub open spec fn decoded_as(t: EventType, buf: Seq<u8>) -> Result<ProtoEvent, ProtocolError> {
    match t {
        EventType::PointerMotion => Ok(
            ProtoEvent::Input(
                InputEvent::Pointer(
                    PointerEvent::Motion {
                        time: be_u32_at(buf, 1),
                        dx: F64Bits(be_u64_at(buf, 5)),
                        dy: F64Bits(be_u64_at(buf, 13)),
                    },
                ),
            ),
        ),
        EventType::PointerButton => Ok(
            ProtoEvent::Input(
                InputEvent::Pointer(
                    PointerEvent::Button {
                        time: be_u32_at(buf, 1),
                        button: be_u32_at(buf, 5),
                        state: be_u32_at(buf, 9),
                    },
                ),
            ),
        ),
        EventType::PointerAxis => Ok(
            ProtoEvent::Input(
                InputEvent::Pointer(
                    PointerEvent::Axis {
                        time: be_u32_at(buf, 1),
                        axis: buf[5],
                        value: F64Bits(be_u64_at(buf, 6)),
                    },
                ),
            ),
        ),
        EventType::PointerAxisValue120 => Ok(
            ProtoEvent::Input(
                InputEvent::Pointer(
                    PointerEvent::AxisDiscrete120 { axis: buf[1], value: be_u32_at(buf, 2) as i32 },
                ),
            ),
        ),
        EventType::KeyboardKey => Ok(
            ProtoEvent::Input(
                InputEvent::Keyboard(
                    KeyboardEvent::Key {
                        time: be_u32_at(buf, 1),
                        key: be_u32_at(buf, 5),
                        state: buf[9],
                    },
                ),
            ),
        ),
        EventType::KeyboardModifiers => Ok(
            ProtoEvent::Input(
                InputEvent::Keyboard(
                    KeyboardEvent::Modifiers {
                        depressed: be_u32_at(buf, 1),
                        latched: be_u32_at(buf, 5),
                        locked: be_u32_at(buf, 9),
                        group: be_u32_at(buf, 13),
                    },
                ),
            ),
        ),
        EventType::Ping => Ok(ProtoEvent::Ping),
        EventType::Pong => Ok(ProtoEvent::Pong(buf[1] != 0)),
        EventType::Enter => match Position::of_id(buf[1]) {
            Some(pos) => Ok(ProtoEvent::Enter(pos)),
            None => Err(ProtocolError::InvalidPosition(buf[1])),
        },
        EventType::Leave => Ok(ProtoEvent::Leave(be_u32_at(buf, 1))),
        EventType::Ack => Ok(ProtoEvent::Ack(be_u32_at(buf, 1))),
        EventType::Bounds => Ok(
            ProtoEvent::Bounds { width: be_u32_at(buf, 1), height: be_u32_at(buf, 5) },
        ),
        EventType::CursorPos => match Position::of_id(buf[1]) {
            Some(pos) => Ok(
                ProtoEvent::CursorPos {
                    pos,
                    nx: F32Bits(be_u32_at(buf, 2)),
                    ny: F32Bits(be_u32_at(buf, 6)),
                },
            ),
            None => Err(ProtocolError::InvalidPosition(buf[1])),
        },
        EventType::Hello => Ok(
            ProtoEvent::Hello {
                commit: [buf[1], buf[2], buf[3], buf[4], buf[5], buf[6], buf[7], buf[8]],
            },
        ),
    }
}

/// What the bytes `buf` are on the wire: an event, if they are exactly those
/// of one, and otherwise the error.
pub open spec fn decoded(buf: Seq<u8>) -> Result<ProtoEvent, ProtocolError> {
    if buf.len() == 0 {
        Err(ProtocolError::Truncated { event: "<event-type>", expected: 1, actual: 0 })
    } else {
        match wire_len_of(buf[0]) {
            Err(e) => Err(e),
            Ok((name, expected)) => if buf.len() != expected {
                Err(
                    ProtocolError::Truncated { event: name, expected, actual: buf.len() as usize },
                )
            } else {
                match EventType::of_id(buf[0]) {
                    Some(t) => decoded_as(t, buf),
                    None => Err(ProtocolError::InvalidEventId(buf[0])),
                }
            },
        }
    }
}

/// The byte of `data` at `at`; moves `at` behind it.
fn decode_u8(data: &[u8], at: &mut usize) -> (n: u8)
    requires
        *old(at) + 1 <= data@.len(),
    ensures
        *final(at) == *old(at) + 1,
        n == data@[*old(at) as int],
{
    let n: u8 = data[*at];
    *at = *at + 1;
    n
}

/// The big-endian number in `data` at `at`; moves `at` behind it.
fn decode_u32(data: &[u8], at: &mut usize) -> (n: u32)
    requires
        *old(at) + 4 <= data@.len(),
    ensures
        *final(at) == *old(at) + 4,
        n == be_u32_at(data@, *old(at) as int),
{
    assert(data.len() == data@.len());
    let i: usize = *at;
    *at = *at + 4;
    data[i] as u32 * 0x1000000 + data[i + 1] as u32 * 0x10000 + data[i + 2] as u32 * 0x100
        + data[i + 3] as u32
}

/// The big-endian two's complement number in `data` at `at`; moves `at`
/// behind it.
fn decode_i32(data: &[u8], at: &mut usize) -> (n: i32)
    requires
        *old(at) + 4 <= data@.len(),
    ensures
        *final(at) == *old(at) + 4,
        n == be_u32_at(data@, *old(at) as int) as i32,
{
    decode_u32(data, at) as i32
}

/// The big-endian bit pattern in `data` at `at`; moves `at` behind it.
fn decode_f32(data: &[u8], at: &mut usize) -> (n: F32Bits)
    requires
        *old(at) + 4 <= data@.len(),
    ensures
        *final(at) == *old(at) + 4,
        n == F32Bits(be_u32_at(data@, *old(at) as int)),
{
    F32Bits(decode_u32(data, at))
}

/// The big-endian bit pattern in `data` at `at`; moves `at` behind it.
fn decode_f64(data: &[u8], at: &mut usize) -> (n: F64Bits)
    requires
        *old(at) + 8 <= data@.len(),
    ensures
        *final(at) == *old(at) + 8,
        n == F64Bits(be_u64_at(data@, *old(at) as int)),
{
    let high: u32 = decode_u32(data, at);
    let low: u32 = decode_u32(data, at);
    F64Bits(high as u64 * 0x1_0000_0000 + low as u64)
}

impl vstd::std_specs::convert::TryFromSpecImpl<&[u8]> for ProtoEvent {
    open spec fn obeys_try_from_spec() -> bool {
        true
    }

    open spec fn try_from_spec(buf: &[u8]) -> Result<ProtoEvent, ProtocolError> {
        decoded(buf@)
    }
}

impl TryFrom<&[u8]> for ProtoEvent {
    type Error = ProtocolError;

    fn try_from(buf: &[u8]) -> (res: Result<ProtoEvent, ProtocolError>) {
        if buf.len() == 0 {
            return Err(ProtocolError::Truncated { event: "<event-type>", expected: 1, actual: 0 });
        }
        let (name, expected) = match event_wire_len(buf[0]) {
            Ok(spec) => spec,
            Err(e) => return Err(e),
        };
        if buf.len() != expected {
            return Err(ProtocolError::Truncated { event: name, expected, actual: buf.len() });
        }
        let mut at: usize = 0;
        let event_type: u8 = decode_u8(buf, &mut at);
        let event_type = match EventType::from_u8(event_type) {
            Ok(t) => t,
            Err(e) => return Err(e),
        };
        match event_type {
            EventType::PointerMotion => {
                let time: u32 = decode_u32(buf, &mut at);
                let dx = decode_f64(buf, &mut at);
                let dy = decode_f64(buf, &mut at);
                Ok(ProtoEvent::Input(InputEvent::Pointer(PointerEvent::Motion { time, dx, dy })))
            },
            EventType::PointerButton => {
                let time: u32 = decode_u32(buf, &mut at);
                let button: u32 = decode_u32(buf, &mut at);
                let state: u32 = decode_u32(buf, &mut at);
                Ok(
                    ProtoEvent::Input(
                        InputEvent::Pointer(PointerEvent::Button { time, button, state }),
                    ),
                )
            },
            EventType::PointerAxis => {
                let time: u32 = decode_u32(buf, &mut at);
                let axis: u8 = decode_u8(buf, &mut at);
                let value = decode_f64(buf, &mut at);
                Ok(ProtoEvent::Input(InputEvent::Pointer(PointerEvent::Axis { time, axis, value })))
            },
            EventType::PointerAxisValue120 => {
                let axis: u8 = decode_u8(buf, &mut at);
                let value: i32 = decode_i32(buf, &mut at);
                Ok(
                    ProtoEvent::Input(
                        InputEvent::Pointer(PointerEvent::AxisDiscrete120 { axis, value }),
                    ),
                )
            },
            EventType::KeyboardKey => {
                let time: u32 = decode_u32(buf, &mut at);
                let key: u32 = decode_u32(buf, &mut at);
                let state: u8 = decode_u8(buf, &mut at);
                Ok(ProtoEvent::Input(InputEvent::Keyboard(KeyboardEvent::Key { time, key, state })))
            },
            EventType::KeyboardModifiers => {
                let depressed: u32 = decode_u32(buf, &mut at);
                let latched: u32 = decode_u32(buf, &mut at);
                let locked: u32 = decode_u32(buf, &mut at);
                let group: u32 = decode_u32(buf, &mut at);
                Ok(
                    ProtoEvent::Input(
                        InputEvent::Keyboard(
                            KeyboardEvent::Modifiers { depressed, latched, locked, group },
                        ),
                    ),
                )
            },
            EventType::Ping => Ok(ProtoEvent::Ping),
            EventType::Pong => Ok(ProtoEvent::Pong(decode_u8(buf, &mut at) != 0)),
            EventType::Enter => match Position::from_u8(decode_u8(buf, &mut at)) {
                Ok(pos) => Ok(ProtoEvent::Enter(pos)),
                Err(e) => Err(e),
            },
            EventType::Leave => Ok(ProtoEvent::Leave(decode_u32(buf, &mut at))),
            EventType::Ack => Ok(ProtoEvent::Ack(decode_u32(buf, &mut at))),
            EventType::Bounds => {
                let width: u32 = decode_u32(buf, &mut at);
                let height: u32 = decode_u32(buf, &mut at);
                Ok(ProtoEvent::Bounds { width, height })
            },
            EventType::CursorPos => {
                let pos = match Position::from_u8(decode_u8(buf, &mut at)) {
                    Ok(pos) => pos,
                    Err(e) => return Err(e),
                };
                let nx = decode_f32(buf, &mut at);
                let ny = decode_f32(buf, &mut at);
                Ok(ProtoEvent::CursorPos { pos, nx, ny })
            },
            EventType::Hello => {
                let commit = [buf[1], buf[2], buf[3], buf[4], buf[5], buf[6], buf[7], buf[8]];
                Ok(ProtoEvent::Hello { commit })
            },
        }
    }
}

impl vstd::std_specs::convert::TryFromSpecImpl<[u8; MAX_EVENT_SIZE]> for ProtoEvent {
    open spec fn obeys_try_from_spec() -> bool {
        true
    }

    open spec fn try_from_spec(buf: [u8; MAX_EVENT_SIZE]) -> Result<ProtoEvent, ProtocolError> {
        decoded(buf@)
    }
}

impl TryFrom<[u8; MAX_EVENT_SIZE]> for ProtoEvent {
    type Error = ProtocolError;

    fn try_from(buf: [u8; MAX_EVENT_SIZE]) -> (res: Result<ProtoEvent, ProtocolError>) {
        ProtoEvent::try_from(buf.as_slice())
    }
}

/// `bytes`, filled up with zeros to the size of an encoding buffer.
pub open spec fn padded(bytes: Seq<u8>) -> Seq<u8> {
    bytes + Seq::new((MAX_EVENT_SIZE - bytes.len()) as nat, |i: int| 0u8)
}

/// An event's bytes in the making: a buffer whose first `len` bytes are
/// written, and which is zero behind them.
struct Encoder {
    buf: [u8; MAX_EVENT_SIZE],
    len: usize,
}

impl Encoder {
    spec fn bytes(self) -> Seq<u8> {
        self.buf@.subrange(0, self.len as int)
    }

    spec fn wf(self) -> bool {
        &&& self.len <= MAX_EVENT_SIZE
        &&& forall|i: int| self.len <= i < MAX_EVENT_SIZE ==> self.buf@[i] == 0
    }

    /// An encoder that has written `n`.
    fn new(n: u8) -> (e: Encoder)
        ensures
            e.wf(),
            e.bytes() == seq![n],
    {
        let mut buf = [0u8; MAX_EVENT_SIZE];
        buf[0] = n;
        Encoder { buf, len: 1 }
    }

    /// Writes a byte.
    fn encode_u8(&mut self, n: u8)
        requires
            old(self).wf(),
            old(self).bytes().len() + 1 <= MAX_EVENT_SIZE,
        ensures
            final(self).wf(),
            final(self).bytes() == old(self).bytes() + seq![n],
    {
        let i: usize = self.len;
        self.buf[i] = n;
        self.len = i + 1;
    }

    /// Writes a number, big-endian.
    fn encode_u32(&mut self, n: u32)
        requires
            old(self).wf(),
            old(self).bytes().len() + 4 <= MAX_EVENT_SIZE,
        ensures
            final(self).wf(),
            final(self).bytes() == old(self).bytes() + be_bytes_u32(n),
    {
        let i: usize = self.len;
        self.buf[i] = (n / 0x1000000) as u8;
        self.buf[i + 1] = ((n / 0x10000) % 0x100) as u8;
        self.buf[i + 2] = ((n / 0x100) % 0x100) as u8;
        self.buf[i + 3] = (n % 0x100) as u8;
        self.len = i + 4;
    }

    /// Writes a two's complement number, big-endian.
    fn encode_i32(&mut self, n: i32)
        requires
            old(self).wf(),
            old(self).bytes().len() + 4 <= MAX_EVENT_SIZE,
        ensures
            final(self).wf(),
            final(self).bytes() == old(self).bytes() + be_bytes_u32(n as u32),
    {
        self.encode_u32(n as u32);
    }

    /// Writes a bit pattern, big-endian.
    fn encode_f32(&mut self, n: F32Bits)
        requires
            old(self).wf(),
            old(self).bytes().len() + 4 <= MAX_EVENT_SIZE,
        ensures
            final(self).wf(),
            final(self).bytes() == old(self).bytes() + be_bytes_u32(n.0),
    {
        self.encode_u32(n.0);
    }

    /// Writes a bit pattern, big-endian.
    fn encode_f64(&mut self, n: F64Bits)
        requires
            old(self).wf(),
            old(self).bytes().len() + 8 <= MAX_EVENT_SIZE,
        ensures
            final(self).wf(),
            final(self).bytes() == old(self).bytes() + be_bytes_u64(n.0),
    {
        self.encode_u32((n.0 / 0x1_0000_0000) as u32);
        self.encode_u32((n.0 % 0x1_0000_0000) as u32);
    }

    /// Writes what a pointer event holds.
    fn encode_pointer(&mut self, p: PointerEvent)
        requires
            old(self).wf(),
            old(self).bytes().len() == 1,
        ensures
            final(self).wf(),
            final(self).bytes() == old(self).bytes() + ProtoEvent::Input(
                InputEvent::Pointer(p),
            ).payload(),
    {
        match p {
            PointerEvent::Motion { time, dx, dy } => {
                self.encode_u32(time);
                self.encode_f64(dx);
                self.encode_f64(dy);
            },
            PointerEvent::Button { time, button, state } => {
                self.encode_u32(time);
                self.encode_u32(button);
                self.encode_u32(state);
            },
            PointerEvent::Axis { time, axis, value } => {
                self.encode_u32(time);
                self.encode_u8(axis);
                self.encode_f64(value);
            },
            PointerEvent::AxisDiscrete120 { axis, value } => {
                self.encode_u8(axis);
                self.encode_i32(value);
            },
        }
    }

    /// Writes what a keyboard event holds.
    fn encode_keyboard(&mut self, k: KeyboardEvent)
        requires
            old(self).wf(),
            old(self).bytes().len() == 1,
        ensures
            final(self).wf(),
            final(self).bytes() == old(self).bytes() + ProtoEvent::Input(
                InputEvent::Keyboard(k),
            ).payload(),
    {
        match k {
            KeyboardEvent::Key { time, key, state } => {
                self.encode_u32(time);
                self.encode_u32(key);
                self.encode_u8(state);
            },
            KeyboardEvent::Modifiers { depressed, latched, locked, group } => {
                self.encode_u32(depressed);
                self.encode_u32(latched);
                self.encode_u32(locked);
                self.encode_u32(group);
            },
        }
    }
}

/// Encodes an event: a buffer that starts with the event's bytes and is zero
/// behind them, and the number of those bytes.
pub fn encode(event: ProtoEvent) -> (res: ([u8; MAX_EVENT_SIZE], usize))
    ensures
        res.0@ == padded(event.wire()),
        res.1 == event.wire().len(),
        res.1 == event.kind().wire_len(),
{
    let mut out = Encoder::new(event.event_type().to_u8());
    let ghost head = out.bytes();
    match event {
        ProtoEvent::Input(InputEvent::Pointer(p)) => out.encode_pointer(p),
        ProtoEvent::Input(InputEvent::Keyboard(k)) => out.encode_keyboard(k),
        ProtoEvent::Ping => {},
        ProtoEvent::Pong(alive) => out.encode_u8(if alive { 1 } else { 0 }),
        ProtoEvent::Enter(pos) => out.encode_u8(pos.to_u8()),
        ProtoEvent::Leave(serial) => out.encode_u32(serial),
        ProtoEvent::Ack(serial) => out.encode_u32(serial),
        ProtoEvent::Bounds { width, height } => {
            out.encode_u32(width);
            out.encode_u32(height);
        },
        ProtoEvent::CursorPos { pos, nx, ny } => {
            out.encode_u8(pos.to_u8());
            out.encode_f32(nx);
            out.encode_f32(ny);
        },
        ProtoEvent::Hello { commit } => {
            let mut i: usize = 0;
            while i < 8
                invariant
                    i <= 8,
                    head.len() == 1,
                    out.wf(),
                    out.bytes() == head + commit@.subrange(0, i as int),
                decreases 8 - i,
            {
                out.encode_u8(commit[i]);
                i = i + 1;
            }
        },
    }
    assert(out.bytes() =~= event.wire());
    assert(out.buf@ =~= padded(out.bytes()));
    (out.buf, out.len)
}

impl vstd::std_specs::convert::FromSpecImpl<ProtoEvent> for ([u8; MAX_EVENT_SIZE], usize) {
    open spec fn obeys_from_spec() -> bool {
        true
    }

    open spec fn from_spec(event: ProtoEvent) -> ([u8; MAX_EVENT_SIZE], usize) {
        (
            choose|buf: [u8; MAX_EVENT_SIZE]| #[trigger] buf@ == padded(event.wire()),
            event.wire().len() as usize,
        )
    }
}

impl From<ProtoEvent> for ([u8; MAX_EVENT_SIZE], usize) {
    fn from(event: ProtoEvent) -> (res: ([u8; MAX_EVENT_SIZE], usize)) {
        let (buf, len) = encode(event);
        proof {
            let chosen: [u8; MAX_EVENT_SIZE] =
                choose|b: [u8; MAX_EVENT_SIZE]| #[trigger] b@ == padded(event.wire());
            assert(buf@ == padded(event.wire()));
            assert(chosen =~= buf);
        }
        (buf, len)
    }
}

proof fn lemma_u32_digits(a: u8, b: u8, c: u8, d: u8, n: u32)
    by (bit_vector)
    requires
        n == a * 0x1000000 + b * 0x10000 + c * 0x100 + d,
    ensures
        n / 0x1000000 == a,
        (n / 0x10000) % 0x100 == b,
        (n / 0x100) % 0x100 == c,
        n % 0x100 == d,
{
}

proof fn lemma_u32_from_digits(n: u32)
    by (bit_vector)
    ensures
        n == ((n / 0x1000000) as u8) * 0x1000000 + (((n / 0x10000) % 0x100) as u8) * 0x10000 + (((n
            / 0x100) % 0x100) as u8) * 0x100 + ((n % 0x100) as u8),
{
}

/// The four bytes of a number are read back as that number.
proof fn lemma_u32_read_back(bytes: Seq<u8>, at: int, n: u32)
    requires
        0 <= at,
        at + 4 <= bytes.len(),
        bytes.subrange(at, at + 4) == be_bytes_u32(n),
    ensures
        be_u32_at(bytes, at) == n,
{
    let w = bytes.subrange(at, at + 4);
    assert(w[0] == bytes[at] && w[1] == bytes[at + 1] && w[2] == bytes[at + 2] && w[3] == bytes[at
        + 3]);
    lemma_u32_from_digits(n);
}

/// The eight bytes of a number are read back as that number.
proof fn lemma_u64_read_back(bytes: Seq<u8>, at: int, n: u64)
    requires
        0 <= at,
        at + 8 <= bytes.len(),
        bytes.subrange(at, at + 8) == be_bytes_u64(n),
    ensures
        be_u64_at(bytes, at) == n,
{
    let high = (n / 0x1_0000_0000) as u32;
    let low = (n % 0x1_0000_0000) as u32;
    assert(bytes.subrange(at, at + 4) =~= bytes.subrange(at, at + 8).subrange(0, 4));
    assert(be_bytes_u64(n).subrange(0, 4) =~= be_bytes_u32(high));
    assert(bytes.subrange(at + 4, at + 8) =~= bytes.subrange(at, at + 8).subrange(4, 8));
    assert(be_bytes_u64(n).subrange(4, 8) =~= be_bytes_u32(low));
    lemma_u32_read_back(bytes, at, high);
    lemma_u32_read_back(bytes, at + 4, low);
}

/// A number is made of the four bytes that it was read from.
proof fn lemma_u32_written_back(bytes: Seq<u8>, at: int)
    requires
        0 <= at,
        at + 4 <= bytes.len(),
    ensures
        be_bytes_u32(be_u32_at(bytes, at)) == bytes.subrange(at, at + 4),
{
    let n = be_u32_at(bytes, at);
    lemma_u32_digits(bytes[at], bytes[at + 1], bytes[at + 2], bytes[at + 3], n);
    assert(be_bytes_u32(n) =~= bytes.subrange(at, at + 4));
}

/// A number is made of the eight bytes that it was read from.
proof fn lemma_u64_written_back(bytes: Seq<u8>, at: int)
    requires
        0 <= at,
        at + 8 <= bytes.len(),
    ensures
        be_bytes_u64(be_u64_at(bytes, at)) == bytes.subrange(at, at + 8),
{
    let n = be_u64_at(bytes, at);
    let high = be_u32_at(bytes, at);
    let low = be_u32_at(bytes, at + 4);
    assert(n == high * 0x1_0000_0000 + low);
    assert(n / 0x1_0000_0000 == high);
    assert(n % 0x1_0000_0000 == low);
    lemma_u32_written_back(bytes, at);
    lemma_u32_written_back(bytes, at + 4);
    assert(bytes.subrange(at, at + 4) + bytes.subrange(at + 4, at + 8) =~= bytes.subrange(
        at,
        at + 8,
    ));
}

/// The bytes of a pointer motion decode to that event.
#[verifier::spinoff_prover]
#[verifier::rlimit(40)]
proof fn lemma_motion_read_back(time: u32, dx: F64Bits, dy: F64Bits)
    ensures
        decoded(ProtoEvent::Input(InputEvent::Pointer(PointerEvent::Motion { time, dx, dy })).wire()) == Ok::<ProtoEvent, ProtocolError>(
            ProtoEvent::Input(InputEvent::Pointer(PointerEvent::Motion { time, dx, dy })),
        ),
{
    let w = ProtoEvent::Input(InputEvent::Pointer(PointerEvent::Motion { time, dx, dy })).wire();
    assert(w.subrange(1, 5) =~= be_bytes_u32(time));
    assert(w.subrange(5, 13) =~= be_bytes_u64(dx.0));
    assert(w.subrange(13, 21) =~= be_bytes_u64(dy.0));
    lemma_u32_read_back(w, 1, time);
    lemma_u64_read_back(w, 5, dx.0);
    lemma_u64_read_back(w, 13, dy.0);
}

/// The bytes of a button event decode to that event.
proof fn lemma_button_read_back(time: u32, button: u32, state: u32)
    ensures
        decoded(ProtoEvent::Input(InputEvent::Pointer(PointerEvent::Button { time, button, state })).wire()) == Ok::<ProtoEvent, ProtocolError>(
            ProtoEvent::Input(InputEvent::Pointer(PointerEvent::Button { time, button, state })),
        ),
{
    let w = ProtoEvent::Input(InputEvent::Pointer(PointerEvent::Button { time, button, state })).wire();
    assert(w.subrange(1, 5) =~= be_bytes_u32(time));
    assert(w.subrange(5, 9) =~= be_bytes_u32(button));
    assert(w.subrange(9, 13) =~= be_bytes_u32(state));
    lemma_u32_read_back(w, 1, time);
    lemma_u32_read_back(w, 5, button);
    lemma_u32_read_back(w, 9, state);
}

/// The bytes of a scroll event decode to that event.
proof fn lemma_axis_read_back(time: u32, axis: u8, value: F64Bits)
    ensures
        decoded(ProtoEvent::Input(InputEvent::Pointer(PointerEvent::Axis { time, axis, value })).wire()) == Ok::<ProtoEvent, ProtocolError>(
            ProtoEvent::Input(InputEvent::Pointer(PointerEvent::Axis { time, axis, value })),
        ),
{
    let w = ProtoEvent::Input(InputEvent::Pointer(PointerEvent::Axis { time, axis, value })).wire();
    assert(w.subrange(1, 5) =~= be_bytes_u32(time));
    assert(w.subrange(6, 14) =~= be_bytes_u64(value.0));
    lemma_u32_read_back(w, 1, time);
    lemma_u64_read_back(w, 6, value.0);
}

/// The bytes of a wheel event decode to that event.
proof fn lemma_wheel_read_back(axis: u8, value: i32)
    ensures
        decoded(ProtoEvent::Input(InputEvent::Pointer(PointerEvent::AxisDiscrete120 { axis, value })).wire()) == Ok::<ProtoEvent, ProtocolError>(
            ProtoEvent::Input(InputEvent::Pointer(PointerEvent::AxisDiscrete120 { axis, value })),
        ),
{
    let w = ProtoEvent::Input(InputEvent::Pointer(PointerEvent::AxisDiscrete120 { axis, value })).wire();
    assert(w.subrange(2, 6) =~= be_bytes_u32(value as u32));
    lemma_u32_read_back(w, 2, value as u32);
    assert((value as u32) as i32 == value) by (bit_vector);
}

/// The bytes of a key event decode to that event.
proof fn lemma_key_read_back(time: u32, key: u32, state: u8)
    ensures
        decoded(ProtoEvent::Input(InputEvent::Keyboard(KeyboardEvent::Key { time, key, state })).wire()) == Ok::<ProtoEvent, ProtocolError>(
            ProtoEvent::Input(InputEvent::Keyboard(KeyboardEvent::Key { time, key, state })),
        ),
{
    let w = ProtoEvent::Input(InputEvent::Keyboard(KeyboardEvent::Key { time, key, state })).wire();
    assert(w.subrange(1, 5) =~= be_bytes_u32(time));
    assert(w.subrange(5, 9) =~= be_bytes_u32(key));
    lemma_u32_read_back(w, 1, time);
    lemma_u32_read_back(w, 5, key);
}

/// The bytes of modifier masks decode to that event.
proof fn lemma_modifiers_read_back(depressed: u32, latched: u32, locked: u32, group: u32)
    ensures
        decoded(ProtoEvent::Input(InputEvent::Keyboard(KeyboardEvent::Modifiers { depressed, latched, locked, group })).wire()) == Ok::<ProtoEvent, ProtocolError>(
            ProtoEvent::Input(InputEvent::Keyboard(KeyboardEvent::Modifiers { depressed, latched, locked, group })),
        ),
{
    let w = ProtoEvent::Input(InputEvent::Keyboard(KeyboardEvent::Modifiers { depressed, latched, locked, group })).wire();
    assert(w.subrange(1, 5) =~= be_bytes_u32(depressed));
    assert(w.subrange(5, 9) =~= be_bytes_u32(latched));
    assert(w.subrange(9, 13) =~= be_bytes_u32(locked));
    assert(w.subrange(13, 17) =~= be_bytes_u32(group));
    lemma_u32_read_back(w, 1, depressed);
    lemma_u32_read_back(w, 5, latched);
    lemma_u32_read_back(w, 9, locked);
    lemma_u32_read_back(w, 13, group);
}

/// The bytes of a serial's event decode to that event.
proof fn lemma_serial_read_back(serial: u32)
    ensures
        decoded(ProtoEvent::Leave(serial).wire()) == Ok::<ProtoEvent, ProtocolError>(
            ProtoEvent::Leave(serial),
        ),
        decoded(ProtoEvent::Ack(serial).wire()) == Ok::<ProtoEvent, ProtocolError>(
            ProtoEvent::Ack(serial),
        ),
{
    let l = ProtoEvent::Leave(serial).wire();
    let a = ProtoEvent::Ack(serial).wire();
    assert(l.subrange(1, 5) =~= be_bytes_u32(serial));
    assert(a.subrange(1, 5) =~= be_bytes_u32(serial));
    lemma_u32_read_back(l, 1, serial);
    lemma_u32_read_back(a, 1, serial);
}

/// The bytes of a display size decode to that event.
proof fn lemma_bounds_read_back(width: u32, height: u32)
    ensures
        decoded(ProtoEvent::Bounds { width, height }.wire()) == Ok::<ProtoEvent, ProtocolError>(
            ProtoEvent::Bounds { width, height },
        ),
{
    let w = ProtoEvent::Bounds { width, height }.wire();
    assert(w.subrange(1, 5) =~= be_bytes_u32(width));
    assert(w.subrange(5, 9) =~= be_bytes_u32(height));
    lemma_u32_read_back(w, 1, width);
    lemma_u32_read_back(w, 5, height);
}

/// The bytes of a cursor position decode to that event.
proof fn lemma_cursor_read_back(pos: Position, nx: F32Bits, ny: F32Bits)
    ensures
        decoded(ProtoEvent::CursorPos { pos, nx, ny }.wire()) == Ok::<ProtoEvent, ProtocolError>(
            ProtoEvent::CursorPos { pos, nx, ny },
        ),
{
    let w = ProtoEvent::CursorPos { pos, nx, ny }.wire();
    assert(w.subrange(2, 6) =~= be_bytes_u32(nx.0));
    assert(w.subrange(6, 10) =~= be_bytes_u32(ny.0));
    lemma_u32_read_back(w, 2, nx.0);
    lemma_u32_read_back(w, 6, ny.0);
}

/// The bytes of a build identification decode to that event.
proof fn lemma_hello_read_back(commit: [u8; 8])
    ensures
        decoded(ProtoEvent::Hello { commit }.wire()) == Ok::<ProtoEvent, ProtocolError>(
            ProtoEvent::Hello { commit },
        ),
{
    let w = ProtoEvent::Hello { commit }.wire();
    let read = [w[1], w[2], w[3], w[4], w[5], w[6], w[7], w[8]];
    assert(read@ =~= commit@);
    assert(read =~= commit);
}

/// A read gives back what a write wrote: the bytes of every event decode to
/// that event.
pub proof fn decoding_undoes_encoding(event: ProtoEvent)
    ensures
        decoded(event.wire()) == Ok::<ProtoEvent, ProtocolError>(event),
{
    match event {
        ProtoEvent::Input(InputEvent::Pointer(p)) => match p {
            PointerEvent::Motion { time, dx, dy } => lemma_motion_read_back(time, dx, dy),
            PointerEvent::Button { time, button, state } => lemma_button_read_back(
                time,
                button,
                state,
            ),
            PointerEvent::Axis { time, axis, value } => lemma_axis_read_back(time, axis, value),
            PointerEvent::AxisDiscrete120 { axis, value } => lemma_wheel_read_back(axis, value),
        },
        ProtoEvent::Input(InputEvent::Keyboard(k)) => match k {
            KeyboardEvent::Key { time, key, state } => lemma_key_read_back(time, key, state),
            KeyboardEvent::Modifiers { depressed, latched, locked, group } =>
                lemma_modifiers_read_back(depressed, latched, locked, group),
        },
        ProtoEvent::Leave(serial) => lemma_serial_read_back(serial),
        ProtoEvent::Ack(serial) => lemma_serial_read_back(serial),
        ProtoEvent::Bounds { width, height } => lemma_bounds_read_back(width, height),
        ProtoEvent::CursorPos { pos, nx, ny } => lemma_cursor_read_back(pos, nx, ny),
        ProtoEvent::Hello { commit } => lemma_hello_read_back(commit),
        ProtoEvent::Ping => {},
        ProtoEvent::Pong(alive) => {},
        ProtoEvent::Enter(pos) => {},
    }
}

/// Bytes that decode to an event are the bytes of that event. The one
/// exception is a pong whose flag byte is neither 0 nor 1.
#[verifier::rlimit(60)]
pub proof fn encoding_undoes_decoding(buf: Seq<u8>, event: ProtoEvent)
    requires
        decoded(buf) == Ok::<ProtoEvent, ProtocolError>(event),
        event is Pong ==> buf[1] <= 1,
    ensures
        event.wire() == buf,
{
    let w = event.wire();
    match event {
        ProtoEvent::Input(InputEvent::Pointer(p)) => match p {
            PointerEvent::Motion { .. } => {
                lemma_u32_written_back(buf, 1);
                lemma_u64_written_back(buf, 5);
                lemma_u64_written_back(buf, 13);
            },
            PointerEvent::Button { .. } => {
                lemma_u32_written_back(buf, 1);
                lemma_u32_written_back(buf, 5);
                lemma_u32_written_back(buf, 9);
            },
            PointerEvent::Axis { .. } => {
                lemma_u32_written_back(buf, 1);
                lemma_u64_written_back(buf, 6);
            },
            PointerEvent::AxisDiscrete120 { axis, value } => {
                let n = be_u32_at(buf, 2);
                assert((n as i32) as u32 == n) by (bit_vector);
                lemma_u32_written_back(buf, 2);
            },
        },
        ProtoEvent::Input(InputEvent::Keyboard(k)) => match k {
            KeyboardEvent::Key { .. } => {
                lemma_u32_written_back(buf, 1);
                lemma_u32_written_back(buf, 5);
            },
            KeyboardEvent::Modifiers { .. } => {
                lemma_u32_written_back(buf, 1);
                lemma_u32_written_back(buf, 5);
                lemma_u32_written_back(buf, 9);
                lemma_u32_written_back(buf, 13);
            },
        },
        ProtoEvent::Leave(_) | ProtoEvent::Ack(_) => {
            lemma_u32_written_back(buf, 1);
        },
        ProtoEvent::Bounds { .. } => {
            lemma_u32_written_back(buf, 1);
            lemma_u32_written_back(buf, 5);
        },
        ProtoEvent::CursorPos { .. } => {
            lemma_u32_written_back(buf, 2);
            lemma_u32_written_back(buf, 6);
        },
        _ => {},
    }
    assert(w =~= buf);
}

/// No event is longer than an encoding buffer, and an event's first byte
/// gives its length away.
pub proof fn first_byte_gives_length(event: ProtoEvent)
    ensures
        1 <= event.wire().len() <= MAX_EVENT_SIZE,
        wire_len_of(event.wire()[0]) == Ok::<(&'static str, usize), ProtocolError>(
            (event.kind().name(), event.wire().len() as usize),
        ),
{
}

/// An event is accepted at its exact length only: what is shorter or longer
/// than the first byte tells is refused, and the refusal names both lengths.
pub proof fn other_lengths_are_refused(buf: Seq<u8>)
    requires
        0 < buf.len() <= usize::MAX,
        EventType::of_id(buf[0]) is Some,
        buf.len() != EventType::of_id(buf[0])->0.wire_len(),
    ensures
        decoded(buf) == Err::<ProtoEvent, ProtocolError>(
            ProtocolError::Truncated {
                event: EventType::of_id(buf[0])->0.name(),
                expected: EventType::of_id(buf[0])->0.wire_len(),
                actual: buf.len() as usize,
            },
        ),
{
}

/// A buffer that starts with the retired event id is refused, whatever
/// follows, and so is one that starts with an unknown id.
pub proof fn foreign_ids_are_refused(buf: Seq<u8>)
    requires
        buf.len() > 0,
        EventType::of_id(buf[0]) is None,
    ensures
        decoded(buf) == Err::<ProtoEvent, ProtocolError>(
            if buf[0] == RETIRED_MOTION_ABSOLUTE_EVENT_ID {
                ProtocolError::UnsupportedEvent("MotionAbsolute")
            } else {
                ProtocolError::InvalidEventId(buf[0])
            },
        ),
{
}

/// The `len` lowest bytes of `n`, the most significant one first.
pub open spec fn network_order(n: nat, len: nat) -> Seq<u8>
    decreases len,
{
    if len == 0 {
        seq![]
    } else {
        network_order(n / 256, (len - 1) as nat).push((n % 256) as u8)
    }
}

#[verifier::rlimit(40)]
proof fn lemma_network_order(n: u32)
    ensures
        be_bytes_u32(n) == network_order(n as nat, 4),
{
    reveal_with_fuel(network_order, 5);
    let m = n as nat;
    assert(m / 256 / 256 == m / 0x10000);
    assert(m / 256 / 256 / 256 == m / 0x1000000);
    assert(be_bytes_u32(n) =~= network_order(m, 4));
}

/// The four lowest bytes follow on those above them.
proof fn lemma_network_order_splits(n: nat, k: nat)
    ensures
        network_order(n, k + 4) == network_order(n / 256 / 256 / 256 / 256, k).push(
            (n / 256 / 256 / 256 % 256) as u8,
        ).push((n / 256 / 256 % 256) as u8).push((n / 256 % 256) as u8).push((n % 256) as u8),
{
    let a = n / 256;
    let b = a / 256;
    let c = b / 256;
    assert(network_order(n, k + 4) == network_order(a, k + 3).push((n % 256) as u8));
    assert(network_order(a, k + 3) == network_order(b, k + 2).push((a % 256) as u8));
    assert(network_order(b, k + 2) == network_order(c, k + 1).push((b % 256) as u8));
    assert(network_order(c, k + 1) == network_order(c / 256, k).push((c % 256) as u8));
}

#[verifier::rlimit(40)]
proof fn lemma_low_bytes(hi: nat, lo: nat, m: nat)
    requires
        m == hi * 0x1_0000_0000 + lo,
        lo < 0x1_0000_0000,
    ensures
        m / 256 / 256 / 256 / 256 == hi,
        m % 256 == lo % 256,
        m / 256 % 256 == lo / 256 % 256,
        m / 256 / 256 % 256 == lo / 256 / 256 % 256,
        m / 256 / 256 / 256 % 256 == lo / 256 / 256 / 256 % 256,
{
    assert(m / 256 == hi * 0x1_0000_00 + lo / 256);
    assert(m / 256 / 256 == hi * 0x1_0000 + lo / 256 / 256);
    assert(m / 256 / 256 / 256 == hi * 0x100 + lo / 256 / 256 / 256);
}

proof fn lemma_network_order_wide(n: u64)
    ensures
        be_bytes_u64(n) == network_order(n as nat, 8),
{
    let m = n as nat;
    let hi = m / 0x1_0000_0000;
    let lo = m % 0x1_0000_0000;
    lemma_network_order(hi as u32);
    lemma_network_order(lo as u32);
    lemma_low_bytes(hi, lo, m);
    lemma_network_order_splits(m, 4);
    lemma_network_order_splits(lo, 0);
    let low = network_order(lo, 4);
    assert(network_order(m, 8) =~= network_order(hi, 4) + low);
}

/// The wire format: each event starts with its number, and its fields follow in
/// order, every number with its most significant byte first.
#[verifier::rlimit(40)]
pub proof fn wire_format(event: ProtoEvent)
    ensures
        event.wire() == match event {
            ProtoEvent::Input(InputEvent::Pointer(PointerEvent::Motion { time, dx, dy })) => seq![
                0u8,
            ] + network_order(time as nat, 4) + network_order(dx.0 as nat, 8) + network_order(
                dy.0 as nat,
                8,
            ),
            ProtoEvent::Input(
                InputEvent::Pointer(PointerEvent::Button { time, button, state }),
            ) => seq![1u8] + network_order(time as nat, 4) + network_order(button as nat, 4)
                + network_order(state as nat, 4),
            ProtoEvent::Input(InputEvent::Pointer(PointerEvent::Axis { time, axis, value })) =>
                seq![2u8] + network_order(time as nat, 4) + seq![axis] + network_order(
                value.0 as nat,
                8,
            ),
            ProtoEvent::Input(
                InputEvent::Pointer(PointerEvent::AxisDiscrete120 { axis, value }),
            ) => seq![3u8, axis] + network_order(value as u32 as nat, 4),
            ProtoEvent::Input(InputEvent::Keyboard(KeyboardEvent::Key { time, key, state })) =>
                seq![4u8] + network_order(time as nat, 4) + network_order(key as nat, 4) + seq![
                state,
            ],
            ProtoEvent::Input(
                InputEvent::Keyboard(
                    KeyboardEvent::Modifiers { depressed, latched, locked, group },
                ),
            ) => seq![5u8] + network_order(depressed as nat, 4) + network_order(latched as nat, 4)
                + network_order(locked as nat, 4) + network_order(group as nat, 4),
            ProtoEvent::Ping => seq![6u8],
            ProtoEvent::Pong(alive) => seq![7u8, if alive { 1u8 } else { 0u8 }],
            ProtoEvent::Enter(pos) => seq![
                8u8,
                match pos {
                    Position::Left => 0u8,
                    Position::Right => 1u8,
                    Position::Top => 2u8,
                    Position::Bottom => 3u8,
                },
            ],
            ProtoEvent::Leave(serial) => seq![9u8] + network_order(serial as nat, 4),
            ProtoEvent::Ack(serial) => seq![10u8] + network_order(serial as nat, 4),
            ProtoEvent::Bounds { width, height } => seq![11u8] + network_order(width as nat, 4)
                + network_order(height as nat, 4),
            ProtoEvent::CursorPos { pos, nx, ny } => seq![
                13u8,
                match pos {
                    Position::Left => 0u8,
                    Position::Right => 1u8,
                    Position::Top => 2u8,
                    Position::Bottom => 3u8,
                },
            ] + network_order(nx.0 as nat, 4) + network_order(ny.0 as nat, 4),
            ProtoEvent::Hello { commit } => seq![14u8] + commit@,
        },
{
    match event {
        ProtoEvent::Input(InputEvent::Pointer(PointerEvent::Motion { time, dx, dy })) => {
            lemma_network_order(time);
            lemma_network_order_wide(dx.0);
            lemma_network_order_wide(dy.0);
            assert(event.wire() =~= seq![0u8] + be_bytes_u32(time) + be_bytes_u64(dx.0)
                + be_bytes_u64(dy.0));
        },
        ProtoEvent::Input(InputEvent::Pointer(PointerEvent::Button { time, button, state })) => {
            lemma_network_order(time);
            lemma_network_order(button);
            lemma_network_order(state);
            assert(event.wire() =~= seq![1u8] + be_bytes_u32(time) + be_bytes_u32(button)
                + be_bytes_u32(state));
        },
        ProtoEvent::Input(InputEvent::Pointer(PointerEvent::Axis { time, axis, value })) => {
            lemma_network_order(time);
            lemma_network_order_wide(value.0);
            assert(event.wire() =~= seq![2u8] + be_bytes_u32(time) + seq![axis] + be_bytes_u64(
                value.0,
            ));
        },
        ProtoEvent::Input(InputEvent::Pointer(PointerEvent::AxisDiscrete120 { axis, value })) => {
            lemma_network_order(value as u32);
            assert(event.wire() =~= seq![3u8, axis] + be_bytes_u32(value as u32));
        },
        ProtoEvent::Input(InputEvent::Keyboard(KeyboardEvent::Key { time, key, state })) => {
            lemma_network_order(time);
            lemma_network_order(key);
            assert(event.wire() =~= seq![4u8] + be_bytes_u32(time) + be_bytes_u32(key) + seq![
                state,
            ]);
        },
        ProtoEvent::Input(
            InputEvent::Keyboard(KeyboardEvent::Modifiers { depressed, latched, locked, group }),
        ) => {
            lemma_network_order(depressed);
            lemma_network_order(latched);
            lemma_network_order(locked);
            lemma_network_order(group);
            assert(event.wire() =~= seq![5u8] + be_bytes_u32(depressed) + be_bytes_u32(latched)
                + be_bytes_u32(locked) + be_bytes_u32(group));
        },
        ProtoEvent::Ping => {
            assert(event.wire() =~= seq![6u8]);
        },
        ProtoEvent::Pong(alive) => {
            assert(event.wire() =~= seq![7u8, if alive { 1u8 } else { 0u8 }]);
        },
        ProtoEvent::Enter(pos) => {
            assert(event.wire() =~= seq![8u8, pos.id()]);
        },
        ProtoEvent::Leave(serial) => {
            lemma_network_order(serial);
        },
        ProtoEvent::Ack(serial) => {
            lemma_network_order(serial);
        },
        ProtoEvent::Bounds { width, height } => {
            lemma_network_order(width);
            lemma_network_order(height);
            assert(event.wire() =~= seq![11u8] + be_bytes_u32(width) + be_bytes_u32(height));
        },
        ProtoEvent::CursorPos { pos, nx, ny } => {
            lemma_network_order(nx.0);
            lemma_network_order(ny.0);
            assert(event.wire() =~= seq![13u8, pos.id()] + be_bytes_u32(nx.0) + be_bytes_u32(
                ny.0,
            ));
        },
        ProtoEvent::Hello { .. } => {},
    }
}

/// The answer to a ping is read as it was meant: zero says that the peer cannot
/// emulate input, and every other byte that it can.
pub proof fn pong_is_read_as_meant(b: u8)
    ensures
        decoded(seq![7u8, b]) == Ok::<ProtoEvent, ProtocolError>(ProtoEvent::Pong(b != 0)),
{
}

/// Nothing but the fourteen events is read, each from as many bytes as it has;
/// the number 12 is that of an event which is no longer supported.
#[verifier::rlimit(40)]
pub proof fn only_events_are_read(buf: Seq<u8>)
    requires
        buf.len() <= usize::MAX,
    ensures
        decoded(buf) is Ok ==> buf.len() > 0 && buf.len() == if buf[0] == 0 {
            21
        } else if buf[0] == 1 {
            13
        } else if buf[0] == 2 {
            14
        } else if buf[0] == 3 {
            6
        } else if buf[0] == 4 {
            10
        } else if buf[0] == 5 {
            17
        } else if buf[0] == 6 {
            1
        } else if buf[0] == 7 || buf[0] == 8 {
            2
        } else if buf[0] == 9 || buf[0] == 10 {
            5
        } else if buf[0] == 11 || buf[0] == 14 {
            9
        } else if buf[0] == 13 {
            10int
        } else {
            -1
        },
        buf.len() > 0 && buf[0] == 12 ==> decoded(buf) == Err::<ProtoEvent, ProtocolError>(
            ProtocolError::UnsupportedEvent("MotionAbsolute"),
        ),
        buf.len() > 0 && buf[0] > 14 ==> decoded(buf) == Err::<ProtoEvent, ProtocolError>(
            ProtocolError::InvalidEventId(buf[0]),
        ),
        buf.len() == 2 && buf[0] == 8 && buf[1] > 3 ==> decoded(buf) == Err::<
            ProtoEvent,
            ProtocolError,
        >(ProtocolError::InvalidPosition(buf[1])),
{
}

/// Two events with the same bytes are the same event.
pub proof fn encoding_is_injective(a: ProtoEvent, b: ProtoEvent)
    requires
        a.wire() == b.wire(),
    ensures
        a == b,
{
    decoding_undoes_encoding(a);
    decoding_undoes_encoding(b);
}

impl ProtocolError {
    /// The sentence that tells of the error.
    pub open spec fn text(self) -> Seq<char> {
        match self {
            ProtocolError::InvalidEventId(id) =>
                "invalid event id: `No discriminant in enum `EventType` matches the value `"@
                + decimal(id as nat) + "``"@,
            ProtocolError::InvalidPosition(id) =>
                "invalid event id: `No discriminant in enum `Position` matches the value `"@
                + decimal(id as nat) + "``"@,
            ProtocolError::UnsupportedEvent(name) => "unsupported event: `"@ + name@ + "`"@,
            ProtocolError::Truncated { event, expected, actual } => "truncated event `"@ + event@
                + "`: expected "@ + decimal(expected as nat) + " bytes, got "@ + decimal(
                actual as nat,
            ),
        }
    }

    /// The sentence that tells of the error.
    pub fn message(self) -> (s: String)
        ensures
            s@ == self.text(),
    {
        match self {
            ProtocolError::InvalidEventId(id) => {
                let mut s = String::from_str(
                    "invalid event id: `No discriminant in enum `EventType` matches the value `",
                );
                s.append(decimal_of(id as u64).as_str());
                s.append("``");
                s
            },
            ProtocolError::InvalidPosition(id) => {
                let mut s = String::from_str(
                    "invalid event id: `No discriminant in enum `Position` matches the value `",
                );
                s.append(decimal_of(id as u64).as_str());
                s.append("``");
                s
            },
            ProtocolError::UnsupportedEvent(name) => {
                let mut s = String::from_str("unsupported event: `");
                s.append(name);
                s.append("`");
                s
            },
            ProtocolError::Truncated { event, expected, actual } => {
                let mut s = String::from_str("truncated event `");
                s.append(event);
                s.append("`: expected ");
                s.append(decimal_of(expected as u64).as_str());
                s.append(" bytes, got ");
                s.append(decimal_of(actual as u64).as_str());
                s
            },
        }
    }
}

/// Calls `std::str::from_utf8`: valid UTF-8 is the text that it encodes, and
/// other bytes are none.
#[verifier::external_body]
fn utf8_text(bytes: &[u8]) -> (r: Option<String>)
    ensures
        match r {
            Some(s) => valid_utf8(bytes@) && s@ == decode_utf8(bytes@),
            None => !valid_utf8(bytes@),
        },
{
    std::str::from_utf8(bytes).ok().map(|s| s.to_owned())
}

/// The text of a build; question marks, if it is not valid UTF-8.
pub open spec fn commit_text(commit: Seq<u8>) -> Seq<char> {
    if valid_utf8(commit) {
        decode_utf8(commit)
    } else {
        "????????"@
    }
}

/// The text of a build.
pub(crate) fn commit_text_of(commit: &[u8; 8]) -> (s: String)
    ensures
        s@ == commit_text(commit@),
{
    match utf8_text(commit.as_slice()) {
        Some(text) => text,
        None => String::from_str("????????"),
    }
}

impl ProtoEvent {
    /// The text of an event. Those of an input event and of the coordinates of
    /// a cursor are given.
    pub open spec fn text(self, input: Seq<char>, nx: Seq<char>, ny: Seq<char>) -> Seq<char> {
        match self {
            ProtoEvent::Enter(pos) => "Enter("@ + pos.text() + ")"@,
            ProtoEvent::Leave(n) => "Leave("@ + decimal(n as nat) + ")"@,
            ProtoEvent::Ack(n) => "Ack("@ + decimal(n as nat) + ")"@,
            ProtoEvent::Input(_) => input,
            ProtoEvent::Ping => "ping"@,
            ProtoEvent::Pong(true) => "pong: alive"@,
            ProtoEvent::Pong(false) => "pong: not available"@,
            ProtoEvent::Bounds { width, height } => "Bounds("@ + decimal(width as nat) + "x"@
                + decimal(height as nat) + ")"@,
            ProtoEvent::CursorPos { pos, .. } => "CursorPos("@ + pos.text() + ", "@ + nx + ", "@
                + ny + ")"@,
            ProtoEvent::Hello { commit } => "Hello("@ + commit_text(commit@) + ")"@,
        }
    }

    /// The text of an event. Those of an input event and of the coordinates of
    /// a cursor are given: they hold numbers that are only bits here.
    pub fn to_text(&self, input: &str, nx: &str, ny: &str) -> (s: String)
        ensures
            s@ == self.text(input@, nx@, ny@),
    {
        match self {
            ProtoEvent::Enter(pos) => joined(joined("Enter(", pos.as_str()).as_str(), ")"),
            ProtoEvent::Leave(n) => joined(
                joined("Leave(", decimal_of(*n as u64).as_str()).as_str(),
                ")",
            ),
            ProtoEvent::Ack(n) => joined(
                joined("Ack(", decimal_of(*n as u64).as_str()).as_str(),
                ")",
            ),
            ProtoEvent::Input(_) => String::from_str(input),
            ProtoEvent::Ping => String::from_str("ping"),
            ProtoEvent::Pong(true) => String::from_str("pong: alive"),
            ProtoEvent::Pong(false) => String::from_str("pong: not available"),
            ProtoEvent::Bounds { width, height } => {
                let mut s = String::from_str("Bounds(");
                s.append(decimal_of(*width as u64).as_str());
                s.append("x");
                s.append(decimal_of(*height as u64).as_str());
                s.append(")");
                s
            },
            ProtoEvent::CursorPos { pos, .. } => {
                let mut s = String::from_str("CursorPos(");
                s.append(pos.as_str());
                s.append(", ");
                s.append(nx);
                s.append(", ");
                s.append(ny);
                s.append(")");
                s
            },
            ProtoEvent::Hello { commit } => {
                let mut s = String::from_str("Hello(");
                s.append(commit_text_of(commit).as_str());
                s.append(")");
                s
            },
        }
    }
}

} // verus!
