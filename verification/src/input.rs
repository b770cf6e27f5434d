//! Input events as they travel between a capturing and an emulating device.
use vstd::prelude::*;

verus! {

/// An IEEE 754 binary64 number, held by its bit pattern.
#[derive(Clone, Copy, Debug, PartialEq, Eq, Structural)]
pub struct F64Bits(pub u64);

/// An IEEE 754 binary32 number, held by its bit pattern.
#[derive(Clone, Copy, Debug, PartialEq, Eq, Structural)]
pub struct F32Bits(pub u32);

/// The left pointer button.
pub const BTN_LEFT: u32 = 0x110;

/// The right pointer button.
pub const BTN_RIGHT: u32 = 0x111;

/// The middle pointer button.
pub const BTN_MIDDLE: u32 = 0x112;

/// The side button that navigates back.
pub const BTN_BACK: u32 = 0x113;

/// The side button that navigates forward.
pub const BTN_FORWARD: u32 = 0x114;

/// What a pointing device reports.
#[allow(inconsistent_fields)]
#[derive(Clone, Copy, Debug, PartialEq, Eq, Structural)]
pub enum PointerEvent {
    /// The pointer moved by `(dx, dy)`.
    Motion { time: u32, dx: F64Bits, dy: F64Bits },
    /// A button changed its state: 0 is up, 1 is down.
    Button { time: u32, button: u32, state: u32 },
    /// Continuous scrolling: axis 0 is vertical, 1 is horizontal.
    Axis { time: u32, axis: u8, value: F64Bits },
    /// Wheel scrolling in fractions of 120 per detent.
    AxisDiscrete120 { axis: u8, value: i32 },
}

/// What a keyboard reports.
#[derive(Clone, Copy, Debug, PartialEq, Eq, Structural)]
pub enum KeyboardEvent {
    /// A key, by its evdev code, changed its state: 0 is up.
    Key { time: u32, key: u32, state: u8 },
    /// The modifier masks as a whole.
    Modifiers { depressed: u32, latched: u32, locked: u32, group: u32 },
}

/// An event of either device.
#[derive(Clone, Copy, Debug, PartialEq, Eq, Structural)]
pub enum Event {
    Pointer(PointerEvent),
    Keyboard(KeyboardEvent),
}

} // verus!
