//! The emulation of input on macOS: what is to be posted for each event.
use crate::collections::NumberSet;
use crate::input::{
    Event, F64Bits, KeyboardEvent, PointerEvent, BTN_BACK, BTN_FORWARD, BTN_LEFT, BTN_MIDDLE,
    BTN_RIGHT,
};
use crate::text::same;
use vstd::prelude::*;

verus! {

/// How long a key is held before it repeats, in nanoseconds.
pub const DEFAULT_REPEAT_DELAY: u64 = 500_000_000;

/// The time between two repetitions, in nanoseconds.
pub const DEFAULT_REPEAT_INTERVAL: u64 = 32_000_000;

/// How close two presses of a button follow each other to count as one
/// multiple click, in nanoseconds.
pub const DOUBLE_CLICK_INTERVAL: u64 = 500_000_000;

/// After this much idle time on the keyboard, in nanoseconds, a modifier that
/// is still held and a key that still repeats are taken to be stranded: their
/// release was lost on the way.
pub const STUCK_RESET_IDLE: u64 = 800_000_000;

/// The most repetitions of a single held key, so that a lost release never
/// floods an application without end.
pub const MAX_KEY_REPEATS: u32 = 300;

/// The evdev code of F9, which opens Mission Control.
pub const KEY_F9: u32 = 67;

/// The evdev code of F11, which shows the desktop.
pub const KEY_F11: u32 = 87;

/// The evdev code of the mute key.
pub const KEY_MUTE: u32 = 113;

/// The evdev code of the key that lowers the volume.
pub const KEY_VOLUMEDOWN: u32 = 114;

/// The evdev code of the key that raises the volume.
pub const KEY_VOLUMEUP: u32 = 115;

/// The evdev codes of the modifier keys.
pub const KEY_LEFTCTRL: u32 = 29;

pub const KEY_LEFTSHIFT: u32 = 42;

pub const KEY_RIGHTSHIFT: u32 = 54;

pub const KEY_LEFTALT: u32 = 56;

pub const KEY_CAPSLOCK: u32 = 58;

pub const KEY_RIGHTCTRL: u32 = 97;

pub const KEY_RIGHTALT: u32 = 100;

pub const KEY_LEFTMETA: u32 = 125;

pub const KEY_RIGHTMETA: u32 = 126;

/// The system key types of the sound keys.
pub const NX_KEYTYPE_SOUND_UP: u32 = 0;

pub const NX_KEYTYPE_SOUND_DOWN: u32 = 1;

pub const NX_KEYTYPE_MUTE: u32 = 7;

/// Why emulation cannot be set up.
#[derive(Clone, Copy, Debug, PartialEq, Eq, Structural)]
pub enum MacOSEmulationCreationError {
    AccessibilityPermission,
    InputControlPermission,
    EventSourceCreation,
}

/// Tells from the two permissions whether emulation may be set up. A missing
/// accessibility permission is reported first.
pub fn request_macos_emulation_permissions(accessibility: bool, input_control: bool) -> (res:
    Result<(), MacOSEmulationCreationError>)
    ensures
        res is Ok <==> accessibility && input_control,
        !accessibility ==> res == Err::<(), MacOSEmulationCreationError>(
            MacOSEmulationCreationError::AccessibilityPermission,
        ),
        accessibility && !input_control ==> res == Err::<(), MacOSEmulationCreationError>(
            MacOSEmulationCreationError::InputControlPermission,
        ),
{
    if !accessibility {
        return Err(MacOSEmulationCreationError::AccessibilityPermission);
    }
    if !input_control {
        return Err(MacOSEmulationCreationError::InputControlPermission);
    }
    Ok(())
}

/// The types of mouse events.
#[derive(Clone, Copy, Debug, PartialEq, Eq, Structural)]
pub enum MouseEventType {
    MouseMoved,
    LeftMouseDown,
    LeftMouseUp,
    LeftMouseDragged,
    RightMouseDown,
    RightMouseUp,
    RightMouseDragged,
    OtherMouseDown,
    OtherMouseUp,
    OtherMouseDragged,
}

/// The buttons of mouse events.
#[derive(Clone, Copy, Debug, PartialEq, Eq, Structural)]
pub enum MouseButton {
    Left,
    Right,
    Center,
}

/// The type of a drag with the button.
pub open spec fn drag_type(button: u32) -> MouseEventType {
    if button == BTN_LEFT {
        MouseEventType::LeftMouseDragged
    } else if button == BTN_RIGHT {
        MouseEventType::RightMouseDragged
    } else {
        MouseEventType::OtherMouseDragged
    }
}

/// The type of a drag with the button: left and right have their own, and all
/// others share one.
pub fn drag_event_type(button: u32) -> (t: MouseEventType)
    ensures
        t == drag_type(button),
{
    match button {
        BTN_LEFT => MouseEventType::LeftMouseDragged,
        BTN_RIGHT => MouseEventType::RightMouseDragged,
        _ => MouseEventType::OtherMouseDragged,
    }
}

/// The side button that a button is, where it is one.
pub open spec fn side_button(button: u32) -> Option<u32> {
    if button == BTN_BACK || button == 3 {
        Some(BTN_BACK)
    } else if button == BTN_FORWARD || button == 4 {
        Some(BTN_FORWARD)
    } else {
        None
    }
}

/// The side button that a button is, where it is one: by its evdev code, or by
/// its raw number on macOS.
pub fn canonical_side_button(button: u32) -> (r: Option<u32>)
    ensures
        r == side_button(button),
{
    if button == BTN_BACK || button == 3 {
        Some(BTN_BACK)
    } else if button == BTN_FORWARD || button == 4 {
        Some(BTN_FORWARD)
    } else {
        None
    }
}

/// The name of a side button.
pub fn side_button_name(button: u32) -> (s: &'static str)
    ensures
        s@ == if button == BTN_BACK {
            "back"@
        } else {
            "forward"@
        },
{
    if button == BTN_BACK {
        "back"
    } else {
        "forward"
    }
}

/// The number of a side button in mouse events.
pub open spec fn side_button_number(button: u32) -> Option<i64> {
    match side_button(button) {
        Some(b) => Some(if b == BTN_BACK { 3 } else { 4 }),
        None => None,
    }
}

/// The number of a side button in mouse events.
pub fn side_button_cg_number(button: u32) -> (r: Option<i64>)
    ensures
        r == side_button_number(button),
{
    match canonical_side_button(button) {
        Some(b) => if b == BTN_BACK {
            Some(3)
        } else {
            Some(4)
        },
        None => None,
    }
}

/// Where the press of a side button goes.
#[derive(Clone, Copy, Debug, PartialEq, Eq, Structural)]
pub enum SideButtonRoute {
    MissionControl,
    ShowDesktop,
    NativeMouse,
}

/// Whether the bundle is the browser Chrome.
pub open spec fn is_chrome(bundle_id: Seq<char>) -> bool {
    bundle_id == "com.google.Chrome"@ || bundle_id == "com.google.Chrome.canary"@
}

/// Whether the bundle is the browser Chrome.
pub fn is_chrome_bundle_id(bundle_id: &str) -> (r: bool)
    ensures
        r == is_chrome(bundle_id@),
{
    same(bundle_id, "com.google.Chrome") || same(bundle_id, "com.google.Chrome.canary")
}

/// The view of an optional text.
pub open spec fn opt_str(s: Option<&str>) -> Option<Seq<char>> {
    match s {
        Some(t) => Some(t@),
        None => None,
    }
}

/// Where the press of a button goes while the given application is in front.
pub open spec fn route_of(button: u32, frontmost: Option<Seq<char>>) -> Option<SideButtonRoute> {
    match side_button(button) {
        None => None,
        Some(b) => Some(
            if frontmost matches Some(id) && is_chrome(id) {
                SideButtonRoute::NativeMouse
            } else if b == BTN_BACK {
                SideButtonRoute::MissionControl
            } else {
                SideButtonRoute::ShowDesktop
            },
        ),
    }
}

/// Where the press of a button goes while the given application is in front:
/// a side button reaches Chrome as it is, and elsewhere stands for a key.
pub fn side_button_route_for_bundle(button: u32, frontmost_bundle_id: Option<&str>) -> (r: Option<
    SideButtonRoute,
>)
    ensures
        r == route_of(button, opt_str(frontmost_bundle_id)),
{
    let side_button: u32 = match canonical_side_button(button) {
        Some(b) => b,
        None => return None,
    };
    if let Some(id) = frontmost_bundle_id {
        if is_chrome_bundle_id(id) {
            return Some(SideButtonRoute::NativeMouse);
        }
    }
    if side_button == BTN_BACK {
        Some(SideButtonRoute::MissionControl)
    } else {
        Some(SideButtonRoute::ShowDesktop)
    }
}

/// Where the press of a button goes, given what was found out of the
/// application in front.
pub fn side_button_route(button: u32, frontmost_bundle_id: &Option<String>) -> (r: Option<
    SideButtonRoute,
>)
    ensures
        r == route_of(button, crate::text::opt_text(*frontmost_bundle_id)),
{
    match frontmost_bundle_id {
        Some(id) => side_button_route_for_bundle(button, Some(id.as_str())),
        None => side_button_route_for_bundle(button, None),
    }
}

/// A window on the screen: its layer and its owner, as far as they are known.
#[derive(Clone, Copy, Debug, PartialEq, Eq, Structural)]
pub struct Window {
    pub layer: Option<i64>,
    pub owner_pid: Option<i64>,
}

/// Whether a window tells who owns the application in front: an ordinary
/// window, with a known owner.
pub open spec fn tells_owner(w: Window) -> bool {
    w.layer == Some(0i64) && w.owner_pid is Some
}

/// The process that owns the frontmost ordinary window; the windows come from
/// front to back, and ordinary ones are on layer 0.
pub fn frontmost_window_pid(windows: &Vec<Window>) -> (r: Option<i64>)
    ensures
        match r {
            Some(pid) => exists|i: int|
                {
                    &&& 0 <= i < windows@.len()
                    &&& tells_owner(#[trigger] windows@[i])
                    &&& windows@[i].owner_pid == Some(pid)
                    &&& forall|j: int| 0 <= j < i ==> !tells_owner(#[trigger] windows@[j])
                },
            None => forall|j: int| 0 <= j < windows@.len() ==> !tells_owner(#[trigger] windows@[j]),
        },
{
    let mut i: usize = 0;
    while i < windows.len()
        invariant
            i <= windows@.len(),
            forall|j: int| 0 <= j < i ==> !tells_owner(#[trigger] windows@[j]),
        decreases windows@.len() - i,
    {
        let w = windows[i];
        if w.layer == Some(0i64) {
            if let Some(pid) = w.owner_pid {
                assert(tells_owner(windows@[i as int]));
                return Some(pid);
            }
        }
        i = i + 1;
    }
    None
}

/// The display at a point, from what the query for it gave: an error code, the
/// number of displays found, and the first of them.
pub fn get_display_at_point(error: i32, display_count: u32, first: u32) -> (r: Option<u32>)
    ensures
        r == if error == 0 && display_count > 0 {
            Some(first)
        } else {
            None
        },
{
    if error != 0 || display_count == 0 {
        return None;
    }
    Some(first)
}

/// A system event of a media key.
#[derive(Clone, Copy, Debug, PartialEq, Eq, Structural)]
pub struct MediaKeyEvent {
    /// The modifier flags of the event.
    pub flags: u64,
    /// The key type in the upper half, and whether it is up or down.
    pub data1: i64,
}

/// The two events of a press of a media key: down, and up. A fine step is
/// asked for by the shift and option flags.
pub fn post_media_key(key_type: u32, fine_step: bool) -> (r: (MediaKeyEvent, MediaKeyEvent))
    ensures
        r.0.flags == if fine_step {
            0xa0a00
        } else {
            0xa00u64
        },
        r.1.flags == if fine_step {
            0xa0b00
        } else {
            0xb00u64
        },
        r.0.data1 == key_type * 0x10000 + 0xa00,
        r.1.data1 == key_type * 0x10000 + 0xb00,
{
    let fine_mods: u64 = if fine_step {
        0x20000 + 0x80000
    } else {
        0
    };
    let base: i64 = key_type as i64 * 0x10000;
    (
        MediaKeyEvent { flags: fine_mods + 0xa00, data1: base + 0xa00 },
        MediaKeyEvent { flags: fine_mods + 0xb00, data1: base + 0xb00 },
    )
}

/// The wheels of a scroll event.
#[derive(Clone, Copy, Debug, PartialEq, Eq, Structural)]
pub struct Wheels {
    /// The number of wheels that are spoken of.
    pub count: u32,
    pub wheel1: i32,
    pub wheel2: i32,
    pub wheel3: i32,
}

/// The wheels that scroll by `value` on the axis; none for an unknown axis.
pub open spec fn wheels(axis: u8, value: i32) -> Option<Wheels> {
    if axis == 0 {
        Some(Wheels { count: 1, wheel1: value, wheel2: 0, wheel3: 0 })
    } else if axis == 1 {
        Some(Wheels { count: 2, wheel1: 0, wheel2: value, wheel3: 0 })
    } else {
        None
    }
}

/// The wheels that scroll by `value` on the axis: the first is vertical, and
/// the second horizontal. There are none for an unknown axis.
pub fn wheels_of(axis: u8, value: i32) -> (r: Option<Wheels>)
    ensures
        r == wheels(axis, value),
{
    match axis {
        0 => Some(Wheels { count: 1, wheel1: value, wheel2: 0, wheel3: 0 }),
        1 => Some(Wheels { count: 2, wheel1: 0, wheel2: value, wheel3: 0 }),
        _ => None,
    }
}

/// The lines of a wheel step: three for a whole detent of 120, rounded towards
/// zero.
pub open spec fn lines(value: i32) -> i32 {
    if value >= 0 {
        (value as int / 40) as i32
    } else {
        (-((-(value as int)) / 40)) as i32
    }
}

/// The lines of a wheel step.
pub fn lines_of(value: i32) -> (r: i32)
    ensures
        r == lines(value),
{
    let wide: i64 = value as i64;
    if wide >= 0 {
        (wide / 40) as i32
    } else {
        -(((-wide) / 40) as i32)
    }
}

/// A set of modifiers, as the bits of X11.
#[derive(Clone, Copy, Debug, PartialEq, Eq, Structural)]
pub struct XMods(pub u32);

pub const SHIFT_MASK: u32 = 1;

pub const LOCK_MASK: u32 = 2;

pub const CONTROL_MASK: u32 = 4;

pub const MOD1_MASK: u32 = 8;

pub const MOD4_MASK: u32 = 64;

/// All bits that stand for a modifier.
pub const ALL_MODS: u32 = 255;

impl XMods {
    /// Whether a bit of the mask is set.
    pub open spec fn has(self, mask: u32) -> bool {
        self.0 & mask != 0
    }
}

/// The modifier that a key is, as a mask; 0, if it is none.
pub open spec fn modifier_mask(key: u32) -> u32 {
    if key == KEY_LEFTSHIFT || key == KEY_RIGHTSHIFT {
        SHIFT_MASK
    } else if key == KEY_CAPSLOCK {
        LOCK_MASK
    } else if key == KEY_LEFTCTRL || key == KEY_RIGHTCTRL {
        CONTROL_MASK
    } else if key == KEY_LEFTALT || key == KEY_RIGHTALT {
        MOD1_MASK
    } else if key == KEY_LEFTMETA || key == KEY_RIGHTMETA {
        MOD4_MASK
    } else {
        0
    }
}

/// The modifier that a key is, as a mask; 0, if it is none.
fn modifier_mask_of(key: u32) -> (mask: u32)
    ensures
        mask == modifier_mask(key),
{
    if key == KEY_LEFTSHIFT || key == KEY_RIGHTSHIFT {
        SHIFT_MASK
    } else if key == KEY_CAPSLOCK {
        LOCK_MASK
    } else if key == KEY_LEFTCTRL || key == KEY_RIGHTCTRL {
        CONTROL_MASK
    } else if key == KEY_LEFTALT || key == KEY_RIGHTALT {
        MOD1_MASK
    } else if key == KEY_LEFTMETA || key == KEY_RIGHTMETA {
        MOD4_MASK
    } else {
        0
    }
}

/// Whether the evdev code is that of a modifier key.
pub fn evdev_is_modifier(key: u32) -> (r: bool)
    ensures
        r == (modifier_mask(key) != 0),
{
    modifier_mask_of(key) != 0
}

/// The modifiers after a key changed its state.
pub open spec fn updated(mods: XMods, key: u32, state: u8) -> XMods {
    let mask = modifier_mask(key);
    if mask == 0 {
        mods
    } else if state == 1 {
        XMods(mods.0 | mask)
    } else {
        XMods(mods.0 & !mask)
    }
}

/// Notes the state of a key that is a modifier, and returns whether it is one.
pub fn update_modifiers(modifiers: &mut XMods, key: u32, state: u8) -> (is_modifier: bool)
    ensures
        *final(modifiers) == updated(*old(modifiers), key, state),
        is_modifier == (modifier_mask(key) != 0),
{
    let mask: u32 = modifier_mask_of(key);
    if mask == 0 {
        return false;
    }
    if state == 1 {
        *modifiers = XMods(modifiers.0 | mask);
    } else {
        *modifiers = XMods(modifiers.0 & !mask);
    }
    true
}

/// The modifiers of a depressed mask; none, if it has a bit that stands for no
/// modifier.
pub open spec fn mods_of_mask(depressed: u32) -> XMods {
    if depressed <= ALL_MODS {
        XMods(depressed)
    } else {
        XMods(0)
    }
}

/// Sets the modifiers as a whole. Only the depressed ones count.
pub fn set_modifiers(
    active_modifiers: &mut XMods,
    depressed: u32,
    _latched: u32,
    _locked: u32,
    _group: u32,
)
    ensures
        *final(active_modifiers) == mods_of_mask(depressed),
{
    if depressed <= ALL_MODS {
        *active_modifiers = XMods(depressed);
    } else {
        *active_modifiers = XMods(0);
    }
}

/// The modifier flags of an event.
#[derive(Clone, Copy, Debug, PartialEq, Eq, Structural)]
pub struct CgFlags {
    pub shift: bool,
    pub alpha_shift: bool,
    pub control: bool,
    pub alternate: bool,
    pub command: bool,
}

/// The flags of an event while the modifiers are held.
pub open spec fn flags_of(mods: XMods) -> CgFlags {
    CgFlags {
        shift: mods.has(SHIFT_MASK),
        alpha_shift: mods.has(LOCK_MASK),
        control: mods.has(CONTROL_MASK),
        alternate: mods.has(MOD1_MASK),
        command: mods.has(MOD4_MASK),
    }
}

/// The flags of an event while the modifiers are held.
pub fn to_cgevent_flags(depressed: XMods) -> (flags: CgFlags)
    ensures
        flags == flags_of(depressed),
{
    CgFlags {
        shift: depressed.0 & SHIFT_MASK != 0,
        alpha_shift: depressed.0 & LOCK_MASK != 0,
        control: depressed.0 & CONTROL_MASK != 0,
        alternate: depressed.0 & MOD1_MASK != 0,
        command: depressed.0 & MOD4_MASK != 0,
    }
}

/// The key code of macOS for an evdev code, where the key is known.
pub uninterp spec fn mac_keycode(evdev: u16) -> Option<u16>;

/// `keycode::KeyMap::from_key_mapping` on an evdev code, and the macOS code of
/// the entry that it found. The table is fixed: the result is a function of
/// the code alone, and has a name here.
#[verifier::external_body]
fn keycode_from_evdev(evdev: u16) -> (code: Option<u16>)
    ensures
        code == mac_keycode(evdev),
{
    keycode::KeyMap::from_key_mapping(keycode::KeyMapping::Evdev(evdev)).ok().map(|k| k.mac)
}

/// The key code of macOS for an evdev code, of which the lower 16 bits count.
pub fn macos_keycode_from_evdev(key: u32) -> (code: Option<u16>)
    ensures
        code == mac_keycode(key as u16),
{
    keycode_from_evdev(
        #[verifier::truncate]
        (key as u16),
    )
}

/// How far the repetition of a held key has come.
#[derive(Clone, Copy, Debug, PartialEq, Eq, Structural)]
pub enum RepeatPhase {
    /// The key is held, and does not repeat yet.
    Waiting,
    /// The key was repeated this many times.
    Repeating(u32),
    /// The repetition reached its limit, and the key was released.
    Finished,
}

/// The key that was pressed last, and its repetition.
#[derive(Clone, Copy, Debug, PartialEq, Eq, Structural)]
pub struct Repeat {
    /// The key code of macOS.
    pub code: u16,
    pub phase: RepeatPhase,
}

/// What is to be done on macOS.
#[allow(inconsistent_fields)]
#[derive(Clone, Copy, Debug, PartialEq, Eq, Structural)]
pub enum MacAction {
    /// Move the pointer by `(dx, dy)`, as an event of this type.
    Move { event_type: MouseEventType, dx: F64Bits, dy: F64Bits },
    /// Post a button event at the pointer.
    Button {
        event_type: MouseEventType,
        button: MouseButton,
        click_state: i64,
        number: Option<i64>,
    },
    /// Scroll by pixels on the axis.
    ScrollPixels { axis: u8, value: F64Bits },
    /// Scroll by lines.
    ScrollLines(Wheels),
    /// Post a key event.
    Key { code: u16, down: bool, flags: CgFlags },
    /// Post a change of the modifier flags.
    FlagsChanged { flags: CgFlags, code: Option<u16> },
    /// Open Mission Control.
    MissionControl,
    /// Show the desktop.
    ShowDesktop,
    /// Press a media key.
    MediaKey { key_type: u32, fine_step: bool },
    /// Call for the next repetition after this many nanoseconds.
    ArmRepeat(u64),
    /// Call for no further repetition.
    DisarmRepeat,
}

/// What the emulation remembers, in mathematical terms.
#[verifier::ext_equal]
pub struct MacState {
    /// The buttons that are down.
    pub pressed_buttons: Set<u32>,
    /// The side buttons whose press became a key: their release is swallowed.
    pub synth_keyed_buttons: Set<u32>,
    /// The button that was pressed last.
    pub previous_button: Option<u32>,
    /// When it was pressed.
    pub previous_button_click: Option<u64>,
    /// The number of clicks in quick succession.
    pub button_click_state: i64,
    /// The modifiers that are held.
    pub modifiers: XMods,
    /// The key that repeats.
    pub repeat: Option<Repeat>,
    /// When the last keyboard event came.
    pub last_keyboard_event: Option<u64>,
}

/// The emulation of input on macOS. Times are in nanoseconds.
pub struct MacOSEmulation {
    pub pressed_buttons: NumberSet,
    pub synth_keyed_buttons: NumberSet,
    pub previous_button: Option<u32>,
    pub previous_button_click: Option<u64>,
    pub button_click_state: i64,
    pub modifiers: XMods,
    pub repeat: Option<Repeat>,
    pub last_keyboard_event: Option<u64>,
}

impl View for MacOSEmulation {
    type V = MacState;

    open spec fn view(&self) -> MacState {
        MacState {
            pressed_buttons: self.pressed_buttons@,
            synth_keyed_buttons: self.synth_keyed_buttons@,
            previous_button: self.previous_button,
            previous_button_click: self.previous_button_click,
            button_click_state: self.button_click_state,
            modifiers: self.modifiers,
            repeat: self.repeat,
            last_keyboard_event: self.last_keyboard_event,
        }
    }
}

/// A state, and what is to be done on the way to it.
#[verifier::ext_equal]
pub struct Step {
    pub state: MacState,
    pub actions: Seq<MacAction>,
}

/// The end of a held key: its modifier, if the code is that of one, is taken
/// back, and the key goes up.
pub open spec fn released(s: MacState, code: u16) -> Step {
    let modifiers = updated(s.modifiers, code as u32, 0);
    Step {
        state: MacState { modifiers, ..s },
        actions: seq![MacAction::Key { code, down: false, flags: flags_of(modifiers) }],
    }
}

/// The repetition, where there is one, is cancelled, and its key goes up.
pub open spec fn cancelled(s: MacState) -> Step {
    match s.repeat {
        Some(r) if r.phase !is Finished => {
            let end = released(MacState { repeat: None, ..s }, r.code);
            Step { state: end.state, actions: seq![MacAction::DisarmRepeat] + end.actions }
        },
        _ => Step { state: MacState { repeat: None, ..s }, actions: seq![] },
    }
}

/// The key goes down, and will repeat. There is only one repeating key, the
/// last that was pressed.
pub open spec fn repeated(s: MacState, code: u16) -> Step {
    let c = cancelled(s);
    Step {
        state: MacState { repeat: Some(Repeat { code, phase: RepeatPhase::Waiting }), ..c.state },
        actions: c.actions + seq![
            MacAction::Key { code, down: true, flags: flags_of(c.state.modifiers) },
            MacAction::ArmRepeat(DEFAULT_REPEAT_DELAY),
        ],
    }
}

/// The time for the next repetition has come.
pub open spec fn elapsed(s: MacState) -> Step {
    match s.repeat {
        Some(Repeat { code, phase }) if phase !is Finished => {
            let n: int = match phase {
                RepeatPhase::Repeating(n) => n + 1,
                _ => 1,
            };
            let down = MacAction::Key { code, down: true, flags: flags_of(s.modifiers) };
            if n >= MAX_KEY_REPEATS {
                let end = released(
                    MacState { repeat: Some(Repeat { code, phase: RepeatPhase::Finished }), ..s },
                    code,
                );
                Step { state: end.state, actions: seq![down] + end.actions }
            } else {
                Step {
                    state: MacState {
                        repeat: Some(Repeat { code, phase: RepeatPhase::Repeating(n as u32) }),
                        ..s
                    },
                    actions: seq![down, MacAction::ArmRepeat(DEFAULT_REPEAT_INTERVAL)],
                }
            }
        },
        _ => Step { state: s, actions: seq![] },
    }
}

/// What a button event is on macOS: its type, and the button.
pub open spec fn button_event(button: u32, state: u32) -> Option<(MouseEventType, MouseButton)> {
    if state > 1 {
        None
    } else if button == BTN_LEFT {
        Some(
            (
                if state == 1 {
                    MouseEventType::LeftMouseDown
                } else {
                    MouseEventType::LeftMouseUp
                },
                MouseButton::Left,
            ),
        )
    } else if button == BTN_RIGHT {
        Some(
            (
                if state == 1 {
                    MouseEventType::RightMouseDown
                } else {
                    MouseEventType::RightMouseUp
                },
                MouseButton::Right,
            ),
        )
    } else if button == BTN_MIDDLE || side_button(button) is Some {
        Some(
            (
                if state == 1 {
                    MouseEventType::OtherMouseDown
                } else {
                    MouseEventType::OtherMouseUp
                },
                MouseButton::Center,
            ),
        )
    } else {
        None
    }
}

/// Whether a press at `now` continues a series of clicks.
pub open spec fn continues_clicks(s: MacState, button: u32, now: u64) -> bool {
    s.previous_button == Some(button) && (s.previous_button_click matches Some(t) && now - t
        < DOUBLE_CLICK_INTERVAL)
}

/// A button event that reaches the system as one.
pub open spec fn button_step(s: MacState, button: u32, state: u32, now: u64) -> Step {
    match button_event(button, state) {
        None => Step { state: s, actions: seq![] },
        Some((event_type, mouse_button)) => {
            let next = if state == 1 {
                MacState {
                    pressed_buttons: s.pressed_buttons.insert(button),
                    button_click_state: if continues_clicks(s, button, now) {
                        (s.button_click_state + 1) as i64
                    } else {
                        1
                    },
                    previous_button: Some(button),
                    previous_button_click: Some(now),
                    ..s
                }
            } else {
                MacState { pressed_buttons: s.pressed_buttons.remove(button), ..s }
            };
            Step {
                state: next,
                actions: seq![
                    MacAction::Button {
                        event_type,
                        button: mouse_button,
                        click_state: next.button_click_state,
                        number: side_button_number(button),
                    },
                ],
            }
        },
    }
}

/// A button event. The press of a side button may become a key, and then its
/// release is swallowed.
pub open spec fn button_or_key_step(
    s: MacState,
    button: u32,
    state: u32,
    now: u64,
    frontmost: Option<Seq<char>>,
) -> Step {
    match side_button(button) {
        Some(side) => if state != 1 && s.synth_keyed_buttons.contains(side) {
            Step {
                state: MacState { synth_keyed_buttons: s.synth_keyed_buttons.remove(side), ..s },
                actions: seq![],
            }
        } else if state == 1 && route_of(button, frontmost) != Some(SideButtonRoute::NativeMouse) {
            Step {
                state: MacState { synth_keyed_buttons: s.synth_keyed_buttons.insert(side), ..s },
                actions: seq![
                    if side == BTN_BACK {
                        MacAction::MissionControl
                    } else {
                        MacAction::ShowDesktop
                    },
                ],
            }
        } else {
            button_step(s, button, state, now)
        },
        None => button_step(s, button, state, now),
    }
}

/// Whether an event is the press of a button that counts one more click.
pub open spec fn counts_click(
    s: MacState,
    event: Event,
    now: u64,
    frontmost: Option<Seq<char>>,
) -> bool {
    event matches Event::Pointer(PointerEvent::Button { button, state, .. }) && {
        &&& state == 1
        &&& button_event(button, state) is Some
        &&& continues_clicks(s, button, now)
        &&& side_button(button) is Some ==> route_of(button, frontmost) == Some(
            SideButtonRoute::NativeMouse,
        )
    }
}

/// Whether the keyboard has been idle for long at `now`.
pub open spec fn is_idle(s: MacState, now: u64) -> bool {
    s.last_keyboard_event matches Some(t) && now - t >= STUCK_RESET_IDLE
}

/// What happens before a key event is looked at: after an idle time a stranded
/// repetition is cancelled, and the press of a modifier starts without the
/// stranded modifiers.
pub open spec fn healed(s: MacState, key: u32, state: u8, now: u64) -> Step {
    let s1 = MacState { last_keyboard_event: Some(now), ..s };
    if is_idle(s, now) {
        let c = cancelled(s1);
        if state == 1 && modifier_mask(key) != 0 && c.state.modifiers.0 != 0 {
            Step {
                state: MacState { modifiers: XMods(0), ..c.state },
                actions: c.actions + seq![
                    MacAction::FlagsChanged { flags: flags_of(XMods(0)), code: None },
                ],
            }
        } else {
            c
        }
    } else {
        Step { state: s1, actions: seq![] }
    }
}

/// What the press of a system key does.
pub open spec fn system_action(key: u32) -> Option<MacAction> {
    if key == KEY_F9 {
        Some(MacAction::MissionControl)
    } else if key == KEY_F11 {
        Some(MacAction::ShowDesktop)
    } else if key == KEY_MUTE {
        Some(MacAction::MediaKey { key_type: NX_KEYTYPE_MUTE, fine_step: false })
    } else if key == KEY_VOLUMEDOWN {
        Some(MacAction::MediaKey { key_type: NX_KEYTYPE_SOUND_DOWN, fine_step: true })
    } else if key == KEY_VOLUMEUP {
        Some(MacAction::MediaKey { key_type: NX_KEYTYPE_SOUND_UP, fine_step: true })
    } else {
        None
    }
}

/// A key whose code on macOS is known.
pub open spec fn mapped_key_step(s: MacState, key: u32, state: u8, code: u16) -> Step {
    if modifier_mask(key) != 0 {
        let modifiers = updated(s.modifiers, key, state);
        Step {
            state: MacState { modifiers, ..s },
            actions: seq![
                MacAction::FlagsChanged { flags: flags_of(modifiers), code: Some(code) },
            ],
        }
    } else if state == 1 {
        repeated(s, code)
    } else {
        cancelled(s)
    }
}

/// A key event, given the key's code on macOS.
pub open spec fn key_step(s: MacState, key: u32, state: u8, now: u64, code: Option<u16>) -> Step {
    let h = healed(s, key, state, now);
    match system_action(key) {
        Some(action) => Step {
            state: h.state,
            actions: if state == 1 {
                h.actions.push(action)
            } else {
                h.actions
            },
        },
        None => match code {
            None => h,
            Some(code) => {
                let k = mapped_key_step(h.state, key, state, code);
                Step { state: k.state, actions: h.actions + k.actions }
            },
        },
    }
}

/// An absolute report of the modifiers.
pub open spec fn modifiers_step(s: MacState, depressed: u32, now: u64) -> Step {
    let modifiers = mods_of_mask(depressed);
    Step {
        state: MacState { modifiers, last_keyboard_event: Some(now), ..s },
        actions: seq![MacAction::FlagsChanged { flags: flags_of(modifiers), code: None }],
    }
}

/// What a movement of the pointer is: a drag with a button that is down, or
/// else a plain movement.
pub open spec fn is_move_type(pressed: Set<u32>, t: MouseEventType) -> bool {
    if pressed == Set::<u32>::empty() {
        t == MouseEventType::MouseMoved
    } else {
        exists|button: u32| pressed.contains(button) && t == #[trigger] drag_type(button)
    }
}

/// Adds the actions of `more` to `actions`.
fn append_actions(actions: &mut Vec<MacAction>, more: Vec<MacAction>)
    ensures
        final(actions)@ == old(actions)@ + more@,
{
    let mut more = more;
    actions.append(&mut more);
}

impl MacOSEmulation {
    /// Whether the sets are in order, and the repetition is within its limit.
    pub open spec fn wf(&self) -> bool {
        &&& self.pressed_buttons.wf()
        &&& self.synth_keyed_buttons.wf()
        &&& self.repeat matches Some(r) ==> (r.phase matches RepeatPhase::Repeating(n) ==> 0 < n
            < MAX_KEY_REPEATS)
    }

    /// An emulation that has seen nothing yet, if both permissions are there.
    pub fn new(accessibility: bool, input_control: bool) -> (res: Result<
        MacOSEmulation,
        MacOSEmulationCreationError,
    >)
        ensures
            match res {
                Ok(e) => accessibility && input_control && e.wf() && e@ == (MacState {
                    pressed_buttons: Set::empty(),
                    synth_keyed_buttons: Set::empty(),
                    previous_button: None,
                    previous_button_click: None,
                    button_click_state: 0,
                    modifiers: XMods(0),
                    repeat: None,
                    last_keyboard_event: None,
                }),
                Err(e) => e == if !accessibility {
                    MacOSEmulationCreationError::AccessibilityPermission
                } else {
                    MacOSEmulationCreationError::InputControlPermission
                } && !(accessibility && input_control),
            },
    {
        match request_macos_emulation_permissions(accessibility, input_control) {
            Ok(()) => {},
            Err(e) => return Err(e),
        }
        Ok(
            MacOSEmulation {
                pressed_buttons: NumberSet::new(),
                synth_keyed_buttons: NumberSet::new(),
                previous_button: None,
                previous_button_click: None,
                button_click_state: 0,
                modifiers: XMods(0),
                repeat: None,
                last_keyboard_event: None,
            },
        )
    }

    /// Releases a key whose repetition ends.
    fn release_key(&mut self, code: u16) -> (action: MacAction)
        requires
            old(self).wf(),
        ensures
            final(self).wf(),
            final(self)@ == released(old(self)@, code).state,
            seq![action] == released(old(self)@, code).actions,
    {
        update_modifiers(&mut self.modifiers, code as u32, 0);
        MacAction::Key { code, down: false, flags: to_cgevent_flags(self.modifiers) }
    }

    /// Cancels the repetition of a key, where there is one.
    pub fn cancel_repeat_task(&mut self) -> (actions: Vec<MacAction>)
        requires
            old(self).wf(),
        ensures
            final(self).wf(),
            final(self)@ == cancelled(old(self)@).state,
            actions@ == cancelled(old(self)@).actions,
    {
        let mut actions: Vec<MacAction> = Vec::new();
        if let Some(r) = self.repeat.take() {
            match r.phase {
                RepeatPhase::Finished => {},
                RepeatPhase::Waiting | RepeatPhase::Repeating(_) => {
                    actions.push(MacAction::DisarmRepeat);
                    let up = self.release_key(r.code);
                    actions.push(up);
                },
            }
        }
        actions
    }

    /// Presses a key that repeats from now on.
    pub fn spawn_repeat_task(&mut self, code: u16) -> (actions: Vec<MacAction>)
        requires
            old(self).wf(),
        ensures
            final(self).wf(),
            final(self)@ == repeated(old(self)@, code).state,
            actions@ == repeated(old(self)@, code).actions,
    {
        let mut actions = self.cancel_repeat_task();
        actions.push(
            MacAction::Key { code, down: true, flags: to_cgevent_flags(self.modifiers) },
        );
        actions.push(MacAction::ArmRepeat(DEFAULT_REPEAT_DELAY));
        self.repeat = Some(Repeat { code, phase: RepeatPhase::Waiting });
        actions
    }

    /// Repeats the key whose time has come. At the limit it is released.
    pub fn repeat_elapsed(&mut self) -> (actions: Vec<MacAction>)
        requires
            old(self).wf(),
        ensures
            final(self).wf(),
            final(self)@ == elapsed(old(self)@).state,
            actions@ == elapsed(old(self)@).actions,
    {
        let mut actions: Vec<MacAction> = Vec::new();
        let r = match self.repeat {
            Some(r) => r,
            None => return actions,
        };
        let repeats: u32 = match r.phase {
            RepeatPhase::Waiting => 1,
            RepeatPhase::Repeating(n) => n + 1,
            RepeatPhase::Finished => return actions,
        };
        actions.push(
            MacAction::Key { code: r.code, down: true, flags: to_cgevent_flags(self.modifiers) },
        );
        if repeats >= MAX_KEY_REPEATS {
            self.repeat = Some(Repeat { code: r.code, phase: RepeatPhase::Finished });
            let up = self.release_key(r.code);
            actions.push(up);
        } else {
            self.repeat = Some(Repeat { code: r.code, phase: RepeatPhase::Repeating(repeats) });
            actions.push(MacAction::ArmRepeat(DEFAULT_REPEAT_INTERVAL));
        }
        assert(actions@ =~= elapsed(old(self)@).actions);
        actions
    }

    /// A button event that reaches the system as one.
    fn consume_button(&mut self, button: u32, state: u32, now: u64) -> (actions: Vec<MacAction>)
        requires
            old(self).wf(),
            state == 1 && button_event(button, state) is Some && continues_clicks(
                old(self)@,
                button,
                now,
            ) ==> old(self).button_click_state < i64::MAX,
        ensures
            final(self).wf(),
            final(self)@ == button_step(old(self)@, button, state, now).state,
            actions@ == button_step(old(self)@, button, state, now).actions,
    {
        let mut actions: Vec<MacAction> = Vec::new();
        let is_other = button == BTN_MIDDLE || canonical_side_button(button).is_some();
        let (event_type, mouse_button) = if button == BTN_LEFT && state == 1 {
            (MouseEventType::LeftMouseDown, MouseButton::Left)
        } else if button == BTN_LEFT && state == 0 {
            (MouseEventType::LeftMouseUp, MouseButton::Left)
        } else if button == BTN_RIGHT && state == 1 {
            (MouseEventType::RightMouseDown, MouseButton::Right)
        } else if button == BTN_RIGHT && state == 0 {
            (MouseEventType::RightMouseUp, MouseButton::Right)
        } else if is_other && state == 1 {
            (MouseEventType::OtherMouseDown, MouseButton::Center)
        } else if is_other && state == 0 {
            (MouseEventType::OtherMouseUp, MouseButton::Center)
        } else {
            return actions;
        };
        if state == 1 {
            self.pressed_buttons.insert(button);
            let recent = match self.previous_button_click {
                Some(t) => now < t || now - t < DOUBLE_CLICK_INTERVAL,
                None => false,
            };
            if self.previous_button == Some(button) && recent {
                self.button_click_state = self.button_click_state + 1;
            } else {
                self.button_click_state = 1;
            }
            self.previous_button = Some(button);
            self.previous_button_click = Some(now);
        } else {
            self.pressed_buttons.remove(button);
        }
        actions.push(
            MacAction::Button {
                event_type,
                button: mouse_button,
                click_state: self.button_click_state,
                number: side_button_cg_number(button),
            },
        );
        actions
    }

    /// A key event, given the key's code on macOS.
    pub fn consume_key(&mut self, key: u32, state: u8, now: u64, code: Option<u16>) -> (actions:
        Vec<MacAction>)
        requires
            old(self).wf(),
        ensures
            final(self).wf(),
            final(self)@ == key_step(old(self)@, key, state, now, code).state,
            actions@ == key_step(old(self)@, key, state, now, code).actions,
    {
        let mut actions: Vec<MacAction> = Vec::new();
        let idle = match self.last_keyboard_event {
            Some(t) => now >= t && now - t >= STUCK_RESET_IDLE,
            None => false,
        };
        self.last_keyboard_event = Some(now);
        if idle {
            let cancelled = self.cancel_repeat_task();
            append_actions(&mut actions, cancelled);
            if state == 1 && evdev_is_modifier(key) && self.modifiers.0 != 0 {
                self.modifiers = XMods(0);
                actions.push(
                    MacAction::FlagsChanged { flags: to_cgevent_flags(XMods(0)), code: None },
                );
            }
        }
        let ghost h = healed(old(self)@, key, state, now);
        assert(self@ =~= h.state);
        assert(actions@ =~= h.actions);
        let system = match key {
            KEY_F9 => Some(MacAction::MissionControl),
            KEY_F11 => Some(MacAction::ShowDesktop),
            KEY_MUTE => Some(MacAction::MediaKey { key_type: NX_KEYTYPE_MUTE, fine_step: false }),
            KEY_VOLUMEDOWN => Some(
                MacAction::MediaKey { key_type: NX_KEYTYPE_SOUND_DOWN, fine_step: true },
            ),
            KEY_VOLUMEUP => Some(
                MacAction::MediaKey { key_type: NX_KEYTYPE_SOUND_UP, fine_step: true },
            ),
            _ => None,
        };
        if let Some(action) = system {
            if state == 1 {
                actions.push(action);
            }
            return actions;
        }
        let code: u16 = match code {
            Some(code) => code,
            None => return actions,
        };
        if update_modifiers(&mut self.modifiers, key, state) {
            actions.push(
                MacAction::FlagsChanged {
                    flags: to_cgevent_flags(self.modifiers),
                    code: Some(code),
                },
            );
            return actions;
        }
        let more = if state == 1 {
            self.spawn_repeat_task(code)
        } else {
            self.cancel_repeat_task()
        };
        append_actions(&mut actions, more);
        actions
    }

    /// Takes in an event at the time `now`, while the given application is in
    /// front, and returns what is to be done.
    pub fn consume(&mut self, event: Event, now: u64, frontmost: &Option<String>) -> (actions: Vec<
        MacAction,
    >)
        requires
            old(self).wf(),
            counts_click(old(self)@, event, now, crate::text::opt_text(*frontmost)) ==> old(
                self,
            ).button_click_state < i64::MAX,
        ensures
            final(self).wf(),
            match event {
                Event::Pointer(PointerEvent::Motion { dx, dy, .. }) => final(self)@ == old(self)@
                    && exists|t: MouseEventType|
                    is_move_type(old(self)@.pressed_buttons, t) && #[trigger] seq![
                        MacAction::Move { event_type: t, dx, dy },
                    ] == actions@,
                Event::Pointer(PointerEvent::Button { button, state, .. }) => {
                    let step = button_or_key_step(
                        old(self)@,
                        button,
                        state,
                        now,
                        crate::text::opt_text(*frontmost),
                    );
                    final(self)@ == step.state && actions@ == step.actions
                },
                Event::Pointer(PointerEvent::Axis { axis, value, .. }) => final(self)@ == old(
                    self,
                )@ && actions@ == if axis <= 1 {
                    seq![MacAction::ScrollPixels { axis, value }]
                } else {
                    seq![]
                },
                Event::Pointer(PointerEvent::AxisDiscrete120 { axis, value }) => final(self)@ == old(
                    self,
                )@ && actions@ == match wheels(axis, lines(value)) {
                    Some(w) => seq![MacAction::ScrollLines(w)],
                    None => seq![],
                },
                Event::Keyboard(KeyboardEvent::Key { key, state, .. }) => {
                    let step = key_step(old(self)@, key, state, now, mac_keycode(key as u16));
                    final(self)@ == step.state && actions@ == step.actions
                },
                Event::Keyboard(KeyboardEvent::Modifiers { depressed, .. }) => {
                    let step = modifiers_step(old(self)@, depressed, now);
                    final(self)@ == step.state && actions@ == step.actions
                },
            },
    {
        let mut actions: Vec<MacAction> = Vec::new();
        match event {
            Event::Pointer(PointerEvent::Motion { dx, dy, .. }) => {
                let event_type = if self.pressed_buttons.is_empty() {
                    MouseEventType::MouseMoved
                } else {
                    assert(self.pressed_buttons.items@.len() > 0) by {
                        if self.pressed_buttons.items@.len() == 0 {
                            assert(self.pressed_buttons@ =~= Set::<u32>::empty());
                        }
                    }
                    let button: u32 = self.pressed_buttons.items[0];
                    assert(self.pressed_buttons@.contains(button));
                    drag_event_type(button)
                };
                actions.push(MacAction::Move { event_type, dx, dy });
                assert(is_move_type(self@.pressed_buttons, event_type));
                assert(actions@ =~= seq![MacAction::Move { event_type, dx, dy }]);
                actions
            },
            Event::Pointer(PointerEvent::Button { button, state, .. }) => {
                if let Some(side) = canonical_side_button(button) {
                    if state != 1 {
                        if self.synth_keyed_buttons.remove(side) {
                            return actions;
                        }
                        assert(self@.synth_keyed_buttons =~= old(self)@.synth_keyed_buttons);
                    } else {
                        match side_button_route(button, frontmost) {
                            Some(SideButtonRoute::MissionControl) => {
                                actions.push(MacAction::MissionControl);
                                self.synth_keyed_buttons.insert(side);
                                return actions;
                            },
                            Some(SideButtonRoute::ShowDesktop) => {
                                actions.push(MacAction::ShowDesktop);
                                self.synth_keyed_buttons.insert(side);
                                return actions;
                            },
                            Some(SideButtonRoute::NativeMouse) | None => {},
                        }
                    }
                }
                assert(self@ =~= old(self)@);
                self.consume_button(button, state, now)
            },
            Event::Pointer(PointerEvent::Axis { axis, value, .. }) => {
                if axis <= 1 {
                    actions.push(MacAction::ScrollPixels { axis, value });
                }
                actions
            },
            Event::Pointer(PointerEvent::AxisDiscrete120 { axis, value }) => {
                if let Some(w) = wheels_of(axis, lines_of(value)) {
                    actions.push(MacAction::ScrollLines(w));
                }
                actions
            },
            Event::Keyboard(KeyboardEvent::Key { key, state, .. }) => {
                let code = macos_keycode_from_evdev(key);
                self.consume_key(key, state, now, code)
            },
            Event::Keyboard(KeyboardEvent::Modifiers { depressed, latched, locked, group }) => {
                set_modifiers(&mut self.modifiers, depressed, latched, locked, group);
                actions.push(
                    MacAction::FlagsChanged { flags: to_cgevent_flags(self.modifiers), code: None },
                );
                self.last_keyboard_event = Some(now);
                actions
            },
        }
    }

    /// Notes that a movement or a scroll was posted: it ends a series of
    /// clicks.
    pub fn pointer_posted(&mut self)
        requires
            old(self).wf(),
        ensures
            final(self).wf(),
            final(self)@ == (MacState { button_click_state: 0, ..old(self)@ }),
    {
        self.button_click_state = 0;
    }
}

/// A modifier that is pressed and released is not held, and the other
/// modifiers are as before.
pub proof fn modifier_release_undoes_press(mods: XMods, key: u32, other: u32)
    requires
        modifier_mask(key) != 0,
        modifier_mask(other) != modifier_mask(key),
    ensures
        updated(mods, key, 1).has(modifier_mask(key)),
        !updated(updated(mods, key, 1), key, 0).has(modifier_mask(key)),
        updated(updated(mods, key, 1), key, 0).has(modifier_mask(other)) == mods.has(
            modifier_mask(other),
        ),
{
    let m = mods.0;
    let k = modifier_mask(key);
    let o = modifier_mask(other);
    assert(((m | k) & k) != 0) by (bit_vector)
        requires
            k != 0,
    ;
    assert((((m | k) & !k) & k) == 0) by (bit_vector);
    assert(k & o == 0) by {
        assert(1u32 & 2 == 0 && 1u32 & 4 == 0 && 1u32 & 8 == 0 && 1u32 & 64 == 0 && 2u32 & 1 == 0
            && 2u32 & 4 == 0 && 2u32 & 8 == 0 && 2u32 & 64 == 0 && 4u32 & 1 == 0 && 4u32 & 2 == 0
            && 4u32 & 8 == 0 && 4u32 & 64 == 0 && 8u32 & 1 == 0 && 8u32 & 2 == 0 && 8u32 & 4 == 0
            && 8u32 & 64 == 0 && 64u32 & 1 == 0 && 64u32 & 2 == 0 && 64u32 & 4 == 0 && 64u32 & 8
            == 0) by (bit_vector);
        assert(k & 0 == 0) by (bit_vector);
    }
    assert((((m | k) & !k) & o) == (m & o)) by (bit_vector)
        requires
            k & o == 0,
    ;
}

/// The press of a side button outside of Chrome is nothing but its key, and the
/// release, under either number of the button, does nothing but forget the
/// press. The button never counts as held: without others a movement is no
/// drag.
pub proof fn synthetic_press_swallows_release(
    s: MacState,
    button: u32,
    now: u64,
    frontmost: Option<Seq<char>>,
    released: u32,
    later: u64,
    frontmost_later: Option<Seq<char>>,
)
    requires
        side_button(button) is Some,
        side_button(released) == side_button(button),
        !(frontmost matches Some(id) && is_chrome(id)),
    ensures
        ({
            let press = button_or_key_step(s, button, 1, now, frontmost);
            let release = button_or_key_step(press.state, released, 0, later, frontmost_later);
            let side = side_button(button)->0;
            &&& press.actions == seq![
                if side == BTN_BACK {
                    MacAction::MissionControl
                } else {
                    MacAction::ShowDesktop
                },
            ]
            &&& press.state.pressed_buttons == s.pressed_buttons
            &&& release.actions == Seq::<MacAction>::empty()
            &&& release.state == (MacState {
                synth_keyed_buttons: s.synth_keyed_buttons.remove(side),
                ..s
            })
            &&& s.pressed_buttons == Set::<u32>::empty() ==> forall|t: MouseEventType|
                #[trigger] is_move_type(release.state.pressed_buttons, t) <==> t
                    == MouseEventType::MouseMoved
        }),
{
    let side = side_button(button)->0;
    let press = button_or_key_step(s, button, 1, now, frontmost);
    let release = button_or_key_step(press.state, released, 0, later, frontmost_later);
    assert(s.synth_keyed_buttons.insert(side).remove(side) =~= s.synth_keyed_buttons.remove(side));
    assert(release.state =~= MacState {
        synth_keyed_buttons: s.synth_keyed_buttons.remove(side),
        ..s
    });
}

/// An ordinary button that is pressed and released is up again, and each of
/// the two events is posted once.
pub proof fn button_press_and_release(s: MacState, button: u32, now: u64, later: u64)
    requires
        button == BTN_LEFT || button == BTN_RIGHT || button == BTN_MIDDLE,
        !s.pressed_buttons.contains(button),
    ensures
        ({
            let press = button_or_key_step(s, button, 1, now, None);
            let release = button_or_key_step(press.state, button, 0, later, None);
            &&& press.actions.len() == 1
            &&& press.state.pressed_buttons.contains(button)
            &&& release.actions.len() == 1
            &&& release.state.pressed_buttons == s.pressed_buttons
        }),
{
    let press = button_or_key_step(s, button, 1, now, None);
    let release = button_or_key_step(press.state, button, 0, later, None);
    assert(release.state.pressed_buttons =~= s.pressed_buttons);
}

/// The state after the time for a repetition has come `n` times.
pub open spec fn elapsed_times(s: MacState, n: nat) -> MacState
    decreases n,
{
    if n == 0 {
        s
    } else {
        elapsed(elapsed_times(s, (n - 1) as nat)).state
    }
}

/// A held key whose release never comes is repeated [`MAX_KEY_REPEATS`] times
/// and not once more. The last time it is also released.
pub proof fn repetition_is_bounded(s: MacState, code: u16, n: nat)
    ensures
        ({
            let held = elapsed_times(repeated(s, code).state, n);
            let step = elapsed(held);
            let down = MacAction::Key { code, down: true, flags: flags_of(held.modifiers) };
            let up = MacAction::Key { code, down: false, flags: flags_of(step.state.modifiers) };
            &&& n < MAX_KEY_REPEATS - 1 ==> step.actions == seq![
                down,
                MacAction::ArmRepeat(DEFAULT_REPEAT_INTERVAL),
            ]
            &&& n == MAX_KEY_REPEATS - 1 ==> step.actions == seq![down, up]
            &&& n >= MAX_KEY_REPEATS ==> step.actions == Seq::<MacAction>::empty() && step.state
                == held
        }),
{
    lemma_repeat_phase(s, code, n);
    let held = elapsed_times(repeated(s, code).state, n);
    let step = elapsed(held);
    if n == MAX_KEY_REPEATS - 1 {
        assert(step.actions =~= seq![
            MacAction::Key { code, down: true, flags: flags_of(held.modifiers) },
            MacAction::Key { code, down: false, flags: flags_of(step.state.modifiers) },
        ]);
    }
}

proof fn lemma_repeat_phase(s: MacState, code: u16, n: nat)
    ensures
        elapsed_times(repeated(s, code).state, n).repeat == Some(
            Repeat {
                code,
                phase: if n == 0 {
                    RepeatPhase::Waiting
                } else if n < MAX_KEY_REPEATS {
                    RepeatPhase::Repeating(n as u32)
                } else {
                    RepeatPhase::Finished
                },
            },
        ),
    decreases n,
{
    if n > 0 {
        lemma_repeat_phase(s, code, (n - 1) as nat);
    }
}

/// There is one repeating key at most: the press of another key releases the
/// one that repeats before the new key goes down.
pub proof fn new_key_releases_old(s: MacState, code: u16)
    requires
        s.repeat matches Some(r) && r.phase !is Finished,
    ensures
        repeated(s, code).state.repeat == Some(Repeat { code, phase: RepeatPhase::Waiting }),
        repeated(s, code).actions.len() == 4,
        repeated(s, code).actions[1] == (MacAction::Key {
            code: s.repeat->0.code,
            down: false,
            flags: flags_of(repeated(s, code).state.modifiers),
        }),
        repeated(s, code).actions[2] == (MacAction::Key {
            code,
            down: true,
            flags: flags_of(repeated(s, code).state.modifiers),
        }),
{
}

/// After an idle time the press of a modifier is taken on its own: whatever
/// was stranded before, it is then the only modifier that is held.
pub proof fn stranded_modifiers_are_dropped(s: MacState, key: u32, now: u64, code: u16)
    requires
        is_idle(s, now),
        modifier_mask(key) != 0,
    ensures
        key_step(s, key, 1, now, Some(code)).state.modifiers == XMods(modifier_mask(key)),
        !(key_step(s, key, 1, now, Some(code)).state.repeat is Some),
{
    let k = modifier_mask(key);
    assert(0u32 | k == k) by (bit_vector);
}

/// A modifier that is held on purpose survives a pause before an ordinary key:
/// only the press of a modifier drops what is held.
pub proof fn held_modifiers_survive_a_pause(
    s: MacState,
    key: u32,
    state: u8,
    now: u64,
    code: Option<u16>,
)
    requires
        s.repeat is None,
        modifier_mask(key) == 0,
    ensures
        key_step(s, key, state, now, code).state.modifiers == s.modifiers,
{
}

/// Right after an absolute report of the modifiers nothing is taken to be
/// stranded: the report refreshes the idle clock.
pub proof fn resync_refreshes_idle_clock(s: MacState, depressed: u32, now: u64, later: u64)
    requires
        now <= later < now + STUCK_RESET_IDLE,
    ensures
        !is_idle(modifiers_step(s, depressed, now).state, later),
{
}

/// A second press of the same button within the double-click interval counts
/// one more click, and any other press starts at one.
pub proof fn clicks_are_counted(s: MacState, button: u32, now: u64)
    requires
        button_event(button, 1) is Some,
        0 <= s.button_click_state < i64::MAX,
    ensures
        button_step(s, button, 1, now).state.button_click_state == if continues_clicks(
            s,
            button,
            now,
        ) {
            s.button_click_state + 1
        } else {
            1
        },
        continues_clicks(button_step(s, button, 1, now).state, button, now),
{
}

/// The release of a system key, and a key that macOS does not know, do nothing
/// of their own.
pub proof fn unknown_keys_do_nothing(s: MacState, key: u32, state: u8, now: u64)
    requires
        system_action(key) is None || state != 1,
    ensures
        key_step(s, key, state, now, None) == healed(s, key, state, now),
{
}

/// The three main buttons reach the system as themselves, whatever is in front:
/// the left one (evdev 0x110) as left, the right one (0x111) as right, and the
/// middle one (0x112) as another button. A press posts the down event and a
/// release the up event, once; any other state posts nothing.
pub proof fn buttons_are_posted_as_themselves(
    s: MacState,
    button: u32,
    state: u32,
    now: u64,
    frontmost: Option<Seq<char>>,
)
    requires
        button == 0x110 || button == 0x111 || button == 0x112,
    ensures
        ({
            let step = button_or_key_step(s, button, state, now, frontmost);
            let (down, up, mouse_button) = if button == 0x110 {
                (MouseEventType::LeftMouseDown, MouseEventType::LeftMouseUp, MouseButton::Left)
            } else if button == 0x111 {
                (MouseEventType::RightMouseDown, MouseEventType::RightMouseUp, MouseButton::Right)
            } else {
                (MouseEventType::OtherMouseDown, MouseEventType::OtherMouseUp, MouseButton::Center)
            };
            &&& state == 1 ==> step.actions == seq![
                MacAction::Button {
                    event_type: down,
                    button: mouse_button,
                    click_state: step.state.button_click_state,
                    number: None,
                },
            ]
            &&& state == 0 ==> step.actions == seq![
                MacAction::Button {
                    event_type: up,
                    button: mouse_button,
                    click_state: s.button_click_state,
                    number: None,
                },
            ]
            &&& state > 1 ==> step == (Step { state: s, actions: seq![] })
        }),
{
}

/// Different main buttons never post the same event, neither down nor up.
pub proof fn different_buttons_post_differently(
    s: MacState,
    a: u32,
    b: u32,
    state: u32,
    now: u64,
    frontmost: Option<Seq<char>>,
)
    requires
        a == 0x110 || a == 0x111 || a == 0x112,
        b == 0x110 || b == 0x111 || b == 0x112,
        a != b,
        state <= 1,
    ensures
        button_or_key_step(s, a, state, now, frontmost).actions != button_or_key_step(
            s,
            b,
            state,
            now,
            frontmost,
        ).actions,
{
    let x = button_or_key_step(s, a, state, now, frontmost).actions;
    let y = button_or_key_step(s, b, state, now, frontmost).actions;
    assert(x[0]->Button_event_type != y[0]->Button_event_type);
}

/// What is dragged after a press is dragged with the button that was pressed:
/// with no other button down, a movement is a drag with that button and nothing
/// else, and after the release it is a plain movement again.
pub proof fn drag_follows_the_pressed_button(
    s: MacState,
    button: u32,
    now: u64,
    later: u64,
    frontmost: Option<Seq<char>>,
    t: MouseEventType,
)
    requires
        button == 0x110 || button == 0x111 || button == 0x112,
        s.pressed_buttons == Set::<u32>::empty(),
    ensures
        ({
            let press = button_or_key_step(s, button, 1, now, frontmost).state;
            let release = button_or_key_step(press, button, 0, later, frontmost).state;
            &&& is_move_type(press.pressed_buttons, t) <==> t == if button == 0x110 {
                MouseEventType::LeftMouseDragged
            } else if button == 0x111 {
                MouseEventType::RightMouseDragged
            } else {
                MouseEventType::OtherMouseDragged
            }
            &&& is_move_type(release.pressed_buttons, t) <==> t == MouseEventType::MouseMoved
        }),
{
    let press = button_or_key_step(s, button, 1, now, frontmost).state;
    let release = button_or_key_step(press, button, 0, later, frontmost).state;
    assert(press.pressed_buttons.contains(button));
    assert(press.pressed_buttons != Set::<u32>::empty());
    if t == drag_type(button) {
        assert(is_move_type(press.pressed_buttons, t));
    }
    assert forall|other: u32|
        press.pressed_buttons.contains(other) && t == #[trigger] drag_type(other) implies t
        == drag_type(button) by {
        assert(other == button);
    }
    assert(release.pressed_buttons =~= Set::<u32>::empty());
}

/// A button event touches the held buttons only as far as its own button goes:
/// a press holds it, a release lets go of it, and all others stay as they are.
pub proof fn buttons_are_held_independently(
    s: MacState,
    button: u32,
    state: u32,
    now: u64,
    frontmost: Option<Seq<char>>,
    other: u32,
)
    requires
        button == 0x110 || button == 0x111 || button == 0x112,
        other != button,
        state <= 1,
    ensures
        ({
            let after = button_or_key_step(s, button, state, now, frontmost).state;
            &&& after.pressed_buttons.contains(button) <==> state == 1
            &&& after.pressed_buttons.contains(other) <==> s.pressed_buttons.contains(other)
            &&& after.synth_keyed_buttons == s.synth_keyed_buttons
            &&& after.modifiers == s.modifiers
            &&& after.repeat == s.repeat
            &&& after.last_keyboard_event == s.last_keyboard_event
        }),
{
}

/// Two presses of a button make a double click exactly if it is the same button
/// and less than half a second lies between them. Every other press is a single
/// click, and a release tells the count of the press.
pub proof fn double_clicks_are_quick_and_of_one_button(
    s: MacState,
    first: u32,
    second: u32,
    now: u64,
    later: u64,
    frontmost: Option<Seq<char>>,
)
    requires
        first == 0x110 || first == 0x111 || first == 0x112,
        second == 0x110 || second == 0x111 || second == 0x112,
        now <= later,
        !(s.previous_button == Some(first)),
    ensures
        ({
            let one = button_or_key_step(s, first, 1, now, frontmost).state;
            let up = button_or_key_step(one, first, 0, now, frontmost).state;
            let two = button_or_key_step(up, second, 1, later, frontmost).state;
            &&& one.button_click_state == 1
            &&& up.button_click_state == 1
            &&& two.button_click_state == if second == first && later - now < 500_000_000 {
                2int
            } else {
                1int
            }
        }),
{
}

/// A side button is known by its evdev code and by its number on macOS, and is
/// the same button under both; the main buttons are none.
pub proof fn side_buttons_have_two_numbers(button: u32)
    ensures
        side_button(button) == if button == 0x113 || button == 3 {
            Some(0x113u32)
        } else if button == 0x114 || button == 4 {
            Some(0x114u32)
        } else {
            None
        },
        side_button_number(button) == if button == 0x113 || button == 3 {
            Some(3i64)
        } else if button == 0x114 || button == 4 {
            Some(4i64)
        } else {
            None
        },
{
}

/// In Chrome a side button reaches the browser as the mouse button that it is,
/// with its number. Outside of it a press opens Mission Control or shows the
/// desktop: back is the one, and forward the other.
pub proof fn side_buttons_navigate_in_chrome(
    s: MacState,
    button: u32,
    now: u64,
    frontmost: Option<Seq<char>>,
)
    requires
        button == 0x113 || button == 3 || button == 0x114 || button == 4,
    ensures
        ({
            let press = button_or_key_step(s, button, 1, now, frontmost);
            let back = button == 0x113 || button == 3;
            let in_chrome = frontmost == Some("com.google.Chrome"@) || frontmost == Some(
                "com.google.Chrome.canary"@,
            );
            &&& in_chrome ==> press.actions == seq![
                MacAction::Button {
                    event_type: MouseEventType::OtherMouseDown,
                    button: MouseButton::Center,
                    click_state: press.state.button_click_state,
                    number: Some(if back { 3i64 } else { 4i64 }),
                },
            ]
            &&& in_chrome ==> press.state.pressed_buttons.contains(button)
            &&& !in_chrome ==> press.actions == seq![
                if back {
                    MacAction::MissionControl
                } else {
                    MacAction::ShowDesktop
                },
            ]
            &&& !in_chrome ==> press.state.pressed_buttons == s.pressed_buttons
        }),
{
}

/// A side button that was pressed in Chrome is released there, too, under the
/// number that it has, unless its last press outside of Chrome became a key.
pub proof fn native_side_buttons_are_released(
    s: MacState,
    button: u32,
    now: u64,
    frontmost: Option<Seq<char>>,
)
    requires
        button == 0x113 || button == 3 || button == 0x114 || button == 4,
        !s.synth_keyed_buttons.contains(0x113),
        !s.synth_keyed_buttons.contains(0x114),
    ensures
        ({
            let release = button_or_key_step(s, button, 0, now, frontmost);
            &&& release.actions == seq![
                MacAction::Button {
                    event_type: MouseEventType::OtherMouseUp,
                    button: MouseButton::Center,
                    click_state: s.button_click_state,
                    number: Some(if button == 0x113 || button == 3 { 3i64 } else { 4i64 }),
                },
            ]
            &&& !release.state.pressed_buttons.contains(button)
        }),
{
}

/// A button that macOS has no event for does nothing.
pub proof fn unknown_buttons_do_nothing(
    s: MacState,
    button: u32,
    state: u32,
    now: u64,
    frontmost: Option<Seq<char>>,
)
    requires
        !(0x110 <= button <= 0x114),
        button != 3,
        button != 4,
    ensures
        button_or_key_step(s, button, state, now, frontmost) == (Step { state: s, actions: seq![] }),
{
}

/// The lines of a wheel step go in its direction, three for each whole detent
/// of 120, and never further than the wheel turned.
pub proof fn lines_follow_the_wheel(value: i32)
    ensures
        value >= 0 ==> 40 * lines(value) <= value < 40 * lines(value) + 40,
        value <= 0 ==> 40 * lines(value) - 40 < value <= 40 * lines(value),
        value % 120 == 0 ==> lines(value) == 3 * (value as int / 120),
{
}

/// The vertical axis turns the first wheel and the horizontal one the second, by
/// the value that was given, and no other axis turns any.
pub proof fn each_axis_turns_its_wheel(axis: u8, value: i32)
    ensures
        wheels(axis, value) is Some <==> axis <= 1,
        wheels(axis, value) matches Some(w) ==> {
            &&& w.wheel1 == if axis == 0 { value as int } else { 0 }
            &&& w.wheel2 == if axis == 1 { value as int } else { 0 }
            &&& w.wheel3 == 0
            &&& w.count == axis + 1
        },
{
}

proof fn lemma_mask_bits(m: u32, k: u32, j: u32)
    requires
        k == 1 || k == 2 || k == 4 || k == 8 || k == 64,
        j == 1 || j == 2 || j == 4 || j == 8 || j == 64,
    ensures
        ((m | k) & j != 0) == (k == j || m & j != 0),
        ((m & !k) & j != 0) == (k != j && m & j != 0),
{
    assert((k == 1 || k == 2 || k == 4 || k == 8 || k == 64) && (j == 1 || j == 2 || j == 4 || j
        == 8 || j == 64) ==> ((m | k) & j != 0) == (k == j || m & j != 0) && ((m & !k) & j != 0)
        == (k != j && m & j != 0)) by (bit_vector);
}

/// Each modifier key sets the flag of its own modifier while it is held, and no
/// other: the two shift keys (evdev 42 and 54), caps lock (58), the two control
/// keys (29 and 97), the two alt keys (56 and 100), and the two meta keys (125
/// and 126). Every other key leaves the flags alone.
pub proof fn modifier_keys_set_their_flags(mods: XMods, key: u32, state: u8)
    ensures
        ({
            let before = flags_of(mods);
            let after = flags_of(updated(mods, key, state));
            let down = state == 1;
            &&& after.shift == if key == 42 || key == 54 { down } else { before.shift }
            &&& after.alpha_shift == if key == 58 { down } else { before.alpha_shift }
            &&& after.control == if key == 29 || key == 97 { down } else { before.control }
            &&& after.alternate == if key == 56 || key == 100 { down } else { before.alternate }
            &&& after.command == if key == 125 || key == 126 { down } else { before.command }
        }),
        modifier_mask(key) != 0 <==> key == 42 || key == 54 || key == 58 || key == 29 || key == 97
            || key == 56 || key == 100 || key == 125 || key == 126,
{
    let m = mods.0;
    let k = modifier_mask(key);
    if k != 0 {
        lemma_mask_bits(m, k, 1);
        lemma_mask_bits(m, k, 2);
        lemma_mask_bits(m, k, 4);
        lemma_mask_bits(m, k, 8);
        lemma_mask_bits(m, k, 64);
    }
}

/// A modifier key posts the change of the flags with its own code, and does not
/// go down as a key: it never repeats.
pub proof fn modifier_keys_post_flags(
    s: MacState,
    key: u32,
    state: u8,
    now: u64,
    code: u16,
)
    requires
        modifier_mask(key) != 0,
        !is_idle(s, now),
    ensures
        key_step(s, key, state, now, Some(code)).actions == seq![
            MacAction::FlagsChanged {
                flags: flags_of(updated(s.modifiers, key, state)),
                code: Some(code),
            },
        ],
        key_step(s, key, state, now, Some(code)).state.modifiers == updated(
            s.modifiers,
            key,
            state,
        ),
        key_step(s, key, state, now, Some(code)).state.repeat == s.repeat,
{
    let step = key_step(s, key, state, now, Some(code));
    assert(step.actions =~= seq![
        MacAction::FlagsChanged {
            flags: flags_of(updated(s.modifiers, key, state)),
            code: Some(code),
        },
    ]);
}

/// An absolute report sets the flags to its depressed mask, bit by bit: shift
/// is 1, lock 2, control 4, alt 8 and meta 64. A mask with a bit that stands
/// for no modifier sets none.
pub proof fn report_sets_all_flags(s: MacState, depressed: u32, now: u64)
    ensures
        ({
            let step = modifiers_step(s, depressed, now);
            let known = depressed <= 255;
            let flags = CgFlags {
                shift: known && depressed & 1 != 0,
                alpha_shift: known && depressed & 2 != 0,
                control: known && depressed & 4 != 0,
                alternate: known && depressed & 8 != 0,
                command: known && depressed & 64 != 0,
            };
            &&& step.actions == seq![MacAction::FlagsChanged { flags, code: None }]
            &&& flags_of(step.state.modifiers) == flags
            &&& step.state.last_keyboard_event == Some(now)
            &&& step.state.repeat == s.repeat
            &&& step.state.pressed_buttons == s.pressed_buttons
        }),
{
    assert(0u32 & 1 == 0 && 0u32 & 2 == 0 && 0u32 & 4 == 0 && 0u32 & 8 == 0 && 0u32 & 64 == 0)
        by (bit_vector);
}

/// The press of an ordinary key that macOS knows makes its very code go down,
/// with the flags of the modifiers that are held, and repeat after half a second.
pub proof fn ordinary_keys_go_down(s: MacState, key: u32, now: u64, code: u16)
    requires
        modifier_mask(key) == 0,
        system_action(key) is None,
        !is_idle(s, now),
        s.repeat is None,
    ensures
        ({
            let press = key_step(s, key, 1, now, Some(code));
            &&& press.actions == seq![
                MacAction::Key { code, down: true, flags: flags_of(s.modifiers) },
                MacAction::ArmRepeat(500_000_000),
            ]
            &&& press.state.modifiers == s.modifiers
            &&& press.state.repeat is Some
        }),
{
    let press = key_step(s, key, 1, now, Some(code));
    assert(press.actions =~= seq![
        MacAction::Key { code, down: true, flags: flags_of(s.modifiers) },
        MacAction::ArmRepeat(500_000_000),
    ]);
}

/// What is pressed is released: the release of an ordinary key makes the code
/// go up that went down, and it no longer repeats, however often it has.
pub proof fn ordinary_keys_go_up(
    s: MacState,
    key: u32,
    now: u64,
    later: u64,
    code: u16,
    n: nat,
)
    requires
        modifier_mask(key) == 0,
        system_action(key) is None,
        n < MAX_KEY_REPEATS,
        now <= later < now + STUCK_RESET_IDLE,
    ensures
        ({
            let press = key_step(s, key, 1, now, Some(code));
            let held = elapsed_times(press.state, n);
            let release = key_step(held, key, 0, later, Some(code));
            &&& release.actions == seq![
                MacAction::DisarmRepeat,
                MacAction::Key { code, down: false, flags: flags_of(release.state.modifiers) },
            ]
            &&& release.state.repeat is None
        }),
{
    let h = healed(s, key, 1, now);
    let press = key_step(s, key, 1, now, Some(code));
    assert(press.state == repeated(h.state, code).state);
    lemma_repeat_phase(h.state, code, n);
    lemma_elapsed_keeps_clock(press.state, n);
    let held = elapsed_times(press.state, n);
    let release = key_step(held, key, 0, later, Some(code));
    assert(release.actions =~= seq![
        MacAction::DisarmRepeat,
        MacAction::Key { code, down: false, flags: flags_of(release.state.modifiers) },
    ]);
}

proof fn lemma_elapsed_keeps_clock(s: MacState, n: nat)
    ensures
        elapsed_times(s, n).last_keyboard_event == s.last_keyboard_event,
    decreases n,
{
    if n > 0 {
        lemma_elapsed_keeps_clock(s, (n - 1) as nat);
    }
}

/// A held key repeats the code that went down, every 32 milliseconds, with the
/// flags of the modifiers that are held by then.
pub proof fn repetition_repeats_the_key(s: MacState, code: u16, n: u32)
    requires
        s.repeat == Some(Repeat { code, phase: RepeatPhase::Waiting }) || s.repeat == Some(
            Repeat { code, phase: RepeatPhase::Repeating(n) },
        ),
        n < 299,
    ensures
        elapsed(s).actions == seq![
            MacAction::Key { code, down: true, flags: flags_of(s.modifiers) },
            MacAction::ArmRepeat(32_000_000),
        ],
        elapsed(s).state.repeat matches Some(r) && r.code == code && r.phase is Repeating,
        elapsed(s).state.modifiers == s.modifiers,
{
}

/// The system keys do on macOS what is printed on them, once for each press and
/// nothing on release: F9 (evdev 67) opens Mission Control, F11 (87) shows the
/// desktop, and 113, 114 and 115 mute, lower and raise the volume, the last two
/// in fine steps. They never go down as keys.
pub proof fn system_keys_act_once(
    s: MacState,
    key: u32,
    state: u8,
    now: u64,
    code: Option<u16>,
)
    requires
        key == 67 || key == 87 || key == 113 || key == 114 || key == 115,
        !is_idle(s, now),
    ensures
        ({
            let step = key_step(s, key, state, now, code);
            let action = if key == 67 {
                MacAction::MissionControl
            } else if key == 87 {
                MacAction::ShowDesktop
            } else if key == 113 {
                MacAction::MediaKey { key_type: 7, fine_step: false }
            } else if key == 114 {
                MacAction::MediaKey { key_type: 1, fine_step: true }
            } else {
                MacAction::MediaKey { key_type: 0, fine_step: true }
            };
            &&& state == 1 ==> step.actions == seq![action]
            &&& state != 1 ==> step.actions == Seq::<MacAction>::empty()
            &&& step.state == (MacState { last_keyboard_event: Some(now), ..s })
        }),
{
    let step = key_step(s, key, state, now, code);
    if state == 1 {
        assert(step.actions =~= seq![system_action(key)->0]);
    }
}

/// Only those five keys are system keys.
pub proof fn other_keys_are_no_system_keys(key: u32)
    ensures
        system_action(key) is Some <==> key == 67 || key == 87 || key == 113 || key == 114 || key
            == 115,
{
}

/// The keyboard counts as idle once nothing came from it for 800 milliseconds,
/// and not before; a keyboard that nothing came from yet never does.
pub proof fn idle_means_a_long_silence(s: MacState, now: u64)
    ensures
        is_idle(s, now) <==> match s.last_keyboard_event {
            Some(t) => now >= t + 800_000_000,
            None => false,
        },
{
}

/// After a long silence a key that still repeats is let go of before anything
/// else, and only then.
pub proof fn stranded_repetition_is_let_go(
    s: MacState,
    key: u32,
    state: u8,
    now: u64,
    code: u16,
)
    requires
        s.repeat == Some(Repeat { code, phase: RepeatPhase::Waiting }),
    ensures
        ({
            let h = healed(s, key, state, now);
            &&& is_idle(s, now) ==> h.actions.len() >= 2 && h.actions[0] is DisarmRepeat && (
            h.actions[1] matches MacAction::Key { code: c, down, .. } && c == code && !down)
                && h.state.repeat is None
            &&& !is_idle(s, now) ==> h.actions == Seq::<MacAction>::empty() && h.state.repeat
                == s.repeat && h.state.modifiers == s.modifiers
            &&& h.state.last_keyboard_event == Some(now)
        }),
{
}

/// The end of a held key puts its code up, and never turns a modifier on: the
/// flags that are set then were set before.
pub proof fn letting_go_turns_no_modifier_on(s: MacState, code: u16)
    ensures
        ({
            let end = released(s, code);
            let before = flags_of(s.modifiers);
            let after = flags_of(end.state.modifiers);
            &&& end.actions == seq![MacAction::Key { code, down: false, flags: after }]
            &&& after.shift ==> before.shift
            &&& after.alpha_shift ==> before.alpha_shift
            &&& after.control ==> before.control
            &&& after.alternate ==> before.alternate
            &&& after.command ==> before.command
            &&& modifier_mask(code as u32) == 0 ==> after == before
            &&& end.state.pressed_buttons == s.pressed_buttons
            &&& end.state.repeat == s.repeat
        }),
{
    modifier_keys_set_their_flags(s.modifiers, code as u32, 0);
}

/// A window tells who is in front if it is an ordinary one, on layer 0, and its
/// owner is known.
pub proof fn ordinary_windows_tell_their_owner(w: Window, pid: i64)
    ensures
        tells_owner(Window { layer: Some(0), owner_pid: Some(pid) }),
        !tells_owner(Window { owner_pid: None, ..w }),
        w.layer is None ==> !tells_owner(w),
        (w.layer matches Some(n) && n != 0) ==> !tells_owner(w),
{
}

/// What is known of the application in front is used as it is.
pub proof fn known_application_is_used(id: &str)
    ensures
        opt_str(Some(id)) == Some(id@),
        opt_str(None) is None,
{
}

} // verus!
