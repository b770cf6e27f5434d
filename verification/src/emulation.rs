//! Input emulation: which events reach the backend, and what is released when
//! a session ends.
use crate::collections::{AssocMap, NumberSet};
use crate::input::{Event, KeyboardEvent, PointerEvent};
use vstd::prelude::*;

verus! {

/// The handle of an emulation session.
pub type EmulationHandle = u64;

/// The emulation backends.
#[derive(Clone, Copy, Debug, PartialEq, Eq, Structural)]
pub enum Backend {
    Wlroots,
    Libei,
    Xdp,
    X11,
    Windows,
    MacOs,
    Dummy,
}

impl Backend {
    /// The name of the backend.
    pub open spec fn text(self) -> Seq<char> {
        match self {
            Backend::Wlroots => "wlroots"@,
            Backend::Libei => "libei"@,
            Backend::Xdp => "xdg-desktop-portal"@,
            Backend::X11 => "X11"@,
            Backend::Windows => "windows"@,
            Backend::MacOs => "macos"@,
            Backend::Dummy => "dummy"@,
        }
    }

    /// The name of the backend.
    pub fn as_str(self) -> (s: &'static str)
        ensures
            s@ == self.text(),
    {
        match self {
            Backend::Wlroots => "wlroots",
            Backend::Libei => "libei",
            Backend::Xdp => "xdg-desktop-portal",
            Backend::X11 => "X11",
            Backend::Windows => "windows",
            Backend::MacOs => "macos",
            Backend::Dummy => "dummy",
        }
    }
}

/// What came of the attempt to create a backend.
#[derive(Clone, Copy, Debug, PartialEq, Eq, Structural)]
pub enum Attempt {
    Created,
    CancelledByUser,
    Failed,
}

/// Where the selection of a backend stands.
#[derive(Clone, Copy, Debug, PartialEq, Eq, Structural)]
pub enum Selection {
    /// The backend at this index of the candidates is to be tried.
    Try(usize),
    /// The backend at this index is used.
    Use(usize),
    /// The error of the backend at this index ends the selection.
    Abort(usize),
    /// No candidate is left.
    NoAvailableBackend,
}

/// The candidates, of which the available ones are tried in this order. A
/// backend that is asked for by name is the only candidate.
pub open spec fn candidates(asked: Option<Backend>, available: Seq<Backend>) -> Seq<Backend> {
    match asked {
        Some(b) => seq![b],
        None => available,
    }
}

/// The candidates: the backend that is asked for, or else all that are
/// available.
pub fn candidate_backends(asked: Option<Backend>, available: Vec<Backend>) -> (r: Vec<Backend>)
    ensures
        r@ == candidates(asked, available@),
{
    match asked {
        Some(b) => {
            let mut r: Vec<Backend> = Vec::new();
            r.push(b);
            r
        },
        None => available,
    }
}

/// How the selection starts.
pub fn first_backend(count: usize) -> (s: Selection)
    ensures
        s == if count > 0 {
            Selection::Try(0)
        } else {
            Selection::NoAvailableBackend
        },
{
    if count > 0 {
        Selection::Try(0)
    } else {
        Selection::NoAvailableBackend
    }
}

/// How the selection goes on after the attempt at the candidate `index`. A
/// failure passes on to the next candidate, unless the user cancelled it or
/// the backend was asked for by name.
pub open spec fn selection_after(
    asked: bool,
    count: nat,
    index: int,
    attempt: Attempt,
) -> Selection {
    match attempt {
        Attempt::Created => Selection::Use(index as usize),
        Attempt::CancelledByUser => Selection::Abort(index as usize),
        Attempt::Failed => if asked {
            Selection::Abort(index as usize)
        } else if index + 1 < count {
            Selection::Try((index + 1) as usize)
        } else {
            Selection::NoAvailableBackend
        },
    }
}

/// How the selection goes on after the attempt at the candidate `index`.
pub fn next_backend(asked: bool, count: usize, index: usize, attempt: Attempt) -> (s: Selection)
    requires
        index < count,
    ensures
        s == selection_after(asked, count as nat, index as int, attempt),
{
    match attempt {
        Attempt::Created => Selection::Use(index),
        Attempt::CancelledByUser => Selection::Abort(index),
        Attempt::Failed => if asked {
            Selection::Abort(index)
        } else if index + 1 < count {
            Selection::Try(index + 1)
        } else {
            Selection::NoAvailableBackend
        },
    }
}

/// The outcome of trying the candidates from `index` on, if the attempt at
/// each comes out as told.
pub open spec fn selected(asked: bool, attempts: Seq<Attempt>, index: int) -> Selection
    decreases attempts.len() - index,
{
    if index < 0 || index >= attempts.len() {
        Selection::NoAvailableBackend
    } else {
        match selection_after(asked, attempts.len(), index, attempts[index]) {
            Selection::Try(i) if i == index + 1 => selected(asked, attempts, index + 1),
            s => s,
        }
    }
}

/// The first backend that can be created is used, as long as the user cancels
/// none before it.
pub proof fn first_working_backend_is_used(attempts: Seq<Attempt>, k: int)
    requires
        0 <= k < attempts.len() <= usize::MAX,
        attempts[k] is Created,
        forall|i: int| 0 <= i < k ==> (#[trigger] attempts[i]) is Failed,
    ensures
        selected(false, attempts, 0) == Selection::Use(k as usize),
{
    lemma_selected_from(attempts, k, 0);
}

proof fn lemma_selected_from(attempts: Seq<Attempt>, k: int, i: int)
    requires
        0 <= i <= k < attempts.len() <= usize::MAX,
        attempts[k] is Created,
        forall|j: int| 0 <= j < k ==> (#[trigger] attempts[j]) is Failed,
    ensures
        selected(false, attempts, i) == Selection::Use(k as usize),
    decreases k - i,
{
    if i < k {
        assert(attempts[i] is Failed);
        lemma_selected_from(attempts, k, i + 1);
    }
}

/// What a session holds down.
pub struct Pressed {
    pub keys: NumberSet,
    pub buttons: NumberSet,
}

/// What a session holds down, in mathematical terms.
#[verifier::ext_equal]
pub struct Held {
    pub keys: Set<u32>,
    pub buttons: Set<u32>,
}

impl View for Pressed {
    type V = Held;

    open spec fn view(&self) -> Held {
        Held { keys: self.keys@, buttons: self.buttons@ }
    }
}

impl Pressed {
    /// Whether both sets are in order.
    pub open spec fn wf(&self) -> bool {
        self.keys.wf() && self.buttons.wf()
    }
}

/// What is to be sent to the backend when a session ends.
pub struct Teardown {
    /// The releases of the buttons, up to the first that fails.
    pub buttons: Vec<Event>,
    /// The releases of the keys and of the modifiers, up to the first that
    /// fails.
    pub keys: Vec<Event>,
    /// Whether the session is to be destroyed in the backend.
    pub destroy: bool,
}

/// The release of a key.
pub open spec fn key_up(key: u32) -> Event {
    Event::Keyboard(KeyboardEvent::Key { time: 0, key, state: 0 })
}

/// The release of a button.
pub open spec fn button_up(button: u32) -> Event {
    Event::Pointer(PointerEvent::Button { time: 0, button, state: 0 })
}

/// The release of all modifiers.
pub open spec fn no_modifiers() -> Event {
    Event::Keyboard(KeyboardEvent::Modifiers { depressed: 0, latched: 0, locked: 0, group: 0 })
}

/// Whether `events` release the keys, each once, and then the modifiers.
pub open spec fn releases_keys(events: Seq<Event>, keys: Set<u32>) -> bool {
    exists|order: Seq<u32>|
        {
            &&& order.no_duplicates()
            &&& #[trigger] order.to_set() == keys
            &&& events == order.map_values(|k: u32| key_up(k)).push(no_modifiers())
        }
}

/// Whether `events` release the buttons, each once.
pub open spec fn releases_buttons(events: Seq<Event>, buttons: Set<u32>) -> bool {
    exists|order: Seq<u32>|
        {
            &&& order.no_duplicates()
            &&& #[trigger] order.to_set() == buttons
            &&& events == order.map_values(|b: u32| button_up(b))
        }
}

/// What the session of a handle holds down; nothing, if there is none.
pub open spec fn held_by(sessions: Map<u64, Held>, handle: u64) -> Held {
    if sessions.dom().contains(handle) {
        sessions[handle]
    } else {
        Held { keys: Set::empty(), buttons: Set::empty() }
    }
}

/// Whether an event passes on to the backend. A key or a button has to change
/// its state, in a session that exists; a button state that is neither up nor
/// down passes in one. All other events pass.
pub open spec fn passes(sessions: Map<u64, Held>, event: Event, handle: u64) -> bool {
    match event {
        Event::Keyboard(KeyboardEvent::Key { key, state, .. }) => sessions.dom().contains(handle)
            && (sessions[handle].keys.contains(key) == (state == 0)),
        Event::Pointer(PointerEvent::Button { button, state, .. }) => sessions.dom().contains(
            handle,
        ) && (state > 1 || (sessions[handle].buttons.contains(button) == (state == 0))),
        _ => true,
    }
}

/// The sessions after an event.
pub open spec fn after_event(sessions: Map<u64, Held>, event: Event, handle: u64) -> Map<
    u64,
    Held,
> {
    if !sessions.dom().contains(handle) {
        sessions
    } else {
        let h = sessions[handle];
        match event {
            Event::Keyboard(KeyboardEvent::Key { key, state, .. }) => sessions.insert(
                handle,
                Held {
                    keys: if state == 0 {
                        h.keys.remove(key)
                    } else {
                        h.keys.insert(key)
                    },
                    ..h
                },
            ),
            Event::Pointer(PointerEvent::Button { button, state, .. }) => if state > 1 {
                sessions
            } else {
                sessions.insert(
                    handle,
                    Held {
                        buttons: if state == 0 {
                            h.buttons.remove(button)
                        } else {
                            h.buttons.insert(button)
                        },
                        ..h
                    },
                )
            },
            _ => sessions,
        }
    }
}

/// The emulation sessions, and what each holds down.
pub struct InputEmulation {
    pub sessions: AssocMap<u64, Pressed>,
}

impl View for InputEmulation {
    type V = Map<u64, Held>;

    open spec fn view(&self) -> Map<u64, Held> {
        self.sessions@.map_values(|p: Pressed| p@)
    }
}

/// The releases of the keys, and then of the modifiers.
fn key_releases(keys: &NumberSet) -> (events: Vec<Event>)
    requires
        keys.wf(),
    ensures
        releases_keys(events@, keys@),
{
    let mut events: Vec<Event> = Vec::new();
    let mut i: usize = 0;
    let ghost order = keys.items@;
    while i < keys.items.len()
        invariant
            order == keys.items@,
            i <= order.len(),
            events@ == order.take(i as int).map_values(|k: u32| key_up(k)),
        decreases order.len() - i,
    {
        events.push(
            Event::Keyboard(KeyboardEvent::Key { time: 0, key: keys.items[i], state: 0 }),
        );
        assert(order.take(i + 1).map_values(|k: u32| key_up(k)) =~= order.take(
            i as int,
        ).map_values(|k: u32| key_up(k)).push(key_up(order[i as int])));
        i = i + 1;
    }
    assert(order.take(order.len() as int) =~= order);
    events.push(
        Event::Keyboard(
            KeyboardEvent::Modifiers { depressed: 0, latched: 0, locked: 0, group: 0 },
        ),
    );
    assert(order.to_set() == keys@);
    events
}

/// The releases of the buttons.
fn button_releases(buttons: &NumberSet) -> (events: Vec<Event>)
    requires
        buttons.wf(),
    ensures
        releases_buttons(events@, buttons@),
{
    let mut events: Vec<Event> = Vec::new();
    let mut i: usize = 0;
    let ghost order = buttons.items@;
    while i < buttons.items.len()
        invariant
            order == buttons.items@,
            i <= order.len(),
            events@ == order.take(i as int).map_values(|b: u32| button_up(b)),
        decreases order.len() - i,
    {
        events.push(
            Event::Pointer(PointerEvent::Button { time: 0, button: buttons.items[i], state: 0 }),
        );
        assert(order.take(i + 1).map_values(|b: u32| button_up(b)) =~= order.take(
            i as int,
        ).map_values(|b: u32| button_up(b)).push(button_up(order[i as int])));
        i = i + 1;
    }
    assert(order.take(order.len() as int) =~= order);
    assert(order.to_set() == buttons@);
    events
}

impl InputEmulation {
    /// Whether the map and its sets are in order.
    pub open spec fn wf(&self) -> bool {
        &&& self.sessions.wf()
        &&& forall|h: u64|
            #![trigger self.sessions@[h]]
            self.sessions@.dom().contains(h) ==> self.sessions@[h].wf()
    }

    /// An emulation without sessions.
    pub fn new() -> (e: InputEmulation)
        ensures
            e.wf(),
            e@ == Map::<u64, Held>::empty(),
    {
        let e = InputEmulation { sessions: AssocMap::new() };
        assert(e@ =~= Map::<u64, Held>::empty());
        e
    }

    /// Replaces what a session holds down.
    fn set_session(&mut self, handle: EmulationHandle, p: Pressed)
        requires
            old(self).wf(),
            p.wf(),
        ensures
            final(self).wf(),
            final(self)@ == old(self)@.insert(handle, p@),
    {
        let ghost held = p@;
        let ghost before = self@;
        self.sessions.insert(handle, p);
        assert(self@ =~= before.insert(handle, held));
    }

    /// Takes a session out, to be put back with [`InputEmulation::set_session`].
    fn take_session(&mut self, handle: EmulationHandle) -> (r: Option<Pressed>)
        requires
            old(self).wf(),
        ensures
            final(self).wf(),
            final(self)@ == old(self)@.remove(handle),
            match r {
                Some(p) => old(self)@.dom().contains(handle) && p.wf() && p@ == old(self)@[handle],
                None => !old(self)@.dom().contains(handle) && final(self)@ == old(self)@,
            },
    {
        let ghost before = self@;
        let r = self.sessions.remove(&handle);
        assert(self@ =~= before.remove(handle));
        assert(r is None ==> before.remove(handle) =~= before);
        r
    }

    /// Notes the new state of a key, and returns whether the event passes.
    fn update_pressed_keys(&mut self, handle: EmulationHandle, key: u32, state: u8) -> (r: bool)
        requires
            old(self).wf(),
        ensures
            final(self).wf(),
            final(self)@ == after_event(
                old(self)@,
                Event::Keyboard(KeyboardEvent::Key { time: 0, key, state }),
                handle,
            ),
            r == passes(
                old(self)@,
                Event::Keyboard(KeyboardEvent::Key { time: 0, key, state }),
                handle,
            ),
    {
        let ghost before = self@;
        match self.take_session(handle) {
            None => false,
            Some(mut p) => {
                let r = if state == 0 {
                    p.keys.remove(key)
                } else {
                    p.keys.insert(key)
                };
                self.set_session(handle, p);
                assert(before.remove(handle).insert(handle, p@) =~= before.insert(handle, p@));
                r
            },
        }
    }

    /// Notes the new state of a button, and returns whether the event passes.
    fn update_pressed_buttons(&mut self, handle: EmulationHandle, button: u32, state: u32) -> (r:
        bool)
        requires
            old(self).wf(),
        ensures
            final(self).wf(),
            final(self)@ == after_event(
                old(self)@,
                Event::Pointer(PointerEvent::Button { time: 0, button, state }),
                handle,
            ),
            r == passes(
                old(self)@,
                Event::Pointer(PointerEvent::Button { time: 0, button, state }),
                handle,
            ),
    {
        let ghost before = self@;
        match self.take_session(handle) {
            None => false,
            Some(mut p) => {
                let r = match state {
                    0 => p.buttons.remove(button),
                    1 => p.buttons.insert(button),
                    _ => true,
                };
                self.set_session(handle, p);
                assert(before.remove(handle).insert(handle, p@) =~= before.insert(handle, p@));
                assert(before.insert(handle, before[handle]) =~= before);
                r
            },
        }
    }

    /// Takes in an event of a session, and returns whether it passes on to the
    /// backend. A key or button that does not change its state does not.
    pub fn consume(&mut self, event: Event, handle: EmulationHandle) -> (forward: bool)
        requires
            old(self).wf(),
        ensures
            final(self).wf(),
            final(self)@ == after_event(old(self)@, event, handle),
            forward == passes(old(self)@, event, handle),
    {
        match event {
            Event::Keyboard(KeyboardEvent::Key { key, state, .. }) => self.update_pressed_keys(
                handle,
                key,
                state,
            ),
            Event::Pointer(PointerEvent::Button { button, state, .. }) =>
                self.update_pressed_buttons(handle, button, state),
            _ => true,
        }
    }

    /// Starts a session, and returns whether it is a new one, which is then to
    /// be created in the backend, too.
    pub fn create(&mut self, handle: EmulationHandle) -> (created: bool)
        requires
            old(self).wf(),
        ensures
            final(self).wf(),
            created == !old(self)@.dom().contains(handle),
            final(self)@ == if created {
                old(self)@.insert(handle, Held { keys: Set::empty(), buttons: Set::empty() })
            } else {
                old(self)@
            },
    {
        if self.sessions.contains_key(&handle) {
            return false;
        }
        self.set_session(handle, Pressed { keys: NumberSet::new(), buttons: NumberSet::new() });
        true
    }

    /// Releases all keys of a session, and the modifiers. What is returned is
    /// to be sent to the backend, up to the first event that fails.
    pub fn release_keys(&mut self, handle: EmulationHandle) -> (events: Vec<Event>)
        requires
            old(self).wf(),
        ensures
            final(self).wf(),
            releases_keys(events@, held_by(old(self)@, handle).keys),
            final(self)@ == if old(self)@.dom().contains(handle) {
                old(self)@.insert(handle, Held { keys: Set::empty(), ..old(self)@[handle] })
            } else {
                old(self)@
            },
    {
        let ghost before = self@;
        match self.take_session(handle) {
            None => key_releases(&NumberSet::new()),
            Some(mut p) => {
                let events = key_releases(&p.keys);
                p.keys = NumberSet::new();
                self.set_session(handle, p);
                assert(before.remove(handle).insert(handle, p@) =~= before.insert(handle, p@));
                events
            },
        }
    }

    /// Releases all buttons of a session. What is returned is to be sent to
    /// the backend, up to the first event that fails.
    pub fn release_buttons(&mut self, handle: EmulationHandle) -> (events: Vec<Event>)
        requires
            old(self).wf(),
        ensures
            final(self).wf(),
            releases_buttons(events@, held_by(old(self)@, handle).buttons),
            final(self)@ == if old(self)@.dom().contains(handle) {
                old(self)@.insert(handle, Held { buttons: Set::empty(), ..old(self)@[handle] })
            } else {
                old(self)@
            },
    {
        let ghost before = self@;
        match self.take_session(handle) {
            None => button_releases(&NumberSet::new()),
            Some(mut p) => {
                let events = button_releases(&p.buttons);
                p.buttons = NumberSet::new();
                self.set_session(handle, p);
                assert(before.remove(handle).insert(handle, p@) =~= before.insert(handle, p@));
                events
            },
        }
    }

    /// Ends a session: its buttons and keys are released, and if there is one,
    /// it is to be destroyed in the backend, too.
    pub fn destroy(&mut self, handle: EmulationHandle) -> (t: Teardown)
        requires
            old(self).wf(),
        ensures
            final(self).wf(),
            final(self)@ == old(self)@.remove(handle),
            releases_buttons(t.buttons@, held_by(old(self)@, handle).buttons),
            releases_keys(t.keys@, held_by(old(self)@, handle).keys),
            t.destroy == old(self)@.dom().contains(handle),
    {
        let ghost before = self@;
        let buttons = self.release_buttons(handle);
        let keys = self.release_keys(handle);
        let ghost mid = self@;
        let destroy = self.take_session(handle).is_some();
        assert(mid.remove(handle) =~= before.remove(handle));
        Teardown { buttons, keys, destroy }
    }

    /// The handles of all sessions: on termination each is to be destroyed, and
    /// then the backend terminated.
    pub fn terminate(&self) -> (handles: Vec<EmulationHandle>)
        requires
            self.wf(),
        ensures
            handles@.no_duplicates(),
            forall|h: u64| handles@.contains(h) <==> #[trigger] self@.dom().contains(h),
    {
        let mut handles: Vec<EmulationHandle> = Vec::new();
        let mut i: usize = 0;
        let ghost entries = self.sessions.entries@;
        while i < self.sessions.entries.len()
            invariant
                self.wf(),
                entries == self.sessions.entries@,
                i <= entries.len(),
                handles@.len() == i,
                forall|j: int| 0 <= j < i ==> #[trigger] handles@[j] == entries[j].0,
            decreases entries.len() - i,
        {
            handles.push(self.sessions.entries[i].0);
            i = i + 1;
        }
        proof {
            assert forall|a: int, b: int|
                0 <= a < handles@.len() && 0 <= b < handles@.len() && a != b implies handles@[a]
                != handles@[b] by {
                assert(handles@[a] == entries[a].0);
                assert(handles@[b] == entries[b].0);
                if a < b {
                    assert(entries[a].0@ != entries[b].0@);
                } else {
                    assert(entries[b].0@ != entries[a].0@);
                }
            }
            assert forall|h: u64| handles@.contains(h) <==> #[trigger] self@.dom().contains(h) by {
                if self@.dom().contains(h) {
                    let j = crate::collections::lemma_key(entries, h);
                    assert(handles@[j] == h);
                }
                if handles@.contains(h) {
                    let j = choose|j: int| 0 <= j < handles@.len() && handles@[j] == h;
                    assert(entries[j].0 == h);
                    crate::collections::lemma_entry(entries, j);
                }
            }
        }
        handles
    }

    /// Whether a session holds a key down.
    pub fn has_pressed_keys(&self, handle: EmulationHandle) -> (r: bool)
        requires
            self.wf(),
        ensures
            r == (held_by(self@, handle).keys != Set::<u32>::empty()),
    {
        match self.sessions.get(&handle) {
            Some(p) => !p.keys.is_empty(),
            None => false,
        }
    }
}

/// The events of a session that pass, in a row of events that come in.
pub open spec fn passed(sessions: Map<u64, Held>, events: Seq<Event>, handle: u64) -> Seq<Event>
    decreases events.len(),
{
    if events.len() == 0 {
        seq![]
    } else {
        let before = events.drop_last();
        let last = events.last();
        let so_far = passed(sessions, before, handle);
        if passes(after_events(sessions, before, handle), last, handle) {
            so_far.push(last)
        } else {
            so_far
        }
    }
}

/// The sessions after a row of events.
pub open spec fn after_events(sessions: Map<u64, Held>, events: Seq<Event>, handle: u64) -> Map<
    u64,
    Held,
>
    decreases events.len(),
{
    if events.len() == 0 {
        sessions
    } else {
        after_event(after_events(sessions, events.drop_last(), handle), events.last(), handle)
    }
}

/// A repeated press or release of a button is suppressed: of two equal
/// transitions in a row the second never passes.
pub proof fn duplicate_button_is_suppressed(
    sessions: Map<u64, Held>,
    handle: u64,
    button: u32,
    state: u32,
    time: u32,
    later: u32,
)
    requires
        state <= 1,
    ensures
        !passes(
            after_event(
                sessions,
                Event::Pointer(PointerEvent::Button { time, button, state }),
                handle,
            ),
            Event::Pointer(PointerEvent::Button { time: later, button, state }),
            handle,
        ),
{
}

/// A repeated press or release of a key is suppressed.
pub proof fn duplicate_key_is_suppressed(
    sessions: Map<u64, Held>,
    handle: u64,
    key: u32,
    state: u8,
    time: u32,
    later: u32,
    again: u8,
)
    requires
        (state == 0) == (again == 0),
    ensures
        !passes(
            after_event(
                sessions,
                Event::Keyboard(KeyboardEvent::Key { time, key, state }),
                handle,
            ),
            Event::Keyboard(KeyboardEvent::Key { time: later, key, state: again }),
            handle,
        ),
{
}

/// A session does not touch what another one holds down.
pub proof fn sessions_are_independent(
    sessions: Map<u64, Held>,
    event: Event,
    handle: u64,
    other: u64,
)
    requires
        handle != other,
    ensures
        held_by(after_event(sessions, event, handle), other) == held_by(sessions, other),
        after_event(sessions, event, handle).dom() == sessions.dom(),
{
    assert(after_event(sessions, event, handle).dom() =~= sessions.dom());
}

/// The end of a session releases all that it holds: the release of every
/// button and of every key that is down is among the events.
pub proof fn teardown_releases_everything(
    buttons: Seq<Event>,
    keys: Seq<Event>,
    held: Held,
    button: u32,
    key: u32,
)
    requires
        releases_buttons(buttons, held.buttons),
        releases_keys(keys, held.keys),
    ensures
        held.buttons.contains(button) <==> buttons.contains(button_up(button)),
        held.keys.contains(key) <==> keys.contains(key_up(key)),
        keys.len() > 0,
        keys.last() == no_modifiers(),
{
    let b = choose|order: Seq<u32>|
        {
            &&& order.no_duplicates()
            &&& #[trigger] order.to_set() == held.buttons
            &&& buttons == order.map_values(|b: u32| button_up(b))
        };
    if held.buttons.contains(button) {
        assert(b.contains(button));
        let i = choose|i: int| 0 <= i < b.len() && b[i] == button;
        assert(buttons[i] == button_up(button));
    }
    if buttons.contains(button_up(button)) {
        let i = choose|i: int| 0 <= i < buttons.len() && buttons[i] == button_up(button);
        assert(buttons[i] == button_up(b[i]));
        assert(b.contains(b[i]));
    }
    let k = choose|order: Seq<u32>|
        {
            &&& order.no_duplicates()
            &&& #[trigger] order.to_set() == held.keys
            &&& keys == order.map_values(|k: u32| key_up(k)).push(no_modifiers())
        };
    if held.keys.contains(key) {
        assert(k.contains(key));
        let i = choose|i: int| 0 <= i < k.len() && k[i] == key;
        assert(keys[i] == key_up(key));
    }
    if keys.contains(key_up(key)) {
        let i = choose|i: int| 0 <= i < keys.len() && keys[i] == key_up(key);
        assert(i < k.len());
        assert(keys[i] == key_up(k[i]));
        assert(k.contains(k[i]));
    }
}

/// What a session holds down are the buttons whose last passed transition was
/// a press: after any row of events a button is down exactly if it was down
/// and no transition of it passed since, or the last that passed pressed it.
pub proof fn held_buttons_follow_passed_events(
    sessions: Map<u64, Held>,
    events: Seq<Event>,
    handle: u64,
    button: u32,
)
    requires
        sessions.dom().contains(handle),
    ensures
        after_events(sessions, events, handle).dom().contains(handle),
        held_by(after_events(sessions, events, handle), handle).buttons.contains(button)
            == last_button_state(
            passed(sessions, events, handle),
            button,
            held_by(sessions, handle).buttons.contains(button),
        ),
    decreases events.len(),
{
    if events.len() > 0 {
        let before = events.drop_last();
        let e = events.last();
        held_buttons_follow_passed_events(sessions, before, handle, button);
        let mid = after_events(sessions, before, handle);
        let so_far = passed(sessions, before, handle);
        assert(so_far.push(e).drop_last() =~= so_far);
    }
}

/// Whether a button is down after the events, if it was `down` before.
pub open spec fn last_button_state(events: Seq<Event>, button: u32, down: bool) -> bool
    decreases events.len(),
{
    if events.len() == 0 {
        down
    } else {
        match events.last() {
            Event::Pointer(PointerEvent::Button { button: b, state, .. }) if b == button && state
                <= 1 => state == 1,
            _ => last_button_state(events.drop_last(), button, down),
        }
    }
}

/// A key event of a session passes exactly if it changes whether that key is
/// held there: a press if the key was up, and a release if it was down, whatever
/// other keys are held. What is held changes accordingly, and only for this key.
pub proof fn keys_pass_when_they_change(
    sessions: Map<u64, Held>,
    handle: u64,
    key: u32,
    state: u8,
    time: u32,
    other: u32,
)
    requires
        sessions.dom().contains(handle),
        other != key,
    ensures
        ({
            let event = Event::Keyboard(KeyboardEvent::Key { time, key, state });
            let after = after_event(sessions, event, handle);
            let was = sessions[handle].keys.contains(key);
            let held = after[handle].keys.contains(key);
            &&& held <==> state != 0
            &&& passes(sessions, event, handle) <==> was != held
            &&& after[handle].keys.contains(other) <==> sessions[handle].keys.contains(other)
            &&& after[handle].buttons == sessions[handle].buttons
            &&& after.dom() == sessions.dom()
        }),
{
    let after = after_event(
        sessions,
        Event::Keyboard(KeyboardEvent::Key { time, key, state }),
        handle,
    );
    assert(after.dom() =~= sessions.dom());
}

/// A button event of a session passes exactly if it changes whether that button
/// is held there, whatever else is held. A state that is neither up nor down
/// passes, and changes nothing.
pub proof fn buttons_pass_when_they_change(
    sessions: Map<u64, Held>,
    handle: u64,
    button: u32,
    state: u32,
    time: u32,
    other: u32,
)
    requires
        sessions.dom().contains(handle),
        other != button,
    ensures
        ({
            let event = Event::Pointer(PointerEvent::Button { time, button, state });
            let after = after_event(sessions, event, handle);
            let was = sessions[handle].buttons.contains(button);
            let held = after[handle].buttons.contains(button);
            &&& state <= 1 ==> (held <==> state == 1)
            &&& state <= 1 ==> (passes(sessions, event, handle) <==> was != held)
            &&& state > 1 ==> passes(sessions, event, handle) && after == sessions
            &&& after[handle].buttons.contains(other) <==> sessions[handle].buttons.contains(other)
            &&& after[handle].keys == sessions[handle].keys
            &&& after.dom() == sessions.dom()
        }),
{
    let after = after_event(
        sessions,
        Event::Pointer(PointerEvent::Button { time, button, state }),
        handle,
    );
    assert(after.dom() =~= sessions.dom());
}

/// Keys that are held together all reach the backend: while one is down, the
/// press of another passes if that one is up, and so do both releases, in
/// either order.
pub proof fn chords_pass(
    sessions: Map<u64, Held>,
    handle: u64,
    a: u32,
    b: u32,
    time: u32,
)
    requires
        sessions.dom().contains(handle),
        a != b,
        !sessions[handle].keys.contains(a),
        !sessions[handle].keys.contains(b),
    ensures
        ({
            let down = |key: u32| Event::Keyboard(KeyboardEvent::Key { time, key, state: 1 });
            let up = |key: u32| Event::Keyboard(KeyboardEvent::Key { time, key, state: 0 });
            let one = after_event(sessions, down(a), handle);
            let both = after_event(one, down(b), handle);
            &&& passes(sessions, down(a), handle)
            &&& passes(one, down(b), handle)
            &&& passes(both, up(a), handle)
            &&& passes(both, up(b), handle)
            &&& passes(after_event(both, up(a), handle), up(b), handle)
            &&& after_event(after_event(both, up(a), handle), up(b), handle) == sessions
        }),
{
    let down = |key: u32| Event::Keyboard(KeyboardEvent::Key { time, key, state: 1 });
    let up = |key: u32| Event::Keyboard(KeyboardEvent::Key { time, key, state: 0 });
    let one = after_event(sessions, down(a), handle);
    let both = after_event(one, down(b), handle);
    let end = after_event(after_event(both, up(a), handle), up(b), handle);
    assert(end[handle].keys =~= sessions[handle].keys);
    assert(end =~= sessions);
}

/// What has no state always passes, in every session and without one, and holds
/// nothing down: motion, scrolling, and reports of the modifiers.
pub proof fn stateless_events_always_pass(sessions: Map<u64, Held>, event: Event, handle: u64)
    requires
        !(event matches Event::Keyboard(KeyboardEvent::Key { .. })),
        !(event matches Event::Pointer(PointerEvent::Button { .. })),
    ensures
        passes(sessions, event, handle),
        after_event(sessions, event, handle) == sessions,
{
}

/// Without a session no key and no button passes, and nothing is held.
pub proof fn nothing_is_held_without_a_session(sessions: Map<u64, Held>, event: Event, handle: u64)
    requires
        !sessions.dom().contains(handle),
    ensures
        after_event(sessions, event, handle) == sessions,
        (event matches Event::Keyboard(KeyboardEvent::Key { .. })) ==> !passes(
            sessions,
            event,
            handle,
        ),
        (event matches Event::Pointer(PointerEvent::Button { .. })) ==> !passes(
            sessions,
            event,
            handle,
        ),
        held_by(sessions, handle).keys == Set::<u32>::empty(),
        held_by(sessions, handle).buttons == Set::<u32>::empty(),
{
}

/// What a session holds down are the keys whose last passed transition was a
/// press: after any row of events a key is down exactly if it was down and no
/// transition of it passed since, or the last that passed pressed it.
pub proof fn held_keys_follow_passed_events(
    sessions: Map<u64, Held>,
    events: Seq<Event>,
    handle: u64,
    key: u32,
)
    requires
        sessions.dom().contains(handle),
    ensures
        after_events(sessions, events, handle).dom().contains(handle),
        held_by(after_events(sessions, events, handle), handle).keys.contains(key)
            == last_key_state(
            passed(sessions, events, handle),
            key,
            held_by(sessions, handle).keys.contains(key),
        ),
    decreases events.len(),
{
    if events.len() > 0 {
        let before = events.drop_last();
        let e = events.last();
        held_keys_follow_passed_events(sessions, before, handle, key);
        let so_far = passed(sessions, before, handle);
        assert(so_far.push(e).drop_last() =~= so_far);
    }
}

/// Whether a key is down after the events, if it was `down` before.
pub open spec fn last_key_state(events: Seq<Event>, key: u32, down: bool) -> bool
    decreases events.len(),
{
    if events.len() == 0 {
        down
    } else {
        match events.last() {
            Event::Keyboard(KeyboardEvent::Key { key: k, state, .. }) if k == key => state != 0,
            _ => last_key_state(events.drop_last(), key, down),
        }
    }
}

/// The backend sees presses and releases of a key in turns: of all transitions
/// of one key that pass, no two in a row go the same way.
pub proof fn passed_transitions_alternate(
    sessions: Map<u64, Held>,
    events: Seq<Event>,
    handle: u64,
    key: u32,
    state: u8,
    time: u32,
)
    requires
        sessions.dom().contains(handle),
    ensures
        passes(
            after_events(sessions, events, handle),
            Event::Keyboard(KeyboardEvent::Key { time, key, state }),
            handle,
        ) <==> (state != 0) != last_key_state(
            passed(sessions, events, handle),
            key,
            held_by(sessions, handle).keys.contains(key),
        ),
{
    held_keys_follow_passed_events(sessions, events, handle, key);
}

/// A backend that was asked for by name is the only one that is tried: if it
/// fails, its error ends the selection. So does a user who cancels, whichever
/// backend was tried. A backend that works is taken at once.
pub proof fn selection_ends_early(asked: bool, count: nat, index: int, attempt: Attempt)
    requires
        0 <= index < count <= usize::MAX,
    ensures
        attempt is Created ==> selection_after(asked, count, index, attempt) == Selection::Use(
            index as usize,
        ),
        attempt is CancelledByUser ==> selection_after(asked, count, index, attempt)
            == Selection::Abort(index as usize),
        attempt is Failed && asked ==> selection_after(asked, count, index, attempt)
            == Selection::Abort(index as usize),
        attempt is Failed && !asked && index + 1 < count ==> selection_after(
            asked,
            count,
            index,
            attempt,
        ) == Selection::Try((index + 1) as usize),
        attempt is Failed && !asked && index + 1 == count ==> selection_after(
            asked,
            count,
            index,
            attempt,
        ) is NoAvailableBackend,
{
}

/// The candidates are the one backend that was asked for, or else all that are
/// available, in their order.
pub proof fn asking_narrows_the_candidates(
    asked: Option<Backend>,
    available: Seq<Backend>,
    b: Backend,
)
    ensures
        asked is None ==> candidates(asked, available) == available,
        asked is Some ==> (candidates(asked, available).contains(b) <==> asked == Some(b)),
        asked is Some ==> candidates(asked, available).len() == 1,
{
    if asked is Some {
        assert(candidates(asked, available)[0] == asked->0);
    }
}

/// What is sent when a session ends lets everything go and presses nothing: each
/// button event puts a held button up, each key event a held key, every held
/// button and key is among them, and at the end all modifiers are off.
pub proof fn teardown_lets_everything_go(
    buttons: Seq<Event>,
    keys: Seq<Event>,
    held: Held,
    i: int,
    code: u32,
)
    requires
        releases_buttons(buttons, held.buttons),
        releases_keys(keys, held.keys),
    ensures
        0 <= i < buttons.len() ==> (buttons[i] matches Event::Pointer(
            PointerEvent::Button { button, state, .. },
        ) && state == 0 && held.buttons.contains(button)),
        0 <= i < keys.len() - 1 ==> (keys[i] matches Event::Keyboard(
            KeyboardEvent::Key { key, state, .. },
        ) && state == 0 && held.keys.contains(key)),
        keys.len() > 0,
        keys.last() == Event::Keyboard(
            KeyboardEvent::Modifiers { depressed: 0, latched: 0, locked: 0, group: 0 },
        ),
        held.buttons.contains(code) ==> buttons.contains(
            Event::Pointer(PointerEvent::Button { time: 0, button: code, state: 0 }),
        ),
        held.keys.contains(code) ==> keys.contains(
            Event::Keyboard(KeyboardEvent::Key { time: 0, key: code, state: 0 }),
        ),
{
    teardown_releases_everything(buttons, keys, held, code, code);
    let b = choose|order: Seq<u32>|
        {
            &&& order.no_duplicates()
            &&& #[trigger] order.to_set() == held.buttons
            &&& buttons == order.map_values(|b: u32| button_up(b))
        };
    if 0 <= i < buttons.len() {
        assert(b.to_set().contains(b[i]));
    }
    let k = choose|order: Seq<u32>|
        {
            &&& order.no_duplicates()
            &&& #[trigger] order.to_set() == held.keys
            &&& keys == order.map_values(|k: u32| key_up(k)).push(no_modifiers())
        };
    if 0 <= i < keys.len() - 1 {
        assert(k.to_set().contains(k[i]));
    }
}

} // verus!
