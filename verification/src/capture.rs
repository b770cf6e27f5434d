//! Input capture: from what a backend captures to what a client is sent.
use crate::input::{Event, F32Bits, KeyboardEvent, PointerEvent};
use crate::ipc;
use crate::proto;
use crate::proto::ProtoEvent;
use vstd::prelude::*;

verus! {

/// The delay before capture is first restarted, in nanoseconds.
pub const CAPTURE_RETRY_INITIAL_DELAY: u64 = 1_000_000_000;

/// The longest delay before capture is restarted, in nanoseconds.
pub const CAPTURE_RETRY_MAX_DELAY: u64 = 30_000_000_000;

/// How long a client may take to become ready when the cursor crosses over, in
/// nanoseconds.
pub const READY_TIMEOUT: u64 = 1_200_000_000;

/// The time between two looks at whether a client is ready, in nanoseconds.
pub const READY_POLL: u64 = 25_000_000;

/// The handle of a capture.
pub type CaptureHandle = u64;

/// The side of the screen at which a capture lies.
#[derive(Clone, Copy, Debug, PartialEq, Eq, Structural)]
pub enum Position {
    Left,
    Right,
    Top,
    Bottom,
}

impl Position {
    /// The opposite side.
    pub open spec fn across(self) -> Position {
        match self {
            Position::Left => Position::Right,
            Position::Right => Position::Left,
            Position::Top => Position::Bottom,
            Position::Bottom => Position::Top,
        }
    }

    /// The opposite side.
    pub fn opposite(self) -> (r: Position)
        ensures
            r == self.across(),
    {
        match self {
            Position::Left => Position::Right,
            Position::Right => Position::Left,
            Position::Top => Position::Bottom,
            Position::Bottom => Position::Top,
        }
    }
}

/// What a backend reports.
#[derive(Clone, Copy, Debug, PartialEq, Eq)]
pub enum CaptureEvent {
    /// The cursor crossed into the capture, at this point if it is known.
    Begin { cursor: Option<(i32, i32)> },
    /// An input event was captured.
    Input(Event),
    /// The backend released the capture by itself.
    AutoRelease,
}

/// Why a backend on macOS cannot be created.
#[derive(Clone, Copy, Debug, PartialEq, Eq, Structural)]
pub enum MacosCaptureCreationError {
    AccessibilityPermission,
    InputMonitoringPermission,
    EventSourceCreation,
    EventTapCreation,
    Other,
}

/// Why no capture can be created.
#[derive(Clone, Copy, Debug, PartialEq, Eq, Structural)]
pub enum CaptureCreationError {
    NoAvailableBackend,
    MacOS(MacosCaptureCreationError),
    Other,
}

/// Why a capture ended.
#[derive(Clone, Copy, Debug, PartialEq, Eq, Structural)]
pub enum CaptureError {
    EventTapDisabled,
    ActivationFailed,
    EndOfStream,
    Other,
}

/// Why there is no capture.
#[derive(Clone, Copy, Debug, PartialEq, Eq, Structural)]
pub enum InputCaptureError {
    Create(CaptureCreationError),
    Capture(CaptureError),
}

/// Whether capture on macOS recovers by being started again: the event tap was
/// disabled, or could not be created. A missing permission is not recovered
/// from this way.
pub open spec fn is_recoverable(error: InputCaptureError) -> bool {
    ||| error == InputCaptureError::Capture(CaptureError::EventTapDisabled)
    ||| error == InputCaptureError::Create(
        CaptureCreationError::MacOS(MacosCaptureCreationError::EventTapCreation),
    )
}

/// Whether capture on macOS recovers by being started again.
pub fn should_auto_retry_capture(error: &InputCaptureError) -> (r: bool)
    ensures
        r == is_recoverable(*error),
{
    match error {
        InputCaptureError::Capture(CaptureError::EventTapDisabled) => true,
        InputCaptureError::Create(
            CaptureCreationError::MacOS(MacosCaptureCreationError::EventTapCreation),
        ) => true,
        _ => false,
    }
}

/// Whether an event may be lost while the client cannot emulate input: a
/// pointer event that changes no state there.
pub open spec fn is_droppable(event: CaptureEvent) -> bool {
    event matches CaptureEvent::Input(Event::Pointer(p)) && (p is Motion || p is Axis
        || p is AxisDiscrete120)
}

/// Whether an event may be lost while the client cannot emulate input.
pub fn can_drop_while_target_emulation_disabled(event: CaptureEvent) -> (r: bool)
    ensures
        r == is_droppable(event),
{
    match event {
        CaptureEvent::Input(Event::Pointer(p)) => match p {
            PointerEvent::Motion { .. } => true,
            PointerEvent::Axis { .. } => true,
            PointerEvent::AxisDiscrete120 { .. } => true,
            PointerEvent::Button { .. } => false,
        },
        _ => false,
    }
}

/// The side of a capture for a client's configured side.
pub open spec fn capture_pos(pos: ipc::Position) -> Position {
    match pos {
        ipc::Position::Left => Position::Left,
        ipc::Position::Right => Position::Right,
        ipc::Position::Top => Position::Top,
        ipc::Position::Bottom => Position::Bottom,
    }
}

/// The side of a capture for a client's configured side.
pub fn to_capture_pos(pos: ipc::Position) -> (r: Position)
    ensures
        r == capture_pos(pos),
{
    match pos {
        ipc::Position::Left => Position::Left,
        ipc::Position::Right => Position::Right,
        ipc::Position::Top => Position::Top,
        ipc::Position::Bottom => Position::Bottom,
    }
}

/// The side on the wire for the side of a capture.
pub open spec fn proto_pos(pos: Position) -> proto::Position {
    match pos {
        Position::Left => proto::Position::Left,
        Position::Right => proto::Position::Right,
        Position::Top => proto::Position::Top,
        Position::Bottom => proto::Position::Bottom,
    }
}

/// The side on the wire for the side of a capture.
pub fn to_proto_pos(pos: Position) -> (r: proto::Position)
    ensures
        r == proto_pos(pos),
{
    match pos {
        Position::Left => proto::Position::Left,
        Position::Right => proto::Position::Right,
        Position::Top => proto::Position::Top,
        Position::Bottom => proto::Position::Bottom,
    }
}

/// What a capture is for.
#[derive(Clone, Copy, Debug, PartialEq, Eq, Structural)]
pub enum CaptureType {
    /// The capture of a client.
    Default,
    /// A capture that only tells that the cursor entered it. It is released at
    /// once, if there is no capture of a client at the same side.
    EnterOnly,
}

/// A capture.
#[derive(Clone, Copy, Debug, PartialEq, Eq, Structural)]
pub struct CaptureEntry {
    pub handle: CaptureHandle,
    pub pos: Position,
    pub capture_type: CaptureType,
}

/// Whether the active client has acknowledged that the cursor is on it.
#[derive(Clone, Copy, Debug, PartialEq, Eq, Structural)]
pub enum State {
    WaitingForAck,
    Sending,
}

/// What is told of the capture.
#[derive(Clone, Copy, Debug, PartialEq, Eq, Structural)]
pub enum ICaptureEvent {
    /// The cursor crossed into a capture.
    CaptureBegin(CaptureHandle),
    /// Capture is disabled.
    CaptureDisabled,
    /// Capture is enabled.
    CaptureEnabled,
    /// A client acknowledged, and is ready for input.
    ClientEntered(u64),
    /// A client left, or takes over.
    ClientLeft(u64),
}

/// What is asked of the capture.
pub enum CaptureRequest {
    /// Release it, because the peer takes over.
    ReleaseForHandover,
    /// Add a capture.
    Create(CaptureHandle, Position, CaptureType),
    /// Remove a capture.
    Destroy(CaptureHandle),
    /// Enable capture again.
    Reenable,
    /// Set the keys that release the capture.
    SetReleaseBind(Vec<u32>),
    /// Set the number of pixels after which the backend releases it; 0 is
    /// never.
    SetReleaseThreshold(u32),
}

/// What is to be done for the capture.
#[derive(Clone, Copy, Debug, PartialEq, Eq)]
pub enum CaptureAction {
    /// Tell of the capture.
    Notify(ICaptureEvent),
    /// Send an event to a client.
    Send(CaptureHandle, ProtoEvent),
    /// Let the backend release the capture; with the warp of the host's cursor,
    /// or without.
    Release { host_warp: bool },
    /// Create a capture in the backend.
    CreateBarrier(CaptureHandle, Position),
    /// Destroy a capture in the backend.
    DestroyBarrier(CaptureHandle),
    /// Tell the backend the size of the peer's displays.
    SetPeerBounds(Position, u32, u32),
    /// Let the backend forget the size of the peer's displays.
    ClearPeerBounds(Position),
    /// Tell the backend the release threshold.
    SetReleaseThreshold(u32),
}

/// What the release of a key is to a client.
pub open spec fn key_up(key: u32) -> ProtoEvent {
    ProtoEvent::Input(Event::Keyboard(KeyboardEvent::Key { time: 0, key, state: 0 }))
}

/// What the release of all modifiers is to a client.
pub open spec fn mods_zero() -> ProtoEvent {
    ProtoEvent::Input(
        Event::Keyboard(
            KeyboardEvent::Modifiers { depressed: 0, latched: 0, locked: 0, group: 0 },
        ),
    )
}

/// What a client is sent when the cursor leaves it: the release of every held
/// key, the release of the modifiers, and that it is left.
pub open spec fn farewell(handle: CaptureHandle, held: Seq<u32>) -> Seq<CaptureAction> {
    held.map_values(|key: u32| CaptureAction::Send(handle, key_up(key))).push(
        CaptureAction::Send(handle, mods_zero()),
    ).push(CaptureAction::Send(handle, ProtoEvent::Leave(0)))
}

/// The first capture of a handle.
pub open spec fn capture_of(captures: Seq<CaptureEntry>, handle: CaptureHandle) -> Option<
    (Position, CaptureType),
>
    decreases captures.len(),
{
    if captures.len() == 0 {
        None
    } else if captures.first().handle == handle {
        Some((captures.first().pos, captures.first().capture_type))
    } else {
        capture_of(captures.drop_first(), handle)
    }
}

/// Whether there is the capture of a client at the side.
pub open spec fn default_at(captures: Seq<CaptureEntry>, pos: Position) -> bool {
    exists|i: int|
        0 <= i < captures.len() && (#[trigger] captures[i]).pos == pos && captures[i].capture_type
            == CaptureType::Default
}

/// How the handling of a captured event goes on.
#[derive(Clone, Copy, Debug, PartialEq, Eq)]
pub enum EventStep {
    /// It is done.
    Done,
    /// The capture is to be released, and its client taken leave of.
    Release,
    /// The backend alone is to release the capture.
    ReleaseBackend,
    /// It is to be found out whether the client is ready, and where the host's
    /// cursor is; then [`CaptureTask::begin`] goes on.
    AwaitReady(Position),
    /// An event is to be sent to the client; then [`CaptureTask::sent`] goes on.
    Send(ProtoEvent),
}

/// What came of sending an event.
#[derive(Clone, Copy, Debug, PartialEq, Eq, Structural)]
pub enum SendOutcome {
    Sent,
    /// The client cannot emulate input at the moment.
    TargetEmulationDisabled,
    /// The client is not connected, or the transport failed.
    Failed,
}

/// The mathematical content of a capture task.
#[verifier::ext_equal]
pub struct TaskState {
    pub active_client: Option<CaptureHandle>,
    pub captures: Seq<CaptureEntry>,
    pub release_bind: Seq<u32>,
    pub release_threshold_px: u32,
    pub state: State,
}

/// The captures, and the client that the cursor is on.
pub struct CaptureTask {
    pub active_client: Option<CaptureHandle>,
    pub captures: Vec<CaptureEntry>,
    pub release_bind: Vec<u32>,
    pub release_threshold_px: u32,
    pub state: State,
}

impl View for CaptureTask {
    type V = TaskState;

    open spec fn view(&self) -> TaskState {
        TaskState {
            active_client: self.active_client,
            captures: self.captures@,
            release_bind: self.release_bind@,
            release_threshold_px: self.release_threshold_px,
            state: self.state,
        }
    }
}

/// How a captured event of `handle` is handled at first. `bind_pressed` tells
/// whether the keys that release the capture are down. Besides the step it
/// says whether it is to be told that the cursor crossed into the capture.
pub open spec fn event_step(
    s: TaskState,
    handle: CaptureHandle,
    event: CaptureEvent,
    bind_pressed: bool,
) -> (bool, EventStep) {
    match capture_of(s.captures, handle) {
        None => (false, EventStep::Done),
        Some((pos, capture_type)) => if bind_pressed || event is AutoRelease {
            (false, EventStep::Release)
        } else {
            (
                event is Begin,
                match capture_type {
                    CaptureType::EnterOnly => if default_at(s.captures, pos) {
                        EventStep::Done
                    } else {
                        EventStep::ReleaseBackend
                    },
                    CaptureType::Default => match event {
                        CaptureEvent::Input(e) => match s.state {
                            State::WaitingForAck => EventStep::Send(
                                ProtoEvent::Enter(proto_pos(pos.across())),
                            ),
                            State::Sending => EventStep::Send(ProtoEvent::Input(e)),
                        },
                        _ => EventStep::AwaitReady(pos),
                    },
                },
            )
        },
    }
}

/// The task after the cursor entered the client that is ready.
pub open spec fn entered(s: TaskState, handle: CaptureHandle) -> TaskState {
    if s.active_client == Some(handle) {
        s
    } else {
        TaskState { active_client: Some(handle), state: State::WaitingForAck, ..s }
    }
}

/// How an event of a peer is handled.
#[derive(Clone, Copy, Debug, PartialEq, Eq, Structural)]
pub enum PeerStep {
    /// It is of no interest.
    Ignored,
    /// The client is ready for input, which is to be told.
    Entered,
    /// An acknowledgement that nobody waits for.
    Acknowledged,
    /// The capture is to be released for a handover, and then it is to be told
    /// that the client left.
    Left,
    /// The backend is to be told the size of the peer's displays.
    Bounds(Position, u32, u32),
}

/// How an event of the peer `handle` is handled. Only the active client counts,
/// while there is one, and only peers with a capture.
pub open spec fn peer_step(s: TaskState, handle: CaptureHandle, event: ProtoEvent) -> PeerStep {
    if s.active_client matches Some(active) && active != handle {
        PeerStep::Ignored
    } else {
        match capture_of(s.captures, handle) {
            None => PeerStep::Ignored,
            Some((pos, _)) => match event {
                ProtoEvent::Ack(_) => if s.state is WaitingForAck && s.active_client == Some(
                    handle,
                ) {
                    PeerStep::Entered
                } else {
                    PeerStep::Acknowledged
                },
                ProtoEvent::Leave(_) => PeerStep::Left,
                ProtoEvent::Bounds { width, height } => PeerStep::Bounds(pos, width, height),
                _ => PeerStep::Ignored,
            },
        }
    }
}

/// How a request is handled.
#[derive(Clone, Copy, Debug, PartialEq, Eq, Structural)]
pub enum RequestStep {
    /// There is nothing to do.
    Nothing,
    /// Capture is to be started again.
    Restart,
    /// The capture is to be released for a handover.
    ReleaseForHandover,
    /// A capture is to be created in the backend.
    CreateBarrier(CaptureHandle, Position),
    /// A capture is to be destroyed in the backend, and what is known of the
    /// displays of the peer at its side forgotten.
    DestroyBarrier(CaptureHandle, Position),
    /// The backend is to be told the release threshold.
    SetReleaseThreshold(u32),
}

/// The task after a request.
pub open spec fn after_request(s: TaskState, request: CaptureRequest) -> TaskState {
    match request {
        CaptureRequest::Create(handle, pos, capture_type) => TaskState {
            captures: s.captures.push(CaptureEntry { handle, pos, capture_type }),
            ..s
        },
        CaptureRequest::Destroy(handle) => TaskState {
            captures: s.captures.filter(|c: CaptureEntry| c.handle != handle),
            ..s
        },
        CaptureRequest::SetReleaseBind(bind) => TaskState { release_bind: bind@, ..s },
        CaptureRequest::SetReleaseThreshold(px) => TaskState { release_threshold_px: px, ..s },
        CaptureRequest::ReleaseForHandover | CaptureRequest::Reenable => s,
    }
}

/// How a request is handled while capture runs.
pub open spec fn request_step(s: TaskState, request: CaptureRequest) -> RequestStep {
    match request {
        CaptureRequest::Create(handle, pos, _) => RequestStep::CreateBarrier(handle, pos),
        CaptureRequest::Destroy(handle) => match capture_of(s.captures, handle) {
            Some((pos, _)) => RequestStep::DestroyBarrier(handle, pos),
            None => RequestStep::Nothing,
        },
        CaptureRequest::ReleaseForHandover => RequestStep::ReleaseForHandover,
        CaptureRequest::SetReleaseThreshold(px) => RequestStep::SetReleaseThreshold(px),
        CaptureRequest::SetReleaseBind(_) | CaptureRequest::Reenable => RequestStep::Nothing,
    }
}

impl CaptureTask {
    /// A task without captures.
    pub fn new(release_bind: Vec<u32>, release_threshold_px: u32) -> (t: CaptureTask)
        ensures
            t@ == (TaskState {
                active_client: None,
                captures: seq![],
                release_bind: release_bind@,
                release_threshold_px,
                state: State::WaitingForAck,
            }),
    {
        CaptureTask {
            active_client: None,
            captures: Vec::new(),
            release_bind,
            release_threshold_px,
            state: State::WaitingForAck,
        }
    }

    /// Adds a capture.
    pub fn add_capture(&mut self, handle: CaptureHandle, pos: Position, capture_type: CaptureType)
        ensures
            final(self)@ == (TaskState {
                captures: old(self)@.captures.push(CaptureEntry { handle, pos, capture_type }),
                ..old(self)@
            }),
    {
        self.captures.push(CaptureEntry { handle, pos, capture_type });
    }

    /// Removes the captures of a handle.
    pub fn remove_capture(&mut self, handle: CaptureHandle)
        ensures
            final(self)@ == (TaskState {
                captures: old(self)@.captures.filter(|c: CaptureEntry| c.handle != handle),
                ..old(self)@
            }),
    {
        let ghost pred = |c: CaptureEntry| c.handle != handle;
        let ghost all = self.captures@;
        let mut kept: Vec<CaptureEntry> = Vec::new();
        let mut i: usize = 0;
        proof {
            reveal(Seq::filter);
            assert(all.take(0).filter(pred) =~= Seq::<CaptureEntry>::empty());
        }
        while i < self.captures.len()
            invariant
                i <= all.len(),
                all == self.captures@,
                pred == (|c: CaptureEntry| c.handle != handle),
                kept@ == all.take(i as int).filter(pred),
            decreases all.len() - i,
        {
            let c = self.captures[i];
            if c.handle != handle {
                kept.push(c);
            }
            proof {
                reveal(Seq::filter);
                assert(all.take(i + 1).drop_last() =~= all.take(i as int));
                assert(all.take(i + 1).last() == c);
            }
            i = i + 1;
        }
        assert(all.take(all.len() as int) =~= all);
        self.captures = kept;
    }

    /// Whether there is the capture of a client at the side.
    pub fn is_default_capture_at(&self, pos: Position) -> (r: bool)
        ensures
            r == default_at(self@.captures, pos),
    {
        let mut i: usize = 0;
        while i < self.captures.len()
            invariant
                i <= self.captures@.len(),
                forall|j: int|
                    0 <= j < i ==> !((#[trigger] self.captures@[j]).pos == pos
                        && self.captures@[j].capture_type == CaptureType::Default),
            decreases self.captures@.len() - i,
        {
            if self.captures[i].pos == pos && self.captures[i].capture_type == CaptureType::Default {
                return true;
            }
            i = i + 1;
        }
        false
    }

    /// The side and the type of a capture.
    pub fn get_capture(&self, handle: CaptureHandle) -> (r: Option<(Position, CaptureType)>)
        ensures
            r == capture_of(self@.captures, handle),
    {
        let mut i: usize = 0;
        assert(self.captures@.skip(0) =~= self.captures@);
        while i < self.captures.len()
            invariant
                i <= self.captures@.len(),
                capture_of(self.captures@, handle) == capture_of(
                    self.captures@.skip(i as int),
                    handle,
                ),
            decreases self.captures@.len() - i,
        {
            let c = self.captures[i];
            assert(self.captures@.skip(i as int).first() == c);
            if c.handle == handle {
                return Some((c.pos, c.capture_type));
            }
            assert(self.captures@.skip(i as int).drop_first() =~= self.captures@.skip(i + 1));
            i = i + 1;
        }
        None
    }

    /// Whether there is a capture of the handle.
    pub fn has_capture(&self, handle: CaptureHandle) -> (r: bool)
        ensures
            r == (capture_of(self@.captures, handle) is Some),
    {
        self.get_capture(handle).is_some()
    }

    /// Handles a captured event at first. Adds to `actions` what is to be done
    /// at once.
    pub fn handle_capture_event(
        &self,
        handle: CaptureHandle,
        event: CaptureEvent,
        bind_pressed: bool,
        actions: &mut Vec<CaptureAction>,
    ) -> (step: EventStep)
        ensures
            step == event_step(self@, handle, event, bind_pressed).1,
            final(actions)@ == if event_step(self@, handle, event, bind_pressed).0 {
                old(actions)@.push(CaptureAction::Notify(ICaptureEvent::CaptureBegin(handle)))
            } else {
                old(actions)@
            },
    {
        let (pos, capture_type) = match self.get_capture(handle) {
            Some(c) => c,
            None => return EventStep::Done,
        };
        if bind_pressed {
            return EventStep::Release;
        }
        match event {
            CaptureEvent::AutoRelease => return EventStep::Release,
            CaptureEvent::Begin { .. } => {
                actions.push(CaptureAction::Notify(ICaptureEvent::CaptureBegin(handle)));
            },
            CaptureEvent::Input(_) => {},
        }
        if capture_type == CaptureType::EnterOnly {
            if !self.is_default_capture_at(pos) {
                return EventStep::ReleaseBackend;
            }
            return EventStep::Done;
        }
        match event {
            CaptureEvent::Input(e) => match self.state {
                State::WaitingForAck => EventStep::Send(
                    ProtoEvent::Enter(to_proto_pos(pos.opposite())),
                ),
                State::Sending => EventStep::Send(ProtoEvent::Input(e)),
            },
            _ => EventStep::AwaitReady(pos),
        }
    }

    /// The cursor crossed into the capture of a client at `pos`. If the client
    /// is ready, it becomes the active one, and is sent that the cursor enters
    /// at its side of the common edge. Otherwise the backend is to release the
    /// capture.
    pub fn begin(&mut self, handle: CaptureHandle, pos: Position, ready: bool) -> (step: EventStep)
        ensures
            final(self)@ == if ready {
                entered(old(self)@, handle)
            } else {
                old(self)@
            },
            step == if ready {
                EventStep::Send(ProtoEvent::Enter(proto_pos(pos.across())))
            } else {
                EventStep::ReleaseBackend
            },
    {
        if !ready {
            return EventStep::ReleaseBackend;
        }
        if self.active_client != Some(handle) {
            self.state = State::WaitingForAck;
            self.active_client = Some(handle);
        }
        EventStep::Send(ProtoEvent::Enter(to_proto_pos(pos.opposite())))
    }

    /// An event that stands for `event` was sent, or could not be. A stateless
    /// pointer event may be lost on a client that cannot emulate input. Any
    /// other failure releases the capture. `cursor` is the host's cursor,
    /// normalised to its displays, as far as the cursor crossed over: it is
    /// sent right behind the entering.
    pub fn sent(
        &self,
        event: CaptureEvent,
        pos: Position,
        outcome: SendOutcome,
        cursor: Option<(F32Bits, F32Bits)>,
    ) -> (step: EventStep)
        ensures
            step == match outcome {
                SendOutcome::Sent => match (event, cursor) {
                    (CaptureEvent::Begin { cursor: Some(_) }, Some((nx, ny))) => EventStep::Send(
                        ProtoEvent::CursorPos { pos: proto_pos(pos.across()), nx, ny },
                    ),
                    _ => EventStep::Done,
                },
                SendOutcome::TargetEmulationDisabled => if is_droppable(event) {
                    EventStep::Done
                } else {
                    EventStep::Release
                },
                SendOutcome::Failed => EventStep::Release,
            },
    {
        match outcome {
            SendOutcome::Sent => {},
            SendOutcome::TargetEmulationDisabled => {
                if can_drop_while_target_emulation_disabled(event) {
                    return EventStep::Done;
                }
                return EventStep::Release;
            },
            SendOutcome::Failed => return EventStep::Release,
        }
        match (event, cursor) {
            (CaptureEvent::Begin { cursor: Some(_) }, Some((nx, ny))) => EventStep::Send(
                ProtoEvent::CursorPos { pos: to_proto_pos(pos.opposite()), nx, ny },
            ),
            _ => EventStep::Done,
        }
    }

    /// Takes leave of the active client, where there is one: it is no longer
    /// active, and is sent the release of the held keys and of the modifiers,
    /// and that the cursor leaves it.
    pub fn notify_peer_of_leave(&mut self, held: &Vec<u32>) -> (actions: Vec<CaptureAction>)
        ensures
            final(self)@ == (TaskState { active_client: None, ..old(self)@ }),
            actions@ == match old(self)@.active_client {
                Some(handle) => farewell(handle, held@),
                None => seq![],
            },
    {
        let mut actions: Vec<CaptureAction> = Vec::new();
        if let Some(handle) = self.active_client.take() {
            let ghost ups = |key: u32| CaptureAction::Send(handle, key_up(key));
            let mut i: usize = 0;
            while i < held.len()
                invariant
                    i <= held@.len(),
                    ups == (|key: u32| CaptureAction::Send(handle, key_up(key))),
                    actions@ == held@.take(i as int).map_values(ups),
                decreases held@.len() - i,
            {
                let key_up = ProtoEvent::Input(
                    Event::Keyboard(KeyboardEvent::Key { time: 0, key: held[i], state: 0 }),
                );
                actions.push(CaptureAction::Send(handle, key_up));
                i = i + 1;
                assert(held@.take(i as int).map_values(ups) =~= held@.take(i - 1).map_values(
                    ups,
                ).push(ups(held@[i - 1])));
            }
            assert(held@.take(held@.len() as int) =~= held@);
            let mods_zero = ProtoEvent::Input(
                Event::Keyboard(
                    KeyboardEvent::Modifiers { depressed: 0, latched: 0, locked: 0, group: 0 },
                ),
            );
            actions.push(CaptureAction::Send(handle, mods_zero));
            actions.push(CaptureAction::Send(handle, ProtoEvent::Leave(0)));
        }
        actions
    }

    /// Takes leave of the active client, and lets the backend release the
    /// capture.
    pub fn release_capture(&mut self, held: &Vec<u32>) -> (actions: Vec<CaptureAction>)
        ensures
            final(self)@ == (TaskState { active_client: None, ..old(self)@ }),
            actions@ == match old(self)@.active_client {
                Some(handle) => farewell(handle, held@),
                None => seq![],
            }.push(CaptureAction::Release { host_warp: true }),
    {
        let mut actions = self.notify_peer_of_leave(held);
        actions.push(CaptureAction::Release { host_warp: true });
        actions
    }

    /// Takes leave of the active client, and lets the backend release the
    /// capture without warping the host's cursor: the peer that takes over
    /// places it.
    pub fn release_capture_handover(&mut self, held: &Vec<u32>) -> (actions: Vec<CaptureAction>)
        ensures
            final(self)@ == (TaskState { active_client: None, ..old(self)@ }),
            actions@ == match old(self)@.active_client {
                Some(handle) => farewell(handle, held@),
                None => seq![],
            }.push(CaptureAction::Release { host_warp: false }),
    {
        let mut actions = self.notify_peer_of_leave(held);
        actions.push(CaptureAction::Release { host_warp: false });
        actions
    }

    /// Handles an event of a peer. An acknowledgement starts the sending of
    /// input.
    pub fn handle_peer_event(&mut self, handle: CaptureHandle, event: ProtoEvent) -> (step: PeerStep)
        ensures
            step == peer_step(old(self)@, handle, event),
            final(self)@ == if step is Entered || step is Acknowledged {
                TaskState { state: State::Sending, ..old(self)@ }
            } else {
                old(self)@
            },
    {
        if let Some(active) = self.active_client {
            if active != handle {
                return PeerStep::Ignored;
            }
        }
        let (pos, _) = match self.get_capture(handle) {
            Some(c) => c,
            None => return PeerStep::Ignored,
        };
        match event {
            ProtoEvent::Ack(_) => {
                let waited = self.state == State::WaitingForAck && self.active_client == Some(
                    handle,
                );
                self.state = State::Sending;
                if waited {
                    PeerStep::Entered
                } else {
                    PeerStep::Acknowledged
                }
            },
            ProtoEvent::Leave(_) => PeerStep::Left,
            ProtoEvent::Bounds { width, height } => PeerStep::Bounds(pos, width, height),
            _ => PeerStep::Ignored,
        }
    }

    /// Handles a request while capture runs.
    pub fn handle_request(&mut self, request: CaptureRequest) -> (step: RequestStep)
        ensures
            step == request_step(old(self)@, request),
            final(self)@ == if request is Destroy && step is Nothing {
                old(self)@
            } else {
                after_request(old(self)@, request)
            },
    {
        match request {
            CaptureRequest::Reenable => RequestStep::Nothing,
            CaptureRequest::ReleaseForHandover => RequestStep::ReleaseForHandover,
            CaptureRequest::Create(h, p, t) => {
                self.add_capture(h, p, t);
                RequestStep::CreateBarrier(h, p)
            },
            CaptureRequest::Destroy(h) => match self.get_capture(h) {
                Some((pos, _)) => {
                    self.remove_capture(h);
                    RequestStep::DestroyBarrier(h, pos)
                },
                None => RequestStep::Nothing,
            },
            CaptureRequest::SetReleaseBind(bind) => {
                self.release_bind = bind;
                RequestStep::Nothing
            },
            CaptureRequest::SetReleaseThreshold(px) => {
                self.release_threshold_px = px;
                RequestStep::SetReleaseThreshold(px)
            },
        }
    }

    /// Handles a request while capture does not run. Being enabled again
    /// starts it, and all else is noted.
    pub fn handle_idle_request(&mut self, request: CaptureRequest) -> (step: RequestStep)
        ensures
            step == if request is Reenable {
                RequestStep::Restart
            } else {
                RequestStep::Nothing
            },
            final(self)@ == after_request(old(self)@, request),
    {
        match request {
            CaptureRequest::Reenable => return RequestStep::Restart,
            CaptureRequest::Create(h, p, t) => self.add_capture(h, p, t),
            CaptureRequest::Destroy(h) => self.remove_capture(h),
            CaptureRequest::ReleaseForHandover => {},
            CaptureRequest::SetReleaseBind(bind) => {
                self.release_bind = bind;
            },
            CaptureRequest::SetReleaseThreshold(px) => {
                self.release_threshold_px = px;
            },
        }
        RequestStep::Nothing
    }
}

/// What happens while capture runs.
pub enum SessionEvent {
    /// The backend captured an event.
    Captured(CaptureHandle, CaptureEvent),
    /// The backend failed.
    Failed(InputCaptureError),
    /// The backend has no more events.
    Ended,
    /// A peer sent an event.
    Peer(CaptureHandle, ProtoEvent),
    /// Something is asked of the capture.
    Request(CaptureRequest),
    /// The session is cancelled.
    Cancelled,
}

/// How a session goes on.
#[derive(Clone, Copy, Debug, PartialEq, Eq)]
pub enum SessionStep {
    /// With a captured event.
    Event(EventStep),
    /// With an event of a peer.
    Peer(CaptureHandle, PeerStep),
    /// With a request.
    Request(RequestStep),
    /// It is over, with an error.
    Fail(InputCaptureError),
    /// It is over.
    End,
}

/// How a session goes on, and whether it is to be told that the cursor crossed
/// into a capture.
pub open spec fn session_step(s: TaskState, event: SessionEvent, bind_pressed: bool) -> (
    bool,
    SessionStep,
) {
    match event {
        SessionEvent::Captured(handle, e) => (
            event_step(s, handle, e, bind_pressed).0,
            SessionStep::Event(event_step(s, handle, e, bind_pressed).1),
        ),
        SessionEvent::Failed(e) => (false, SessionStep::Fail(e)),
        SessionEvent::Ended | SessionEvent::Cancelled => (false, SessionStep::End),
        SessionEvent::Peer(handle, e) => (
            false,
            SessionStep::Peer(handle, peer_step(s, handle, e)),
        ),
        SessionEvent::Request(r) => (false, SessionStep::Request(request_step(s, r))),
    }
}

/// The task once it is known how a session goes on.
pub open spec fn session_state(s: TaskState, event: SessionEvent) -> TaskState {
    match event {
        SessionEvent::Peer(handle, e) => {
            let step = peer_step(s, handle, e);
            if step is Entered || step is Acknowledged {
                TaskState { state: State::Sending, ..s }
            } else {
                s
            }
        },
        SessionEvent::Request(r) => if r is Destroy && request_step(s, r) is Nothing {
            s
        } else {
            after_request(s, r)
        },
        _ => s,
    }
}

/// Whether the active client is taken leave of.
pub open spec fn takes_leave(step: SessionStep) -> bool {
    ||| step == SessionStep::Event(EventStep::Release)
    ||| step matches SessionStep::Peer(_, PeerStep::Left)
    ||| step == SessionStep::Request(RequestStep::ReleaseForHandover)
    ||| step is Fail
}

/// What is to be done for the step, once the active client has been taken leave
/// of, where that is due.
pub open spec fn session_actions(step: SessionStep) -> Seq<CaptureAction> {
    match step {
        SessionStep::Event(EventStep::Release) => seq![CaptureAction::Release { host_warp: true }],
        SessionStep::Event(EventStep::ReleaseBackend) => seq![
            CaptureAction::Release { host_warp: true },
        ],
        SessionStep::Event(_) => seq![],
        SessionStep::Peer(handle, PeerStep::Entered) => seq![
            CaptureAction::Notify(ICaptureEvent::ClientEntered(handle)),
        ],
        SessionStep::Peer(handle, PeerStep::Left) => seq![
            CaptureAction::Release { host_warp: false },
            CaptureAction::Notify(ICaptureEvent::ClientLeft(handle)),
        ],
        SessionStep::Peer(_, PeerStep::Bounds(pos, width, height)) => seq![
            CaptureAction::SetPeerBounds(pos, width, height),
        ],
        SessionStep::Peer(_, _) => seq![],
        SessionStep::Request(RequestStep::ReleaseForHandover) => seq![
            CaptureAction::Release { host_warp: false },
        ],
        SessionStep::Request(RequestStep::CreateBarrier(handle, pos)) => seq![
            CaptureAction::CreateBarrier(handle, pos),
        ],
        SessionStep::Request(RequestStep::DestroyBarrier(handle, pos)) => seq![
            CaptureAction::DestroyBarrier(handle),
            CaptureAction::ClearPeerBounds(pos),
        ],
        SessionStep::Request(RequestStep::SetReleaseThreshold(px)) => seq![
            CaptureAction::SetReleaseThreshold(px),
        ],
        SessionStep::Request(_) => seq![],
        SessionStep::Fail(_) | SessionStep::End => seq![],
    }
}

impl CaptureTask {
    /// Handles what happens while capture runs. `bind_pressed` tells whether
    /// the keys that release the capture are down. What is to be done for the
    /// step, [`CaptureTask::conclude`] says.
    pub fn do_capture_session(
        &mut self,
        event: SessionEvent,
        bind_pressed: bool,
        actions: &mut Vec<CaptureAction>,
    ) -> (step: SessionStep)
        ensures
            step == session_step(old(self)@, event, bind_pressed).1,
            final(self)@ == session_state(old(self)@, event),
            final(actions)@ == match event {
                SessionEvent::Captured(handle, _) if session_step(
                    old(self)@,
                    event,
                    bind_pressed,
                ).0 => old(actions)@.push(
                    CaptureAction::Notify(ICaptureEvent::CaptureBegin(handle)),
                ),
                _ => old(actions)@,
            },
    {
        match event {
            SessionEvent::Captured(handle, e) => SessionStep::Event(
                self.handle_capture_event(handle, e, bind_pressed, actions),
            ),
            SessionEvent::Failed(e) => SessionStep::Fail(e),
            SessionEvent::Ended | SessionEvent::Cancelled => SessionStep::End,
            SessionEvent::Peer(handle, e) => SessionStep::Peer(
                handle,
                self.handle_peer_event(handle, e),
            ),
            SessionEvent::Request(r) => SessionStep::Request(self.handle_request(r)),
        }
    }

    /// Whether an active client is taken leave of, for which the keys that are
    /// held have to be known.
    pub fn needs_held_keys(&self, step: SessionStep) -> (r: bool)
        ensures
            r == (takes_leave(step) && self@.active_client is Some),
    {
        self.active_client.is_some() && match step {
            SessionStep::Event(EventStep::Release) => true,
            SessionStep::Peer(_, PeerStep::Left) => true,
            SessionStep::Request(RequestStep::ReleaseForHandover) => true,
            SessionStep::Fail(_) => true,
            _ => false,
        }
    }

    /// What is to be done for a step, in this order. `held` are the keys that
    /// are held, where the active client is taken leave of. The first action
    /// that the backend refuses ends the session; what cannot be sent is lost.
    pub fn conclude(&mut self, step: SessionStep, held: &Vec<u32>) -> (actions: Vec<CaptureAction>)
        ensures
            final(self)@ == if takes_leave(step) {
                TaskState { active_client: None, ..old(self)@ }
            } else {
                old(self)@
            },
            actions@ == match old(self)@.active_client {
                Some(handle) if takes_leave(step) => farewell(handle, held@),
                _ => seq![],
            } + session_actions(step),
    {
        let mut actions = if self.needs_held_keys(step) {
            self.notify_peer_of_leave(held)
        } else {
            Vec::new()
        };
        let ghost before = actions@;
        match step {
            SessionStep::Event(EventStep::Release)
            | SessionStep::Event(EventStep::ReleaseBackend) => {
                actions.push(CaptureAction::Release { host_warp: true });
            },
            SessionStep::Peer(handle, PeerStep::Entered) => {
                actions.push(CaptureAction::Notify(ICaptureEvent::ClientEntered(handle)));
            },
            SessionStep::Peer(handle, PeerStep::Left) => {
                actions.push(CaptureAction::Release { host_warp: false });
                actions.push(CaptureAction::Notify(ICaptureEvent::ClientLeft(handle)));
            },
            SessionStep::Peer(_, PeerStep::Bounds(pos, width, height)) => {
                actions.push(CaptureAction::SetPeerBounds(pos, width, height));
            },
            SessionStep::Request(RequestStep::ReleaseForHandover) => {
                actions.push(CaptureAction::Release { host_warp: false });
            },
            SessionStep::Request(RequestStep::CreateBarrier(handle, pos)) => {
                actions.push(CaptureAction::CreateBarrier(handle, pos));
            },
            SessionStep::Request(RequestStep::DestroyBarrier(handle, pos)) => {
                actions.push(CaptureAction::DestroyBarrier(handle));
                actions.push(CaptureAction::ClearPeerBounds(pos));
            },
            SessionStep::Request(RequestStep::SetReleaseThreshold(px)) => {
                actions.push(CaptureAction::SetReleaseThreshold(px));
            },
            _ => {},
        }
        assert(actions@ =~= before + session_actions(step));
        actions
    }
}

/// How the capture goes on after it ended.
#[derive(Clone, Copy, Debug, PartialEq, Eq, Structural)]
pub struct Pause {
    /// After how many nanoseconds it is started again by itself; never, if it
    /// waits to be enabled.
    pub retry_after: Option<u64>,
    /// The delay for the next time.
    pub next_delay: u64,
}

/// The pause after capture ended, with the error if there was one, where the
/// next delay is `delay`. On macOS a recoverable error starts it again after
/// the delay, which then doubles up to its maximum. In all other cases it
/// waits to be enabled, and the delay starts over.
pub open spec fn pause_after(error: Option<InputCaptureError>, on_macos: bool, delay: int) -> (
    Option<int>,
    int,
) {
    if on_macos && (error matches Some(e) && is_recoverable(e)) {
        (
            Some(delay),
            if delay * 2 <= CAPTURE_RETRY_MAX_DELAY {
                delay * 2
            } else {
                CAPTURE_RETRY_MAX_DELAY as int
            },
        )
    } else {
        (None, CAPTURE_RETRY_INITIAL_DELAY as int)
    }
}

/// The pause after capture ended.
pub fn pause(error: &Option<InputCaptureError>, on_macos: bool, delay: u64) -> (p: Pause)
    ensures
        p.next_delay == pause_after(*error, on_macos, delay as int).1,
        match p.retry_after {
            Some(d) => pause_after(*error, on_macos, delay as int).0 == Some(d as int),
            None => pause_after(*error, on_macos, delay as int).0 is None,
        },
{
    if on_macos {
        if let Some(e) = error {
            if should_auto_retry_capture(e) {
                let next_delay: u64 = if delay <= CAPTURE_RETRY_MAX_DELAY / 2 {
                    delay * 2
                } else {
                    CAPTURE_RETRY_MAX_DELAY
                };
                return Pause { retry_after: Some(delay), next_delay };
            }
        }
    }
    Pause { retry_after: None, next_delay: CAPTURE_RETRY_INITIAL_DELAY }
}

/// Whether to wait on for a client to become ready, at a look after a poll
/// interval: the answer, once it is known. `at_deadline` is what a last look
/// finds, which is only taken when the time is over.
pub fn after_ready_poll(cancelled: bool, ready: bool, now: u64, deadline: u64, at_deadline: bool)
    -> (answer: Option<bool>)
    ensures
        answer == if cancelled {
            Some(false)
        } else if ready {
            Some(true)
        } else if now >= deadline {
            Some(at_deadline)
        } else {
            None
        },
{
    if cancelled {
        Some(false)
    } else if ready {
        Some(true)
    } else if now >= deadline {
        Some(at_deadline)
    } else {
        None
    }
}

/// Input reaches a client only after it acknowledged: while it is waited for,
/// an input event is sent as another request to enter.
pub proof fn no_input_before_acknowledgement(
    s: TaskState,
    handle: CaptureHandle,
    event: CaptureEvent,
    bind_pressed: bool,
)
    requires
        s.state is WaitingForAck,
    ensures
        !(event_step(s, handle, event, bind_pressed).1 matches EventStep::Send(
            ProtoEvent::Input(_),
        )),
        event is Input && !bind_pressed && (capture_of(s.captures, handle) matches Some((_, t))
            && t is Default) ==> (event_step(s, handle, event, bind_pressed).1 matches EventStep::Send(
            ProtoEvent::Enter(_),
        )),
{
}

/// A client that the cursor newly enters is waited for, and only its own
/// acknowledgement ends that: what other peers send changes nothing.
pub proof fn only_the_active_client_acknowledges(
    s: TaskState,
    handle: CaptureHandle,
    other: CaptureHandle,
    event: ProtoEvent,
)
    requires
        s.active_client != Some(handle),
        other != handle,
    ensures
        entered(s, handle).state is WaitingForAck,
        entered(s, handle).active_client == Some(handle),
        peer_step(entered(s, handle), other, event) is Ignored,
        peer_step(entered(s, handle), handle, event) is Entered ==> event is Ack,
{
}

/// It is told that a client is ready only once for each time that the cursor
/// enters it: after its acknowledgement another one tells nothing.
pub proof fn entering_is_told_once(s: TaskState, handle: CaptureHandle, event: ProtoEvent)
    requires
        peer_step(s, handle, event) is Entered,
    ensures
        s.active_client == Some(handle),
        forall|again: ProtoEvent|
            !(#[trigger] peer_step(
                TaskState { state: State::Sending, ..s },
                handle,
                again,
            ) is Entered),
{
}

/// Leaving a client leaves no key held on it: the release of every held key is
/// sent, then that of the modifiers, and the leave comes last.
pub proof fn farewell_releases_held_keys(handle: CaptureHandle, held: Seq<u32>, key: u32)
    requires
        held.contains(key),
    ensures
        farewell(handle, held).contains(CaptureAction::Send(handle, key_up(key))),
        farewell(handle, held)[held.len() as int] == CaptureAction::Send(handle, mods_zero()),
        farewell(handle, held).last() == CaptureAction::Send(handle, ProtoEvent::Leave(0)),
        farewell(handle, held).len() == held.len() + 2,
{
    let i = choose|i: int| 0 <= i < held.len() && held[i] == key;
    assert(farewell(handle, held)[i] == CaptureAction::Send(handle, key_up(key)));
}

/// After a leave the cursor has to enter again: the next crossing into any
/// client, even the same one, waits for a new acknowledgement.
pub proof fn crossing_after_leave_waits_again(s: TaskState, handle: CaptureHandle)
    ensures
        entered(TaskState { active_client: None, ..s }, handle).state is WaitingForAck,
{
}

/// A removed capture is gone: no event of its handle is handled any more.
pub proof fn removed_captures_are_ignored(
    s: TaskState,
    handle: CaptureHandle,
    event: CaptureEvent,
    bind_pressed: bool,
    sent: ProtoEvent,
)
    ensures
        ({
            let after = after_request(s, CaptureRequest::Destroy(handle));
            &&& event_step(after, handle, event, bind_pressed) == (false, EventStep::Done)
            &&& peer_step(after, handle, sent) is Ignored
        }),
{
    let pred = |c: CaptureEntry| c.handle != handle;
    let kept = s.captures.filter(pred);
    assert forall|i: int| 0 <= i < kept.len() implies (#[trigger] kept[i]).handle != handle by {
        s.captures.lemma_filter_pred(pred, i);
    }
    lemma_no_capture(kept, handle);
}

proof fn lemma_no_capture(captures: Seq<CaptureEntry>, handle: CaptureHandle)
    requires
        forall|i: int| 0 <= i < captures.len() ==> (#[trigger] captures[i]).handle != handle,
    ensures
        capture_of(captures, handle) is None,
    decreases captures.len(),
{
    if captures.len() > 0 {
        lemma_no_capture(captures.drop_first(), handle);
    }
}

/// The delay before the `n`th restart in a row, if all fail recoverably.
pub open spec fn retry_delay(n: nat) -> int
    decreases n,
{
    if n == 0 {
        CAPTURE_RETRY_INITIAL_DELAY as int
    } else {
        pause_after(
            Some(InputCaptureError::Capture(CaptureError::EventTapDisabled)),
            true,
            retry_delay((n - 1) as nat),
        ).1
    }
}

/// The delays between restarts in a row are 1, 2, 4, 8 and 16 seconds, and 30
/// seconds from then on.
pub proof fn retry_delays_double_up_to_maximum(n: nat)
    ensures
        n == 0 ==> retry_delay(n) == 1_000_000_000,
        n == 1 ==> retry_delay(n) == 2_000_000_000,
        n == 2 ==> retry_delay(n) == 4_000_000_000,
        n == 3 ==> retry_delay(n) == 8_000_000_000,
        n == 4 ==> retry_delay(n) == 16_000_000_000,
        n >= 5 ==> retry_delay(n) == CAPTURE_RETRY_MAX_DELAY,
    decreases n,
{
    if n > 0 {
        retry_delays_double_up_to_maximum((n - 1) as nat);
    }
}

/// The cursor enters a client at the edge that both screens share: the side
/// that is sent is the opposite of the capture's.
pub proof fn opposite_is_an_involution(pos: Position)
    ensures
        pos.across().across() == pos,
        pos.across() != pos,
{
}

/// Whether the entry `i` is the first of the handle.
pub open spec fn is_first_capture(captures: Seq<CaptureEntry>, i: int, handle: CaptureHandle) -> bool {
    &&& 0 <= i < captures.len()
    &&& captures[i].handle == handle
    &&& forall|j: int| 0 <= j < i ==> (#[trigger] captures[j]).handle != handle
}

/// The capture of a handle is the first entry that has it, with the side and
/// the type of that entry; and there is none exactly if no entry has the handle.
pub proof fn first_entry_of_a_handle_counts(
    captures: Seq<CaptureEntry>,
    handle: CaptureHandle,
    i: int,
)
    ensures
        is_first_capture(captures, i, handle) ==> capture_of(captures, handle) == Some(
            (captures[i].pos, captures[i].capture_type),
        ),
        capture_of(captures, handle) is None <==> forall|j: int|
            0 <= j < captures.len() ==> (#[trigger] captures[j]).handle != handle,
    decreases captures.len(),
{
    if captures.len() > 0 {
        let rest = captures.drop_first();
        first_entry_of_a_handle_counts(rest, handle, i - 1);
        if captures.first().handle != handle {
            assert(captures[0].handle != handle);
            if is_first_capture(captures, i, handle) {
                assert forall|j: int| 0 <= j < i - 1 implies (#[trigger] rest[j]).handle
                    != handle by {
                    assert(rest[j] == captures[j + 1]);
                }
            }
            if capture_of(captures, handle) is None {
                assert forall|j: int| 0 <= j < captures.len() implies (
                #[trigger] captures[j]).handle != handle by {
                    if j > 0 {
                        assert(captures[j] == rest[j - 1]);
                    }
                }
            } else {
                let k = choose|k: int| 0 <= k < rest.len() && (#[trigger] rest[k]).handle == handle;
                assert(captures[k + 1] == rest[k]);
            }
        } else {
            assert(captures[0].handle == handle);
        }
    }
}

/// Once the client has acknowledged, what is captured is what it is sent: each
/// input event passes on as it is, whatever kind it is and whatever it holds.
pub proof fn captured_input_is_sent_unchanged(
    s: TaskState,
    handle: CaptureHandle,
    i: int,
    e: Event,
)
    requires
        is_first_capture(s.captures, i, handle),
        s.captures[i].capture_type is Default,
        s.state is Sending,
    ensures
        event_step(s, handle, CaptureEvent::Input(e), false) == (
            false,
            EventStep::Send(ProtoEvent::Input(e)),
        ),
{
    first_entry_of_a_handle_counts(s.captures, handle, i);
}

/// Two captured events are sent alike only if they are the same event.
pub proof fn different_input_is_sent_differently(
    s: TaskState,
    handle: CaptureHandle,
    i: int,
    a: Event,
    b: Event,
)
    requires
        is_first_capture(s.captures, i, handle),
        s.captures[i].capture_type is Default,
        s.state is Sending,
        event_step(s, handle, CaptureEvent::Input(a), false) == event_step(
            s,
            handle,
            CaptureEvent::Input(b),
            false,
        ),
    ensures
        a == b,
{
    captured_input_is_sent_unchanged(s, handle, i, a);
    captured_input_is_sent_unchanged(s, handle, i, b);
}

/// The keys that release the capture do so whatever was captured, and so does
/// the backend of itself. Nothing else takes leave of the client, and nothing
/// is sent to it then.
pub proof fn only_release_keys_and_backend_release(
    s: TaskState,
    handle: CaptureHandle,
    i: int,
    event: CaptureEvent,
    bind_pressed: bool,
)
    requires
        is_first_capture(s.captures, i, handle),
    ensures
        event_step(s, handle, event, bind_pressed).1 is Release <==> bind_pressed
            || event is AutoRelease,
        bind_pressed || event is AutoRelease ==> !event_step(s, handle, event, bind_pressed).0,
{
    first_entry_of_a_handle_counts(s.captures, handle, i);
}

/// A crossing is told of once, and then it is found out whether the client at
/// that side is ready. Input is never told of as a crossing.
pub proof fn crossing_is_told_and_client_awaited(
    s: TaskState,
    handle: CaptureHandle,
    i: int,
    cursor: Option<(i32, i32)>,
    e: Event,
)
    requires
        is_first_capture(s.captures, i, handle),
    ensures
        event_step(s, handle, CaptureEvent::Begin { cursor }, false).0,
        !event_step(s, handle, CaptureEvent::Input(e), false).0,
        s.captures[i].capture_type is Default ==> event_step(
            s,
            handle,
            CaptureEvent::Begin { cursor },
            false,
        ).1 == EventStep::AwaitReady(s.captures[i].pos),
{
    first_entry_of_a_handle_counts(s.captures, handle, i);
}

/// A capture that only tells of the cursor lets it go again, unless the capture
/// of a client lies at the same side, which then keeps it. It never sends
/// anything.
pub proof fn enter_only_captures_let_go(
    s: TaskState,
    handle: CaptureHandle,
    i: int,
    event: CaptureEvent,
)
    requires
        is_first_capture(s.captures, i, handle),
        s.captures[i].capture_type is EnterOnly,
        event !is AutoRelease,
    ensures
        event_step(s, handle, event, false).1 is ReleaseBackend || event_step(
            s,
            handle,
            event,
            false,
        ).1 is Done,
        event_step(s, handle, event, false).1 is Done <==> exists|k: int|
            0 <= k < s.captures.len() && (#[trigger] s.captures[k]).pos == s.captures[i].pos
                && s.captures[k].capture_type is Default,
{
    first_entry_of_a_handle_counts(s.captures, handle, i);
}

/// What a handle without a capture reports, and what its peer sends, changes
/// nothing.
pub proof fn handles_without_capture_are_ignored(
    s: TaskState,
    handle: CaptureHandle,
    event: CaptureEvent,
    bind_pressed: bool,
    sent: ProtoEvent,
)
    requires
        forall|j: int| 0 <= j < s.captures.len() ==> (#[trigger] s.captures[j]).handle != handle,
    ensures
        event_step(s, handle, event, bind_pressed) == (false, EventStep::Done),
        peer_step(s, handle, sent) is Ignored,
        session_state(s, SessionEvent::Peer(handle, sent)) == s,
{
    first_entry_of_a_handle_counts(s.captures, handle, 0);
}

/// The cursor leaves at one side of the host's screen and enters at the facing
/// side of the client's: at its right side, if the client sits on the left.
pub proof fn cursor_enters_at_the_facing_side(pos: Position)
    ensures
        proto_pos(pos) == match pos {
            Position::Left => proto::Position::Left,
            Position::Right => proto::Position::Right,
            Position::Top => proto::Position::Top,
            Position::Bottom => proto::Position::Bottom,
        },
        proto_pos(pos.across()) == match pos {
            Position::Left => proto::Position::Right,
            Position::Right => proto::Position::Left,
            Position::Top => proto::Position::Bottom,
            Position::Bottom => proto::Position::Top,
        },
{
}

/// Each side of a client's configuration is the side of its capture of the same
/// name, so that no two sides are confused.
pub proof fn sides_keep_their_names(a: ipc::Position, b: ipc::Position)
    ensures
        a is Left <==> capture_pos(a) is Left,
        a is Right <==> capture_pos(a) is Right,
        a is Top <==> capture_pos(a) is Top,
        a is Bottom <==> capture_pos(a) is Bottom,
        capture_pos(a) == capture_pos(b) ==> a == b,
{
}

/// While the client has not acknowledged, captured input stands for nothing but
/// another request to enter at the facing side.
pub proof fn input_asks_to_enter_again(s: TaskState, handle: CaptureHandle, i: int, e: Event)
    requires
        is_first_capture(s.captures, i, handle),
        s.captures[i].capture_type is Default,
        s.state is WaitingForAck,
    ensures
        event_step(s, handle, CaptureEvent::Input(e), false).1 == EventStep::Send(
            ProtoEvent::Enter(
                match s.captures[i].pos {
                    Position::Left => proto::Position::Right,
                    Position::Right => proto::Position::Left,
                    Position::Top => proto::Position::Bottom,
                    Position::Bottom => proto::Position::Top,
                },
            ),
        ),
{
    first_entry_of_a_handle_counts(s.captures, handle, i);
    cursor_enters_at_the_facing_side(s.captures[i].pos);
}

/// A whole visit: the cursor enters a client, the client acknowledges, and from
/// then on its input arrives as it was captured, until the client is left.
pub proof fn a_visit_forwards_input(
    s: TaskState,
    handle: CaptureHandle,
    i: int,
    serial: u32,
    e: Event,
)
    requires
        is_first_capture(s.captures, i, handle),
        s.captures[i].capture_type is Default,
        s.active_client != Some(handle),
    ensures
        ({
            let inside = entered(s, handle);
            let ack = SessionEvent::Peer(handle, ProtoEvent::Ack(serial));
            let ready = session_state(inside, ack);
            let captured = SessionEvent::Captured(handle, CaptureEvent::Input(e));
            &&& inside.captures == s.captures
            &&& inside.active_client == Some(handle)
            &&& session_step(inside, ack, false).1 == SessionStep::Peer(handle, PeerStep::Entered)
            &&& ready == (TaskState {
                active_client: Some(handle),
                state: State::Sending,
                ..s
            })
            &&& session_step(ready, captured, false) == (
                false,
                SessionStep::Event(EventStep::Send(ProtoEvent::Input(e))),
            )
            &&& session_state(ready, captured) == ready
        }),
{
    first_entry_of_a_handle_counts(s.captures, handle, i);
    let inside = entered(s, handle);
    let ack = SessionEvent::Peer(handle, ProtoEvent::Ack(serial));
    captured_input_is_sent_unchanged(session_state(inside, ack), handle, i, e);
}

/// What the peer of a capture sends is acted on while the cursor is on it, or
/// on no client: its acknowledgement, its leaving, and the size of its displays,
/// which is handed on for the side of the capture as it was sent.
pub proof fn peers_are_heard(
    s: TaskState,
    handle: CaptureHandle,
    i: int,
    serial: u32,
    width: u32,
    height: u32,
)
    requires
        is_first_capture(s.captures, i, handle),
        s.active_client is None || s.active_client == Some(handle),
    ensures
        peer_step(s, handle, ProtoEvent::Leave(serial)) is Left,
        peer_step(s, handle, ProtoEvent::Bounds { width, height }) == PeerStep::Bounds(
            s.captures[i].pos,
            width,
            height,
        ),
        peer_step(s, handle, ProtoEvent::Ack(serial)) is Entered || peer_step(
            s,
            handle,
            ProtoEvent::Ack(serial),
        ) is Acknowledged,
        peer_step(s, handle, ProtoEvent::Ack(serial)) is Entered <==> s.state is WaitingForAck
            && s.active_client == Some(handle),
        session_state(s, SessionEvent::Peer(handle, ProtoEvent::Ack(serial))).state is Sending,
{
    first_entry_of_a_handle_counts(s.captures, handle, i);
}

/// Whatever else a peer sends is of no interest, and only an acknowledgement
/// changes the task.
pub proof fn only_acknowledgements_change_the_task(
    s: TaskState,
    handle: CaptureHandle,
    event: ProtoEvent,
)
    ensures
        !(event is Ack || event is Leave || event is Bounds) ==> peer_step(s, handle, event)
            is Ignored,
        event !is Ack ==> session_state(s, SessionEvent::Peer(handle, event)) == s,
{
}

/// The farewell releases exactly the held keys, each as often and in the order
/// in which they are given, and goes to the client alone that is left.
pub proof fn farewell_goes_to_the_client(handle: CaptureHandle, held: Seq<u32>, i: int)
    requires
        0 <= i < held.len() + 2,
    ensures
        farewell(handle, held).len() == held.len() + 2,
        farewell(handle, held)[i] == CaptureAction::Send(
            handle,
            if i < held.len() {
                ProtoEvent::Input(
                    Event::Keyboard(KeyboardEvent::Key { time: 0, key: held[i], state: 0 }),
                )
            } else if i == held.len() {
                ProtoEvent::Input(
                    Event::Keyboard(
                        KeyboardEvent::Modifiers { depressed: 0, latched: 0, locked: 0, group: 0 },
                    ),
                )
            } else {
                ProtoEvent::Leave(0)
            },
        ),
{
}

/// The active client is taken leave of when the capture is released, when it
/// leaves by itself, when a peer takes over, and when the capture fails; and at
/// no other time.
pub proof fn when_leave_is_taken(step: SessionStep)
    ensures
        takes_leave(step) <==> match step {
            SessionStep::Event(e) => e is Release,
            SessionStep::Peer(_, p) => p is Left,
            SessionStep::Request(r) => r is ReleaseForHandover,
            SessionStep::Fail(_) => true,
            SessionStep::End => false,
        },
{
}

/// The backend releases the capture exactly once for every step that lets the
/// cursor go, and never for another. The host's cursor is warped unless the
/// peer places it.
pub proof fn when_the_backend_releases(step: SessionStep, host_warp: bool)
    ensures
        session_actions(step).contains(CaptureAction::Release { host_warp }) <==> match step {
            SessionStep::Event(e) => host_warp && (e is Release || e is ReleaseBackend),
            SessionStep::Peer(_, p) => !host_warp && p is Left,
            SessionStep::Request(r) => !host_warp && r is ReleaseForHandover,
            _ => false,
        },
{
    let actions = session_actions(step);
    if actions.len() > 0 {
        assert(actions.contains(actions[0]));
    }
}

/// What the steps of peers and of requests ask for reaches whom it concerns: the
/// client that entered or left is named, and the backend is told of each capture
/// and each size as it is.
pub proof fn what_steps_ask_for(
    handle: CaptureHandle,
    pos: Position,
    width: u32,
    height: u32,
)
    ensures
        session_actions(SessionStep::Peer(handle, PeerStep::Entered)) == seq![
            CaptureAction::Notify(ICaptureEvent::ClientEntered(handle)),
        ],
        session_actions(SessionStep::Peer(handle, PeerStep::Left)).last()
            == CaptureAction::Notify(ICaptureEvent::ClientLeft(handle)),
        session_actions(SessionStep::Peer(handle, PeerStep::Bounds(pos, width, height))) == seq![
            CaptureAction::SetPeerBounds(pos, width, height),
        ],
        session_actions(SessionStep::Peer(handle, PeerStep::Ignored)).len() == 0,
        session_actions(SessionStep::Peer(handle, PeerStep::Acknowledged)).len() == 0,
        session_actions(SessionStep::Request(RequestStep::CreateBarrier(handle, pos))) == seq![
            CaptureAction::CreateBarrier(handle, pos),
        ],
        session_actions(SessionStep::Request(RequestStep::DestroyBarrier(handle, pos))).contains(
            CaptureAction::DestroyBarrier(handle),
        ),
        session_actions(SessionStep::Request(RequestStep::DestroyBarrier(handle, pos))).contains(
            CaptureAction::ClearPeerBounds(pos),
        ),
        session_actions(SessionStep::Request(RequestStep::SetReleaseThreshold(width))) == seq![
            CaptureAction::SetReleaseThreshold(width),
        ],
        session_actions(SessionStep::Request(RequestStep::Nothing)).len() == 0,
{
    let d = session_actions(SessionStep::Request(RequestStep::DestroyBarrier(handle, pos)));
    assert(d[0] == CaptureAction::DestroyBarrier(handle));
    assert(d[1] == CaptureAction::ClearPeerBounds(pos));
}

/// A capture that is created is there, under its handle, at its side and of its
/// type, and the captures that were there before stay in front of it.
pub proof fn created_capture_is_there(
    s: TaskState,
    handle: CaptureHandle,
    pos: Position,
    capture_type: CaptureType,
)
    requires
        forall|j: int| 0 <= j < s.captures.len() ==> (#[trigger] s.captures[j]).handle != handle,
    ensures
        ({
            let request = CaptureRequest::Create(handle, pos, capture_type);
            let after = after_request(s, request);
            &&& request_step(s, request) == RequestStep::CreateBarrier(handle, pos)
            &&& capture_of(after.captures, handle) == Some((pos, capture_type))
            &&& after.captures.drop_last() == s.captures
            &&& after.active_client == s.active_client
            &&& after.state == s.state
        }),
{
    let after = after_request(s, CaptureRequest::Create(handle, pos, capture_type));
    let n = s.captures.len() as int;
    assert forall|j: int| 0 <= j < n implies (#[trigger] after.captures[j]).handle != handle by {
        assert(after.captures[j] == s.captures[j]);
    }
    first_entry_of_a_handle_counts(after.captures, handle, n);
    assert(after.captures.drop_last() =~= s.captures);
}

/// Destroying a capture leaves all others as they are, and its barrier goes
/// with it at the side at which it was.
pub proof fn destroying_keeps_other_captures(
    s: TaskState,
    handle: CaptureHandle,
    i: int,
    entry: CaptureEntry,
)
    requires
        is_first_capture(s.captures, i, handle),
        entry.handle != handle,
    ensures
        request_step(s, CaptureRequest::Destroy(handle)) == RequestStep::DestroyBarrier(
            handle,
            s.captures[i].pos,
        ),
        after_request(s, CaptureRequest::Destroy(handle)).captures.contains(entry)
            <==> s.captures.contains(entry),
{
    first_entry_of_a_handle_counts(s.captures, handle, i);
    let pred = |c: CaptureEntry| c.handle != handle;
    let kept = s.captures.filter(pred);
    if s.captures.contains(entry) {
        let k = choose|k: int| 0 <= k < s.captures.len() && s.captures[k] == entry;
        s.captures.lemma_filter_contains(pred, k);
    }
    if kept.contains(entry) {
        s.captures.lemma_filter_contains_rev(pred, entry);
    }
}

/// The settings that a request names take effect, and nothing else does.
pub proof fn requested_settings_take_effect(s: TaskState, bind: Vec<u32>, px: u32)
    ensures
        after_request(s, CaptureRequest::SetReleaseBind(bind)).release_bind == bind@,
        after_request(s, CaptureRequest::SetReleaseBind(bind)).release_threshold_px
            == s.release_threshold_px,
        after_request(s, CaptureRequest::SetReleaseThreshold(px)).release_threshold_px == px,
        after_request(s, CaptureRequest::SetReleaseThreshold(px)).release_bind == s.release_bind,
        request_step(s, CaptureRequest::SetReleaseThreshold(px))
            == RequestStep::SetReleaseThreshold(px),
        request_step(s, CaptureRequest::ReleaseForHandover) is ReleaseForHandover,
        after_request(s, CaptureRequest::ReleaseForHandover) == s,
        after_request(s, CaptureRequest::Reenable) == s,
{
}

/// Motion and scrolling may be lost on a client that cannot emulate input, and
/// nothing that changes a state there: no button, no key, no modifiers.
pub proof fn only_stateless_input_may_be_lost(event: CaptureEvent)
    ensures
        is_droppable(event) <==> match event {
            CaptureEvent::Input(Event::Pointer(PointerEvent::Button { .. })) => false,
            CaptureEvent::Input(Event::Pointer(_)) => true,
            CaptureEvent::Input(Event::Keyboard(_)) => false,
            CaptureEvent::Begin { .. } => false,
            CaptureEvent::AutoRelease => false,
        },
{
}

/// Capture starts again by itself only on macOS, after the delay that is due,
/// for an event tap that was disabled or not created. A missing permission is
/// never retried.
pub proof fn only_lost_event_taps_are_retried(
    error: Option<InputCaptureError>,
    on_macos: bool,
    delay: int,
)
    requires
        0 <= delay <= CAPTURE_RETRY_MAX_DELAY,
    ensures
        pause_after(error, on_macos, delay).0 is Some <==> on_macos && (match error {
            Some(InputCaptureError::Capture(e)) => e is EventTapDisabled,
            Some(InputCaptureError::Create(CaptureCreationError::MacOS(e))) => e
                is EventTapCreation,
            _ => false,
        }),
        pause_after(error, on_macos, delay).0 matches Some(d) ==> d == delay,
        pause_after(error, on_macos, delay).0 is Some ==> delay <= pause_after(
            error,
            on_macos,
            delay,
        ).1 <= 30_000_000_000,
        pause_after(error, on_macos, delay).0 is None ==> pause_after(error, on_macos, delay).1
            == 1_000_000_000,
{
}

/// The rectangle that the displays cover together, given its origin and its
/// size as the platform tells them; none, if it is empty. The origin is
/// negative where a display lies left of or above the primary one.
pub fn virtual_screen_rect(x: i32, y: i32, w: i32, h: i32) -> (r: Option<(i32, i32, u32, u32)>)
    ensures
        match r {
            Some((a, b, c, d)) => w > 0 && h > 0 && a == x && b == y && c == w && d == h,
            None => w <= 0 || h <= 0,
        },
{
    if w <= 0 || h <= 0 {
        return None;
    }
    Some((x, y, w as u32, h as u32))
}

/// While capture runs, setting the release keys and enabling it again ask for
/// nothing more, and destroying a capture that is not there does not either.
pub proof fn requests_without_further_steps(s: TaskState, bind: Vec<u32>, handle: CaptureHandle)
    ensures
        request_step(s, CaptureRequest::SetReleaseBind(bind)) is Nothing,
        request_step(s, CaptureRequest::Reenable) is Nothing,
        (forall|j: int|
            0 <= j < s.captures.len() ==> (#[trigger] s.captures[j]).handle != handle)
            ==> request_step(s, CaptureRequest::Destroy(handle)) is Nothing,
{
    first_entry_of_a_handle_counts(s.captures, handle, 0);
}

/// Crossing into the client that the cursor is already on changes nothing: what
/// it acknowledged stays acknowledged.
pub proof fn crossing_again_keeps_the_state(s: TaskState, handle: CaptureHandle)
    requires
        s.active_client == Some(handle),
    ensures
        entered(s, handle) == s,
{
}

/// What happens in a session is handled by its kind: an error of the backend
/// ends the session with that error, its end and a cancellation end it, and
/// everything else goes on with what it was.
pub proof fn sessions_go_on_by_kind(
    s: TaskState,
    handle: CaptureHandle,
    captured: CaptureEvent,
    sent: ProtoEvent,
    request: CaptureRequest,
    error: InputCaptureError,
    bind_pressed: bool,
)
    ensures
        session_step(s, SessionEvent::Failed(error), bind_pressed) == (
            false,
            SessionStep::Fail(error),
        ),
        session_step(s, SessionEvent::Ended, bind_pressed) == (false, SessionStep::End),
        session_step(s, SessionEvent::Cancelled, bind_pressed) == (false, SessionStep::End),
        session_step(s, SessionEvent::Captured(handle, captured), bind_pressed).1
            == SessionStep::Event(event_step(s, handle, captured, bind_pressed).1),
        session_step(s, SessionEvent::Captured(handle, captured), bind_pressed).0 == event_step(
            s,
            handle,
            captured,
            bind_pressed,
        ).0,
        session_step(s, SessionEvent::Peer(handle, sent), bind_pressed) == (
            false,
            SessionStep::Peer(handle, peer_step(s, handle, sent)),
        ),
        session_step(s, SessionEvent::Request(request), bind_pressed) == (
            false,
            SessionStep::Request(request_step(s, request)),
        ),
        session_state(s, SessionEvent::Failed(error)) == s,
        session_state(s, SessionEvent::Ended) == s,
        session_state(s, SessionEvent::Cancelled) == s,
        session_state(s, SessionEvent::Captured(handle, captured)) == s,
{
}

/// What comes of sending decides how a capture goes on: what was sent is done
/// with, or followed by where the host's cursor is when the cursor crossed over;
/// motion and scrolling may be lost on a client that cannot emulate input; and
/// any other failure releases the capture.
pub proof fn sending_decides_how_it_goes_on(
    task: &CaptureTask,
    e: Event,
    cursor: (i32, i32),
    pos: Position,
    nx: F32Bits,
    ny: F32Bits,
    outcome: SendOutcome,
    after_input: EventStep,
    after_crossing: EventStep,
)
    requires
        call_ensures(
            CaptureTask::sent,
            (task, CaptureEvent::Input(e), pos, outcome, Some((nx, ny))),
            after_input,
        ),
        call_ensures(
            CaptureTask::sent,
            (task, CaptureEvent::Begin { cursor: Some(cursor) }, pos, outcome, Some((nx, ny))),
            after_crossing,
        ),
    ensures
        outcome is Sent ==> after_input is Done,
        outcome is Failed ==> after_input is Release && after_crossing is Release,
        outcome is TargetEmulationDisabled ==> after_crossing is Release && (after_input is Done
            <==> (e is Pointer && !(e matches Event::Pointer(PointerEvent::Button { .. })))),
        outcome is TargetEmulationDisabled ==> after_input is Done || after_input is Release,
        outcome is Sent ==> after_crossing == EventStep::Send(
            ProtoEvent::CursorPos {
                pos: match pos {
                    Position::Left => proto::Position::Right,
                    Position::Right => proto::Position::Left,
                    Position::Top => proto::Position::Bottom,
                    Position::Bottom => proto::Position::Top,
                },
                nx,
                ny,
            },
        ),
{
}

} // verus!
