//! What a frontend and the service say to each other.
use crate::collections::AssocMap;
use crate::net::{IpAddr, IpSet, SocketAddr};
use crate::text::opt_text;
use vstd::prelude::*;

verus! {

/// The port on which the service listens by default.
pub const DEFAULT_PORT: u16 = 4242;

/// The handle of a client.
pub type ClientHandle = u64;

/// The side of the screen at which a client is configured.
#[derive(Clone, Copy, Debug, PartialEq, Eq, Structural)]
pub enum Position {
    Left,
    Right,
    Top,
    Bottom,
}

impl Position {
    /// The position's name.
    pub open spec fn text(self) -> Seq<char> {
        match self {
            Position::Left => "left"@,
            Position::Right => "right"@,
            Position::Top => "top"@,
            Position::Bottom => "bottom"@,
        }
    }

    /// The position's name.
    pub fn as_str(self) -> (s: &'static str)
        ensures
            s@ == self.text(),
    {
        match self {
            Position::Left => "left",
            Position::Right => "right",
            Position::Top => "top",
            Position::Bottom => "bottom",
        }
    }
}

/// Whether capture or emulation is at work.
#[derive(Clone, Copy, Debug, PartialEq, Eq, Structural)]
pub enum Status {
    Disabled,
    Enabled,
}

/// When an action is run.
#[derive(Clone, Copy, Debug, PartialEq, Eq, Structural)]
pub enum ActionTrigger {
    Enter,
    Leave,
}

/// An action of a client: a VCP feature of a monitor is set over DDC.
#[derive(Debug)]
pub enum ClientAction {
    DdcVcp { on: ActionTrigger, monitor: Option<String>, code: u8, value: u32 },
}

/// An action, in mathematical terms.
#[verifier::ext_equal]
pub struct ActionView {
    pub on: ActionTrigger,
    pub monitor: Option<Seq<char>>,
    pub code: u8,
    pub value: u32,
}

impl View for ClientAction {
    type V = ActionView;

    open spec fn view(&self) -> ActionView {
        match self {
            ClientAction::DdcVcp { on, monitor, code, value } => ActionView {
                on: *on,
                monitor: opt_text(*monitor),
                code: *code,
                value: *value,
            },
        }
    }
}

/// The actions of a list.
pub open spec fn actions_view(s: Seq<ClientAction>) -> Seq<ActionView> {
    s.map_values(|a: ClientAction| a@)
}

impl ClientAction {
    /// An equal action.
    pub fn copy(&self) -> (a: ClientAction)
        ensures
            a@ == self@,
    {
        match self {
            ClientAction::DdcVcp { on, monitor, code, value } => ClientAction::DdcVcp {
                on: *on,
                monitor: monitor.clone(),
                code: *code,
                value: *value,
            },
        }
    }
}

/// An equal list of actions.
pub fn copy_actions(actions: &Vec<ClientAction>) -> (r: Vec<ClientAction>)
    ensures
        actions_view(r@) == actions_view(actions@),
        r@.len() == actions@.len(),
{
    let mut r: Vec<ClientAction> = Vec::new();
    let mut i: usize = 0;
    while i < actions.len()
        invariant
            i <= actions@.len(),
            r@.len() == i,
            forall|j: int| 0 <= j < i ==> (#[trigger] r@[j])@ == actions@[j]@,
        decreases actions@.len() - i,
    {
        r.push(actions[i].copy());
        i = i + 1;
    }
    assert(actions_view(r@) =~= actions_view(actions@));
    r
}

/// An equal list of addresses.
pub fn copy_ips(ips: &Vec<IpAddr>) -> (r: Vec<IpAddr>)
    ensures
        r@ == ips@,
{
    let mut r: Vec<IpAddr> = Vec::new();
    let mut i: usize = 0;
    while i < ips.len()
        invariant
            i <= ips@.len(),
            r@ == ips@.take(i as int),
        decreases ips@.len() - i,
    {
        r.push(ips[i]);
        i = i + 1;
    }
    assert(r@ =~= ips@);
    r
}

/// How a client is configured.
pub struct ClientConfig {
    /// The name of the client's host.
    pub hostname: Option<String>,
    /// The fingerprint of the client's certificate.
    pub peer_fingerprint: Option<String>,
    /// The addresses that were given to the client.
    pub fix_ips: Vec<IpAddr>,
    /// The port on which the client listens.
    pub port: u16,
    /// The side of the screen at which the client sits.
    pub pos: Position,
    /// The command that is run when the client is entered.
    pub cmd: Option<String>,
    /// The command that is run when the client is left.
    pub cmd_leave: Option<String>,
    /// The actions that are run when the client is entered or left.
    pub actions: Vec<ClientAction>,
}

/// How a client is configured, in mathematical terms.
#[verifier::ext_equal]
pub struct ConfigView {
    pub hostname: Option<Seq<char>>,
    pub peer_fingerprint: Option<Seq<char>>,
    pub fix_ips: Seq<IpAddr>,
    pub port: u16,
    pub pos: Position,
    pub cmd: Option<Seq<char>>,
    pub cmd_leave: Option<Seq<char>>,
    pub actions: Seq<ActionView>,
}

impl View for ClientConfig {
    type V = ConfigView;

    open spec fn view(&self) -> ConfigView {
        ConfigView {
            hostname: opt_text(self.hostname),
            peer_fingerprint: opt_text(self.peer_fingerprint),
            fix_ips: self.fix_ips@,
            port: self.port,
            pos: self.pos,
            cmd: opt_text(self.cmd),
            cmd_leave: opt_text(self.cmd_leave),
            actions: actions_view(self.actions@),
        }
    }
}

/// The configuration of a client that nothing is known of.
pub open spec fn default_config() -> ConfigView {
    ConfigView {
        hostname: None,
        peer_fingerprint: None,
        fix_ips: seq![],
        port: DEFAULT_PORT,
        pos: Position::Left,
        cmd: None,
        cmd_leave: None,
        actions: seq![],
    }
}

impl ClientConfig {
    /// The configuration of a client that nothing is known of.
    pub fn new() -> (c: ClientConfig)
        ensures
            c@ == default_config(),
    {
        let c = ClientConfig {
            hostname: None,
            peer_fingerprint: None,
            fix_ips: Vec::new(),
            port: DEFAULT_PORT,
            pos: Position::Left,
            cmd: None,
            cmd_leave: None,
            actions: Vec::new(),
        };
        assert(c@ =~= default_config());
        c
    }

    /// An equal configuration.
    pub fn copy(&self) -> (c: ClientConfig)
        ensures
            c@ == self@,
    {
        ClientConfig {
            hostname: self.hostname.clone(),
            peer_fingerprint: self.peer_fingerprint.clone(),
            fix_ips: copy_ips(&self.fix_ips),
            port: self.port,
            pos: self.pos,
            cmd: self.cmd.clone(),
            cmd_leave: self.cmd_leave.clone(),
            actions: copy_actions(&self.actions),
        }
    }
}

/// How a client is doing.
pub struct ClientState {
    /// Whether the client is to be reached over the edge of the screen.
    pub active: bool,
    /// The address at which the client is connected.
    pub active_addr: Option<SocketAddr>,
    /// Whether the client answers, and can emulate input.
    pub alive: bool,
    /// The addresses that the name of the client's host was resolved to.
    pub dns_ips: Vec<IpAddr>,
    /// All addresses of the client.
    pub ips: IpSet,
    /// Whether the name of the client's host is being resolved.
    pub resolving: bool,
    /// The build of the client.
    pub peer_commit: Option<[u8; 8]>,
}

/// How a client is doing, in mathematical terms.
#[verifier::ext_equal]
pub struct StateView {
    pub active: bool,
    pub active_addr: Option<SocketAddr>,
    pub alive: bool,
    pub dns_ips: Seq<IpAddr>,
    pub ips: Set<IpAddr>,
    pub resolving: bool,
    pub peer_commit: Option<[u8; 8]>,
}

impl View for ClientState {
    type V = StateView;

    open spec fn view(&self) -> StateView {
        StateView {
            active: self.active,
            active_addr: self.active_addr,
            alive: self.alive,
            dns_ips: self.dns_ips@,
            ips: self.ips@,
            resolving: self.resolving,
            peer_commit: self.peer_commit,
        }
    }
}

/// The state of a client that nothing has happened to.
pub open spec fn default_state() -> StateView {
    StateView {
        active: false,
        active_addr: None,
        alive: false,
        dns_ips: seq![],
        ips: Set::empty(),
        resolving: false,
        peer_commit: None,
    }
}

impl ClientState {
    /// The state of a client that nothing has happened to.
    pub fn new() -> (s: ClientState)
        ensures
            s@ == default_state(),
            s.ips.wf(),
    {
        ClientState {
            active: false,
            active_addr: None,
            alive: false,
            dns_ips: Vec::new(),
            ips: IpSet::new(),
            resolving: false,
            peer_commit: None,
        }
    }

    /// An equal state.
    pub fn copy(&self) -> (s: ClientState)
        requires
            self.ips.wf(),
        ensures
            s@ == self@,
            s.ips.wf(),
    {
        ClientState {
            active: self.active,
            active_addr: self.active_addr,
            alive: self.alive,
            dns_ips: copy_ips(&self.dns_ips),
            ips: self.ips.copy(),
            resolving: self.resolving,
            peer_commit: self.peer_commit,
        }
    }
}

/// What a frontend asks for.
pub enum FrontendRequest {
    Activate(ClientHandle, bool),
    /// Trust a key: its description, and its fingerprint.
    AuthorizeKey(String, String),
    ChangePort(u16),
    Create,
    Delete(ClientHandle),
    EnableCapture,
    EnableEmulation,
    Enumerate,
    UpdateFixIps(ClientHandle, Vec<IpAddr>),
    UpdateHostname(ClientHandle, Option<String>),
    UpdatePeerFingerprint(ClientHandle, Option<String>),
    UpdatePort(ClientHandle, u16),
    UpdatePosition(ClientHandle, Position),
    ResolveDns(ClientHandle),
    Sync,
    RemoveAuthorizedKey(String),
    UpdateEnterHook(ClientHandle, Option<String>),
    UpdateLeaveHook(ClientHandle, Option<String>),
    UpdateActions(ClientHandle, Vec<ClientAction>),
    SaveConfiguration,
    SetReleaseThreshold(u32),
    SetMdnsDiscovery(bool),
}

/// What a frontend asks for, in mathematical terms.
#[verifier::ext_equal]
pub enum RequestView {
    Activate(ClientHandle, bool),
    AuthorizeKey(Seq<char>, Seq<char>),
    ChangePort(u16),
    Create,
    Delete(ClientHandle),
    EnableCapture,
    EnableEmulation,
    Enumerate,
    UpdateFixIps(ClientHandle, Seq<IpAddr>),
    UpdateHostname(ClientHandle, Option<Seq<char>>),
    UpdatePeerFingerprint(ClientHandle, Option<Seq<char>>),
    UpdatePort(ClientHandle, u16),
    UpdatePosition(ClientHandle, Position),
    ResolveDns(ClientHandle),
    Sync,
    RemoveAuthorizedKey(Seq<char>),
    UpdateEnterHook(ClientHandle, Option<Seq<char>>),
    UpdateLeaveHook(ClientHandle, Option<Seq<char>>),
    UpdateActions(ClientHandle, Seq<ActionView>),
    SaveConfiguration,
    SetReleaseThreshold(u32),
    SetMdnsDiscovery(bool),
}

impl View for FrontendRequest {
    type V = RequestView;

    open spec fn view(&self) -> RequestView {
        match self {
            FrontendRequest::Activate(h, active) => RequestView::Activate(*h, *active),
            FrontendRequest::AuthorizeKey(desc, fp) => RequestView::AuthorizeKey(desc@, fp@),
            FrontendRequest::ChangePort(port) => RequestView::ChangePort(*port),
            FrontendRequest::Create => RequestView::Create,
            FrontendRequest::Delete(h) => RequestView::Delete(*h),
            FrontendRequest::EnableCapture => RequestView::EnableCapture,
            FrontendRequest::EnableEmulation => RequestView::EnableEmulation,
            FrontendRequest::Enumerate => RequestView::Enumerate,
            FrontendRequest::UpdateFixIps(h, ips) => RequestView::UpdateFixIps(*h, ips@),
            FrontendRequest::UpdateHostname(h, s) => RequestView::UpdateHostname(*h, opt_text(*s)),
            FrontendRequest::UpdatePeerFingerprint(h, s) => RequestView::UpdatePeerFingerprint(
                *h,
                opt_text(*s),
            ),
            FrontendRequest::UpdatePort(h, port) => RequestView::UpdatePort(*h, *port),
            FrontendRequest::UpdatePosition(h, pos) => RequestView::UpdatePosition(*h, *pos),
            FrontendRequest::ResolveDns(h) => RequestView::ResolveDns(*h),
            FrontendRequest::Sync => RequestView::Sync,
            FrontendRequest::RemoveAuthorizedKey(fp) => RequestView::RemoveAuthorizedKey(fp@),
            FrontendRequest::UpdateEnterHook(h, s) => RequestView::UpdateEnterHook(*h, opt_text(*s)),
            FrontendRequest::UpdateLeaveHook(h, s) => RequestView::UpdateLeaveHook(*h, opt_text(*s)),
            FrontendRequest::UpdateActions(h, a) => RequestView::UpdateActions(*h, actions_view(a@)),
            FrontendRequest::SaveConfiguration => RequestView::SaveConfiguration,
            FrontendRequest::SetReleaseThreshold(px) => RequestView::SetReleaseThreshold(*px),
            FrontendRequest::SetMdnsDiscovery(on) => RequestView::SetMdnsDiscovery(*on),
        }
    }
}

/// A client as frontends are told of it.
pub struct ClientInfo {
    pub handle: ClientHandle,
    pub config: ClientConfig,
    pub state: ClientState,
}

/// A client as frontends are told of it, in mathematical terms.
#[verifier::ext_equal]
pub struct InfoView {
    pub handle: ClientHandle,
    pub config: ConfigView,
    pub state: StateView,
}

impl View for ClientInfo {
    type V = InfoView;

    open spec fn view(&self) -> InfoView {
        InfoView { handle: self.handle, config: self.config@, state: self.state@ }
    }
}

/// The clients of a list.
pub open spec fn infos_view(s: Seq<ClientInfo>) -> Seq<InfoView> {
    s.map_values(|c: ClientInfo| c@)
}

/// The trusted keys: the description of each, by its fingerprint.
pub struct KeyRing {
    pub map: AssocMap<String, String>,
}

impl View for KeyRing {
    type V = Map<Seq<char>, Seq<char>>;

    open spec fn view(&self) -> Map<Seq<char>, Seq<char>> {
        self.map@.map_values(|s: String| s@)
    }
}

impl KeyRing {
    /// Whether the map is in order.
    pub open spec fn wf(&self) -> bool {
        self.map.wf()
    }

    /// No keys.
    pub fn new() -> (k: KeyRing)
        ensures
            k.wf(),
            k@ == Map::<Seq<char>, Seq<char>>::empty(),
    {
        let k = KeyRing { map: AssocMap::new() };
        assert(k@ =~= Map::<Seq<char>, Seq<char>>::empty());
        k
    }

    /// Trusts a key.
    pub fn insert(&mut self, fingerprint: String, description: String)
        requires
            old(self).wf(),
        ensures
            final(self).wf(),
            final(self)@ == old(self)@.insert(fingerprint@, description@),
    {
        let ghost before = self@;
        let ghost (f, d) = (fingerprint@, description@);
        self.map.insert(fingerprint, description);
        assert(self@ =~= before.insert(f, d));
    }

    /// Trusts a key no longer.
    pub fn remove(&mut self, fingerprint: &String)
        requires
            old(self).wf(),
        ensures
            final(self).wf(),
            final(self)@ == old(self)@.remove(fingerprint@),
    {
        let ghost before = self@;
        self.map.remove(fingerprint);
        assert(self@ =~= before.remove(fingerprint@));
    }

    /// An equal key ring.
    pub fn copy(&self) -> (k: KeyRing)
        requires
            self.wf(),
        ensures
            k.wf(),
            k@ == self@,
    {
        let mut entries: Vec<(String, String)> = Vec::new();
        let mut i: usize = 0;
        while i < self.map.entries.len()
            invariant
                i <= self.map.entries@.len(),
                entries@ == self.map.entries@.take(i as int),
            decreases self.map.entries@.len() - i,
        {
            let (fingerprint, description) = &self.map.entries[i];
            entries.push((fingerprint.clone(), description.clone()));
            i = i + 1;
        }
        assert(entries@ =~= self.map.entries@);
        KeyRing { map: AssocMap { entries } }
    }
}

/// What frontends are told.
#[allow(inconsistent_fields)]
pub enum FrontendEvent {
    Created(ClientInfo),
    NoSuchClient(ClientHandle),
    State(ClientInfo),
    Deleted(ClientHandle),
    PortChanged(u16, Option<String>),
    Enumerate(Vec<ClientInfo>),
    CaptureStatus(Status),
    EmulationStatus(Status),
    AuthorizedUpdated(KeyRing),
    PublicKeyFingerprint(String),
    ConnectionAttempt { fingerprint: String },
    DeviceConnected { addr: SocketAddr, fingerprint: String },
    DeviceEntered { fingerprint: String, addr: SocketAddr, pos: Position },
    IncomingDisconnected(SocketAddr),
    ReleaseThreshold(u32),
    MdnsDiscovery(bool),
}

/// What frontends are told, in mathematical terms.
#[allow(inconsistent_fields)]
#[verifier::ext_equal]
pub enum EventView {
    Created(InfoView),
    NoSuchClient(ClientHandle),
    State(InfoView),
    Deleted(ClientHandle),
    PortChanged(u16, Option<Seq<char>>),
    Enumerate(Seq<InfoView>),
    CaptureStatus(Status),
    EmulationStatus(Status),
    AuthorizedUpdated(Map<Seq<char>, Seq<char>>),
    PublicKeyFingerprint(Seq<char>),
    ConnectionAttempt { fingerprint: Seq<char> },
    DeviceConnected { addr: SocketAddr, fingerprint: Seq<char> },
    DeviceEntered { fingerprint: Seq<char>, addr: SocketAddr, pos: Position },
    IncomingDisconnected(SocketAddr),
    ReleaseThreshold(u32),
    MdnsDiscovery(bool),
}

impl View for FrontendEvent {
    type V = EventView;

    open spec fn view(&self) -> EventView {
        match self {
            FrontendEvent::Created(c) => EventView::Created(c@),
            FrontendEvent::NoSuchClient(h) => EventView::NoSuchClient(*h),
            FrontendEvent::State(c) => EventView::State(c@),
            FrontendEvent::Deleted(h) => EventView::Deleted(*h),
            FrontendEvent::PortChanged(port, e) => EventView::PortChanged(*port, opt_text(*e)),
            FrontendEvent::Enumerate(cs) => EventView::Enumerate(infos_view(cs@)),
            FrontendEvent::CaptureStatus(s) => EventView::CaptureStatus(*s),
            FrontendEvent::EmulationStatus(s) => EventView::EmulationStatus(*s),
            FrontendEvent::AuthorizedUpdated(keys) => EventView::AuthorizedUpdated(keys@),
            FrontendEvent::PublicKeyFingerprint(fp) => EventView::PublicKeyFingerprint(fp@),
            FrontendEvent::ConnectionAttempt { fingerprint } => EventView::ConnectionAttempt {
                fingerprint: fingerprint@,
            },
            FrontendEvent::DeviceConnected { addr, fingerprint } => EventView::DeviceConnected {
                addr: *addr,
                fingerprint: fingerprint@,
            },
            FrontendEvent::DeviceEntered { fingerprint, addr, pos } => EventView::DeviceEntered {
                fingerprint: fingerprint@,
                addr: *addr,
                pos: *pos,
            },
            FrontendEvent::IncomingDisconnected(addr) => EventView::IncomingDisconnected(*addr),
            FrontendEvent::ReleaseThreshold(px) => EventView::ReleaseThreshold(*px),
            FrontendEvent::MdnsDiscovery(on) => EventView::MdnsDiscovery(*on),
        }
    }
}

} // verus!
