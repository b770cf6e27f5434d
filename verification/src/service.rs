//! The service: what becomes of the clients and of the frontends when
//! something happens.
//!
//! Every operation takes what happened, changes the service, and adds to a
//! list what is to be done: the effects.
use crate::actions::{action_trigger, is_fast_enter_prefire_supported, is_prefired};
use crate::capture::{CaptureType, ICaptureEvent};
use crate::client::{
    client_of, first_such, is_of_fingerprint, ClientManager, ClientView, ConfigClient,
    ConfigClientView, ManagerView, CLIENT_HANDLE_END,
};
use crate::collections::{lemma_entry, lemma_key, AssocMap};
use crate::discovery::{
    insert_fingerprint_candidate, normalize_fingerprint, normalized_fingerprint, with_candidate,
    FingerprintCache,
};
use crate::ipc::{
    actions_view, default_config, default_state, ActionTrigger, ActionView, ClientAction,
    ClientHandle, ConfigView, EventView, FrontendEvent, FrontendRequest, KeyRing, Position,
    RequestView, StateView, Status,
};
use crate::net::{IpAddr, SocketAddr};
use crate::text::{opt_text, same};
use vstd::prelude::*;
use vstd::string::StrSliceExecFns;

verus! {

/// After how many disabled health checks in a row the service gives up.
pub const MAX_RECOVERY_ATTEMPTS: u8 = 3;

/// The captures of incoming connections have the handles from this one on.
pub const ENTER_HANDLE_BEGIN: u64 = 0x8000_0000_0000_0000;

/// What the configuration file holds.
pub struct Config {
    pub clients: Vec<ConfigClient>,
    pub authorized: KeyRing,
    pub release_bind: Vec<u32>,
    pub release_threshold_px: u32,
    pub mdns_discovery: bool,
    pub port: u16,
}

/// What the configuration file holds, in mathematical terms.
#[verifier::ext_equal]
pub struct FileView {
    pub clients: Seq<ConfigClientView>,
    pub authorized: Map<Seq<char>, Seq<char>>,
    pub release_bind: Seq<u32>,
    pub release_threshold_px: u32,
    pub mdns_discovery: bool,
    pub port: u16,
}

/// The clients of a list.
pub open spec fn config_clients(s: Seq<ConfigClient>) -> Seq<ConfigClientView> {
    s.map_values(|c: ConfigClient| c@)
}

impl View for Config {
    type V = FileView;

    open spec fn view(&self) -> FileView {
        FileView {
            clients: config_clients(self.clients@),
            authorized: self.authorized@,
            release_bind: self.release_bind@,
            release_threshold_px: self.release_threshold_px,
            mdns_discovery: self.mdns_discovery,
            port: self.port,
        }
    }
}

impl Config {
    /// Whether the key ring and the clients are in order.
    pub open spec fn wf(&self) -> bool {
        &&& self.authorized.wf()
        &&& forall|i: int| 0 <= i < self.clients@.len() ==> (#[trigger] self.clients@[i]).wf()
    }
}

/// An incoming connection.
pub struct Incoming {
    pub fingerprint: String,
    pub addr: SocketAddr,
    pub pos: Position,
}

/// An incoming connection, in mathematical terms.
#[verifier::ext_equal]
pub struct IncomingView {
    pub fingerprint: Seq<char>,
    pub addr: SocketAddr,
    pub pos: Position,
}

impl View for Incoming {
    type V = IncomingView;

    open spec fn view(&self) -> IncomingView {
        IncomingView { fingerprint: self.fingerprint@, addr: self.addr, pos: self.pos }
    }
}

/// What is to be done for the service.
pub enum Effect {
    /// Tell the frontends.
    Notify(FrontendEvent),
    /// Create a capture at a position.
    CaptureCreate(ClientHandle, Position, CaptureType),
    /// Destroy a capture.
    CaptureDestroy(ClientHandle),
    /// Enable capture again.
    CaptureReenable,
    /// Release the capture for a handover.
    CaptureRelease,
    /// Set the keys that release the capture.
    CaptureReleaseBind(Vec<u32>),
    /// Set the release threshold of the capture.
    CaptureReleaseThreshold(u32),
    /// Enable emulation again.
    EmulationReenable,
    /// Listen on another port.
    EmulationPort(u16),
    /// Tell an incoming connection that its capture is to be released.
    EmulationLeave(SocketAddr),
    /// Resolve the name of a client's host.
    Resolve(ClientHandle, String),
    /// Ask the local network for the peer with a fingerprint.
    Probe(ClientHandle, String),
    /// Write the configuration file.
    WriteConfig,
    /// Switch discovery on or off.
    DiscoverySwitch(bool),
    /// Announce another port.
    DiscoveryPort(u16),
    /// Run actions one after the other, and then a command.
    Run { actions: Vec<ClientAction>, cmd: Option<String>, label: &'static str },
}

/// What is to be done for the service, in mathematical terms.
#[verifier::ext_equal]
pub enum EffectView {
    Notify(EventView),
    CaptureCreate(ClientHandle, Position, CaptureType),
    CaptureDestroy(ClientHandle),
    CaptureReenable,
    CaptureRelease,
    CaptureReleaseBind(Seq<u32>),
    CaptureReleaseThreshold(u32),
    EmulationReenable,
    EmulationPort(u16),
    EmulationLeave(SocketAddr),
    Resolve(ClientHandle, Seq<char>),
    Probe(ClientHandle, Seq<char>),
    WriteConfig,
    DiscoverySwitch(bool),
    DiscoveryPort(u16),
    Run { actions: Seq<ActionView>, cmd: Option<Seq<char>>, label: Seq<char> },
}

impl View for Effect {
    type V = EffectView;

    open spec fn view(&self) -> EffectView {
        match self {
            Effect::Notify(e) => EffectView::Notify(e@),
            Effect::CaptureCreate(h, pos, t) => EffectView::CaptureCreate(*h, *pos, *t),
            Effect::CaptureDestroy(h) => EffectView::CaptureDestroy(*h),
            Effect::CaptureReenable => EffectView::CaptureReenable,
            Effect::CaptureRelease => EffectView::CaptureRelease,
            Effect::CaptureReleaseBind(bind) => EffectView::CaptureReleaseBind(bind@),
            Effect::CaptureReleaseThreshold(px) => EffectView::CaptureReleaseThreshold(*px),
            Effect::EmulationReenable => EffectView::EmulationReenable,
            Effect::EmulationPort(port) => EffectView::EmulationPort(*port),
            Effect::EmulationLeave(addr) => EffectView::EmulationLeave(*addr),
            Effect::Resolve(h, host) => EffectView::Resolve(*h, host@),
            Effect::Probe(h, fingerprint) => EffectView::Probe(*h, fingerprint@),
            Effect::WriteConfig => EffectView::WriteConfig,
            Effect::DiscoverySwitch(on) => EffectView::DiscoverySwitch(*on),
            Effect::DiscoveryPort(port) => EffectView::DiscoveryPort(*port),
            Effect::Run { actions, cmd, label } => EffectView::Run {
                actions: actions_view(actions@),
                cmd: opt_text(*cmd),
                label: label@,
            },
        }
    }
}

/// The effects of a list.
pub open spec fn effects(s: Seq<Effect>) -> Seq<EffectView> {
    s.map_values(|e: Effect| e@)
}

/// Adds an effect to a list.
pub(crate) fn emit(out: &mut Vec<Effect>, effect: Effect)
    ensures
        effects(final(out)@) == effects(old(out)@).push(effect@),
{
    let ghost before = out@;
    let ghost e = effect;
    out.push(effect);
    assert(effects(out@) =~= effects(before).push(e@));
}

/// The service, in mathematical terms.
#[verifier::ext_equal]
pub struct ServiceView {
    pub config: FileView,
    pub clients: ManagerView,
    pub authorized: Map<Seq<char>, Seq<char>>,
    pub port: u16,
    pub public_key_fingerprint: Seq<char>,
    pub capture_status: Status,
    pub emulation_status: Status,
    pub capture_recovery_attempts: u8,
    pub emulation_recovery_attempts: u8,
    pub incoming: Map<u64, IncomingView>,
    pub prefired: Set<u64>,
    pub next_trigger_handle: u64,
}

/// A service, and what is to be done on the way to it.
#[verifier::ext_equal]
pub struct Outcome {
    pub service: ServiceView,
    pub effects: Seq<EffectView>,
}

impl ServiceView {
    /// The service with other clients.
    pub open spec fn with_clients(self, clients: ManagerView) -> ServiceView {
        ServiceView { clients, ..self }
    }

    /// Nothing is to be done.
    pub open spec fn unchanged(self) -> Outcome {
        Outcome { service: self, effects: seq![] }
    }

    /// What frontends are told of a client: its state, or that there is none.
    pub open spec fn broadcast(self, handle: u64) -> EffectView {
        if self.clients.has(handle) {
            EffectView::Notify(EventView::State(self.clients.info(handle)))
        } else {
            EffectView::Notify(EventView::NoSuchClient(handle))
        }
    }

    /// The name of a client's host is resolved, where it has one.
    pub open spec fn resolve(self, handle: u64) -> Seq<EffectView> {
        if self.clients.has(handle) {
            match self.clients.clients[handle].config.hostname {
                Some(host) => seq![EffectView::Resolve(handle, host)],
                None => seq![],
            }
        } else {
            seq![]
        }
    }

    /// Whether a client is active.
    pub open spec fn is_active(self, handle: u64) -> bool {
        self.clients.has(handle) && self.clients.clients[handle].state.active
    }

    /// The service with a client that is active or not.
    pub open spec fn with_active(self, handle: u64, active: bool) -> ServiceView {
        self.with_clients(
            self.clients.with_state(
                handle,
                StateView { active, ..self.clients.clients[handle].state },
            ),
        )
    }

    /// A client is deactivated: its capture is destroyed.
    pub open spec fn deactivated(self, handle: u64) -> Outcome {
        if self.is_active(handle) {
            let s = self.with_active(handle, false);
            Outcome {
                service: s,
                effects: seq![EffectView::CaptureDestroy(handle), s.broadcast(handle)],
            }
        } else {
            self.unchanged()
        }
    }

    /// The client that has to make room for another one at its position.
    pub open spec fn rival(self, handle: u64) -> Option<u64> {
        match self.clients.at(self.clients.clients[handle].config.pos) {
            Some(other) if other != handle => Some(other),
            _ => None,
        }
    }

    /// A client is activated: the name of its host is resolved, the client
    /// that is active at its position is deactivated, and a capture is created.
    pub open spec fn activated(self, handle: u64) -> Outcome {
        if !self.clients.has(handle) {
            self.unchanged()
        } else {
            let pos = self.clients.clients[handle].config.pos;
            let room = match self.rival(handle) {
                Some(other) => self.deactivated(other),
                None => self.unchanged(),
            };
            if room.service.is_active(handle) {
                Outcome {
                    service: room.service,
                    effects: self.resolve(handle) + room.effects,
                }
            } else {
                let s = room.service.with_active(handle, true);
                Outcome {
                    service: s,
                    effects: self.resolve(handle) + room.effects + seq![
                        EffectView::CaptureCreate(handle, pos, CaptureType::Default),
                        s.broadcast(handle),
                    ],
                }
            }
        }
    }

    /// The clients are activated one after the other.
    pub open spec fn all_activated(self, handles: Seq<u64>) -> Outcome
        decreases handles.len(),
    {
        if handles.len() == 0 {
            self.unchanged()
        } else {
            let p = self.all_activated(handles.drop_last());
            let q = p.service.activated(handles.last());
            Outcome { service: q.service, effects: p.effects + q.effects }
        }
    }

    /// The service with these clients not active, and nothing done for it.
    pub open spec fn silently_deactivated(self, handles: Seq<u64>) -> ServiceView
        decreases handles.len(),
    {
        if handles.len() == 0 {
            self
        } else {
            self.silently_deactivated(handles.drop_last()).with_active(handles.last(), false)
        }
    }

    /// The service when it starts to run: all clients that are active in the
    /// configuration are activated anew, so that each gets its capture.
    pub open spec fn started(self) -> Outcome {
        let active = self.clients.order.filter(|h: u64| self.clients.clients[h].state.active);
        self.silently_deactivated(active).all_activated(active)
    }

    /// A new client.
    pub open spec fn client_added(self) -> Outcome {
        let s = self.with_clients(
            self.clients.added(ClientView { config: default_config(), state: default_state() }),
        );
        Outcome {
            service: s,
            effects: seq![
                EffectView::Notify(EventView::Created(s.clients.info(self.clients.next))),
            ],
        }
    }

    /// A client is removed, and with it its capture, if it was active.
    pub open spec fn client_removed(self, handle: u64) -> Outcome {
        let deleted = EffectView::Notify(EventView::Deleted(handle));
        Outcome {
            service: self.with_clients(self.clients.removed(handle)),
            effects: if self.is_active(handle) {
                seq![EffectView::CaptureDestroy(handle), deleted]
            } else {
                seq![deleted]
            },
        }
    }

    /// The clients are removed one after the other.
    pub open spec fn all_removed(self, handles: Seq<u64>) -> Outcome
        decreases handles.len(),
    {
        if handles.len() == 0 {
            self.unchanged()
        } else {
            let p = self.all_removed(handles.drop_last());
            let q = p.service.client_removed(handles.last());
            Outcome { service: q.service, effects: p.effects + q.effects }
        }
    }

    /// The configuration of a client is changed, and the frontends are told.
    pub open spec fn reconfigured(self, handle: u64, config: ConfigView) -> Outcome {
        let s = self.with_clients(self.clients.with_config(handle, config));
        Outcome { service: s, effects: seq![s.broadcast(handle)] }
    }

    /// The position of a client is changed. An active one moves its capture.
    pub open spec fn repositioned(self, handle: u64, pos: Position) -> Outcome {
        let config = ConfigView { pos, ..self.clients.clients[handle].config };
        let s = self.with_clients(self.clients.with_config(handle, config));
        if self.is_active(handle) && self.clients.clients[handle].config.pos != pos {
            let d = s.deactivated(handle);
            let a = d.service.activated(handle);
            Outcome {
                service: a.service,
                effects: d.effects + a.effects + seq![a.service.broadcast(handle)],
            }
        } else {
            Outcome { service: s, effects: seq![s.broadcast(handle)] }
        }
    }

    /// The name of a client's host is changed, and if it is a new one,
    /// resolved.
    pub open spec fn renamed(self, handle: u64, hostname: Option<Seq<char>>) -> Outcome {
        let config = ConfigView { hostname, ..self.clients.clients[handle].config };
        let s = self.with_clients(self.clients.with_config(handle, config));
        let is_new = self.clients.has(handle) && self.clients.clients[handle].config.hostname
            != hostname;
        Outcome {
            service: s,
            effects: if is_new {
                s.resolve(handle)
            } else {
                seq![]
            }.push(s.broadcast(handle)),
        }
    }

    /// The addresses of a client are changed.
    pub open spec fn readdressed(self, handle: u64, fix_ips: Seq<IpAddr>) -> Outcome {
        let s = if self.clients.has(handle) {
            let c = self.clients.clients[handle];
            self.with_clients(
                self.clients.with(
                    handle,
                    ClientView {
                        config: ConfigView { fix_ips, ..c.config },
                        state: StateView {
                            ips: fix_ips.to_set().union(c.state.dns_ips.to_set()),
                            ..c.state
                        },
                    },
                ),
            )
        } else {
            self
        };
        Outcome { service: s, effects: seq![s.broadcast(handle)] }
    }

    /// What the frontends are told to be up to date.
    pub open spec fn synced(self) -> Seq<EffectView> {
        seq![
            EffectView::Notify(EventView::Enumerate(self.clients.infos())),
            EffectView::Notify(EventView::EmulationStatus(self.emulation_status)),
            EffectView::Notify(EventView::CaptureStatus(self.capture_status)),
            EffectView::Notify(EventView::PortChanged(self.port, None)),
            EffectView::Notify(EventView::PublicKeyFingerprint(self.public_key_fingerprint)),
            EffectView::Notify(EventView::ReleaseThreshold(self.config.release_threshold_px)),
            EffectView::Notify(EventView::MdnsDiscovery(self.config.mdns_discovery)),
            EffectView::Notify(EventView::AuthorizedUpdated(self.authorized)),
        ]
    }

    /// The service with its clients and keys in the configuration file.
    pub open spec fn saved(self) -> ServiceView {
        ServiceView {
            config: FileView {
                clients: self.clients.all_saved(),
                authorized: self.authorized,
                ..self.config
            },
            ..self
        }
    }
}

impl Outcome {
    /// Afterwards the configuration is saved.
    pub open spec fn and_saved(self) -> Outcome {
        Outcome {
            service: self.service.saved(),
            effects: self.effects.push(EffectView::WriteConfig),
        }
    }
}

/// The service.
pub struct Service {
    /// The configuration file.
    pub config: Config,
    /// The clients.
    pub clients: ClientManager,
    /// The keys that incoming connections may have.
    pub authorized: KeyRing,
    /// The port on which the service listens.
    pub port: u16,
    /// The fingerprint of the local certificate.
    pub public_key_fingerprint: String,
    pub capture_status: Status,
    pub emulation_status: Status,
    /// The health checks in a row at which capture was disabled.
    pub capture_recovery_attempts: u8,
    /// The health checks in a row at which emulation was disabled.
    pub emulation_recovery_attempts: u8,
    /// The incoming connections, by the handles of their captures.
    pub incoming: AssocMap<u64, Incoming>,
    /// The clients whose actions on entering were already started.
    pub prefired: AssocMap<u64, ()>,
    /// Counts the captures of incoming connections.
    pub next_trigger_handle: u64,
}

impl View for Service {
    type V = ServiceView;

    open spec fn view(&self) -> ServiceView {
        ServiceView {
            config: self.config@,
            clients: self.clients@,
            authorized: self.authorized@,
            port: self.port,
            public_key_fingerprint: self.public_key_fingerprint@,
            capture_status: self.capture_status,
            emulation_status: self.emulation_status,
            capture_recovery_attempts: self.capture_recovery_attempts,
            emulation_recovery_attempts: self.emulation_recovery_attempts,
            incoming: self.incoming@.map_values(|i: Incoming| i@),
            prefired: self.prefired@.dom(),
            next_trigger_handle: self.next_trigger_handle,
        }
    }
}

/// Whether no two incoming connections are from the same address, and their
/// handles are used up.
pub open spec fn incoming_wf(incoming: Map<u64, IncomingView>, next: u64) -> bool {
    &&& forall|a: u64, b: u64|
        incoming.dom().contains(a) && incoming.dom().contains(b) && (#[trigger] incoming[a]).addr
            == (#[trigger] incoming[b]).addr ==> a == b
    &&& forall|h: u64|
        #[trigger] incoming.dom().contains(h) ==> ENTER_HANDLE_BEGIN <= h < ENTER_HANDLE_BEGIN
            + next
}

/// Whether an operation did what it is to do: the service and the effects are
/// those of the outcome.
pub open spec fn did(
    before: Seq<Effect>,
    after: Seq<Effect>,
    service: ServiceView,
    outcome: Outcome,
) -> bool {
    &&& service == outcome.service
    &&& effects(after) == effects(before) + outcome.effects
}

impl Service {
    /// Whether all parts are in order.
    pub open spec fn wf(&self) -> bool {
        &&& self.config.wf()
        &&& self.clients.wf()
        &&& self.authorized.wf()
        &&& self.incoming.wf()
        &&& self.prefired.wf()
        &&& incoming_wf(self@.incoming, self.next_trigger_handle)
    }

    /// Tells the frontends.
    fn notify_frontend(event: FrontendEvent, out: &mut Vec<Effect>)
        ensures
            effects(final(out)@) == effects(old(out)@).push(EffectView::Notify(event@)),
    {
        emit(out, Effect::Notify(event));
    }

    /// Tells the frontends the state of a client, or that there is none.
    pub fn broadcast_client(&self, handle: ClientHandle, out: &mut Vec<Effect>)
        requires
            self.wf(),
        ensures
            effects(final(out)@) == effects(old(out)@).push(self@.broadcast(handle)),
    {
        let event = match self.clients.get_state(handle) {
            Some(info) => FrontendEvent::State(info),
            None => FrontendEvent::NoSuchClient(handle),
        };
        Service::notify_frontend(event, out);
    }

    /// Has the name of a client's host resolved, where it has one.
    pub fn resolve(&self, handle: ClientHandle, out: &mut Vec<Effect>)
        requires
            self.wf(),
        ensures
            effects(final(out)@) == effects(old(out)@) + self@.resolve(handle),
    {
        match self.clients.get_hostname(handle) {
            Some(host) => emit(out, Effect::Resolve(handle, host)),
            None => {},
        }
        assert(effects(out@) =~= effects(old(out)@) + self@.resolve(handle));
    }

    /// Deactivates a client.
    pub fn deactivate_client(&mut self, handle: ClientHandle, out: &mut Vec<Effect>)
        requires
            old(self).wf(),
        ensures
            final(self).wf(),
            did(old(out)@, final(out)@, final(self)@, old(self)@.deactivated(handle)),
    {
        let ghost s = self@;
        if self.clients.deactivate_client(handle) {
            emit(out, Effect::CaptureDestroy(handle));
            self.broadcast_client(handle, out);
            assert(effects(out@) =~= effects(old(out)@) + s.deactivated(handle).effects);
        } else {
            proof {
                if s.clients.has(handle) {
                    assert(self@.clients.clients =~= s.clients.clients);
                }
            }
            assert(effects(out@) =~= effects(old(out)@) + s.deactivated(handle).effects);
        }
        assert(self@ =~= s.deactivated(handle).service);
    }

    /// Activates a client. Another one at its position has to make room.
    pub fn activate_client(&mut self, handle: ClientHandle, out: &mut Vec<Effect>)
        requires
            old(self).wf(),
        ensures
            final(self).wf(),
            did(old(out)@, final(out)@, final(self)@, old(self)@.activated(handle)),
    {
        let ghost s = self@;
        self.resolve(handle, out);
        let pos = match self.clients.get_pos(handle) {
            Some(pos) => pos,
            None => {
                assert(effects(out@) =~= effects(old(out)@) + s.activated(handle).effects);
                return;
            },
        };
        if let Some(other) = self.clients.client_at(pos) {
            if other != handle {
                self.deactivate_client(other, out);
            }
        }
        let ghost room = match s.rival(handle) {
            Some(other) => s.deactivated(other),
            None => s.unchanged(),
        };
        assert(self@ == room.service);
        assert(effects(out@) =~= effects(old(out)@) + s.resolve(handle) + room.effects);
        if self.clients.activate_client(handle) {
            emit(out, Effect::CaptureCreate(handle, pos, CaptureType::Default));
            self.broadcast_client(handle, out);
            assert(self@ =~= s.activated(handle).service);
            assert(effects(out@) =~= effects(old(out)@) + s.activated(handle).effects);
        } else {
            proof {
                if room.service.clients.has(handle) {
                    assert(self@.clients.clients =~= room.service.clients.clients);
                }
            }
            assert(self@ =~= s.activated(handle).service);
            assert(effects(out@) =~= effects(old(out)@) + s.activated(handle).effects);
        }
    }
}

/// The clients of the configuration file are added one after the other.
pub open spec fn with_config_clients(m: ManagerView, clients: Seq<ConfigClientView>) -> ManagerView
    decreases clients.len(),
{
    if clients.len() == 0 {
        m
    } else {
        with_config_clients(m, clients.drop_last()).added(client_of(clients.last()))
    }
}

impl ServiceView {
    /// A service that has just been set up from a configuration file.
    pub open spec fn initial(config: FileView, fingerprint: Seq<char>) -> ServiceView {
        ServiceView {
            config,
            clients: with_config_clients(
                ManagerView { clients: Map::empty(), order: seq![], next: 0 },
                config.clients,
            ),
            authorized: config.authorized,
            port: config.port,
            public_key_fingerprint: fingerprint,
            capture_status: Status::Disabled,
            emulation_status: Status::Disabled,
            capture_recovery_attempts: 0,
            emulation_recovery_attempts: 0,
            incoming: Map::empty(),
            prefired: Set::empty(),
            next_trigger_handle: 0,
        }
    }

    /// A client of the configuration file is added. One that is active there
    /// is activated. The frontends are told how it is configured.
    pub open spec fn config_client_added(self, c: ConfigClientView) -> Outcome {
        let handle = self.clients.next;
        let s = self.with_clients(self.clients.added(client_of(c)));
        let created = EffectView::Notify(EventView::Created(s.clients.info(handle)));
        if c.active {
            let a = s.with_active(handle, false).activated(handle);
            Outcome { service: a.service, effects: a.effects.push(created) }
        } else {
            Outcome { service: s, effects: seq![created] }
        }
    }

    /// The clients of the configuration file are added one after the other.
    pub open spec fn config_clients_added(self, clients: Seq<ConfigClientView>) -> Outcome
        decreases clients.len(),
    {
        if clients.len() == 0 {
            self.unchanged()
        } else {
            let p = self.config_clients_added(clients.drop_last());
            let q = p.service.config_client_added(clients.last());
            Outcome { service: q.service, effects: p.effects + q.effects }
        }
    }

    /// The configuration file has changed: all clients are replaced by those
    /// of the file, and so are the trusted keys.
    pub open spec fn config_changed(self) -> Outcome {
        let gone = self.all_removed(self.clients.order);
        let come = gone.service.config_clients_added(self.config.clients);
        let s = ServiceView { authorized: self.config.authorized, ..come.service };
        Outcome {
            service: s,
            effects: gone.effects + come.effects + seq![
                EffectView::CaptureReleaseBind(self.config.release_bind),
                EffectView::CaptureReleaseThreshold(self.config.release_threshold_px),
                EffectView::Notify(EventView::ReleaseThreshold(self.config.release_threshold_px)),
            ] + s.synced(),
        }
    }
}

/// An equal list of keys.
fn copy_keys(keys: &Vec<u32>) -> (r: Vec<u32>)
    ensures
        r@ == keys@,
{
    let mut r: Vec<u32> = Vec::new();
    let mut i: usize = 0;
    while i < keys.len()
        invariant
            i <= keys@.len(),
            r@ == keys@.take(i as int),
        decreases keys@.len() - i,
    {
        r.push(keys[i]);
        i = i + 1;
    }
    assert(r@ =~= keys@);
    r
}

impl Service {
    /// Sets a service up from a configuration file.
    pub fn new(config: Config, public_key_fingerprint: String) -> (s: Service)
        requires
            config.wf(),
            config.clients@.len() <= CLIENT_HANDLE_END,
        ensures
            s.wf(),
            s@ == ServiceView::initial(config@, public_key_fingerprint@),
    {
        let mut clients = ClientManager::new();
        let ghost none = clients@;
        let mut i: usize = 0;
        while i < config.clients.len()
            invariant
                config.wf(),
                config.clients@.len() <= CLIENT_HANDLE_END,
                i <= config.clients@.len(),
                clients.wf(),
                clients@.next == i,
                clients@ == with_config_clients(
                    none,
                    config_clients(config.clients@).take(i as int),
                ),
            decreases config.clients@.len() - i,
        {
            clients.add_with_config(config.clients[i].copy());
            proof {
                let all = config_clients(config.clients@);
                assert(all.take(i + 1).drop_last() =~= all.take(i as int));
                assert(all.take(i + 1).last() == config.clients@[i as int]@);
            }
            i = i + 1;
        }
        assert(config_clients(config.clients@).take(i as int) =~= config_clients(config.clients@));
        let port: u16 = config.port;
        let authorized = config.authorized.copy();
        let s = Service {
            config,
            clients,
            authorized,
            port,
            public_key_fingerprint,
            capture_status: Status::Disabled,
            emulation_status: Status::Disabled,
            capture_recovery_attempts: 0,
            emulation_recovery_attempts: 0,
            incoming: AssocMap::new(),
            prefired: AssocMap::new(),
            next_trigger_handle: 0,
        };
        assert(s@.incoming =~= Map::<u64, IncomingView>::empty());
        assert(s@.prefired =~= Set::<u64>::empty());
        s
    }

    /// Starts to run: every client that is active in the configuration gets
    /// its capture. Of several at one position only the last stays active.
    pub fn run(&mut self, out: &mut Vec<Effect>)
        requires
            old(self).wf(),
        ensures
            final(self).wf(),
            did(old(out)@, final(out)@, final(self)@, old(self)@.started()),
    {
        let active = self.clients.active_clients();
        let ghost s = self@;
        let mut i: usize = 0;
        while i < active.len()
            invariant
                i <= active@.len(),
                self.wf(),
                self@ == s.silently_deactivated(active@.take(i as int)),
                out@ == old(out)@,
            decreases active@.len() - i,
        {
            self.clients.deactivate_client(active[i]);
            proof {
                assert(active@.take(i + 1).drop_last() =~= active@.take(i as int));
                assert(active@.take(i + 1).last() == active@[i as int]);
                assert(self@ =~= s.silently_deactivated(active@.take(i + 1)));
            }
            i = i + 1;
        }
        assert(active@.take(active@.len() as int) =~= active@);
        let ghost quiet = self@;
        let mut i: usize = 0;
        assert(effects(out@) =~= effects(old(out)@) + quiet.all_activated(active@.take(0)).effects);
        while i < active.len()
            invariant
                i <= active@.len(),
                self.wf(),
                self@ == quiet.all_activated(active@.take(i as int)).service,
                effects(out@) == effects(old(out)@) + quiet.all_activated(
                    active@.take(i as int),
                ).effects,
            decreases active@.len() - i,
        {
            let ghost before = effects(out@);
            self.activate_client(active[i], out);
            proof {
                assert(active@.take(i + 1).drop_last() =~= active@.take(i as int));
                assert(active@.take(i + 1).last() == active@[i as int]);
                assert(effects(out@) =~= effects(old(out)@) + quiet.all_activated(
                    active@.take(i + 1),
                ).effects);
            }
            i = i + 1;
        }
        assert(active@.take(active@.len() as int) =~= active@);
    }

    /// Adds a client that nothing is known of.
    pub fn add_client(&mut self, out: &mut Vec<Effect>)
        requires
            old(self).wf(),
            old(self)@.clients.next < CLIENT_HANDLE_END,
        ensures
            final(self).wf(),
            did(old(out)@, final(out)@, final(self)@, old(self)@.client_added()),
    {
        let handle: ClientHandle = self.clients.add_client();
        if let Some(info) = self.clients.get_state(handle) {
            Service::notify_frontend(FrontendEvent::Created(info), out);
        }
        assert(self@ =~= old(self)@.client_added().service);
        assert(effects(out@) =~= effects(old(out)@) + old(self)@.client_added().effects);
    }

    /// Removes a client.
    pub fn remove_client(&mut self, handle: ClientHandle, out: &mut Vec<Effect>)
        requires
            old(self).wf(),
        ensures
            final(self).wf(),
            did(old(out)@, final(out)@, final(self)@, old(self)@.client_removed(handle)),
    {
        if self.clients.remove_client(handle) {
            emit(out, Effect::CaptureDestroy(handle));
        }
        Service::notify_frontend(FrontendEvent::Deleted(handle), out);
        assert(self@ =~= old(self)@.client_removed(handle).service);
        assert(effects(out@) =~= effects(old(out)@) + old(self)@.client_removed(handle).effects);
    }

    /// Activates or deactivates a client.
    pub fn set_client_active(&mut self, handle: ClientHandle, active: bool, out: &mut Vec<Effect>)
        requires
            old(self).wf(),
        ensures
            final(self).wf(),
            did(
                old(out)@,
                final(out)@,
                final(self)@,
                if active {
                    old(self)@.activated(handle)
                } else {
                    old(self)@.deactivated(handle)
                },
            ),
    {
        if active {
            self.activate_client(handle, out);
        } else {
            self.deactivate_client(handle, out);
        }
    }

    /// Sets the addresses that are given to a client.
    pub fn update_fix_ips(
        &mut self,
        handle: ClientHandle,
        fix_ips: Vec<IpAddr>,
        out: &mut Vec<Effect>,
    )
        requires
            old(self).wf(),
        ensures
            final(self).wf(),
            did(old(out)@, final(out)@, final(self)@, old(self)@.readdressed(handle, fix_ips@)),
    {
        let ghost o = self@.readdressed(handle, fix_ips@);
        self.clients.set_fix_ips(handle, fix_ips);
        self.broadcast_client(handle, out);
        assert(self@ =~= o.service);
        assert(effects(out@) =~= effects(old(out)@) + o.effects);
    }

    /// Sets the name of a client's host.
    pub fn update_hostname(
        &mut self,
        handle: ClientHandle,
        hostname: Option<String>,
        out: &mut Vec<Effect>,
    )
        requires
            old(self).wf(),
        ensures
            final(self).wf(),
            did(
                old(out)@,
                final(out)@,
                final(self)@,
                old(self)@.renamed(handle, opt_text(hostname)),
            ),
    {
        let ghost o = self@.renamed(handle, opt_text(hostname));
        if self.clients.set_hostname(handle, hostname) {
            self.resolve(handle, out);
        }
        self.broadcast_client(handle, out);
        assert(self@ =~= o.service);
        assert(effects(out@) =~= effects(old(out)@) + o.effects);
    }

    /// Sets the fingerprint of a client's certificate, normalised. An empty
    /// one is none.
    pub fn update_peer_fingerprint(
        &mut self,
        handle: ClientHandle,
        peer_fingerprint: Option<String>,
        out: &mut Vec<Effect>,
    )
        requires
            old(self).wf(),
        ensures
            final(self).wf(),
            did(
                old(out)@,
                final(out)@,
                final(self)@,
                old(self)@.reconfigured(
                    handle,
                    (ConfigView {
                        peer_fingerprint: nonempty_fingerprint(opt_text(peer_fingerprint)),
                        ..old(self)@.clients.clients[handle].config
                    }),
                ),
            ),
    {
        let ghost o = self@.reconfigured(
            handle,
            ConfigView {
                peer_fingerprint: nonempty_fingerprint(opt_text(peer_fingerprint)),
                ..self@.clients.clients[handle].config
            },
        );
        let fingerprint = match peer_fingerprint {
            Some(fp) => {
                let fp = normalize_fingerprint(fp.as_str());
                if fp.as_str().unicode_len() == 0 {
                    None
                } else {
                    Some(fp)
                }
            },
            None => None,
        };
        self.clients.set_peer_fingerprint(handle, fingerprint);
        self.broadcast_client(handle, out);
        assert(self@ =~= o.service);
        assert(effects(out@) =~= effects(old(out)@) + o.effects);
    }

    /// Sets the port on which a client listens.
    pub fn update_port(&mut self, handle: ClientHandle, port: u16, out: &mut Vec<Effect>)
        requires
            old(self).wf(),
        ensures
            final(self).wf(),
            did(
                old(out)@,
                final(out)@,
                final(self)@,
                old(self)@.reconfigured(
                    handle,
                    (ConfigView { port, ..old(self)@.clients.clients[handle].config }),
                ),
            ),
    {
        let ghost o = self@.reconfigured(
            handle,
            ConfigView { port, ..self@.clients.clients[handle].config },
        );
        self.clients.set_port(handle, port);
        self.broadcast_client(handle, out);
        assert(self@ =~= o.service);
        assert(effects(out@) =~= effects(old(out)@) + o.effects);
    }

    /// Sets the position of a client.
    pub fn update_pos(&mut self, handle: ClientHandle, pos: Position, out: &mut Vec<Effect>)
        requires
            old(self).wf(),
        ensures
            final(self).wf(),
            did(old(out)@, final(out)@, final(self)@, old(self)@.repositioned(handle, pos)),
    {
        let ghost o = self@.repositioned(handle, pos);
        let ghost s = self@.with_clients(
            self@.clients.with_config(
                handle,
                ConfigView { pos, ..self@.clients.clients[handle].config },
            ),
        );
        if self.clients.set_pos(handle, pos) {
            assert(self@ =~= s);
            self.deactivate_client(handle, out);
            self.activate_client(handle, out);
        }
        self.broadcast_client(handle, out);
        assert(self@ =~= o.service);
        assert(effects(out@) =~= effects(old(out)@) + o.effects);
    }

    /// Sets the command that is run when a client is entered.
    pub fn update_enter_hook(
        &mut self,
        handle: ClientHandle,
        enter_hook: Option<String>,
        out: &mut Vec<Effect>,
    )
        requires
            old(self).wf(),
        ensures
            final(self).wf(),
            did(
                old(out)@,
                final(out)@,
                final(self)@,
                old(self)@.reconfigured(
                    handle,
                    (ConfigView {
                        cmd: opt_text(enter_hook),
                        ..old(self)@.clients.clients[handle].config
                    }),
                ),
            ),
    {
        let ghost o = self@.reconfigured(
            handle,
            ConfigView { cmd: opt_text(enter_hook), ..self@.clients.clients[handle].config },
        );
        self.clients.set_enter_hook(handle, enter_hook);
        self.broadcast_client(handle, out);
        assert(self@ =~= o.service);
        assert(effects(out@) =~= effects(old(out)@) + o.effects);
    }

    /// Sets the command that is run when a client is left.
    pub fn update_leave_hook(
        &mut self,
        handle: ClientHandle,
        leave_hook: Option<String>,
        out: &mut Vec<Effect>,
    )
        requires
            old(self).wf(),
        ensures
            final(self).wf(),
            did(
                old(out)@,
                final(out)@,
                final(self)@,
                old(self)@.reconfigured(
                    handle,
                    (ConfigView {
                        cmd_leave: opt_text(leave_hook),
                        ..old(self)@.clients.clients[handle].config
                    }),
                ),
            ),
    {
        let ghost o = self@.reconfigured(
            handle,
            ConfigView { cmd_leave: opt_text(leave_hook), ..self@.clients.clients[handle].config },
        );
        self.clients.set_leave_hook(handle, leave_hook);
        self.broadcast_client(handle, out);
        assert(self@ =~= o.service);
        assert(effects(out@) =~= effects(old(out)@) + o.effects);
    }

    /// Sets the actions of a client.
    pub fn update_actions(
        &mut self,
        handle: ClientHandle,
        actions: Vec<ClientAction>,
        out: &mut Vec<Effect>,
    )
        requires
            old(self).wf(),
        ensures
            final(self).wf(),
            did(
                old(out)@,
                final(out)@,
                final(self)@,
                old(self)@.reconfigured(
                    handle,
                    (ConfigView {
                        actions: actions_view(actions@),
                        ..old(self)@.clients.clients[handle].config
                    }),
                ),
            ),
    {
        let ghost o = self@.reconfigured(
            handle,
            ConfigView {
                actions: actions_view(actions@),
                ..self@.clients.clients[handle].config
            },
        );
        self.clients.set_actions(handle, actions);
        self.broadcast_client(handle, out);
        assert(self@ =~= o.service);
        assert(effects(out@) =~= effects(old(out)@) + o.effects);
    }

    /// Tells the frontends all clients.
    pub fn enumerate(&self, out: &mut Vec<Effect>)
        requires
            self.wf(),
        ensures
            effects(final(out)@) == effects(old(out)@).push(
                EffectView::Notify(EventView::Enumerate(self@.clients.infos())),
            ),
    {
        let clients = self.clients.get_client_states();
        Service::notify_frontend(FrontendEvent::Enumerate(clients), out);
    }

    /// Tells the frontends the trusted keys.
    fn notify_keys(&self, out: &mut Vec<Effect>)
        requires
            self.wf(),
        ensures
            effects(final(out)@) == effects(old(out)@).push(
                EffectView::Notify(EventView::AuthorizedUpdated(self@.authorized)),
            ),
    {
        Service::notify_frontend(FrontendEvent::AuthorizedUpdated(self.authorized.copy()), out);
    }

    /// Trusts a key.
    pub fn add_authorized_key(&mut self, desc: String, fp: String, out: &mut Vec<Effect>)
        requires
            old(self).wf(),
        ensures
            final(self).wf(),
            did(old(out)@, final(out)@, final(self)@, old(self)@.key_added(desc@, fp@)),
    {
        let ghost o = self@.key_added(desc@, fp@);
        self.authorized.insert(fp, desc);
        self.notify_keys(out);
        assert(self@ =~= o.service);
        assert(effects(out@) =~= effects(old(out)@) + o.effects);
    }

    /// Trusts a key no longer.
    pub fn remove_authorized_key(&mut self, fp: String, out: &mut Vec<Effect>)
        requires
            old(self).wf(),
        ensures
            final(self).wf(),
            did(old(out)@, final(out)@, final(self)@, old(self)@.key_removed(fp@)),
    {
        self.authorized.remove(&fp);
        self.notify_keys(out);
        assert(self@ =~= old(self)@.key_removed(fp@).service);
        assert(effects(out@) =~= effects(old(out)@) + old(self)@.key_removed(fp@).effects);
    }

    /// Tells the frontends all there is to tell.
    pub fn sync_frontend(&self, out: &mut Vec<Effect>)
        requires
            self.wf(),
        ensures
            effects(final(out)@) == effects(old(out)@) + self@.synced(),
    {
        self.enumerate(out);
        Service::notify_frontend(FrontendEvent::EmulationStatus(self.emulation_status), out);
        Service::notify_frontend(FrontendEvent::CaptureStatus(self.capture_status), out);
        Service::notify_frontend(FrontendEvent::PortChanged(self.port, None), out);
        Service::notify_frontend(
            FrontendEvent::PublicKeyFingerprint(self.public_key_fingerprint.clone()),
            out,
        );
        Service::notify_frontend(
            FrontendEvent::ReleaseThreshold(self.config.release_threshold_px),
            out,
        );
        Service::notify_frontend(FrontendEvent::MdnsDiscovery(self.config.mdns_discovery), out);
        self.notify_keys(out);
        assert(effects(out@) =~= effects(old(out)@) + self@.synced());
    }

    /// Listens on another port, if it is another one.
    pub fn change_port(&self, port: u16, out: &mut Vec<Effect>)
        requires
            self.wf(),
        ensures
            effects(final(out)@) == effects(old(out)@).push(self@.port_changed(port)),
    {
        if self.port != port {
            emit(out, Effect::EmulationPort(port));
        } else {
            Service::notify_frontend(FrontendEvent::PortChanged(self.port, None), out);
        }
    }

    /// Saves the clients and the trusted keys in the configuration file.
    pub fn save_config(&mut self, out: &mut Vec<Effect>)
        requires
            old(self).wf(),
        ensures
            final(self).wf(),
            final(self)@ == old(self)@.saved(),
            effects(final(out)@) == effects(old(out)@).push(EffectView::WriteConfig),
    {
        self.config.clients = self.clients.saved_clients();
        self.config.authorized = self.authorized.copy();
        emit(out, Effect::WriteConfig);
        assert(self@ =~= old(self)@.saved());
    }
}

/// A normalised fingerprint, if it is not empty.
pub open spec fn nonempty_fingerprint(fingerprint: Option<Seq<char>>) -> Option<Seq<char>> {
    match fingerprint {
        Some(fp) => if normalized_fingerprint(fp).len() > 0 {
            Some(normalized_fingerprint(fp))
        } else {
            None
        },
        None => None,
    }
}

impl ServiceView {
    /// The release threshold is set.
    pub open spec fn threshold_set(self, px: u32) -> Outcome {
        Outcome {
            service: ServiceView {
                config: FileView { release_threshold_px: px, ..self.config },
                ..self
            },
            effects: seq![
                EffectView::CaptureReleaseThreshold(px),
                EffectView::Notify(EventView::ReleaseThreshold(px)),
            ],
        }
    }

    /// Discovery is switched on or off.
    pub open spec fn discovery_switched(self, on: bool) -> Outcome {
        Outcome {
            service: ServiceView {
                config: FileView { mdns_discovery: on, ..self.config },
                ..self
            },
            effects: seq![
                EffectView::DiscoverySwitch(on),
                EffectView::Notify(EventView::MdnsDiscovery(on)),
            ],
        }
    }

    /// A key is trusted.
    pub open spec fn key_added(self, desc: Seq<char>, fp: Seq<char>) -> Outcome {
        let s = ServiceView { authorized: self.authorized.insert(fp, desc), ..self };
        Outcome {
            service: s,
            effects: seq![EffectView::Notify(EventView::AuthorizedUpdated(s.authorized))],
        }
    }

    /// A key is trusted no longer.
    pub open spec fn key_removed(self, fp: Seq<char>) -> Outcome {
        let s = ServiceView { authorized: self.authorized.remove(fp), ..self };
        Outcome {
            service: s,
            effects: seq![EffectView::Notify(EventView::AuthorizedUpdated(s.authorized))],
        }
    }

    /// Another port is asked for, or the frontends are told that it is the
    /// current one.
    pub open spec fn port_changed(self, port: u16) -> EffectView {
        if self.port != port {
            EffectView::EmulationPort(port)
        } else {
            EffectView::Notify(EventView::PortChanged(self.port, None))
        }
    }
}

impl ServiceView {
    /// What a request of a frontend brings about.
    pub open spec fn requested(self, request: RequestView) -> Outcome {
        match request {
            RequestView::Activate(handle, active) => if active {
                self.activated(handle)
            } else {
                self.deactivated(handle)
            }.and_saved(),
            RequestView::AuthorizeKey(desc, fp) => self.key_added(desc, fp).and_saved(),
            RequestView::ChangePort(port) => Outcome {
                service: self,
                effects: seq![self.port_changed(port)],
            },
            RequestView::Create => self.client_added().and_saved(),
            RequestView::Delete(handle) => self.client_removed(handle).and_saved(),
            RequestView::EnableCapture => Outcome {
                service: self,
                effects: seq![EffectView::CaptureReenable],
            },
            RequestView::EnableEmulation => Outcome {
                service: self,
                effects: seq![EffectView::EmulationReenable],
            },
            RequestView::Enumerate => Outcome {
                service: self,
                effects: seq![EffectView::Notify(EventView::Enumerate(self.clients.infos()))],
            },
            RequestView::UpdateFixIps(handle, ips) => self.readdressed(handle, ips).and_saved(),
            RequestView::UpdateHostname(handle, host) => self.renamed(handle, host).and_saved(),
            RequestView::UpdatePeerFingerprint(handle, fp) => self.reconfigured(
                handle,
                ConfigView {
                    peer_fingerprint: nonempty_fingerprint(fp),
                    ..self.clients.clients[handle].config
                },
            ).and_saved(),
            RequestView::UpdatePort(handle, port) => self.reconfigured(
                handle,
                ConfigView { port, ..self.clients.clients[handle].config },
            ).and_saved(),
            RequestView::UpdatePosition(handle, pos) => self.repositioned(handle, pos).and_saved(),
            RequestView::ResolveDns(handle) => Outcome {
                service: self,
                effects: self.resolve(handle),
            },
            RequestView::Sync => Outcome { service: self, effects: self.synced() },
            RequestView::RemoveAuthorizedKey(fp) => self.key_removed(fp).and_saved(),
            RequestView::UpdateEnterHook(handle, cmd) => self.reconfigured(
                handle,
                ConfigView { cmd, ..self.clients.clients[handle].config },
            ).and_saved(),
            RequestView::UpdateLeaveHook(handle, cmd_leave) => self.reconfigured(
                handle,
                ConfigView { cmd_leave, ..self.clients.clients[handle].config },
            ).and_saved(),
            RequestView::UpdateActions(handle, actions) => self.reconfigured(
                handle,
                ConfigView { actions, ..self.clients.clients[handle].config },
            ).and_saved(),
            RequestView::SaveConfiguration => self.unchanged().and_saved(),
            RequestView::SetReleaseThreshold(px) => self.threshold_set(px).and_saved(),
            RequestView::SetMdnsDiscovery(on) => self.discovery_switched(on).and_saved(),
        }
    }
}

/// Whether a request changes how a client is configured.
pub open spec fn is_update(request: RequestView) -> bool {
    ||| request is UpdateFixIps
    ||| request is UpdateHostname
    ||| request is UpdatePeerFingerprint
    ||| request is UpdatePort
    ||| request is UpdatePosition
    ||| request is UpdateEnterHook
    ||| request is UpdateLeaveHook
    ||| request is UpdateActions
}

/// Whether a request is about the service as a whole.
pub open spec fn is_service_request(request: RequestView) -> bool {
    ||| request is ChangePort
    ||| request is EnableCapture
    ||| request is EnableEmulation
    ||| request is Enumerate
    ||| request is ResolveDns
    ||| request is Sync
    ||| request is SaveConfiguration
    ||| request is SetReleaseThreshold
    ||| request is SetMdnsDiscovery
}

impl Service {
    /// Saves the configuration after an operation.
    fn save_after(
        &mut self,
        Ghost(start): Ghost<Seq<Effect>>,
        Ghost(o): Ghost<Outcome>,
        out: &mut Vec<Effect>,
    )
        requires
            old(self).wf(),
            did(start, old(out)@, old(self)@, o),
        ensures
            final(self).wf(),
            did(start, final(out)@, final(self)@, o.and_saved()),
    {
        self.save_config(out);
        assert(effects(out@) =~= effects(start) + o.and_saved().effects);
    }

    /// Handles a request that changes how a client is configured.
    #[verifier::spinoff_prover]
    #[verifier::rlimit(60)]
    fn handle_update_request(&mut self, request: FrontendRequest, out: &mut Vec<Effect>)
        requires
            old(self).wf(),
            is_update(request@),
        ensures
            final(self).wf(),
            did(old(out)@, final(out)@, final(self)@, old(self)@.requested(request@)),
    {
        let ghost s = self@;
        let ghost start = out@;
        match request {
            FrontendRequest::UpdateFixIps(handle, fix_ips) => {
                let ghost o = s.readdressed(handle, fix_ips@);
                self.update_fix_ips(handle, fix_ips, out);
                self.save_after(Ghost(start), Ghost(o), out);
            },
            FrontendRequest::UpdateHostname(handle, host) => {
                let ghost o = s.renamed(handle, opt_text(host));
                self.update_hostname(handle, host, out);
                self.save_after(Ghost(start), Ghost(o), out);
            },
            FrontendRequest::UpdatePeerFingerprint(handle, peer_fingerprint) => {
                let ghost o = s.reconfigured(
                    handle,
                    ConfigView {
                        peer_fingerprint: nonempty_fingerprint(opt_text(peer_fingerprint)),
                        ..s.clients.clients[handle].config
                    },
                );
                self.update_peer_fingerprint(handle, peer_fingerprint, out);
                self.save_after(Ghost(start), Ghost(o), out);
            },
            FrontendRequest::UpdatePort(handle, port) => {
                let ghost o = s.reconfigured(
                    handle,
                    ConfigView { port, ..s.clients.clients[handle].config },
                );
                self.update_port(handle, port, out);
                self.save_after(Ghost(start), Ghost(o), out);
            },
            FrontendRequest::UpdatePosition(handle, pos) => {
                let ghost o = s.repositioned(handle, pos);
                self.update_pos(handle, pos, out);
                self.save_after(Ghost(start), Ghost(o), out);
            },
            FrontendRequest::UpdateEnterHook(handle, enter_hook) => {
                let ghost o = s.reconfigured(
                    handle,
                    ConfigView { cmd: opt_text(enter_hook), ..s.clients.clients[handle].config },
                );
                self.update_enter_hook(handle, enter_hook, out);
                self.save_after(Ghost(start), Ghost(o), out);
            },
            FrontendRequest::UpdateLeaveHook(handle, leave_hook) => {
                let ghost o = s.reconfigured(
                    handle,
                    ConfigView {
                        cmd_leave: opt_text(leave_hook),
                        ..s.clients.clients[handle].config
                    },
                );
                self.update_leave_hook(handle, leave_hook, out);
                self.save_after(Ghost(start), Ghost(o), out);
            },
            FrontendRequest::UpdateActions(handle, actions) => {
                let ghost o = s.reconfigured(
                    handle,
                    ConfigView {
                        actions: actions_view(actions@),
                        ..s.clients.clients[handle].config
                    },
                );
                self.update_actions(handle, actions, out);
                self.save_after(Ghost(start), Ghost(o), out);
            },
            _ => {},
        }
    }

    /// Sets the release threshold.
    fn set_release_threshold(&mut self, threshold: u32, out: &mut Vec<Effect>)
        requires
            old(self).wf(),
        ensures
            final(self).wf(),
            did(old(out)@, final(out)@, final(self)@, old(self)@.threshold_set(threshold)),
    {
        self.config.release_threshold_px = threshold;
        emit(out, Effect::CaptureReleaseThreshold(threshold));
        Service::notify_frontend(FrontendEvent::ReleaseThreshold(threshold), out);
        assert(self@ =~= old(self)@.threshold_set(threshold).service);
        assert(effects(out@) =~= effects(old(out)@) + old(self)@.threshold_set(threshold).effects);
    }

    /// Switches discovery on or off.
    fn set_mdns_discovery(&mut self, enabled: bool, out: &mut Vec<Effect>)
        requires
            old(self).wf(),
        ensures
            final(self).wf(),
            did(old(out)@, final(out)@, final(self)@, old(self)@.discovery_switched(enabled)),
    {
        self.config.mdns_discovery = enabled;
        emit(out, Effect::DiscoverySwitch(enabled));
        Service::notify_frontend(FrontendEvent::MdnsDiscovery(enabled), out);
        assert(self@ =~= old(self)@.discovery_switched(enabled).service);
        assert(effects(out@) =~= effects(old(out)@) + old(self)@.discovery_switched(
            enabled,
        ).effects);
    }

    /// Handles a request that is about the service as a whole.
    #[verifier::spinoff_prover]
    #[verifier::rlimit(60)]
    fn handle_service_request(&mut self, request: FrontendRequest, out: &mut Vec<Effect>)
        requires
            old(self).wf(),
            is_service_request(request@),
        ensures
            final(self).wf(),
            did(old(out)@, final(out)@, final(self)@, old(self)@.requested(request@)),
    {
        let ghost s = self@;
        let ghost start = out@;
        let ghost o = s.requested(request@);
        match request {
            FrontendRequest::ChangePort(port) => {
                self.change_port(port, out);
                assert(effects(out@) =~= effects(start) + o.effects);
            },
            FrontendRequest::EnableCapture => {
                emit(out, Effect::CaptureReenable);
                assert(effects(out@) =~= effects(start) + o.effects);
            },
            FrontendRequest::EnableEmulation => {
                emit(out, Effect::EmulationReenable);
                assert(effects(out@) =~= effects(start) + o.effects);
            },
            FrontendRequest::Enumerate => {
                self.enumerate(out);
                assert(effects(out@) =~= effects(start) + o.effects);
            },
            FrontendRequest::ResolveDns(handle) => self.resolve(handle, out),
            FrontendRequest::Sync => self.sync_frontend(out),
            FrontendRequest::SaveConfiguration => {
                assert(effects(start) + s.unchanged().effects =~= effects(start));
                self.save_after(Ghost(start), Ghost(s.unchanged()), out);
            },
            FrontendRequest::SetReleaseThreshold(threshold) => {
                self.set_release_threshold(threshold, out);
                self.save_after(Ghost(start), Ghost(s.threshold_set(threshold)), out);
            },
            FrontendRequest::SetMdnsDiscovery(enabled) => {
                self.set_mdns_discovery(enabled, out);
                self.save_after(Ghost(start), Ghost(s.discovery_switched(enabled)), out);
            },
            _ => {},
        }
    }

    /// Handles a request of a frontend.
    #[verifier::spinoff_prover]
    #[verifier::rlimit(60)]
    pub fn handle_frontend_request(&mut self, request: FrontendRequest, out: &mut Vec<Effect>)
        requires
            old(self).wf(),
            request is Create ==> old(self)@.clients.next < CLIENT_HANDLE_END,
        ensures
            final(self).wf(),
            did(old(out)@, final(out)@, final(self)@, old(self)@.requested(request@)),
    {
        let ghost s = self@;
        let ghost start = out@;
        match request {
            FrontendRequest::Activate(handle, active) => {
                let ghost o = if active {
                    s.activated(handle)
                } else {
                    s.deactivated(handle)
                };
                self.set_client_active(handle, active, out);
                self.save_after(Ghost(start), Ghost(o), out);
            },
            FrontendRequest::AuthorizeKey(desc, fp) => {
                let ghost o = s.key_added(desc@, fp@);
                self.add_authorized_key(desc, fp, out);
                self.save_after(Ghost(start), Ghost(o), out);
            },
            FrontendRequest::RemoveAuthorizedKey(key) => {
                let ghost o = s.key_removed(key@);
                self.remove_authorized_key(key, out);
                self.save_after(Ghost(start), Ghost(o), out);
            },
            FrontendRequest::Create => {
                self.add_client(out);
                self.save_after(Ghost(start), Ghost(s.client_added()), out);
            },
            FrontendRequest::Delete(handle) => {
                self.remove_client(handle, out);
                self.save_after(Ghost(start), Ghost(s.client_removed(handle)), out);
            },
            FrontendRequest::UpdateFixIps(_, _)
            | FrontendRequest::UpdateHostname(_, _)
            | FrontendRequest::UpdatePeerFingerprint(_, _)
            | FrontendRequest::UpdatePort(_, _)
            | FrontendRequest::UpdatePosition(_, _)
            | FrontendRequest::UpdateEnterHook(_, _)
            | FrontendRequest::UpdateLeaveHook(_, _)
            | FrontendRequest::UpdateActions(_, _) => self.handle_update_request(request, out),
            FrontendRequest::ChangePort(_)
            | FrontendRequest::EnableCapture
            | FrontendRequest::EnableEmulation
            | FrontendRequest::Enumerate
            | FrontendRequest::ResolveDns(_)
            | FrontendRequest::Sync
            | FrontendRequest::SaveConfiguration
            | FrontendRequest::SetReleaseThreshold(_)
            | FrontendRequest::SetMdnsDiscovery(_) => self.handle_service_request(request, out),
        }
    }

    /// Removes all clients.
    fn remove_all_clients(&mut self, out: &mut Vec<Effect>)
        requires
            old(self).wf(),
        ensures
            final(self).wf(),
            did(
                old(out)@,
                final(out)@,
                final(self)@,
                old(self)@.all_removed(old(self)@.clients.order),
            ),
    {
        let ghost s = self@;
        let handles = self.clients.registered_clients();
        let mut i: usize = 0;
        assert(effects(out@) =~= effects(old(out)@) + s.all_removed(handles@.take(0)).effects);
        while i < handles.len()
            invariant
                i <= handles@.len(),
                self.wf(),
                self@ == s.all_removed(handles@.take(i as int)).service,
                effects(out@) == effects(old(out)@) + s.all_removed(handles@.take(i as int)).effects,
            decreases handles@.len() - i,
        {
            self.remove_client(handles[i], out);
            proof {
                assert(handles@.take(i + 1).drop_last() =~= handles@.take(i as int));
                assert(handles@.take(i + 1).last() == handles@[i as int]);
                assert(effects(out@) =~= effects(old(out)@) + s.all_removed(
                    handles@.take(i + 1),
                ).effects);
            }
            i = i + 1;
        }
        assert(handles@.take(handles@.len() as int) =~= handles@);
    }

    /// Adds a client of the configuration file.
    fn add_config_client(&mut self, c: ConfigClient, out: &mut Vec<Effect>)
        requires
            old(self).wf(),
            c.wf(),
            old(self)@.clients.next < CLIENT_HANDLE_END,
        ensures
            final(self).wf(),
            did(old(out)@, final(out)@, final(self)@, old(self)@.config_client_added(c@)),
    {
        let ghost o = self@.config_client_added(c@);
        let ghost s = self@.with_clients(self@.clients.added(client_of(c@)));
        let active = c.active;
        let handle: ClientHandle = self.clients.add_with_config(c);
        assert(self@ =~= s);
        let info = self.clients.get_state(handle);
        if active {
            self.clients.deactivate_client(handle);
            assert(self@ =~= s.with_active(handle, false));
            self.activate_client(handle, out);
        }
        if let Some(info) = info {
            Service::notify_frontend(FrontendEvent::Created(info), out);
        }
        assert(self@ =~= o.service);
        assert(effects(out@) =~= effects(old(out)@) + o.effects);
    }

    /// Adds all clients of the configuration file.
    fn add_all_config_clients(&mut self, out: &mut Vec<Effect>)
        requires
            old(self).wf(),
            old(self)@.clients.next + old(self)@.config.clients.len() <= CLIENT_HANDLE_END,
        ensures
            final(self).wf(),
            did(
                old(out)@,
                final(out)@,
                final(self)@,
                old(self)@.config_clients_added(old(self)@.config.clients),
            ),
    {
        let ghost s = self@;
        let ghost file = s.config.clients;
        let mut i: usize = 0;
        assert(effects(out@) =~= effects(old(out)@) + s.config_clients_added(file.take(0)).effects);
        while i < self.config.clients.len()
            invariant
                i <= file.len(),
                self.wf(),
                self@.config == s.config,
                file == s.config.clients,
                s.clients.next + file.len() <= CLIENT_HANDLE_END,
                self@.clients.next == s.clients.next + i,
                self@ == s.config_clients_added(file.take(i as int)).service,
                effects(out@) == effects(old(out)@) + s.config_clients_added(
                    file.take(i as int),
                ).effects,
            decreases file.len() - i,
        {
            assert(self@.config.clients[i as int] == self.config.clients@[i as int]@);
            let c = self.config.clients[i].copy();
            let ghost before = self@;
            self.add_config_client(c, out);
            proof {
                assert(file.take(i + 1).drop_last() =~= file.take(i as int));
                assert(file.take(i + 1).last() == file[i as int]);
                lemma_one_added_keeps_config(before, file[i as int]);
                assert(effects(out@) =~= effects(old(out)@) + s.config_clients_added(
                    file.take(i + 1),
                ).effects);
            }
            i = i + 1;
        }
        assert(self@.config.clients.len() == self.config.clients@.len());
        assert(file.take(file.len() as int) =~= file);
    }

    /// Takes over a changed configuration file.
    pub fn handle_config_change(&mut self, out: &mut Vec<Effect>)
        requires
            old(self).wf(),
            old(self)@.clients.next + old(self)@.config.clients.len() <= CLIENT_HANDLE_END,
        ensures
            final(self).wf(),
            did(old(out)@, final(out)@, final(self)@, old(self)@.config_changed()),
    {
        let ghost s = self@;
        proof {
            lemma_removal_keeps_next(s, s.clients.order);
        }
        self.remove_all_clients(out);
        self.add_all_config_clients(out);
        proof {
            lemma_adding_keeps_config(
                s.all_removed(s.clients.order).service,
                s.config.clients,
            );
        }
        let bind = copy_keys(&self.config.release_bind);
        emit(out, Effect::CaptureReleaseBind(bind));
        let threshold: u32 = self.config.release_threshold_px;
        emit(out, Effect::CaptureReleaseThreshold(threshold));
        Service::notify_frontend(FrontendEvent::ReleaseThreshold(threshold), out);
        self.authorized = self.config.authorized.copy();
        assert(self@ =~= s.config_changed().service);
        self.sync_frontend(out);
        assert(effects(out@) =~= effects(old(out)@) + s.config_changed().effects);
    }
}

proof fn lemma_removal_keeps_next(s: ServiceView, handles: Seq<u64>)
    ensures
        s.all_removed(handles).service.clients.next == s.clients.next,
        s.all_removed(handles).service.config == s.config,
    decreases handles.len(),
{
    if handles.len() > 0 {
        lemma_removal_keeps_next(s, handles.drop_last());
    }
}

proof fn lemma_one_added_keeps_config(s: ServiceView, c: ConfigClientView)
    requires
        s.clients.next < u64::MAX,
    ensures
        s.config_client_added(c).service.config == s.config,
        s.config_client_added(c).service.clients.next == s.clients.next + 1,
{
}

proof fn lemma_adding_keeps_config(s: ServiceView, clients: Seq<ConfigClientView>)
    requires
        s.clients.next + clients.len() < u64::MAX,
    ensures
        s.config_clients_added(clients).service.config == s.config,
        s.config_clients_added(clients).service.clients.next == s.clients.next + clients.len(),
    decreases clients.len(),
{
    if clients.len() > 0 {
        lemma_adding_keeps_config(s, clients.drop_last());
        lemma_one_added_keeps_config(
            s.config_clients_added(clients.drop_last()).service,
            clients.last(),
        );
    }
}

/// What happens on the side that emulates input.
#[allow(inconsistent_fields)]
pub enum EmulationEvent {
    /// A peer that is not trusted tried to connect.
    ConnectionAttempt { fingerprint: String },
    /// A peer's cursor entered at a position.
    Entered { addr: SocketAddr, pos: Position, fingerprint: String },
    /// A peer disconnected.
    Disconnected { addr: SocketAddr },
    /// The service listens on another port, or cannot.
    PortChanged(Result<u16, String>),
    /// Emulation is disabled.
    EmulationDisabled,
    /// Emulation is enabled.
    EmulationEnabled,
    /// A peer takes over: the local capture is to be released.
    ReleaseNotify,
    /// A trusted peer connected.
    Connected { addr: SocketAddr, fingerprint: String },
    /// A peer told its build.
    PeerHello { addr: SocketAddr, fingerprint: Option<String>, commit: [u8; 8] },
}

/// What happens while the name of a host is resolved.
pub enum DnsEvent {
    /// The name of a client's host is being resolved.
    Resolving(ClientHandle),
    /// This name was resolved, or could not be.
    Resolved(ClientHandle, String, Result<Vec<IpAddr>, String>),
}

/// Which command and actions are run.
#[derive(Clone, Copy, Debug, PartialEq, Eq, Structural)]
pub enum HookKind {
    Enter,
    Leave,
}

impl HookKind {
    /// The name of the kind.
    pub open spec fn text(self) -> Seq<char> {
        match self {
            HookKind::Enter => "enter"@,
            HookKind::Leave => "leave"@,
        }
    }

    /// The trigger of the actions that are run.
    pub open spec fn trigger(self) -> ActionTrigger {
        match self {
            HookKind::Enter => ActionTrigger::Enter,
            HookKind::Leave => ActionTrigger::Leave,
        }
    }

    /// The name of the kind.
    pub fn label(self) -> (s: &'static str)
        ensures
            s@ == self.text(),
    {
        match self {
            HookKind::Enter => "enter",
            HookKind::Leave => "leave",
        }
    }

    /// The trigger of the actions that are run.
    pub fn action_trigger(self) -> (t: ActionTrigger)
        ensures
            t == self.trigger(),
    {
        match self {
            HookKind::Enter => ActionTrigger::Enter,
            HookKind::Leave => ActionTrigger::Leave,
        }
    }
}

/// Why the service cannot go on.
#[derive(Clone, Copy, Debug, PartialEq, Eq, Structural)]
pub enum HealthError {
    /// Capture stayed disabled.
    Capture,
    /// Emulation stayed disabled.
    Emulation,
}

impl HealthError {
    /// The sentence that tells of the error.
    pub fn message(self) -> (s: &'static str)
        ensures
            s@ == match self {
                HealthError::Capture =>
                    "capture backend stayed disabled after 3 recovery attempts"@,
                HealthError::Emulation =>
                    "emulation backend stayed disabled after 3 recovery attempts"@,
            },
    {
        match self {
            HealthError::Capture => "capture backend stayed disabled after 3 recovery attempts",
            HealthError::Emulation => "emulation backend stayed disabled after 3 recovery attempts",
        }
    }
}

/// One more failed recovery, as far as it can be counted.
pub open spec fn one_more(attempts: u8) -> u8 {
    if attempts == u8::MAX {
        attempts
    } else {
        (attempts + 1) as u8
    }
}

/// The capture handle of the incoming connection from an address.
pub open spec fn incoming_of(incoming: Map<u64, IncomingView>, addr: SocketAddr) -> Option<u64> {
    if exists|h: u64| #[trigger] incoming.dom().contains(h) && incoming[h].addr == addr {
        Some(choose|h: u64| #[trigger] incoming.dom().contains(h) && incoming[h].addr == addr)
    } else {
        None
    }
}

impl ServiceView {
    /// The actions of a client.
    pub open spec fn actions_of(self, handle: u64) -> Seq<ActionView> {
        if self.clients.has(handle) {
            self.clients.clients[handle].config.actions
        } else {
            seq![]
        }
    }

    /// An incoming connection gets a capture that tells when the local cursor
    /// goes there.
    pub open spec fn incoming_added(
        self,
        addr: SocketAddr,
        pos: Position,
        fingerprint: Seq<char>,
    ) -> Outcome {
        let handle = (ENTER_HANDLE_BEGIN + self.next_trigger_handle) as u64;
        Outcome {
            service: ServiceView {
                incoming: self.incoming.insert(handle, IncomingView { fingerprint, addr, pos }),
                next_trigger_handle: (self.next_trigger_handle + 1) as u64,
                ..self
            },
            effects: seq![EffectView::CaptureCreate(handle, pos, CaptureType::EnterOnly)],
        }
    }

    /// The capture of an incoming connection is destroyed.
    pub open spec fn incoming_removed(self, addr: SocketAddr) -> Outcome {
        match incoming_of(self.incoming, addr) {
            Some(handle) => Outcome {
                service: ServiceView { incoming: self.incoming.remove(handle), ..self },
                effects: seq![EffectView::CaptureDestroy(handle)],
            },
            None => self.unchanged(),
        }
    }

    /// A peer's cursor entered. A new connection, and one that enters at
    /// another position or under another fingerprint, gets a capture.
    pub open spec fn device_entered(
        self,
        addr: SocketAddr,
        pos: Position,
        fingerprint: Seq<char>,
    ) -> Outcome {
        let told = EffectView::Notify(EventView::DeviceEntered { fingerprint, addr, pos });
        match incoming_of(self.incoming, addr) {
            None => {
                let a = self.incoming_added(addr, pos, fingerprint);
                Outcome { service: a.service, effects: a.effects.push(told) }
            },
            Some(handle) => if self.incoming[handle].fingerprint == fingerprint
                && self.incoming[handle].pos == pos {
                self.unchanged()
            } else {
                let r = self.incoming_removed(addr);
                let a = r.service.incoming_added(addr, pos, fingerprint);
                Outcome {
                    service: a.service,
                    effects: r.effects + a.effects + seq![
                        EffectView::Notify(EventView::IncomingDisconnected(addr)),
                        told,
                    ],
                }
            },
        }
    }

    /// The client that a peer is, by its fingerprint, or else by its address.
    pub open spec fn client_of_peer(self, addr: SocketAddr, fingerprint: Option<Seq<char>>) -> Option<
        u64,
    > {
        let by_fingerprint = match fingerprint {
            Some(fp) => first_such(
                self.clients,
                |c: ClientView| is_of_fingerprint(c, normalized_fingerprint(fp)),
                0,
            ),
            None => None,
        };
        match by_fingerprint {
            Some(handle) => Some(handle),
            None => first_such(
                self.clients,
                |c: ClientView| c.state.active && c.state.ips.contains(addr.ip),
                0,
            ),
        }
    }

    /// A peer told its build.
    pub open spec fn hello(
        self,
        addr: SocketAddr,
        fingerprint: Option<Seq<char>>,
        commit: [u8; 8],
    ) -> Outcome {
        match self.client_of_peer(addr, fingerprint) {
            Some(handle) => {
                let s = self.with_clients(
                    self.clients.with_state(
                        handle,
                        StateView {
                            peer_commit: Some(commit),
                            ..self.clients.clients[handle].state
                        },
                    ),
                );
                Outcome { service: s, effects: seq![s.broadcast(handle)] }
            },
            None => self.unchanged(),
        }
    }

    /// The actions on entering are started early, if the client is ready and
    /// has any.
    pub open spec fn prefire(self, handle: u64) -> Outcome {
        let s = ServiceView { prefired: self.prefired.remove(handle), ..self };
        let ready = self.clients.has(handle)
            && self.clients.clients[handle].state.active_addr is Some
            && self.clients.clients[handle].state.alive;
        let actions = self.actions_of(handle).filter(|a: ActionView| is_prefired(a));
        if ready && actions.len() > 0 {
            Outcome {
                service: ServiceView { prefired: s.prefired.insert(handle), ..s },
                effects: seq![EffectView::Run { actions, cmd: None, label: "prefire enter"@ }],
            }
        } else {
            s.unchanged()
        }
    }

    /// The actions and the command of a client that are run when it is entered
    /// or left, without those that were started early.
    pub open spec fn hook(self, handle: u64, kind: HookKind, skip: bool) -> Seq<EffectView> {
        let actions = self.actions_of(handle).filter(
            |a: ActionView| a.on == kind.trigger() && !(skip && is_prefired(a)),
        );
        let cmd = if self.clients.has(handle) {
            match kind {
                HookKind::Enter => self.clients.clients[handle].config.cmd,
                HookKind::Leave => self.clients.clients[handle].config.cmd_leave,
            }
        } else {
            None
        };
        if actions.len() == 0 && cmd is None {
            seq![]
        } else {
            seq![EffectView::Run { actions, cmd, label: kind.text() }]
        }
    }

    /// What an event of the capture brings about.
    pub open spec fn captured(self, event: ICaptureEvent) -> Outcome {
        match event {
            ICaptureEvent::CaptureBegin(handle) => if self.incoming.dom().contains(handle) {
                Outcome {
                    service: self,
                    effects: seq![EffectView::EmulationLeave(self.incoming[handle].addr)],
                }
            } else {
                self.prefire(handle)
            },
            ICaptureEvent::CaptureDisabled => Outcome {
                service: ServiceView { capture_status: Status::Disabled, ..self },
                effects: seq![EffectView::Notify(EventView::CaptureStatus(Status::Disabled))],
            },
            ICaptureEvent::CaptureEnabled => Outcome {
                service: ServiceView { capture_status: Status::Enabled, ..self },
                effects: seq![EffectView::Notify(EventView::CaptureStatus(Status::Enabled))],
            },
            ICaptureEvent::ClientEntered(handle) => Outcome {
                service: ServiceView { prefired: self.prefired.remove(handle), ..self },
                effects: self.hook(handle, HookKind::Enter, self.prefired.contains(handle)),
            },
            ICaptureEvent::ClientLeft(handle) => Outcome {
                service: ServiceView { prefired: self.prefired.remove(handle), ..self },
                effects: self.hook(handle, HookKind::Leave, false),
            },
        }
    }

    /// What a health check brings about, and whether the service cannot go on.
    /// What is disabled is enabled again, and given up at the third check in a
    /// row. Capture comes first, and while it is given up emulation is not
    /// looked at.
    pub open spec fn checked(self) -> (Outcome, Option<HealthError>) {
        let c = if self.capture_status is Disabled {
            one_more(self.capture_recovery_attempts)
        } else {
            0
        };
        let e = if self.emulation_status is Disabled {
            one_more(self.emulation_recovery_attempts)
        } else {
            0
        };
        let capture: Seq<EffectView> = if self.capture_status is Disabled {
            seq![EffectView::CaptureReenable]
        } else {
            seq![]
        };
        let emulation: Seq<EffectView> = if self.emulation_status is Disabled {
            seq![EffectView::EmulationReenable]
        } else {
            seq![]
        };
        let s = ServiceView { capture_recovery_attempts: c, ..self };
        if c >= MAX_RECOVERY_ATTEMPTS {
            (Outcome { service: s, effects: capture }, Some(HealthError::Capture))
        } else {
            (
                Outcome {
                    service: ServiceView { emulation_recovery_attempts: e, ..s },
                    effects: capture + emulation,
                },
                if e >= MAX_RECOVERY_ATTEMPTS {
                    Some(HealthError::Emulation)
                } else {
                    None
                },
            )
        }
    }
}

/// The actions of a list that are run: those of the trigger, without those
/// that were started early, if these are to be skipped.
fn select_actions(actions: &Vec<ClientAction>, trigger: ActionTrigger, skip: bool) -> (r: Vec<
    ClientAction,
>)
    ensures
        actions_view(r@) == actions_view(actions@).filter(
            |a: ActionView| a.on == trigger && !(skip && is_prefired(a)),
        ),
        r@.len() == actions_view(r@).len(),
{
    let ghost pred = |a: ActionView| a.on == trigger && !(skip && is_prefired(a));
    let ghost all = actions_view(actions@);
    let mut r: Vec<ClientAction> = Vec::new();
    let mut i: usize = 0;
    proof {
        reveal(Seq::filter);
        assert(actions_view(r@) =~= all.take(0).filter(pred));
    }
    while i < actions.len()
        invariant
            i <= actions@.len(),
            all == actions_view(actions@),
            pred == (|a: ActionView| a.on == trigger && !(skip && is_prefired(a))),
            actions_view(r@) == all.take(i as int).filter(pred),
        decreases actions@.len() - i,
    {
        let ghost before = r@;
        let action = &actions[i];
        if action_trigger(action) == trigger && !(skip && is_fast_enter_prefire_supported(action)) {
            r.push(action.copy());
            assert(actions_view(r@) =~= actions_view(before).push(action@));
        }
        proof {
            reveal(Seq::filter);
            assert(all.take(i + 1).drop_last() =~= all.take(i as int));
            assert(all.take(i + 1).last() == action@);
        }
        i = i + 1;
    }
    assert(all.take(all.len() as int) =~= all);
    r
}

/// The actions of a list that are started early.
fn prefired_actions(actions: &Vec<ClientAction>) -> (r: Vec<ClientAction>)
    ensures
        actions_view(r@) == actions_view(actions@).filter(|a: ActionView| is_prefired(a)),
{
    let ghost pred = |a: ActionView| is_prefired(a);
    let ghost all = actions_view(actions@);
    let mut r: Vec<ClientAction> = Vec::new();
    let mut i: usize = 0;
    proof {
        reveal(Seq::filter);
        assert(actions_view(r@) =~= all.take(0).filter(pred));
    }
    while i < actions.len()
        invariant
            i <= actions@.len(),
            all == actions_view(actions@),
            pred == (|a: ActionView| is_prefired(a)),
            actions_view(r@) == all.take(i as int).filter(pred),
        decreases actions@.len() - i,
    {
        let ghost before = r@;
        let action = &actions[i];
        if is_fast_enter_prefire_supported(action) {
            r.push(action.copy());
            assert(actions_view(r@) =~= actions_view(before).push(action@));
        }
        proof {
            reveal(Seq::filter);
            assert(all.take(i + 1).drop_last() =~= all.take(i as int));
            assert(all.take(i + 1).last() == action@);
        }
        i = i + 1;
    }
    assert(all.take(all.len() as int) =~= all);
    r
}

impl Service {
    /// Whether a client is connected, and can emulate input.
    pub fn client_ready_for_prefire(&self, handle: ClientHandle) -> (r: bool)
        requires
            self.wf(),
        ensures
            r == (self@.clients.has(handle) && self@.clients.clients[handle].state.active_addr
                is Some && self@.clients.clients[handle].state.alive),
    {
        self.clients.active_addr(handle).is_some() && self.clients.alive(handle)
    }

    /// Starts the actions on entering early, if the client is ready.
    pub fn prefire_enter_ddc_if_ready(&mut self, handle: ClientHandle, out: &mut Vec<Effect>)
        requires
            old(self).wf(),
        ensures
            final(self).wf(),
            did(old(out)@, final(out)@, final(self)@, old(self)@.prefire(handle)),
    {
        let ghost o = self@.prefire(handle);
        self.prefired.remove(&handle);
        assert(self@.prefired =~= old(self)@.prefired.remove(handle));
        if self.client_ready_for_prefire(handle) {
            let actions = prefired_actions(&self.clients.get_actions(handle));
            if actions.len() > 0 {
                self.prefired.insert(handle, ());
                assert(self@.prefired =~= old(self)@.prefired.remove(handle).insert(handle));
                emit(out, Effect::Run { actions, cmd: None, label: "prefire enter" });
            }
        }
        assert(self@ =~= o.service);
        assert(effects(out@) =~= effects(old(out)@) + o.effects);
    }

    /// Runs the actions and the command of a client.
    pub fn spawn_hook_command(
        &self,
        handle: ClientHandle,
        kind: HookKind,
        skip_prefired_ddc: bool,
        out: &mut Vec<Effect>,
    )
        requires
            self.wf(),
        ensures
            effects(final(out)@) == effects(old(out)@) + self@.hook(handle, kind, skip_prefired_ddc),
    {
        let actions = select_actions(
            &self.clients.get_actions(handle),
            kind.action_trigger(),
            skip_prefired_ddc,
        );
        let cmd = match kind {
            HookKind::Enter => self.clients.get_enter_cmd(handle),
            HookKind::Leave => self.clients.get_leave_cmd(handle),
        };
        if actions.len() == 0 && cmd.is_none() {
            assert(effects(out@) =~= effects(old(out)@) + self@.hook(
                handle,
                kind,
                skip_prefired_ddc,
            ));
            return;
        }
        emit(out, Effect::Run { actions, cmd, label: kind.label() });
        assert(effects(out@) =~= effects(old(out)@) + self@.hook(handle, kind, skip_prefired_ddc));
    }

    /// Handles an event of the capture.
    pub fn handle_capture_event(&mut self, event: ICaptureEvent, out: &mut Vec<Effect>)
        requires
            old(self).wf(),
        ensures
            final(self).wf(),
            did(old(out)@, final(out)@, final(self)@, old(self)@.captured(event)),
    {
        let ghost o = self@.captured(event);
        match event {
            ICaptureEvent::CaptureBegin(handle) => {
                let addr = match self.incoming.get(&handle) {
                    Some(incoming) => Some(incoming.addr),
                    None => None,
                };
                match addr {
                    Some(addr) => emit(out, Effect::EmulationLeave(addr)),
                    None => self.prefire_enter_ddc_if_ready(handle, out),
                }
            },
            ICaptureEvent::CaptureDisabled => {
                self.capture_status = Status::Disabled;
                Service::notify_frontend(FrontendEvent::CaptureStatus(Status::Disabled), out);
            },
            ICaptureEvent::CaptureEnabled => {
                self.capture_status = Status::Enabled;
                Service::notify_frontend(FrontendEvent::CaptureStatus(Status::Enabled), out);
            },
            ICaptureEvent::ClientEntered(handle) => {
                let skip = self.prefired.remove(&handle).is_some();
                assert(self@.prefired =~= old(self)@.prefired.remove(handle));
                self.spawn_hook_command(handle, HookKind::Enter, skip, out);
            },
            ICaptureEvent::ClientLeft(handle) => {
                self.prefired.remove(&handle);
                assert(self@.prefired =~= old(self)@.prefired.remove(handle));
                self.spawn_hook_command(handle, HookKind::Leave, false, out);
            },
        }
        assert(self@ =~= o.service);
        assert(effects(out@) =~= effects(old(out)@) + o.effects);
    }

    /// Handles an event of the resolver: notes that a name is being resolved,
    /// or what it was resolved to, which is nothing after a failure.
    pub fn handle_resolver_event(&mut self, event: DnsEvent, out: &mut Vec<Effect>)
        requires
            old(self).wf(),
        ensures
            final(self).wf(),
            did(old(out)@, final(out)@, final(self)@, old(self)@.resolved(event)),
    {
        let ghost o = self@.resolved(event);
        match event {
            DnsEvent::Resolving(handle) => {
                self.clients.set_resolving(handle, true);
                self.broadcast_client(handle, out);
                assert(self@ =~= o.service);
            },
            DnsEvent::Resolved(handle, _, ips) => {
                self.clients.set_resolving(handle, false);
                let ips = match ips {
                    Ok(ips) => ips,
                    Err(_) => Vec::new(),
                };
                self.clients.set_dns_ips(handle, ips);
                self.broadcast_client(handle, out);
                proof {
                    if old(self)@.clients.has(handle) {
                        assert(self@.clients.clients =~= o.service.clients.clients);
                    }
                }
                assert(self@ =~= o.service);
            },
        }
        assert(effects(out@) =~= effects(old(out)@) + o.effects);
    }

    /// Looks after capture and emulation: what is disabled is enabled again,
    /// and given up at the third check in a row.
    pub fn health_check(&mut self, out: &mut Vec<Effect>) -> (res: Result<(), HealthError>)
        requires
            old(self).wf(),
        ensures
            final(self).wf(),
            did(old(out)@, final(out)@, final(self)@, old(self)@.checked().0),
            match res {
                Ok(()) => old(self)@.checked().1 is None,
                Err(e) => old(self)@.checked().1 == Some(e),
            },
    {
        let ghost o = self@.checked().0;
        if self.capture_status == Status::Disabled {
            if self.capture_recovery_attempts < u8::MAX {
                self.capture_recovery_attempts = self.capture_recovery_attempts + 1;
            }
            emit(out, Effect::CaptureReenable);
            if self.capture_recovery_attempts >= MAX_RECOVERY_ATTEMPTS {
                assert(self@ =~= o.service);
                assert(effects(out@) =~= effects(old(out)@) + o.effects);
                return Err(HealthError::Capture);
            }
        } else {
            self.capture_recovery_attempts = 0;
        }
        if self.emulation_status == Status::Disabled {
            if self.emulation_recovery_attempts < u8::MAX {
                self.emulation_recovery_attempts = self.emulation_recovery_attempts + 1;
            }
            emit(out, Effect::EmulationReenable);
            if self.emulation_recovery_attempts >= MAX_RECOVERY_ATTEMPTS {
                assert(self@ =~= o.service);
                assert(effects(out@) =~= effects(old(out)@) + o.effects);
                return Err(HealthError::Emulation);
            }
        } else {
            self.emulation_recovery_attempts = 0;
        }
        assert(self@ =~= o.service);
        assert(effects(out@) =~= effects(old(out)@) + o.effects);
        Ok(())
    }
}

impl ServiceView {
    /// What an event of the resolver brings about.
    pub open spec fn resolved(self, event: DnsEvent) -> Outcome {
        match event {
            DnsEvent::Resolving(handle) => {
                let s = self.with_clients(
                    self.clients.with_state(
                        handle,
                        StateView { resolving: true, ..self.clients.clients[handle].state },
                    ),
                );
                Outcome { service: s, effects: seq![s.broadcast(handle)] }
            },
            DnsEvent::Resolved(handle, _, ips) => {
                let dns_ips = match ips {
                    Ok(ips) => ips@,
                    Err(_) => seq![],
                };
                let c = self.clients.clients[handle];
                let s = self.with_clients(
                    self.clients.with_state(
                        handle,
                        StateView {
                            resolving: false,
                            dns_ips,
                            ips: c.config.fix_ips.to_set().union(dns_ips.to_set()),
                            ..c.state
                        },
                    ),
                );
                Outcome { service: s, effects: seq![s.broadcast(handle)] }
            },
        }
    }
}

/// What happens on the side that emulates input, in mathematical terms.
#[allow(inconsistent_fields)]
#[verifier::ext_equal]
pub enum EmulationView {
    ConnectionAttempt { fingerprint: Seq<char> },
    Entered { addr: SocketAddr, pos: Position, fingerprint: Seq<char> },
    Disconnected { addr: SocketAddr },
    PortChanged(Result<u16, Seq<char>>),
    EmulationDisabled,
    EmulationEnabled,
    ReleaseNotify,
    Connected { addr: SocketAddr, fingerprint: Seq<char> },
    PeerHello { addr: SocketAddr, fingerprint: Option<Seq<char>>, commit: [u8; 8] },
}

impl View for EmulationEvent {
    type V = EmulationView;

    open spec fn view(&self) -> EmulationView {
        match self {
            EmulationEvent::ConnectionAttempt { fingerprint } => EmulationView::ConnectionAttempt {
                fingerprint: fingerprint@,
            },
            EmulationEvent::Entered { addr, pos, fingerprint } => EmulationView::Entered {
                addr: *addr,
                pos: *pos,
                fingerprint: fingerprint@,
            },
            EmulationEvent::Disconnected { addr } => EmulationView::Disconnected { addr: *addr },
            EmulationEvent::PortChanged(Ok(port)) => EmulationView::PortChanged(Ok(*port)),
            EmulationEvent::PortChanged(Err(e)) => EmulationView::PortChanged(Err(e@)),
            EmulationEvent::EmulationDisabled => EmulationView::EmulationDisabled,
            EmulationEvent::EmulationEnabled => EmulationView::EmulationEnabled,
            EmulationEvent::ReleaseNotify => EmulationView::ReleaseNotify,
            EmulationEvent::Connected { addr, fingerprint } => EmulationView::Connected {
                addr: *addr,
                fingerprint: fingerprint@,
            },
            EmulationEvent::PeerHello { addr, fingerprint, commit } => EmulationView::PeerHello {
                addr: *addr,
                fingerprint: opt_text(*fingerprint),
                commit: *commit,
            },
        }
    }
}

impl EmulationView {
    /// The candidates for dialing once the event has been handled: the address
    /// of a peer that entered or connected is remembered.
    pub open spec fn candidates(self, cache: Map<Seq<char>, Set<IpAddr>>) -> Map<
        Seq<char>,
        Set<IpAddr>,
    > {
        match self {
            EmulationView::Entered { addr, fingerprint, .. } => with_candidate(
                cache,
                fingerprint,
                addr.ip,
            ),
            EmulationView::Connected { addr, fingerprint } => with_candidate(
                cache,
                fingerprint,
                addr.ip,
            ),
            _ => cache,
        }
    }
}

impl ServiceView {
    /// What an event on the side that emulates input brings about.
    pub open spec fn emulated(self, event: EmulationView) -> Outcome {
        match event {
            EmulationView::ConnectionAttempt { fingerprint } => Outcome {
                service: self,
                effects: seq![EffectView::Notify(EventView::ConnectionAttempt { fingerprint })],
            },
            EmulationView::Entered { addr, pos, fingerprint } => self.device_entered(
                addr,
                pos,
                fingerprint,
            ),
            EmulationView::Disconnected { addr } => {
                let r = self.incoming_removed(addr);
                if incoming_of(self.incoming, addr) is Some {
                    Outcome {
                        service: r.service,
                        effects: r.effects.push(
                            EffectView::Notify(EventView::IncomingDisconnected(addr)),
                        ),
                    }
                } else {
                    r
                }
            },
            EmulationView::PortChanged(Ok(port)) => Outcome {
                service: ServiceView { port, ..self },
                effects: seq![
                    EffectView::DiscoveryPort(port),
                    EffectView::Notify(EventView::PortChanged(port, None)),
                ],
            },
            EmulationView::PortChanged(Err(e)) => Outcome {
                service: self,
                effects: seq![EffectView::Notify(EventView::PortChanged(self.port, Some(e)))],
            },
            EmulationView::EmulationDisabled => Outcome {
                service: ServiceView { emulation_status: Status::Disabled, ..self },
                effects: seq![EffectView::Notify(EventView::EmulationStatus(Status::Disabled))],
            },
            EmulationView::EmulationEnabled => Outcome {
                service: ServiceView { emulation_status: Status::Enabled, ..self },
                effects: seq![EffectView::Notify(EventView::EmulationStatus(Status::Enabled))],
            },
            EmulationView::ReleaseNotify => Outcome {
                service: self,
                effects: seq![EffectView::CaptureRelease],
            },
            EmulationView::Connected { addr, fingerprint } => Outcome {
                service: self,
                effects: seq![EffectView::Notify(EventView::DeviceConnected { addr, fingerprint })],
            },
            EmulationView::PeerHello { addr, fingerprint, commit } => self.hello(
                addr,
                fingerprint,
                commit,
            ),
        }
    }

    /// Whether there is a handle left for the capture of an incoming
    /// connection.
    pub open spec fn has_free_trigger(self) -> bool {
        self.next_trigger_handle < ENTER_HANDLE_BEGIN
    }
}

proof fn lemma_incoming_added(
    incoming: Map<u64, IncomingView>,
    next: u64,
    addr: SocketAddr,
    i: IncomingView,
)
    requires
        incoming_wf(incoming, next),
        next < ENTER_HANDLE_BEGIN,
        incoming_of(incoming, addr) is None,
        i.addr == addr,
    ensures
        incoming_wf(
            incoming.insert((ENTER_HANDLE_BEGIN + next) as u64, i),
            (next + 1) as u64,
        ),
{
    let handle = (ENTER_HANDLE_BEGIN + next) as u64;
    let after = incoming.insert(handle, i);
    assert forall|a: u64, b: u64|
        after.dom().contains(a) && after.dom().contains(b) && (#[trigger] after[a]).addr == (
        #[trigger] after[b]).addr implies a == b by {
        if a != handle && b != handle {
            assert(incoming[a].addr == incoming[b].addr);
        }
    }
}

proof fn lemma_incoming_removed(incoming: Map<u64, IncomingView>, next: u64, handle: u64)
    requires
        incoming_wf(incoming, next),
        incoming.dom().contains(handle),
    ensures
        incoming_wf(incoming.remove(handle), next),
        incoming_of(incoming.remove(handle), incoming[handle].addr) is None,
        incoming_of(incoming, incoming[handle].addr) == Some(handle),
{
    let after = incoming.remove(handle);
    assert forall|a: u64, b: u64|
        after.dom().contains(a) && after.dom().contains(b) && (#[trigger] after[a]).addr == (
        #[trigger] after[b]).addr implies a == b by {
        assert(incoming[a].addr == incoming[b].addr);
    }
    let addr = incoming[handle].addr;
    let found = choose|h: u64| #[trigger] incoming.dom().contains(h) && incoming[h].addr == addr;
    assert(incoming[found].addr == incoming[handle].addr);
    assert forall|h: u64| #[trigger] after.dom().contains(h) implies after[h].addr != addr by {
        assert(incoming.dom().contains(h));
        if incoming[h].addr == incoming[handle].addr {
            assert(h == handle);
        }
    }
}

impl Service {
    /// The handle of the capture of an incoming connection.
    fn find_incoming(&self, addr: SocketAddr) -> (r: Option<ClientHandle>)
        requires
            self.wf(),
        ensures
            r == incoming_of(self@.incoming, addr),
            r matches Some(h) ==> self@.incoming.dom().contains(h) && self@.incoming[h].addr
                == addr,
    {
        let mut i: usize = 0;
        while i < self.incoming.entries.len()
            invariant
                self.wf(),
                i <= self.incoming.entries@.len(),
                forall|j: int|
                    0 <= j < i ==> (#[trigger] self.incoming.entries@[j]).1.addr != addr,
            decreases self.incoming.entries@.len() - i,
        {
            let (handle, incoming) = &self.incoming.entries[i];
            if incoming.addr == addr {
                proof {
                    lemma_entry(self.incoming.entries@, i as int);
                    assert(self@.incoming.dom().contains(*handle));
                    lemma_incoming_removed(self@.incoming, self.next_trigger_handle, *handle);
                }
                return Some(*handle);
            }
            i = i + 1;
        }
        proof {
            assert forall|h: u64| #[trigger] self@.incoming.dom().contains(h) implies
                self@.incoming[h].addr != addr by {
                let j = lemma_key(self.incoming.entries@, h);
                assert(self.incoming.entries@[j].1.addr != addr);
            }
        }
        None
    }

    /// Adds an incoming connection: it gets a capture that tells when the
    /// local cursor goes there.
    pub fn add_incoming(
        &mut self,
        addr: SocketAddr,
        pos: Position,
        fingerprint: String,
        out: &mut Vec<Effect>,
    )
        requires
            old(self).wf(),
            old(self)@.has_free_trigger(),
            incoming_of(old(self)@.incoming, addr) is None,
        ensures
            final(self).wf(),
            did(
                old(out)@,
                final(out)@,
                final(self)@,
                old(self)@.incoming_added(addr, pos, fingerprint@),
            ),
    {
        let ghost o = self@.incoming_added(addr, pos, fingerprint@);
        let ghost before = self@.incoming;
        let ghost next = self.next_trigger_handle;
        let handle: ClientHandle = ENTER_HANDLE_BEGIN + self.next_trigger_handle;
        self.next_trigger_handle = self.next_trigger_handle + 1;
        emit(out, Effect::CaptureCreate(handle, pos, CaptureType::EnterOnly));
        let incoming = Incoming { fingerprint, addr, pos };
        let ghost i = incoming@;
        self.incoming.insert(handle, incoming);
        proof {
            assert(self@.incoming =~= before.insert(handle, i));
            lemma_incoming_added(before, next, addr, i);
        }
        assert(self@ =~= o.service);
        assert(effects(out@) =~= effects(old(out)@) + o.effects);
    }

    /// Removes an incoming connection, and returns whether there was one.
    pub fn remove_incoming(&mut self, addr: SocketAddr, out: &mut Vec<Effect>) -> (removed: bool)
        requires
            old(self).wf(),
        ensures
            final(self).wf(),
            removed == incoming_of(old(self)@.incoming, addr) is Some,
            incoming_of(final(self)@.incoming, addr) is None,
            did(old(out)@, final(out)@, final(self)@, old(self)@.incoming_removed(addr)),
    {
        let ghost o = self@.incoming_removed(addr);
        let ghost before = self@.incoming;
        match self.find_incoming(addr) {
            Some(handle) => {
                emit(out, Effect::CaptureDestroy(handle));
                proof {
                    lemma_incoming_removed(before, self.next_trigger_handle, handle);
                }
                self.incoming.remove(&handle);
                assert(self@.incoming =~= before.remove(handle));
                assert(self@ =~= o.service);
                assert(effects(out@) =~= effects(old(out)@) + o.effects);
                true
            },
            None => {
                assert(effects(out@) =~= effects(old(out)@) + o.effects);
                false
            },
        }
    }

    /// Handles that a peer's cursor entered at an address that is registered.
    fn update_incoming(
        &mut self,
        handle: ClientHandle,
        addr: SocketAddr,
        pos: Position,
        fingerprint: String,
        out: &mut Vec<Effect>,
    )
        requires
            old(self).wf(),
            old(self)@.has_free_trigger(),
            incoming_of(old(self)@.incoming, addr) == Some(handle),
            old(self)@.incoming.dom().contains(handle),
        ensures
            final(self).wf(),
            did(
                old(out)@,
                final(out)@,
                final(self)@,
                old(self)@.device_entered(addr, pos, fingerprint@),
            ),
    {
        let ghost o = self@.device_entered(addr, pos, fingerprint@);
        let same_as_before = match self.incoming.get(&handle) {
            Some(incoming) => incoming.pos == pos && same(
                incoming.fingerprint.as_str(),
                fingerprint.as_str(),
            ),
            None => true,
        };
        if !same_as_before {
            self.remove_incoming(addr, out);
            self.add_incoming(addr, pos, fingerprint.clone(), out);
            Service::notify_frontend(FrontendEvent::IncomingDisconnected(addr), out);
            Service::notify_frontend(FrontendEvent::DeviceEntered { fingerprint, addr, pos }, out);
        }
        assert(self@ =~= o.service);
        assert(effects(out@) =~= effects(old(out)@) + o.effects);
    }

    /// Handles that a peer's cursor entered.
    fn handle_entered(
        &mut self,
        addr: SocketAddr,
        pos: Position,
        fingerprint: String,
        out: &mut Vec<Effect>,
    )
        requires
            old(self).wf(),
            old(self)@.has_free_trigger(),
        ensures
            final(self).wf(),
            did(
                old(out)@,
                final(out)@,
                final(self)@,
                old(self)@.device_entered(addr, pos, fingerprint@),
            ),
    {
        let ghost o = self@.device_entered(addr, pos, fingerprint@);
        match self.find_incoming(addr) {
            Some(handle) => self.update_incoming(handle, addr, pos, fingerprint, out),
            None => {
                self.add_incoming(addr, pos, fingerprint.clone(), out);
                Service::notify_frontend(
                    FrontendEvent::DeviceEntered { fingerprint, addr, pos },
                    out,
                );
                assert(effects(out@) =~= effects(old(out)@) + o.effects);
            },
        }
    }

    /// Handles that a peer told its build: notes it for the client that the
    /// peer is.
    fn handle_hello(
        &mut self,
        addr: SocketAddr,
        fingerprint: Option<String>,
        commit: [u8; 8],
        out: &mut Vec<Effect>,
    )
        requires
            old(self).wf(),
        ensures
            final(self).wf(),
            did(
                old(out)@,
                final(out)@,
                final(self)@,
                old(self)@.hello(addr, opt_text(fingerprint), commit),
            ),
    {
        let ghost o = self@.hello(addr, opt_text(fingerprint), commit);
        let by_fingerprint = match &fingerprint {
            Some(fp) => self.clients.get_client_by_peer_fingerprint(fp.as_str()),
            None => None,
        };
        let handle = match by_fingerprint {
            Some(handle) => Some(handle),
            None => self.clients.get_client(addr.ip),
        };
        assert(handle == self@.client_of_peer(addr, opt_text(fingerprint)));
        if let Some(handle) = handle {
            self.clients.set_peer_commit(handle, Some(commit));
            self.broadcast_client(handle, out);
        }
        assert(self@ =~= o.service);
        assert(effects(out@) =~= effects(old(out)@) + o.effects);
    }

    /// Handles an event on the side that emulates input. The addresses of
    /// peers that entered or connected become candidates for dialing.
    #[verifier::spinoff_prover]
    #[verifier::rlimit(60)]
    pub fn handle_emulation_event(
        &mut self,
        event: EmulationEvent,
        cache: &mut FingerprintCache,
        out: &mut Vec<Effect>,
    )
        requires
            old(self).wf(),
            old(cache).wf(),
            event is Entered ==> old(self)@.has_free_trigger(),
        ensures
            final(self).wf(),
            final(cache).wf(),
            final(cache)@ == event@.candidates(old(cache)@),
            old(cache).clean() ==> final(cache).clean(),
            did(old(out)@, final(out)@, final(self)@, old(self)@.emulated(event@)),
    {
        let ghost o = self@.emulated(event@);
        match event {
            EmulationEvent::ConnectionAttempt { fingerprint } => {
                Service::notify_frontend(FrontendEvent::ConnectionAttempt { fingerprint }, out);
            },
            EmulationEvent::Entered { addr, pos, fingerprint } => {
                insert_fingerprint_candidate(cache, fingerprint.as_str(), addr.ip);
                self.handle_entered(addr, pos, fingerprint, out);
            },
            EmulationEvent::Disconnected { addr } => {
                if self.remove_incoming(addr, out) {
                    Service::notify_frontend(FrontendEvent::IncomingDisconnected(addr), out);
                }
            },
            EmulationEvent::PortChanged(Ok(port)) => {
                self.port = port;
                emit(out, Effect::DiscoveryPort(port));
                Service::notify_frontend(FrontendEvent::PortChanged(port, None), out);
            },
            EmulationEvent::PortChanged(Err(e)) => {
                Service::notify_frontend(FrontendEvent::PortChanged(self.port, Some(e)), out);
            },
            EmulationEvent::EmulationDisabled => {
                self.emulation_status = Status::Disabled;
                Service::notify_frontend(FrontendEvent::EmulationStatus(Status::Disabled), out);
            },
            EmulationEvent::EmulationEnabled => {
                self.emulation_status = Status::Enabled;
                Service::notify_frontend(FrontendEvent::EmulationStatus(Status::Enabled), out);
            },
            EmulationEvent::ReleaseNotify => emit(out, Effect::CaptureRelease),
            EmulationEvent::Connected { addr, fingerprint } => {
                insert_fingerprint_candidate(cache, fingerprint.as_str(), addr.ip);
                Service::notify_frontend(FrontendEvent::DeviceConnected { addr, fingerprint }, out);
            },
            EmulationEvent::PeerHello { addr, fingerprint, commit } => {
                self.handle_hello(addr, fingerprint, commit, out);
            },
        }
        assert(self@ =~= o.service);
        assert(effects(out@) =~= effects(old(out)@) + o.effects);
    }
}

} // verus!
