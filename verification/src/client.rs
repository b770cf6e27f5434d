//! The clients that input can be sent to.
use crate::collections::{keys_of, lemma_entry, lemma_key, AssocMap};
use crate::discovery::{normalize_fingerprint, normalized_fingerprint};
use crate::ipc::{
    actions_view, copy_actions, default_config, default_state, infos_view, ActionView,
    ClientAction, ClientConfig, ClientHandle, ClientInfo, ClientState, ConfigView, InfoView,
    Position, StateView,
};
use crate::net::{lemma_listed, listed_ascending, IpAddr, IpSet, SocketAddr};
use crate::text::{opt_text, same, same_option};
use vstd::prelude::*;

verus! {

/// The handles below this one are those of clients.
pub const CLIENT_HANDLE_END: u64 = 0x8000_0000_0000_0000;

/// A client in the configuration file.
pub struct ConfigClient {
    pub ips: IpSet,
    pub hostname: Option<String>,
    pub peer_fingerprint: Option<String>,
    pub port: u16,
    pub pos: Position,
    pub active: bool,
    pub enter_hook: Option<String>,
    pub leave_hook: Option<String>,
    pub actions: Vec<ClientAction>,
}

/// A client in the configuration file, in mathematical terms.
#[verifier::ext_equal]
pub struct ConfigClientView {
    pub ips: Set<IpAddr>,
    pub hostname: Option<Seq<char>>,
    pub peer_fingerprint: Option<Seq<char>>,
    pub port: u16,
    pub pos: Position,
    pub active: bool,
    pub enter_hook: Option<Seq<char>>,
    pub leave_hook: Option<Seq<char>>,
    pub actions: Seq<ActionView>,
}

impl View for ConfigClient {
    type V = ConfigClientView;

    open spec fn view(&self) -> ConfigClientView {
        ConfigClientView {
            ips: self.ips@,
            hostname: opt_text(self.hostname),
            peer_fingerprint: opt_text(self.peer_fingerprint),
            port: self.port,
            pos: self.pos,
            active: self.active,
            enter_hook: opt_text(self.enter_hook),
            leave_hook: opt_text(self.leave_hook),
            actions: actions_view(self.actions@),
        }
    }
}

impl ConfigClient {
    /// Whether the set of addresses is in order.
    pub open spec fn wf(&self) -> bool {
        self.ips.wf()
    }

    /// An equal client.
    pub fn copy(&self) -> (c: ConfigClient)
        requires
            self.wf(),
        ensures
            c.wf(),
            c@ == self@,
    {
        ConfigClient {
            ips: self.ips.copy(),
            hostname: self.hostname.clone(),
            peer_fingerprint: self.peer_fingerprint.clone(),
            port: self.port,
            pos: self.pos,
            active: self.active,
            enter_hook: self.enter_hook.clone(),
            leave_hook: self.leave_hook.clone(),
            actions: copy_actions(&self.actions),
        }
    }
}

/// A client.
pub struct Client {
    pub config: ClientConfig,
    pub state: ClientState,
}

/// A client, in mathematical terms.
#[verifier::ext_equal]
pub struct ClientView {
    pub config: ConfigView,
    pub state: StateView,
}

impl View for Client {
    type V = ClientView;

    open spec fn view(&self) -> ClientView {
        ClientView { config: self.config@, state: self.state@ }
    }
}

impl ClientView {
    /// Whether the client's addresses are those that were given to it and
    /// those that its host's name was resolved to.
    pub open spec fn addresses_agree(self) -> bool {
        self.state.ips == self.config.fix_ips.to_set().union(self.state.dns_ips.to_set())
    }
}

impl Client {
    /// Whether the set of addresses is in order, and agrees with the lists.
    pub open spec fn wf(&self) -> bool {
        self.state.ips.wf() && self@.addresses_agree()
    }
}

/// The clients, in mathematical terms.
#[verifier::ext_equal]
pub struct ManagerView {
    /// The clients by their handles.
    pub clients: Map<u64, ClientView>,
    /// The handles in the order in which the clients came.
    pub order: Seq<u64>,
    /// The handle of the next client.
    pub next: u64,
}

/// Whether a handle is another one.
pub open spec fn other_than(handle: u64) -> spec_fn(u64) -> bool {
    |h: u64| h != handle
}

impl ManagerView {
    /// Whether there is a client of the handle.
    pub open spec fn has(self, handle: u64) -> bool {
        self.clients.dom().contains(handle)
    }

    /// The clients with that of the handle replaced.
    pub open spec fn with(self, handle: u64, client: ClientView) -> ManagerView {
        ManagerView { clients: self.clients.insert(handle, client), ..self }
    }

    /// The clients with the configuration of one replaced, where it exists.
    pub open spec fn with_config(self, handle: u64, config: ConfigView) -> ManagerView {
        if self.has(handle) {
            self.with(handle, ClientView { config, ..self.clients[handle] })
        } else {
            self
        }
    }

    /// The clients with the state of one replaced, where it exists.
    pub open spec fn with_state(self, handle: u64, state: StateView) -> ManagerView {
        if self.has(handle) {
            self.with(handle, ClientView { state, ..self.clients[handle] })
        } else {
            self
        }
    }

    /// Whether the client of the handle is active at the position.
    pub open spec fn active_at(self, handle: u64, pos: Position) -> bool {
        self.has(handle) && self.clients[handle].state.active && self.clients[handle].config.pos
            == pos
    }

    /// Whether at most one client is active at each position.
    pub open spec fn one_per_position(self) -> bool {
        forall|a: u64, b: u64, pos: Position|
            #[trigger] self.active_at(a, pos) && #[trigger] self.active_at(b, pos) ==> a == b
    }

    /// A client as frontends are told of it.
    pub open spec fn info(self, handle: u64) -> InfoView {
        InfoView {
            handle,
            config: self.clients[handle].config,
            state: self.clients[handle].state,
        }
    }

    /// All clients as frontends are told of them.
    pub open spec fn infos(self) -> Seq<InfoView> {
        self.order.map_values(|h: u64| self.info(h))
    }

    /// A client as it stands in the configuration file.
    pub open spec fn saved(self, handle: u64) -> ConfigClientView {
        let c = self.clients[handle];
        ConfigClientView {
            ips: c.config.fix_ips.to_set(),
            hostname: c.config.hostname,
            peer_fingerprint: c.config.peer_fingerprint,
            port: c.config.port,
            pos: c.config.pos,
            active: c.state.active,
            enter_hook: c.config.cmd,
            leave_hook: c.config.cmd_leave,
            actions: c.config.actions,
        }
    }

    /// All clients as they stand in the configuration file.
    pub open spec fn all_saved(self) -> Seq<ConfigClientView> {
        self.order.map_values(|h: u64| self.saved(h))
    }

    /// The clients with one more, which gets the next handle.
    pub open spec fn added(self, client: ClientView) -> ManagerView {
        ManagerView {
            clients: self.clients.insert(self.next, client),
            order: self.order.push(self.next),
            next: (self.next + 1) as u64,
        }
    }

    /// The clients without one.
    pub open spec fn removed(self, handle: u64) -> ManagerView {
        ManagerView {
            clients: self.clients.remove(handle),
            order: self.order.filter(other_than(handle)),
            ..self
        }
    }

    /// The client that is active at the position; the first, if there are
    /// several.
    pub open spec fn first_at(self, pos: Position, from: int) -> Option<u64>
        decreases self.order.len() - from,
    {
        if from < 0 || from >= self.order.len() {
            None
        } else if self.active_at(self.order[from], pos) {
            Some(self.order[from])
        } else {
            self.first_at(pos, from + 1)
        }
    }

    /// The client that is active at the position.
    pub open spec fn at(self, pos: Position) -> Option<u64> {
        self.first_at(pos, 0)
    }
}

/// Whether a client is the one that a peer of the normalised fingerprint is.
pub open spec fn is_of_fingerprint(c: ClientView, fingerprint: Seq<char>) -> bool {
    c.config.peer_fingerprint matches Some(fp) && normalized_fingerprint(fp) == fingerprint
}

/// The clients.
pub struct ClientManager {
    pub map: AssocMap<u64, Client>,
    pub next: u64,
}

impl View for ClientManager {
    type V = ManagerView;

    open spec fn view(&self) -> ManagerView {
        ManagerView {
            clients: self.map@.map_values(|c: Client| c@),
            order: self.map.keys(),
            next: self.next,
        }
    }
}

impl ClientManager {
    /// Whether the map and the clients are in order, and the next handle is a
    /// free one.
    pub open spec fn wf(&self) -> bool {
        &&& self.map.wf()
        &&& self.next <= CLIENT_HANDLE_END
        &&& forall|h: u64|
            #![trigger self.map@[h]]
            self.map@.dom().contains(h) ==> self.map@[h].wf() && h < self.next
    }

    /// No clients.
    pub fn new() -> (m: ClientManager)
        ensures
            m.wf(),
            m@ == (ManagerView { clients: Map::empty(), order: seq![], next: 0 }),
    {
        let m = ClientManager { map: AssocMap::new(), next: 0 };
        assert(m@.clients =~= Map::<u64, ClientView>::empty());
        assert(m@.order =~= Seq::<u64>::empty());
        m
    }

    /// A client.
    fn client(&self, handle: ClientHandle) -> (r: Option<&Client>)
        requires
            self.wf(),
        ensures
            match r {
                Some(c) => self@.has(handle) && c@ == self@.clients[handle] && c.wf(),
                None => !self@.has(handle),
            },
    {
        self.map.get(&handle)
    }

    /// A client, to be changed in place.
    fn client_mut(&mut self, handle: ClientHandle) -> (r: Option<&mut Client>)
        requires
            old(self).wf(),
        ensures
            match r {
                Some(c) => {
                    &&& old(self)@.has(handle)
                    &&& c@ == old(self)@.clients[handle]
                    &&& c.wf()
                    &&& final(self)@ == old(self)@.with(handle, final(c)@)
                    &&& final(c).wf() ==> final(self).wf()
                },
                None => !old(self)@.has(handle) && final(self)@ == old(self)@ && final(self).wf(),
            },
    {
        let ghost before = self.map@;
        let ghost order = self.map.keys();
        match self.map.get_mut(&handle) {
            Some(c) => {
                proof {
                    let after = before.insert(handle, *final(c));
                    assert(after.map_values(|c: Client| c@) =~= before.map_values(
                        |c: Client| c@,
                    ).insert(handle, final(c)@));
                    assert forall|h: u64|
                        #![trigger after[h]]
                        final(c).wf() && after.dom().contains(h) implies after[h].wf() && h
                        < self.next by {
                        if h != handle {
                            assert(before[h].wf());
                        } else {
                            assert(before[handle].wf());
                        }
                    }
                }
                Some(c)
            },
            None => None,
        }
    }

    /// Adds a client under the next handle.
    fn add(&mut self, client: Client) -> (handle: ClientHandle)
        requires
            old(self).wf(),
            client.wf(),
            old(self)@.next < CLIENT_HANDLE_END,
        ensures
            final(self).wf(),
            handle == old(self)@.next,
            !old(self)@.has(handle),
            final(self)@ == old(self)@.added(client@),
    {
        let ghost before = self.map@;
        let ghost c = client;
        let handle: ClientHandle = self.next;
        proof {
            if before.dom().contains(handle) {
                assert(before[handle].wf());
            }
        }
        self.map.insert(handle, client);
        self.next = handle + 1;
        proof {
            assert(self.map@.map_values(|c: Client| c@) =~= before.map_values(
                |c: Client| c@,
            ).insert(handle, c@));
            assert forall|h: u64|
                #![trigger self.map@[h]]
                self.map@.dom().contains(h) implies self.map@[h].wf() && h < self.next by {
                if h != handle {
                    assert(before[h].wf());
                }
            }
        }
        handle
    }

    /// Adds a client that nothing is known of, and returns its handle.
    pub fn add_client(&mut self) -> (handle: ClientHandle)
        requires
            old(self).wf(),
            old(self)@.next < CLIENT_HANDLE_END,
        ensures
            final(self).wf(),
            handle == old(self)@.next,
            !old(self)@.has(handle),
            final(self)@ == old(self)@.added(
                ClientView { config: default_config(), state: default_state() },
            ),
    {
        let client = Client { config: ClientConfig::new(), state: ClientState::new() };
        assert(client@.config.fix_ips.to_set().union(client@.state.dns_ips.to_set()) =~= Set::<
            IpAddr,
        >::empty());
        self.add(client)
    }

    /// Adds a client of the configuration file, and returns its handle.
    pub fn add_with_config(&mut self, c: ConfigClient) -> (handle: ClientHandle)
        requires
            old(self).wf(),
            c.wf(),
            old(self)@.next < CLIENT_HANDLE_END,
        ensures
            final(self).wf(),
            handle == old(self)@.next,
            !old(self)@.has(handle),
            final(self)@ == old(self)@.added(client_of(c@)),
    {
        proof {
            lemma_listed(c.ips.ips@);
        }
        let ips = c.ips.copy();
        let mut state = ClientState::new();
        state.active = c.active;
        state.ips = ips;
        let config = ClientConfig {
            hostname: c.hostname,
            peer_fingerprint: c.peer_fingerprint,
            fix_ips: c.ips.ips,
            port: c.port,
            pos: c.pos,
            cmd: c.enter_hook,
            cmd_leave: c.leave_hook,
            actions: c.actions,
        };
        let client = Client { config, state };
        assert(client@.config.fix_ips.to_set().union(client@.state.dns_ips.to_set())
            =~= client@.config.fix_ips.to_set());
        self.add(client)
    }

    /// Removes a client, and returns whether it was active.
    pub fn remove_client(&mut self, handle: ClientHandle) -> (was_active: bool)
        requires
            old(self).wf(),
        ensures
            final(self).wf(),
            was_active == (old(self)@.has(handle) && old(self)@.clients[handle].state.active),
            final(self)@ == old(self)@.removed(handle),
    {
        let ghost before = self.map@;
        let r = self.map.remove(&handle);
        proof {
            assert(self.map@.map_values(|c: Client| c@) =~= before.map_values(
                |c: Client| c@,
            ).remove(handle));
            assert forall|h: u64|
                #![trigger self.map@[h]]
                self.map@.dom().contains(h) implies self.map@[h].wf() && h < self.next by {
                assert(before[h].wf());
            }
        }
        match r {
            Some(c) => c.state.active,
            None => false,
        }
    }

    /// Activates a client, and returns whether that is a change.
    pub fn activate_client(&mut self, handle: ClientHandle) -> (changed: bool)
        requires
            old(self).wf(),
        ensures
            final(self).wf(),
            changed == (old(self)@.has(handle) && !old(self)@.clients[handle].state.active),
            final(self)@ == old(self)@.with_state(
                handle,
                StateView { active: true, ..old(self)@.clients[handle].state },
            ),
    {
        match self.client_mut(handle) {
            Some(c) => {
                let changed = !c.state.active;
                c.state.active = true;
                changed
            },
            None => false,
        }
    }

    /// Deactivates a client, and returns whether that is a change.
    pub fn deactivate_client(&mut self, handle: ClientHandle) -> (changed: bool)
        requires
            old(self).wf(),
        ensures
            final(self).wf(),
            changed == (old(self)@.has(handle) && old(self)@.clients[handle].state.active),
            final(self)@ == old(self)@.with_state(
                handle,
                StateView { active: false, ..old(self)@.clients[handle].state },
            ),
    {
        match self.client_mut(handle) {
            Some(c) => {
                let changed = c.state.active;
                c.state.active = false;
                changed
            },
            None => false,
        }
    }
}

/// What a client of the configuration file is at first.
pub open spec fn client_of(c: ConfigClientView) -> ClientView {
    ClientView {
        config: ConfigView {
            hostname: c.hostname,
            peer_fingerprint: c.peer_fingerprint,
            fix_ips: listed_ascending(c.ips),
            port: c.port,
            pos: c.pos,
            cmd: c.enter_hook,
            cmd_leave: c.leave_hook,
            actions: c.actions,
        },
        state: StateView { active: c.active, ips: c.ips, ..default_state() },
    }
}

impl ClientManager {
    /// Sets the address at which a client is connected.
    pub fn set_active_addr(&mut self, handle: ClientHandle, addr: Option<SocketAddr>)
        requires
            old(self).wf(),
        ensures
            final(self).wf(),
            final(self)@ == old(self)@.with_state(
                handle,
                StateView { active_addr: addr, ..old(self)@.clients[handle].state },
            ),
    {
        if let Some(c) = self.client_mut(handle) {
            c.state.active_addr = addr;
        }
    }

    /// Sets whether a client answers, and can emulate input.
    pub fn set_alive(&mut self, handle: ClientHandle, alive: bool)
        requires
            old(self).wf(),
        ensures
            final(self).wf(),
            final(self)@ == old(self)@.with_state(
                handle,
                StateView { alive, ..old(self)@.clients[handle].state },
            ),
    {
        if let Some(c) = self.client_mut(handle) {
            c.state.alive = alive;
        }
    }

    /// Sets the build of a client.
    pub fn set_peer_commit(&mut self, handle: ClientHandle, commit: Option<[u8; 8]>)
        requires
            old(self).wf(),
        ensures
            final(self).wf(),
            final(self)@ == old(self)@.with_state(
                handle,
                StateView { peer_commit: commit, ..old(self)@.clients[handle].state },
            ),
    {
        if let Some(c) = self.client_mut(handle) {
            c.state.peer_commit = commit;
        }
    }

    /// Sets whether the name of a client's host is being resolved.
    pub fn set_resolving(&mut self, handle: ClientHandle, resolving: bool)
        requires
            old(self).wf(),
        ensures
            final(self).wf(),
            final(self)@ == old(self)@.with_state(
                handle,
                StateView { resolving, ..old(self)@.clients[handle].state },
            ),
    {
        if let Some(c) = self.client_mut(handle) {
            c.state.resolving = resolving;
        }
    }

    /// Sets the port on which a client listens.
    pub fn set_port(&mut self, handle: ClientHandle, port: u16)
        requires
            old(self).wf(),
        ensures
            final(self).wf(),
            final(self)@ == old(self)@.with_config(
                handle,
                ConfigView { port, ..old(self)@.clients[handle].config },
            ),
    {
        if let Some(c) = self.client_mut(handle) {
            c.config.port = port;
        }
    }

    /// Sets the fingerprint of a client's certificate.
    pub fn set_peer_fingerprint(&mut self, handle: ClientHandle, fingerprint: Option<String>)
        requires
            old(self).wf(),
        ensures
            final(self).wf(),
            final(self)@ == old(self)@.with_config(
                handle,
                ConfigView { peer_fingerprint: opt_text(fingerprint), ..old(self)@.clients[handle].config },
            ),
    {
        if let Some(c) = self.client_mut(handle) {
            c.config.peer_fingerprint = fingerprint;
        }
    }

    /// Sets the command that is run when a client is entered.
    pub fn set_enter_hook(&mut self, handle: ClientHandle, cmd: Option<String>)
        requires
            old(self).wf(),
        ensures
            final(self).wf(),
            final(self)@ == old(self)@.with_config(
                handle,
                ConfigView { cmd: opt_text(cmd), ..old(self)@.clients[handle].config },
            ),
    {
        if let Some(c) = self.client_mut(handle) {
            c.config.cmd = cmd;
        }
    }

    /// Sets the command that is run when a client is left.
    pub fn set_leave_hook(&mut self, handle: ClientHandle, cmd: Option<String>)
        requires
            old(self).wf(),
        ensures
            final(self).wf(),
            final(self)@ == old(self)@.with_config(
                handle,
                ConfigView { cmd_leave: opt_text(cmd), ..old(self)@.clients[handle].config },
            ),
    {
        if let Some(c) = self.client_mut(handle) {
            c.config.cmd_leave = cmd;
        }
    }

    /// Sets the actions of a client.
    pub fn set_actions(&mut self, handle: ClientHandle, actions: Vec<ClientAction>)
        requires
            old(self).wf(),
        ensures
            final(self).wf(),
            final(self)@ == old(self)@.with_config(
                handle,
                ConfigView { actions: actions_view(actions@), ..old(self)@.clients[handle].config },
            ),
    {
        if let Some(c) = self.client_mut(handle) {
            c.config.actions = actions;
        }
    }

    /// Sets the addresses that are given to a client.
    pub fn set_fix_ips(&mut self, handle: ClientHandle, fix_ips: Vec<IpAddr>)
        requires
            old(self).wf(),
        ensures
            final(self).wf(),
            final(self)@ == if old(self)@.has(handle) {
                let c = old(self)@.clients[handle];
                old(self)@.with(
                    handle,
                    ClientView {
                        config: ConfigView { fix_ips: fix_ips@, ..c.config },
                        state: StateView {
                            ips: fix_ips@.to_set().union(c.state.dns_ips.to_set()),
                            ..c.state
                        },
                    },
                )
            } else {
                old(self)@
            },
    {
        if let Some(c) = self.client_mut(handle) {
            let mut ips = IpSet::new();
            ips.extend_from(&fix_ips);
            ips.extend_from(&c.state.dns_ips);
            assert(ips@ =~= fix_ips@.to_set().union(c.state.dns_ips@.to_set()));
            c.config.fix_ips = fix_ips;
            c.state.ips = ips;
        }
    }

    /// Sets the addresses that the name of a client's host was resolved to.
    pub fn set_dns_ips(&mut self, handle: ClientHandle, dns_ips: Vec<IpAddr>)
        requires
            old(self).wf(),
        ensures
            final(self).wf(),
            final(self)@ == if old(self)@.has(handle) {
                let c = old(self)@.clients[handle];
                old(self)@.with_state(
                    handle,
                    StateView {
                        dns_ips: dns_ips@,
                        ips: c.config.fix_ips.to_set().union(dns_ips@.to_set()),
                        ..c.state
                    },
                )
            } else {
                old(self)@
            },
    {
        if let Some(c) = self.client_mut(handle) {
            let mut ips = IpSet::new();
            ips.extend_from(&c.config.fix_ips);
            ips.extend_from(&dns_ips);
            assert(ips@ =~= c.config.fix_ips@.to_set().union(dns_ips@.to_set()));
            c.state.dns_ips = dns_ips;
            c.state.ips = ips;
        }
    }

    /// Sets the name of a client's host, and returns whether that is a change.
    pub fn set_hostname(&mut self, handle: ClientHandle, hostname: Option<String>) -> (changed: bool)
        requires
            old(self).wf(),
        ensures
            final(self).wf(),
            changed == (old(self)@.has(handle) && old(self)@.clients[handle].config.hostname
                != opt_text(hostname)),
            final(self)@ == old(self)@.with_config(
                handle,
                ConfigView { hostname: opt_text(hostname), ..old(self)@.clients[handle].config },
            ),
    {
        match self.client_mut(handle) {
            Some(c) => {
                let changed = !same_option(&c.config.hostname, &hostname);
                c.config.hostname = hostname;
                changed
            },
            None => false,
        }
    }

    /// Sets the position of a client, and returns whether its capture has to
    /// move: the position changed, and the client is active.
    pub fn set_pos(&mut self, handle: ClientHandle, pos: Position) -> (moved: bool)
        requires
            old(self).wf(),
        ensures
            final(self).wf(),
            moved == (old(self)@.has(handle) && old(self)@.clients[handle].config.pos != pos
                && old(self)@.clients[handle].state.active),
            final(self)@ == old(self)@.with_config(
                handle,
                ConfigView { pos, ..old(self)@.clients[handle].config },
            ),
    {
        match self.client_mut(handle) {
            Some(c) => {
                let moved = c.config.pos != pos && c.state.active;
                c.config.pos = pos;
                moved
            },
            None => false,
        }
    }

    /// The position of a client.
    pub fn get_pos(&self, handle: ClientHandle) -> (r: Option<Position>)
        requires
            self.wf(),
        ensures
            r == if self@.has(handle) {
                Some(self@.clients[handle].config.pos)
            } else {
                None
            },
    {
        match self.client(handle) {
            Some(c) => Some(c.config.pos),
            None => None,
        }
    }

    /// The port of a client.
    pub fn get_port(&self, handle: ClientHandle) -> (r: Option<u16>)
        requires
            self.wf(),
        ensures
            r == if self@.has(handle) {
                Some(self@.clients[handle].config.port)
            } else {
                None
            },
    {
        match self.client(handle) {
            Some(c) => Some(c.config.port),
            None => None,
        }
    }

    /// The addresses of a client.
    pub fn get_ips(&self, handle: ClientHandle) -> (r: Option<IpSet>)
        requires
            self.wf(),
        ensures
            match r {
                Some(ips) => self@.has(handle) && ips.wf() && ips@
                    == self@.clients[handle].state.ips,
                None => !self@.has(handle),
            },
    {
        match self.client(handle) {
            Some(c) => Some(c.state.ips.copy()),
            None => None,
        }
    }

    /// The address at which a client is connected.
    pub fn active_addr(&self, handle: ClientHandle) -> (r: Option<SocketAddr>)
        requires
            self.wf(),
        ensures
            r == if self@.has(handle) {
                self@.clients[handle].state.active_addr
            } else {
                None
            },
    {
        match self.client(handle) {
            Some(c) => c.state.active_addr,
            None => None,
        }
    }

    /// Whether a client is to be reached over the edge of the screen.
    pub fn is_active(&self, handle: ClientHandle) -> (r: bool)
        requires
            self.wf(),
        ensures
            r == (self@.has(handle) && self@.clients[handle].state.active),
    {
        match self.client(handle) {
            Some(c) => c.state.active,
            None => false,
        }
    }

    /// Whether a client answers, and can emulate input.
    pub fn alive(&self, handle: ClientHandle) -> (r: bool)
        requires
            self.wf(),
        ensures
            r == (self@.has(handle) && self@.clients[handle].state.alive),
    {
        match self.client(handle) {
            Some(c) => c.state.alive,
            None => false,
        }
    }

    /// The name of a client's host.
    pub fn get_hostname(&self, handle: ClientHandle) -> (r: Option<String>)
        requires
            self.wf(),
        ensures
            opt_text(r) == if self@.has(handle) {
                self@.clients[handle].config.hostname
            } else {
                None
            },
    {
        match self.client(handle) {
            Some(c) => c.config.hostname.clone(),
            None => None,
        }
    }

    /// The fingerprint of a client's certificate.
    pub fn get_peer_fingerprint(&self, handle: ClientHandle) -> (r: Option<String>)
        requires
            self.wf(),
        ensures
            opt_text(r) == if self@.has(handle) {
                self@.clients[handle].config.peer_fingerprint
            } else {
                None
            },
    {
        match self.client(handle) {
            Some(c) => c.config.peer_fingerprint.clone(),
            None => None,
        }
    }

    /// The command that is run when a client is entered.
    pub fn get_enter_cmd(&self, handle: ClientHandle) -> (r: Option<String>)
        requires
            self.wf(),
        ensures
            opt_text(r) == if self@.has(handle) {
                self@.clients[handle].config.cmd
            } else {
                None
            },
    {
        match self.client(handle) {
            Some(c) => c.config.cmd.clone(),
            None => None,
        }
    }

    /// The command that is run when a client is left.
    pub fn get_leave_cmd(&self, handle: ClientHandle) -> (r: Option<String>)
        requires
            self.wf(),
        ensures
            opt_text(r) == if self@.has(handle) {
                self@.clients[handle].config.cmd_leave
            } else {
                None
            },
    {
        match self.client(handle) {
            Some(c) => c.config.cmd_leave.clone(),
            None => None,
        }
    }

    /// The actions of a client.
    pub fn get_actions(&self, handle: ClientHandle) -> (r: Vec<ClientAction>)
        requires
            self.wf(),
        ensures
            actions_view(r@) == if self@.has(handle) {
                self@.clients[handle].config.actions
            } else {
                seq![]
            },
    {
        match self.client(handle) {
            Some(c) => copy_actions(&c.config.actions),
            None => {
                let r: Vec<ClientAction> = Vec::new();
                assert(actions_view(r@) =~= Seq::<ActionView>::empty());
                r
            },
        }
    }

    /// A client as frontends are told of it.
    pub fn get_state(&self, handle: ClientHandle) -> (r: Option<ClientInfo>)
        requires
            self.wf(),
        ensures
            match r {
                Some(info) => self@.has(handle) && info@ == self@.info(handle),
                None => !self@.has(handle),
            },
    {
        match self.client(handle) {
            Some(c) => Some(
                ClientInfo { handle, config: c.config.copy(), state: c.state.copy() },
            ),
            None => None,
        }
    }

    /// All clients as frontends are told of them.
    pub fn get_client_states(&self) -> (r: Vec<ClientInfo>)
        requires
            self.wf(),
        ensures
            infos_view(r@) == self@.infos(),
    {
        let mut r: Vec<ClientInfo> = Vec::new();
        let mut i: usize = 0;
        while i < self.map.entries.len()
            invariant
                self.wf(),
                i <= self.map.entries@.len(),
                r@.len() == i,
                forall|j: int| 0 <= j < i ==> (#[trigger] r@[j])@ == self@.info(self@.order[j]),
            decreases self.map.entries@.len() - i,
        {
            let (handle, c) = &self.map.entries[i];
            proof {
                lemma_entry(self.map.entries@, i as int);
                assert(self.map@[*handle].wf());
            }
            r.push(
                ClientInfo { handle: *handle, config: c.config.copy(), state: c.state.copy() },
            );
            i = i + 1;
        }
        assert(infos_view(r@) =~= self@.infos());
        r
    }

    /// All clients as they stand in the configuration file.
    pub fn saved_clients(&self) -> (r: Vec<ConfigClient>)
        requires
            self.wf(),
        ensures
            r@.map_values(|c: ConfigClient| c@) == self@.all_saved(),
            forall|i: int| 0 <= i < r@.len() ==> (#[trigger] r@[i]).wf(),
    {
        let mut r: Vec<ConfigClient> = Vec::new();
        let mut i: usize = 0;
        while i < self.map.entries.len()
            invariant
                self.wf(),
                i <= self.map.entries@.len(),
                r@.len() == i,
                forall|j: int| 0 <= j < i ==> (#[trigger] r@[j])@ == self@.saved(self@.order[j]),
                forall|j: int| 0 <= j < i ==> (#[trigger] r@[j]).wf(),
            decreases self.map.entries@.len() - i,
        {
            let (handle, c) = &self.map.entries[i];
            proof {
                lemma_entry(self.map.entries@, i as int);
                assert(self.map@[*handle].wf());
            }
            let mut ips = IpSet::new();
            ips.extend_from(&c.config.fix_ips);
            assert(ips@ =~= c.config.fix_ips@.to_set());
            let config = c.config.copy();
            r.push(
                ConfigClient {
                    ips,
                    hostname: config.hostname,
                    peer_fingerprint: config.peer_fingerprint,
                    port: config.port,
                    pos: config.pos,
                    active: c.state.active,
                    enter_hook: config.cmd,
                    leave_hook: config.cmd_leave,
                    actions: config.actions,
                },
            );
            i = i + 1;
        }
        assert(r@.map_values(|c: ConfigClient| c@) =~= self@.all_saved());
        r
    }

    /// The handles of all clients.
    pub fn registered_clients(&self) -> (r: Vec<ClientHandle>)
        requires
            self.wf(),
        ensures
            r@ == self@.order,
    {
        let mut r: Vec<ClientHandle> = Vec::new();
        let mut i: usize = 0;
        while i < self.map.entries.len()
            invariant
                i <= self.map.entries@.len(),
                r@.len() == i,
                forall|j: int| 0 <= j < i ==> #[trigger] r@[j] == self@.order[j],
            decreases self.map.entries@.len() - i,
        {
            r.push(self.map.entries[i].0);
            i = i + 1;
        }
        assert(r@ =~= self@.order);
        r
    }

    /// The handles of the active clients.
    pub fn active_clients(&self) -> (r: Vec<ClientHandle>)
        requires
            self.wf(),
        ensures
            r@ == self@.order.filter(|h: u64| self@.clients[h].state.active),
    {
        let ghost pred = |h: u64| self@.clients[h].state.active;
        let ghost order = self@.order;
        let mut r: Vec<ClientHandle> = Vec::new();
        let mut i: usize = 0;
        proof {
            reveal(Seq::filter);
            assert(order.take(0).filter(pred) =~= Seq::<u64>::empty());
        }
        while i < self.map.entries.len()
            invariant
                self.wf(),
                order == self@.order,
                pred == (|h: u64| self@.clients[h].state.active),
                i <= self.map.entries@.len(),
                r@ == order.take(i as int).filter(pred),
            decreases self.map.entries@.len() - i,
        {
            let (handle, c) = &self.map.entries[i];
            proof {
                lemma_entry(self.map.entries@, i as int);
                reveal(Seq::filter);
                assert(order.take(i + 1).drop_last() =~= order.take(i as int));
                assert(order.take(i + 1).last() == *handle);
            }
            if c.state.active {
                r.push(*handle);
            }
            i = i + 1;
        }
        assert(order.take(order.len() as int) =~= order);
        r
    }

    /// The client that is active at the position.
    pub fn client_at(&self, pos: Position) -> (r: Option<ClientHandle>)
        requires
            self.wf(),
        ensures
            r == self@.at(pos),
    {
        let mut i: usize = 0;
        while i < self.map.entries.len()
            invariant
                self.wf(),
                i <= self.map.entries@.len(),
                self@.at(pos) == self@.first_at(pos, i as int),
            decreases self.map.entries@.len() - i,
        {
            let (handle, c) = &self.map.entries[i];
            proof {
                lemma_entry(self.map.entries@, i as int);
                assert(self@.order[i as int] == *handle);
            }
            if c.state.active && c.config.pos == pos {
                return Some(*handle);
            }
            i = i + 1;
        }
        None
    }

    /// The first active client that has the address.
    pub fn get_client(&self, ip: IpAddr) -> (r: Option<ClientHandle>)
        requires
            self.wf(),
        ensures
            r == first_such(
                self@,
                |c: ClientView| c.state.active && c.state.ips.contains(ip),
                0,
            ),
    {
        let ghost pred = |c: ClientView| c.state.active && c.state.ips.contains(ip);
        let mut i: usize = 0;
        while i < self.map.entries.len()
            invariant
                self.wf(),
                pred == (|c: ClientView| c.state.active && c.state.ips.contains(ip)),
                i <= self.map.entries@.len(),
                first_such(self@, pred, 0) == first_such(self@, pred, i as int),
            decreases self.map.entries@.len() - i,
        {
            let (handle, c) = &self.map.entries[i];
            proof {
                lemma_entry(self.map.entries@, i as int);
                assert(self@.order[i as int] == *handle);
            }
            if c.state.active && c.state.ips.contains(ip) {
                return Some(*handle);
            }
            i = i + 1;
        }
        None
    }

    /// The first client that has the fingerprint.
    pub fn get_client_by_peer_fingerprint(&self, fingerprint: &str) -> (r: Option<ClientHandle>)
        requires
            self.wf(),
        ensures
            r == first_such(
                self@,
                |c: ClientView| is_of_fingerprint(c, normalized_fingerprint(fingerprint@)),
                0,
            ),
    {
        let wanted = normalize_fingerprint(fingerprint);
        let ghost pred = |c: ClientView|
            is_of_fingerprint(c, normalized_fingerprint(fingerprint@));
        let mut i: usize = 0;
        while i < self.map.entries.len()
            invariant
                self.wf(),
                wanted@ == normalized_fingerprint(fingerprint@),
                pred == (|c: ClientView|
                    is_of_fingerprint(c, normalized_fingerprint(fingerprint@))),
                i <= self.map.entries@.len(),
                first_such(self@, pred, 0) == first_such(self@, pred, i as int),
            decreases self.map.entries@.len() - i,
        {
            let (handle, c) = &self.map.entries[i];
            proof {
                lemma_entry(self.map.entries@, i as int);
                assert(self@.order[i as int] == *handle);
            }
            if let Some(fp) = &c.config.peer_fingerprint {
                if same(normalize_fingerprint(fp.as_str()).as_str(), wanted.as_str()) {
                    return Some(*handle);
                }
            }
            i = i + 1;
        }
        None
    }
}

/// The first client, from the given place on, of which the predicate holds.
pub open spec fn first_such(
    m: ManagerView,
    pred: spec_fn(ClientView) -> bool,
    from: int,
) -> Option<u64>
    decreases m.order.len() - from,
{
    if from < 0 || from >= m.order.len() {
        None
    } else if pred(m.clients[m.order[from]]) {
        Some(m.order[from])
    } else {
        first_such(m, pred, from + 1)
    }
}

/// The handles in the order list are those of the clients, each once, and all
/// are below the next handle.
pub proof fn order_lists_all_clients(m: ClientManager)
    requires
        m.wf(),
    ensures
        m@.order.no_duplicates(),
        forall|h: u64| m@.order.contains(h) <==> #[trigger] m@.has(h),
        forall|h: u64| #[trigger] m@.has(h) ==> h < m@.next,
        forall|h: u64| #[trigger] m@.has(h) ==> m@.clients[h].addresses_agree(),
{
    let entries = m.map.entries@;
    let order = keys_of(entries);
    assert forall|i: int, j: int|
        0 <= i < order.len() && 0 <= j < order.len() && i != j implies order[i] != order[j] by {
        if i < j {
            assert(entries[i].0@ != entries[j].0@);
        } else {
            assert(entries[j].0@ != entries[i].0@);
        }
    }
    assert forall|h: u64| m@.order.contains(h) <==> #[trigger] m@.has(h) by {
        if m@.has(h) {
            let i = lemma_key(entries, h);
            assert(order[i] == h);
        }
        if m@.order.contains(h) {
            let i = choose|i: int| 0 <= i < order.len() && order[i] == h;
            lemma_entry(entries, i);
        }
    }
    assert forall|h: u64| #[trigger] m@.has(h) implies h < m@.next
        && m@.clients[h].addresses_agree() by {
        assert(m.map@[h].wf());
    }
}

/// The client that is found at a position is active there, and if none is
/// found, none is.
pub proof fn found_client_is_active(m: ClientManager, pos: Position)
    requires
        m.wf(),
    ensures
        match m@.at(pos) {
            Some(h) => m@.active_at(h, pos),
            None => forall|h: u64| !#[trigger] m@.active_at(h, pos),
        },
{
    order_lists_all_clients(m);
    lemma_first_at(m@, pos, 0);
    if m@.at(pos) is None {
        assert forall|h: u64| !#[trigger] m@.active_at(h, pos) by {
            if m@.active_at(h, pos) {
                assert(m@.order.contains(h));
                let i = choose|i: int| 0 <= i < m@.order.len() && m@.order[i] == h;
                assert(!m@.active_at(m@.order[i], pos));
            }
        }
    }
}

pub proof fn lemma_first_at(m: ManagerView, pos: Position, from: int)
    requires
        0 <= from,
    ensures
        match m.first_at(pos, from) {
            Some(h) => m.active_at(h, pos),
            None => forall|i: int|
                from <= i < m.order.len() ==> !m.active_at(#[trigger] m.order[i], pos),
        },
    decreases m.order.len() - from,
{
    if from < m.order.len() && !m.active_at(m.order[from], pos) {
        lemma_first_at(m, pos, from + 1);
    }
}

/// Removing a client takes its handle out of the list, and no other.
pub proof fn lemma_removed(m: ManagerView, handle: u64)
    ensures
        forall|h: u64| #[trigger]
            m.removed(handle).order.contains(h) <==> m.order.contains(h) && h != handle,
{
    let pred = other_than(handle);
    let after = m.removed(handle).order;
    assert forall|h: u64| #[trigger] after.contains(h) <==> m.order.contains(h) && h != handle by {
        if m.order.contains(h) && h != handle {
            let i = choose|i: int| 0 <= i < m.order.len() && m.order[i] == h;
            m.order.lemma_filter_contains(pred, i);
        }
        if after.contains(h) {
            let i = choose|i: int| 0 <= i < after.len() && after[i] == h;
            m.order.lemma_filter_contains_rev(pred, h);
            m.order.lemma_filter_pred(pred, i);
        }
    }
}

} // verus!
