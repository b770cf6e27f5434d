//! What the operations of the service are for: what each request and each event
//! brings about, and for whom.
use crate::capture::{CaptureType, ICaptureEvent};
use crate::client::{is_of_fingerprint, ClientView, ManagerView, CLIENT_HANDLE_END};
use crate::consistency::{in_order, sound};
use crate::discovery::{normalized_fingerprint, with_candidate};
use crate::ipc::{
    ActionView, ConfigView, EventView, InfoView, Position, RequestView, StateView, Status,
};
use crate::net::{IpAddr, SocketAddr};
use crate::service::{
    did, effects, incoming_of, incoming_wf, DnsEvent, Effect, EffectView, EmulationView, FileView,
    HealthError, HookKind, Outcome, ServiceView, ENTER_HANDLE_BEGIN,
};
use vstd::prelude::*;

verus! {

proof fn lemma_among(a: Seq<EffectView>, b: Seq<EffectView>, e: EffectView)
    ensures
        (a + b).contains(e) <==> a.contains(e) || b.contains(e),
{
    if a.contains(e) {
        let i = choose|i: int| 0 <= i < a.len() && a[i] == e;
        assert((a + b)[i] == e);
    }
    if b.contains(e) {
        let i = choose|i: int| 0 <= i < b.len() && b[i] == e;
        assert((a + b)[a.len() + i] == e);
    }
    if (a + b).contains(e) {
        let i = choose|i: int| 0 <= i < (a + b).len() && (a + b)[i] == e;
        if i < a.len() {
            assert(a[i] == e);
        } else {
            assert(b[i - a.len()] == e);
        }
    }
}

/// A request to activate a client makes it active, and a request to deactivate
/// it makes it inactive, whatever it was before. How clients are configured
/// stays, and none comes or goes.
#[verifier::rlimit(40)]
pub proof fn activation_is_obeyed(s: ServiceView, handle: u64, active: bool, other: u64)
    requires
        sound(s),
        s.clients.has(handle),
        other != handle,
    ensures
        ({
            let after = s.requested(RequestView::Activate(handle, active)).service;
            &&& after.is_active(handle) == active
            &&& after.clients.has(other) == s.clients.has(other)
            &&& after.clients.clients[handle].config == s.clients.clients[handle].config
            &&& s.clients.has(other) ==> after.clients.clients[other].config
                == s.clients.clients[other].config
            &&& s.clients.has(other) ==> after.is_active(other) == (s.is_active(other) && !(active
                && s.clients.clients[other].config.pos == s.clients.clients[handle].config.pos))
            &&& after.clients.order == s.clients.order
            &&& after.incoming == s.incoming
            &&& after.authorized == s.authorized
            &&& after.port == s.port
        }),
{
    let pos = s.clients.clients[handle].config.pos;
    crate::client::lemma_first_at(s.clients, pos, 0);
    if active && s.is_active(other) && s.clients.clients[other].config.pos == pos {
        assert(s.clients.active_at(other, pos));
        assert(s.clients.order.contains(other));
        let i = choose|i: int|
            0 <= i < s.clients.order.len() && s.clients.order[i] == other;
        assert(s.clients.at(pos) is Some) by {
            if s.clients.at(pos) is None {
                assert(!s.clients.active_at(s.clients.order[i], pos));
            }
        }
        let found = s.clients.at(pos)->0;
        assert(s.clients.active_at(found, pos));
        assert(found == other);
    }
    match s.rival(handle) {
        Some(rival) => {
            assert(s.clients.active_at(rival, pos));
        },
        None => {},
    }
}

/// A client that becomes active gets the capture of a client, at its position,
/// and the frontends are told that it is active. One that becomes inactive loses
/// its capture. A request that changes nothing creates and destroys none.
#[verifier::rlimit(40)]
pub proof fn activation_moves_the_capture(s: ServiceView, handle: u64)
    requires
        s.clients.has(handle),
    ensures
        !s.is_active(handle) ==> s.requested(
            RequestView::Activate(handle, true),
        ).effects.contains(
            EffectView::CaptureCreate(
                handle,
                s.clients.clients[handle].config.pos,
                CaptureType::Default,
            ),
        ),
        !s.is_active(handle) ==> s.requested(
            RequestView::Activate(handle, true),
        ).effects.contains(
            EffectView::Notify(
                EventView::State(
                    InfoView {
                        handle,
                        config: s.clients.clients[handle].config,
                        state: StateView { active: true, ..s.clients.clients[handle].state },
                    },
                ),
            ),
        ),
        s.is_active(handle) ==> s.requested(RequestView::Activate(handle, false)).effects == seq![
            EffectView::CaptureDestroy(handle),
            EffectView::Notify(
                EventView::State(
                    InfoView {
                        handle,
                        config: s.clients.clients[handle].config,
                        state: StateView { active: false, ..s.clients.clients[handle].state },
                    },
                ),
            ),
            EffectView::WriteConfig,
        ],
        !s.is_active(handle) ==> s.requested(RequestView::Activate(handle, false)).effects == seq![
            EffectView::WriteConfig,
        ],
{
    let on = s.requested(RequestView::Activate(handle, true));
    if !s.is_active(handle) {
        let n = on.effects.len();
        let info = on.service.clients.info(handle);
        assert(on.effects[n - 3] == EffectView::CaptureCreate(
            handle,
            s.clients.clients[handle].config.pos,
            CaptureType::Default,
        ));
        assert(info == (InfoView {
            handle,
            config: s.clients.clients[handle].config,
            state: StateView { active: true, ..s.clients.clients[handle].state },
        }));
        assert(on.effects[n - 2] == EffectView::Notify(EventView::State(info)));
    }
    let off = s.requested(RequestView::Activate(handle, false));
    if s.is_active(handle) {
        assert(off.effects =~= seq![
            EffectView::CaptureDestroy(handle),
            EffectView::Notify(EventView::State(off.service.clients.info(handle))),
            EffectView::WriteConfig,
        ]);
    } else {
        assert(off.effects =~= seq![EffectView::WriteConfig]);
    }
}

/// The name of a client's host is resolved when the client is activated, and
/// when a frontend asks for it: that very name, for that client. A client
/// without a name is not resolved.
pub proof fn host_names_are_resolved(s: ServiceView, handle: u64, host: Seq<char>)
    requires
        s.clients.has(handle),
    ensures
        s.clients.clients[handle].config.hostname == Some(host) ==> s.requested(
            RequestView::Activate(handle, true),
        ).effects[0] == EffectView::Resolve(handle, host),
        s.clients.clients[handle].config.hostname == Some(host) ==> s.requested(
            RequestView::ResolveDns(handle),
        ) == (Outcome { service: s, effects: seq![EffectView::Resolve(handle, host)] }),
        s.clients.clients[handle].config.hostname is None ==> s.requested(
            RequestView::ResolveDns(handle),
        ) == (Outcome { service: s, effects: seq![] }),
{
}

/// The configuration of a client after a request that names a part of it: that
/// part is as requested, and all other parts stay as they are.
pub open spec fn config_after(config: ConfigView, request: RequestView) -> ConfigView {
    ConfigView {
        hostname: match request {
            RequestView::UpdateHostname(_, host) => host,
            _ => config.hostname,
        },
        peer_fingerprint: match request {
            RequestView::UpdatePeerFingerprint(_, None) => None,
            RequestView::UpdatePeerFingerprint(_, Some(fp)) => if normalized_fingerprint(fp).len()
                == 0 {
                None
            } else {
                Some(normalized_fingerprint(fp))
            },
            _ => config.peer_fingerprint,
        },
        fix_ips: match request {
            RequestView::UpdateFixIps(_, ips) => ips,
            _ => config.fix_ips,
        },
        port: match request {
            RequestView::UpdatePort(_, port) => port,
            _ => config.port,
        },
        pos: match request {
            RequestView::UpdatePosition(_, pos) => pos,
            _ => config.pos,
        },
        cmd: match request {
            RequestView::UpdateEnterHook(_, cmd) => cmd,
            _ => config.cmd,
        },
        cmd_leave: match request {
            RequestView::UpdateLeaveHook(_, cmd) => cmd,
            _ => config.cmd_leave,
        },
        actions: match request {
            RequestView::UpdateActions(_, actions) => actions,
            _ => config.actions,
        },
    }
}

/// The client that a request to configure one is about.
pub open spec fn configured_client(request: RequestView) -> Option<u64> {
    match request {
        RequestView::UpdateHostname(h, _) => Some(h),
        RequestView::UpdatePeerFingerprint(h, _) => Some(h),
        RequestView::UpdateFixIps(h, _) => Some(h),
        RequestView::UpdatePort(h, _) => Some(h),
        RequestView::UpdatePosition(h, _) => Some(h),
        RequestView::UpdateEnterHook(h, _) => Some(h),
        RequestView::UpdateLeaveHook(h, _) => Some(h),
        RequestView::UpdateActions(h, _) => Some(h),
        _ => None,
    }
}

/// A request to configure a client sets the part that it names, and nothing
/// else of this client or of another: what is run on entering and what is run
/// on leaving, its port, its name, its key, its addresses, its side, its actions.
#[verifier::rlimit(40)]
pub proof fn requests_configure_the_client(
    s: ServiceView,
    request: RequestView,
    handle: u64,
    other: u64,
)
    requires
        configured_client(request) == Some(handle),
        s.clients.has(handle),
        other != handle,
    ensures
        ({
            let after = s.requested(request).service;
            &&& after.clients.has(handle)
            &&& after.clients.clients[handle].config == config_after(
                s.clients.clients[handle].config,
                request,
            )
            &&& after.clients.has(other) == s.clients.has(other)
            &&& s.clients.has(other) ==> after.clients.clients[other].config
                == s.clients.clients[other].config
            &&& after.clients.order == s.clients.order
            &&& after.authorized == s.authorized
            &&& after.incoming == s.incoming
            &&& after.port == s.port
        }),
{
    let after = s.requested(request).service;
    let due = config_after(s.clients.clients[handle].config, request);
    assert(after.clients.clients[handle].config =~= due);
}

/// The given addresses count among the addresses of the client together with
/// those that its name was resolved to, and no others do.
pub proof fn given_addresses_count(s: ServiceView, handle: u64, ips: Seq<IpAddr>, ip: IpAddr)
    requires
        s.clients.has(handle),
    ensures
        ({
            let after = s.requested(RequestView::UpdateFixIps(handle, ips)).service;
            &&& after.clients.clients[handle].state.ips.contains(ip) <==> ips.contains(ip)
                || s.clients.clients[handle].state.dns_ips.contains(ip)
            &&& after.clients.clients[handle].state.dns_ips
                == s.clients.clients[handle].state.dns_ips
            &&& after.is_active(handle) == s.is_active(handle)
        }),
{
}

/// An active client that is moved to another side has its capture there from
/// then on, and no longer at the old one; it stays active.
#[verifier::rlimit(40)]
pub proof fn moved_client_is_captured_at_its_new_side(s: ServiceView, handle: u64, pos: Position)
    requires
        s.is_active(handle),
        s.clients.clients[handle].config.pos != pos,
    ensures
        ({
            let o = s.requested(RequestView::UpdatePosition(handle, pos));
            &&& o.service.is_active(handle)
            &&& o.effects[0] == EffectView::CaptureDestroy(handle)
            &&& o.effects.contains(EffectView::CaptureCreate(handle, pos, CaptureType::Default))
        }),
{
    let o = s.requested(RequestView::UpdatePosition(handle, pos));
    let n = o.effects.len();
    let config = ConfigView { pos, ..s.clients.clients[handle].config };
    let t = s.with_clients(s.clients.with_config(handle, config));
    let d = t.deactivated(handle);
    let a = d.service.activated(handle);
    assert(a.effects[a.effects.len() - 2] == EffectView::CaptureCreate(
        handle,
        pos,
        CaptureType::Default,
    ));
    assert(o.effects[d.effects.len() + a.effects.len() - 2] == EffectView::CaptureCreate(
        handle,
        pos,
        CaptureType::Default,
    ));
}

/// What a frontend changes is written down and told: after every request that
/// changes a client, a key, or a setting, the file holds the clients and the
/// keys as they then are, and the last effect is to write it.
#[verifier::rlimit(40)]
pub proof fn changes_are_written(s: ServiceView, request: RequestView)
    requires
        !(request is ChangePort),
        !(request is EnableCapture),
        !(request is EnableEmulation),
        !(request is Enumerate),
        !(request is ResolveDns),
        !(request is Sync),
    ensures
        ({
            let o = s.requested(request);
            &&& o.effects.len() > 0
            &&& o.effects.last() is WriteConfig
            &&& o.service.config.clients == o.service.clients.all_saved()
            &&& o.service.config.authorized == o.service.authorized
        }),
{
}

/// What only asks writes nothing and changes nothing.
#[verifier::rlimit(40)]
pub proof fn questions_change_nothing(s: ServiceView, request: RequestView)
    requires
        request is ChangePort || request is EnableCapture || request is EnableEmulation || request
            is Enumerate || request is ResolveDns || request is Sync,
    ensures
        s.requested(request).service == s,
        !s.requested(request).effects.contains(EffectView::WriteConfig),
{
}

/// A configured client is told of as it then is, right before the file is
/// written.
#[verifier::rlimit(40)]
pub proof fn configured_client_is_told(s: ServiceView, request: RequestView, handle: u64)
    requires
        configured_client(request) == Some(handle),
        s.clients.has(handle),
    ensures
        ({
            let o = s.requested(request);
            let c = o.service.clients.clients[handle];
            &&& o.effects.len() >= 2
            &&& o.effects[o.effects.len() - 2] == EffectView::Notify(
                EventView::State(InfoView { handle, config: c.config, state: c.state }),
            )
        }),
{
}

/// A client of the file is what the file says of it, field by field: what is run
/// on entering stands there as the enter hook, and what is run on leaving as the
/// leave hook.
pub proof fn saved_client_tells_all(m: ManagerView, handle: u64, ip: IpAddr)
    requires
        m.has(handle),
    ensures
        ({
            let c = m.clients[handle];
            let f = m.saved(handle);
            &&& f.hostname == c.config.hostname
            &&& f.peer_fingerprint == c.config.peer_fingerprint
            &&& f.port == c.config.port
            &&& f.pos == c.config.pos
            &&& f.active == c.state.active
            &&& f.enter_hook == c.config.cmd
            &&& f.leave_hook == c.config.cmd_leave
            &&& f.actions == c.config.actions
            &&& f.ips.contains(ip) <==> c.config.fix_ips.contains(ip)
        }),
{
}

/// A client that is loaded is as it stands in the file, and is not connected,
/// not alive and not being resolved yet.
pub proof fn loaded_client_is_as_written(c: crate::client::ConfigClientView)
    ensures
        ({
            let loaded = crate::client::client_of(c);
            &&& loaded.config.hostname == c.hostname
            &&& loaded.config.peer_fingerprint == c.peer_fingerprint
            &&& loaded.config.port == c.port
            &&& loaded.config.pos == c.pos
            &&& loaded.config.cmd == c.enter_hook
            &&& loaded.config.cmd_leave == c.leave_hook
            &&& loaded.config.actions == c.actions
            &&& loaded.state.active == c.active
            &&& loaded.state.ips == c.ips
            &&& loaded.state.active_addr is None
            &&& !loaded.state.alive
            &&& !loaded.state.resolving
            &&& loaded.state.dns_ips == Seq::<IpAddr>::empty()
            &&& loaded.state.peer_commit is None
        }),
{
}

/// A new client gets the next handle, sits on the left, listens on port 4242, is
/// inactive, and has nothing else; the others stay as they are. It is told of.
#[verifier::rlimit(40)]
pub proof fn created_client_is_blank(s: ServiceView, other: u64)
    requires
        s.clients.next < CLIENT_HANDLE_END,
        other != s.clients.next,
    ensures
        ({
            let handle = s.clients.next;
            let o = s.requested(RequestView::Create);
            let c = o.service.clients.clients[handle];
            &&& o.service.clients.has(handle)
            &&& o.service.clients.next == handle + 1
            &&& o.service.clients.order == s.clients.order.push(handle)
            &&& c.config == (ConfigView {
                hostname: None,
                peer_fingerprint: None,
                fix_ips: seq![],
                port: 4242,
                pos: Position::Left,
                cmd: None,
                cmd_leave: None,
                actions: seq![],
            })
            &&& !c.state.active
            &&& !c.state.alive
            &&& c.state.active_addr is None
            &&& c.state.ips == Set::<IpAddr>::empty()
            &&& o.service.clients.has(other) == s.clients.has(other)
            &&& o.service.clients.clients[other] == s.clients.clients[other]
            &&& o.effects == seq![
                EffectView::Notify(
                    EventView::Created(InfoView { handle, config: c.config, state: c.state }),
                ),
                EffectView::WriteConfig,
            ]
        }),
{
    let o = s.requested(RequestView::Create);
    let handle = s.clients.next;
    let c = o.service.clients.clients[handle];
    assert(o.effects =~= seq![
        EffectView::Notify(
            EventView::Created(InfoView { handle, config: c.config, state: c.state }),
        ),
        EffectView::WriteConfig,
    ]);
}

/// A deleted client is gone, is told to be gone, and loses its capture if it had
/// one. The others stay.
#[verifier::rlimit(40)]
pub proof fn deleted_client_is_gone(s: ServiceView, handle: u64, other: u64)
    requires
        other != handle,
    ensures
        ({
            let o = s.requested(RequestView::Delete(handle));
            &&& !o.service.clients.has(handle)
            &&& o.service.clients.has(other) == s.clients.has(other)
            &&& s.clients.has(other) ==> o.service.clients.clients[other]
                == s.clients.clients[other]
            &&& o.service.clients.next == s.clients.next
            &&& o.effects == if s.is_active(handle) {
                seq![
                    EffectView::CaptureDestroy(handle),
                    EffectView::Notify(EventView::Deleted(handle)),
                    EffectView::WriteConfig,
                ]
            } else {
                seq![EffectView::Notify(EventView::Deleted(handle)), EffectView::WriteConfig]
            }
        }),
{
    let o = s.requested(RequestView::Delete(handle));
    if s.is_active(handle) {
        assert(o.effects =~= seq![
            EffectView::CaptureDestroy(handle),
            EffectView::Notify(EventView::Deleted(handle)),
            EffectView::WriteConfig,
        ]);
    } else {
        assert(o.effects =~= seq![
            EffectView::Notify(EventView::Deleted(handle)),
            EffectView::WriteConfig,
        ]);
    }
}

/// A key that is authorized is trusted under its description, and one that is
/// removed is not; every other key stays as it is. The frontends are told all
/// keys that are then trusted.
#[verifier::rlimit(40)]
pub proof fn keys_are_trusted_as_asked(
    s: ServiceView,
    desc: Seq<char>,
    fp: Seq<char>,
    other: Seq<char>,
)
    requires
        other != fp,
    ensures
        ({
            let a = s.requested(RequestView::AuthorizeKey(desc, fp));
            let r = s.requested(RequestView::RemoveAuthorizedKey(fp));
            &&& a.service.authorized.dom().contains(fp)
            &&& a.service.authorized[fp] == desc
            &&& a.service.authorized.dom().contains(other) == s.authorized.dom().contains(other)
            &&& a.service.authorized[other] == s.authorized[other]
            &&& a.effects == seq![
                EffectView::Notify(EventView::AuthorizedUpdated(a.service.authorized)),
                EffectView::WriteConfig,
            ]
            &&& !r.service.authorized.dom().contains(fp)
            &&& r.service.authorized.dom().contains(other) == s.authorized.dom().contains(other)
            &&& s.authorized.dom().contains(other) ==> r.service.authorized[other]
                == s.authorized[other]
            &&& r.effects == seq![
                EffectView::Notify(EventView::AuthorizedUpdated(r.service.authorized)),
                EffectView::WriteConfig,
            ]
        }),
{
    let a = s.requested(RequestView::AuthorizeKey(desc, fp));
    let r = s.requested(RequestView::RemoveAuthorizedKey(fp));
    assert(a.effects =~= seq![
        EffectView::Notify(EventView::AuthorizedUpdated(a.service.authorized)),
        EffectView::WriteConfig,
    ]);
    assert(r.effects =~= seq![
        EffectView::Notify(EventView::AuthorizedUpdated(r.service.authorized)),
        EffectView::WriteConfig,
    ]);
}

/// The release threshold is remembered as it was asked for, the capture is set
/// to it, and the frontends are told.
#[verifier::rlimit(40)]
pub proof fn threshold_takes_effect(s: ServiceView, px: u32)
    ensures
        ({
            let o = s.requested(RequestView::SetReleaseThreshold(px));
            &&& o.service.config.release_threshold_px == px
            &&& o.service.config.mdns_discovery == s.config.mdns_discovery
            &&& o.effects.len() == 3
            &&& o.effects[0] == EffectView::CaptureReleaseThreshold(px)
            &&& o.effects[1] == EffectView::Notify(EventView::ReleaseThreshold(px))
            &&& o.effects[2] is WriteConfig
        }),
{
}

/// Discovery is switched as it was asked for, that is remembered, and the
/// frontends are told.
#[verifier::rlimit(40)]
pub proof fn discovery_takes_effect(s: ServiceView, on: bool)
    ensures
        ({
            let o = s.requested(RequestView::SetMdnsDiscovery(on));
            &&& o.service.config.mdns_discovery == on
            &&& o.service.config.release_threshold_px == s.config.release_threshold_px
            &&& o.effects.len() == 3
            &&& o.effects[0] == EffectView::DiscoverySwitch(on)
            &&& o.effects[1] == EffectView::Notify(EventView::MdnsDiscovery(on))
            &&& o.effects[2] is WriteConfig
        }),
{
}

/// Another port is asked of the listener. The port that is already in use is
/// only told. Capture and emulation are enabled again each on its own request.
pub proof fn listener_and_devices_are_asked(s: ServiceView, port: u16)
    ensures
        port != s.port ==> s.requested(RequestView::ChangePort(port)).effects == seq![
            EffectView::EmulationPort(port),
        ],
        port == s.port ==> s.requested(RequestView::ChangePort(port)).effects == seq![
            EffectView::Notify(EventView::PortChanged(port, None)),
        ],
        s.requested(RequestView::EnableCapture).effects == seq![EffectView::CaptureReenable],
        s.requested(RequestView::EnableEmulation).effects == seq![EffectView::EmulationReenable],
{
}

/// A frontend that asks for all clients is told of each, in their order, as it
/// is; and one that synchronises is told everything that frontends know.
#[verifier::rlimit(40)]
pub proof fn frontends_are_told_everything(s: ServiceView, i: int)
    requires
        0 <= i < s.clients.order.len(),
    ensures
        ({
            let h = s.clients.order[i];
            let all = s.requested(RequestView::Enumerate).effects;
            &&& all.len() == 1
            &&& all[0] matches EffectView::Notify(EventView::Enumerate(infos)) && infos.len()
                == s.clients.order.len() && infos[i] == (InfoView {
                handle: h,
                config: s.clients.clients[h].config,
                state: s.clients.clients[h].state,
            })
        }),
        ({
            let told = s.requested(RequestView::Sync).effects;
            &&& told.contains(s.requested(RequestView::Enumerate).effects[0])
            &&& told.contains(EffectView::Notify(EventView::EmulationStatus(s.emulation_status)))
            &&& told.contains(EffectView::Notify(EventView::CaptureStatus(s.capture_status)))
            &&& told.contains(EffectView::Notify(EventView::PortChanged(s.port, None)))
            &&& told.contains(
                EffectView::Notify(EventView::PublicKeyFingerprint(s.public_key_fingerprint)),
            )
            &&& told.contains(
                EffectView::Notify(EventView::ReleaseThreshold(s.config.release_threshold_px)),
            )
            &&& told.contains(
                EffectView::Notify(EventView::MdnsDiscovery(s.config.mdns_discovery)),
            )
            &&& told.contains(EffectView::Notify(EventView::AuthorizedUpdated(s.authorized)))
            &&& told.len() == 8
        }),
{
    let told = s.requested(RequestView::Sync).effects;
    assert(told[0] == s.requested(RequestView::Enumerate).effects[0]);
    assert(told[1] == EffectView::Notify(EventView::EmulationStatus(s.emulation_status)));
    assert(told[2] == EffectView::Notify(EventView::CaptureStatus(s.capture_status)));
    assert(told[3] == EffectView::Notify(EventView::PortChanged(s.port, None)));
    assert(told[4] == EffectView::Notify(
        EventView::PublicKeyFingerprint(s.public_key_fingerprint),
    ));
    assert(told[5] == EffectView::Notify(
        EventView::ReleaseThreshold(s.config.release_threshold_px),
    ));
    assert(told[6] == EffectView::Notify(EventView::MdnsDiscovery(s.config.mdns_discovery)));
    assert(told[7] == EffectView::Notify(EventView::AuthorizedUpdated(s.authorized)));
}

/// When a client is entered, its command for entering is run, behind its actions
/// for entering; when it is left, the command and the actions for leaving are.
/// Nothing of the one is run at the moment of the other.
pub proof fn hooks_run_at_their_moment(s: ServiceView, handle: u64, a: ActionView)
    requires
        s.clients.has(handle),
    ensures
        ({
            let config = s.clients.clients[handle].config;
            let entered = s.captured(ICaptureEvent::ClientEntered(handle)).effects;
            let left = s.captured(ICaptureEvent::ClientLeft(handle)).effects;
            &&& config.cmd is Some ==> entered.len() == 1 && (entered[0]
                matches EffectView::Run { cmd, .. } && cmd == config.cmd)
            &&& config.cmd_leave is Some ==> left.len() == 1 && (left[0]
                matches EffectView::Run { cmd, .. } && cmd == config.cmd_leave)
            &&& entered.len() <= 1
            &&& left.len() <= 1
            &&& entered.len() == 1 ==> (entered[0] matches EffectView::Run { actions, cmd, label }
                && cmd == config.cmd && label == "enter"@ && (actions.contains(a)
                <==> config.actions.contains(a) && a.on is Enter && !(s.prefired.contains(handle)
                && crate::actions::is_prefired(a))))
            &&& left.len() == 1 ==> (left[0] matches EffectView::Run { actions, cmd, label }
                && cmd == config.cmd_leave && label == "leave"@ && (actions.contains(a)
                <==> config.actions.contains(a) && a.on is Leave))
            &&& left.len() == 0 ==> !(config.actions.contains(a) && a.on is Leave)
            &&& entered.len() == 0 ==> !(config.actions.contains(a) && a.on is Enter && !(
            s.prefired.contains(handle) && crate::actions::is_prefired(a)))
        }),
{
    lemma_hook(s, handle, HookKind::Enter, s.prefired.contains(handle), a);
    lemma_hook(s, handle, HookKind::Leave, false, a);
}

proof fn lemma_hook(s: ServiceView, handle: u64, kind: HookKind, skip: bool, a: ActionView)
    requires
        s.clients.has(handle),
    ensures
        ({
            let config = s.clients.clients[handle].config;
            let due = config.actions.contains(a) && a.on == kind.trigger() && !(skip
                && crate::actions::is_prefired(a));
            let command = match kind {
                HookKind::Enter => config.cmd,
                HookKind::Leave => config.cmd_leave,
            };
            let run = s.hook(handle, kind, skip);
            &&& run.len() <= 1
            &&& run.len() == 0 ==> command is None && !due
            &&& run.len() == 1 ==> (run[0] matches EffectView::Run { actions, cmd, label } && cmd
                == command && label == kind.text() && (actions.contains(a) <==> due))
        }),
{
    lemma_selected(
        s.actions_of(handle),
        |x: ActionView| x.on == kind.trigger() && !(skip && crate::actions::is_prefired(x)),
        a,
    );
}

proof fn lemma_selected(s: Seq<ActionView>, p: spec_fn(ActionView) -> bool, a: ActionView)
    ensures
        s.filter(p).contains(a) <==> s.contains(a) && p(a),
{
    if s.contains(a) && p(a) {
        let i = choose|i: int| 0 <= i < s.len() && s[i] == a;
        s.lemma_filter_contains(p, i);
    }
    if s.filter(p).contains(a) {
        let i = choose|i: int| 0 <= i < s.filter(p).len() && s.filter(p)[i] == a;
        s.lemma_filter_contains_rev(p, a);
        s.lemma_filter_pred(p, i);
    }
}

/// For a client that is connected and alive the actions for entering are started
/// as soon as the cursor crosses over, all of them and no others, and never the
/// command.
pub proof fn early_actions_are_those_for_entering(s: ServiceView, handle: u64, a: ActionView)
    requires
        s.clients.has(handle),
        !s.incoming.dom().contains(handle),
        s.clients.clients[handle].state.active_addr is Some,
        s.clients.clients[handle].state.alive,
    ensures
        ({
            let o = s.captured(ICaptureEvent::CaptureBegin(handle));
            let config = s.clients.clients[handle].config;
            &&& o.effects.len() <= 1
            &&& o.service.prefired.contains(handle) <==> o.effects.len() == 1
            &&& o.effects.len() == 1 ==> (o.effects[0] matches EffectView::Run { actions, cmd, .. }
                && cmd is None && (actions.contains(a) <==> config.actions.contains(a) && a.on
                is Enter))
            &&& o.effects.len() == 0 ==> !(config.actions.contains(a) && a.on is Enter)
            &&& o.service.clients == s.clients
        }),
{
    lemma_selected(s.actions_of(handle), |x: ActionView| crate::actions::is_prefired(x), a);
}

/// When the cursor goes where an incoming connection came from, that very
/// connection is told to let go.
pub proof fn incoming_capture_tells_its_peer(s: ServiceView, handle: u64)
    requires
        s.incoming.dom().contains(handle),
    ensures
        s.captured(ICaptureEvent::CaptureBegin(handle)) == (Outcome {
            service: s,
            effects: seq![EffectView::EmulationLeave(s.incoming[handle].addr)],
        }),
{
}

/// Whether capture and emulation are at work is remembered and told as it is,
/// each on its own.
pub proof fn statuses_are_remembered_and_told(s: ServiceView)
    ensures
        ({
            let on = s.captured(ICaptureEvent::CaptureEnabled);
            let off = s.captured(ICaptureEvent::CaptureDisabled);
            &&& on.service.capture_status is Enabled
            &&& on.service.emulation_status == s.emulation_status
            &&& on.effects == seq![EffectView::Notify(EventView::CaptureStatus(Status::Enabled))]
            &&& off.service.capture_status is Disabled
            &&& off.service.emulation_status == s.emulation_status
            &&& off.effects == seq![EffectView::Notify(EventView::CaptureStatus(Status::Disabled))]
        }),
        ({
            let on = s.emulated(EmulationView::EmulationEnabled);
            let off = s.emulated(EmulationView::EmulationDisabled);
            &&& on.service.emulation_status is Enabled
            &&& on.service.capture_status == s.capture_status
            &&& on.effects == seq![EffectView::Notify(EventView::EmulationStatus(Status::Enabled))]
            &&& off.service.emulation_status is Disabled
            &&& off.service.capture_status == s.capture_status
            &&& off.effects == seq![
                EffectView::Notify(EventView::EmulationStatus(Status::Disabled)),
            ]
        }),
{
}

/// What is disabled at a health check is enabled again: capture, emulation, or
/// both; and what is at work is left alone.
pub proof fn disabled_parts_are_enabled_again(s: ServiceView)
    requires
        s.capture_recovery_attempts < 2,
        s.emulation_recovery_attempts < 2,
    ensures
        ({
            let (o, error) = s.checked();
            &&& error is None
            &&& o.effects.contains(EffectView::CaptureReenable) <==> s.capture_status is Disabled
            &&& o.effects.contains(EffectView::EmulationReenable) <==> s.emulation_status
                is Disabled
            &&& o.service.capture_recovery_attempts == if s.capture_status is Disabled {
                s.capture_recovery_attempts + 1
            } else {
                0
            }
            &&& o.service.emulation_recovery_attempts == if s.emulation_status is Disabled {
                s.emulation_recovery_attempts + 1
            } else {
                0
            }
            &&& o.service.clients == s.clients
        }),
{
    let (o, error) = s.checked();
    let capture: Seq<EffectView> = if s.capture_status is Disabled {
        seq![EffectView::CaptureReenable]
    } else {
        seq![]
    };
    let emulation: Seq<EffectView> = if s.emulation_status is Disabled {
        seq![EffectView::EmulationReenable]
    } else {
        seq![]
    };
    assert(o.effects == capture + emulation);
    lemma_among(capture, emulation, EffectView::CaptureReenable);
    lemma_among(capture, emulation, EffectView::EmulationReenable);
    if s.capture_status is Disabled {
        assert(capture[0] == EffectView::CaptureReenable);
    }
    if s.emulation_status is Disabled {
        assert(emulation[0] == EffectView::EmulationReenable);
    }
}

/// The service gives up at the third check in a row at which a part is disabled,
/// and says which: capture first.
pub proof fn third_disabled_check_gives_up(s: ServiceView)
    ensures
        s.checked().1 == if s.capture_status is Disabled && s.capture_recovery_attempts >= 2 {
            Some(HealthError::Capture)
        } else if s.emulation_status is Disabled && s.emulation_recovery_attempts >= 2 {
            Some(HealthError::Emulation)
        } else {
            None
        },
{
}

/// What a name was resolved to counts among the addresses of the client together
/// with those that were given to it. A failure leaves only the given ones. The
/// client is no longer being resolved, nothing else of it changes, and it is
/// told of.
pub proof fn resolved_addresses_count(
    s: ServiceView,
    handle: u64,
    host: String,
    ips: Result<Vec<IpAddr>, String>,
    ip: IpAddr,
)
    requires
        s.clients.has(handle),
    ensures
        ({
            let o = s.resolved(DnsEvent::Resolved(handle, host, ips));
            let was = s.clients.clients[handle];
            let c = o.service.clients.clients[handle];
            let found = match ips {
                Ok(ips) => ips@.contains(ip),
                Err(_) => false,
            };
            &&& c.state.ips.contains(ip) <==> was.config.fix_ips.contains(ip) || found
            &&& c.state.dns_ips.contains(ip) <==> found
            &&& !c.state.resolving
            &&& c.config == was.config
            &&& c.state.active == was.state.active
            &&& c.state.alive == was.state.alive
            &&& c.state.active_addr == was.state.active_addr
            &&& o.effects == seq![
                EffectView::Notify(
                    EventView::State(InfoView { handle, config: c.config, state: c.state }),
                ),
            ]
        }),
{
    assert(Seq::<IpAddr>::empty().to_set() =~= Set::<IpAddr>::empty());
}

/// While a name is being resolved, the client says so, and keeps its addresses.
pub proof fn resolving_is_told(s: ServiceView, handle: u64)
    requires
        s.clients.has(handle),
    ensures
        ({
            let o = s.resolved(DnsEvent::Resolving(handle));
            let was = s.clients.clients[handle];
            let c = o.service.clients.clients[handle];
            &&& c.state.resolving
            &&& c.state.ips == was.state.ips
            &&& c.state.active == was.state.active
            &&& c.config == was.config
            &&& o.effects == seq![
                EffectView::Notify(
                    EventView::State(InfoView { handle, config: c.config, state: c.state }),
                ),
            ]
        }),
{
}

/// A peer whose cursor enters for the first time is remembered under the address,
/// the side and the key with which it came, gets a capture at that side that
/// only tells of the cursor, and is told of to the frontends.
#[verifier::rlimit(40)]
pub proof fn entering_peer_is_remembered(
    s: ServiceView,
    addr: SocketAddr,
    pos: Position,
    fingerprint: Seq<char>,
)
    requires
        incoming_wf(s.incoming, s.next_trigger_handle),
        s.next_trigger_handle < ENTER_HANDLE_BEGIN,
        forall|h: u64| #[trigger] s.incoming.dom().contains(h) ==> s.incoming[h].addr != addr,
    ensures
        ({
            let o = s.emulated(EmulationView::Entered { addr, pos, fingerprint });
            let handle = (0x8000_0000_0000_0000 + s.next_trigger_handle) as u64;
            &&& !s.incoming.dom().contains(handle)
            &&& o.service.incoming.dom() == s.incoming.dom().insert(handle)
            &&& o.service.incoming[handle].addr == addr
            &&& o.service.incoming[handle].pos == pos
            &&& o.service.incoming[handle].fingerprint == fingerprint
            &&& incoming_of(o.service.incoming, addr) == Some(handle)
            &&& o.service.next_trigger_handle == s.next_trigger_handle + 1
            &&& o.effects == seq![
                EffectView::CaptureCreate(handle, pos, CaptureType::EnterOnly),
                EffectView::Notify(EventView::DeviceEntered { fingerprint, addr, pos }),
            ]
            &&& o.service.clients == s.clients
        }),
{
    let o = s.emulated(EmulationView::Entered { addr, pos, fingerprint });
    let handle = (0x8000_0000_0000_0000 + s.next_trigger_handle) as u64;
    assert(o.effects =~= seq![
        EffectView::CaptureCreate(handle, pos, CaptureType::EnterOnly),
        EffectView::Notify(EventView::DeviceEntered { fingerprint, addr, pos }),
    ]);
    assert(o.service.incoming.dom() =~= s.incoming.dom().insert(handle));
    assert(o.service.incoming.dom().contains(handle));
    let found = incoming_of(o.service.incoming, addr);
    assert(found is Some);
    assert(o.service.incoming.dom().contains(found->0) && o.service.incoming[found->0].addr
        == addr);
    if found->0 != handle {
        assert(s.incoming.dom().contains(found->0));
    }
}

/// A peer that disconnects is forgotten, loses its capture, and is told of; and
/// the other incoming connections stay.
pub proof fn disconnected_peer_is_forgotten(
    s: ServiceView,
    addr: SocketAddr,
    handle: u64,
    other: u64,
)
    requires
        incoming_wf(s.incoming, s.next_trigger_handle),
        s.incoming.dom().contains(handle),
        s.incoming[handle].addr == addr,
        other != handle,
    ensures
        ({
            let o = s.emulated(EmulationView::Disconnected { addr });
            &&& !o.service.incoming.dom().contains(handle)
            &&& o.service.incoming.dom().contains(other) == s.incoming.dom().contains(other)
            &&& s.incoming.dom().contains(other) ==> o.service.incoming[other]
                == s.incoming[other]
            &&& o.effects == seq![
                EffectView::CaptureDestroy(handle),
                EffectView::Notify(EventView::IncomingDisconnected(addr)),
            ]
        }),
{
    let found = incoming_of(s.incoming, addr);
    assert(found is Some);
    assert(s.incoming.dom().contains(found->0) && s.incoming[found->0].addr == addr);
    assert(found->0 == handle);
    let o = s.emulated(EmulationView::Disconnected { addr });
    assert(o.effects =~= seq![
        EffectView::CaptureDestroy(handle),
        EffectView::Notify(EventView::IncomingDisconnected(addr)),
    ]);
}

/// The port is the one that the listener got, and then it is announced and told.
/// Where it could not be changed, the old one stays, and the reason is told.
pub proof fn port_follows_the_listener(s: ServiceView, port: u16, reason: Seq<char>)
    ensures
        ({
            let ok = s.emulated(EmulationView::PortChanged(Ok(port)));
            let err = s.emulated(EmulationView::PortChanged(Err(reason)));
            &&& ok.service.port == port
            &&& ok.effects == seq![
                EffectView::DiscoveryPort(port),
                EffectView::Notify(EventView::PortChanged(port, None)),
            ]
            &&& err.service.port == s.port
            &&& err.effects == seq![
                EffectView::Notify(EventView::PortChanged(s.port, Some(reason))),
            ]
        }),
{
}

/// What a peer does that only the frontends or the capture are to know changes
/// nothing else: an attempt of an unknown key, a new connection, and the release
/// for a handover.
pub proof fn peers_are_told_of(s: ServiceView, addr: SocketAddr, fingerprint: Seq<char>)
    ensures
        s.emulated(EmulationView::ConnectionAttempt { fingerprint }) == (Outcome {
            service: s,
            effects: seq![EffectView::Notify(EventView::ConnectionAttempt { fingerprint })],
        }),
        s.emulated(EmulationView::Connected { addr, fingerprint }) == (Outcome {
            service: s,
            effects: seq![EffectView::Notify(EventView::DeviceConnected { addr, fingerprint })],
        }),
        s.emulated(EmulationView::ReleaseNotify) == (Outcome {
            service: s,
            effects: seq![EffectView::CaptureRelease],
        }),
{
}

/// Where a peer entered or connected from is a candidate for dialing its key,
/// and nothing else is learned from events of peers.
pub proof fn peers_addresses_are_learned(
    cache: Map<Seq<char>, Set<IpAddr>>,
    addr: SocketAddr,
    pos: Position,
    fingerprint: Seq<char>,
    event: EmulationView,
)
    requires
        !(event is Entered),
        !(event is Connected),
    ensures
        (EmulationView::Entered { addr, pos, fingerprint }).candidates(cache) == with_candidate(
            cache,
            fingerprint,
            addr.ip,
        ),
        (EmulationView::Connected { addr, fingerprint }).candidates(cache) == with_candidate(
            cache,
            fingerprint,
            addr.ip,
        ),
        event.candidates(cache) == cache,
{
}

/// The first client, in the order of the list, of which the predicate holds.
proof fn lemma_first_such(
    m: ManagerView,
    pred: spec_fn(ClientView) -> bool,
    from: int,
    i: int,
)
    requires
        0 <= from <= i < m.order.len(),
        pred(m.clients[m.order[i]]),
        forall|j: int| from <= j < i ==> !pred(m.clients[#[trigger] m.order[j]]),
    ensures
        crate::client::first_such(m, pred, from) == Some(m.order[i]),
    decreases i - from,
{
    if from < i {
        assert(!pred(m.clients[m.order[from]]));
        lemma_first_such(m, pred, from + 1, i);
    }
}

/// A peer is the first client that has its key, however that is written, even if
/// another client has its address. Its build is noted there, and told.
pub proof fn peers_are_known_by_their_key(
    s: ServiceView,
    addr: SocketAddr,
    fingerprint: Seq<char>,
    commit: [u8; 8],
    i: int,
)
    requires
        0 <= i < s.clients.order.len(),
        s.clients.has(s.clients.order[i]),
        is_of_fingerprint(
            s.clients.clients[s.clients.order[i]],
            normalized_fingerprint(fingerprint),
        ),
        forall|j: int|
            0 <= j < i ==> !is_of_fingerprint(
                s.clients.clients[#[trigger] s.clients.order[j]],
                normalized_fingerprint(fingerprint),
            ),
    ensures
        ({
            let handle = s.clients.order[i];
            let o = s.emulated(
                EmulationView::PeerHello { addr, fingerprint: Some(fingerprint), commit },
            );
            let was = s.clients.clients[handle];
            let c = o.service.clients.clients[handle];
            &&& s.client_of_peer(addr, Some(fingerprint)) == Some(handle)
            &&& c.state.peer_commit == Some(commit)
            &&& c.config == was.config
            &&& c.state.active == was.state.active
            &&& c.state.alive == was.state.alive
            &&& o.effects == seq![
                EffectView::Notify(
                    EventView::State(InfoView { handle, config: c.config, state: c.state }),
                ),
            ]
        }),
{
    lemma_first_such(
        s.clients,
        |c: ClientView| is_of_fingerprint(c, normalized_fingerprint(fingerprint)),
        0,
        i,
    );
}

/// A service that has just been set up listens on the port of its file, trusts
/// its keys, and has neither capture nor emulation nor a connection yet.
pub proof fn service_starts_from_its_file(config: FileView, fingerprint: Seq<char>)
    ensures
        ({
            let s = ServiceView::initial(config, fingerprint);
            &&& s.config == config
            &&& s.port == config.port
            &&& s.authorized == config.authorized
            &&& s.public_key_fingerprint == fingerprint
            &&& s.capture_status is Disabled
            &&& s.emulation_status is Disabled
            &&& s.capture_recovery_attempts == 0
            &&& s.emulation_recovery_attempts == 0
            &&& s.incoming.dom() == Set::<u64>::empty()
            &&& s.prefired == Set::<u64>::empty()
        }),
{
    assert(ServiceView::initial(config, fingerprint).incoming.dom() =~= Set::<u64>::empty());
}

#[verifier::rlimit(40)]
proof fn lemma_activated_keeps(s: ServiceView, handle: u64)
    ensures
        ({
            let t = s.activated(handle).service;
            &&& t.clients.order == s.clients.order
            &&& t.clients.next == s.clients.next
            &&& t.config == s.config
            &&& forall|h: u64| #[trigger] t.clients.has(h) == s.clients.has(h)
            &&& forall|h: u64| #[trigger]
                s.clients.has(h) ==> t.clients.clients[h].config == s.clients.clients[h].config
        }),
{
}

#[verifier::rlimit(40)]
proof fn lemma_config_clients_come(
    s: ServiceView,
    clients: Seq<crate::client::ConfigClientView>,
)
    requires
        s.clients.next + clients.len() <= CLIENT_HANDLE_END,
    ensures
        ({
            let t = s.config_clients_added(clients).service;
            let n = s.clients.order.len();
            &&& t.config == s.config
            &&& t.clients.next == s.clients.next + clients.len()
            &&& t.clients.order.len() == n + clients.len()
            &&& forall|h: u64| #[trigger]
                t.clients.has(h) <==> s.clients.has(h) || s.clients.next <= h < s.clients.next
                    + clients.len()
            &&& forall|i: int|
                0 <= i < clients.len() ==> #[trigger] t.clients.order[n + i] == s.clients.next + i
                    && t.clients.clients[(s.clients.next + i) as u64].config
                    == crate::client::client_of(clients[i]).config
        }),
    decreases clients.len(),
{
    if clients.len() > 0 {
        let rest = clients.drop_last();
        lemma_config_clients_come(s, rest);
        let p = s.config_clients_added(rest).service;
        let handle = p.clients.next;
        let c = clients.last();
        let added = p.with_clients(p.clients.added(crate::client::client_of(c)));
        lemma_activated_keeps(added.with_active(handle, false), handle);
        let t = s.config_clients_added(clients).service;
        assert(t.clients.order == p.clients.order.push(handle));
        assert forall|h: u64| #[trigger] t.clients.has(h) == (p.clients.has(h) || h == handle) by {
            assert(added.with_active(handle, false).clients.has(h) == (p.clients.has(h) || h
                == handle));
        }
        let n = s.clients.order.len();
        assert forall|i: int| 0 <= i < clients.len() implies #[trigger] t.clients.order[n + i]
            == s.clients.next + i && t.clients.clients[(s.clients.next + i) as u64].config
            == crate::client::client_of(clients[i]).config by {
            let h = (s.clients.next + i) as u64;
            if i < rest.len() {
                assert(p.clients.order[n + i] == s.clients.next + i);
                assert(rest[i] == clients[i]);
                assert(p.clients.has(h));
            }
            assert(p.clients.has(h) || h == handle);
            assert(added.clients.has(h));
            assert(added.with_active(handle, false).clients.has(h));
        }
    }
}

proof fn lemma_all_gone(s: ServiceView, handles: Seq<u64>)
    ensures
        ({
            let t = s.all_removed(handles).service;
            &&& t.config == s.config
            &&& t.clients.next == s.clients.next
            &&& forall|h: u64| #[trigger]
                t.clients.has(h) <==> s.clients.has(h) && !handles.contains(h)
            &&& forall|h: u64| #[trigger]
                t.clients.order.contains(h) <==> s.clients.order.contains(h) && !handles.contains(h)
        }),
    decreases handles.len(),
{
    if handles.len() > 0 {
        let rest = handles.drop_last();
        lemma_all_gone(s, rest);
        let p = s.all_removed(rest).service;
        crate::client::lemma_removed(p.clients, handles.last());
        assert forall|h: u64| #[trigger] handles.contains(h) <==> rest.contains(h) || h
            == handles.last() by {
            if rest.contains(h) {
                let i = choose|i: int| 0 <= i < rest.len() && rest[i] == h;
                assert(handles[i] == h);
            }
            if handles.contains(h) {
                let i = choose|i: int| 0 <= i < handles.len() && handles[i] == h;
                if i < rest.len() {
                    assert(rest[i] == h);
                }
            }
            assert(handles[handles.len() - 1] == handles.last());
        }
        let t = s.all_removed(handles).service;
        assert(t.clients == p.clients.removed(handles.last()));
        assert forall|h: u64| #[trigger] t.clients.has(h) <==> s.clients.has(h)
            && !handles.contains(h) by {
            assert(p.clients.has(h) <==> s.clients.has(h) && !rest.contains(h));
        }
        assert forall|h: u64| #[trigger] t.clients.order.contains(h) <==> s.clients.order.contains(
            h,
        ) && !handles.contains(h) by {
            assert(p.clients.removed(handles.last()).order.contains(h) <==> p.clients.order.contains(
                h,
            ) && h != handles.last());
            assert(p.clients.order.contains(h) <==> s.clients.order.contains(h) && !rest.contains(
                h,
            ));
        }
    }
}

/// When the file has changed, the clients are those of the file, in its order
/// and configured as it says; the old ones are gone; the trusted keys are those
/// of the file.
#[verifier::rlimit(40)]
pub proof fn reload_follows_the_file(s: ServiceView, i: int, old_client: u64)
    requires
        in_order(s),
        s.clients.next + s.config.clients.len() <= CLIENT_HANDLE_END,
        0 <= i < s.config.clients.len(),
        s.clients.has(old_client),
    ensures
        ({
            let t = s.config_changed().service;
            let c = t.clients.clients[t.clients.order[i]].config;
            let f = s.config.clients[i];
            &&& t.config == s.config
            &&& t.authorized == s.config.authorized
            &&& t.clients.order.len() == s.config.clients.len()
            &&& t.clients.has(t.clients.order[i])
            &&& !t.clients.has(old_client)
            &&& c.hostname == f.hostname
            &&& c.peer_fingerprint == f.peer_fingerprint
            &&& c.port == f.port
            &&& c.pos == f.pos
            &&& c.cmd == f.enter_hook
            &&& c.cmd_leave == f.leave_hook
            &&& c.actions == f.actions
        }),
{
    let gone = s.all_removed(s.clients.order).service;
    lemma_all_gone(s, s.clients.order);
    if gone.clients.order.len() > 0 {
        assert(gone.clients.order.contains(gone.clients.order[0]));
    }
    lemma_config_clients_come(gone, s.config.clients);
    let come = gone.config_clients_added(s.config.clients).service;
    let t = s.config_changed().service;
    assert(t.clients == come.clients);
    assert(come.clients.order[0 + i] == gone.clients.next + i);
    assert(t.clients.order[i] == (gone.clients.next + i) as u64);
    assert(come.clients.has((gone.clients.next + i) as u64));
    assert(s.clients.order.contains(old_client));
    assert(!gone.clients.has(old_client));
    assert(!come.clients.has(old_client));
}

/// After a reload the capture gets the release keys and the threshold of the
/// file, and the frontends are told everything.
#[verifier::rlimit(40)]
pub proof fn reload_sets_the_capture(s: ServiceView)
    ensures
        ({
            let o = s.config_changed();
            let n = o.effects.len();
            &&& n >= 11
            &&& o.effects[n - 11] == EffectView::CaptureReleaseBind(s.config.release_bind)
            &&& o.effects[n - 10] == EffectView::CaptureReleaseThreshold(
                s.config.release_threshold_px,
            )
            &&& o.effects[n - 9] == EffectView::Notify(
                EventView::ReleaseThreshold(s.config.release_threshold_px),
            )
            &&& o.effects[n - 8] == EffectView::Notify(
                EventView::Enumerate(o.service.clients.infos()),
            )
            &&& o.effects[n - 1] == EffectView::Notify(
                EventView::AuthorizedUpdated(s.config.authorized),
            )
        }),
{
}

proof fn lemma_silenced(s: ServiceView, handles: Seq<u64>)
    ensures
        ({
            let t = s.silently_deactivated(handles);
            &&& t.clients.order == s.clients.order
            &&& forall|h: u64| #[trigger] t.clients.has(h) == s.clients.has(h)
            &&& forall|h: u64| #[trigger]
                s.clients.has(h) ==> t.clients.clients[h].config == s.clients.clients[h].config
            &&& forall|h: u64| #[trigger]
                t.is_active(h) <==> s.is_active(h) && !handles.contains(h)
        }),
    decreases handles.len(),
{
    if handles.len() > 0 {
        let rest = handles.drop_last();
        lemma_silenced(s, rest);
        let p = s.silently_deactivated(rest);
        let t = s.silently_deactivated(handles);
        assert(t == p.with_active(handles.last(), false));
        assert forall|h: u64| #[trigger] t.clients.has(h) == s.clients.has(h) by {
            assert(p.clients.has(h) == s.clients.has(h));
        }
        assert forall|h: u64| #[trigger] s.clients.has(h) implies t.clients.clients[h].config
            == s.clients.clients[h].config by {
            assert(p.clients.has(h) == s.clients.has(h));
            assert(t.clients.has(h));
        }
        assert forall|h: u64| #[trigger] t.is_active(h) <==> s.is_active(h) && !handles.contains(
            h,
        ) by {
            if rest.contains(h) {
                let i = choose|i: int| 0 <= i < rest.len() && rest[i] == h;
                assert(handles[i] == h);
            }
            if handles.contains(h) {
                let i = choose|i: int| 0 <= i < handles.len() && handles[i] == h;
                if i < rest.len() {
                    assert(rest[i] == h);
                }
            }
            assert(handles[handles.len() - 1] == handles.last());
            assert(p.is_active(h) <==> s.is_active(h) && !rest.contains(h));
        }
    }
}

#[verifier::rlimit(40)]
proof fn lemma_all_up(s: ServiceView, handles: Seq<u64>)
    requires
        forall|h: u64| !#[trigger] s.is_active(h),
        forall|i: int| 0 <= i < handles.len() ==> s.clients.has(#[trigger] handles[i]),
        forall|i: int, j: int|
            0 <= i < handles.len() && 0 <= j < handles.len() && handles[i] != handles[j]
                ==> s.clients.clients[#[trigger] handles[i]].config.pos
                != s.clients.clients[#[trigger] handles[j]].config.pos,
    ensures
        ({
            let t = s.all_activated(handles).service;
            &&& t.clients.order == s.clients.order
            &&& forall|h: u64| #[trigger] t.clients.has(h) == s.clients.has(h)
            &&& forall|h: u64| #[trigger]
                s.clients.has(h) ==> t.clients.clients[h].config == s.clients.clients[h].config
            &&& forall|h: u64| #[trigger] t.is_active(h) <==> handles.contains(h)
        }),
    decreases handles.len(),
{
    if handles.len() > 0 {
        let rest = handles.drop_last();
        assert forall|i: int, j: int|
            0 <= i < rest.len() && 0 <= j < rest.len() && rest[i] != rest[j] implies
            s.clients.clients[#[trigger] rest[i]].config.pos
            != s.clients.clients[#[trigger] rest[j]].config.pos by {
            assert(rest[i] == handles[i] && rest[j] == handles[j]);
        }
        assert forall|i: int| 0 <= i < rest.len() implies s.clients.has(#[trigger] rest[i]) by {
            assert(rest[i] == handles[i]);
        }
        lemma_all_up(s, rest);
        let p = s.all_activated(rest).service;
        let handle = handles.last();
        assert(handles[handles.len() - 1] == handle);
        assert(s.clients.has(handle));
        assert(p.clients.has(handle));
        let pos = p.clients.clients[handle].config.pos;
        crate::client::lemma_first_at(p.clients, pos, 0);
        if p.rival(handle) is Some {
            let other = p.rival(handle)->0;
            assert(p.clients.active_at(other, pos));
            assert(p.is_active(other));
            assert(rest.contains(other));
            let i = choose|i: int| 0 <= i < rest.len() && rest[i] == other;
            assert(handles[i] == other);
            assert(s.clients.has(other));
        }
        let t = s.all_activated(handles).service;
        lemma_activated_keeps(p, handle);
        assert forall|h: u64| #[trigger] t.is_active(h) <==> handles.contains(h) by {
            assert(p.is_active(h) <==> rest.contains(h));
            if rest.contains(h) {
                let i = choose|i: int| 0 <= i < rest.len() && rest[i] == h;
                assert(handles[i] == h);
            }
            if handles.contains(h) {
                let i = choose|i: int| 0 <= i < handles.len() && handles[i] == h;
                if i < rest.len() {
                    assert(rest[i] == h);
                }
            }
        }
    }
}

/// Starting keeps every client and how it is configured, and exactly those
/// clients are active that were active in the file, if no two of these share a
/// side.
#[verifier::rlimit(40)]
pub proof fn starting_keeps_the_active_clients(s: ServiceView, handle: u64)
    requires
        in_order(s),
        s.clients.one_per_position(),
    ensures
        ({
            let t = s.started().service;
            &&& t.clients.order == s.clients.order
            &&& t.clients.has(handle) == s.clients.has(handle)
            &&& s.clients.has(handle) ==> t.clients.clients[handle].config
                == s.clients.clients[handle].config
            &&& t.is_active(handle) == s.is_active(handle)
        }),
{
    let pred = |h: u64| s.clients.clients[h].state.active;
    let active = s.clients.order.filter(pred);
    assert forall|h: u64| #[trigger] active.contains(h) <==> s.is_active(h) by {
        if active.contains(h) {
            let i = choose|i: int| 0 <= i < active.len() && active[i] == h;
            s.clients.order.lemma_filter_contains_rev(pred, h);
            s.clients.order.lemma_filter_pred(pred, i);
        }
        if s.is_active(h) {
            assert(s.clients.order.contains(h));
            let i = choose|i: int| 0 <= i < s.clients.order.len() && s.clients.order[i] == h;
            s.clients.order.lemma_filter_contains(pred, i);
        }
    }
    lemma_silenced(s, active);
    let quiet = s.silently_deactivated(active);
    assert forall|i: int| 0 <= i < active.len() implies quiet.clients.has(#[trigger] active[i]) by {
        assert(active.contains(active[i]));
        assert(s.is_active(active[i]));
    }
    assert forall|i: int, j: int|
        0 <= i < active.len() && 0 <= j < active.len() && active[i] != active[j] implies
        quiet.clients.clients[#[trigger] active[i]].config.pos
        != quiet.clients.clients[#[trigger] active[j]].config.pos by {
        assert(active.contains(active[i]) && active.contains(active[j]));
        assert(s.is_active(active[i]) && s.is_active(active[j]));
        let pos = s.clients.clients[active[i]].config.pos;
        if s.clients.clients[active[j]].config.pos == pos {
            assert(s.clients.active_at(active[i], pos));
            assert(s.clients.active_at(active[j], pos));
        }
    }
    lemma_all_up(quiet, active);
    let t = s.started().service;
    assert(t == quiet.all_activated(active).service);
    assert(quiet.clients.has(handle) == s.clients.has(handle));
    assert(t.clients.has(handle) == quiet.clients.has(handle));
    assert(t.is_active(handle) <==> active.contains(handle));
}

/// An operation did what it is to do if the service is then the due one, and
/// the due effects, all of them and no others, stand in their order behind those
/// that were there before.
pub proof fn done_means_all_of_it(
    before: Seq<Effect>,
    after: Seq<Effect>,
    service: ServiceView,
    outcome: Outcome,
    i: int,
)
    requires
        did(before, after, service, outcome),
    ensures
        service == outcome.service,
        after.len() == before.len() + outcome.effects.len(),
        0 <= i < before.len() ==> after[i]@ == before[i]@,
        0 <= i < outcome.effects.len() ==> after[before.len() + i]@ == outcome.effects[i],
{
    assert(effects(after).len() == after.len());
    assert(effects(before).len() == before.len());
    if 0 <= i < before.len() {
        assert(effects(after)[i] == effects(before)[i]);
    }
    if 0 <= i < outcome.effects.len() {
        assert(effects(after)[before.len() + i] == outcome.effects[i]);
    }
}

/// A peer that enters at another side, or under another key, than before gets a
/// new capture in place of the old one, and both its going and its coming are
/// told.
#[verifier::rlimit(40)]
pub proof fn reentering_peer_is_captured_anew(
    s: ServiceView,
    addr: SocketAddr,
    pos: Position,
    fingerprint: Seq<char>,
    handle: u64,
)
    requires
        incoming_wf(s.incoming, s.next_trigger_handle),
        s.next_trigger_handle < ENTER_HANDLE_BEGIN,
        s.incoming.dom().contains(handle),
        s.incoming[handle].addr == addr,
        s.incoming[handle].pos != pos || s.incoming[handle].fingerprint != fingerprint,
    ensures
        ({
            let o = s.emulated(EmulationView::Entered { addr, pos, fingerprint });
            let fresh = (0x8000_0000_0000_0000 + s.next_trigger_handle) as u64;
            &&& !o.service.incoming.dom().contains(handle)
            &&& o.service.incoming.dom().contains(fresh)
            &&& o.service.incoming[fresh].addr == addr
            &&& o.service.incoming[fresh].pos == pos
            &&& o.service.incoming[fresh].fingerprint == fingerprint
            &&& o.effects == seq![
                EffectView::CaptureDestroy(handle),
                EffectView::CaptureCreate(fresh, pos, CaptureType::EnterOnly),
                EffectView::Notify(EventView::IncomingDisconnected(addr)),
                EffectView::Notify(EventView::DeviceEntered { fingerprint, addr, pos }),
            ]
        }),
{
    let found = incoming_of(s.incoming, addr);
    assert(found is Some);
    assert(s.incoming.dom().contains(found->0) && s.incoming[found->0].addr == addr);
    assert(found->0 == handle);
    let o = s.emulated(EmulationView::Entered { addr, pos, fingerprint });
    let fresh = (0x8000_0000_0000_0000 + s.next_trigger_handle) as u64;
    assert(o.effects =~= seq![
        EffectView::CaptureDestroy(handle),
        EffectView::CaptureCreate(fresh, pos, CaptureType::EnterOnly),
        EffectView::Notify(EventView::IncomingDisconnected(addr)),
        EffectView::Notify(EventView::DeviceEntered { fingerprint, addr, pos }),
    ]);
}

/// Where no client has the key of a peer, the peer is the first active client
/// that has its address; and where there is none either, it is nobody.
pub proof fn peers_are_else_known_by_their_address(
    s: ServiceView,
    addr: SocketAddr,
    fingerprint: Option<Seq<char>>,
    i: int,
)
    requires
        fingerprint matches Some(fp) ==> forall|j: int|
            0 <= j < s.clients.order.len() ==> !is_of_fingerprint(
                s.clients.clients[#[trigger] s.clients.order[j]],
                normalized_fingerprint(fp),
            ),
    ensures
        0 <= i < s.clients.order.len() && ({
            let c = s.clients.clients[s.clients.order[i]];
            c.state.active && c.state.ips.contains(addr.ip)
        }) && (forall|j: int|
            0 <= j < i ==> !(s.clients.clients[#[trigger] s.clients.order[j]].state.active
                && s.clients.clients[s.clients.order[j]].state.ips.contains(addr.ip)))
            ==> s.client_of_peer(addr, fingerprint) == Some(s.clients.order[i]),
        (forall|j: int|
            0 <= j < s.clients.order.len() ==> !(
            s.clients.clients[#[trigger] s.clients.order[j]].state.active
                && s.clients.clients[s.clients.order[j]].state.ips.contains(addr.ip)))
            ==> s.client_of_peer(addr, fingerprint) is None,
{
    if let Some(fp) = fingerprint {
        lemma_no_such(
            s.clients,
            |c: ClientView| is_of_fingerprint(c, normalized_fingerprint(fp)),
            0,
        );
    }
    let by_address = |c: ClientView| c.state.active && c.state.ips.contains(addr.ip);
    if forall|j: int|
        0 <= j < s.clients.order.len() ==> !by_address(
            s.clients.clients[#[trigger] s.clients.order[j]],
        ) {
        lemma_no_such(s.clients, by_address, 0);
    }
    if 0 <= i < s.clients.order.len() && by_address(s.clients.clients[s.clients.order[i]]) && (
    forall|j: int|
        0 <= j < i ==> !by_address(s.clients.clients[#[trigger] s.clients.order[j]])) {
        lemma_first_such(s.clients, by_address, 0, i);
    }
}

proof fn lemma_no_such(m: ManagerView, pred: spec_fn(ClientView) -> bool, from: int)
    requires
        0 <= from,
        forall|j: int| from <= j < m.order.len() ==> !pred(m.clients[#[trigger] m.order[j]]),
    ensures
        crate::client::first_such(m, pred, from) is None,
    decreases m.order.len() - from,
{
    if from < m.order.len() {
        assert(!pred(m.clients[m.order[from]]));
        lemma_no_such(m, pred, from + 1);
    }
}

/// The client at a side is found if there is one, and it is the one that is
/// active there, at its configured position.
pub proof fn client_at_a_side_is_active_there(m: ManagerView, pos: Position, handle: u64)
    requires
        m.at(pos) == Some(handle),
    ensures
        m.has(handle),
        m.clients[handle].state.active,
        m.clients[handle].config.pos == pos,
{
    crate::client::lemma_first_at(m, pos, 0);
}

} // verus!
