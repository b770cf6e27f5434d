//! What the service keeps in order whatever happens.
use crate::capture::{CaptureType, ICaptureEvent};
use crate::client::{
    client_of, lemma_first_at, lemma_removed, order_lists_all_clients, ClientView,
    ConfigClientView, ManagerView, CLIENT_HANDLE_END,
};
use crate::ipc::{
    default_config, default_state, ActionTrigger, ActionView, ConfigView, EventView, Position,
    RequestView, StateView,
};
use crate::net::{lemma_sorted, SocketAddr};
use crate::service::{
    incoming_of, incoming_wf, with_config_clients, DnsEvent, EffectView, EmulationView,
    FileView, HealthError, HookKind, Outcome, Service, ServiceView, ENTER_HANDLE_BEGIN,
};
use vstd::prelude::*;

pub mod outcomes;

verus! {

/// The captures that there are once the effects have been carried out.
pub open spec fn captures_after(
    captures: Map<u64, (Position, CaptureType)>,
    effects: Seq<EffectView>,
) -> Map<u64, (Position, CaptureType)>
    decreases effects.len(),
{
    if effects.len() == 0 {
        captures
    } else {
        let before = captures_after(captures, effects.drop_last());
        match effects.last() {
            EffectView::CaptureCreate(handle, pos, kind) => before.insert(handle, (pos, kind)),
            EffectView::CaptureDestroy(handle) => before.remove(handle),
            _ => before,
        }
    }
}

/// The captures that there should be: one for every active client, at its
/// position, and one for every incoming connection, where it came from.
pub open spec fn captures_due(s: ServiceView) -> Map<u64, (Position, CaptureType)> {
    Map::new(
        |h: u64| s.is_active(h) || s.incoming.dom().contains(h),
        |h: u64|
            if s.incoming.dom().contains(h) {
                (s.incoming[h].pos, CaptureType::EnterOnly)
            } else {
                (s.clients.clients[h].config.pos, CaptureType::Default)
            },
    )
}

/// Whether the handles of clients and of incoming connections are kept apart,
/// and the list of clients is complete.
pub open spec fn in_order(s: ServiceView) -> bool {
    &&& forall|h: u64| #[trigger] s.clients.has(h) ==> h < s.clients.next
    &&& forall|h: u64| #[trigger] s.clients.has(h) ==> s.clients.order.contains(h)
    &&& forall|h: u64| #[trigger] s.clients.order.contains(h) ==> s.clients.has(h)
    &&& s.clients.next <= CLIENT_HANDLE_END
    &&& incoming_wf(s.incoming, s.next_trigger_handle)
}

/// A service whose parts are in order keeps the handles apart: no client has
/// the handle of an incoming connection.
pub proof fn client_and_incoming_handles_differ(s: Service, handle: u64)
    requires
        s.wf(),
    ensures
        in_order(s@),
        !(s@.clients.has(handle) && s@.incoming.dom().contains(handle)),
{
    order_lists_all_clients(s.clients);
}

proof fn lemma_captures_concat(
    captures: Map<u64, (Position, CaptureType)>,
    a: Seq<EffectView>,
    b: Seq<EffectView>,
)
    ensures
        captures_after(captures, a + b) == captures_after(captures_after(captures, a), b),
    decreases b.len(),
{
    if b.len() == 0 {
        assert(a + b =~= a);
    } else {
        lemma_captures_concat(captures, a, b.drop_last());
        assert((a + b).drop_last() =~= a + b.drop_last());
        assert((a + b).last() == b.last());
    }
}

proof fn lemma_captures_one(captures: Map<u64, (Position, CaptureType)>, e: EffectView)
    ensures
        captures_after(captures, seq![e]) == match e {
            EffectView::CaptureCreate(handle, pos, kind) => captures.insert(handle, (pos, kind)),
            EffectView::CaptureDestroy(handle) => captures.remove(handle),
            _ => captures,
        },
{
    let s = seq![e];
    assert(s.drop_last() =~= Seq::<EffectView>::empty());
    assert(captures_after(captures, s.drop_last()) == captures);
}

proof fn lemma_captures_push(
    captures: Map<u64, (Position, CaptureType)>,
    a: Seq<EffectView>,
    e: EffectView,
)
    ensures
        captures_after(captures, a.push(e)) == match e {
            EffectView::CaptureCreate(handle, pos, kind) => captures_after(captures, a).insert(
                handle,
                (pos, kind),
            ),
            EffectView::CaptureDestroy(handle) => captures_after(captures, a).remove(handle),
            _ => captures_after(captures, a),
        },
{
    assert(a.push(e).drop_last() =~= a);
}

/// Whether an outcome keeps the captures as they should be, and the parts in
/// order.
pub open spec fn keeps_captures(s: ServiceView, o: Outcome) -> bool {
    captures_after(captures_due(s), o.effects) == captures_due(o.service)
}

proof fn lemma_same_handles(s: ServiceView, t: ServiceView)
    requires
        in_order(s),
        t.clients.clients.dom() =~= s.clients.clients.dom(),
        t.clients.order == s.clients.order,
        t.clients.next == s.clients.next,
        t.incoming == s.incoming,
        t.next_trigger_handle == s.next_trigger_handle,
    ensures
        in_order(t),
{
    assert forall|h: u64| #[trigger] t.clients.has(h) implies h < t.clients.next
        && t.clients.order.contains(h) by {
        assert(s.clients.has(h));
    }
    assert forall|h: u64| #[trigger] t.clients.order.contains(h) implies t.clients.has(h) by {
        assert(s.clients.has(h));
    }
}

proof fn lemma_deactivated(s: ServiceView, handle: u64)
    requires
        in_order(s),
    ensures
        in_order(s.deactivated(handle).service),
        keeps_captures(s, s.deactivated(handle)),
{
    let o = s.deactivated(handle);
    let c = captures_due(s);
    if s.is_active(handle) {
        let t = s.with_active(handle, false);
        assert(o.effects =~= seq![EffectView::CaptureDestroy(handle)].push(t.broadcast(handle)));
        lemma_captures_push(c, seq![EffectView::CaptureDestroy(handle)], t.broadcast(handle));
        lemma_captures_one(c, EffectView::CaptureDestroy(handle));
        assert(captures_due(t) =~= c.remove(handle)) by {
            assert(!s.incoming.dom().contains(handle));
        }
        lemma_same_handles(s, t);
    }
}

proof fn lemma_activated(s: ServiceView, handle: u64)
    requires
        in_order(s),
    ensures
        in_order(s.activated(handle).service),
        keeps_captures(s, s.activated(handle)),
{
    let o = s.activated(handle);
    let c = captures_due(s);
    if s.clients.has(handle) {
        let pos = s.clients.clients[handle].config.pos;
        let room = match s.rival(handle) {
            Some(other) => s.deactivated(other),
            None => s.unchanged(),
        };
        match s.rival(handle) {
            Some(other) => lemma_deactivated(s, other),
            None => {},
        }
        lemma_captures_resolve(s, handle, c);
        lemma_captures_concat(c, s.resolve(handle), room.effects);
        if !room.service.is_active(handle) {
            let t = room.service.with_active(handle, true);
            let create = EffectView::CaptureCreate(handle, pos, CaptureType::Default);
            let before = s.resolve(handle) + room.effects;
            assert(o.effects =~= before.push(create).push(t.broadcast(handle)));
            lemma_captures_push(c, before, create);
            lemma_captures_push(c, before.push(create), t.broadcast(handle));
            assert(captures_due(t) =~= captures_due(room.service).insert(
                handle,
                (pos, CaptureType::Default),
            ));
            lemma_same_handles(room.service, t);
        }
    }
}

proof fn lemma_captures_resolve(
    s: ServiceView,
    handle: u64,
    c: Map<u64, (Position, CaptureType)>,
)
    ensures
        captures_after(c, s.resolve(handle)) == c,
{
    if s.clients.has(handle) {
        match s.clients.clients[handle].config.hostname {
            Some(host) => lemma_captures_one(c, EffectView::Resolve(handle, host)),
            None => {},
        }
    }
}

/// Nobody else is active at the position of the client that is found there.
proof fn lemma_found(s: ServiceView, pos: Position)
    requires
        in_order(s),
    ensures
        match s.clients.at(pos) {
            Some(h) => s.clients.active_at(h, pos),
            None => forall|h: u64| !#[trigger] s.clients.active_at(h, pos),
        },
{
    lemma_first_at(s.clients, pos, 0);
    if s.clients.at(pos) is None {
        assert forall|h: u64| !#[trigger] s.clients.active_at(h, pos) by {
            if s.clients.active_at(h, pos) {
                assert(s.clients.has(h));
                assert(s.clients.order.contains(h));
                let i = choose|i: int|
                    0 <= i < s.clients.order.len() && s.clients.order[i] == h;
                assert(!s.clients.active_at(s.clients.order[i], pos));
            }
        }
    }
}

/// A change that makes nobody active and moves nobody keeps the positions
/// apart.
proof fn lemma_positions_kept(s: ServiceView, t: ServiceView)
    requires
        s.clients.one_per_position(),
        forall|h: u64, pos: Position|
            #[trigger] t.clients.active_at(h, pos) ==> s.clients.active_at(h, pos),
    ensures
        t.clients.one_per_position(),
{
    assert forall|a: u64, b: u64, pos: Position|
        #[trigger] t.clients.active_at(a, pos) && #[trigger] t.clients.active_at(
            b,
            pos,
        ) implies a == b by {
        assert(s.clients.active_at(a, pos));
        assert(s.clients.active_at(b, pos));
    }
}

proof fn lemma_activated_alone(s: ServiceView, handle: u64)
    requires
        in_order(s),
        s.clients.one_per_position(),
    ensures
        s.activated(handle).service.clients.one_per_position(),
{
    if s.clients.has(handle) {
        let pos = s.clients.clients[handle].config.pos;
        lemma_found(s, pos);
        let room = match s.rival(handle) {
            Some(other) => s.deactivated(other),
            None => s.unchanged(),
        };
        lemma_positions_kept(s, room.service);
        let t = s.activated(handle).service;
        assert forall|h: u64| h != handle implies !#[trigger] t.clients.active_at(h, pos) by {
            if t.clients.active_at(h, pos) {
                assert(s.clients.active_at(h, pos));
                match s.clients.at(pos) {
                    Some(found) => {
                        assert(s.clients.active_at(found, pos));
                        assert(h == found);
                    },
                    None => {},
                }
            }
        }
        assert forall|a: u64, b: u64, p: Position|
            #[trigger] t.clients.active_at(a, p) && #[trigger] t.clients.active_at(
                b,
                p,
            ) implies a == b by {
            if a != handle && b != handle {
                assert(room.service.clients.active_at(a, p));
                assert(room.service.clients.active_at(b, p));
            }
        }
    }
}

/// Whether the service is as it should be: the handles are kept apart, and no
/// two clients are active at one position.
pub open spec fn sound(s: ServiceView) -> bool {
    in_order(s) && s.clients.one_per_position()
}

/// Whether an outcome leaves the service as it should be, and the captures
/// too.
pub open spec fn keeps_order(s: ServiceView, o: Outcome) -> bool {
    sound(o.service) && keeps_captures(s, o)
}

/// A change that concerns neither handles nor captures, and tells only
/// frontends and the like.
proof fn lemma_untouched(s: ServiceView, o: Outcome)
    requires
        sound(s),
        o.service.clients.clients.dom() =~= s.clients.clients.dom(),
        o.service.clients.order == s.clients.order,
        o.service.clients.next == s.clients.next,
        o.service.incoming == s.incoming,
        o.service.next_trigger_handle == s.next_trigger_handle,
        forall|h: u64|
            #[trigger] s.clients.has(h) ==> o.service.clients.clients[h].state.active
                == s.clients.clients[h].state.active,
        forall|h: u64|
            #[trigger] s.is_active(h) ==> o.service.clients.clients[h].config.pos
                == s.clients.clients[h].config.pos,
        forall|i: int|
            0 <= i < o.effects.len() ==> !(#[trigger] o.effects[i] is CaptureCreate)
                && !(o.effects[i] is CaptureDestroy),
    ensures
        keeps_order(s, o),
{
    let t = o.service;
    lemma_same_handles(s, t);
    assert forall|h: u64, pos: Position| #[trigger] t.clients.active_at(h, pos) implies
        s.clients.active_at(h, pos) by {
        assert(s.clients.has(h));
        assert(s.is_active(h));
    }
    lemma_positions_kept(s, t);
    assert(captures_due(t) =~= captures_due(s)) by {
        assert forall|h: u64| t.is_active(h) <==> #[trigger] s.is_active(h) by {
            assert(t.clients.has(h) <==> s.clients.has(h));
        }
        assert forall|h: u64| #[trigger] captures_due(t).dom().contains(h) <==> captures_due(
            s,
        ).dom().contains(h) by {
            assert(t.is_active(h) <==> s.is_active(h));
        }
        assert forall|h: u64| #[trigger] captures_due(t).dom().contains(h) implies captures_due(
            t,
        )[h] == captures_due(s)[h] by {
            assert(t.is_active(h) <==> s.is_active(h));
        }
    }
    lemma_no_captures(captures_due(s), o.effects);
}

proof fn lemma_no_captures(c: Map<u64, (Position, CaptureType)>, effects: Seq<EffectView>)
    requires
        forall|i: int|
            0 <= i < effects.len() ==> !(#[trigger] effects[i] is CaptureCreate)
                && !(effects[i] is CaptureDestroy),
    ensures
        captures_after(c, effects) == c,
    decreases effects.len(),
{
    if effects.len() > 0 {
        let rest = effects.drop_last();
        assert forall|i: int| 0 <= i < rest.len() implies !(#[trigger] rest[i] is CaptureCreate)
            && !(rest[i] is CaptureDestroy) by {
            assert(rest[i] == effects[i]);
        }
        lemma_no_captures(c, rest);
        assert(effects.last() == effects[effects.len() - 1]);
    }
}

proof fn lemma_saved(s: ServiceView, o: Outcome)
    requires
        keeps_order(s, o),
    ensures
        keeps_order(s, o.and_saved()),
{
    lemma_captures_push(captures_due(s), o.effects, EffectView::WriteConfig);
    lemma_same_handles(o.service, o.service.saved());
    lemma_positions_kept(o.service, o.service.saved());
    assert(captures_due(o.service.saved()) =~= captures_due(o.service));
}

proof fn lemma_set_active(s: ServiceView, handle: u64, active: bool)
    requires
        sound(s),
    ensures
        keeps_order(s, s.activated(handle)),
        keeps_order(s, s.deactivated(handle)),
{
    lemma_activated(s, handle);
    lemma_activated_alone(s, handle);
    lemma_deactivated(s, handle);
    lemma_positions_kept(s, s.deactivated(handle).service);
}

proof fn lemma_client_added(s: ServiceView, client: ClientView)
    requires
        sound(s),
        s.clients.next < CLIENT_HANDLE_END,
        !client.state.active,
    ensures
        sound(s.with_clients(s.clients.added(client))),
        captures_due(s.with_clients(s.clients.added(client))) == captures_due(s),
{
    let t = s.with_clients(s.clients.added(client));
    let new = s.clients.next;
    assert(!s.clients.has(new));
    assert forall|h: u64| #[trigger] t.clients.has(h) implies h < t.clients.next
        && t.clients.order.contains(h) by {
        if h != new {
            assert(s.clients.has(h));
            let i = choose|i: int| 0 <= i < s.clients.order.len() && s.clients.order[i] == h;
            assert(t.clients.order[i] == h);
        } else {
            assert(t.clients.order[s.clients.order.len() as int] == h);
        }
    }
    assert forall|h: u64| #[trigger] t.clients.order.contains(h) implies t.clients.has(h) by {
        let i = choose|i: int| 0 <= i < t.clients.order.len() && t.clients.order[i] == h;
        if i < s.clients.order.len() {
            assert(s.clients.order[i] == h);
            assert(s.clients.order.contains(h));
        }
    }
    lemma_positions_kept(s, t);
    assert(captures_due(t) =~= captures_due(s));
}

proof fn lemma_client_removed(s: ServiceView, handle: u64)
    requires
        sound(s),
    ensures
        keeps_order(s, s.client_removed(handle)),
        s.client_removed(handle).service.clients.next == s.clients.next,
{
    let o = s.client_removed(handle);
    let t = o.service;
    let c = captures_due(s);
    lemma_removed(s.clients, handle);
    assert forall|h: u64| #[trigger] t.clients.has(h) implies h < t.clients.next
        && t.clients.order.contains(h) by {
        assert(s.clients.has(h));
        assert(s.clients.order.contains(h));
    }
    assert forall|h: u64| #[trigger] t.clients.order.contains(h) implies t.clients.has(h) by {
        assert(s.clients.order.contains(h));
        assert(s.clients.has(h));
    }
    lemma_positions_kept(s, t);
    let deleted = EffectView::Notify(EventView::Deleted(handle));
    if s.is_active(handle) {
        let destroy = EffectView::CaptureDestroy(handle);
        assert(o.effects =~= seq![destroy].push(deleted));
        lemma_captures_push(c, seq![destroy], deleted);
        lemma_captures_one(c, destroy);
        assert(!s.incoming.dom().contains(handle));
        assert(captures_due(t) =~= c.remove(handle));
    } else {
        lemma_captures_one(c, deleted);
        assert(captures_due(t) =~= c);
    }
}

proof fn lemma_repositioned(s: ServiceView, handle: u64, pos: Position)
    requires
        sound(s),
    ensures
        keeps_order(s, s.repositioned(handle, pos)),
{
    let o = s.repositioned(handle, pos);
    let config = ConfigView { pos, ..s.clients.clients[handle].config };
    let t = s.with_clients(s.clients.with_config(handle, config));
    if s.is_active(handle) && s.clients.clients[handle].config.pos != pos {
        let d = t.deactivated(handle);
        let a = d.service.activated(handle);
        let c = captures_due(s);
        lemma_same_handles(s, t);
        lemma_deactivated(t, handle);
        assert forall|h: u64, p: Position| #[trigger] d.service.clients.active_at(
            h,
            p,
        ) implies s.clients.active_at(h, p) by {
            assert(h != handle);
        }
        lemma_positions_kept(s, d.service);
        lemma_set_active(d.service, handle, true);
        // What is due before differs from what is due after the change of the
        // configuration at this handle only, and there the capture goes.
        let destroy = EffectView::CaptureDestroy(handle);
        assert(d.effects =~= seq![destroy].push(d.service.broadcast(handle)));
        lemma_captures_push(c, seq![destroy], d.service.broadcast(handle));
        lemma_captures_one(c, destroy);
        assert(!s.incoming.dom().contains(handle));
        assert(captures_due(d.service) =~= c.remove(handle));
        lemma_captures_concat(c, d.effects, a.effects);
        assert(o.effects =~= (d.effects + a.effects).push(a.service.broadcast(handle)));
        lemma_captures_push(c, d.effects + a.effects, a.service.broadcast(handle));
    } else {
        lemma_untouched(s, o);
    }
}

proof fn lemma_update(s: ServiceView, request: RequestView)
    requires
        sound(s),
        crate::service::is_update(request),
    ensures
        keeps_order(s, s.requested(request)),
{
    match request {
        RequestView::UpdateFixIps(handle, ips) => {
            lemma_untouched(s, s.readdressed(handle, ips));
            lemma_saved(s, s.readdressed(handle, ips));
        },
        RequestView::UpdateHostname(handle, host) => {
            lemma_untouched(s, s.renamed(handle, host));
            lemma_saved(s, s.renamed(handle, host));
        },
        RequestView::UpdatePeerFingerprint(handle, fp) => {
            let config = ConfigView {
                peer_fingerprint: crate::service::nonempty_fingerprint(fp),
                ..s.clients.clients[handle].config
            };
            lemma_untouched(s, s.reconfigured(handle, config));
            lemma_saved(s, s.reconfigured(handle, config));
        },
        RequestView::UpdatePort(handle, port) => {
            let config = ConfigView { port, ..s.clients.clients[handle].config };
            lemma_untouched(s, s.reconfigured(handle, config));
            lemma_saved(s, s.reconfigured(handle, config));
        },
        RequestView::UpdatePosition(handle, pos) => {
            lemma_repositioned(s, handle, pos);
            lemma_saved(s, s.repositioned(handle, pos));
        },
        RequestView::UpdateEnterHook(handle, cmd) => {
            let config = ConfigView { cmd, ..s.clients.clients[handle].config };
            lemma_untouched(s, s.reconfigured(handle, config));
            lemma_saved(s, s.reconfigured(handle, config));
        },
        RequestView::UpdateLeaveHook(handle, cmd_leave) => {
            let config = ConfigView { cmd_leave, ..s.clients.clients[handle].config };
            lemma_untouched(s, s.reconfigured(handle, config));
            lemma_saved(s, s.reconfigured(handle, config));
        },
        RequestView::UpdateActions(handle, actions) => {
            let config = ConfigView { actions, ..s.clients.clients[handle].config };
            lemma_untouched(s, s.reconfigured(handle, config));
            lemma_saved(s, s.reconfigured(handle, config));
        },
        _ => {},
    }
}

/// Whatever a frontend requests, at most one client is active at each
/// position, and once the effects have been carried out every active client
/// and every incoming connection has its capture, and nobody else has one.
pub proof fn requests_keep_order(s: ServiceView, request: RequestView)
    requires
        sound(s),
        request is Create ==> s.clients.next < CLIENT_HANDLE_END,
    ensures
        sound(s.requested(request).service),
        captures_after(captures_due(s), s.requested(request).effects) == captures_due(
            s.requested(request).service,
        ),
{
    match request {
        RequestView::Activate(handle, active) => {
            lemma_set_active(s, handle, active);
            lemma_saved(s, if active { s.activated(handle) } else { s.deactivated(handle) });
        },
        RequestView::AuthorizeKey(desc, fp) => {
            lemma_untouched(s, s.key_added(desc, fp));
            lemma_saved(s, s.key_added(desc, fp));
        },
        RequestView::RemoveAuthorizedKey(fp) => {
            lemma_untouched(s, s.key_removed(fp));
            lemma_saved(s, s.key_removed(fp));
        },
        RequestView::Create => {
            let client = ClientView { config: default_config(), state: default_state() };
            lemma_client_added(s, client);
            lemma_captures_one(
                captures_due(s),
                EffectView::Notify(
                    EventView::Created(s.client_added().service.clients.info(s.clients.next)),
                ),
            );
            lemma_saved(s, s.client_added());
        },
        RequestView::Delete(handle) => {
            lemma_client_removed(s, handle);
            lemma_saved(s, s.client_removed(handle));
        },
        RequestView::SetReleaseThreshold(px) => {
            lemma_untouched(s, s.threshold_set(px));
            lemma_saved(s, s.threshold_set(px));
        },
        RequestView::SetMdnsDiscovery(on) => {
            lemma_untouched(s, s.discovery_switched(on));
            lemma_saved(s, s.discovery_switched(on));
        },
        RequestView::SaveConfiguration => {
            lemma_untouched(s, s.unchanged());
            lemma_saved(s, s.unchanged());
        },
        RequestView::ChangePort(_)
        | RequestView::EnableCapture
        | RequestView::EnableEmulation
        | RequestView::Enumerate
        | RequestView::ResolveDns(_)
        | RequestView::Sync => lemma_untouched(s, s.requested(request)),
        _ => lemma_update(s, request),
    }
}

proof fn lemma_all_activated(s: ServiceView, handles: Seq<u64>)
    requires
        sound(s),
    ensures
        keeps_order(s, s.all_activated(handles)),
    decreases handles.len(),
{
    if handles.len() > 0 {
        let p = s.all_activated(handles.drop_last());
        lemma_all_activated(s, handles.drop_last());
        lemma_set_active(p.service, handles.last(), true);
        let q = p.service.activated(handles.last());
        lemma_captures_concat(captures_due(s), p.effects, q.effects);
    }
}

proof fn lemma_all_removed(s: ServiceView, handles: Seq<u64>)
    requires
        sound(s),
    ensures
        keeps_order(s, s.all_removed(handles)),
        s.all_removed(handles).service.clients.next == s.clients.next,
    decreases handles.len(),
{
    if handles.len() > 0 {
        let p = s.all_removed(handles.drop_last());
        lemma_all_removed(s, handles.drop_last());
        lemma_client_removed(p.service, handles.last());
        let q = p.service.client_removed(handles.last());
        lemma_captures_concat(captures_due(s), p.effects, q.effects);
    }
}

proof fn lemma_silent(s: ServiceView, handles: Seq<u64>)
    requires
        in_order(s),
    ensures
        in_order(s.silently_deactivated(handles)),
        s.silently_deactivated(handles).incoming == s.incoming,
        forall|h: u64|
            #[trigger] s.silently_deactivated(handles).is_active(h) <==> s.is_active(h)
                && !handles.contains(h),
    decreases handles.len(),
{
    if handles.len() > 0 {
        let rest = handles.drop_last();
        let p = s.silently_deactivated(rest);
        let t = s.silently_deactivated(handles);
        lemma_silent(s, rest);
        lemma_same_handles(p, t);
        assert forall|h: u64| #[trigger] t.is_active(h) <==> s.is_active(h) && !handles.contains(
            h,
        ) by {
            assert(p.is_active(h) <==> s.is_active(h) && !rest.contains(h));
            if rest.contains(h) {
                let i = choose|i: int| 0 <= i < rest.len() && rest[i] == h;
                assert(handles[i] == h);
            }
            if handles.contains(h) && h != handles.last() {
                let i = choose|i: int| 0 <= i < handles.len() && handles[i] == h;
                assert(rest[i] == h);
            }
            assert(handles[handles.len() - 1] == handles.last());
        }
    } else {
        assert forall|h: u64| #[trigger] s.is_active(h) implies !handles.contains(h) by {}
    }
}

/// When the service starts to run, whatever the configuration says, at most
/// one client is active at each position, and exactly the active clients have
/// captures.
pub proof fn starting_brings_order(s: ServiceView)
    requires
        in_order(s),
        s.incoming.dom() == Set::<u64>::empty(),
    ensures
        sound(s.started().service),
        captures_after(Map::empty(), s.started().effects) == captures_due(s.started().service),
{
    let pred = |h: u64| s.clients.clients[h].state.active;
    let active = s.clients.order.filter(pred);
    assert(active == s.clients.order.filter(|h: u64| s.clients.clients[h].state.active));
    let quiet = s.silently_deactivated(active);
    lemma_silent(s, active);
    assert forall|h: u64| !#[trigger] quiet.is_active(h) by {
        if s.is_active(h) {
            assert(s.clients.has(h));
            assert(s.clients.order.contains(h));
            let i = choose|i: int| 0 <= i < s.clients.order.len() && s.clients.order[i] == h;
            s.clients.order.lemma_filter_contains(pred, i);
        }
    }
    assert forall|h: u64, pos: Position| !#[trigger] quiet.clients.active_at(h, pos) by {
        assert(!quiet.is_active(h));
    }
    assert(captures_due(quiet) =~= Map::empty());
    lemma_all_activated(quiet, active);
}

proof fn lemma_config_client(s: ServiceView, c: ConfigClientView)
    requires
        sound(s),
        s.clients.next < CLIENT_HANDLE_END,
    ensures
        keeps_order(s, s.config_client_added(c)),
        s.config_client_added(c).service.clients.next == s.clients.next + 1,
{
    let handle = s.clients.next;
    let t = s.with_clients(s.clients.added(client_of(c)));
    let o = s.config_client_added(c);
    let created = EffectView::Notify(EventView::Created(t.clients.info(handle)));
    if c.active {
        let idle = t.with_active(handle, false);
        let client = ClientView {
            state: StateView { active: false, ..client_of(c).state },
            ..client_of(c)
        };
        lemma_client_added(s, client);
        assert(idle.clients.clients =~= s.clients.added(client).clients);
        assert(idle =~= s.with_clients(s.clients.added(client)));
        lemma_set_active(idle, handle, true);
        let a = idle.activated(handle);
        lemma_captures_push(captures_due(s), a.effects, created);
    } else {
        lemma_client_added(s, client_of(c));
        lemma_captures_one(captures_due(s), created);
    }
}

proof fn lemma_config_clients(s: ServiceView, clients: Seq<ConfigClientView>)
    requires
        sound(s),
        s.clients.next + clients.len() <= CLIENT_HANDLE_END,
    ensures
        keeps_order(s, s.config_clients_added(clients)),
        s.config_clients_added(clients).service.clients.next == s.clients.next + clients.len(),
    decreases clients.len(),
{
    if clients.len() > 0 {
        let p = s.config_clients_added(clients.drop_last());
        lemma_config_clients(s, clients.drop_last());
        lemma_config_client(p.service, clients.last());
        let q = p.service.config_client_added(clients.last());
        lemma_captures_concat(captures_due(s), p.effects, q.effects);
    }
}

/// When the configuration file changes, the captures follow: afterwards the
/// clients of the file that are active have theirs, and at most one client is
/// active at each position.
pub proof fn config_change_keeps_order(s: ServiceView)
    requires
        sound(s),
        s.clients.next + s.config.clients.len() <= CLIENT_HANDLE_END,
    ensures
        sound(s.config_changed().service),
        captures_after(captures_due(s), s.config_changed().effects) == captures_due(
            s.config_changed().service,
        ),
{
    let gone = s.all_removed(s.clients.order);
    let come = gone.service.config_clients_added(s.config.clients);
    let t = s.config_changed().service;
    let c = captures_due(s);
    lemma_all_removed(s, s.clients.order);
    lemma_config_clients(gone.service, s.config.clients);
    lemma_captures_concat(c, gone.effects, come.effects);
    let rest = seq![
        EffectView::CaptureReleaseBind(s.config.release_bind),
        EffectView::CaptureReleaseThreshold(s.config.release_threshold_px),
        EffectView::Notify(EventView::ReleaseThreshold(s.config.release_threshold_px)),
    ] + t.synced();
    assert(s.config_changed().effects =~= (gone.effects + come.effects) + rest);
    lemma_captures_concat(c, gone.effects + come.effects, rest);
    lemma_no_captures(captures_after(c, gone.effects + come.effects), rest);
    lemma_same_handles(come.service, t);
    lemma_positions_kept(come.service, t);
    assert(captures_due(t) =~= captures_due(come.service));
}

proof fn lemma_incoming_added(
    s: ServiceView,
    addr: SocketAddr,
    pos: Position,
    fingerprint: Seq<char>,
)
    requires
        sound(s),
        s.has_free_trigger(),
        incoming_of(s.incoming, addr) is None,
    ensures
        keeps_order(s, s.incoming_added(addr, pos, fingerprint)),
        incoming_of(s.incoming_added(addr, pos, fingerprint).service.incoming, addr) == Some(
            (ENTER_HANDLE_BEGIN + s.next_trigger_handle) as u64,
        ),
{
    let o = s.incoming_added(addr, pos, fingerprint);
    let t = o.service;
    let handle = (ENTER_HANDLE_BEGIN + s.next_trigger_handle) as u64;
    assert forall|h: u64| #[trigger] s.incoming.dom().contains(h) implies s.incoming[h].addr
        != addr by {}
    assert forall|a: u64, b: u64|
        t.incoming.dom().contains(a) && t.incoming.dom().contains(b) && (
        #[trigger] t.incoming[a]).addr == (#[trigger] t.incoming[b]).addr implies a == b by {
        if a != handle && b != handle {
            assert(s.incoming[a].addr == s.incoming[b].addr);
        }
    }
    assert(incoming_wf(t.incoming, t.next_trigger_handle));
    lemma_positions_kept(s, t);
    let create = EffectView::CaptureCreate(handle, pos, CaptureType::EnterOnly);
    lemma_captures_one(captures_due(s), create);
    assert(!s.clients.has(handle));
    assert(captures_due(t) =~= captures_due(s).insert(handle, (pos, CaptureType::EnterOnly)));
    assert(t.incoming.dom().contains(handle) && t.incoming[handle].addr == addr);
    let found = choose|h: u64| #[trigger] t.incoming.dom().contains(h) && t.incoming[h].addr
        == addr;
    assert(t.incoming[found].addr == t.incoming[handle].addr);
}

proof fn lemma_incoming_removed(s: ServiceView, addr: SocketAddr)
    requires
        sound(s),
    ensures
        keeps_order(s, s.incoming_removed(addr)),
        incoming_of(s.incoming_removed(addr).service.incoming, addr) is None,
        s.incoming_removed(addr).service.next_trigger_handle == s.next_trigger_handle,
{
    let o = s.incoming_removed(addr);
    let t = o.service;
    match incoming_of(s.incoming, addr) {
        Some(handle) => {
            assert(s.incoming.dom().contains(handle) && s.incoming[handle].addr == addr);
            assert forall|a: u64, b: u64|
                t.incoming.dom().contains(a) && t.incoming.dom().contains(b) && (
                #[trigger] t.incoming[a]).addr == (#[trigger] t.incoming[b]).addr implies a
                == b by {
                assert(s.incoming[a].addr == s.incoming[b].addr);
            }
            assert forall|h: u64| #[trigger] t.incoming.dom().contains(h) implies
                t.incoming[h].addr != addr by {
                assert(s.incoming.dom().contains(h));
                if s.incoming[h].addr == s.incoming[handle].addr {
                    assert(h == handle);
                }
            }
            lemma_positions_kept(s, t);
            lemma_captures_one(captures_due(s), EffectView::CaptureDestroy(handle));
            assert(!s.clients.has(handle));
            assert(captures_due(t) =~= captures_due(s).remove(handle));
        },
        None => {},
    }
}

proof fn lemma_told(s: ServiceView, o: Outcome, e: EffectView)
    requires
        keeps_order(s, o),
        !(e is CaptureCreate),
        !(e is CaptureDestroy),
    ensures
        keeps_order(s, Outcome { service: o.service, effects: o.effects.push(e) }),
{
    lemma_captures_push(captures_due(s), o.effects, e);
}

proof fn lemma_device_entered(
    s: ServiceView,
    addr: SocketAddr,
    pos: Position,
    fingerprint: Seq<char>,
)
    requires
        sound(s),
        s.has_free_trigger(),
    ensures
        keeps_order(s, s.device_entered(addr, pos, fingerprint)),
{
    let o = s.device_entered(addr, pos, fingerprint);
    let told = EffectView::Notify(EventView::DeviceEntered { fingerprint, addr, pos });
    match incoming_of(s.incoming, addr) {
        None => {
            lemma_incoming_added(s, addr, pos, fingerprint);
            lemma_told(s, s.incoming_added(addr, pos, fingerprint), told);
        },
        Some(handle) => {
            if s.incoming[handle].fingerprint != fingerprint || s.incoming[handle].pos != pos {
                let r = s.incoming_removed(addr);
                let a = r.service.incoming_added(addr, pos, fingerprint);
                lemma_incoming_removed(s, addr);
                lemma_incoming_added(r.service, addr, pos, fingerprint);
                lemma_captures_concat(captures_due(s), r.effects, a.effects);
                let gone = EffectView::Notify(EventView::IncomingDisconnected(addr));
                let both = Outcome { service: a.service, effects: r.effects + a.effects };
                lemma_told(s, both, gone);
                let three = Outcome { service: a.service, effects: both.effects.push(gone) };
                lemma_told(s, three, told);
                assert(o.effects =~= three.effects.push(told));
            }
        },
    }
}

/// Whatever happens on the side that emulates input, the captures follow: an
/// incoming connection has one at the position at which it entered last, and
/// none once it is disconnected.
pub proof fn emulation_events_keep_order(s: ServiceView, event: EmulationView)
    requires
        sound(s),
        event is Entered ==> s.has_free_trigger(),
    ensures
        sound(s.emulated(event).service),
        captures_after(captures_due(s), s.emulated(event).effects) == captures_due(
            s.emulated(event).service,
        ),
{
    let o = s.emulated(event);
    match event {
        EmulationView::Entered { addr, pos, fingerprint } => {
            lemma_device_entered(s, addr, pos, fingerprint);
        },
        EmulationView::Disconnected { addr } => {
            lemma_incoming_removed(s, addr);
            lemma_told(
                s,
                s.incoming_removed(addr),
                EffectView::Notify(EventView::IncomingDisconnected(addr)),
            );
        },
        EmulationView::PeerHello { addr, fingerprint, commit } => {
            match s.client_of_peer(addr, fingerprint) {
                Some(handle) => lemma_untouched(s, o),
                None => {},
            }
        },
        _ => lemma_untouched(s, o),
    }
}

/// Events of the capture and of the resolver, and health checks, leave the
/// captures as they are.
pub proof fn other_events_keep_order(s: ServiceView, captured: ICaptureEvent, resolved: DnsEvent)
    requires
        sound(s),
    ensures
        sound(s.captured(captured).service),
        captures_due(s.captured(captured).service) == captures_due(s),
        captures_after(captures_due(s), s.captured(captured).effects) == captures_due(s),
        sound(s.resolved(resolved).service),
        captures_due(s.resolved(resolved).service) == captures_due(s),
        captures_after(captures_due(s), s.resolved(resolved).effects) == captures_due(s),
        sound(s.checked().0.service),
        captures_due(s.checked().0.service) == captures_due(s),
        captures_after(captures_due(s), s.checked().0.effects) == captures_due(s),
{
    lemma_untouched(s, s.captured(captured));
    lemma_no_captures(captures_due(s), s.captured(captured).effects);
    lemma_untouched(s, s.resolved(resolved));
    lemma_no_captures(captures_due(s), s.resolved(resolved).effects);
    lemma_untouched(s, s.checked().0);
    lemma_no_captures(captures_due(s), s.checked().0.effects);
}

/// A peer that enters again at the same position and with the same fingerprint
/// changes nothing.
pub proof fn entering_again_changes_nothing(
    s: ServiceView,
    addr: SocketAddr,
    pos: Position,
    fingerprint: Seq<char>,
)
    requires
        sound(s),
        s.has_free_trigger(),
    ensures
        ({
            let t = s.device_entered(addr, pos, fingerprint).service;
            t.device_entered(addr, pos, fingerprint) == t.unchanged()
        }),
{
    let t = s.device_entered(addr, pos, fingerprint).service;
    match incoming_of(s.incoming, addr) {
        None => lemma_incoming_added(s, addr, pos, fingerprint),
        Some(handle) => {
            if s.incoming[handle].fingerprint != fingerprint || s.incoming[handle].pos != pos {
                lemma_incoming_removed(s, addr);
                lemma_incoming_added(
                    s.incoming_removed(addr).service,
                    addr,
                    pos,
                    fingerprint,
                );
            }
        },
    }
}

/// A disconnection undoes an entrance: a peer that was not there before is
/// gone again.
pub proof fn disconnection_undoes_entrance(
    s: ServiceView,
    addr: SocketAddr,
    pos: Position,
    fingerprint: Seq<char>,
)
    requires
        sound(s),
        s.has_free_trigger(),
        incoming_of(s.incoming, addr) is None,
    ensures
        ({
            let t = s.emulated(EmulationView::Entered { addr, pos, fingerprint }).service;
            t.emulated(EmulationView::Disconnected { addr }).service.incoming == s.incoming
        }),
{
    let handle = (ENTER_HANDLE_BEGIN + s.next_trigger_handle) as u64;
    let t = s.emulated(EmulationView::Entered { addr, pos, fingerprint }).service;
    lemma_incoming_added(s, addr, pos, fingerprint);
    assert(!s.incoming.dom().contains(handle));
    assert(t.incoming.remove(handle) =~= s.incoming);
}

/// A request to change a client that does not exist is answered so, and
/// changes no client.
pub proof fn unknown_client_is_reported(s: ServiceView, request: RequestView, handle: u64)
    requires
        !s.clients.has(handle),
        match request {
            RequestView::UpdateFixIps(h, _) => h == handle,
            RequestView::UpdateHostname(h, _) => h == handle,
            RequestView::UpdatePeerFingerprint(h, _) => h == handle,
            RequestView::UpdatePort(h, _) => h == handle,
            RequestView::UpdatePosition(h, _) => h == handle,
            RequestView::UpdateEnterHook(h, _) => h == handle,
            RequestView::UpdateLeaveHook(h, _) => h == handle,
            RequestView::UpdateActions(h, _) => h == handle,
            _ => false,
        },
    ensures
        s.requested(request).service.clients == s.clients,
        s.requested(request).effects == seq![
            EffectView::Notify(EventView::NoSuchClient(handle)),
            EffectView::WriteConfig,
        ],
{
    assert(s.requested(request).effects =~= seq![
        EffectView::Notify(EventView::NoSuchClient(handle)),
        EffectView::WriteConfig,
    ]);
}

/// Whether both counts of the health checks are the same.
pub open spec fn same_counts(s: ServiceView, t: ServiceView) -> bool {
    &&& t.capture_recovery_attempts == s.capture_recovery_attempts
    &&& t.emulation_recovery_attempts == s.emulation_recovery_attempts
}

/// What happens to the service.
pub enum Operation {
    /// It starts to run.
    Start,
    /// A frontend requests something.
    Request(RequestView),
    /// The configuration file has changed to this.
    ConfigChange(FileView),
    /// Something happens to the emulation.
    Emulation(EmulationView),
    /// Something happens to the capture.
    Capture(ICaptureEvent),
    /// Something happens to the resolver.
    Resolver(DnsEvent),
    /// The connections turn the clients into these.
    Connections(ManagerView),
    /// Its health is checked.
    Check,
}

/// The service after an operation.
pub open spec fn after(s: ServiceView, operation: Operation) -> ServiceView {
    match operation {
        Operation::Start => s.started().service,
        Operation::Request(request) => s.requested(request).service,
        Operation::ConfigChange(config) => (ServiceView { config, ..s }).config_changed().service,
        Operation::Emulation(event) => s.emulated(event).service,
        Operation::Capture(event) => s.captured(event).service,
        Operation::Resolver(event) => s.resolved(event).service,
        Operation::Connections(clients) => s.with_clients(clients),
        Operation::Check => s.checked().0.service,
    }
}

/// The service after operations, one after the other.
pub open spec fn after_all(s: ServiceView, operations: Seq<Operation>) -> ServiceView
    decreases operations.len(),
{
    if operations.len() == 0 {
        s
    } else {
        after(after_all(s, operations.drop_last()), operations.last())
    }
}

proof fn lemma_all_activated_counts(s: ServiceView, handles: Seq<u64>)
    ensures
        same_counts(s, s.all_activated(handles).service),
    decreases handles.len(),
{
    if handles.len() > 0 {
        lemma_all_activated_counts(s, handles.drop_last());
    }
}

proof fn lemma_silent_counts(s: ServiceView, handles: Seq<u64>)
    ensures
        same_counts(s, s.silently_deactivated(handles)),
    decreases handles.len(),
{
    if handles.len() > 0 {
        lemma_silent_counts(s, handles.drop_last());
    }
}

proof fn lemma_all_removed_counts(s: ServiceView, handles: Seq<u64>)
    ensures
        same_counts(s, s.all_removed(handles).service),
    decreases handles.len(),
{
    if handles.len() > 0 {
        lemma_all_removed_counts(s, handles.drop_last());
    }
}

proof fn lemma_config_clients_counts(s: ServiceView, clients: Seq<ConfigClientView>)
    ensures
        same_counts(s, s.config_clients_added(clients).service),
    decreases clients.len(),
{
    if clients.len() > 0 {
        lemma_config_clients_counts(s, clients.drop_last());
    }
}

proof fn lemma_saved_counts(s: ServiceView, o: Outcome)
    requires
        same_counts(s, o.service),
    ensures
        same_counts(s, o.and_saved().service),
{
}

proof fn lemma_activation_counts(s: ServiceView, handle: u64)
    ensures
        same_counts(s, s.activated(handle).service),
        same_counts(s, s.deactivated(handle).service),
{
}

proof fn lemma_position_counts(s: ServiceView, handle: u64, pos: Position)
    ensures
        same_counts(s, s.repositioned(handle, pos).service),
{
}

#[verifier::spinoff_prover]
#[verifier::rlimit(60)]
proof fn lemma_request_counts(s: ServiceView, request: RequestView)
    ensures
        same_counts(s, s.requested(request).service),
{
    match request {
        RequestView::Activate(handle, active) => {
            lemma_activation_counts(s, handle);
            lemma_saved_counts(s, if active { s.activated(handle) } else { s.deactivated(handle) });
        },
        RequestView::UpdatePosition(handle, pos) => {
            lemma_position_counts(s, handle, pos);
            lemma_saved_counts(s, s.repositioned(handle, pos));
        },
        _ => {},
    }
}

proof fn lemma_emulation_counts(s: ServiceView, event: EmulationView)
    ensures
        same_counts(s, s.emulated(event).service),
{
}

proof fn lemma_event_counts(s: ServiceView, captured: ICaptureEvent, resolved: DnsEvent)
    ensures
        same_counts(s, s.captured(captured).service),
        same_counts(s, s.resolved(resolved).service),
{
}

/// Nothing but a health check touches the counts of the health checks.
pub proof fn only_checks_count(s: ServiceView, operation: Operation)
    requires
        !(operation is Check),
    ensures
        same_counts(s, after(s, operation)),
{
    match operation {
        Operation::Start => {
            let active = s.clients.order.filter(|h: u64| s.clients.clients[h].state.active);
            lemma_silent_counts(s, active);
            lemma_all_activated_counts(s.silently_deactivated(active), active);
        },
        Operation::ConfigChange(config) => {
            let t = ServiceView { config, ..s };
            let gone = t.all_removed(t.clients.order);
            lemma_all_removed_counts(t, t.clients.order);
            lemma_config_clients_counts(gone.service, config.clients);
        },
        Operation::Request(request) => lemma_request_counts(s, request),
        Operation::Emulation(event) => lemma_emulation_counts(s, event),
        Operation::Capture(event) => lemma_event_counts(s, event, DnsEvent::Resolving(0)),
        Operation::Resolver(event) => {
            lemma_event_counts(s, ICaptureEvent::CaptureEnabled, event);
        },
        Operation::Connections(_) => {},
        Operation::Check => {},
    }
}

/// How many checks in a row found capture disabled last, whatever happened in
/// between.
pub open spec fn capture_streak(s: ServiceView, operations: Seq<Operation>) -> nat
    decreases operations.len(),
{
    if operations.len() == 0 {
        0
    } else {
        let rest = operations.drop_last();
        if !(operations.last() is Check) {
            capture_streak(s, rest)
        } else if after_all(s, rest).capture_status is Disabled {
            capture_streak(s, rest) + 1
        } else {
            0
        }
    }
}

/// How many checks in a row found emulation disabled last, whatever happened in
/// between. A check that gives capture up does not look at emulation.
pub open spec fn emulation_streak(s: ServiceView, operations: Seq<Operation>) -> nat
    decreases operations.len(),
{
    if operations.len() == 0 {
        0
    } else {
        let rest = operations.drop_last();
        let before = after_all(s, rest);
        if !(operations.last() is Check) || before.checked().1 == Some(HealthError::Capture) {
            emulation_streak(s, rest)
        } else if before.emulation_status is Disabled {
            emulation_streak(s, rest) + 1
        } else {
            0
        }
    }
}

/// The count as it is kept: it stops at the largest number.
pub open spec fn counted(streak: nat) -> int {
    if streak <= u8::MAX {
        streak as int
    } else {
        u8::MAX as int
    }
}

proof fn lemma_streaks(s: ServiceView, operations: Seq<Operation>)
    ensures
        s.capture_recovery_attempts == 0 ==> after_all(s, operations).capture_recovery_attempts
            == counted(capture_streak(s, operations)),
        s.emulation_recovery_attempts == 0 ==> after_all(s, operations).emulation_recovery_attempts
            == counted(emulation_streak(s, operations)),
    decreases operations.len(),
{
    if operations.len() > 0 {
        let rest = operations.drop_last();
        lemma_streaks(s, rest);
        if !(operations.last() is Check) {
            only_checks_count(after_all(s, rest), operations.last());
        }
    }
}

/// Capture that stays disabled is given up from the third health check in a row
/// on that finds it so, and not before, whatever happens between the checks.
/// Each of them asks for it to be enabled again, and for nothing else.
pub proof fn disabled_capture_is_given_up(s: ServiceView, operations: Seq<Operation>)
    requires
        s.capture_recovery_attempts == 0,
        after_all(s, operations).capture_status is Disabled,
        after_all(s, operations).emulation_status is Enabled,
    ensures
        after_all(s, operations).checked().0.effects == seq![EffectView::CaptureReenable],
        after_all(s, operations).checked().1 == if capture_streak(s, operations) + 1 < 3 {
            None
        } else {
            Some(HealthError::Capture)
        },
{
    lemma_streaks(s, operations);
    assert(after_all(s, operations).checked().0.effects =~= seq![EffectView::CaptureReenable]);
}

/// Emulation that stays disabled is given up from the third health check in a
/// row on that finds it so, and not before, whatever happens between the
/// checks. Each of them asks for it to be enabled again, and for nothing else.
pub proof fn disabled_emulation_is_given_up(s: ServiceView, operations: Seq<Operation>)
    requires
        s.emulation_recovery_attempts == 0,
        after_all(s, operations).emulation_status is Disabled,
        after_all(s, operations).capture_status is Enabled,
    ensures
        after_all(s, operations).checked().0.effects == seq![EffectView::EmulationReenable],
        after_all(s, operations).checked().1 == if emulation_streak(s, operations) + 1 < 3 {
            None
        } else {
            Some(HealthError::Emulation)
        },
{
    lemma_streaks(s, operations);
    assert(after_all(s, operations).checked().0.effects =~= seq![EffectView::EmulationReenable]);
}

/// A health check at which both are enabled asks for nothing, and the count
/// starts anew.
pub proof fn recovery_starts_the_count_anew(s: ServiceView)
    requires
        s.capture_status is Enabled,
        s.emulation_status is Enabled,
    ensures
        s.checked().1 is None,
        s.checked().0.effects == Seq::<EffectView>::empty(),
        s.checked().0.service.capture_recovery_attempts == 0,
        s.checked().0.service.emulation_recovery_attempts == 0,
{
    assert(s.checked().0.effects =~= Seq::<EffectView>::empty());
}

/// The actions that the effects run, in their order.
pub open spec fn actions_run(effects: Seq<EffectView>) -> Seq<ActionView>
    decreases effects.len(),
{
    if effects.len() == 0 {
        seq![]
    } else {
        let before = actions_run(effects.drop_last());
        match effects.last() {
            EffectView::Run { actions, .. } => before + actions,
            _ => before,
        }
    }
}

proof fn lemma_actions_run_one(actions: Seq<ActionView>, cmd: Option<Seq<char>>, label: Seq<char>)
    ensures
        actions_run(seq![EffectView::Run { actions, cmd, label }]) == actions,
{
    let s = seq![EffectView::Run { actions, cmd, label }];
    assert(s.drop_last() =~= Seq::<EffectView>::empty());
    assert(actions_run(s.drop_last()) == Seq::<ActionView>::empty());
    assert(actions_run(s) =~= actions);
}

proof fn lemma_filter_same(
    s: Seq<ActionView>,
    p: spec_fn(ActionView) -> bool,
    q: spec_fn(ActionView) -> bool,
)
    requires
        forall|a: ActionView| #[trigger] p(a) == q(a),
    ensures
        s.filter(p) == s.filter(q),
    decreases s.len(),
{
    reveal(Seq::filter);
    if s.len() > 0 {
        lemma_filter_same(s.drop_last(), p, q);
        assert(p(s.last()) == q(s.last()));
    }
}

proof fn lemma_filter_none(s: Seq<ActionView>, p: spec_fn(ActionView) -> bool)
    requires
        forall|a: ActionView| !#[trigger] p(a),
    ensures
        s.filter(p) == Seq::<ActionView>::empty(),
    decreases s.len(),
{
    reveal(Seq::filter);
    if s.len() > 0 {
        lemma_filter_none(s.drop_last(), p);
        assert(!p(s.last()));
    }
}

/// The actions on entering.
pub open spec fn enter_actions(s: ServiceView, handle: u64) -> Seq<ActionView> {
    s.actions_of(handle).filter(|a: ActionView| a.on == ActionTrigger::Enter)
}

/// When the cursor crosses over to a client and the client then acknowledges,
/// each of its actions on entering is run once, in order, whether or not it
/// was started early.
pub proof fn enter_actions_are_run_once(s: ServiceView, handle: u64)
    requires
        !s.incoming.dom().contains(handle),
    ensures
        ({
            let begin = s.captured(ICaptureEvent::CaptureBegin(handle));
            let enter = begin.service.captured(ICaptureEvent::ClientEntered(handle));
            actions_run(begin.effects) + actions_run(enter.effects) == enter_actions(s, handle)
        }),
{
    let begin = s.captured(ICaptureEvent::CaptureBegin(handle));
    let t = begin.service;
    let enter = t.captured(ICaptureEvent::ClientEntered(handle));
    let all = s.actions_of(handle);
    assert(t.actions_of(handle) == all);
    let on_enter = |a: ActionView| a.on == ActionTrigger::Enter;
    let early = |a: ActionView| crate::actions::is_prefired(a);
    let skip = t.prefired.contains(handle);
    let late = |a: ActionView|
        a.on == HookKind::Enter.trigger() && !(skip && crate::actions::is_prefired(a));
    lemma_filter_same(all, on_enter, early);
    lemma_effects_of_prefire(s, handle);
    lemma_effects_of_hook(t, handle, HookKind::Enter, skip);
    if skip {
        lemma_filter_none(all, late);
    } else {
        lemma_filter_same(all, on_enter, late);
    }
    assert(actions_run(begin.effects) + actions_run(enter.effects) =~= enter_actions(s, handle));
}

proof fn lemma_effects_of_prefire(s: ServiceView, handle: u64)
    ensures
        ({
            let o = s.prefire(handle);
            let early = s.actions_of(handle).filter(
                |a: ActionView| crate::actions::is_prefired(a),
            );
            actions_run(o.effects) == if o.service.prefired.contains(handle) {
                early
            } else {
                seq![]
            }
        }),
{
    let early = s.actions_of(handle).filter(|a: ActionView| crate::actions::is_prefired(a));
    lemma_actions_run_one(early, None, "prefire enter"@);
}

proof fn lemma_effects_of_hook(s: ServiceView, handle: u64, kind: HookKind, skip: bool)
    ensures
        actions_run(s.hook(handle, kind, skip)) == s.actions_of(handle).filter(
            |a: ActionView| a.on == kind.trigger() && !(skip && crate::actions::is_prefired(a)),
        ),
{
    let actions = s.actions_of(handle).filter(
        |a: ActionView| a.on == kind.trigger() && !(skip && crate::actions::is_prefired(a)),
    );
    let cmd = if s.clients.has(handle) {
        match kind {
            HookKind::Enter => s.clients.clients[handle].config.cmd,
            HookKind::Leave => s.clients.clients[handle].config.cmd_leave,
        }
    } else {
        None
    };
    lemma_actions_run_one(actions, cmd, kind.text());
    assert(actions.len() == 0 ==> actions =~= Seq::<ActionView>::empty());
}

/// Early actions are started only for a client that is connected and can
/// emulate input.
pub proof fn nothing_is_run_early_for_an_absent_client(s: ServiceView, handle: u64)
    requires
        !s.clients.has(handle) || s.clients.clients[handle].state.active_addr is None
            || !s.clients.clients[handle].state.alive,
    ensures
        s.prefire(handle).effects == Seq::<EffectView>::empty(),
        !s.prefire(handle).service.prefired.contains(handle),
{
}

proof fn lemma_loaded(clients: Seq<ConfigClientView>)
    requires
        clients.len() <= CLIENT_HANDLE_END,
    ensures
        ({
            let m = with_config_clients(
                ManagerView { clients: Map::empty(), order: seq![], next: 0 },
                clients,
            );
            &&& m.next == clients.len()
            &&& m.order.len() == clients.len()
            &&& forall|i: int|
                0 <= i < clients.len() ==> #[trigger] m.order[i] == i && m.clients[i as u64]
                    == client_of(clients[i])
        }),
    decreases clients.len(),
{
    if clients.len() > 0 {
        let rest = clients.drop_last();
        lemma_loaded(rest);
        let empty = ManagerView { clients: Map::empty(), order: seq![], next: 0 };
        let p = with_config_clients(empty, rest);
        let m = with_config_clients(empty, clients);
        assert forall|i: int| 0 <= i < clients.len() implies #[trigger] m.order[i] == i
            && m.clients[i as u64] == client_of(clients[i]) by {
            if i < rest.len() {
                assert(p.order[i] == i);
                assert(rest[i] == clients[i]);
            }
        }
    }
}

/// What is saved is loaded: a service that is set up from the configuration
/// that another one saved has the same clients, in the same order, with the
/// same addresses, names, fingerprints, ports, positions, hooks and actions,
/// and the same of them active, and it trusts the same keys.
pub proof fn saved_configuration_is_restored(s: ServiceView, fingerprint: Seq<char>)
    requires
        s.clients.order.len() <= CLIENT_HANDLE_END,
    ensures
        ({
            let t = ServiceView::initial(s.saved().config, fingerprint);
            &&& t.clients.all_saved() == s.clients.all_saved()
            &&& t.authorized == s.authorized
        }),
{
    let saved = s.clients.all_saved();
    let t = ServiceView::initial(s.saved().config, fingerprint);
    lemma_loaded(saved);
    assert forall|i: int| 0 <= i < saved.len() implies #[trigger] t.clients.all_saved()[i]
        == saved[i] by {
        assert(t.clients.order[i] == i);
        let fix_ips = s.clients.clients[s.clients.order[i]].config.fix_ips;
        lemma_sorted(fix_ips);
        assert(t.clients.saved(i as u64) == saved[i]);
    }
    assert(t.clients.all_saved() =~= saved);
}

/// A key that is removed is trusted no longer, and the others as before.
pub proof fn removed_key_is_not_trusted(s: ServiceView, desc: Seq<char>, fp: Seq<char>)
    ensures
        ({
            let added = s.requested(RequestView::AuthorizeKey(desc, fp)).service;
            let removed = added.requested(RequestView::RemoveAuthorizedKey(fp)).service;
            &&& added.authorized.dom().contains(fp)
            &&& added.authorized[fp] == desc
            &&& removed.authorized == s.authorized.remove(fp)
        }),
{
    assert(s.authorized.insert(fp, desc).remove(fp) =~= s.authorized.remove(fp));
}

} // verus!
