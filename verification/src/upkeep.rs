//! What the service does from time to time for clients that are to be reached
//! and are not connected.
use crate::discovery::{normalize_fingerprint, normalized_fingerprint};
use crate::net::IpAddr;
use crate::service::{effects, emit, Effect, EffectView, Outcome, Service, ServiceView};
use vstd::prelude::*;

verus! {

impl ServiceView {
    /// Whether a client is active, and connected nowhere.
    pub open spec fn is_sought(self, handle: u64) -> bool {
        self.is_active(handle) && self.clients.clients[handle].state.active_addr is None
    }

    /// Tells of which clients the host's name is resolved again.
    pub open spec fn refresh_due(self) -> spec_fn(u64) -> bool {
        |handle: u64|
            self.is_sought(handle) && self.clients.clients[handle].config.hostname is Some
    }

    /// The name of a client's host is resolved again.
    pub open spec fn refresh(self) -> spec_fn(u64) -> EffectView {
        |handle: u64|
            EffectView::Resolve(handle, self.clients.clients[handle].config.hostname->0)
    }

    /// What refreshing the addresses of the clients brings about.
    pub open spec fn hostnames_refreshed(self) -> Outcome {
        Outcome {
            service: self,
            effects: self.clients.order.filter(self.refresh_due()).map_values(self.refresh()),
        }
    }

    /// Tells for which clients the local network is asked: those that are
    /// sought, have a fingerprint, and have no address of their own or of their
    /// host's name. What discovery once learned does not count.
    pub open spec fn probe_due(self) -> spec_fn(u64) -> bool {
        |handle: u64|
            {
                &&& self.is_sought(handle)
                &&& self.clients.clients[handle].state.ips == Set::<IpAddr>::empty()
                &&& self.clients.clients[handle].config.peer_fingerprint is Some
            }
    }

    /// The local network is asked for the peer with a client's fingerprint.
    pub open spec fn probe(self) -> spec_fn(u64) -> EffectView {
        |handle: u64|
            EffectView::Probe(
                handle,
                normalized_fingerprint(self.clients.clients[handle].config.peer_fingerprint->0),
            )
    }

    /// What asking the local network for the peers brings about.
    pub open spec fn peers_probed(self) -> Outcome {
        Outcome {
            service: self,
            effects: self.clients.order.filter(self.probe_due()).map_values(self.probe()),
        }
    }
}

/// The name of a host is resolved again, or the local network asked, exactly
/// for the clients that it is due for: never for one that is connected or not
/// active.
pub proof fn only_sought_clients_are_looked_for(s: ServiceView, handle: u64, text: Seq<char>)
    ensures
        s.hostnames_refreshed().effects.contains(EffectView::Resolve(handle, text)) <==> {
            &&& s.clients.order.contains(handle)
            &&& s.is_sought(handle)
            &&& s.clients.clients[handle].config.hostname == Some(text)
        },
        s.peers_probed().effects.contains(EffectView::Probe(handle, text)) <==> {
            &&& s.clients.order.contains(handle)
            &&& s.is_sought(handle)
            &&& s.clients.clients[handle].state.ips == Set::<IpAddr>::empty()
            &&& s.clients.clients[handle].config.peer_fingerprint matches Some(fp)
                && normalized_fingerprint(fp) == text
        },
{
    lemma_found(s.clients.order, s.refresh_due(), s.refresh(), handle);
    lemma_found(s.clients.order, s.probe_due(), s.probe(), handle);
    let resolve = EffectView::Resolve(handle, text);
    let refreshed = s.hostnames_refreshed().effects;
    if refreshed.contains(resolve) {
        let i = choose|i: int| 0 <= i < refreshed.len() && refreshed[i] == resolve;
        assert(s.clients.order.filter(s.refresh_due())[i] == handle);
    }
    let probe = EffectView::Probe(handle, text);
    let probed = s.peers_probed().effects;
    if probed.contains(probe) {
        let i = choose|i: int| 0 <= i < probed.len() && probed[i] == probe;
        assert(s.clients.order.filter(s.probe_due())[i] == handle);
    }
}

proof fn lemma_found(
    handles: Seq<u64>,
    due: spec_fn(u64) -> bool,
    f: spec_fn(u64) -> EffectView,
    handle: u64,
)
    ensures
        handles.contains(handle) && due(handle) ==> handles.filter(due).map_values(f).contains(
            f(handle),
        ),
        forall|i: int|
            0 <= i < handles.filter(due).len() && #[trigger] handles.filter(due)[i] == handle
                ==> handles.contains(handle) && due(handle),
{
    let kept = handles.filter(due);
    if handles.contains(handle) && due(handle) {
        let i = choose|i: int| 0 <= i < handles.len() && handles[i] == handle;
        handles.lemma_filter_contains(due, i);
        let j = choose|j: int| 0 <= j < kept.len() && kept[j] == handle;
        assert(kept.map_values(f)[j] == f(handle));
    }
    assert forall|i: int| 0 <= i < kept.len() && #[trigger] kept[i] == handle implies handles.contains(
        handle,
    ) && due(handle) by {
        handles.lemma_filter_pred(due, i);
        handles.lemma_filter_contains_rev(due, handle);
    }
}

/// One more of the handles, mapped, as far as it is due.
proof fn lemma_due(
    handles: Seq<u64>,
    i: int,
    due: spec_fn(u64) -> bool,
    f: spec_fn(u64) -> EffectView,
)
    requires
        0 <= i < handles.len(),
    ensures
        handles.take(i + 1).filter(due).map_values(f) == if due(handles[i]) {
            handles.take(i).filter(due).map_values(f).push(f(handles[i]))
        } else {
            handles.take(i).filter(due).map_values(f)
        },
{
    reveal(Seq::filter);
    assert(handles.take(i + 1).drop_last() =~= handles.take(i));
    assert(handles.take(i + 1).last() == handles[i]);
    let before = handles.take(i).filter(due);
    if due(handles[i]) {
        assert(before.push(handles[i]).map_values(f) =~= before.map_values(f).push(f(handles[i])));
    }
}

proof fn lemma_none_due(
    handles: Seq<u64>,
    due: spec_fn(u64) -> bool,
    f: spec_fn(u64) -> EffectView,
)
    ensures
        handles.take(0).filter(due).map_values(f) == Seq::<EffectView>::empty(),
        handles.take(handles.len() as int) == handles,
{
    reveal(Seq::filter);
    assert(handles.take(0).filter(due).map_values(f) =~= Seq::<EffectView>::empty());
    assert(handles.take(handles.len() as int) =~= handles);
}

impl Service {
    /// Has the names of the hosts resolved again of all active clients that
    /// are not connected.
    pub fn refresh_hostnames(&self, out: &mut Vec<Effect>)
        requires
            self.wf(),
        ensures
            effects(final(out)@) == effects(old(out)@) + self@.hostnames_refreshed().effects,
    {
        let handles = self.clients.registered_clients();
        let ghost due = self@.refresh_due();
        let ghost f = self@.refresh();
        let ghost before = effects(out@);
        let mut i: usize = 0;
        proof {
            lemma_none_due(handles@, due, f);
            assert(effects(out@) =~= before + Seq::<EffectView>::empty());
        }
        while i < handles.len()
            invariant
                self.wf(),
                handles@ == self@.clients.order,
                due == self@.refresh_due(),
                f == self@.refresh(),
                i <= handles@.len(),
                effects(out@) == before + handles@.take(i as int).filter(due).map_values(f),
            decreases handles@.len() - i,
        {
            let handle: u64 = handles[i];
            proof {
                lemma_due(handles@, i as int, due, f);
            }
            if self.clients.is_active(handle) && self.clients.active_addr(handle).is_none() {
                if let Some(host) = self.clients.get_hostname(handle) {
                    emit(out, Effect::Resolve(handle, host));
                }
            }
            i = i + 1;
            assert(effects(out@) =~= before + handles@.take(i as int).filter(due).map_values(f));
        }
        proof {
            lemma_none_due(handles@, due, f);
        }
    }

    /// Has the local network asked for all active clients that are not
    /// connected and that no address is known of.
    pub fn probe_peers(&self, out: &mut Vec<Effect>)
        requires
            self.wf(),
        ensures
            effects(final(out)@) == effects(old(out)@) + self@.peers_probed().effects,
    {
        let handles = self.clients.registered_clients();
        let ghost due = self@.probe_due();
        let ghost f = self@.probe();
        let ghost before = effects(out@);
        let mut i: usize = 0;
        proof {
            lemma_none_due(handles@, due, f);
            assert(effects(out@) =~= before + Seq::<EffectView>::empty());
        }
        while i < handles.len()
            invariant
                self.wf(),
                handles@ == self@.clients.order,
                due == self@.probe_due(),
                f == self@.probe(),
                i <= handles@.len(),
                effects(out@) == before + handles@.take(i as int).filter(due).map_values(f),
            decreases handles@.len() - i,
        {
            let handle: u64 = handles[i];
            proof {
                lemma_due(handles@, i as int, due, f);
            }
            if self.clients.is_active(handle) && self.clients.active_addr(handle).is_none() {
                let unresolved = match self.clients.get_ips(handle) {
                    Some(ips) => ips.is_empty(),
                    None => false,
                };
                if unresolved {
                    if let Some(fp) = self.clients.get_peer_fingerprint(handle) {
                        emit(out, Effect::Probe(handle, normalize_fingerprint(fp.as_str())));
                    }
                }
            }
            i = i + 1;
            assert(effects(out@) =~= before + handles@.take(i as int).filter(due).map_values(f));
        }
        proof {
            lemma_none_due(handles@, due, f);
        }
    }
}

/// Sought are the clients that are to be reached and are connected nowhere.
pub proof fn sought_clients_are_active_and_not_connected(s: ServiceView, handle: u64)
    ensures
        s.is_sought(handle) <==> {
            &&& s.clients.has(handle)
            &&& s.clients.clients[handle].state.active
            &&& s.clients.clients[handle].state.active_addr is None
        },
{
}

/// Upkeep changes nothing of the service, and does nothing but look for clients,
/// for each at most once in the order of the list.
pub proof fn upkeep_only_looks(s: ServiceView, i: int)
    ensures
        s.hostnames_refreshed().service == s,
        s.peers_probed().service == s,
        s.hostnames_refreshed().effects.len() <= s.clients.order.len(),
        s.peers_probed().effects.len() <= s.clients.order.len(),
        0 <= i < s.hostnames_refreshed().effects.len() ==> s.hostnames_refreshed().effects[i]
            is Resolve,
        0 <= i < s.peers_probed().effects.len() ==> s.peers_probed().effects[i] is Probe,
{
    s.clients.order.lemma_filter_len(s.refresh_due());
    s.clients.order.lemma_filter_len(s.probe_due());
}

} // verus!
