//! Outgoing connections: which addresses are dialed, when another attempt is
//! made, and what is done with what a peer sends.
use crate::client::{ClientManager, ManagerView};
use crate::collections::AssocMap;
use crate::discovery::{
    candidates_of, insert_fingerprint_candidate, is_usable_candidate_ip, is_v6_link_local,
    normalize_fingerprint, normalize_mdns_name, normalized_fingerprint, normalized_mdns_name,
    with_candidate, FingerprintCache, PrimaryCache,
};
use crate::input::{Event, PointerEvent};
use crate::ipc::{ClientHandle, StateView, DEFAULT_PORT};
use crate::net::{ascending, ascending_lists_are_unique, unscoped, IpAddr, IpSet, SocketAddr};
use crate::proto::{
    be_bytes_u32, be_bytes_u64, decoded, encode, padded, ProtoEvent, MAX_EVENT_SIZE,
};
use crate::text::{opt_text, same, same_option};
use std::collections::HashMap;
use std::hash::{DefaultHasher, Hasher};
use vstd::arithmetic::power2::{lemma2_to64, lemma_pow2_unfold, pow2};
use vstd::prelude::*;
use vstd::std_specs::hash::DefaultHasherAdditionalSpecFns;
use vstd::string::StringExecFns;

verus! {

broadcast use vstd::std_specs::hash::group_hash_axioms;

/// How long a handshake may take, in nanoseconds.
pub const DEFAULT_CONNECTION_TIMEOUT: u64 = 5_000_000_000;

/// How many received events wait to be handled at most.
pub const INBOUND_EVENT_QUEUE_CAPACITY: usize = 1024;

/// The pause after a first failed attempt, in nanoseconds. It doubles with
/// each further failure, up to [`MAX_RETRY_BACKOFF`].
pub const INITIAL_RETRY_BACKOFF: u64 = 1_000_000_000;

/// The longest pause between two attempts, in nanoseconds.
pub const MAX_RETRY_BACKOFF: u64 = 30_000_000_000;

/// How long the preferred address is dialed alone, in nanoseconds.
pub const PREFERRED_ADDR_HEAD_START: u64 = 200_000_000;

/// The number of pings of which one has to be answered.
pub const PINGS_PER_ROUND: u8 = 4;

/// The time between two pings, in nanoseconds.
pub const PING_INTERVAL: u64 = 500_000_000;

/// Where the attempts at a client stand. Times are in nanoseconds.
#[derive(Clone, Copy, Debug, PartialEq, Eq, Structural)]
pub struct ConnectionAttemptState {
    /// Whether an attempt is under way.
    pub connecting: bool,
    /// When the next attempt may be made, as long as there is nothing new to
    /// dial.
    pub next_attempt_at: u128,
    /// The pause after the next failure.
    pub backoff: u64,
    /// The signature of what was dialed last.
    pub signature: u64,
}

/// Whether every pause is between the first and the longest one.
pub open spec fn attempts_wf(attempts: Map<u64, ConnectionAttemptState>) -> bool {
    forall|h: u64|
        attempts.dom().contains(h) ==> INITIAL_RETRY_BACKOFF <= (#[trigger] attempts[h]).backoff
            <= MAX_RETRY_BACKOFF
}

/// Whether an attempt may be made now.
pub open spec fn may_attempt(
    attempts: Map<u64, ConnectionAttemptState>,
    handle: u64,
    signature: u64,
    now: u64,
) -> bool {
    attempts.dom().contains(handle) ==> {
        let s = attempts[handle];
        !s.connecting && (s.signature != signature || now >= s.next_attempt_at)
    }
}

/// The attempts after one at a client started.
pub open spec fn started(
    attempts: Map<u64, ConnectionAttemptState>,
    handle: u64,
    signature: u64,
    now: u64,
) -> Map<u64, ConnectionAttemptState> {
    if attempts.dom().contains(handle) && attempts[handle].signature == signature {
        attempts.insert(handle, ConnectionAttemptState { connecting: true, ..attempts[handle] })
    } else {
        attempts.insert(
            handle,
            ConnectionAttemptState {
                connecting: true,
                next_attempt_at: now as u128,
                backoff: INITIAL_RETRY_BACKOFF,
                signature,
            },
        )
    }
}

/// Starts an attempt at a client, if one may be made, and returns whether it
/// may. That is so if there was none before, or if there is something new to
/// dial, or if the pause is over; and never while one is under way.
pub fn reserve_attempt_slot(
    attempts: &mut HashMap<ClientHandle, ConnectionAttemptState>,
    handle: ClientHandle,
    signature: u64,
    now: u64,
) -> (reserved: bool)
    ensures
        reserved == may_attempt(old(attempts)@, handle, signature, now),
        final(attempts)@ == if reserved {
            started(old(attempts)@, handle, signature, now)
        } else {
            old(attempts)@
        },
        attempts_wf(old(attempts)@) ==> attempts_wf(final(attempts)@),
{
    let known = match attempts.get(&handle) {
        Some(s) => Some(*s),
        None => None,
    };
    let next = match known {
        None => ConnectionAttemptState {
            connecting: true,
            next_attempt_at: now as u128,
            backoff: INITIAL_RETRY_BACKOFF,
            signature,
        },
        Some(s) => if s.connecting {
            return false;
        } else if s.signature != signature {
            ConnectionAttemptState {
                connecting: true,
                next_attempt_at: now as u128,
                backoff: INITIAL_RETRY_BACKOFF,
                signature,
            }
        } else if now as u128 >= s.next_attempt_at {
            ConnectionAttemptState { connecting: true, ..s }
        } else {
            return false;
        },
    };
    attempts.insert(handle, next);
    true
}

/// The pause that the next failure at a client brings.
pub open spec fn backoff_of(attempts: Map<u64, ConnectionAttemptState>, handle: u64) -> u64 {
    if attempts.dom().contains(handle) {
        attempts[handle].backoff
    } else {
        INITIAL_RETRY_BACKOFF
    }
}

/// Twice the pause, up to the longest one.
pub open spec fn doubled(backoff: u64) -> u64 {
    if backoff * 2 <= MAX_RETRY_BACKOFF {
        (backoff * 2) as u64
    } else {
        MAX_RETRY_BACKOFF
    }
}

/// The attempts after one at a client failed.
pub open spec fn failed(
    attempts: Map<u64, ConnectionAttemptState>,
    handle: u64,
    signature: u64,
    now: u64,
) -> Map<u64, ConnectionAttemptState> {
    let backoff = backoff_of(attempts, handle);
    attempts.insert(
        handle,
        ConnectionAttemptState {
            connecting: false,
            next_attempt_at: (now + backoff) as u128,
            backoff: doubled(backoff),
            signature,
        },
    )
}

/// Notes that an attempt at a client failed: it is no longer under way, the
/// next one has to wait, and the pause after that one doubles.
pub fn record_attempt_failure_with_signature(
    attempts: &mut HashMap<ClientHandle, ConnectionAttemptState>,
    handle: ClientHandle,
    signature: u64,
    now: u64,
)
    ensures
        final(attempts)@ == failed(old(attempts)@, handle, signature, now),
        attempts_wf(old(attempts)@) ==> attempts_wf(final(attempts)@),
{
    let backoff: u64 = match attempts.get(&handle) {
        Some(s) => s.backoff,
        None => INITIAL_RETRY_BACKOFF,
    };
    let twice: u64 = if backoff <= MAX_RETRY_BACKOFF / 2 {
        backoff * 2
    } else {
        MAX_RETRY_BACKOFF
    };
    attempts.insert(
        handle,
        ConnectionAttemptState {
            connecting: false,
            next_attempt_at: now as u128 + backoff as u128,
            backoff: twice,
            signature,
        },
    );
}

/// Forgets the attempts at a client.
pub fn clear_attempt_state(
    attempts: &mut HashMap<ClientHandle, ConnectionAttemptState>,
    handle: ClientHandle,
)
    ensures
        final(attempts)@ == old(attempts)@.remove(handle),
        attempts_wf(old(attempts)@) ==> attempts_wf(final(attempts)@),
{
    attempts.remove(&handle);
}

/// An address as bytes, of which the first tells the version.
#[verifier::opaque]
pub open spec fn address_bytes(ip: IpAddr) -> Seq<u8> {
    match ip {
        IpAddr::V4(n) => seq![4u8] + be_bytes_u32(n),
        IpAddr::V6(n) => seq![6u8] + be_bytes_u64((n / 0x1_0000_0000_0000_0000) as u64)
            + be_bytes_u64((n % 0x1_0000_0000_0000_0000) as u64),
    }
}

/// Addresses as bytes, one behind the other.
pub open spec fn addresses_bytes(ips: Seq<IpAddr>) -> Seq<u8>
    decreases ips.len(),
{
    if ips.len() == 0 {
        seq![]
    } else {
        addresses_bytes(ips.drop_last()) + address_bytes(ips.last())
    }
}

/// What is hashed of the addresses to dial and the primary one.
pub open spec fn signature_bytes(ips: Seq<IpAddr>, primary: Option<IpAddr>) -> Seq<u8> {
    addresses_bytes(ips) + seq![0u8] + match primary {
        Some(ip) => address_bytes(ip),
        None => seq![],
    }
}

/// The signature of addresses to dial, in ascending order, and the primary one.
pub open spec fn signature(ips: Seq<IpAddr>, primary: Option<IpAddr>) -> u64 {
    DefaultHasher::spec_finish(seq![signature_bytes(ips, primary)])
}

fn push_u32(bytes: &mut Vec<u8>, n: u32)
    ensures
        final(bytes)@ == old(bytes)@ + be_bytes_u32(n),
{
    bytes.push((n / 0x1000000) as u8);
    bytes.push(((n / 0x10000) % 0x100) as u8);
    bytes.push(((n / 0x100) % 0x100) as u8);
    bytes.push((n % 0x100) as u8);
    assert(bytes@ =~= old(bytes)@ + be_bytes_u32(n));
}

fn push_u64(bytes: &mut Vec<u8>, n: u64)
    ensures
        final(bytes)@ == old(bytes)@ + be_bytes_u64(n),
{
    push_u32(bytes, (n / 0x1_0000_0000) as u32);
    push_u32(bytes, (n % 0x1_0000_0000) as u32);
    assert(bytes@ =~= old(bytes)@ + be_bytes_u64(n));
}

fn push_address(bytes: &mut Vec<u8>, ip: IpAddr)
    ensures
        final(bytes)@ == old(bytes)@ + address_bytes(ip),
{
    match ip {
        IpAddr::V4(n) => {
            bytes.push(4);
            push_u32(bytes, n);
        },
        IpAddr::V6(n) => {
            bytes.push(6);
            push_u64(bytes, (n / 0x1_0000_0000_0000_0000) as u64);
            push_u64(bytes, (n % 0x1_0000_0000_0000_0000) as u64);
        },
    }
    proof {
        reveal(address_bytes);
    }
    assert(bytes@ =~= old(bytes)@ + address_bytes(ip));
}

/// A signature of the addresses to dial and the primary one. It does not
/// depend on the order in which the addresses were learned.
pub fn signature_of(ips: &IpSet, primary: Option<IpAddr>) -> (s: u64)
    ensures
        s == signature(ips.ips@, primary),
{
    let mut bytes: Vec<u8> = Vec::new();
    let mut i: usize = 0;
    while i < ips.ips.len()
        invariant
            i <= ips.ips@.len(),
            bytes@ == addresses_bytes(ips.ips@.take(i as int)),
        decreases ips.ips@.len() - i,
    {
        push_address(&mut bytes, ips.ips[i]);
        assert(ips.ips@.take(i + 1).drop_last() =~= ips.ips@.take(i as int));
        i = i + 1;
    }
    assert(ips.ips@.take(ips.ips@.len() as int) =~= ips.ips@);
    bytes.push(0);
    if let Some(ip) = primary {
        push_address(&mut bytes, ip);
    }
    assert(bytes@ =~= signature_bytes(ips.ips@, primary));
    let mut hasher = DefaultHasher::new();
    hasher.write(bytes.as_slice());
    assert(hasher@ =~= seq![signature_bytes(ips.ips@, primary)]);
    hasher.finish()
}

/// Notes that an attempt to dial the addresses failed.
pub fn record_attempt_failure(
    attempts: &mut HashMap<ClientHandle, ConnectionAttemptState>,
    handle: ClientHandle,
    ips: &IpSet,
    primary: Option<IpAddr>,
    now: u64,
)
    ensures
        final(attempts)@ == failed(old(attempts)@, handle, signature(ips.ips@, primary), now),
        attempts_wf(old(attempts)@) ==> attempts_wf(final(attempts)@),
{
    let sig: u64 = signature_of(ips, primary);
    record_attempt_failure_with_signature(attempts, handle, sig, now);
}

/// Whether a received event may be lost when too many wait: pointer motion,
/// which the next motion makes up for.
pub fn is_droppable_inbound_event(event: &ProtoEvent) -> (r: bool)
    ensures
        r == (*event matches ProtoEvent::Input(Event::Pointer(PointerEvent::Motion { .. }))),
{
    match event {
        ProtoEvent::Input(Event::Pointer(PointerEvent::Motion { .. })) => true,
        _ => false,
    }
}

/// What came of handing over a received event.
#[derive(Clone, Copy, Debug, PartialEq, Eq, Structural)]
pub enum Delivery {
    Delivered,
    /// Too many events wait.
    Full,
    /// Nobody listens any more.
    Closed,
}

/// Whether receiving goes on after an event was handed over. Nothing but a
/// droppable event is handed over without waiting for room.
pub fn receiving_goes_on(delivery: Delivery) -> (r: bool)
    ensures
        r == (delivery !is Closed),
{
    match delivery {
        Delivery::Delivered => true,
        Delivery::Full => true,
        Delivery::Closed => false,
    }
}

/// The addresses of a set that can be dialed.
pub open spec fn usable_part(ips: Set<IpAddr>) -> Set<IpAddr> {
    Set::new(|ip: IpAddr| ips.contains(ip) && !is_v6_link_local(ip))
}

/// Whether the address is the first of a set that can be dialed.
pub open spec fn is_first_usable(ips: Set<IpAddr>, ip: IpAddr) -> bool {
    &&& ips.contains(ip)
    &&& !is_v6_link_local(ip)
    &&& forall|other: IpAddr|
        #[trigger] ips.contains(other) && !is_v6_link_local(other) && other != ip ==> ip.before(
            other,
        )
}

/// The first address of a set that can be dialed.
pub open spec fn first_usable(ips: Set<IpAddr>) -> Option<IpAddr> {
    if exists|ip: IpAddr| #[trigger] is_first_usable(ips, ip) {
        Some(choose|ip: IpAddr| #[trigger] is_first_usable(ips, ip))
    } else {
        None
    }
}

/// The address that discovery suggests to dial first.
pub open spec fn hint_of(
    m: ManagerView,
    handle: u64,
    primaries: Map<Seq<char>, IpAddr>,
    fingerprints: Map<Seq<char>, Set<IpAddr>>,
) -> Option<IpAddr> {
    if !m.has(handle) {
        None
    } else {
        let config = m.clients[handle].config;
        let by_key = match config.peer_fingerprint {
            Some(fp) => first_usable(candidates_of(fingerprints, normalized_fingerprint(fp))),
            None => None,
        };
        match (by_key, config.hostname) {
            (Some(ip), _) => Some(ip),
            (None, Some(host)) => if primaries.dom().contains(normalized_mdns_name(host)) {
                Some(primaries[normalized_mdns_name(host)])
            } else {
                None
            },
            (None, None) => None,
        }
    }
}

/// The addresses that discovery knows of a client.
pub open spec fn discovered_of(
    m: ManagerView,
    handle: u64,
    fingerprints: Map<Seq<char>, Set<IpAddr>>,
) -> Set<IpAddr> {
    if m.has(handle) {
        match m.clients[handle].config.peer_fingerprint {
            Some(fp) => usable_part(candidates_of(fingerprints, normalized_fingerprint(fp))),
            None => Set::empty(),
        }
    } else {
        Set::empty()
    }
}

/// All addresses of a client that can be dialed: its own, and those that
/// discovery knows.
pub open spec fn dialable(
    m: ManagerView,
    handle: u64,
    fingerprints: Map<Seq<char>, Set<IpAddr>>,
) -> Set<IpAddr> {
    if m.has(handle) {
        usable_part(m.clients[handle].state.ips).union(discovered_of(m, handle, fingerprints))
    } else {
        Set::empty()
    }
}

/// The addresses of a set that can be dialed.
fn usable_of(ips: &IpSet) -> (r: IpSet)
    requires
        ips.wf(),
    ensures
        r.wf(),
        r@ == usable_part(ips@),
{
    let mut r = IpSet::new();
    let mut i: usize = 0;
    while i < ips.ips.len()
        invariant
            i <= ips.ips@.len(),
            r.wf(),
            forall|ip: IpAddr| #[trigger]
                r@.contains(ip) <==> ips.ips@.take(i as int).contains(ip) && !is_v6_link_local(ip),
        decreases ips.ips@.len() - i,
    {
        if is_usable_candidate_ip(ips.ips[i]) {
            r.insert(ips.ips[i]);
        }
        proof {
            assert forall|ip: IpAddr| #[trigger]
                r@.contains(ip) <==> ips.ips@.take(i + 1).contains(ip) && !is_v6_link_local(
                    ip,
                ) by {
                crate::net::lemma_take_contains(ips.ips@, i as int, ip);
            }
        }
        i = i + 1;
    }
    assert(ips.ips@.take(ips.ips@.len() as int) =~= ips.ips@);
    assert(r@ =~= usable_part(ips@));
    r
}

/// The first address of a set that can be dialed.
fn first_usable_of(ips: &IpSet) -> (r: Option<IpAddr>)
    requires
        ips.wf(),
    ensures
        r == first_usable(ips@),
{
    let mut i: usize = 0;
    while i < ips.ips.len()
        invariant
            ips.wf(),
            i <= ips.ips@.len(),
            forall|j: int| 0 <= j < i ==> is_v6_link_local(#[trigger] ips.ips@[j]),
        decreases ips.ips@.len() - i,
    {
        if is_usable_candidate_ip(ips.ips[i]) {
            proof {
                let ip = ips.ips@[i as int];
                assert forall|other: IpAddr| #[trigger]
                    ips@.contains(other) && !is_v6_link_local(other) && other
                        != ip implies ip.before(other) by {
                    let j = choose|j: int| 0 <= j < ips.ips@.len() && ips.ips@[j] == other;
                    assert(j > i);
                }
                assert(ips@.contains(ip));
                assert(is_first_usable(ips@, ip));
                let chosen = choose|x: IpAddr| #[trigger] is_first_usable(ips@, x);
                assert(chosen == ip);
            }
            return Some(ips.ips[i]);
        }
        i = i + 1;
    }
    proof {
        assert forall|ip: IpAddr| !#[trigger] is_first_usable(ips@, ip) by {
            if ips@.contains(ip) {
                let j = choose|j: int| 0 <= j < ips.ips@.len() && ips.ips@[j] == ip;
                assert(is_v6_link_local(ips.ips@[j]));
            }
        }
    }
    None
}

/// The address that discovery suggests to dial first: the first candidate of
/// the client's fingerprint that can be dialed, or else the primary address
/// that was announced under its host name.
pub fn discovery_hint_for(
    clients: &ClientManager,
    handle: ClientHandle,
    primaries: &PrimaryCache,
    fingerprints: &FingerprintCache,
) -> (r: Option<IpAddr>)
    requires
        clients.wf(),
        primaries.wf(),
        fingerprints.wf(),
    ensures
        r == hint_of(clients@, handle, primaries@, fingerprints@),
{
    if let Some(fp) = clients.get_peer_fingerprint(handle) {
        let key = normalize_fingerprint(fp.as_str());
        match fingerprints.get(&key) {
            Some(candidates) => {
                let by_key = first_usable_of(candidates);
                if by_key.is_some() {
                    return by_key;
                }
            },
            None => {
                assert forall|ip: IpAddr| !#[trigger] is_first_usable(
                    Set::<IpAddr>::empty(),
                    ip,
                ) by {}
            },
        }
    }
    if let Some(host) = clients.get_hostname(handle) {
        let key = normalize_mdns_name(host.as_str());
        if let Some(ip) = primaries.get(&key) {
            return Some(*ip);
        }
    }
    None
}

/// The addresses that discovery knows of a client.
pub fn discovery_candidates_for(
    clients: &ClientManager,
    handle: ClientHandle,
    fingerprints: &FingerprintCache,
) -> (r: IpSet)
    requires
        clients.wf(),
        fingerprints.wf(),
    ensures
        r.wf(),
        r@ == discovered_of(clients@, handle, fingerprints@),
{
    if let Some(fp) = clients.get_peer_fingerprint(handle) {
        let key = normalize_fingerprint(fp.as_str());
        if let Some(candidates) = fingerprints.get(&key) {
            return usable_of(candidates);
        }
    }
    let r = IpSet::new();
    assert(r@ =~= discovered_of(clients@, handle, fingerprints@));
    r
}

/// All addresses of a client that can be dialed; none, if there is no such
/// client.
pub fn dialable_for(
    clients: &ClientManager,
    handle: ClientHandle,
    fingerprints: &FingerprintCache,
) -> (r: IpSet)
    requires
        clients.wf(),
        fingerprints.wf(),
    ensures
        r.wf(),
        r@ == dialable(clients@, handle, fingerprints@),
{
    match clients.get_ips(handle) {
        Some(ips) => {
            let mut r = usable_of(&ips);
            r.extend(&discovery_candidates_for(clients, handle, fingerprints));
            r
        },
        None => IpSet::new(),
    }
}

/// The signature of what can be dialed of a client at the moment. The order
/// of the addresses is the ascending one.
pub open spec fn is_signature(
    m: ManagerView,
    handle: u64,
    primaries: Map<Seq<char>, IpAddr>,
    fingerprints: Map<Seq<char>, Set<IpAddr>>,
    sig: u64,
) -> bool {
    exists|ips: Seq<IpAddr>|
        {
            &&& ascending(ips)
            &&& #[trigger] ips.to_set() == dialable(m, handle, fingerprints)
            &&& sig == signature(ips, hint_of(m, handle, primaries, fingerprints))
        }
}

/// Decides whether an attempt at a client is made now. It is if there was none
/// before, or if what can be dialed has changed since, or if the pause is over.
pub fn reserve_attempt(
    clients: &ClientManager,
    attempts: &mut HashMap<ClientHandle, ConnectionAttemptState>,
    handle: ClientHandle,
    primaries: &PrimaryCache,
    fingerprints: &FingerprintCache,
    now: u64,
) -> (reserved: bool)
    requires
        clients.wf(),
        primaries.wf(),
        fingerprints.wf(),
    ensures
        exists|sig: u64|
            {
                &&& #[trigger] is_signature(clients@, handle, primaries@, fingerprints@, sig)
                &&& reserved == may_attempt(old(attempts)@, handle, sig, now)
                &&& final(attempts)@ == if reserved {
                    started(old(attempts)@, handle, sig, now)
                } else {
                    old(attempts)@
                }
            },
        attempts_wf(old(attempts)@) ==> attempts_wf(final(attempts)@),
{
    let ips = dialable_for(clients, handle, fingerprints);
    let primary = discovery_hint_for(clients, handle, primaries, fingerprints);
    let sig: u64 = signature_of(&ips, primary);
    assert(ips.ips@.to_set() == dialable(clients@, handle, fingerprints@));
    assert(is_signature(clients@, handle, primaries@, fingerprints@, sig));
    reserve_attempt_slot(attempts, handle, sig, now)
}

/// What is to be done to connect to a client.
pub enum ConnectPlan {
    /// There is no such client.
    NoClient,
    /// The client has no fingerprint: it is not dialed, because nothing would
    /// tell it from an impostor.
    Refuse,
    /// There is no address to dial.
    NothingToDial,
    /// The addresses are to be dialed, the preferred one first. Whoever
    /// answers has to have the fingerprint.
    Dial {
        ips: IpSet,
        primary: Option<IpAddr>,
        addrs: Vec<SocketAddr>,
        preferred: Option<SocketAddr>,
        fingerprint: String,
    },
}

/// The addresses with a port.
pub open spec fn with_port(ips: Seq<IpAddr>, port: u16) -> Seq<SocketAddr> {
    ips.map_values(|ip: IpAddr| unscoped(ip, port))
}

/// Plans the connection to a client. Without a fingerprint or an address the
/// attempt has failed, and without a client it is forgotten.
pub fn connect_to_handle(
    clients: &ClientManager,
    attempts: &mut HashMap<ClientHandle, ConnectionAttemptState>,
    handle: ClientHandle,
    primaries: &PrimaryCache,
    fingerprints: &FingerprintCache,
    now: u64,
) -> (plan: ConnectPlan)
    requires
        clients.wf(),
        primaries.wf(),
        fingerprints.wf(),
    ensures
        attempts_wf(old(attempts)@) ==> attempts_wf(final(attempts)@),
        plan is NoClient <==> !clients@.has(handle),
        plan is NoClient ==> final(attempts)@ == old(attempts)@.remove(handle),
        plan is Refuse <==> clients@.has(handle)
            && clients@.clients[handle].config.peer_fingerprint is None,
        plan is NothingToDial <==> {
            &&& clients@.has(handle)
            &&& clients@.clients[handle].config.peer_fingerprint is Some
            &&& dialable(clients@, handle, fingerprints@) == Set::<IpAddr>::empty()
            &&& hint_of(clients@, handle, primaries@, fingerprints@) is None
        },
        plan is Refuse || plan is NothingToDial ==> exists|sig: u64|
            #[trigger] is_signature(clients@, handle, primaries@, fingerprints@, sig)
                && final(attempts)@ == failed(old(attempts)@, handle, sig, now),
        plan matches ConnectPlan::Dial { ips, primary, addrs, preferred, fingerprint } ==> {
            let config = clients@.clients[handle].config;
            &&& final(attempts)@ == old(attempts)@
            &&& ips.wf()
            &&& ips@ == dialable(clients@, handle, fingerprints@)
            &&& primary == hint_of(clients@, handle, primaries@, fingerprints@)
            &&& addrs@ == with_port(ips.ips@, config.port)
            &&& preferred == match primary {
                Some(ip) => Some(unscoped(ip, config.port)),
                None => None,
            }
            &&& Some(fingerprint@) == match config.peer_fingerprint {
                Some(fp) => Some(normalized_fingerprint(fp)),
                None => None,
            }
        },
{
    if clients.get_ips(handle).is_none() {
        clear_attempt_state(attempts, handle);
        return ConnectPlan::NoClient;
    }
    let ips = dialable_for(clients, handle, fingerprints);
    let port: u16 = match clients.get_port(handle) {
        Some(port) => port,
        None => DEFAULT_PORT,
    };
    let mut addrs: Vec<SocketAddr> = Vec::new();
    let mut i: usize = 0;
    while i < ips.ips.len()
        invariant
            i <= ips.ips@.len(),
            addrs@ == with_port(ips.ips@.take(i as int), port),
        decreases ips.ips@.len() - i,
    {
        addrs.push(SocketAddr::new(ips.ips[i], port));
        assert(with_port(ips.ips@.take(i + 1), port) =~= with_port(
            ips.ips@.take(i as int),
            port,
        ).push(unscoped(ips.ips@[i as int], port)));
        i = i + 1;
    }
    assert(ips.ips@.take(ips.ips@.len() as int) =~= ips.ips@);
    let primary = discovery_hint_for(clients, handle, primaries, fingerprints);
    let preferred = match primary {
        Some(ip) => Some(SocketAddr::new(ip, port)),
        None => None,
    };
    proof {
        assert(ips.ips@.to_set() == dialable(clients@, handle, fingerprints@));
        assert(is_signature(
            clients@,
            handle,
            primaries@,
            fingerprints@,
            signature(ips.ips@, primary),
        ));
    }
    let fingerprint = match clients.get_peer_fingerprint(handle) {
        Some(fp) => normalize_fingerprint(fp.as_str()),
        None => {
            record_attempt_failure(attempts, handle, &ips, primary, now);
            return ConnectPlan::Refuse;
        },
    };
    proof {
        if addrs@.len() == 0 {
            assert(ips@ =~= Set::<IpAddr>::empty());
        } else {
            assert(ips@.contains(ips.ips@[0]));
        }
    }
    if addrs.len() == 0 && preferred.is_none() {
        record_attempt_failure(attempts, handle, &ips, primary, now);
        return ConnectPlan::NothingToDial;
    }
    ConnectPlan::Dial { ips, primary, addrs, preferred, fingerprint }
}

/// The connections by the address of the peer. Each has a number of its own.
pub type Connections = AssocMap<SocketAddr, u64>;

/// The clients after one was connected at an address. It is not known to be
/// alive before it says so.
pub open spec fn connected_clients(m: ManagerView, handle: u64, addr: SocketAddr) -> ManagerView {
    m.with_state(
        handle,
        StateView { active_addr: Some(addr), alive: false, ..m.clients[handle].state },
    )
}

/// Notes that a client is connected: its address is a candidate of its
/// fingerprint, and the attempts are over. Returns what is to be sent to it at
/// once, the identification of the local build.
pub fn connected(
    clients: &mut ClientManager,
    connections: &mut Connections,
    attempts: &mut HashMap<ClientHandle, ConnectionAttemptState>,
    fingerprints: &mut FingerprintCache,
    handle: ClientHandle,
    addr: SocketAddr,
    connection: u64,
    fingerprint: &str,
    commit: [u8; 8],
) -> (hello: ([u8; MAX_EVENT_SIZE], usize))
    requires
        old(clients).wf(),
        old(connections).wf(),
        old(fingerprints).wf(),
    ensures
        final(clients).wf(),
        final(connections).wf(),
        final(fingerprints).wf(),
        attempts_wf(old(attempts)@) ==> attempts_wf(final(attempts)@),
        final(clients)@ == connected_clients(old(clients)@, handle, addr),
        final(connections)@ == old(connections)@.insert(addr, connection),
        final(attempts)@ == old(attempts)@.remove(handle),
        final(fingerprints)@ == with_candidate(old(fingerprints)@, fingerprint@, addr.ip),
        hello.0@ == padded((ProtoEvent::Hello { commit }).wire()),
        hello.1 == (ProtoEvent::Hello { commit }).wire().len(),
{
    insert_fingerprint_candidate(fingerprints, fingerprint, addr.ip);
    clients.set_active_addr(handle, Some(addr));
    clients.set_alive(handle, false);
    connections.insert(addr, connection);
    clear_attempt_state(attempts, handle);
    proof {
        let m = old(clients)@;
        if m.has(handle) {
            assert(clients@.clients =~= connected_clients(m, handle, addr).clients);
        }
    }
    encode(ProtoEvent::Hello { commit })
}

/// The connection of a client.
pub open spec fn connection_of(
    m: ManagerView,
    connections: Map<SocketAddr, u64>,
    handle: u64,
) -> Option<(SocketAddr, u64)> {
    if m.has(handle) {
        match m.clients[handle].state.active_addr {
            Some(addr) => if connections.dom().contains(addr) {
                Some((addr, connections[addr]))
            } else {
                None
            },
            None => None,
        }
    } else {
        None
    }
}

/// The connection of a client, and the address of the peer.
pub fn conn_for_handle(clients: &ClientManager, connections: &Connections, handle: ClientHandle)
    -> (r: Option<(SocketAddr, u64)>)
    requires
        clients.wf(),
        connections.wf(),
    ensures
        r == connection_of(clients@, connections@, handle),
{
    match clients.active_addr(handle) {
        Some(addr) => match connections.get(&addr) {
            Some(connection) => Some((addr, *connection)),
            None => None,
        },
        None => None,
    }
}

/// Whether a client is connected.
pub fn is_connected(clients: &ClientManager, connections: &Connections, handle: ClientHandle) -> (r:
    bool)
    requires
        clients.wf(),
        connections.wf(),
    ensures
        r == (connection_of(clients@, connections@, handle) is Some),
{
    conn_for_handle(clients, connections, handle).is_some()
}

/// Whether a client is connected, and can emulate input.
pub fn is_ready(clients: &ClientManager, connections: &Connections, handle: ClientHandle) -> (r:
    bool)
    requires
        clients.wf(),
        connections.wf(),
    ensures
        r == (connection_of(clients@, connections@, handle) is Some
            && clients@.clients[handle].state.alive),
{
    is_connected(clients, connections, handle) && clients.alive(handle)
}

/// What is to be done to send an event to a client.
pub enum SendPlan {
    /// The first `len` bytes of `buf` are to be sent over the connection.
    Transmit { addr: SocketAddr, connection: u64, buf: [u8; MAX_EVENT_SIZE], len: usize },
    /// The client cannot emulate input.
    TargetEmulationDisabled,
    /// The client is not connected, which is then to be ensured.
    NotConnected,
}

/// Plans the sending of an event to a client. A failure of the transport is
/// then to be followed by [`disconnect`].
pub fn send(
    clients: &ClientManager,
    connections: &Connections,
    event: ProtoEvent,
    handle: ClientHandle,
) -> (plan: SendPlan)
    requires
        clients.wf(),
        connections.wf(),
    ensures
        plan is NotConnected <==> connection_of(clients@, connections@, handle) is None,
        plan is TargetEmulationDisabled <==> connection_of(clients@, connections@, handle) is Some
            && !clients@.clients[handle].state.alive,
        plan matches SendPlan::Transmit { addr, connection, buf, len } ==> {
            &&& connection_of(clients@, connections@, handle) == Some((addr, connection))
            &&& buf@ == padded(event.wire())
            &&& len == event.wire().len()
        },
{
    let (buf, len) = encode(event);
    match conn_for_handle(clients, connections, handle) {
        Some((addr, connection)) => {
            if !clients.alive(handle) {
                return SendPlan::TargetEmulationDisabled;
            }
            SendPlan::Transmit { addr, connection, buf, len }
        },
        None => SendPlan::NotConnected,
    }
}

/// How it is ensured that a client is connected.
#[derive(Clone, Copy, Debug, PartialEq, Eq, Structural)]
pub enum EnsurePlan {
    /// It is.
    Connected,
    /// A connection is to be made.
    Connect,
    /// There is nothing to dial, an attempt is under way, or it has to wait.
    Wait,
}

/// Whether there is an address of a client to dial.
pub open spec fn can_be_dialed(
    m: ManagerView,
    handle: u64,
    primaries: Map<Seq<char>, IpAddr>,
    fingerprints: Map<Seq<char>, Set<IpAddr>>,
) -> bool {
    dialable(m, handle, fingerprints) != Set::<IpAddr>::empty() || hint_of(
        m,
        handle,
        primaries,
        fingerprints,
    ) is Some
}

/// Whether there is an address of a client to dial.
fn is_dialable(
    clients: &ClientManager,
    handle: ClientHandle,
    primaries: &PrimaryCache,
    fingerprints: &FingerprintCache,
) -> (r: bool)
    requires
        clients.wf(),
        primaries.wf(),
        fingerprints.wf(),
    ensures
        r == can_be_dialed(clients@, handle, primaries@, fingerprints@),
{
    !dialable_for(clients, handle, fingerprints).is_empty() || discovery_hint_for(
        clients,
        handle,
        primaries,
        fingerprints,
    ).is_some()
}

/// Decides what is to be done for a client to be connected. For one without an
/// address to dial nothing is.
pub fn ensure_connected(
    clients: &ClientManager,
    connections: &Connections,
    attempts: &mut HashMap<ClientHandle, ConnectionAttemptState>,
    handle: ClientHandle,
    primaries: &PrimaryCache,
    fingerprints: &FingerprintCache,
    now: u64,
) -> (plan: EnsurePlan)
    requires
        clients.wf(),
        connections.wf(),
        primaries.wf(),
        fingerprints.wf(),
    ensures
        plan is Connected <==> connection_of(clients@, connections@, handle) is Some,
        plan is Connected ==> final(attempts)@ == old(attempts)@,
        plan !is Connected && !can_be_dialed(clients@, handle, primaries@, fingerprints@) ==> plan
            is Wait && final(attempts)@ == old(attempts)@,
        plan !is Connected && can_be_dialed(
            clients@,
            handle,
            primaries@,
            fingerprints@,
        ) ==> exists|sig: u64|
            {
                &&& #[trigger] is_signature(clients@, handle, primaries@, fingerprints@, sig)
                &&& plan is Connect <==> may_attempt(old(attempts)@, handle, sig, now)
                &&& final(attempts)@ == if plan is Connect {
                    started(old(attempts)@, handle, sig, now)
                } else {
                    old(attempts)@
                }
            },
        attempts_wf(old(attempts)@) ==> attempts_wf(final(attempts)@),
{
    if is_connected(clients, connections, handle) {
        return EnsurePlan::Connected;
    }
    if !is_dialable(clients, handle, primaries, fingerprints) {
        return EnsurePlan::Wait;
    }
    if reserve_attempt(clients, attempts, handle, primaries, fingerprints, now) {
        EnsurePlan::Connect
    } else {
        EnsurePlan::Wait
    }
}

/// Whether an attempt at a client is under way.
pub open spec fn under_way(attempts: Map<u64, ConnectionAttemptState>, handle: u64) -> bool {
    attempts.dom().contains(handle) && attempts[handle].connecting
}

/// How a capture goes on when the cursor crosses into it.
#[derive(Clone, Copy, Debug, PartialEq, Eq, Structural)]
pub enum Arming {
    /// The client is ready.
    Ready,
    /// A connection is to be made, and the client to be waited for.
    Connect,
    /// The client is to be waited for: it is connected and has not answered
    /// yet, or a connection is being made.
    Await,
    /// The capture is not armed: the client cannot be dialed, or it has to be
    /// left alone for a while.
    NotArmed,
}

/// Decides whether the capture of a client is armed when the cursor crosses
/// into it. Waiting is pointless for a client that is not dialed.
pub fn arm_capture(
    clients: &ClientManager,
    connections: &Connections,
    attempts: &mut HashMap<ClientHandle, ConnectionAttemptState>,
    handle: ClientHandle,
    primaries: &PrimaryCache,
    fingerprints: &FingerprintCache,
    now: u64,
) -> (arming: Arming)
    requires
        clients.wf(),
        connections.wf(),
        primaries.wf(),
        fingerprints.wf(),
    ensures
        connection_of(clients@, connections@, handle) is Some ==> final(attempts)@ == old(
            attempts,
        )@ && arming == if clients@.clients[handle].state.alive {
            Arming::Ready
        } else {
            Arming::Await
        },
        connection_of(clients@, connections@, handle) is None ==> {
            ||| {
                &&& !can_be_dialed(clients@, handle, primaries@, fingerprints@)
                &&& final(attempts)@ == old(attempts)@
                &&& arming == if under_way(old(attempts)@, handle) {
                    Arming::Await
                } else {
                    Arming::NotArmed
                }
            }
            ||| can_be_dialed(clients@, handle, primaries@, fingerprints@) && exists|sig: u64|
                {
                    &&& #[trigger] is_signature(clients@, handle, primaries@, fingerprints@, sig)
                    &&& may_attempt(old(attempts)@, handle, sig, now) ==> arming is Connect
                        && final(attempts)@ == started(old(attempts)@, handle, sig, now)
                    &&& !may_attempt(old(attempts)@, handle, sig, now) ==> final(attempts)@ == old(
                        attempts,
                    )@ && arming == if under_way(old(attempts)@, handle) {
                        Arming::Await
                    } else {
                        Arming::NotArmed
                    }
                }
        },
        attempts_wf(old(attempts)@) ==> attempts_wf(final(attempts)@),
{
    if is_ready(clients, connections, handle) {
        return Arming::Ready;
    }
    match ensure_connected(
        clients,
        connections,
        attempts,
        handle,
        primaries,
        fingerprints,
        now,
    ) {
        EnsurePlan::Connected => Arming::Await,
        EnsurePlan::Connect => Arming::Connect,
        EnsurePlan::Wait => match attempts.get(&handle) {
            Some(s) => if s.connecting {
                Arming::Await
            } else {
                Arming::NotArmed
            },
            None => Arming::NotArmed,
        },
    }
}

/// The clients after a connection of one at an address was closed.
pub open spec fn disconnected_clients(m: ManagerView, handle: u64, addr: SocketAddr) -> ManagerView {
    if m.has(handle) && m.clients[handle].state.active_addr == Some(addr) {
        m.with_state(
            handle,
            StateView {
                active_addr: None,
                alive: false,
                peer_commit: None,
                ..m.clients[handle].state
            },
        )
    } else {
        m
    }
}

/// Notes that a connection was closed, and returns whether it was the current
/// one to the address. A connection that took its place stays.
pub fn disconnect(
    clients: &mut ClientManager,
    connections: &mut Connections,
    handle: ClientHandle,
    addr: SocketAddr,
    connection: u64,
) -> (removed_current: bool)
    requires
        old(clients).wf(),
        old(connections).wf(),
    ensures
        final(clients).wf(),
        final(connections).wf(),
        removed_current == (old(connections)@.dom().contains(addr) && old(connections)@[addr]
            == connection),
        final(connections)@ == if removed_current {
            old(connections)@.remove(addr)
        } else {
            old(connections)@
        },
        final(clients)@ == disconnected_clients(old(clients)@, handle, addr),
{
    let removed_current = match connections.get(&addr) {
        Some(current) => *current == connection,
        None => false,
    };
    if removed_current {
        connections.remove(&addr);
    }
    if clients.active_addr(handle) == Some(addr) {
        clients.set_active_addr(handle, None);
        clients.set_alive(handle, false);
        clients.set_peer_commit(handle, None);
        proof {
            let m = old(clients)@;
            assert(clients@.clients =~= disconnected_clients(m, handle, addr).clients);
        }
    }
    removed_current
}

/// The peers that answered a ping.
pub type PingResponses = AssocMap<SocketAddr, ()>;

/// What is to be done with a received datagram.
pub enum ReceiveStep {
    /// The client has another fingerprint by now: the connection is to be
    /// closed.
    Stale,
    /// It is dealt with.
    Noted,
    /// The event is to be handed over. If it may be lost, it is not to be
    /// waited for room.
    Forward { event: ProtoEvent, may_drop: bool },
    /// It is no event that is known. The connection goes on.
    Undecodable,
}

/// Whether a client still has the fingerprint that a connection was made for.
pub open spec fn fingerprint_unchanged(
    m: ManagerView,
    handle: u64,
    expected: Option<Seq<char>>,
) -> bool {
    expected == if m.has(handle) {
        match m.clients[handle].config.peer_fingerprint {
            Some(fp) => Some(normalized_fingerprint(fp)),
            None => None,
        }
    } else {
        None
    }
}

/// The clients after an event of one came over its connection.
pub open spec fn clients_after_event(
    m: ManagerView,
    handle: u64,
    addr: SocketAddr,
    event: ProtoEvent,
) -> ManagerView {
    match event {
        ProtoEvent::Pong(alive) => m.with_state(
            handle,
            StateView { active_addr: Some(addr), alive, ..m.clients[handle].state },
        ),
        ProtoEvent::Hello { commit } => m.with_state(
            handle,
            StateView { peer_commit: Some(commit), ..m.clients[handle].state },
        ),
        _ => m,
    }
}

/// Deals with a datagram of a client. An answer to a ping tells that the
/// client is there, and whether it can emulate input. All other events are
/// handed over, and what is no event is passed over.
pub fn receive(
    clients: &mut ClientManager,
    responses: &mut PingResponses,
    handle: ClientHandle,
    addr: SocketAddr,
    expected: &Option<String>,
    buf: &[u8],
) -> (step: ReceiveStep)
    requires
        old(clients).wf(),
        old(responses).wf(),
    ensures
        final(clients).wf(),
        final(responses).wf(),
        step is Stale <==> !fingerprint_unchanged(old(clients)@, handle, opt_text(*expected)),
        step is Undecodable <==> fingerprint_unchanged(old(clients)@, handle, opt_text(*expected))
            && decoded(buf@) is Err,
        step is Stale || step is Undecodable ==> final(clients)@ == old(clients)@
            && final(responses)@ == old(responses)@,
        !(step is Stale || step is Undecodable) ==> {
            let event = decoded(buf@)->Ok_0;
            &&& decoded(buf@) is Ok
            &&& final(clients)@ == clients_after_event(old(clients)@, handle, addr, event)
            &&& final(responses)@ == if event is Pong {
                old(responses)@.insert(addr, ())
            } else {
                old(responses)@
            }
            &&& step is Noted <==> event is Pong || event is Hello
            &&& step matches ReceiveStep::Forward { event: e, may_drop } ==> e == event && may_drop
                == (event matches ProtoEvent::Input(Event::Pointer(PointerEvent::Motion { .. })))
        },
{
    let current = match clients.get_peer_fingerprint(handle) {
        Some(fp) => Some(normalize_fingerprint(fp.as_str())),
        None => None,
    };
    if !same_option(&current, expected) {
        return ReceiveStep::Stale;
    }
    match ProtoEvent::try_from(buf) {
        Ok(event) => match event {
            ProtoEvent::Pong(alive) => {
                clients.set_active_addr(handle, Some(addr));
                clients.set_alive(handle, alive);
                responses.insert(addr, ());
                proof {
                    let m = old(clients)@;
                    if m.has(handle) {
                        assert(clients@.clients =~= clients_after_event(
                            m,
                            handle,
                            addr,
                            event,
                        ).clients);
                    }
                }
                ReceiveStep::Noted
            },
            ProtoEvent::Hello { commit } => {
                clients.set_peer_commit(handle, Some(commit));
                ReceiveStep::Noted
            },
            _ => {
                let may_drop = is_droppable_inbound_event(&event);
                ReceiveStep::Forward { event, may_drop }
            },
        },
        Err(_) => ReceiveStep::Undecodable,
    }
}

/// The text of a refusal of a peer with another fingerprint.
pub open spec fn mismatch_text(expected: Seq<char>, actual: Seq<char>) -> Seq<char> {
    "peer fingerprint mismatch: expected "@ + expected + ", got "@ + actual
}

/// Whether a peer may be talked to, given the fingerprint that it has to have,
/// and that of the certificate that it presented first, if it did. A refusal
/// says why.
pub fn verify_peer_certificate(expected: &str, presented: Option<&str>) -> (res: Result<(), String>)
    ensures
        res is Ok <==> (presented matches Some(actual) && actual@ == expected@),
        res matches Err(e) ==> e@ == match presented {
            None => "peer did not present a certificate"@,
            Some(actual) => mismatch_text(expected@, actual@),
        },
{
    match presented {
        None => Err(String::from_str("peer did not present a certificate")),
        Some(actual) => if same(actual, expected) {
            Ok(())
        } else {
            Err(
                String::from_str("peer fingerprint mismatch: expected ").concat(expected).concat(
                    ", got ",
                ).concat(actual),
            )
        },
    }
}

/// The addresses that are dialed besides the preferred one.
pub open spec fn others(addrs: Seq<SocketAddr>, preferred: Option<SocketAddr>) -> Seq<SocketAddr> {
    addrs.filter(|a: SocketAddr| Some(a) != preferred)
}

/// The addresses that are dialed besides the preferred one, which is already
/// being dialed.
pub fn other_addrs(addrs: &Vec<SocketAddr>, preferred: Option<SocketAddr>) -> (r: Vec<SocketAddr>)
    ensures
        r@ == others(addrs@, preferred),
{
    let ghost pred = |a: SocketAddr| Some(a) != preferred;
    let mut r: Vec<SocketAddr> = Vec::new();
    let mut i: usize = 0;
    proof {
        reveal(Seq::filter);
        assert(addrs@.take(0).filter(pred) =~= Seq::<SocketAddr>::empty());
    }
    while i < addrs.len()
        invariant
            i <= addrs@.len(),
            pred == (|a: SocketAddr| Some(a) != preferred),
            r@ == addrs@.take(i as int).filter(pred),
        decreases addrs@.len() - i,
    {
        let a = addrs[i];
        if preferred != Some(a) {
            r.push(a);
        }
        proof {
            reveal(Seq::filter);
            assert(addrs@.take(i + 1).drop_last() =~= addrs@.take(i as int));
            assert(addrs@.take(i + 1).last() == a);
        }
        i = i + 1;
    }
    assert(addrs@.take(addrs@.len() as int) =~= addrs@);
    r
}

/// A race of handshakes: the first that succeeds is taken.
#[derive(Clone, Copy, Debug, PartialEq, Eq, Structural)]
pub struct Race {
    /// Whether the preferred address still has its head start.
    pub head_start: bool,
    /// The number of handshakes that are under way.
    pub in_flight: usize,
    /// The number of addresses besides the preferred one.
    pub others: usize,
}

/// What happens in a race.
#[derive(Clone, Copy, Debug, PartialEq, Eq, Structural)]
pub enum RaceEvent {
    /// The head start of the preferred address is over.
    HeadStartOver,
    /// A handshake succeeded.
    Succeeded,
    /// A handshake failed.
    Failed,
}

/// What is to be done in a race.
#[derive(Clone, Copy, Debug, PartialEq, Eq, Structural)]
pub enum RaceStep {
    /// Dial the preferred address.
    DialPreferred,
    /// Dial the other addresses.
    DialOthers,
    /// Wait for what happens next.
    Wait,
    /// Take the connection that was just made.
    Take,
    /// No connection can be made.
    NotConnected,
}

/// How a race starts: with the preferred address alone, if there is one.
pub fn start_race(preferred: bool, others: usize) -> (r: (Race, RaceStep))
    ensures
        preferred ==> r == ((Race { head_start: true, in_flight: 1, others }), RaceStep::DialPreferred),
        !preferred ==> r == (
            (Race { head_start: false, in_flight: others, others }),
            if others > 0 {
                RaceStep::DialOthers
            } else {
                RaceStep::NotConnected
            },
        ),
{
    if preferred {
        (Race { head_start: true, in_flight: 1, others }, RaceStep::DialPreferred)
    } else if others > 0 {
        (Race { head_start: false, in_flight: others, others }, RaceStep::DialOthers)
    } else {
        (Race { head_start: false, in_flight: others, others }, RaceStep::NotConnected)
    }
}

/// How a race goes on. A success ends it. During the head start a failure of
/// the preferred address changes nothing; after it the race is lost when the
/// last handshake fails.
pub open spec fn race_after(race: Race, event: RaceEvent) -> (Race, RaceStep) {
    match event {
        RaceEvent::Succeeded => (race, RaceStep::Take),
        RaceEvent::Failed => {
            let left = Race { in_flight: (race.in_flight - 1) as usize, ..race };
            (
                left,
                if left.in_flight == 0 && !race.head_start {
                    RaceStep::NotConnected
                } else {
                    RaceStep::Wait
                },
            )
        },
        RaceEvent::HeadStartOver => if race.head_start {
            let all = Race {
                head_start: false,
                in_flight: (race.in_flight + race.others) as usize,
                ..race
            };
            (
                all,
                if all.in_flight == 0 {
                    RaceStep::NotConnected
                } else {
                    RaceStep::DialOthers
                },
            )
        } else {
            (race, RaceStep::Wait)
        },
    }
}

/// How a race goes on.
pub fn race_step(race: Race, event: RaceEvent) -> (r: (Race, RaceStep))
    requires
        event is Failed ==> race.in_flight > 0,
        race.in_flight + race.others <= usize::MAX,
    ensures
        r == race_after(race, event),
{
    match event {
        RaceEvent::Succeeded => (race, RaceStep::Take),
        RaceEvent::Failed => {
            let left = Race { in_flight: race.in_flight - 1, ..race };
            if left.in_flight == 0 && !race.head_start {
                (left, RaceStep::NotConnected)
            } else {
                (left, RaceStep::Wait)
            }
        },
        RaceEvent::HeadStartOver => if race.head_start {
            let all = Race {
                head_start: false,
                in_flight: race.in_flight + race.others,
                ..race
            };
            if all.in_flight == 0 {
                (all, RaceStep::NotConnected)
            } else {
                (all, RaceStep::DialOthers)
            }
        } else {
            (race, RaceStep::Wait)
        },
    }
}

/// What is to be done after a ping.
#[derive(Clone, Copy, Debug, PartialEq, Eq, Structural)]
pub enum PingStep {
    /// Wait for the interval, and send the next ping.
    Next,
    /// Wait for the interval, and look for an answer.
    WaitAndCheck,
    /// Close the connection, and look for an answer at once.
    CloseAndCheck,
}

/// What is to be done after the ping number `sent` of a round, counted from
/// one, was sent or could not be.
pub fn after_ping(sent: u8, ok: bool) -> (step: PingStep)
    ensures
        step == if !ok {
            PingStep::CloseAndCheck
        } else if sent < PINGS_PER_ROUND {
            PingStep::Next
        } else {
            PingStep::WaitAndCheck
        },
{
    if !ok {
        PingStep::CloseAndCheck
    } else if sent < PINGS_PER_ROUND {
        PingStep::Next
    } else {
        PingStep::WaitAndCheck
    }
}

/// Looks whether a peer answered a ping of the last round, and forgets the
/// answer. Without one the connection is to be closed.
pub fn check_answer(responses: &mut PingResponses, addr: SocketAddr) -> (answered: bool)
    requires
        old(responses).wf(),
    ensures
        final(responses).wf(),
        answered == old(responses)@.dom().contains(addr),
        final(responses)@ == old(responses)@.remove(addr),
{
    responses.remove(&addr).is_some()
}

/// While an attempt is under way, no other one is made, whatever there is to
/// dial.
pub proof fn one_attempt_at_a_time(
    attempts: Map<u64, ConnectionAttemptState>,
    handle: u64,
    signature: u64,
    now: u64,
    other: u64,
    later: u64,
)
    ensures
        !may_attempt(started(attempts, handle, signature, now), handle, other, later),
{
}

/// After a failure the same addresses are dialed again once the pause is over,
/// and not before.
pub proof fn failure_imposes_pause(
    attempts: Map<u64, ConnectionAttemptState>,
    handle: u64,
    signature: u64,
    now: u64,
    later: u64,
)
    ensures
        may_attempt(failed(attempts, handle, signature, now), handle, signature, later) <==> later
            >= now + backoff_of(attempts, handle),
{
}

/// New addresses are dialed at once: a changed signature bypasses the pause,
/// and the pauses start over.
pub proof fn new_addresses_bypass_pause(
    attempts: Map<u64, ConnectionAttemptState>,
    handle: u64,
    signature: u64,
    now: u64,
    other: u64,
    later: u64,
)
    requires
        other != signature,
    ensures
        may_attempt(failed(attempts, handle, signature, now), handle, other, later),
        backoff_of(
            started(failed(attempts, handle, signature, now), handle, other, later),
            handle,
        ) == INITIAL_RETRY_BACKOFF,
{
}

/// The attempts at one client do not touch those at another.
pub proof fn attempts_are_independent(
    attempts: Map<u64, ConnectionAttemptState>,
    handle: u64,
    signature: u64,
    now: u64,
    other: u64,
    later: u64,
    any: u64,
)
    requires
        other != handle,
    ensures
        may_attempt(started(attempts, handle, signature, now), other, any, later) == may_attempt(
            attempts,
            other,
            any,
            later,
        ),
        may_attempt(failed(attempts, handle, signature, now), other, any, later) == may_attempt(
            attempts,
            other,
            any,
            later,
        ),
{
}

/// The pause after the `n`th failure in a row, counted from zero.
pub open spec fn pause_after_failures(n: nat) -> u64
    decreases n,
{
    if n == 0 {
        INITIAL_RETRY_BACKOFF
    } else {
        doubled(pause_after_failures((n - 1) as nat))
    }
}

/// The pauses after failures in a row are 1, 2, 4, 8 and 16 seconds, and 30
/// seconds from then on: the power of two, up to the longest one.
pub proof fn pauses_double_up_to_maximum(n: nat)
    ensures
        n == 0 ==> pause_after_failures(n) == 1_000_000_000,
        n == 1 ==> pause_after_failures(n) == 2_000_000_000,
        n == 2 ==> pause_after_failures(n) == 4_000_000_000,
        n == 3 ==> pause_after_failures(n) == 8_000_000_000,
        n == 4 ==> pause_after_failures(n) == 16_000_000_000,
        n >= 5 ==> pause_after_failures(n) == MAX_RETRY_BACKOFF,
        pause_after_failures(n) == if pow2(n) * INITIAL_RETRY_BACKOFF <= MAX_RETRY_BACKOFF {
            pow2(n) * INITIAL_RETRY_BACKOFF
        } else {
            MAX_RETRY_BACKOFF as int
        },
    decreases n,
{
    if n > 0 {
        pauses_double_up_to_maximum((n - 1) as nat);
        lemma_pow2_unfold(n);
    } else {
        lemma2_to64();
    }
}

/// The next pause is twice the last one, but never longer than 30 seconds.
pub proof fn next_pause_is_twice_the_last(backoff: u64)
    ensures
        2 * backoff <= 30_000_000_000 ==> doubled(backoff) == 2 * backoff,
        2 * backoff >= 30_000_000_000 ==> doubled(backoff) == 30_000_000_000,
{
}

/// A failure that follows on an attempt at the same addresses doubles the
/// pause: it goes one step along the row of pauses.
pub proof fn pauses_follow_the_row(
    attempts: Map<u64, ConnectionAttemptState>,
    handle: u64,
    signature: u64,
    now: u64,
    later: u64,
    n: nat,
)
    requires
        attempts.dom().contains(handle),
        attempts[handle].signature == signature,
        backoff_of(attempts, handle) == pause_after_failures(n),
    ensures
        backoff_of(
            failed(started(attempts, handle, signature, now), handle, signature, later),
            handle,
        ) == pause_after_failures(n + 1),
{
}

/// The attempts after some at a client failed, one after the other. Of each
/// the signature and the time are given.
pub open spec fn failures(
    attempts: Map<u64, ConnectionAttemptState>,
    handle: u64,
    row: Seq<(u64, u64)>,
) -> Map<u64, ConnectionAttemptState>
    decreases row.len(),
{
    if row.len() == 0 {
        attempts
    } else {
        failed(failures(attempts, handle, row.drop_last()), handle, row.last().0, row.last().1)
    }
}

/// Failures in a row at a client that had no failure before each bring the
/// next pause of the row, whatever was dialed and whenever: of a client without
/// an entry, or with one that an attempt just made. The entry tells of the last
/// failure, and those of other clients stay.
pub proof fn failures_in_a_row(
    attempts: Map<u64, ConnectionAttemptState>,
    handle: u64,
    row: Seq<(u64, u64)>,
)
    requires
        row.len() > 0,
        !attempts.dom().contains(handle) || attempts[handle].backoff == INITIAL_RETRY_BACKOFF,
    ensures
        failures(attempts, handle, row).dom().contains(handle),
        !failures(attempts, handle, row)[handle].connecting,
        failures(attempts, handle, row)[handle].signature == row.last().0,
        failures(attempts, handle, row)[handle].backoff == pause_after_failures(row.len()),
        failures(attempts, handle, row)[handle].next_attempt_at == row.last().1
            + pause_after_failures((row.len() - 1) as nat),
        forall|h: u64|
            h != handle ==> #[trigger] failures(attempts, handle, row).dom().contains(h)
                == attempts.dom().contains(h),
        forall|h: u64|
            h != handle ==> #[trigger] failures(attempts, handle, row)[h] == attempts[h],
    decreases row.len(),
{
    if row.len() > 1 {
        failures_in_a_row(attempts, handle, row.drop_last());
    } else {
        assert(failures(attempts, handle, row.drop_last()) == attempts);
        assert(pause_after_failures(0) == INITIAL_RETRY_BACKOFF);
    }
    assert(pause_after_failures(row.len()) == doubled(
        pause_after_failures((row.len() - 1) as nat),
    ));
}

/// The signature of a client depends on which addresses there are, not on how
/// they are listed: two signatures of the same state are the same.
pub proof fn signature_is_determined(
    m: ManagerView,
    handle: u64,
    primaries: Map<Seq<char>, IpAddr>,
    fingerprints: Map<Seq<char>, Set<IpAddr>>,
    a: u64,
    b: u64,
)
    requires
        is_signature(m, handle, primaries, fingerprints, a),
        is_signature(m, handle, primaries, fingerprints, b),
    ensures
        a == b,
{
    let hint = hint_of(m, handle, primaries, fingerprints);
    let x = choose|ips: Seq<IpAddr>|
        {
            &&& ascending(ips)
            &&& #[trigger] ips.to_set() == dialable(m, handle, fingerprints)
            &&& a == signature(ips, hint)
        };
    let y = choose|ips: Seq<IpAddr>|
        {
            &&& ascending(ips)
            &&& #[trigger] ips.to_set() == dialable(m, handle, fingerprints)
            &&& b == signature(ips, hint)
        };
    ascending_lists_are_unique(x, y);
}

/// Nothing that cannot be dialed is among the addresses to dial.
pub proof fn only_usable_addresses_are_dialed(
    m: ManagerView,
    handle: u64,
    fingerprints: Map<Seq<char>, Set<IpAddr>>,
    ip: IpAddr,
)
    requires
        dialable(m, handle, fingerprints).contains(ip),
    ensures
        !is_v6_link_local(ip),
{
}

/// A connected client is ready only after it said that it is alive: right
/// after the connection is made it is not.
pub proof fn connected_client_has_to_answer(m: ManagerView, handle: u64, addr: SocketAddr)
    requires
        m.has(handle),
    ensures
        connected_clients(m, handle, addr).clients[handle].state.active_addr == Some(addr),
        !connected_clients(m, handle, addr).clients[handle].state.alive,
        clients_after_event(
            connected_clients(m, handle, addr),
            handle,
            addr,
            ProtoEvent::Pong(true),
        ).clients[handle].state.alive,
{
}

/// A connection that was closed after another one took its place does not
/// touch the client's state: the client is connected elsewhere.
pub proof fn stale_connection_changes_nothing(
    m: ManagerView,
    handle: u64,
    current: SocketAddr,
    stale: SocketAddr,
)
    requires
        m.has(handle),
        m.clients[handle].state.active_addr == Some(current),
        stale != current,
    ensures
        disconnected_clients(m, handle, stale) == m,
{
}

/// Every address is dialed, and the preferred one only once.
pub proof fn every_address_is_dialed(
    addrs: Seq<SocketAddr>,
    preferred: Option<SocketAddr>,
    addr: SocketAddr,
)
    ensures
        others(addrs, preferred).contains(addr) <==> addrs.contains(addr) && preferred != Some(addr),
{
    let pred = |a: SocketAddr| Some(a) != preferred;
    if addrs.contains(addr) && preferred != Some(addr) {
        let i = choose|i: int| 0 <= i < addrs.len() && addrs[i] == addr;
        addrs.lemma_filter_contains(pred, i);
    }
    if others(addrs, preferred).contains(addr) {
        let i = choose|i: int|
            0 <= i < others(addrs, preferred).len() && others(addrs, preferred)[i] == addr;
        addrs.lemma_filter_pred(pred, i);
        addrs.lemma_filter_contains_rev(pred, addr);
    }
}

/// The answer to a ping says whether the client can emulate input, and the
/// client is noted as alive exactly if it said so: a client that was ready is
/// not ready any more once it answers that it cannot. Its address is the one
/// that the answer came from, and nothing else of any client changes.
pub proof fn pong_tells_whether_the_client_is_alive(
    m: ManagerView,
    handle: u64,
    addr: SocketAddr,
    alive: bool,
    other: u64,
)
    requires
        m.has(handle),
        other != handle,
    ensures
        ({
            let after = clients_after_event(m, handle, addr, ProtoEvent::Pong(alive));
            let was = m.clients[handle];
            let c = after.clients[handle];
            &&& after.has(handle)
            &&& c.state.alive == alive
            &&& c.state.active_addr == Some(addr)
            &&& c.config == was.config
            &&& c.state.active == was.state.active
            &&& c.state.ips == was.state.ips
            &&& c.state.dns_ips == was.state.dns_ips
            &&& c.state.resolving == was.state.resolving
            &&& c.state.peer_commit == was.state.peer_commit
            &&& after.has(other) == m.has(other)
            &&& after.clients[other] == m.clients[other]
            &&& after.order == m.order
            &&& after.next == m.next
        }),
{
}

/// Of two answers to pings the later one counts, whatever the earlier one said.
pub proof fn last_pong_counts(
    m: ManagerView,
    handle: u64,
    first: SocketAddr,
    before: bool,
    addr: SocketAddr,
    alive: bool,
)
    requires
        m.has(handle),
    ensures
        clients_after_event(
            clients_after_event(m, handle, first, ProtoEvent::Pong(before)),
            handle,
            addr,
            ProtoEvent::Pong(alive),
        ) == clients_after_event(m, handle, addr, ProtoEvent::Pong(alive)),
        clients_after_event(m, handle, addr, ProtoEvent::Pong(true)) != clients_after_event(
            m,
            handle,
            addr,
            ProtoEvent::Pong(false),
        ),
{
    let once = clients_after_event(m, handle, first, ProtoEvent::Pong(before));
    let twice = clients_after_event(once, handle, addr, ProtoEvent::Pong(alive));
    assert(twice.clients =~= clients_after_event(m, handle, addr, ProtoEvent::Pong(alive)).clients);
    assert(clients_after_event(
        m,
        handle,
        addr,
        ProtoEvent::Pong(true),
    ).clients[handle].state.alive);
    assert(!clients_after_event(
        m,
        handle,
        addr,
        ProtoEvent::Pong(false),
    ).clients[handle].state.alive);
}

/// The identification of a peer's build is noted as it is, and only that.
/// No other event of a peer but these two is noted at all.
pub proof fn hello_tells_the_build(
    m: ManagerView,
    handle: u64,
    addr: SocketAddr,
    commit: [u8; 8],
    event: ProtoEvent,
)
    requires
        m.has(handle),
        event !is Pong,
        event !is Hello,
    ensures
        ({
            let after = clients_after_event(m, handle, addr, ProtoEvent::Hello { commit });
            let was = m.clients[handle];
            let c = after.clients[handle];
            &&& c.state.peer_commit == Some(commit)
            &&& c.state.alive == was.state.alive
            &&& c.state.active_addr == was.state.active_addr
            &&& c.state.active == was.state.active
            &&& c.state.ips == was.state.ips
            &&& c.config == was.config
        }),
        clients_after_event(m, handle, addr, event) == m,
{
}

/// A client whose connection was closed is neither connected nor alive, and its
/// build is not known any more; what is configured of it stays, and so do the
/// other clients.
pub proof fn closing_ends_readiness(
    m: ManagerView,
    connections: Map<SocketAddr, u64>,
    handle: u64,
    addr: SocketAddr,
    other: u64,
)
    requires
        m.has(handle),
        m.clients[handle].state.active_addr == Some(addr),
        other != handle,
    ensures
        ({
            let after = disconnected_clients(m, handle, addr);
            &&& connection_of(after, connections, handle) is None
            &&& !after.clients[handle].state.alive
            &&& after.clients[handle].state.peer_commit is None
            &&& after.clients[handle].state.active == m.clients[handle].state.active
            &&& after.clients[handle].state.ips == m.clients[handle].state.ips
            &&& after.clients[handle].config == m.clients[handle].config
            &&& after.has(other) == m.has(other)
            &&& after.clients[other] == m.clients[other]
        }),
{
}

/// A new connection is the client's, under the number that it got, and it is
/// used for no other client that is connected elsewhere.
pub proof fn new_connection_is_used(
    m: ManagerView,
    connections: Map<SocketAddr, u64>,
    handle: u64,
    addr: SocketAddr,
    connection: u64,
    other: u64,
)
    requires
        m.has(handle),
        other != handle,
        !(m.has(other) && m.clients[other].state.active_addr == Some(addr)),
    ensures
        connection_of(
            connected_clients(m, handle, addr),
            connections.insert(addr, connection),
            handle,
        ) == Some((addr, connection)),
        connection_of(
            connected_clients(m, handle, addr),
            connections.insert(addr, connection),
            other,
        ) == connection_of(m, connections, other),
        connected_clients(m, handle, addr).clients[handle].config == m.clients[handle].config,
        connected_clients(m, handle, addr).clients[handle].state.active
            == m.clients[handle].state.active,
{
}

/// A client has a connection exactly if there is one at the address at which it
/// is connected, and then it is that one.
pub proof fn connection_is_the_one_at_the_address(
    m: ManagerView,
    connections: Map<SocketAddr, u64>,
    handle: u64,
    addr: SocketAddr,
    connection: u64,
)
    ensures
        connection_of(m, connections, handle) == Some((addr, connection)) <==> {
            &&& m.has(handle)
            &&& m.clients[handle].state.active_addr == Some(addr)
            &&& connections.dom().contains(addr)
            &&& connections[addr] == connection
        },
{
}

/// An attempt is made if there was none before, if what can be dialed is new, or
/// if the pause is over; and never while one is under way.
pub proof fn when_an_attempt_is_made(
    attempts: Map<u64, ConnectionAttemptState>,
    handle: u64,
    signature: u64,
    now: u64,
)
    ensures
        !attempts.dom().contains(handle) ==> may_attempt(attempts, handle, signature, now),
        attempts.dom().contains(handle) && attempts[handle].connecting ==> !may_attempt(
            attempts,
            handle,
            signature,
            now,
        ),
        attempts.dom().contains(handle) && !attempts[handle].connecting ==> (may_attempt(
            attempts,
            handle,
            signature,
            now,
        ) <==> attempts[handle].signature != signature || attempts[handle].next_attempt_at <= now),
{
}

/// An attempt that starts is under way, with the signature of what is dialed. It
/// keeps the pause that has grown, as long as the same addresses are dialed.
pub proof fn started_attempt_keeps_its_pause(
    attempts: Map<u64, ConnectionAttemptState>,
    handle: u64,
    signature: u64,
    now: u64,
)
    ensures
        under_way(started(attempts, handle, signature, now), handle),
        started(attempts, handle, signature, now)[handle].signature == signature,
        attempts.dom().contains(handle) && attempts[handle].signature == signature ==> backoff_of(
            started(attempts, handle, signature, now),
            handle,
        ) == backoff_of(attempts, handle),
        !(attempts.dom().contains(handle) && attempts[handle].signature == signature)
            ==> backoff_of(started(attempts, handle, signature, now), handle) == 1_000_000_000,
        !under_way(failed(attempts, handle, signature, now), handle),
{
}

/// What can be dialed of a client are its own addresses and those that were
/// discovered under its fingerprint, as far as they are not link-local ones of
/// version 6: all of them, and no others.
pub proof fn own_and_discovered_addresses_are_dialed(
    m: ManagerView,
    handle: u64,
    fingerprints: Map<Seq<char>, Set<IpAddr>>,
    ip: IpAddr,
)
    requires
        m.has(handle),
    ensures
        dialable(m, handle, fingerprints).contains(ip) <==> !is_v6_link_local(ip) && (
        m.clients[handle].state.ips.contains(ip) || (m.clients[handle].config.peer_fingerprint
            matches Some(fp) && fingerprints.dom().contains(normalized_fingerprint(fp))
            && fingerprints[normalized_fingerprint(fp)].contains(ip))),
{
}

/// A client that does not exist cannot be dialed at all.
pub proof fn missing_clients_are_not_dialed(
    m: ManagerView,
    handle: u64,
    primaries: Map<Seq<char>, IpAddr>,
    fingerprints: Map<Seq<char>, Set<IpAddr>>,
)
    requires
        !m.has(handle),
    ensures
        dialable(m, handle, fingerprints) == Set::<IpAddr>::empty(),
        hint_of(m, handle, primaries, fingerprints) is None,
        !can_be_dialed(m, handle, primaries, fingerprints),
{
}

/// A suggested address is one that was discovered: a dialable candidate of the
/// client's fingerprint, before which no other one comes; or else, if there is
/// no such candidate, the primary address of the client's host.
pub proof fn suggested_address_was_discovered(
    m: ManagerView,
    handle: u64,
    primaries: Map<Seq<char>, IpAddr>,
    fingerprints: Map<Seq<char>, Set<IpAddr>>,
    ip: IpAddr,
)
    requires
        hint_of(m, handle, primaries, fingerprints) == Some(ip),
    ensures
        m.has(handle),
        ({
            let config = m.clients[handle].config;
            ||| config.peer_fingerprint matches Some(fp) && is_first_usable(
                candidates_of(fingerprints, normalized_fingerprint(fp)),
                ip,
            )
            ||| config.hostname matches Some(host) && primaries.dom().contains(
                normalized_mdns_name(host),
            ) && primaries[normalized_mdns_name(host)] == ip
        }),
{
}

/// A candidate of the fingerprint is preferred to whatever was announced under
/// the name of the host, and comes before all other candidates.
pub proof fn fingerprint_is_preferred_to_name(
    m: ManagerView,
    handle: u64,
    primaries: Map<Seq<char>, IpAddr>,
    fingerprints: Map<Seq<char>, Set<IpAddr>>,
    fingerprint: Seq<char>,
    ip: IpAddr,
)
    requires
        m.has(handle),
        m.clients[handle].config.peer_fingerprint == Some(fingerprint),
        fingerprints.dom().contains(normalized_fingerprint(fingerprint)),
        fingerprints[normalized_fingerprint(fingerprint)].contains(ip),
        !is_v6_link_local(ip),
        forall|other: IpAddr| #[trigger]
            fingerprints[normalized_fingerprint(fingerprint)].contains(other)
                && !is_v6_link_local(other) && other != ip ==> ip.before(other),
    ensures
        hint_of(m, handle, primaries, fingerprints) == Some(ip),
        hint_of(m, handle, Map::empty(), fingerprints) == hint_of(
            m,
            handle,
            primaries,
            fingerprints,
        ),
{
    let ips = candidates_of(fingerprints, normalized_fingerprint(fingerprint));
    assert(is_first_usable(ips, ip));
    let chosen = choose|x: IpAddr| #[trigger] is_first_usable(ips, x);
    assert(is_first_usable(ips, chosen));
    if chosen != ip {
        assert(ips.contains(chosen));
        assert(ip.before(chosen));
        assert(chosen.before(ip));
    }
}

/// Every address is dialed on the port of the client, and in the order in which
/// it is listed.
pub proof fn addresses_get_the_port(ips: Seq<IpAddr>, port: u16, i: int)
    requires
        0 <= i < ips.len(),
    ensures
        with_port(ips, port).len() == ips.len(),
        with_port(ips, port)[i].ip == ips[i],
        with_port(ips, port)[i].port == port,
        with_port(ips, port)[i].scope_id == 0,
        with_port(ips, port)[i].flowinfo == 0,
{
}

/// A connection counts as long as the client has the fingerprint that it was
/// made for, however that is written.
pub proof fn fingerprint_may_be_written_anyhow(
    m: ManagerView,
    handle: u64,
    written: Seq<char>,
    expected: Seq<char>,
)
    requires
        m.has(handle),
        m.clients[handle].config.peer_fingerprint == Some(written),
    ensures
        fingerprint_unchanged(m, handle, Some(expected)) <==> expected == normalized_fingerprint(
            written,
        ),
        !fingerprint_unchanged(m, handle, None),
{
}

/// The first handshake that succeeds is taken at any time. The race is lost only
/// when all addresses have been dialed and nothing is under way any more.
pub proof fn race_is_lost_only_when_all_failed(race: Race, event: RaceEvent)
    requires
        event is Failed ==> race.in_flight > 0,
        race.in_flight + race.others <= usize::MAX,
    ensures
        race_after(race, event).1 is Take <==> event is Succeeded,
        race_after(race, event).1 is NotConnected ==> !race_after(race, event).0.head_start
            && race_after(race, event).0.in_flight == 0,
        event !is Succeeded && !race_after(race, event).0.head_start && race_after(
            race,
            event,
        ).0.in_flight == 0 && !(event is HeadStartOver && !race.head_start) ==> race_after(
            race,
            event,
        ).1 is NotConnected,
        event is Failed ==> race_after(race, event).0.in_flight == race.in_flight - 1,
        event is Failed ==> race_after(race, event).0.head_start == race.head_start,
        race_after(race, event).0.others == race.others,
{
}

/// When the head start is over, the other addresses join the race, once; the
/// handshake that is under way goes on.
pub proof fn others_join_after_the_head_start(race: Race)
    requires
        race.head_start,
        race.in_flight + race.others <= usize::MAX,
    ensures
        ({
            let (after, step) = race_after(race, RaceEvent::HeadStartOver);
            &&& !after.head_start
            &&& after.in_flight == race.in_flight + race.others
            &&& race.in_flight + race.others > 0 ==> step is DialOthers
            &&& race_after(after, RaceEvent::HeadStartOver) == (after, RaceStep::Wait)
        }),
{
}

proof fn lemma_u32_bytes_differ(a: u32, b: u32)
    requires
        be_bytes_u32(a) == be_bytes_u32(b),
    ensures
        a == b,
{
    let x = be_bytes_u32(a);
    let y = be_bytes_u32(b);
    assert(x[0] == y[0] && x[1] == y[1] && x[2] == y[2] && x[3] == y[3]);
    assert(a == b) by (bit_vector)
        requires
            a / 0x1000000 == b / 0x1000000,
            (a / 0x10000) % 0x100 == (b / 0x10000) % 0x100,
            (a / 0x100) % 0x100 == (b / 0x100) % 0x100,
            a % 0x100 == b % 0x100,
    ;
}

proof fn lemma_u64_bytes_differ(a: u64, b: u64)
    requires
        be_bytes_u64(a) == be_bytes_u64(b),
    ensures
        a == b,
{
    let x = be_bytes_u64(a);
    let y = be_bytes_u64(b);
    assert(x.take(4) =~= be_bytes_u32((a / 0x1_0000_0000) as u32));
    assert(y.take(4) =~= be_bytes_u32((b / 0x1_0000_0000) as u32));
    assert(x.skip(4) =~= be_bytes_u32((a % 0x1_0000_0000) as u32));
    assert(y.skip(4) =~= be_bytes_u32((b % 0x1_0000_0000) as u32));
    lemma_u32_bytes_differ((a / 0x1_0000_0000) as u32, (b / 0x1_0000_0000) as u32);
    lemma_u32_bytes_differ((a % 0x1_0000_0000) as u32, (b % 0x1_0000_0000) as u32);
}

/// The bytes of an address tell where they end, and which address it is.
proof fn lemma_address_bytes_differ(a: IpAddr, x: Seq<u8>, b: IpAddr, y: Seq<u8>)
    requires
        address_bytes(a) + x == address_bytes(b) + y,
    ensures
        a == b,
        x == y,
{
    reveal(address_bytes);
    let s = address_bytes(a) + x;
    let t = address_bytes(b) + y;
    assert(s[0] == address_bytes(a)[0]);
    assert(t[0] == address_bytes(b)[0]);
    let n = address_bytes(a).len() as int;
    assert(address_bytes(b).len() == n);
    assert(s.take(n) =~= address_bytes(a));
    assert(t.take(n) =~= address_bytes(b));
    assert(s.skip(n) =~= x);
    assert(t.skip(n) =~= y);
    let u = address_bytes(a);
    match (a, b) {
        (IpAddr::V4(m), IpAddr::V4(k)) => {
            assert(u.skip(1) =~= be_bytes_u32(m));
            assert(u.skip(1) =~= be_bytes_u32(k));
            lemma_u32_bytes_differ(m, k);
        },
        (IpAddr::V6(m), IpAddr::V6(k)) => {
            let mh = (m / 0x1_0000_0000_0000_0000) as u64;
            let kh = (k / 0x1_0000_0000_0000_0000) as u64;
            let ml = (m % 0x1_0000_0000_0000_0000) as u64;
            let kl = (k % 0x1_0000_0000_0000_0000) as u64;
            assert(u.subrange(1, 9) =~= be_bytes_u64(mh));
            assert(u.subrange(1, 9) =~= be_bytes_u64(kh));
            assert(u.subrange(9, 17) =~= be_bytes_u64(ml));
            assert(u.subrange(9, 17) =~= be_bytes_u64(kl));
            lemma_u64_bytes_differ(mh, kh);
            lemma_u64_bytes_differ(ml, kl);
        },
        _ => {},
    }
}

proof fn lemma_address_tag(ip: IpAddr)
    ensures
        address_bytes(ip).len() > 0,
        address_bytes(ip)[0] != 0,
{
    reveal(address_bytes);
}

proof fn lemma_addresses_front(ips: Seq<IpAddr>)
    requires
        ips.len() > 0,
    ensures
        addresses_bytes(ips) == address_bytes(ips.first()) + addresses_bytes(ips.drop_first()),
    decreases ips.len(),
{
    if ips.len() == 1 {
        assert(ips.drop_last() =~= Seq::<IpAddr>::empty());
        assert(ips.drop_first() =~= Seq::<IpAddr>::empty());
        assert(addresses_bytes(ips) =~= address_bytes(ips.first()) + addresses_bytes(
            ips.drop_first(),
        ));
    } else {
        let t = ips.drop_last();
        lemma_addresses_front(t);
        assert(t.drop_first() =~= ips.drop_first().drop_last());
        assert(ips.drop_first().last() == ips.last());
        assert(addresses_bytes(ips) =~= address_bytes(ips.first()) + addresses_bytes(
            ips.drop_first(),
        ));
    }
}

proof fn lemma_lists_differ(a: Seq<IpAddr>, x: Seq<u8>, b: Seq<IpAddr>, y: Seq<u8>)
    requires
        addresses_bytes(a) + seq![0u8] + x == addresses_bytes(b) + seq![0u8] + y,
    ensures
        a == b,
        x == y,
    decreases a.len(),
{
    let s = addresses_bytes(a) + seq![0u8] + x;
    let t = addresses_bytes(b) + seq![0u8] + y;
    if a.len() > 0 {
        lemma_addresses_front(a);
        lemma_address_tag(a.first());
        assert(s[0] == address_bytes(a.first())[0]);
    }
    if b.len() > 0 {
        lemma_addresses_front(b);
        lemma_address_tag(b.first());
        assert(t[0] == address_bytes(b.first())[0]);
    }
    if a.len() == 0 || b.len() == 0 {
        assert(a.len() == 0 ==> s[0] == 0u8);
        assert(b.len() == 0 ==> t[0] == 0u8);
        assert(a =~= b);
        assert(s.skip(1) =~= x);
        assert(t.skip(1) =~= y);
    } else {
        let p = addresses_bytes(a.drop_first()) + seq![0u8] + x;
        let q = addresses_bytes(b.drop_first()) + seq![0u8] + y;
        assert(s =~= address_bytes(a.first()) + p);
        assert(t =~= address_bytes(b.first()) + q);
        lemma_address_bytes_differ(a.first(), p, b.first(), q);
        lemma_lists_differ(a.drop_first(), x, b.drop_first(), y);
        assert(a =~= seq![a.first()] + a.drop_first());
        assert(b =~= seq![b.first()] + b.drop_first());
    }
}

/// Whatever changes in the addresses or in the primary one changes what is
/// hashed: no two different states hash the same bytes.
pub proof fn signatures_hash_everything(
    a: Seq<IpAddr>,
    primary: Option<IpAddr>,
    b: Seq<IpAddr>,
    other: Option<IpAddr>,
)
    requires
        signature_bytes(a, primary) == signature_bytes(b, other),
    ensures
        a == b,
        primary == other,
{
    let x = match primary {
        Some(ip) => address_bytes(ip),
        None => seq![],
    };
    let y = match other {
        Some(ip) => address_bytes(ip),
        None => seq![],
    };
    lemma_lists_differ(a, x, b, y);
    match (primary, other) {
        (Some(p), Some(q)) => {
            assert(address_bytes(p) + Seq::<u8>::empty() =~= address_bytes(p));
            assert(address_bytes(q) + Seq::<u8>::empty() =~= address_bytes(q));
            lemma_address_bytes_differ(p, Seq::<u8>::empty(), q, Seq::<u8>::empty());
        },
        (Some(p), None) => lemma_address_tag(p),
        (None, Some(q)) => lemma_address_tag(q),
        (None, None) => {},
    }
}

/// An event is transmitted to a client exactly if the client is ready: over the
/// connection that it has, and as the bytes of that event. A client that is
/// connected but said that it cannot emulate input is not sent anything.
pub proof fn only_ready_clients_are_sent_events(
    clients: &ClientManager,
    connections: &Connections,
    event: ProtoEvent,
    handle: ClientHandle,
    connected: bool,
    ready: bool,
    plan: SendPlan,
)
    requires
        clients.wf(),
        connections.wf(),
        call_ensures(is_connected, (clients, connections, handle), connected),
        call_ensures(is_ready, (clients, connections, handle), ready),
        call_ensures(send, (clients, connections, event, handle), plan),
    ensures
        ready ==> connected,
        ready <==> connected && clients@.clients[handle].state.alive,
        plan is Transmit <==> ready,
        plan is TargetEmulationDisabled <==> connected && !ready,
        plan is NotConnected <==> !connected,
        plan matches SendPlan::Transmit { addr, connection, buf, len } ==> {
            &&& clients@.clients[handle].state.active_addr == Some(addr)
            &&& connections@[addr] == connection
            &&& decoded(buf@.take(len as int)) == Ok::<ProtoEvent, crate::proto::ProtocolError>(
                event,
            )
        },
{
    crate::proto::decoding_undoes_encoding(event);
    crate::proto::first_byte_gives_length(event);
    assert(padded(event.wire()).take(event.wire().len() as int) =~= event.wire());
}

} // verus!
