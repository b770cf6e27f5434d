//! Pairing with a peer: who is on the network, and what is written into the
//! configuration for one of them.
use crate::client::{ConfigClient, ConfigClientView};
use crate::collections::{lemma_entry, AssocMap};
use crate::discovery::{
    fingerprints_normalise_once, instance_from_fullname, normalize_fingerprint, normalized_fingerprint, strip_trailing_dot,
    without_trailing_dot, PrimaryTxt, Resolved, SERVICE_TYPE,
};
use crate::ipc::{
    actions_view, ActionTrigger, ActionView, ClientAction, Position, DEFAULT_PORT,
};
use crate::net::{ip_texts, ip_texts_of, lemma_listed, listed_ascending, IpAddr, IpSet};
use crate::service::{config_clients, nonempty_fingerprint, Config, FileView};
use crate::text::{
    decimal, decimal_of, join, opt_text, same, separated, texts, without_suffix,
};
use vstd::multiset::Multiset;
use vstd::prelude::*;
use vstd::string::{StrSliceExecFns, StringExecFns};

verus! {

/// How long discovery lasts by default, in milliseconds.
pub const DEFAULT_TIMEOUT_MS: u64 = 2500;

/// The VCP code of the input source.
pub const INPUT_SOURCE_CODE: u8 = 0x60;

/// How the peers on the network are to be listed.
#[derive(Clone, Copy, Debug, PartialEq, Eq, Structural)]
pub struct DiscoverArgs {
    /// How long discovery lasts, in milliseconds.
    pub timeout_ms: u64,
    /// Whether JSON is printed.
    pub json: bool,
}

impl Default for DiscoverArgs {
    fn default() -> (args: DiscoverArgs)
        ensures
            args == (DiscoverArgs { timeout_ms: DEFAULT_TIMEOUT_MS, json: false }),
    {
        DiscoverArgs { timeout_ms: DEFAULT_TIMEOUT_MS, json: false }
    }
}

/// With whom, and how, to pair.
pub struct PairArgs {
    /// The fingerprint of the peer's certificate.
    pub mac_key: String,
    /// The side of the screen at which the peer sits.
    pub position: Position,
    /// The name of the peer's host, if it is not to be discovered.
    pub hostname: Option<String>,
    /// The description of the key.
    pub label: String,
    /// The port of the peer, if it is not discovered.
    pub port: u16,
    /// How long discovery lasts, in milliseconds.
    pub discover_timeout_ms: u64,
    /// Whether nothing is to be discovered.
    pub no_discover: bool,
    /// The command that is run when the peer is entered.
    pub enter_hook: Option<String>,
    /// The command that is run when the peer is left.
    pub leave_hook: Option<String>,
    /// The monitor whose input source is switched.
    pub ddc_monitor: Option<String>,
    /// The VCP code that is set.
    pub ddc_code: u8,
    /// The value that is set when the peer is entered.
    pub ddc_enter_input: Option<u32>,
    /// The value that is set when the peer is left.
    pub ddc_leave_input: Option<u32>,
}

impl PairArgs {
    /// Arguments with a key and a position, and nothing else.
    pub fn new(mac_key: String, position: Position) -> (args: PairArgs)
        ensures
            args.mac_key == mac_key,
            args.position == position,
            args.hostname is None,
            args.label@ == "mac"@,
            args.port == DEFAULT_PORT,
            args.discover_timeout_ms == DEFAULT_TIMEOUT_MS,
            !args.no_discover,
            args.enter_hook is None,
            args.leave_hook is None,
            args.ddc_monitor is None,
            args.ddc_code == INPUT_SOURCE_CODE,
            args.ddc_enter_input is None,
            args.ddc_leave_input is None,
    {
        PairArgs {
            mac_key,
            position,
            hostname: None,
            label: String::from_str("mac"),
            port: DEFAULT_PORT,
            discover_timeout_ms: DEFAULT_TIMEOUT_MS,
            no_discover: false,
            enter_hook: None,
            leave_hook: None,
            ddc_monitor: None,
            ddc_code: INPUT_SOURCE_CODE,
            ddc_enter_input: None,
            ddc_leave_input: None,
        }
    }
}

/// A peer that was discovered.
pub struct DiscoveredPeer {
    pub instance: String,
    pub hostname: String,
    pub port: u16,
    pub fingerprint: Option<String>,
    pub primary: Option<IpAddr>,
    pub addresses: Vec<IpAddr>,
}

/// A peer that was discovered, in mathematical terms.
#[verifier::ext_equal]
pub struct PeerView {
    pub instance: Seq<char>,
    pub hostname: Seq<char>,
    pub port: u16,
    pub fingerprint: Option<Seq<char>>,
    pub primary: Option<IpAddr>,
    pub addresses: Seq<IpAddr>,
}

impl View for DiscoveredPeer {
    type V = PeerView;

    open spec fn view(&self) -> PeerView {
        PeerView {
            instance: self.instance@,
            hostname: self.hostname@,
            port: self.port,
            fingerprint: opt_text(self.fingerprint),
            primary: self.primary,
            addresses: self.addresses@,
        }
    }
}

/// The primary address of an announcement, where it has one.
pub open spec fn primary_of(primary: PrimaryTxt) -> Option<IpAddr> {
    match primary {
        PrimaryTxt::Address(ip) => Some(ip),
        _ => None,
    }
}

/// All addresses of an announcement.
pub open spec fn addresses_of(r: Resolved) -> Set<IpAddr> {
    match primary_of(r.primary) {
        Some(ip) => r.addresses@.to_set().insert(ip),
        None => r.addresses@.to_set(),
    }
}

/// The peer that an announcement tells of. Its addresses are listed in
/// ascending order, each once, and the primary one is among them.
pub open spec fn peer_of(r: Resolved) -> PeerView {
    PeerView {
        instance: without_suffix(r.fullname@, "."@ + SERVICE_TYPE@),
        hostname: without_trailing_dot(r.hostname@),
        port: r.port,
        fingerprint: nonempty_fingerprint(opt_text(r.fingerprint)),
        primary: primary_of(r.primary),
        addresses: listed_ascending(addresses_of(r)),
    }
}

/// The peer that an announcement tells of.
pub fn discovered_peer(r: &Resolved) -> (p: DiscoveredPeer)
    ensures
        p@ == peer_of(*r),
{
    let fingerprint = match &r.fingerprint {
        Some(fp) => {
            let fp = normalize_fingerprint(fp.as_str());
            if fp.as_str().unicode_len() == 0 {
                None
            } else {
                Some(fp)
            }
        },
        None => None,
    };
    let mut ips = IpSet::new();
    ips.extend_from(&r.addresses);
    assert(ips@ =~= r.addresses@.to_set());
    let primary = match r.primary {
        PrimaryTxt::Address(ip) => {
            ips.insert(ip);
            Some(ip)
        },
        _ => None,
    };
    proof {
        lemma_listed(ips.ips@);
    }
    DiscoveredPeer {
        instance: String::from_str(instance_from_fullname(r.fullname.as_str(), SERVICE_TYPE)),
        hostname: String::from_str(strip_trailing_dot(r.hostname.as_str())),
        port: r.port,
        fingerprint,
        primary,
        addresses: ips.ips,
    }
}

/// Whether a text comes before another, character by character.
pub open spec fn text_before(a: Seq<char>, b: Seq<char>) -> bool
    decreases a.len(),
{
    if b.len() == 0 {
        false
    } else if a.len() == 0 {
        true
    } else if a[0] != b[0] {
        a[0] < b[0]
    } else {
        text_before(a.skip(1), b.skip(1))
    }
}

/// Whether a text comes before another.
pub fn is_text_before(a: &str, b: &str) -> (r: bool)
    ensures
        r == text_before(a@, b@),
{
    let n: usize = a.unicode_len();
    let m: usize = b.unicode_len();
    let mut i: usize = 0;
    assert(a@.skip(0) =~= a@);
    assert(b@.skip(0) =~= b@);
    while i < n && i < m
        invariant
            n == a@.len(),
            m == b@.len(),
            i <= n,
            i <= m,
            text_before(a@, b@) == text_before(a@.skip(i as int), b@.skip(i as int)),
        decreases n - i,
    {
        let x = a.get_char(i);
        let y = b.get_char(i);
        assert(a@.skip(i as int)[0] == x);
        assert(b@.skip(i as int)[0] == y);
        assert(a@.skip(i as int).skip(1) =~= a@.skip(i + 1));
        assert(b@.skip(i as int).skip(1) =~= b@.skip(i + 1));
        if x != y {
            return x < y;
        }
        i = i + 1;
    }
    i < m
}

/// Of two texts at most one comes before the other, and what comes before a
/// text comes before all that do not come before that text.
proof fn lemma_text_order(a: Seq<char>, b: Seq<char>, c: Seq<char>)
    ensures
        !(text_before(a, b) && text_before(b, a)),
        text_before(a, b) && !text_before(c, b) ==> text_before(a, c),
    decreases a.len(),
{
    if a.len() > 0 && b.len() > 0 && c.len() > 0 {
        lemma_text_order(a.skip(1), b.skip(1), c.skip(1));
    } else if a.len() > 0 && b.len() > 0 {
        lemma_text_order(a.skip(1), b.skip(1), c);
    }
}

/// The peers of a list.
pub open spec fn peers_view(s: Seq<DiscoveredPeer>) -> Seq<PeerView> {
    s.map_values(|p: DiscoveredPeer| p@)
}

/// Whether the peers stand in the order of their instances.
pub open spec fn in_order(s: Seq<PeerView>) -> bool {
    forall|i: int, j: int|
        0 <= i < j < s.len() ==> !text_before(
            (#[trigger] s[j]).instance,
            (#[trigger] s[i]).instance,
        )
}

/// Puts a peer behind those that it does not come before.
fn put_peer(peers: &mut Vec<DiscoveredPeer>, peer: DiscoveredPeer)
    requires
        in_order(peers_view(old(peers)@)),
    ensures
        in_order(peers_view(final(peers)@)),
        peers_view(final(peers)@).to_multiset() == peers_view(old(peers)@).to_multiset().insert(
            peer@,
        ),
{
    let ghost before = peers_view(peers@);
    let ghost p = peer@;
    let mut i: usize = peers.len();
    while i > 0 && is_text_before(peer.instance.as_str(), peers[i - 1].instance.as_str())
        invariant
            i <= peers@.len(),
            p == peer@,
            before == peers_view(peers@),
            forall|j: int| i <= j < before.len() ==> text_before(p.instance, (#[trigger] before[j]).instance),
        decreases i,
    {
        i = i - 1;
    }
    peers.insert(i, peer);
    proof {
        let after = peers_view(peers@);
        assert(after =~= before.insert(i as int, p));
        lemma_multiset_insert(before, i as int, p);
        assert forall|a: int, b: int| 0 <= a < b < after.len() implies !text_before(
            (#[trigger] after[b]).instance,
            (#[trigger] after[a]).instance,
        ) by {
            let a2 = if a < i { a } else { a - 1 };
            let b2 = if b < i { b } else { b - 1 };
            if a != i && b != i {
                assert(after[a] == before[a2]);
                assert(after[b] == before[b2]);
            } else if a == i {
                assert(after[b] == before[b2]);
                lemma_text_order(p.instance, before[b2].instance, p.instance);
            } else {
                assert(after[a] == before[a]);
                let last = before[i - 1];
                assert(!text_before(p.instance, last.instance));
                if text_before(p.instance, before[a].instance) {
                    if a < i - 1 {
                        assert(!text_before(last.instance, before[a].instance));
                    }
                    lemma_text_order(p.instance, before[a].instance, last.instance);
                }
            }
        }
    }
}

proof fn lemma_multiset_insert(s: Seq<PeerView>, i: int, x: PeerView)
    requires
        0 <= i <= s.len(),
    ensures
        s.insert(i, x).to_multiset() == s.to_multiset().insert(x),
{
    broadcast use vstd::seq_lib::group_to_multiset_ensures;

    let t = s.insert(i, x);
    assert(t[i] == x);
    assert(t.contains(x));
    assert(t.remove(i) =~= s);
    assert(t.remove(i).to_multiset() =~= t.to_multiset().remove(x));
    assert(t.to_multiset() =~= s.to_multiset().insert(x));
}

/// What happens while peers are looked for.
pub enum BrowseEvent {
    /// A service was resolved.
    Resolved(Resolved),
    /// Something else.
    Other,
    /// No more events will come.
    Closed,
}

/// The peers that were discovered so far, by the full names of their services.
pub struct Peers {
    pub map: AssocMap<String, DiscoveredPeer>,
}

impl View for Peers {
    type V = Map<Seq<char>, PeerView>;

    open spec fn view(&self) -> Map<Seq<char>, PeerView> {
        self.map@.map_values(|p: DiscoveredPeer| p@)
    }
}

impl Peers {
    /// Whether the map is in order.
    pub open spec fn wf(&self) -> bool {
        self.map.wf()
    }

    /// No peers.
    pub fn new() -> (p: Peers)
        ensures
            p.wf(),
            p@ == Map::<Seq<char>, PeerView>::empty(),
    {
        let p = Peers { map: AssocMap::new() };
        assert(p@ =~= Map::<Seq<char>, PeerView>::empty());
        p
    }

    /// Handles an event, and returns whether to go on. What is announced under
    /// a full name replaces what was announced under it before.
    pub fn handle(&mut self, event: &BrowseEvent) -> (go_on: bool)
        requires
            old(self).wf(),
        ensures
            final(self).wf(),
            go_on == !(event is Closed),
            final(self)@ == match event {
                BrowseEvent::Resolved(r) => old(self)@.insert(r.fullname@, peer_of(*r)),
                _ => old(self)@,
            },
    {
        match event {
            BrowseEvent::Resolved(r) => {
                let ghost before = self@;
                let peer = discovered_peer(r);
                let ghost p = peer@;
                self.map.insert(r.fullname.clone(), peer);
                assert(self@ =~= before.insert(r.fullname@, p));
                true
            },
            BrowseEvent::Other => true,
            BrowseEvent::Closed => false,
        }
    }

    /// All peers, each once.
    pub open spec fn values(&self) -> Multiset<PeerView> {
        peers_view(
            self.map.entries@.map_values(|e: (String, DiscoveredPeer)| e.1),
        ).to_multiset()
    }

    /// The peers, in the order of their instances.
    pub fn sorted(self) -> (r: Vec<DiscoveredPeer>)
        requires
            self.wf(),
        ensures
            in_order(peers_view(r@)),
            peers_view(r@).to_multiset() == self.values(),
            forall|p: PeerView| #[trigger]
                peers_view(r@).contains(p) <==> exists|name: Seq<char>|
                    self@.dom().contains(name) && #[trigger] self@[name] == p,
    {
        broadcast use vstd::seq_lib::group_to_multiset_ensures;

        let ghost entries = self.map.entries@;
        let ghost all = peers_view(entries.map_values(|e: (String, DiscoveredPeer)| e.1));
        let mut rest = self.map.entries;
        let mut r: Vec<DiscoveredPeer> = Vec::new();
        assert(all.take(all.len() as int) =~= all);
        assert(peers_view(r@) =~= Seq::<PeerView>::empty());
        assert(all.skip(all.len() as int) =~= Seq::<PeerView>::empty());
        while rest.len() > 0
            invariant
                all == peers_view(entries.map_values(|e: (String, DiscoveredPeer)| e.1)),
                rest@.len() <= entries.len(),
                rest@ == entries.take(rest@.len() as int),
                in_order(peers_view(r@)),
                peers_view(r@).to_multiset() == all.skip(rest@.len() as int).to_multiset(),
            decreases rest@.len(),
        {
            let ghost n = rest@.len() as int;
            let last = rest.pop();
            if let Some((_, peer)) = last {
                let ghost p = peer@;
                put_peer(&mut r, peer);
                proof {
                    assert(rest@ =~= entries.take(n - 1));
                    assert(p == all[n - 1]);
                    assert(all.skip(n - 1) =~= all.skip(n).insert(0, p));
                    lemma_multiset_insert(all.skip(n), 0, p);
                }
            }
        }
        proof {
            assert(all.skip(0) =~= all);
            let sorted = peers_view(r@);
            assert forall|p: PeerView| #[trigger] sorted.contains(p) <==> exists|name: Seq<char>|
                self@.dom().contains(name) && #[trigger] self@[name] == p by {
                assert(sorted.contains(p) <==> sorted.to_multiset().count(p) > 0);
                assert(all.contains(p) <==> all.to_multiset().count(p) > 0);
                if all.contains(p) {
                    let i = choose|i: int| 0 <= i < all.len() && all[i] == p;
                    lemma_entry(entries, i);
                    let name = entries[i].0@;
                    assert(self@.dom().contains(name) && self@[name] == p);
                }
                if exists|name: Seq<char>|
                    self@.dom().contains(name) && #[trigger] self@[name] == p {
                    let name = choose|name: Seq<char>|
                        self@.dom().contains(name) && #[trigger] self@[name] == p;
                    let i = crate::collections::lemma_key(entries, name);
                    assert(all[i] == p);
                }
            }
        }
        r
    }
}

/// The line that is printed of a peer.
pub open spec fn peer_text(p: PeerView) -> Seq<char> {
    p.instance + " host="@ + p.hostname + " port="@ + decimal(p.port as nat) + " fp="@ + (
    match p.fingerprint {
        Some(fp) => fp,
        None => "-"@,
    }) + " primary="@ + (match p.primary {
        Some(ip) => ip.text(),
        None => "-"@,
    }) + " addrs=["@ + separated(ip_texts(p.addresses), ", "@) + "]"@
}

/// The line that is printed of a peer.
pub fn peer_line(p: &DiscoveredPeer) -> (s: String)
    ensures
        s@ == peer_text(p@),
{
    let mut s = p.instance.clone();
    s.append(" host=");
    s.append(p.hostname.as_str());
    s.append(" port=");
    s.append(decimal_of(p.port as u64).as_str());
    s.append(" fp=");
    match &p.fingerprint {
        Some(fp) => s.append(fp.as_str()),
        None => s.append("-"),
    }
    s.append(" primary=");
    match p.primary {
        Some(ip) => s.append(ip.to_text().as_str()),
        None => s.append("-"),
    }
    s.append(" addrs=[");
    s.append(join(&ip_texts_of(&p.addresses), ", ").as_str());
    s.append("]");
    s
}

/// What is printed of the discovered peers: a line for each, or a sentence if
/// there are none. JSON is not made here.
pub open spec fn listing(args: DiscoverArgs, peers: Seq<PeerView>) -> Option<Seq<Seq<char>>> {
    if args.json {
        None
    } else if peers.len() == 0 {
        Some(seq!["no lan-mouse peers discovered"@])
    } else {
        Some(peers.map_values(|p: PeerView| peer_text(p)))
    }
}

/// The lines that are printed of the discovered peers; none if JSON is to be
/// printed.
pub fn discover_command(args: DiscoverArgs, peers: &Vec<DiscoveredPeer>) -> (r: Option<Vec<String>>)
    ensures
        match r {
            Some(lines) => listing(args, peers_view(peers@)) == Some(texts(lines@)),
            None => listing(args, peers_view(peers@)) is None,
        },
{
    if args.json {
        return None;
    }
    let mut lines: Vec<String> = Vec::new();
    if peers.len() == 0 {
        lines.push(String::from_str("no lan-mouse peers discovered"));
        assert(texts(lines@) =~= seq!["no lan-mouse peers discovered"@]);
        return Some(lines);
    }
    let mut i: usize = 0;
    while i < peers.len()
        invariant
            i <= peers@.len(),
            lines@.len() == i,
            forall|j: int| 0 <= j < i ==> (#[trigger] lines@[j])@ == peer_text(peers@[j]@),
        decreases peers@.len() - i,
    {
        lines.push(peer_line(&peers[i]));
        i = i + 1;
    }
    assert(texts(lines@) =~= peers_view(peers@).map_values(|p: PeerView| peer_text(p)));
    Some(lines)
}

/// The actions that switch the input source of a monitor: none without a
/// monitor, and one for every value that was given.
pub open spec fn switching_actions(
    monitor: Option<Seq<char>>,
    code: u8,
    enter_input: Option<u32>,
    leave_input: Option<u32>,
) -> Seq<ActionView> {
    match monitor {
        None => seq![],
        Some(m) => (match enter_input {
            Some(value) => seq![
                ActionView { on: ActionTrigger::Enter, monitor: Some(m), code, value },
            ],
            None => seq![],
        }) + (match leave_input {
            Some(value) => seq![
                ActionView { on: ActionTrigger::Leave, monitor: Some(m), code, value },
            ],
            None => seq![],
        }),
    }
}

/// The actions that switch the input source of a monitor.
pub fn ddc_actions(
    monitor: Option<String>,
    code: u8,
    enter_input: Option<u32>,
    leave_input: Option<u32>,
) -> (actions: Vec<ClientAction>)
    ensures
        actions_view(actions@) == switching_actions(
            opt_text(monitor),
            code,
            enter_input,
            leave_input,
        ),
{
    let ghost due = switching_actions(opt_text(monitor), code, enter_input, leave_input);
    let mut actions: Vec<ClientAction> = Vec::new();
    if let Some(monitor) = monitor {
        if let Some(value) = enter_input {
            actions.push(
                ClientAction::DdcVcp {
                    on: ActionTrigger::Enter,
                    monitor: Some(monitor.clone()),
                    code,
                    value,
                },
            );
        }
        if let Some(value) = leave_input {
            actions.push(
                ClientAction::DdcVcp {
                    on: ActionTrigger::Leave,
                    monitor: Some(monitor),
                    code,
                    value,
                },
            );
        }
    }
    assert(actions_view(actions@) =~= due);
    actions
}

/// Whether an optional fingerprint is the normalised one.
pub open spec fn is_key(fingerprint: Option<Seq<char>>, key: Seq<char>) -> bool {
    fingerprint matches Some(fp) && normalized_fingerprint(fp) == key
}

fn has_key(fingerprint: &Option<String>, key: &str) -> (r: bool)
    ensures
        r == is_key(opt_text(*fingerprint), key@),
{
    match fingerprint {
        Some(fp) => same(normalize_fingerprint(fp.as_str()).as_str(), key),
        None => false,
    }
}

/// The first peer of the fingerprint, from the given place on.
pub open spec fn peer_with_key(peers: Seq<PeerView>, key: Seq<char>, from: int) -> Option<int>
    decreases peers.len() - from,
{
    if from < 0 || from >= peers.len() {
        None
    } else if is_key(peers[from].fingerprint, key) {
        Some(from)
    } else {
        peer_with_key(peers, key, from + 1)
    }
}

/// The first peer of the fingerprint.
fn find_peer(peers: &Vec<DiscoveredPeer>, key: &str) -> (r: Option<usize>)
    ensures
        match r {
            Some(i) => i < peers@.len() && peer_with_key(peers_view(peers@), key@, 0) == Some(
                i as int,
            ),
            None => peer_with_key(peers_view(peers@), key@, 0) is None,
        },
{
    let ghost all = peers_view(peers@);
    let mut i: usize = 0;
    while i < peers.len()
        invariant
            i <= peers@.len(),
            all == peers_view(peers@),
            peer_with_key(all, key@, 0) == peer_with_key(all, key@, i as int),
        decreases peers@.len() - i,
    {
        if has_key(&peers[i].fingerprint, key) {
            return Some(i);
        }
        i = i + 1;
    }
    None
}

/// The first client of the fingerprint, from the given place on.
pub open spec fn client_with_key(
    clients: Seq<ConfigClientView>,
    key: Seq<char>,
    from: int,
) -> Option<int>
    decreases clients.len() - from,
{
    if from < 0 || from >= clients.len() {
        None
    } else if is_key(clients[from].peer_fingerprint, key) {
        Some(from)
    } else {
        client_with_key(clients, key, from + 1)
    }
}

/// The first client of the fingerprint.
fn find_client(clients: &Vec<ConfigClient>, key: &str) -> (r: Option<usize>)
    ensures
        match r {
            Some(i) => i < clients@.len() && client_with_key(config_clients(clients@), key@, 0)
                == Some(i as int),
            None => client_with_key(config_clients(clients@), key@, 0) is None,
        },
{
    let ghost all = config_clients(clients@);
    let mut i: usize = 0;
    while i < clients.len()
        invariant
            i <= clients@.len(),
            all == config_clients(clients@),
            client_with_key(all, key@, 0) == client_with_key(all, key@, i as int),
        decreases clients@.len() - i,
    {
        if has_key(&clients[i].peer_fingerprint, key) {
            return Some(i);
        }
        i = i + 1;
    }
    None
}

/// The port of the paired peer: the one that was discovered, or the one that
/// was given.
pub open spec fn paired_port(args: PairArgs, peer: Option<PeerView>) -> u16 {
    match peer {
        Some(p) => p.port,
        None => args.port,
    }
}

/// The client of the paired peer.
pub open spec fn paired_client(args: PairArgs, peer: Option<PeerView>) -> ConfigClientView {
    ConfigClientView {
        ips: Set::empty(),
        hostname: match (args.hostname, peer) {
            (Some(host), _) => Some(host@),
            (None, Some(p)) => Some(p.hostname),
            (None, None) => None,
        },
        peer_fingerprint: Some(normalized_fingerprint(args.mac_key@)),
        port: paired_port(args, peer),
        pos: args.position,
        active: true,
        enter_hook: opt_text(args.enter_hook),
        leave_hook: opt_text(args.leave_hook),
        actions: switching_actions(
            opt_text(args.ddc_monitor),
            args.ddc_code,
            args.ddc_enter_input,
            args.ddc_leave_input,
        ),
    }
}

/// The configuration once a peer is paired: its client replaces the one of the
/// same fingerprint, or comes behind the others; its key is trusted; the port
/// is the peer's; and discovery is on.
pub open spec fn paired(config: FileView, args: PairArgs, peer: Option<PeerView>) -> FileView {
    let key = normalized_fingerprint(args.mac_key@);
    let client = paired_client(args, peer);
    FileView {
        clients: match client_with_key(config.clients, key, 0) {
            Some(i) => config.clients.update(i, client),
            None => config.clients.push(client),
        },
        authorized: config.authorized.insert(key, args.label@),
        port: paired_port(args, peer),
        mdns_discovery: true,
        ..config
    }
}

/// The place of the peer that is to be paired among the discovered ones. None
/// is looked for where discovery is to be skipped.
pub open spec fn matched_place(args: PairArgs, peers: Seq<PeerView>) -> Option<int> {
    if args.no_discover {
        None
    } else {
        peer_with_key(peers, normalized_fingerprint(args.mac_key@), 0)
    }
}

/// The peer among the discovered ones that is to be paired.
pub open spec fn matched_peer(args: PairArgs, peers: Seq<PeerView>) -> Option<PeerView> {
    match matched_place(args, peers) {
        Some(i) => Some(peers[i]),
        None => None,
    }
}

/// Pairs a peer, given the peers that were discovered, and returns the place
/// of the peer among them.
pub fn pair_command(config: &mut Config, args: PairArgs, discovered: &Vec<DiscoveredPeer>) -> (matched:
    Option<usize>)
    requires
        old(config).wf(),
    ensures
        final(config).wf(),
        final(config)@ == paired(
            old(config)@,
            args,
            matched_peer(args, peers_view(discovered@)),
        ),
        match matched {
            Some(i) => matched_place(args, peers_view(discovered@)) == Some(i as int),
            None => matched_place(args, peers_view(discovered@)) is None,
        },
{
    let ghost before = config@;
    let ghost due = paired(config@, args, matched_peer(args, peers_view(discovered@)));
    let key = normalize_fingerprint(args.mac_key.as_str());
    let matched = if args.no_discover {
        None
    } else {
        find_peer(discovered, key.as_str())
    };
    let hostname = match args.hostname {
        Some(host) => Some(host),
        None => match matched {
            Some(i) => Some(discovered[i].hostname.clone()),
            None => None,
        },
    };
    let port: u16 = match matched {
        Some(i) => discovered[i].port,
        None => args.port,
    };
    let actions = ddc_actions(
        args.ddc_monitor,
        args.ddc_code,
        args.ddc_enter_input,
        args.ddc_leave_input,
    );
    let client = ConfigClient {
        ips: IpSet::new(),
        hostname,
        peer_fingerprint: Some(key.clone()),
        port,
        pos: args.position,
        active: true,
        enter_hook: args.enter_hook,
        leave_hook: args.leave_hook,
        actions,
    };
    let ghost c = client@;
    assert(c =~= paired_client(args, matched_peer(args, peers_view(discovered@))));
    let ghost old_clients = config.clients@;
    match find_client(&config.clients, key.as_str()) {
        Some(i) => {
            config.clients[i] = client;
            assert(config_clients(config.clients@) =~= before.clients.update(i as int, c));
        },
        None => {
            config.clients.push(client);
            assert(config_clients(config.clients@) =~= before.clients.push(c));
        },
    }
    config.port = port;
    config.authorized.insert(key, args.label);
    config.mdns_discovery = true;
    assert(config@ =~= due);
    matched
}

/// What is printed once a peer is paired. The text of the path of the
/// configuration file is given.
pub open spec fn paired_text(peer: Option<PeerView>, key: Seq<char>, path: Seq<char>) -> Seq<char> {
    match peer {
        Some(p) => "paired "@ + p.instance + " ("@ + p.hostname + ") by fingerprint "@ + key
            + "; config="@ + path,
        None => "paired fingerprint "@ + key
            + "; no matching mDNS peer was seen during discovery; config="@ + path,
    }
}

/// What is printed once a peer is paired.
pub fn paired_line(peer: Option<&DiscoveredPeer>, key: &str, path: &str) -> (s: String)
    ensures
        s@ == paired_text(
            match peer {
                Some(p) => Some(p@),
                None => None,
            },
            key@,
            path@,
        ),
{
    match peer {
        Some(p) => {
            let mut s = String::from_str("paired ");
            s.append(p.instance.as_str());
            s.append(" (");
            s.append(p.hostname.as_str());
            s.append(") by fingerprint ");
            s.append(key);
            s.append("; config=");
            s.append(path);
            s
        },
        None => {
            let mut s = String::from_str("paired fingerprint ");
            s.append(key);
            s.append("; no matching mDNS peer was seen during discovery; config=");
            s.append(path);
            s
        },
    }
}

proof fn lemma_client_with_key(clients: Seq<ConfigClientView>, key: Seq<char>, from: int)
    requires
        0 <= from,
    ensures
        match client_with_key(clients, key, from) {
            Some(i) => from <= i < clients.len() && is_key(clients[i].peer_fingerprint, key)
                && forall|j: int|
                from <= j < i ==> !is_key((#[trigger] clients[j]).peer_fingerprint, key),
            None => forall|j: int|
                from <= j < clients.len() ==> !is_key(
                    (#[trigger] clients[j]).peer_fingerprint,
                    key,
                ),
        },
    decreases clients.len() - from,
{
    if from < clients.len() && !is_key(clients[from].peer_fingerprint, key) {
        lemma_client_with_key(clients, key, from + 1);
    }
}

proof fn lemma_first_client_with_key(clients: Seq<ConfigClientView>, key: Seq<char>, i: int)
    requires
        0 <= i < clients.len(),
        is_key(clients[i].peer_fingerprint, key),
        forall|j: int| 0 <= j < i ==> !is_key((#[trigger] clients[j]).peer_fingerprint, key),
    ensures
        client_with_key(clients, key, 0) == Some(i),
{
    lemma_client_with_key(clients, key, 0);
}

/// Pairing the same peer again changes nothing: its client is replaced, not
/// added once more.
pub proof fn pairing_again_changes_nothing(
    config: FileView,
    args: PairArgs,
    peer: Option<PeerView>,
)
    ensures
        paired(paired(config, args, peer), args, peer) == paired(config, args, peer),
{
    let key = normalized_fingerprint(args.mac_key@);
    let once = paired(config, args, peer);
    let twice = paired(once, args, peer);
    let client = paired_client(args, peer);
    fingerprints_normalise_once(args.mac_key@);
    lemma_client_with_key(config.clients, key, 0);
    match client_with_key(config.clients, key, 0) {
        Some(i) => {
            assert forall|j: int| 0 <= j < i implies !is_key(
                (#[trigger] once.clients[j]).peer_fingerprint,
                key,
            ) by {
                assert(once.clients[j] == config.clients[j]);
            }
            lemma_first_client_with_key(once.clients, key, i);
            assert(twice.clients =~= once.clients);
        },
        None => {
            let i = config.clients.len() as int;
            assert forall|j: int| 0 <= j < i implies !is_key(
                (#[trigger] once.clients[j]).peer_fingerprint,
                key,
            ) by {
                assert(once.clients[j] == config.clients[j]);
            }
            lemma_first_client_with_key(once.clients, key, i);
            assert(twice.clients =~= once.clients);
        },
    }
    assert(twice.authorized =~= once.authorized);
    assert(twice =~= once);
}

/// Pairing leaves the clients of other fingerprints as they are, and the other
/// keys too.
pub proof fn pairing_keeps_other_clients(
    config: FileView,
    args: PairArgs,
    peer: Option<PeerView>,
    i: int,
    fingerprint: Seq<char>,
)
    requires
        0 <= i < config.clients.len(),
        !is_key(config.clients[i].peer_fingerprint, normalized_fingerprint(args.mac_key@)),
        fingerprint != normalized_fingerprint(args.mac_key@),
    ensures
        paired(config, args, peer).clients[i] == config.clients[i],
        paired(config, args, peer).authorized.dom().contains(fingerprint)
            == config.authorized.dom().contains(fingerprint),
        config.authorized.dom().contains(fingerprint) ==> paired(
            config,
            args,
            peer,
        ).authorized[fingerprint] == config.authorized[fingerprint],
{
    lemma_client_with_key(config.clients, normalized_fingerprint(args.mac_key@), 0);
}

/// A paired peer is trusted, and there is an active client of its fingerprint
/// at the position that was asked for.
pub proof fn paired_peer_is_trusted(config: FileView, args: PairArgs, peer: Option<PeerView>)
    ensures
        ({
            let key = normalized_fingerprint(args.mac_key@);
            let c = paired(config, args, peer);
            &&& c.authorized.dom().contains(key)
            &&& c.clients.contains(paired_client(args, peer))
            &&& paired_client(args, peer).active
            &&& paired_client(args, peer).pos == args.position
            &&& paired_client(args, peer).peer_fingerprint == Some(key)
        }),
{
    let key = normalized_fingerprint(args.mac_key@);
    let c = paired(config, args, peer);
    lemma_client_with_key(config.clients, key, 0);
    match client_with_key(config.clients, key, 0) {
        Some(i) => assert(c.clients[i] == paired_client(args, peer)),
        None => assert(c.clients[config.clients.len() as int] == paired_client(args, peer)),
    }
}

/// The client that pairing writes is what was asked for: what is run on entering
/// is the command for entering and what is run on leaving the one for leaving;
/// it sits where it was asked to, under the key in its normal form, and is
/// active. The name that was given counts before the discovered one, and the
/// port that was discovered before the one that was given.
pub proof fn paired_client_is_as_asked(
    config: FileView,
    args: PairArgs,
    peer: Option<PeerView>,
) -> (i: int)
    ensures
        0 <= i < paired(config, args, peer).clients.len(),
        ({
            let c = paired(config, args, peer).clients[i];
            &&& c.enter_hook == match args.enter_hook {
                Some(cmd) => Some(cmd@),
                None => None,
            }
            &&& c.leave_hook == match args.leave_hook {
                Some(cmd) => Some(cmd@),
                None => None,
            }
            &&& args.hostname matches Some(host) ==> c.hostname == Some(host@)
            &&& args.hostname is None && peer is Some ==> c.hostname == Some(peer->0.hostname)
            &&& args.hostname is None && peer is None ==> c.hostname is None
            &&& peer matches Some(p) ==> c.port == p.port
            &&& peer is None ==> c.port == args.port
            &&& c.pos == args.position
            &&& c.active
            &&& c.ips == Set::<IpAddr>::empty()
            &&& c.peer_fingerprint == Some(normalized_fingerprint(args.mac_key@))
        }),
        forall|j: int|
            0 <= j < i ==> !is_key(
                (#[trigger] paired(config, args, peer).clients[j]).peer_fingerprint,
                normalized_fingerprint(args.mac_key@),
            ),
{
    let key = normalized_fingerprint(args.mac_key@);
    lemma_client_with_key(config.clients, key, 0);
    let after = paired(config, args, peer).clients;
    match client_with_key(config.clients, key, 0) {
        Some(i) => {
            assert forall|j: int| 0 <= j < i implies !is_key(
                (#[trigger] after[j]).peer_fingerprint,
                key,
            ) by {
                assert(after[j] == config.clients[j]);
            }
            i
        },
        None => {
            let n = config.clients.len() as int;
            assert forall|j: int| 0 <= j < n implies !is_key(
                (#[trigger] after[j]).peer_fingerprint,
                key,
            ) by {
                assert(after[j] == config.clients[j]);
            }
            n
        },
    }
}

/// The monitor is switched by the value for entering when the peer is entered,
/// and by the value for leaving when it is left, as far as these were given; and
/// without a monitor nothing is switched.
pub proof fn switching_follows_the_arguments(
    monitor: Option<Seq<char>>,
    code: u8,
    enter_input: Option<u32>,
    leave_input: Option<u32>,
    a: ActionView,
)
    ensures
        switching_actions(monitor, code, enter_input, leave_input).contains(a) <==> {
            &&& monitor is Some
            &&& a.monitor == monitor
            &&& a.code == code
            &&& a.on is Enter ==> enter_input == Some(a.value)
            &&& a.on is Leave ==> leave_input == Some(a.value)
        },
        switching_actions(monitor, code, enter_input, leave_input).len() <= 2,
{
    let s = switching_actions(monitor, code, enter_input, leave_input);
    if monitor is Some {
        if enter_input is Some {
            assert(s[0] == (ActionView {
                on: ActionTrigger::Enter,
                monitor,
                code,
                value: enter_input->0,
            }));
        }
        if leave_input is Some {
            assert(s[s.len() - 1] == (ActionView {
                on: ActionTrigger::Leave,
                monitor,
                code,
                value: leave_input->0,
            }));
        }
    }
}

/// The actions of the paired client switch the monitor as the arguments say.
pub proof fn paired_client_switches_the_monitor(args: PairArgs, peer: Option<PeerView>, a: ActionView)
    ensures
        paired_client(args, peer).actions.contains(a) <==> {
            &&& args.ddc_monitor is Some
            &&& a.monitor == Some(args.ddc_monitor->0@)
            &&& a.code == args.ddc_code
            &&& a.on is Enter ==> args.ddc_enter_input == Some(a.value)
            &&& a.on is Leave ==> args.ddc_leave_input == Some(a.value)
        },
{
    switching_follows_the_arguments(
        opt_text(args.ddc_monitor),
        args.ddc_code,
        args.ddc_enter_input,
        args.ddc_leave_input,
        a,
    );
}

/// Pairing trusts the key under its label, switches discovery on, and listens on
/// the port of the paired client. The settings of the capture stay as they are.
pub proof fn pairing_settings(config: FileView, args: PairArgs, peer: Option<PeerView>)
    ensures
        ({
            let after = paired(config, args, peer);
            &&& after.authorized.dom().contains(normalized_fingerprint(args.mac_key@))
            &&& after.authorized[normalized_fingerprint(args.mac_key@)] == args.label@
            &&& after.mdns_discovery
            &&& after.port == match peer {
                Some(p) => p.port,
                None => args.port,
            }
            &&& after.release_bind == config.release_bind
            &&& after.release_threshold_px == config.release_threshold_px
            &&& config.clients.len() <= after.clients.len() <= config.clients.len() + 1
        }),
{
    lemma_client_with_key(config.clients, normalized_fingerprint(args.mac_key@), 0);
}

/// The peer that is paired is the first that was discovered under the key; and
/// none, if discovery was to be skipped, or nobody has the key.
pub proof fn first_peer_of_the_key_is_paired(args: PairArgs, peers: Seq<PeerView>, i: int)
    requires
        0 <= i < peers.len(),
        is_key(peers[i].fingerprint, normalized_fingerprint(args.mac_key@)),
        forall|j: int|
            0 <= j < i ==> !is_key(
                (#[trigger] peers[j]).fingerprint,
                normalized_fingerprint(args.mac_key@),
            ),
    ensures
        matched_peer(args, peers) == if args.no_discover {
            None
        } else {
            Some(peers[i])
        },
        matched_place(args, peers) == if args.no_discover {
            None
        } else {
            Some(i)
        },
{
    lemma_peer_with_key(peers, normalized_fingerprint(args.mac_key@), 0, i);
}

proof fn lemma_peer_with_key(peers: Seq<PeerView>, key: Seq<char>, from: int, i: int)
    requires
        0 <= from <= i < peers.len(),
        is_key(peers[i].fingerprint, key),
        forall|j: int| from <= j < i ==> !is_key((#[trigger] peers[j]).fingerprint, key),
    ensures
        peer_with_key(peers, key, from) == Some(i),
    decreases i - from,
{
    if from < i {
        assert(!is_key(peers[from].fingerprint, key));
        lemma_peer_with_key(peers, key, from + 1, i);
    }
}

/// Where nobody who was discovered has the key, nobody is matched.
pub proof fn nobody_is_paired_without_the_key(args: PairArgs, peers: Seq<PeerView>)
    requires
        forall|j: int|
            0 <= j < peers.len() ==> !is_key(
                (#[trigger] peers[j]).fingerprint,
                normalized_fingerprint(args.mac_key@),
            ),
    ensures
        matched_peer(args, peers) is None,
{
    lemma_no_peer_with_key(peers, normalized_fingerprint(args.mac_key@), 0);
}

proof fn lemma_no_peer_with_key(peers: Seq<PeerView>, key: Seq<char>, from: int)
    requires
        0 <= from,
        forall|j: int| from <= j < peers.len() ==> !is_key((#[trigger] peers[j]).fingerprint, key),
    ensures
        peer_with_key(peers, key, from) is None,
    decreases peers.len() - from,
{
    if from < peers.len() {
        lemma_no_peer_with_key(peers, key, from + 1);
    }
}

/// Keys are the same however they are written: with which letters, and with or
/// without what their normal form leaves out.
pub proof fn keys_may_be_written_anyhow(a: Seq<char>, b: Seq<char>)
    requires
        normalized_fingerprint(a) == normalized_fingerprint(b),
    ensures
        is_key(Some(a), normalized_fingerprint(b)),
        !is_key(None, normalized_fingerprint(b)),
{
}

/// A peer is listed with what it announced: its port, its primary address, and
/// all its addresses, each once and in ascending order, the primary one too.
pub proof fn peer_is_listed_as_announced(r: Resolved, ip: IpAddr)
    ensures
        peer_of(r).port == r.port,
        peer_of(r).primary == match r.primary {
            PrimaryTxt::Address(p) => Some(p),
            _ => None,
        },
        peer_of(r).addresses.contains(ip) <==> r.addresses@.contains(ip) || r.primary
            == PrimaryTxt::Address(ip),
        crate::net::ascending(peer_of(r).addresses),
{
    let all = match r.primary {
        PrimaryTxt::Address(p) => r.addresses@.push(p),
        _ => r.addresses@,
    };
    assert forall|x: IpAddr| all.to_set().contains(x) <==> addresses_of(r).contains(x) by {
        if r.addresses@.contains(x) {
            let i = choose|i: int| 0 <= i < r.addresses@.len() && r.addresses@[i] == x;
            assert(all[i] == x);
        }
        if r.primary == PrimaryTxt::Address(x) {
            assert(all[r.addresses@.len() as int] == x);
        }
        if all.contains(x) {
            let i = choose|i: int| 0 <= i < all.len() && all[i] == x;
            if i < r.addresses@.len() {
                assert(r.addresses@[i] == x);
            }
        }
    }
    assert(all.to_set() =~= addresses_of(r));
    crate::net::lemma_sorted(all);
    assert(peer_of(r).addresses.to_set().contains(ip) <==> addresses_of(r).contains(ip));
}

/// Texts are ordered as in a dictionary: by the first character in which they
/// differ, and a text comes before those that it begins.
pub proof fn texts_are_ordered_as_in_a_dictionary(a: Seq<char>, b: Seq<char>, k: int)
    requires
        0 <= k <= a.len(),
        k <= b.len(),
        a.take(k) == b.take(k),
        k < a.len() && k < b.len() ==> a[k] != b[k],
    ensures
        k < a.len() && k < b.len() ==> (text_before(a, b) <==> a[k] < b[k]),
        k == a.len() || k == b.len() ==> (text_before(a, b) <==> a.len() < b.len()),
    decreases k,
{
    if k > 0 {
        assert(a.take(k)[0] == a[0]);
        assert(b.take(k)[0] == b[0]);
        assert(a.skip(1).take(k - 1) =~= a.take(k).skip(1));
        assert(b.skip(1).take(k - 1) =~= b.take(k).skip(1));
        texts_are_ordered_as_in_a_dictionary(a.skip(1), b.skip(1), k - 1);
    }
}

/// A line is printed for each peer, in their order, and one sentence if there is
/// none. Nothing is printed here where JSON is asked for.
pub proof fn every_peer_is_printed(args: DiscoverArgs, peers: Seq<PeerView>, i: int)
    ensures
        listing(args, peers) is None <==> args.json,
        !args.json && peers.len() == 0 ==> listing(args, peers) == Some(
            seq!["no lan-mouse peers discovered"@],
        ),
        !args.json && 0 <= i < peers.len() ==> (listing(args, peers) matches Some(lines)
            && lines.len() == peers.len() && lines[i] == peer_text(peers[i])),
{
}

/// The line of a peer tells its name first, and then its host, its port, its key
/// and its primary address, each behind its own word.
pub proof fn peer_line_tells_all(p: PeerView)
    ensures
        crate::text::has_prefix(
            peer_text(p),
            p.instance + " host="@ + p.hostname + " port="@ + decimal(p.port as nat) + " fp="@,
        ),
        p.fingerprint matches Some(fp) ==> crate::text::occurs_in(peer_text(p), " fp="@ + fp),
        p.primary matches Some(ip) ==> crate::text::occurs_in(
            peer_text(p),
            " primary="@ + ip.text(),
        ),
{
    let head = p.instance + " host="@ + p.hostname + " port="@ + decimal(p.port as nat);
    let key = match p.fingerprint {
        Some(fp) => fp,
        None => "-"@,
    };
    let primary = match p.primary {
        Some(ip) => ip.text(),
        None => "-"@,
    };
    let tail = " addrs=["@ + separated(ip_texts(p.addresses), ", "@) + "]"@;
    let line = peer_text(p);
    assert(line =~= head + " fp="@ + key + " primary="@ + primary + tail);
    let start = head + " fp="@;
    assert(line.take(start.len() as int) =~= start);
    let a = head.len() as int;
    let b = a + " fp="@.len() + key.len();
    assert(line.subrange(a, b) =~= " fp="@ + key);
    let c = b + " primary="@.len() + primary.len();
    assert(line.subrange(b, c) =~= " primary="@ + primary);
    assert(crate::text::occurs_at(line, " fp="@ + key, a));
    assert(crate::text::occurs_at(line, " primary="@ + primary, b));
}

/// What is printed once a peer is paired names the peer, its host, the key and
/// the file, or says that nobody with the key was seen.
pub proof fn pairing_is_told(p: PeerView, key: Seq<char>, path: Seq<char>)
    ensures
        paired_text(Some(p), key, path) == "paired "@ + p.instance + " ("@ + p.hostname
            + ") by fingerprint "@ + key + "; config="@ + path,
        crate::text::has_prefix(paired_text(None, key, path), "paired fingerprint "@ + key),
        crate::text::has_suffix(paired_text(None, key, path), "; config="@ + path),
{
    let t = paired_text(None, key, path);
    let head = "paired fingerprint "@ + key;
    assert(t.take(head.len() as int) =~= head);
    reveal_strlit("; no matching mDNS peer was seen during discovery; config=");
    reveal_strlit("; config=");
    let tail = "; config="@ + path;
    assert(t.skip(t.len() - tail.len()) =~= tail);
}

} // verus!
