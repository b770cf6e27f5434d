//! Bonjour / mDNS-SD: names, address candidates, registration and browsing.
//!
//! Each instance registers a service whose TXT record advertises the address
//! of the interface that owns the default route, and the fingerprint of the
//! local certificate. A dialer that browses the same service type learns from
//! it where a peer is to be reached at the moment.
use crate::collections::AssocMap;
use crate::net::{dotted, dotted_of, ip_texts, ip_texts_of, IpAddr, IpSet};
use crate::text::{
    chars_of, decimal, has_suffix, is_digit, is_space, join, joined, lowered, occurs_in, opt_text,
    same, separated, strip_suffix, to_ascii_lowercase, trim, trimmed, trimmed_end, trimmed_start, without_suffix,
};
use vstd::prelude::*;
use vstd::string::{StrSliceExecFns, StringExecFns};

verus! {

/// The service type of every instance.
pub const SERVICE_TYPE: &'static str = "_lan-mouse._udp.local.";

/// The TXT key of the primary address.
pub const TXT_PRIMARY_KEY: &'static str = "primary";

/// The TXT key of the certificate's fingerprint.
pub const TXT_FINGERPRINT_KEY: &'static str = "fp";

/// How long a remembered address stays a candidate, in seconds: 14 days.
pub const LAST_SUCCESS_TTL_SECS: u64 = 1_209_600;

/// A fingerprint in the form in which fingerprints are compared.
pub open spec fn normalized_fingerprint(s: Seq<char>) -> Seq<char> {
    lowered(trimmed(s))
}

/// A fingerprint in the form in which fingerprints are compared: without
/// white space around it, and in lower case.
pub fn normalize_fingerprint(s: &str) -> (t: String)
    ensures
        t@ == normalized_fingerprint(s@),
{
    to_ascii_lowercase(trim(s))
}

/// `s` without a dot at its end.
pub open spec fn without_trailing_dot(s: Seq<char>) -> Seq<char> {
    if s.len() > 0 && s.last() == '.' {
        s.drop_last()
    } else {
        s
    }
}

/// Strips a single trailing dot, if there is one. Bonjour host names are fully
/// qualified ("foo.local."), and a user writes them without the dot.
pub fn strip_trailing_dot(s: &str) -> (t: &str)
    ensures
        t@ == without_trailing_dot(s@),
{
    let n: usize = s.unicode_len();
    if n > 0 && s.get_char(n - 1) == '.' {
        let t = s.substring_char(0, n - 1);
        assert(t@ =~= s@.drop_last());
        t
    } else {
        s
    }
}

/// Whether `s` ends in a collision suffix that starts at `at`: a space, and
/// digits in round brackets.
pub open spec fn collision_suffix_at(s: Seq<char>, at: int) -> bool {
    &&& 0 <= at
    &&& at + 3 <= s.len()
    &&& s[at] == ' '
    &&& s[at + 1] == '('
    &&& s.last() == ')'
    &&& forall|i: int| at + 2 <= i < s.len() - 1 ==> is_digit(#[trigger] s[i])
}

/// `s` without the collision suffix at its end.
pub open spec fn without_collision_suffix(s: Seq<char>) -> Seq<char> {
    if exists|at: int| #[trigger] collision_suffix_at(s, at) {
        s.take(choose|at: int| #[trigger] collision_suffix_at(s, at))
    } else {
        s
    }
}

proof fn lemma_collision_suffix_is_unique(s: Seq<char>, a: int, b: int)
    requires
        collision_suffix_at(s, a),
        collision_suffix_at(s, b),
    ensures
        a == b,
{
    if a < b {
        assert(b + 1 < s.len() - 1 ==> is_digit(s[b + 1]));
    }
    if b < a {
        assert(a + 1 < s.len() - 1 ==> is_digit(s[a + 1]));
    }
}

/// Strips the suffix that Bonjour gives to the later of two equal names, such
/// as the ` (2)` of `desk (2)`.
pub fn strip_bonjour_collision_suffix(s: &str) -> (t: &str)
    ensures
        t@ == without_collision_suffix(s@),
{
    let v = chars_of(s);
    let n: usize = v.len();
    if n < 3 || v[n - 1] != ')' {
        return s;
    }
    let mut i: usize = n - 1;
    while i > 0 && '0' <= v[i - 1] && v[i - 1] <= '9'
        invariant
            v@ == s@,
            n == v@.len(),
            i <= n - 1,
            forall|j: int| i <= j < n - 1 ==> is_digit(#[trigger] s@[j]),
        decreases i,
    {
        i = i - 1;
    }
    if i >= 2 && v[i - 1] == '(' && v[i - 2] == ' ' {
        let t = s.substring_char(0, i - 2);
        proof {
            assert(collision_suffix_at(s@, i - 2));
            let at = choose|at: int| #[trigger] collision_suffix_at(s@, at);
            lemma_collision_suffix_is_unique(s@, at, i - 2);
            assert(t@ =~= s@.take(at));
        }
        t
    } else {
        proof {
            if exists|at: int| #[trigger] collision_suffix_at(s@, at) {
                let at = choose|at: int| #[trigger] collision_suffix_at(s@, at);
                if at + 2 < i {
                    assert(is_digit(s@[i - 1]));
                } else if at + 2 > i {
                    assert(is_digit(s@[at + 1]) || at + 1 < i);
                }
                assert(at + 2 == i);
                assert(false);
            }
        }
        s
    }
}

/// The instance label of a full service name: what stands in front of the dot
/// and the service type, or all of a name that does not end so.
pub fn instance_from_fullname<'a>(fullname: &'a str, service_type: &str) -> (t: &'a str)
    ensures
        t@ == without_suffix(fullname@, "."@ + service_type@),
{
    let suffix = joined(".", service_type);
    match strip_suffix(fullname, suffix.as_str()) {
        Some(t) => t,
        None => fullname,
    }
}

/// An mDNS name in the form in which names are looked up.
pub open spec fn normalized_mdns_name(s: Seq<char>) -> Seq<char> {
    lowered(without_collision_suffix(without_suffix(without_trailing_dot(s), ".local"@)))
}

/// An mDNS name in the form in which names are looked up: in lower case, and
/// without a trailing dot, the `.local` domain and a collision suffix, taken
/// off in this order.
pub fn normalize_mdns_name(s: &str) -> (t: String)
    ensures
        t@ == normalized_mdns_name(s@),
{
    let s = strip_trailing_dot(s);
    let s = match strip_suffix(s, ".local") {
        Some(t) => t,
        None => s,
    };
    to_ascii_lowercase(strip_bonjour_collision_suffix(s))
}

/// Whether the address is a version 6 unicast link-local one (`fe80::/10`).
pub open spec fn is_v6_link_local(ip: IpAddr) -> bool {
    ip matches IpAddr::V6(n) && 0xfe80_0000_0000_0000_0000_0000_0000_0000 <= n
        <= 0xfebf_ffff_ffff_ffff_ffff_ffff_ffff_ffff
}

/// Whether the address can be dialed without further knowledge: a version 6
/// link-local address would need the interface, too.
pub fn is_usable_candidate_ip(ip: IpAddr) -> (r: bool)
    ensures
        r == !is_v6_link_local(ip),
{
    match ip {
        IpAddr::V6(n) => !(0xfe80_0000_0000_0000_0000_0000_0000_0000 <= n && n
            <= 0xfebf_ffff_ffff_ffff_ffff_ffff_ffff_ffff),
        IpAddr::V4(_) => true,
    }
}

/// Whether an address may enter a cache that discovery fills: not those of
/// `100.64.0.0/10` (shared address space, which overlay networks use), nor
/// loopback, multicast and link-local ones.
pub open spec fn is_learnable(ip: IpAddr) -> bool {
    match ip {
        IpAddr::V4(n) => {
            &&& !(0x6440_0000 <= n <= 0x647f_ffff)
            &&& !(0x7f00_0000 <= n <= 0x7fff_ffff)
            &&& !(0xe000_0000 <= n <= 0xefff_ffff)
            &&& !(0xa9fe_0000 <= n <= 0xa9fe_ffff)
        },
        IpAddr::V6(n) => {
            &&& n != 1
            &&& n < 0xff00_0000_0000_0000_0000_0000_0000_0000
            &&& !is_v6_link_local(ip)
        },
    }
}

/// Whether an address may enter a cache that discovery fills.
pub fn is_learnable_ip(ip: IpAddr) -> (r: bool)
    ensures
        r == is_learnable(ip),
{
    match ip {
        IpAddr::V4(n) => !(0x6440_0000 <= n && n <= 0x647f_ffff) && !(0x7f00_0000 <= n && n
            <= 0x7fff_ffff) && !(0xe000_0000 <= n && n <= 0xefff_ffff) && !(0xa9fe_0000 <= n && n
            <= 0xa9fe_ffff),
        IpAddr::V6(n) => n != 1 && n < 0xff00_0000_0000_0000_0000_0000_0000_0000
            && is_usable_candidate_ip(ip),
    }
}

/// The primary address that each peer announced, by the peer's normalised name.
pub type PrimaryCache = AssocMap<String, IpAddr>;

/// The address candidates of each peer, by its normalised fingerprint.
pub struct FingerprintCache {
    pub map: AssocMap<String, IpSet>,
}

impl View for FingerprintCache {
    type V = Map<Seq<char>, Set<IpAddr>>;

    open spec fn view(&self) -> Map<Seq<char>, Set<IpAddr>> {
        self.map@.map_values(|s: IpSet| s@)
    }
}

/// The candidates of a fingerprint; none, if there is no entry.
pub open spec fn candidates_of(cache: Map<Seq<char>, Set<IpAddr>>, fingerprint: Seq<char>) -> Set<
    IpAddr,
> {
    if cache.dom().contains(fingerprint) {
        cache[fingerprint]
    } else {
        Set::empty()
    }
}

/// The cache with one more candidate of a fingerprint, if both may be held.
pub open spec fn with_candidate(
    cache: Map<Seq<char>, Set<IpAddr>>,
    fingerprint: Seq<char>,
    ip: IpAddr,
) -> Map<Seq<char>, Set<IpAddr>> {
    let key = normalized_fingerprint(fingerprint);
    if key.len() == 0 || !is_learnable(ip) {
        cache
    } else {
        cache.insert(key, candidates_of(cache, key).insert(ip))
    }
}

impl FingerprintCache {
    /// Whether the map and its sets are in order.
    pub open spec fn wf(&self) -> bool {
        &&& self.map.wf()
        &&& forall|k: Seq<char>|
            #![trigger self.map@[k]]
            self.map@.dom().contains(k) ==> self.map@[k].wf()
    }

    /// Whether all that the cache holds may be held: no fingerprint is empty,
    /// and every address is learnable.
    pub open spec fn clean(&self) -> bool {
        &&& !self@.dom().contains(Seq::<char>::empty())
        &&& forall|k: Seq<char>, ip: IpAddr|
            self@.dom().contains(k) && #[trigger] self@[k].contains(ip) ==> is_learnable(ip)
    }

    /// The empty cache.
    pub fn new() -> (c: FingerprintCache)
        ensures
            c.wf(),
            c.clean(),
            c@ == Map::<Seq<char>, Set<IpAddr>>::empty(),
    {
        let c = FingerprintCache { map: AssocMap::new() };
        assert(c@ =~= Map::<Seq<char>, Set<IpAddr>>::empty());
        c
    }

    /// The candidates of a normalised fingerprint.
    pub fn get(&self, fingerprint: &String) -> (r: Option<&IpSet>)
        requires
            self.wf(),
        ensures
            match r {
                Some(s) => self@.dom().contains(fingerprint@) && s.wf() && s@
                    == self@[fingerprint@],
                None => !self@.dom().contains(fingerprint@),
            },
    {
        self.map.get(fingerprint)
    }

    /// Replaces the candidates of a normalised fingerprint.
    pub fn replace(&mut self, fingerprint: String, ips: IpSet)
        requires
            old(self).wf(),
            ips.wf(),
        ensures
            final(self).wf(),
            final(self)@ == old(self)@.insert(fingerprint@, ips@),
    {
        let ghost key = fingerprint@;
        let ghost set = ips@;
        self.map.insert(fingerprint, ips);
        assert(self@ =~= old(self)@.insert(key, set));
    }
}

/// Remembers an address as a candidate of a fingerprint. An empty fingerprint
/// and an address that is not learnable are passed over.
pub fn insert_fingerprint_candidate(cache: &mut FingerprintCache, fingerprint: &str, ip: IpAddr)
    requires
        old(cache).wf(),
    ensures
        final(cache).wf(),
        final(cache)@ == with_candidate(old(cache)@, fingerprint@, ip),
        old(cache).clean() ==> final(cache).clean(),
{
    let fingerprint = normalize_fingerprint(fingerprint);
    if fingerprint.as_str().unicode_len() == 0 || !is_learnable_ip(ip) {
        return;
    }
    let ghost before = cache@;
    let mut ips = match cache.map.remove(&fingerprint) {
        Some(ips) => ips,
        None => IpSet::new(),
    };
    assert(ips@ == candidates_of(before, fingerprint@));
    ips.insert(ip);
    let ghost set = ips@;
    let ghost key = fingerprint@;
    cache.map.insert(fingerprint, ips);
    assert(cache@ =~= before.insert(key, set));
}

/// The addresses at which a peer was reached last.
pub enum LastSuccessEntry {
    /// With the time at which the entry was last written, in seconds since the
    /// Unix epoch.
    Timed { ips: IpSet, updated_at_unix: u64 },
    /// Without a time.
    Legacy(IpSet),
}

impl LastSuccessEntry {
    /// The addresses of the entry.
    pub open spec fn addresses(self) -> IpSet {
        match self {
            LastSuccessEntry::Timed { ips, .. } => ips,
            LastSuccessEntry::Legacy(ips) => ips,
        }
    }

    /// Whether the entry is too old at `now` to be of use. One without a time
    /// never is.
    pub open spec fn expired(self, now: int) -> bool {
        self matches LastSuccessEntry::Timed { updated_at_unix, .. } && now - updated_at_unix
            > LAST_SUCCESS_TTL_SECS
    }

    /// The addresses of the entry.
    pub fn ips(&self) -> (ips: &IpSet)
        ensures
            *ips == self.addresses(),
    {
        match self {
            LastSuccessEntry::Timed { ips, .. } => ips,
            LastSuccessEntry::Legacy(ips) => ips,
        }
    }

    /// Whether the entry is too old at `now` to be of use.
    pub fn is_expired(&self, now: u64) -> (r: bool)
        ensures
            r == self.expired(now as int),
    {
        match self {
            LastSuccessEntry::Timed { updated_at_unix, .. } => now > *updated_at_unix && now
                - *updated_at_unix > LAST_SUCCESS_TTL_SECS,
            LastSuccessEntry::Legacy(_) => false,
        }
    }
}

/// The entries of all peers, by fingerprint.
pub struct LastSuccessFile {
    pub fingerprints: AssocMap<String, LastSuccessEntry>,
}

impl LastSuccessFile {
    /// Whether the map and its sets are in order.
    pub open spec fn wf(&self) -> bool {
        &&& self.fingerprints.wf()
        &&& forall|i: int|
            0 <= i < self.fingerprints.entries@.len() ==> (
            #[trigger] self.fingerprints.entries@[i]).1.addresses().wf()
    }

    /// The file without entries.
    pub fn new() -> (f: LastSuccessFile)
        ensures
            f.wf(),
            f.fingerprints@ == Map::<Seq<char>, LastSuccessEntry>::empty(),
    {
        LastSuccessFile { fingerprints: AssocMap::new() }
    }
}

/// The number of whole seconds in the nanoseconds since the Unix epoch; an
/// error, if the clock stands before the epoch.
pub fn now_unix_secs(since_epoch_nanos: Option<u128>) -> (res: Result<u64, ClockError>)
    requires
        since_epoch_nanos matches Some(n) ==> n / 1_000_000_000 <= u64::MAX,
    ensures
        res == match since_epoch_nanos {
            Some(n) => Ok::<u64, ClockError>((n / 1_000_000_000) as u64),
            None => Err(ClockError::BeforeEpoch),
        },
{
    match since_epoch_nanos {
        Some(n) => Ok((n / 1_000_000_000) as u64),
        None => Err(ClockError::BeforeEpoch),
    }
}

/// Why the time cannot be told.
#[derive(Clone, Copy, Debug, PartialEq, Eq, Structural)]
pub enum ClockError {
    /// The clock stands before the Unix epoch.
    BeforeEpoch,
}

/// Whether some entry of `entries` that is not too old lists `ip` for the
/// normalised fingerprint `key`.
pub open spec fn listed(
    entries: Seq<(String, LastSuccessEntry)>,
    now: int,
    key: Seq<char>,
    ip: IpAddr,
) -> bool {
    exists|i: int| #[trigger] listed_at(entries, now, key, ip, i)
}

/// Whether the entry at `i` is not too old, and lists `ip` for the normalised
/// fingerprint `key`.
pub open spec fn listed_at(
    entries: Seq<(String, LastSuccessEntry)>,
    now: int,
    key: Seq<char>,
    ip: IpAddr,
    i: int,
) -> bool {
    &&& 0 <= i < entries.len()
    &&& normalized_fingerprint(entries[i].0@) == key
    &&& !entries[i].1.expired(now)
    &&& entries[i].1.addresses()@.contains(ip)
}

/// What loading `entries` at `now` adds to the candidates of `key`.
pub open spec fn loaded(
    entries: Seq<(String, LastSuccessEntry)>,
    now: int,
    key: Seq<char>,
) -> Set<IpAddr> {
    Set::new(|ip: IpAddr| key.len() > 0 && is_learnable(ip) && listed(entries, now, key, ip))
}

/// Remembers every address of a list as a candidate of a fingerprint.
fn insert_fingerprint_candidates(
    cache: &mut FingerprintCache,
    fingerprint: &str,
    ips: &Vec<IpAddr>,
)
    requires
        old(cache).wf(),
    ensures
        final(cache).wf(),
        old(cache).clean() ==> final(cache).clean(),
        forall|k: Seq<char>, ip: IpAddr| #[trigger]
            candidates_of(final(cache)@, k).contains(ip) <==> candidates_of(
                old(cache)@,
                k,
            ).contains(ip) || (k == normalized_fingerprint(fingerprint@) && k.len() > 0
                && is_learnable(ip) && ips@.contains(ip)),
        forall|k: Seq<char>| #[trigger]
            final(cache)@.dom().contains(k) <==> old(cache)@.dom().contains(k) || candidates_of(
                final(cache)@,
                k,
            ) != Set::<IpAddr>::empty(),
{
    let ghost before = cache@;
    let mut i: usize = 0;
    while i < ips.len()
        invariant
            i <= ips@.len(),
            before == old(cache)@,
            cache.wf(),
            old(cache).clean() ==> cache.clean(),
            forall|k: Seq<char>, ip: IpAddr| #[trigger]
                candidates_of(cache@, k).contains(ip) <==> candidates_of(before, k).contains(ip)
                    || (k == normalized_fingerprint(fingerprint@) && k.len() > 0 && is_learnable(ip)
                    && ips@.take(i as int).contains(ip)),
            forall|k: Seq<char>| #[trigger]
                cache@.dom().contains(k) <==> before.dom().contains(k) || candidates_of(cache@, k)
                    != Set::<IpAddr>::empty(),
        decreases ips@.len() - i,
    {
        let ghost mid = cache@;
        let ip = ips[i];
        insert_fingerprint_candidate(cache, fingerprint, ip);
        proof {
            let key = normalized_fingerprint(fingerprint@);
            assert forall|x: IpAddr|
                ips@.take(i + 1).contains(x) <==> ips@.take(i as int).contains(x) || x == ip by {
                crate::net::lemma_take_contains(ips@, i as int, x);
            }
            assert forall|k: Seq<char>, x: IpAddr| #[trigger]
                candidates_of(cache@, k).contains(x) <==> candidates_of(before, k).contains(x) || (k
                    == key && k.len() > 0 && is_learnable(x) && ips@.take(i + 1).contains(x)) by {
                assert(candidates_of(mid, k).contains(x) <==> candidates_of(before, k).contains(x)
                    || (k == key && k.len() > 0 && is_learnable(x) && ips@.take(i as int).contains(
                    x,
                )));
            }
            assert forall|k: Seq<char>| #[trigger]
                cache@.dom().contains(k) <==> before.dom().contains(k) || candidates_of(cache@, k)
                    != Set::<IpAddr>::empty() by {
                if k == key && key.len() > 0 && is_learnable(ip) {
                    assert(candidates_of(cache@, k).contains(ip));
                } else {
                    assert(candidates_of(cache@, k) == candidates_of(mid, k));
                    assert(mid.dom().contains(k) == cache@.dom().contains(k));
                }
            }
        }
        i = i + 1;
    }
    assert(ips@.take(ips@.len() as int) =~= ips@);
    proof {
        assert forall|k: Seq<char>| #[trigger] cache@.dom().contains(k) <==> before.dom().contains(
            k,
        ) || candidates_of(cache@, k) != Set::<IpAddr>::empty() by {}
    }
}

/// Adds the remembered addresses that are not too old to the candidates. Each
/// fingerprint then has the candidates that it had, and those that an entry
/// lists for it.
pub fn load_last_success_candidates(
    cache: &mut FingerprintCache,
    file: &LastSuccessFile,
    now: u64,
)
    requires
        old(cache).wf(),
        file.wf(),
    ensures
        final(cache).wf(),
        old(cache).clean() ==> final(cache).clean(),
        forall|k: Seq<char>| #[trigger]
            candidates_of(final(cache)@, k) == candidates_of(old(cache)@, k).union(
                loaded(file.fingerprints.entries@, now as int, k),
            ),
        forall|k: Seq<char>| #[trigger]
            final(cache)@.dom().contains(k) <==> old(cache)@.dom().contains(k) || loaded(
                file.fingerprints.entries@,
                now as int,
                k,
            ) != Set::<IpAddr>::empty(),
{
    let ghost before = cache@;
    let ghost entries = file.fingerprints.entries@;
    let mut i: usize = 0;
    while i < file.fingerprints.entries.len()
        invariant
            i <= entries.len(),
            entries == file.fingerprints.entries@,
            before == old(cache)@,
            cache.wf(),
            old(cache).clean() ==> cache.clean(),
            forall|k: Seq<char>, ip: IpAddr| #[trigger]
                candidates_of(cache@, k).contains(ip) <==> candidates_of(before, k).contains(ip)
                    || loaded(entries.take(i as int), now as int, k).contains(ip),
            forall|k: Seq<char>| #[trigger]
                cache@.dom().contains(k) ==> before.dom().contains(k) || candidates_of(cache@, k)
                    != Set::<IpAddr>::empty(),
            forall|k: Seq<char>| #[trigger] before.dom().contains(k) ==> cache@.dom().contains(k),
        decreases entries.len() - i,
    {
        let ghost mid = cache@;
        let (fingerprint, entry) = &file.fingerprints.entries[i];
        if !entry.is_expired(now) {
            insert_fingerprint_candidates(cache, fingerprint.as_str(), &entry.ips().ips);
        }
        proof {
            assert forall|k: Seq<char>, ip: IpAddr| #[trigger]
                candidates_of(cache@, k).contains(ip) <==> candidates_of(before, k).contains(ip)
                    || loaded(entries.take(i + 1), now as int, k).contains(ip) by {
                assert(candidates_of(mid, k).contains(ip) <==> candidates_of(before, k).contains(ip)
                    || loaded(entries.take(i as int), now as int, k).contains(ip));
                if listed(entries.take(i as int), now as int, k, ip) {
                    let j = choose|j: int| #[trigger]
                        listed_at(entries.take(i as int), now as int, k, ip, j);
                    assert(listed_at(entries.take(i + 1), now as int, k, ip, j));
                }
                if listed(entries.take(i + 1), now as int, k, ip) {
                    let j = choose|j: int| #[trigger]
                        listed_at(entries.take(i + 1), now as int, k, ip, j);
                    if j < i {
                        assert(listed_at(entries.take(i as int), now as int, k, ip, j));
                    }
                }
                if !entries[i as int].1.expired(now as int) && k == normalized_fingerprint(
                    entries[i as int].0@,
                ) && entries[i as int].1.addresses()@.contains(ip) {
                    assert(listed_at(entries.take(i + 1), now as int, k, ip, i as int));
                }
            }
            assert forall|k: Seq<char>| #[trigger]
                cache@.dom().contains(k) implies before.dom().contains(k) || candidates_of(cache@, k)
                != Set::<IpAddr>::empty() by {
                if mid.dom().contains(k) && !before.dom().contains(k) {
                    let x = choose|x: IpAddr| candidates_of(mid, k).contains(x);
                    assert(candidates_of(mid, k) != Set::<IpAddr>::empty());
                    if forall|x: IpAddr| !candidates_of(mid, k).contains(x) {
                        assert(candidates_of(mid, k) =~= Set::<IpAddr>::empty());
                    }
                    assert(candidates_of(mid, k).contains(x));
                    assert(candidates_of(cache@, k).contains(x));
                }
            }
        }
        i = i + 1;
    }
    assert(entries.take(entries.len() as int) =~= entries);
    proof {
        assert forall|k: Seq<char>| #[trigger] candidates_of(cache@, k) == candidates_of(
            before,
            k,
        ).union(loaded(entries, now as int, k)) by {
            assert(candidates_of(cache@, k) =~= candidates_of(before, k).union(
                loaded(entries, now as int, k),
            ));
        }
        assert forall|k: Seq<char>| #[trigger] cache@.dom().contains(k) <==> before.dom().contains(
            k,
        ) || loaded(entries, now as int, k) != Set::<IpAddr>::empty() by {
            assert(candidates_of(cache@, k) == candidates_of(before, k).union(
                loaded(entries, now as int, k),
            ));
            if !before.dom().contains(k) {
                assert(candidates_of(cache@, k) =~= loaded(entries, now as int, k));
            }
        }
    }
}

/// Whether remembering an address of a peer changes the file.
pub open spec fn is_rememberable(fingerprint: Seq<char>, ip: IpAddr) -> bool {
    normalized_fingerprint(fingerprint).len() > 0 && is_learnable(ip)
}

/// Remembers in the file the address at which a peer was reached, and returns
/// whether there is anything to write. The entry of the normalised fingerprint
/// then holds the addresses that it had and this one, and the time is `now`.
pub fn persist_last_success_candidate(
    file: &mut LastSuccessFile,
    fingerprint: &str,
    ip: IpAddr,
    now: u64,
) -> (changed: bool)
    requires
        old(file).wf(),
    ensures
        final(file).wf(),
        changed == is_rememberable(fingerprint@, ip),
        !changed ==> final(file).fingerprints@ == old(file).fingerprints@,
        changed ==> ({
            let key = normalized_fingerprint(fingerprint@);
            let had = if old(file).fingerprints@.dom().contains(key) {
                old(file).fingerprints@[key].addresses()@
            } else {
                Set::empty()
            };
            &&& final(file).fingerprints@.dom() == old(file).fingerprints@.dom().insert(key)
            &&& final(file).fingerprints@[key] matches LastSuccessEntry::Timed {
                ips,
                updated_at_unix,
            } && ips@ == had.insert(ip) && updated_at_unix == now
            &&& forall|k: Seq<char>|
                k != key && old(file).fingerprints@.dom().contains(k) ==> (
                #[trigger] final(file).fingerprints@[k]) == old(file).fingerprints@[k]
        }),
{
    let fingerprint = normalize_fingerprint(fingerprint);
    if fingerprint.as_str().unicode_len() == 0 {
        return false;
    }
    if !is_learnable_ip(ip) {
        return false;
    }
    let ghost before = file.fingerprints@;
    proof {
        lemma_file_sets(*file);
    }
    let mut ips = match file.fingerprints.remove(&fingerprint) {
        Some(entry) => entry.ips().copy(),
        None => IpSet::new(),
    };
    ips.insert(ip);
    let ghost key = fingerprint@;
    let ghost mid = file.fingerprints@;
    let entry = LastSuccessEntry::Timed { ips, updated_at_unix: now };
    file.fingerprints.insert(fingerprint, entry);
    proof {
        assert forall|i: int| 0 <= i < file.fingerprints.entries@.len() implies (
        #[trigger] file.fingerprints.entries@[i]).1.addresses().wf() by {
            crate::collections::lemma_entry(file.fingerprints.entries@, i);
            let k = file.fingerprints.entries@[i].0@;
            if k != key {
                assert(before.dom().contains(k));
                assert(before[k] == file.fingerprints@[k]);
            }
        }
        assert(file.fingerprints@.dom() =~= before.dom().insert(key));
    }
    true
}

proof fn lemma_file_sets(file: LastSuccessFile)
    requires
        file.wf(),
    ensures
        forall|k: Seq<char>|
            file.fingerprints@.dom().contains(k) ==> (
            #[trigger] file.fingerprints@[k]).addresses().wf(),
{
    assert forall|k: Seq<char>| file.fingerprints@.dom().contains(k) implies (
    #[trigger] file.fingerprints@[k]).addresses().wf() by {
        let i = crate::collections::lemma_key(file.fingerprints.entries@, k);
        assert(file.fingerprints.entries@[i].1.addresses().wf());
    }
}

/// The errors of the mDNS crate.
#[verifier::external_type_specification]
#[verifier::external_body]
pub struct ExMdnsError(mdns_sd::Error);

/// `s` with a backslash in front of each dot and each backslash.
pub open spec fn escaped(s: Seq<char>) -> Seq<char>
    decreases s.len(),
{
    if s.len() == 0 {
        s
    } else if s.last() == '.' || s.last() == '\\' {
        escaped(s.drop_last()).push('\\').push(s.last())
    } else {
        escaped(s.drop_last()).push(s.last())
    }
}

/// The full name of a service instance.
pub open spec fn fullname_of(service_type: Seq<char>, instance: Seq<char>) -> Seq<char> {
    escaped(instance) + "."@ + service_type
}

/// Whether a TXT property, written `key=value`, fits in a TXT string.
pub open spec fn txt_fits(key: Seq<char>, value: Seq<char>) -> bool {
    vstd::utf8::encode_utf8(key).len() + 1 + vstd::utf8::encode_utf8(value).len() <= 255
}

/// Whether a text can be a TXT key.
pub open spec fn is_txt_key(key: Seq<char>) -> bool {
    forall|i: int| 0 <= i < key.len() ==> (#[trigger] key[i]) as u32 <= 0x7f && key[i] != '='
}

/// `mdns_sd::ServiceInfo::new` on a service with two TXT properties, and
/// `get_fullname` on what it made. It fails exactly if a TXT property does not
/// fit, given a service type without a subtype, keys that can be TXT keys, and
/// addresses in dotted decimal with commas between them. The full name is made of the service type and
/// of the instance's name, escaped. Nothing is claimed of which error it is.
#[verifier::external_body]
fn service_fullname(
    service_type: &str,
    instance: &str,
    host_record: &str,
    addresses: &str,
    port: u16,
    first: (&str, &str),
    second: (&str, &str),
) -> (res: Result<String, mdns_sd::Error>)
    requires
        !occurs_in(service_type@, "._sub."@),
        exists|ips: Seq<IpAddr>|
            all_v4(ips) && addresses@ == #[trigger] separated(ip_texts(ips), ","@),
        is_txt_key(first.0@),
        is_txt_key(second.0@),
        lowered(first.0@) != lowered(second.0@),
    ensures
        match res {
            Ok(fullname) => txt_fits(first.0@, first.1@) && txt_fits(second.0@, second.1@)
                && fullname@ == fullname_of(service_type@, instance@),
            Err(_) => !(txt_fits(first.0@, first.1@) && txt_fits(second.0@, second.1@)),
        },
{
    let props: std::collections::HashMap<String, String> = std::collections::HashMap::from(
        [first, second].map(|(key, value)| (key.to_string(), value.to_string())),
    );
    mdns_sd::ServiceInfo::new(service_type, instance, host_record, addresses, port, Some(props)).map(
        |info| info.get_fullname().to_string(),
    )
}

/// Whether all addresses are of version 4.
pub open spec fn all_v4(ips: Seq<IpAddr>) -> bool {
    forall|i: int| 0 <= i < ips.len() ==> (#[trigger] ips[i]) is V4
}

/// The addresses under which the service is advertised: the primary one and
/// those of the host, as far as peers may learn them.
pub open spec fn advertised(primary: u32, lan: Seq<u32>) -> Set<IpAddr> {
    Set::new(
        |ip: IpAddr|
            is_learnable(ip) && (ip matches IpAddr::V4(a) && (a == primary || lan.contains(a))),
    )
}

/// The addresses under which the service is advertised.
fn advertised_of(primary: u32, lan: &Vec<u32>) -> (r: IpSet)
    ensures
        r.wf(),
        r@ == advertised(primary, lan@),
{
    let mut r = IpSet::new();
    if is_learnable_ip(IpAddr::V4(primary)) {
        r.insert(IpAddr::V4(primary));
    }
    let mut i: usize = 0;
    while i < lan.len()
        invariant
            i <= lan@.len(),
            r.wf(),
            r@ == advertised(primary, lan@.take(i as int)),
        decreases lan@.len() - i,
    {
        let ip = IpAddr::V4(lan[i]);
        if is_learnable_ip(ip) {
            r.insert(ip);
        }
        proof {
            let next = lan@.take(i + 1);
            assert(next =~= lan@.take(i as int).push(lan@[i as int]));
            assert forall|a: u32| #[trigger] next.contains(a) <==> lan@.take(i as int).contains(a)
                || a == lan@[i as int] by {
                if lan@.take(i as int).contains(a) {
                    let j = choose|j: int| 0 <= j < i && lan@.take(i as int)[j] == a;
                    assert(next[j] == a);
                }
                assert(next[i as int] == lan@[i as int]);
            }
            assert(r@ =~= advertised(primary, next));
        }
        i = i + 1;
    }
    assert(lan@.take(lan@.len() as int) =~= lan@);
    r
}

/// A service to register.
pub struct Registration {
    /// The full name of an earlier registration, to be withdrawn first.
    pub unregister: Option<String>,
    /// The full name of the service.
    pub fullname: String,
    /// The name of the instance.
    pub host: String,
    /// The name of the host record.
    pub host_record: String,
    /// The address of the interface that owns the default route.
    pub primary: u32,
    /// All addresses of the service.
    pub addresses: IpSet,
    /// The primary address in dotted decimal, for the TXT record.
    pub primary_text: String,
    /// The port of the service.
    pub port: u16,
    /// The fingerprint, for the TXT record.
    pub fingerprint: String,
}

/// What has to be done for discovery to be switched.
pub enum Switch {
    /// Nothing.
    Nothing,
    /// Start a daemon.
    Start,
    /// Withdraw the registration, where there is one, and stop the daemon and
    /// the browsing.
    Stop { unregister: Option<String> },
}

/// Where the registration of the local service stands.
pub struct Discovery {
    /// Whether an mDNS daemon runs. Without one every operation is inert.
    pub running: bool,
    /// Whether the peers' announcements are browsed.
    pub browsing: bool,
    /// The full name under which the service is registered.
    pub registered_fullname: Option<String>,
    /// The primary address of the last registration.
    pub last_registered_primary: Option<u32>,
    /// All addresses of the last registration.
    pub last_registered_addresses: Option<IpSet>,
    /// The port of the last registration.
    pub last_registered_port: Option<u16>,
    /// The fingerprint of the local certificate.
    pub local_fingerprint: String,
    /// The port on which the local service listens.
    pub port: u16,
}

impl Discovery {
    /// Whether what is registered is known, and nothing is without a daemon.
    pub open spec fn wf(&self) -> bool {
        &&& self.registered_fullname is Some ==> self.running && self.last_registered_primary is Some
            && self.last_registered_addresses is Some && self.last_registered_port is Some
        &&& !self.running ==> !self.browsing && self.last_registered_primary is None
            && self.last_registered_addresses is None && self.last_registered_port is None
        &&& self.last_registered_addresses matches Some(ips) ==> ips.wf()
    }

    /// Whether the advertisement is already the one for `primary` and the
    /// addresses `lan` of the host.
    pub open spec fn is_current(&self, primary: u32, lan: Seq<u32>) -> bool {
        &&& self.registered_fullname is Some
        &&& self.last_registered_primary == Some(primary)
        &&& self.last_registered_addresses matches Some(ips) && ips@ == advertised(primary, lan)
        &&& self.last_registered_port == Some(self.port)
    }

    /// Whether the service is to be registered on `primary` and the addresses
    /// `lan` of the host.
    pub open spec fn registration_due(&self, primary: Option<u32>, lan: Seq<u32>) -> bool {
        &&& self.running
        &&& primary matches Some(ip) && !self.is_current(ip, lan)
        &&& txt_fits("fp"@, self.local_fingerprint@)
    }

    /// An instance without a daemon.
    pub fn inert(port: u16, local_fingerprint: String) -> (d: Discovery)
        ensures
            d.wf(),
            !d.running,
            d.registered_fullname is None,
            d.local_fingerprint == local_fingerprint,
            d.port == port,
    {
        Discovery {
            running: false,
            browsing: false,
            registered_fullname: None,
            last_registered_primary: None,
            last_registered_addresses: None,
            last_registered_port: None,
            local_fingerprint,
            port,
        }
    }

    /// A new instance: inert, if it is disabled or the daemon did not start,
    /// and otherwise one that has nothing registered yet.
    pub fn new(
        port: u16,
        enabled: bool,
        daemon_started: bool,
        browsing: bool,
        local_fingerprint: String,
    ) -> (d: Discovery)
        ensures
            d.wf(),
            d.running == (enabled && daemon_started),
            d.browsing == (enabled && daemon_started && browsing),
            d.registered_fullname is None,
            d.last_registered_primary is None,
            d.last_registered_addresses is None,
            d.last_registered_port is None,
            d.local_fingerprint == local_fingerprint,
            d.port == port,
    {
        let mut d = Discovery::inert(port, local_fingerprint);
        if enabled && daemon_started {
            d.running = true;
            d.browsing = browsing;
        }
        d
    }

    /// The registration that is due on the address `primary` of the interface
    /// that owns the default route, and on every usable one of the addresses
    /// `lan` of the host, under the host's name. It withdraws an earlier one.
    /// The advertisement is left untouched as long as addresses and port stay
    /// the same, and also while there is no such interface.
    pub fn register(&mut self, host: &str, primary: Option<u32>, lan: &Vec<u32>) -> (res: Option<
        Registration,
    >)
        requires
            old(self).wf(),
        ensures
            final(self).wf(),
            res is Some <==> old(self).registration_due(primary, lan@),
            res is None ==> *final(self) == *old(self),
            res matches Some(r) ==> {
                &&& opt_text(r.unregister) == opt_text(old(self).registered_fullname)
                &&& r.fullname@ == fullname_of(SERVICE_TYPE@, host@)
                &&& r.host@ == host@
                &&& r.host_record@ == host@ + ".local."@
                &&& Some(r.primary) == primary
                &&& r.addresses.wf()
                &&& r.addresses@ == advertised(r.primary, lan@)
                &&& r.primary_text@ == dotted(r.primary)
                &&& r.port == old(self).port
                &&& r.fingerprint@ == old(self).local_fingerprint@
                &&& *final(self) == (Discovery { registered_fullname: None, ..*old(self) })
            },
    {
        if !self.running {
            return None;
        }
        let primary: u32 = match primary {
            Some(ip) => ip,
            None => return None,
        };
        let addresses = advertised_of(primary, lan);
        if self.registered_fullname.is_some() && self.last_registered_primary == Some(primary)
            && self.last_registered_port == Some(self.port) {
            if let Some(ips) = &self.last_registered_addresses {
                if ips.same(&addresses) {
                    return None;
                }
            }
        }
        let host_record = joined(host, ".local.");
        let primary_text = dotted_of(primary);
        let address_text = join(&ip_texts_of(&addresses.ips), ",");
        proof {
            lemma_txt_keys(primary);
            assert forall|i: int| 0 <= i < addresses.ips@.len() implies (
            #[trigger] addresses.ips@[i]) is V4 by {
                assert(addresses@.contains(addresses.ips@[i]));
            }
            assert(all_v4(addresses.ips@));
        }
        let fullname = match service_fullname(
            SERVICE_TYPE,
            host,
            host_record.as_str(),
            address_text.as_str(),
            self.port,
            (TXT_PRIMARY_KEY, primary_text.as_str()),
            (TXT_FINGERPRINT_KEY, self.local_fingerprint.as_str()),
        ) {
            Ok(fullname) => fullname,
            Err(_) => return None,
        };
        let unregister = self.registered_fullname.take();
        Some(
            Registration {
                unregister,
                fullname,
                host: String::from_str(host),
                host_record,
                primary,
                addresses,
                primary_text,
                port: self.port,
                fingerprint: self.local_fingerprint.clone(),
            },
        )
    }

    /// Notes whether the daemon took the registration.
    pub fn registered(&mut self, registration: Registration, accepted: bool)
        requires
            old(self).wf(),
            old(self).running,
            old(self).registered_fullname is None,
            registration.addresses.wf(),
        ensures
            final(self).wf(),
            accepted ==> *final(self) == (Discovery {
                registered_fullname: Some(registration.fullname),
                last_registered_primary: Some(registration.primary),
                last_registered_addresses: Some(registration.addresses),
                last_registered_port: Some(registration.port),
                ..*old(self)
            }),
            !accepted ==> *final(self) == (Discovery {
                last_registered_primary: None,
                last_registered_addresses: None,
                last_registered_port: None,
                ..*old(self)
            }),
    {
        if accepted {
            self.registered_fullname = Some(registration.fullname);
            self.last_registered_primary = Some(registration.primary);
            self.last_registered_addresses = Some(registration.addresses);
            self.last_registered_port = Some(registration.port);
        } else {
            self.last_registered_primary = None;
            self.last_registered_addresses = None;
            self.last_registered_port = None;
        }
    }

    /// Sets the port on which the local service listens, and returns whether
    /// that is a change, after which the registration is to be refreshed.
    pub fn set_port(&mut self, port: u16) -> (refresh: bool)
        requires
            old(self).wf(),
        ensures
            final(self).wf(),
            refresh == (old(self).port != port),
            *final(self) == (Discovery { port, ..*old(self) }),
    {
        if self.port == port {
            return false;
        }
        self.port = port;
        true
    }

    /// Switches discovery on or off. Switching it to what it is does nothing.
    /// On, a daemon is to be started, and [`Discovery::new`] tells what becomes
    /// of it. Off, the registration is withdrawn and all is stopped.
    pub fn set_enabled(&mut self, enabled: bool) -> (switch: Switch)
        requires
            old(self).wf(),
        ensures
            final(self).wf(),
            old(self).running == enabled ==> switch is Nothing && *final(self) == *old(self),
            !old(self).running && enabled ==> switch is Start && *final(self) == *old(self),
            old(self).running && !enabled ==> final(self).is_stopped_from(*old(self)) && (
            switch matches Switch::Stop { unregister } && unregister
                == old(self).registered_fullname),
    {
        if self.running == enabled {
            return Switch::Nothing;
        }
        if enabled {
            Switch::Start
        } else {
            self.shutdown()
        }
    }

    /// Whether this is `before`, stopped.
    pub open spec fn is_stopped_from(self, before: Discovery) -> bool {
        self == (Discovery {
            running: false,
            browsing: false,
            registered_fullname: None,
            last_registered_primary: None,
            last_registered_addresses: None,
            last_registered_port: None,
            ..before
        })
    }

    /// Stops discovery. The registration, where there is one, is to be
    /// withdrawn. What was learned stays.
    pub fn shutdown(&mut self) -> (switch: Switch)
        requires
            old(self).wf(),
        ensures
            final(self).wf(),
            final(self).is_stopped_from(*old(self)),
            old(self).running ==> (switch matches Switch::Stop { unregister } && unregister
                == old(self).registered_fullname),
            !old(self).running ==> switch is Nothing,
    {
        let was_running = self.running;
        let unregister = self.registered_fullname.take();
        self.running = false;
        self.browsing = false;
        self.last_registered_primary = None;
        self.last_registered_addresses = None;
        self.last_registered_port = None;
        if was_running {
            Switch::Stop { unregister }
        } else {
            Switch::Nothing
        }
    }
}

proof fn lemma_decimal_octet(n: nat)
    requires
        n < 256,
    ensures
        decimal(n).len() <= 3,
        vstd::utf8::is_ascii_chars(decimal(n)),
{
    reveal_with_fuel(decimal, 3);
}

/// The primary address fits in its TXT property, and both TXT keys are fit to
/// be keys.
proof fn lemma_txt_keys(primary: u32)
    ensures
        !occurs_in(SERVICE_TYPE@, "._sub."@),
        is_txt_key(TXT_PRIMARY_KEY@),
        is_txt_key(TXT_FINGERPRINT_KEY@),
        lowered(TXT_PRIMARY_KEY@) != lowered(TXT_FINGERPRINT_KEY@),
        txt_fits(TXT_PRIMARY_KEY@, dotted(primary)),
{
    reveal_strlit("_lan-mouse._udp.local.");
    reveal_strlit("._sub.");
    reveal_strlit("primary");
    reveal_strlit("fp");
    reveal_strlit(".");
    assert forall|at: int| !#[trigger] crate::text::occurs_at(SERVICE_TYPE@, "._sub."@, at) by {
        if crate::text::occurs_at(SERVICE_TYPE@, "._sub."@, at) {
            let w = SERVICE_TYPE@.subrange(at, at + 6);
            assert(w[0] == SERVICE_TYPE@[at]);
            assert(w[1] == SERVICE_TYPE@[at + 1]);
            assert(w[2] == SERVICE_TYPE@[at + 2]);
            assert(at == 10 || at == 15 || at == 21);
            assert(false);
        }
    }
    assert(lowered(TXT_PRIMARY_KEY@).len() == 7);
    assert(lowered(TXT_FINGERPRINT_KEY@).len() == 2);
    lemma_decimal_octet((primary / 0x1000000) as nat);
    lemma_decimal_octet(((primary / 0x10000) % 0x100) as nat);
    lemma_decimal_octet(((primary / 0x100) % 0x100) as nat);
    lemma_decimal_octet((primary % 0x100) as nat);
    let d = dotted(primary);
    assert(vstd::utf8::is_ascii_chars(d));
    vstd::utf8::is_ascii_chars_encode_utf8(d);
    vstd::utf8::is_ascii_chars_encode_utf8(TXT_PRIMARY_KEY@);
}

/// What the TXT record of an announcement says of the primary address.
#[derive(Clone, Copy, Debug, PartialEq, Eq, Structural)]
pub enum PrimaryTxt {
    /// Nothing.
    Absent,
    /// A text that is no address.
    Malformed,
    /// An address.
    Address(IpAddr),
}

/// A service that was resolved on the network.
pub struct Resolved {
    /// The full name of the service.
    pub fullname: String,
    /// The name of the host that the service runs on.
    pub hostname: String,
    /// The port of the service.
    pub port: u16,
    /// The primary address in the TXT record.
    pub primary: PrimaryTxt,
    /// The fingerprint in the TXT record.
    pub fingerprint: Option<String>,
    /// The addresses of the host.
    pub addresses: Vec<IpAddr>,
}

impl Resolved {
    /// The normalised name of the instance.
    pub open spec fn key(&self) -> Seq<char> {
        normalized_mdns_name(without_suffix(self.fullname@, "."@ + SERVICE_TYPE@))
    }

    /// The normalised fingerprint.
    pub open spec fn normal_fingerprint(&self) -> Option<Seq<char>> {
        match self.fingerprint {
            Some(fp) => Some(normalized_fingerprint(fp@)),
            None => None,
        }
    }

    /// The learnable addresses of the announcement.
    pub open spec fn candidates(&self) -> Set<IpAddr> {
        Set::new(
            |ip: IpAddr|
                is_learnable(ip) && (self.addresses@.contains(ip) || self.primary
                    == PrimaryTxt::Address(ip)),
        )
    }
}

/// What a peer announced last.
pub struct Seen {
    pub ip: IpAddr,
    pub port: u16,
    pub fingerprint: Option<String>,
}

impl Seen {
    /// Whether this is what `resolved` announces.
    pub open spec fn is_of(&self, resolved: &Resolved) -> bool {
        &&& resolved.primary == PrimaryTxt::Address(self.ip)
        &&& self.port == resolved.port
        &&& opt_text(self.fingerprint) == resolved.normal_fingerprint()
    }
}

/// What an announcement turned out to be.
#[derive(Clone, Copy, Debug, PartialEq, Eq, Structural)]
pub enum Announcement {
    /// One without a primary address.
    NoPrimary,
    /// One whose primary address cannot be read.
    MalformedPrimary,
    /// The announcement of this very instance.
    Own,
    /// The first of a peer, or one that tells something new.
    News,
    /// A repetition.
    Refresh,
}

/// Listens to the announcements of peers.
pub struct Browser {
    /// The normalised fingerprint of the local certificate.
    pub local_fingerprint: String,
    /// The normalised name of the local host.
    pub local_name: String,
    /// What each peer announced last, by normalised name.
    pub seen: AssocMap<String, Seen>,
}

impl Browser {
    /// Whether the map is in order.
    pub open spec fn wf(&self) -> bool {
        self.seen.wf()
    }

    /// Whether an announcement is that of this very instance: it has the local
    /// fingerprint, or both its names are the local one.
    pub open spec fn is_own(&self, resolved: &Resolved) -> bool {
        ||| resolved.normal_fingerprint() == Some(self.local_fingerprint@)
        ||| resolved.key() == self.local_name@ && normalized_mdns_name(
            without_trailing_dot(resolved.hostname@),
        ) == self.local_name@
    }

    /// What an announcement is.
    pub open spec fn judged(&self, resolved: &Resolved) -> Announcement {
        match resolved.primary {
            PrimaryTxt::Absent => Announcement::NoPrimary,
            PrimaryTxt::Malformed => Announcement::MalformedPrimary,
            PrimaryTxt::Address(_) => if self.is_own(resolved) {
                Announcement::Own
            } else if self.seen@.dom().contains(resolved.key()) && self.seen@[resolved.key()].is_of(
                resolved,
            ) {
                Announcement::Refresh
            } else {
                Announcement::News
            },
        }
    }

    /// A browser that has seen nothing yet.
    pub fn new(local_fingerprint: &str, hostname: &str) -> (b: Browser)
        ensures
            b.wf(),
            b.local_fingerprint@ == normalized_fingerprint(local_fingerprint@),
            b.local_name@ == normalized_mdns_name(hostname@),
            b.seen@ == Map::<Seq<char>, Seen>::empty(),
    {
        Browser {
            local_fingerprint: normalize_fingerprint(local_fingerprint),
            local_name: normalize_mdns_name(hostname),
            seen: AssocMap::new(),
        }
    }

    /// Takes in an announcement. That of a peer sets the peer's primary
    /// address, if it is learnable, and replaces the candidates of its
    /// fingerprint, if it has one. Others change nothing.
    pub fn resolved(
        &mut self,
        resolved: &Resolved,
        primaries: &mut PrimaryCache,
        fingerprints: &mut FingerprintCache,
    ) -> (announcement: Announcement)
        requires
            old(self).wf(),
            old(primaries).wf(),
            old(fingerprints).wf(),
        ensures
            final(self).wf(),
            final(primaries).wf(),
            final(fingerprints).wf(),
            old(fingerprints).clean() ==> final(fingerprints).clean(),
            announcement == old(self).judged(resolved),
            final(self).local_fingerprint == old(self).local_fingerprint,
            final(self).local_name == old(self).local_name,
            !(announcement is News || announcement is Refresh) ==> {
                &&& final(self).seen@ == old(self).seen@
                &&& final(primaries)@ == old(primaries)@
                &&& final(fingerprints)@ == old(fingerprints)@
            },
            announcement is News || announcement is Refresh ==> {
                let ip = resolved.primary->Address_0;
                let key = resolved.key();
                &&& final(self).seen@.dom() == old(self).seen@.dom().insert(key)
                &&& final(self).seen@[key].is_of(resolved)
                &&& final(self).seen@.remove(key) == old(self).seen@.remove(key)
                &&& final(primaries)@ == if is_learnable(ip) {
                    old(primaries)@.insert(key, ip)
                } else {
                    old(primaries)@
                }
                &&& final(fingerprints)@ == match resolved.normal_fingerprint() {
                    Some(fp) => if fp.len() > 0 {
                        old(fingerprints)@.insert(fp, resolved.candidates())
                    } else {
                        old(fingerprints)@
                    },
                    None => old(fingerprints)@,
                }
            },
    {
        let ip = match resolved.primary {
            PrimaryTxt::Absent => return Announcement::NoPrimary,
            PrimaryTxt::Malformed => return Announcement::MalformedPrimary,
            PrimaryTxt::Address(ip) => ip,
        };
        let instance = instance_from_fullname(resolved.fullname.as_str(), SERVICE_TYPE);
        let key = normalize_mdns_name(instance);
        let target = strip_trailing_dot(resolved.hostname.as_str());
        let fingerprint = match &resolved.fingerprint {
            Some(fp) => Some(normalize_fingerprint(fp.as_str())),
            None => None,
        };
        let own_fingerprint = match &fingerprint {
            Some(fp) => same(fp.as_str(), self.local_fingerprint.as_str()),
            None => false,
        };
        if own_fingerprint || (same(key.as_str(), self.local_name.as_str()) && same(
            normalize_mdns_name(target).as_str(),
            self.local_name.as_str(),
        )) {
            return Announcement::Own;
        }
        let known = match self.seen.get(&key) {
            Some(seen) => seen.ip == ip && seen.port == resolved.port && crate::text::same_option(
                &seen.fingerprint,
                &fingerprint,
            ),
            None => false,
        };
        let ghost seen_before = self.seen@;
        let ghost name = key@;
        let signature = Seen { ip, port: resolved.port, fingerprint: fingerprint.clone() };
        self.seen.insert(key.clone(), signature);
        assert(self.seen@.remove(name) =~= seen_before.remove(name));
        if is_learnable_ip(ip) {
            primaries.insert(key, ip);
        }
        if let Some(fingerprint) = fingerprint {
            if fingerprint.as_str().unicode_len() > 0 {
                let mut candidates = IpSet::new();
                let mut i: usize = 0;
                while i < resolved.addresses.len()
                    invariant
                        i <= resolved.addresses@.len(),
                        candidates.wf(),
                        forall|a: IpAddr| #[trigger]
                            candidates@.contains(a) <==> is_learnable(a) && resolved.addresses@.take(
                                i as int,
                            ).contains(a),
                    decreases resolved.addresses@.len() - i,
                {
                    if is_learnable_ip(resolved.addresses[i]) {
                        candidates.insert(resolved.addresses[i]);
                    }
                    proof {
                        assert forall|a: IpAddr| #[trigger]
                            candidates@.contains(a) <==> is_learnable(a) && resolved.addresses@.take(
                                i + 1,
                            ).contains(a) by {
                            crate::net::lemma_take_contains(resolved.addresses@, i as int, a);
                        }
                    }
                    i = i + 1;
                }
                assert(resolved.addresses@.take(i as int) =~= resolved.addresses@);
                if is_learnable_ip(ip) {
                    candidates.insert(ip);
                }
                assert(candidates@ =~= resolved.candidates());
                fingerprints.replace(fingerprint, candidates);
            }
        }
        if known {
            Announcement::Refresh
        } else {
            Announcement::News
        }
    }
}

/// A fingerprint that is normalised stays as it is.
pub proof fn fingerprints_normalise_once(s: Seq<char>)
    ensures
        normalized_fingerprint(normalized_fingerprint(s)) == normalized_fingerprint(s),
{
    let t = trimmed(s);
    lemma_trimmed_ends(s);
    let l = lowered(t);
    assert(l.len() > 0 ==> !is_space(l.first()) && !is_space(l.last()));
    assert(trimmed_start(l) == l);
    assert(trimmed(l) == l);
    assert(lowered(l) =~= l);
}

proof fn lemma_trimmed_start_ends(s: Seq<char>)
    ensures
        trimmed_start(s).len() > 0 ==> !is_space(trimmed_start(s).first()),
    decreases s.len(),
{
    if s.len() > 0 && is_space(s.first()) {
        lemma_trimmed_start_ends(s.drop_first());
    }
}

proof fn lemma_trimmed_end_ends(s: Seq<char>)
    ensures
        trimmed_end(s).len() > 0 ==> !is_space(trimmed_end(s).last()) && trimmed_end(s).first()
            == s.first() && s.len() > 0,
    decreases s.len(),
{
    if s.len() > 0 && is_space(s.last()) {
        lemma_trimmed_end_ends(s.drop_last());
    }
}

proof fn lemma_trimmed_ends(s: Seq<char>)
    ensures
        trimmed(s).len() > 0 ==> !is_space(trimmed(s).first()) && !is_space(trimmed(s).last()),
{
    lemma_trimmed_start_ends(s);
    lemma_trimmed_end_ends(trimmed_start(s));
}

/// What is remembered of a reached peer is a candidate after loading, as long
/// as it is not too old: a file that holds `ip` under the normalised
/// fingerprint, written at `then`, gives `ip` to the candidates at `now`.
pub proof fn remembered_address_is_loaded(
    entries: Seq<(String, LastSuccessEntry)>,
    i: int,
    fingerprint: Seq<char>,
    ip: IpAddr,
    now: int,
)
    requires
        0 <= i < entries.len(),
        entries[i].0@ == normalized_fingerprint(fingerprint),
        normalized_fingerprint(fingerprint).len() > 0,
        is_learnable(ip),
        entries[i].1.addresses()@.contains(ip),
        entries[i].1 matches LastSuccessEntry::Timed { updated_at_unix, .. } ==> now
            - updated_at_unix <= LAST_SUCCESS_TTL_SECS,
    ensures
        loaded(entries, now, normalized_fingerprint(fingerprint)).contains(ip),
{
    fingerprints_normalise_once(fingerprint);
    assert(listed_at(entries, now, normalized_fingerprint(fingerprint), ip, i));
}

/// An entry that is too old gives no candidate: if every entry is, nothing is
/// loaded.
pub proof fn expired_entries_are_ignored(
    entries: Seq<(String, LastSuccessEntry)>,
    now: int,
    key: Seq<char>,
)
    requires
        forall|i: int| 0 <= i < entries.len() ==> (#[trigger] entries[i]).1.expired(now),
    ensures
        loaded(entries, now, key) == Set::<IpAddr>::empty(),
{
    assert forall|ip: IpAddr| !loaded(entries, now, key).contains(ip) by {
        if listed(entries, now, key, ip) {
            let i = choose|i: int| #[trigger] listed_at(entries, now, key, ip, i);
            assert(entries[i].1.expired(now));
        }
    }
    assert(loaded(entries, now, key) =~= Set::<IpAddr>::empty());
}

/// The `.local` domain and the trailing dot are implied: a name, the name in
/// the domain, and the fully qualified name normalise to the same. This is so
/// of every name that does not itself end in a dot or in `.local`.
pub proof fn local_domain_is_implied(name: Seq<char>)
    requires
        name.len() > 0 ==> name.last() != '.',
        !has_suffix(name, ".local"@),
    ensures
        normalized_mdns_name(name + ".local"@) == normalized_mdns_name(name),
        normalized_mdns_name(name + ".local"@ + "."@) == normalized_mdns_name(name),
{
    reveal_strlit(".local");
    reveal_strlit(".");
    let l = name + ".local"@;
    let d = l + "."@;
    assert(l.last() == 'l');
    assert(without_trailing_dot(l) == l);
    assert(l.skip(l.len() - 6) =~= ".local"@);
    assert(l.take(l.len() - 6) =~= name);
    assert(d.last() == '.');
    assert(d.drop_last() =~= l);
}

/// A normalised name is in lower case: no ASCII capital is left.
pub proof fn names_are_lower_case(name: Seq<char>, i: int)
    requires
        0 <= i < normalized_mdns_name(name).len(),
    ensures
        !('A' <= normalized_mdns_name(name)[i] <= 'Z'),
{
}

/// Names are told apart without regard to case: spelling a name in lower case
/// does not change the form in which it is looked up, as long as that does not
/// make a `.local` domain of other letters.
pub proof fn case_is_ignored(name: Seq<char>)
    requires
        has_suffix(without_trailing_dot(lowered(name)), ".local"@) ==> has_suffix(
            without_trailing_dot(name),
            ".local"@,
        ),
    ensures
        normalized_mdns_name(lowered(name)) == normalized_mdns_name(name),
{
    reveal_strlit(".local");
    let low = lowered(name);
    let d = without_trailing_dot(name);
    assert(without_trailing_dot(low) =~= lowered(d));
    let ld = lowered(d);
    if has_suffix(d, ".local"@) {
        assert(ld.skip(ld.len() - 6) =~= ".local"@) by {
            assert forall|i: int| 0 <= i < 6 implies ld.skip(ld.len() - 6)[i] == ".local"@[i] by {
                assert(d.skip(d.len() - 6)[i] == ".local"@[i]);
            }
        }
    }
    let b = without_suffix(d, ".local"@);
    let lb = without_suffix(ld, ".local"@);
    assert(lb =~= lowered(b));
    if exists|at: int| #[trigger] collision_suffix_at(b, at) {
        let at = choose|at: int| #[trigger] collision_suffix_at(b, at);
        assert(collision_suffix_at(lb, at)) by {
            assert forall|i: int| at + 2 <= i < lb.len() - 1 implies is_digit(#[trigger] lb[i]) by {
                assert(is_digit(b[i]));
            }
        }
        let at2 = choose|at2: int| #[trigger] collision_suffix_at(lb, at2);
        lemma_collision_suffix_is_unique(lb, at, at2);
        assert(lowered(lb.take(at)) =~= lowered(b.take(at)));
    } else {
        assert forall|at: int| !#[trigger] collision_suffix_at(lb, at) by {
            if collision_suffix_at(lb, at) {
                assert(collision_suffix_at(b, at)) by {
                    assert forall|i: int| at + 2 <= i < b.len() - 1 implies is_digit(
                        #[trigger] b[i],
                    ) by {
                        assert(is_digit(lb[i]));
                    }
                }
            }
        }
        assert(lowered(lb) =~= lowered(b));
    }
}

/// A registration that was taken stays untouched: as long as addresses and port
/// are the same, none is due again.
pub proof fn refresh_keeps_registration(
    before: Discovery,
    after: Discovery,
    r: Registration,
    lan: Seq<u32>,
)
    requires
        after == (Discovery {
            registered_fullname: Some(r.fullname),
            last_registered_primary: Some(r.primary),
            last_registered_addresses: Some(r.addresses),
            last_registered_port: Some(r.port),
            ..before
        }),
        r.port == before.port,
        r.addresses@ == advertised(r.primary, lan),
    ensures
        !after.registration_due(Some(r.primary), lan),
        after.running && txt_fits("fp"@, after.local_fingerprint@) ==> forall|
            ip: u32,
            other: Seq<u32>,
        |
            ip != r.primary || advertised(ip, other) != advertised(r.primary, lan)
                ==> #[trigger] after.registration_due(Some(ip), other),
{
}

/// Which addresses discovery learns: of version 4 all but those of 100.64/10,
/// 127/8, 224/4 and 169.254/16, and of version 6 all but the loopback address
/// and those of ff00::/8 and fe80::/10.
pub proof fn learnable_networks(ip: IpAddr)
    ensures
        is_learnable(ip) <==> match ip {
            IpAddr::V4(n) => {
                &&& n / 0x40_0000 != 100 * 4 + 1
                &&& n / 0x100_0000 != 127
                &&& n / 0x1000_0000 != 14
                &&& n / 0x1_0000 != 169 * 256 + 254
            },
            IpAddr::V6(n) => {
                &&& n != 1
                &&& n / 0x1_00_0000_0000_0000_0000_0000_0000_0000 != 0xff
                &&& n / 0x40_0000_0000_0000_0000_0000_0000_0000 != 0x3fa
            },
        },
        is_v6_link_local(ip) <==> (ip matches IpAddr::V6(n) && n
            / 0x40_0000_0000_0000_0000_0000_0000_0000 == 0x3fa),
{
}

/// A learned address is a candidate of the key under which it was learned,
/// however that was written. What was known stays known, and nothing else is
/// learned: no address that may not be, and none of an empty key.
pub proof fn candidates_are_learned_under_their_key(
    cache: Map<Seq<char>, Set<IpAddr>>,
    fingerprint: Seq<char>,
    ip: IpAddr,
    key: Seq<char>,
    other: IpAddr,
)
    ensures
        candidates_of(with_candidate(cache, fingerprint, ip), key).contains(other)
            <==> candidates_of(cache, key).contains(other) || {
            &&& other == ip
            &&& key == normalized_fingerprint(fingerprint)
            &&& key.len() > 0
            &&& is_learnable(ip)
        },
{
}

/// A key in small letters without white space around it is its own normal form,
/// and capitals and white space around it make no difference.
pub proof fn keys_keep_their_characters(key: Seq<char>, i: int)
    requires
        key.len() > 0 ==> !is_space(key.first()) && !is_space(key.last()),
        0 <= i < key.len(),
    ensures
        normalized_fingerprint(key).len() == key.len(),
        'A' <= key[i] <= 'Z' ==> normalized_fingerprint(key)[i] as u32 == key[i] as u32 + 32,
        !('A' <= key[i] <= 'Z') ==> normalized_fingerprint(key)[i] == key[i],
        normalized_fingerprint(" "@ + key + " "@) == normalized_fingerprint(key),
{
    crate::text::trimmed_text_stays(key);
    reveal_strlit(" ");
    let s = " "@ + key + " "@;
    assert(s.first() == ' ');
    assert(s.drop_first() =~= key + " "@);
    let t = key + " "@;
    assert(t.first() == key.first());
    reveal_with_fuel(trimmed_start, 2);
    assert(trimmed_start(s) == t);
    assert(t.last() == ' ');
    assert(t.drop_last() =~= key);
    reveal_with_fuel(trimmed_end, 2);
    assert(trimmed_end(t) == key);
}

/// What a name collision adds to a name, a blank and a number in brackets, is
/// taken off again; a name without it stays as it is.
pub proof fn collision_suffix_is_taken_off(name: Seq<char>, digits: Seq<char>)
    requires
        forall|i: int| 0 <= i < digits.len() ==> is_digit(#[trigger] digits[i]),
    ensures
        without_collision_suffix(name + " ("@ + digits + ")"@) == name,
        (name.len() > 0 ==> name.last() != ')') ==> without_collision_suffix(name) == name,
{
    reveal_strlit(" (");
    reveal_strlit(")");
    let s = name + " ("@ + digits + ")"@;
    let at = name.len() as int;
    assert(s[at] == ' ');
    assert(s[at + 1] == '(');
    assert forall|i: int| at + 2 <= i < s.len() - 1 implies is_digit(#[trigger] s[i]) by {
        assert(s[i] == digits[i - at - 2]);
    }
    assert(collision_suffix_at(s, at));
    let found = choose|x: int| #[trigger] collision_suffix_at(s, x);
    lemma_collision_suffix_is_unique(s, at, found);
    assert(s.take(at) =~= name);
}

/// An ordinary name is looked up as it is: small letters, no dot at its end, no
/// domain, no collision.
pub proof fn plain_names_stay(name: Seq<char>)
    requires
        name.len() > 0,
        name.last() != '.',
        name.last() != ')',
        !has_suffix(name, ".local"@),
        forall|i: int| 0 <= i < name.len() ==> !('A' <= #[trigger] name[i] <= 'Z'),
    ensures
        normalized_mdns_name(name) == name,
{
    collision_suffix_is_taken_off(name, Seq::<char>::empty());
    assert(lowered(name) =~= name);
}

/// What is remembered of a peer is of use for 14 days, and one that was written
/// without a time for ever.
pub proof fn memory_lasts_two_weeks(e: LastSuccessEntry, now: int)
    ensures
        e.expired(now) <==> match e {
            LastSuccessEntry::Timed { updated_at_unix, .. } => now > updated_at_unix + 14 * 24
                * 60 * 60,
            LastSuccessEntry::Legacy(_) => false,
        },
{
}

/// Loading adds what some entry that is not too old lists under the key, as far
/// as it may be learned, and nothing else.
pub proof fn loading_adds_what_is_listed(
    entries: Seq<(String, LastSuccessEntry)>,
    now: int,
    key: Seq<char>,
    ip: IpAddr,
)
    ensures
        loaded(entries, now, key).contains(ip) <==> {
            &&& key.len() > 0
            &&& is_learnable(ip)
            &&& exists|i: int|
                0 <= i < entries.len() && normalized_fingerprint((#[trigger] entries[i]).0@) == key
                    && !entries[i].1.expired(now) && match entries[i].1 {
                    LastSuccessEntry::Timed { ips, .. } => ips@.contains(ip),
                    LastSuccessEntry::Legacy(ips) => ips@.contains(ip),
                }
        },
{
    if listed(entries, now, key, ip) {
        let i = choose|i: int| #[trigger] listed_at(entries, now, key, ip, i);
        assert(entries[i].1.addresses()@.contains(ip));
    }
    if exists|i: int|
        0 <= i < entries.len() && normalized_fingerprint((#[trigger] entries[i]).0@) == key
            && !entries[i].1.expired(now) && match entries[i].1 {
            LastSuccessEntry::Timed { ips, .. } => ips@.contains(ip),
            LastSuccessEntry::Legacy(ips) => ips@.contains(ip),
        } {
        let i = choose|i: int|
            0 <= i < entries.len() && normalized_fingerprint((#[trigger] entries[i]).0@) == key
                && !entries[i].1.expired(now) && match entries[i].1 {
                LastSuccessEntry::Timed { ips, .. } => ips@.contains(ip),
                LastSuccessEntry::Legacy(ips) => ips@.contains(ip),
            };
        assert(listed_at(entries, now, key, ip, i));
    }
}

/// The service is advertised under its primary address and the other addresses
/// of the host, as far as peers may learn them; under all of these and no others.
pub proof fn advertised_addresses(primary: u32, lan: Seq<u32>, a: u32, b: u128)
    ensures
        advertised(primary, lan).contains(IpAddr::V4(a)) <==> (a == primary || lan.contains(a))
            && is_learnable(IpAddr::V4(a)),
        !advertised(primary, lan).contains(IpAddr::V6(b)),
{
}

/// A registration is due while the daemon runs and the host has an address, as
/// long as that address, the addresses of the host or the port are not what is
/// already registered, and the fingerprint fits into a TXT string.
pub proof fn when_a_registration_is_due(d: Discovery, primary: Option<u32>, lan: Seq<u32>)
    ensures
        !d.running ==> !d.registration_due(primary, lan),
        primary is None ==> !d.registration_due(primary, lan),
        d.registered_fullname is None ==> (d.registration_due(primary, lan) <==> d.running
            && primary is Some && txt_fits("fp"@, d.local_fingerprint@)),
        d.last_registered_port != Some(d.port) ==> (d.registration_due(primary, lan) <==> d.running
            && primary is Some && txt_fits("fp"@, d.local_fingerprint@)),
        d.last_registered_primary != primary ==> (d.registration_due(primary, lan) <==> d.running
            && primary is Some && txt_fits("fp"@, d.local_fingerprint@)),
{
}

/// A name without dots and backslashes stands in the full name of its service as
/// it is, and is found there again. Each dot and each backslash gets a backslash
/// in front.
pub proof fn full_names_hold_the_instance(service_type: Seq<char>, instance: Seq<char>, c: char)
    ensures
        (forall|i: int|
            0 <= i < instance.len() ==> #[trigger] instance[i] != '.' && instance[i] != '\\')
            ==> fullname_of(service_type, instance) == instance + "."@ + service_type,
        without_suffix(fullname_of(service_type, instance), "."@ + service_type) == escaped(
            instance,
        ),
        escaped(instance.push(c)) == if c == '.' || c == '\\' {
            escaped(instance) + seq!['\\', c]
        } else {
            escaped(instance).push(c)
        },
{
    if forall|i: int|
        0 <= i < instance.len() ==> #[trigger] instance[i] != '.' && instance[i] != '\\' {
        lemma_plain_is_not_escaped(instance);
    }
    assert(fullname_of(service_type, instance) =~= escaped(instance) + ("."@ + service_type));
    crate::text::suffix_and_prefix_of_a_sum(escaped(instance), "."@ + service_type);
    assert(instance.push(c).drop_last() =~= instance);
    assert(escaped(instance).push('\\').push(c) =~= escaped(instance) + seq!['\\', c]);
}

proof fn lemma_plain_is_not_escaped(s: Seq<char>)
    requires
        forall|i: int| 0 <= i < s.len() ==> #[trigger] s[i] != '.' && s[i] != '\\',
    ensures
        escaped(s) == s,
    decreases s.len(),
{
    if s.len() > 0 {
        lemma_plain_is_not_escaped(s.drop_last());
        assert(s.drop_last().push(s.last()) =~= s);
    }
}

/// An announcement under the local key is the own one, whatever it says besides,
/// and so is one whose instance and host both have the local name.
pub proof fn own_announcements_are_known(b: Browser, r: Resolved)
    requires
        r.primary is Address,
    ensures
        (r.fingerprint matches Some(fp) && normalized_fingerprint(fp@) == b.local_fingerprint@)
            ==> b.judged(&r) is Own,
        !(r.fingerprint matches Some(fp) && normalized_fingerprint(fp@) == b.local_fingerprint@)
            && normalized_mdns_name(without_trailing_dot(r.hostname@)) != b.local_name@
            ==> b.judged(&r) !is Own,
{
}

/// A foreign announcement with an address is news, unless this peer announced
/// the same address, port and key the last time. One without an address, or with
/// one that cannot be read, is neither.
pub proof fn changed_announcements_are_news(b: Browser, r: Resolved, s: Seen)
    requires
        !b.is_own(&r),
        b.seen@.dom().contains(r.key()),
        b.seen@[r.key()] == s,
    ensures
        r.primary is Absent ==> b.judged(&r) is NoPrimary,
        r.primary is Malformed ==> b.judged(&r) is MalformedPrimary,
        r.primary matches PrimaryTxt::Address(ip) ==> (b.judged(&r) is Refresh <==> s.ip == ip
            && s.port == r.port && opt_text(s.fingerprint) == match r.fingerprint {
            Some(fp) => Some(normalized_fingerprint(fp@)),
            None => None,
        }),
        r.primary is Address ==> b.judged(&r) is News || b.judged(&r) is Refresh,
{
}

/// A peer that was never seen before is news.
pub proof fn new_peers_are_news(b: Browser, r: Resolved)
    requires
        !b.is_own(&r),
        r.primary is Address,
        !b.seen@.dom().contains(r.key()),
    ensures
        b.judged(&r) is News,
{
}

/// What is learned of a peer are all its addresses and its primary one, as far
/// as they may be learned.
pub proof fn announced_addresses_are_candidates(r: Resolved, ip: IpAddr)
    ensures
        r.candidates().contains(ip) <==> is_learnable(ip) && (r.addresses@.contains(ip) || (
        r.primary matches PrimaryTxt::Address(p) && p == ip)),
        r.normal_fingerprint() == match r.fingerprint {
            Some(fp) => Some(normalized_fingerprint(fp@)),
            None => None,
        },
{
}

/// The key under which a peer is looked up is the normal form of the name of its
/// instance.
pub proof fn peers_are_looked_up_by_instance(r: Resolved, instance: Seq<char>)
    requires
        r.fullname@ == instance + ("."@ + "_lan-mouse._udp.local."@),
    ensures
        r.key() == normalized_mdns_name(instance),
{
    crate::text::suffix_and_prefix_of_a_sum(instance, "."@ + SERVICE_TYPE@);
}

/// A TXT string holds the key, an equals sign and the value, and has 255 bytes
/// at most.
pub proof fn txt_strings_are_short(key: Seq<char>, value: Seq<char>)
    ensures
        txt_fits(key, value) <==> vstd::utf8::encode_utf8(key).len() + vstd::utf8::encode_utf8(
            value,
        ).len() <= 254,
{
}

/// What is already registered is the same primary address, the same addresses
/// and the same port, as long as there is a registration.
pub proof fn what_is_registered_already(d: Discovery, primary: u32, lan: Seq<u32>)
    ensures
        d.is_current(primary, lan) <==> {
            &&& d.registered_fullname is Some
            &&& d.last_registered_primary == Some(primary)
            &&& d.last_registered_port == Some(d.port)
            &&& d.last_registered_addresses is Some
            &&& forall|ip: IpAddr| #[trigger]
                d.last_registered_addresses->0@.contains(ip) <==> is_learnable(ip) && (ip
                    == IpAddr::V4(primary) || exists|a: u32|
                    ip == IpAddr::V4(a) && #[trigger] lan.contains(a))
        },
{
    if d.last_registered_addresses is Some {
        let ips = d.last_registered_addresses->0@;
        let due = advertised(primary, lan);
        assert forall|ip: IpAddr| #[trigger] due.contains(ip) <==> is_learnable(ip) && (ip
            == IpAddr::V4(primary) || exists|a: u32|
            ip == IpAddr::V4(a) && #[trigger] lan.contains(a)) by {}
        if forall|ip: IpAddr| #[trigger]
            ips.contains(ip) <==> is_learnable(ip) && (ip == IpAddr::V4(primary) || exists|a: u32|
                ip == IpAddr::V4(a) && #[trigger] lan.contains(a)) {
            assert forall|ip: IpAddr| ips.contains(ip) <==> due.contains(ip) by {}
            assert(ips =~= due);
        }
    }
}

/// An announcement is the own one if it has the local key, or if its instance and
/// its host both have the local name; one of the two names is not enough.
pub proof fn what_makes_an_announcement_own(b: Browser, r: Resolved)
    ensures
        b.is_own(&r) <==> (r.fingerprint matches Some(fp) && normalized_fingerprint(fp@)
            == b.local_fingerprint@) || {
            &&& normalized_mdns_name(without_suffix(r.fullname@, "."@ + "_lan-mouse._udp.local."@))
                == b.local_name@
            &&& normalized_mdns_name(without_trailing_dot(r.hostname@)) == b.local_name@
        },
{
}

/// Discovery that was stopped runs no daemon, browses nothing and has nothing
/// registered; the port and the key stay for the next start.
pub proof fn stopped_discovery_has_nothing(before: Discovery, after: Discovery)
    requires
        after.is_stopped_from(before),
    ensures
        !after.running,
        !after.browsing,
        after.registered_fullname is None,
        after.last_registered_primary is None,
        after.last_registered_addresses is None,
        after.last_registered_port is None,
        after.port == before.port,
        after.local_fingerprint == before.local_fingerprint,
{
}

/// An address is remembered of every peer with a key, if it may be learned.
pub proof fn what_is_remembered(fingerprint: Seq<char>, ip: IpAddr)
    ensures
        is_rememberable(fingerprint, ip) <==> is_learnable(ip) && normalized_fingerprint(
            fingerprint,
        ) != Seq::<char>::empty(),
{
    if normalized_fingerprint(fingerprint).len() == 0 {
        assert(normalized_fingerprint(fingerprint) =~= Seq::<char>::empty());
    }
}

} // verus!
