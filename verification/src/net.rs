//! Addresses, and sets of them.
use crate::text::{decimal, decimal_of, hex_digit, join, joined, separated, texts};
use vstd::prelude::*;
use vstd::string::StringExecFns;

verus! {

/// An IP address, held as the number that its octets write.
#[derive(Clone, Copy, Debug, PartialEq, Eq, Structural)]
pub enum IpAddr {
    V4(u32),
    V6(u128),
}

impl View for IpAddr {
    type V = IpAddr;

    open spec fn view(&self) -> IpAddr {
        *self
    }
}

/// An IP address and a port. Addresses of version 6 also have flow information
/// and the number of the interface in whose scope they hold; both are zero for
/// version 4.
#[derive(Clone, Copy, Debug, PartialEq, Eq, Structural)]
pub struct SocketAddr {
    pub ip: IpAddr,
    pub port: u16,
    pub flowinfo: u32,
    pub scope_id: u32,
}

impl View for SocketAddr {
    type V = SocketAddr;

    open spec fn view(&self) -> SocketAddr {
        *self
    }
}

/// The address made of both, without a scope.
pub open spec fn unscoped(ip: IpAddr, port: u16) -> SocketAddr {
    SocketAddr { ip, port, flowinfo: 0, scope_id: 0 }
}

impl SocketAddr {
    /// The address made of both, without a scope.
    pub fn new(ip: IpAddr, port: u16) -> (a: SocketAddr)
        ensures
            a == unscoped(ip, port),
    {
        SocketAddr { ip, port, flowinfo: 0, scope_id: 0 }
    }
}

impl IpAddr {
    /// The order of addresses: version 4 before version 6, and by number.
    pub open spec fn before(self, other: IpAddr) -> bool {
        match (self, other) {
            (IpAddr::V4(a), IpAddr::V4(b)) => a < b,
            (IpAddr::V6(a), IpAddr::V6(b)) => a < b,
            (IpAddr::V4(_), IpAddr::V6(_)) => true,
            (IpAddr::V6(_), IpAddr::V4(_)) => false,
        }
    }

    /// Whether this address comes before the other.
    pub fn is_before(self, other: IpAddr) -> (r: bool)
        ensures
            r == self.before(other),
    {
        match (self, other) {
            (IpAddr::V4(a), IpAddr::V4(b)) => a < b,
            (IpAddr::V6(a), IpAddr::V6(b)) => a < b,
            (IpAddr::V4(_), IpAddr::V6(_)) => true,
            (IpAddr::V6(_), IpAddr::V4(_)) => false,
        }
    }
}

/// The dotted decimal text of a version 4 address.
pub open spec fn dotted(ip: u32) -> Seq<char> {
    decimal((ip / 0x1000000) as nat) + "."@ + decimal(((ip / 0x10000) % 0x100) as nat) + "."@
        + decimal(((ip / 0x100) % 0x100) as nat) + "."@ + decimal((ip % 0x100) as nat)
}

/// The dotted decimal text of a version 4 address.
pub fn dotted_of(ip: u32) -> (s: String)
    ensures
        s@ == dotted(ip),
{
    decimal_of((ip / 0x1000000) as u64).concat(".").concat(
        decimal_of(((ip / 0x10000) % 0x100) as u64).as_str(),
    ).concat(".").concat(decimal_of(((ip / 0x100) % 0x100) as u64).as_str()).concat(".").concat(
        decimal_of((ip % 0x100) as u64).as_str(),
    )
}

/// The hexadecimal digits of `n` in lower case, without leading zeros.
pub open spec fn hexadecimal(n: nat) -> Seq<char>
    decreases n,
{
    if n < 16 {
        seq![hex_digit(n as u8)]
    } else {
        hexadecimal(n / 16).push(hex_digit((n % 16) as u8))
    }
}

/// The hexadecimal digits of `n` in lower case, without leading zeros.
fn hexadecimal_of(n: u16) -> (s: String)
    ensures
        s@ == hexadecimal(n as nat),
    decreases n,
{
    let mut s = if n < 16 {
        String::new()
    } else {
        hexadecimal_of(n / 16)
    };
    let d: u8 = (n % 16) as u8;
    s.push(
        if d < 10 {
            (0x30 + d) as char
        } else {
            (0x57 + d) as char
        },
    );
    assert(s@ =~= hexadecimal(n as nat));
    s
}

/// The eight segments of a version 6 address.
pub open spec fn segments(ip: u128) -> Seq<u16> {
    seq![
        (ip / 0x1_0000_0000_0000_0000_0000_0000_0000) as u16,
        (ip / 0x1_0000_0000_0000_0000_0000_0000 % 0x1_0000) as u16,
        (ip / 0x1_0000_0000_0000_0000_0000 % 0x1_0000) as u16,
        (ip / 0x1_0000_0000_0000_0000 % 0x1_0000) as u16,
        (ip / 0x1_0000_0000_0000 % 0x1_0000) as u16,
        (ip / 0x1_0000_0000 % 0x1_0000) as u16,
        (ip / 0x1_0000 % 0x1_0000) as u16,
        (ip % 0x1_0000) as u16,
    ]
}

/// The eight segments of a version 6 address.
fn segments_of(ip: u128) -> (v: Vec<u16>)
    ensures
        v@ == segments(ip),
{
    let mut v: Vec<u16> = Vec::new();
    v.push((ip / 0x1_0000_0000_0000_0000_0000_0000_0000) as u16);
    v.push((ip / 0x1_0000_0000_0000_0000_0000_0000 % 0x1_0000) as u16);
    v.push((ip / 0x1_0000_0000_0000_0000_0000 % 0x1_0000) as u16);
    v.push((ip / 0x1_0000_0000_0000_0000 % 0x1_0000) as u16);
    v.push((ip / 0x1_0000_0000_0000 % 0x1_0000) as u16);
    v.push((ip / 0x1_0000_0000 % 0x1_0000) as u16);
    v.push((ip / 0x1_0000 % 0x1_0000) as u16);
    v.push((ip % 0x1_0000) as u16);
    assert(v@ =~= segments(ip));
    v
}

/// How many segments in a row are zero from `i` on.
pub open spec fn zeros_at(s: Seq<u16>, i: int) -> int
    decreases s.len() - i,
{
    if 0 <= i < s.len() && s[i] == 0 {
        1 + zeros_at(s, i + 1)
    } else {
        0
    }
}

/// The first of the places in front of `n` from which on the most segments in
/// a row are zero.
pub open spec fn longest_zeros(s: Seq<u16>, n: int) -> int
    decreases n,
{
    if n <= 1 {
        0
    } else {
        let best = longest_zeros(s, n - 1);
        if zeros_at(s, n - 1) > zeros_at(s, best) {
            n - 1
        } else {
            best
        }
    }
}

/// Segments in hexadecimal, with colons between them.
pub open spec fn colon_text(s: Seq<u16>) -> Seq<char> {
    separated(s.map_values(|n: u16| hexadecimal(n as nat)), ":"@)
}

/// The text of a version 6 address: one that stands for a version 4 address
/// ends in the text of that, and of the others the longest row of two or more
/// zero segments is left out.
pub open spec fn v6_text(ip: u128) -> Seq<char> {
    let s = segments(ip);
    let at = longest_zeros(s, 8);
    let n = zeros_at(s, at);
    if ip / 0x1_0000_0000 == 0xffff {
        "::ffff:"@ + dotted((ip % 0x1_0000_0000) as u32)
    } else if n > 1 {
        colon_text(s.take(at)) + "::"@ + colon_text(s.skip(at + n))
    } else {
        colon_text(s)
    }
}

fn count_zeros(v: &Vec<u16>, i: usize) -> (n: usize)
    requires
        i <= v@.len(),
    ensures
        n == zeros_at(v@, i as int),
        i + n <= v@.len(),
    decreases v@.len() - i,
{
    if i < v.len() && v[i] == 0 {
        1 + count_zeros(v, i + 1)
    } else {
        0
    }
}

fn colon_text_of(v: &Vec<u16>, from: usize, to: usize) -> (s: String)
    requires
        from <= to <= v@.len(),
    ensures
        s@ == colon_text(v@.subrange(from as int, to as int)),
{
    let ghost part = v@.subrange(from as int, to as int);
    let mut parts: Vec<String> = Vec::new();
    let mut i: usize = from;
    while i < to
        invariant
            from <= i <= to <= v@.len(),
            part == v@.subrange(from as int, to as int),
            parts@.len() == i - from,
            forall|j: int|
                0 <= j < i - from ==> (#[trigger] parts@[j])@ == hexadecimal(part[j] as nat),
        decreases to - i,
    {
        parts.push(hexadecimal_of(v[i]));
        i = i + 1;
    }
    assert(texts(parts@) =~= part.map_values(|n: u16| hexadecimal(n as nat)));
    join(&parts, ":")
}

impl IpAddr {
    /// The text of an address.
    pub open spec fn text(self) -> Seq<char> {
        match self {
            IpAddr::V4(ip) => dotted(ip),
            IpAddr::V6(ip) => v6_text(ip),
        }
    }

    /// The text of an address.
    pub fn to_text(self) -> (s: String)
        ensures
            s@ == self.text(),
    {
        let ip: u128 = match self {
            IpAddr::V4(ip) => return dotted_of(ip),
            IpAddr::V6(ip) => ip,
        };
        if ip / 0x1_0000_0000 == 0xffff {
            return joined("::ffff:", dotted_of((ip % 0x1_0000_0000) as u32).as_str());
        }
        let v = segments_of(ip);
        let mut at: usize = 0;
        let mut n: usize = count_zeros(&v, 0);
        let mut i: usize = 1;
        while i < 8
            invariant
                1 <= i <= 8,
                v@.len() == 8,
                at == longest_zeros(v@, i as int),
                n == zeros_at(v@, at as int),
                at + n <= 8,
            decreases 8 - i,
        {
            let m: usize = count_zeros(&v, i);
            if m > n {
                at = i;
                n = m;
            }
            i = i + 1;
        }
        if n > 1 {
            assert(v@.subrange(0, at as int) =~= v@.take(at as int));
            assert(v@.subrange(at + n, 8) =~= v@.skip(at + n));
            joined(
                joined(colon_text_of(&v, 0, at).as_str(), "::").as_str(),
                colon_text_of(&v, at + n, 8).as_str(),
            )
        } else {
            assert(v@.subrange(0, 8) =~= v@);
            colon_text_of(&v, 0, 8)
        }
    }
}

impl SocketAddr {
    /// The text of an address with its port. The address stands in brackets
    /// where it has colons of its own, together with its scope, if it has one.
    pub open spec fn text(self) -> Seq<char> {
        match self.ip {
            IpAddr::V4(_) => self.ip.text() + ":"@ + decimal(self.port as nat),
            IpAddr::V6(_) => "["@ + self.ip.text() + (if self.scope_id == 0 {
                seq![]
            } else {
                "%"@ + decimal(self.scope_id as nat)
            }) + "]:"@ + decimal(self.port as nat),
        }
    }

    /// The text of an address with its port.
    pub fn to_text(self) -> (s: String)
        ensures
            s@ == self.text(),
    {
        let mut s = String::new();
        match self.ip {
            IpAddr::V4(_) => {
                s.append(self.ip.to_text().as_str());
                s.append(":");
            },
            IpAddr::V6(_) => {
                s.append("[");
                s.append(self.ip.to_text().as_str());
                if self.scope_id != 0 {
                    s.append("%");
                    s.append(decimal_of(self.scope_id as u64).as_str());
                }
                s.append("]:");
            },
        }
        s.append(decimal_of(self.port as u64).as_str());
        assert(s@ =~= self.text());
        s
    }
}

/// The texts of addresses.
pub open spec fn ip_texts(ips: Seq<IpAddr>) -> Seq<Seq<char>> {
    ips.map_values(|ip: IpAddr| ip.text())
}

/// The texts of addresses.
pub(crate) fn ip_texts_of(ips: &Vec<IpAddr>) -> (r: Vec<String>)
    ensures
        texts(r@) == ip_texts(ips@),
{
    let mut r: Vec<String> = Vec::new();
    let mut i: usize = 0;
    while i < ips.len()
        invariant
            i <= ips@.len(),
            r@.len() == i,
            forall|j: int| 0 <= j < i ==> (#[trigger] r@[j])@ == ips@[j].text(),
        decreases ips@.len() - i,
    {
        r.push(ips[i].to_text());
        i = i + 1;
    }
    assert(texts(r@) =~= ip_texts(ips@));
    r
}

/// Whether the addresses stand in ascending order, each once.
pub open spec fn ascending(s: Seq<IpAddr>) -> bool {
    forall|i: int, j: int| 0 <= i < j < s.len() ==> (#[trigger] s[i]).before(#[trigger] s[j])
}

/// A set of addresses, as the ascending list of them.
pub struct IpSet {
    pub ips: Vec<IpAddr>,
}

impl View for IpSet {
    type V = Set<IpAddr>;

    open spec fn view(&self) -> Set<IpAddr> {
        self.ips@.to_set()
    }
}

impl IpSet {
    /// Whether the list is ascending.
    pub open spec fn wf(&self) -> bool {
        ascending(self.ips@)
    }

    /// The empty set.
    pub fn new() -> (s: IpSet)
        ensures
            s.wf(),
            s@ == Set::<IpAddr>::empty(),
    {
        let s = IpSet { ips: Vec::new() };
        assert(s@ =~= Set::<IpAddr>::empty());
        s
    }

    /// Whether both sets hold the same addresses.
    pub fn same(&self, other: &IpSet) -> (r: bool)
        requires
            self.wf(),
            other.wf(),
        ensures
            r == (self@ == other@),
    {
        proof {
            if self@ == other@ {
                ascending_lists_are_unique(self.ips@, other.ips@);
            }
        }
        if self.ips.len() != other.ips.len() {
            return false;
        }
        let mut i: usize = 0;
        while i < self.ips.len()
            invariant
                i <= self.ips@.len(),
                self.ips@.len() == other.ips@.len(),
                self@ == other@ ==> self.ips@ == other.ips@,
                forall|j: int| 0 <= j < i ==> self.ips@[j] == other.ips@[j],
            decreases self.ips@.len() - i,
        {
            if self.ips[i] != other.ips[i] {
                return false;
            }
            i = i + 1;
        }
        assert(self.ips@ =~= other.ips@);
        true
    }

    /// Whether the set is empty.
    pub fn is_empty(&self) -> (r: bool)
        ensures
            r == (self@ == Set::<IpAddr>::empty()),
    {
        proof {
            if self.ips@.len() == 0 {
                assert(self@ =~= Set::<IpAddr>::empty());
            } else {
                assert(self@.contains(self.ips@[0]));
            }
        }
        self.ips.len() == 0
    }

    /// Whether the address is in the set.
    pub fn contains(&self, ip: IpAddr) -> (r: bool)
        ensures
            r == self@.contains(ip),
    {
        let mut i: usize = 0;
        while i < self.ips.len()
            invariant
                i <= self.ips@.len(),
                forall|j: int| 0 <= j < i ==> self.ips@[j] != ip,
            decreases self.ips@.len() - i,
        {
            if self.ips[i] == ip {
                assert(self.ips@.contains(self.ips@[i as int]));
                return true;
            }
            i = i + 1;
        }
        false
    }

    /// Puts the address into the set.
    pub fn insert(&mut self, ip: IpAddr)
        requires
            old(self).wf(),
        ensures
            final(self).wf(),
            final(self)@ == old(self)@.insert(ip),
    {
        let ghost before = self.ips@;
        let mut i: usize = 0;
        while i < self.ips.len() && self.ips[i].is_before(ip)
            invariant
                i <= self.ips@.len(),
                self.ips@ == before,
                forall|j: int| 0 <= j < i ==> (#[trigger] self.ips@[j]).before(ip),
            decreases self.ips@.len() - i,
        {
            i = i + 1;
        }
        if i < self.ips.len() && self.ips[i] == ip {
            assert(before.contains(before[i as int]));
            assert(before.to_set().insert(ip) =~= before.to_set());
        } else {
            self.ips.insert(i, ip);
            proof {
                lemma_inserted(before, i as int, ip);
            }
        }
    }

    /// Puts every address of the other set into this one.
    pub fn extend(&mut self, other: &IpSet)
        requires
            old(self).wf(),
        ensures
            final(self).wf(),
            final(self)@ == old(self)@.union(other@),
    {
        self.extend_from(&other.ips);
    }

    /// Puts every address of the list into the set.
    pub fn extend_from(&mut self, other: &Vec<IpAddr>)
        requires
            old(self).wf(),
        ensures
            final(self).wf(),
            final(self)@ == old(self)@.union(other@.to_set()),
    {
        let ghost before = self@;
        let mut i: usize = 0;
        assert(before.union(other@.take(0).to_set()) =~= before);
        while i < other.len()
            invariant
                i <= other@.len(),
                self.wf(),
                self@ == before.union(other@.take(i as int).to_set()),
            decreases other@.len() - i,
        {
            self.insert(other[i]);
            proof {
                lemma_take_set(other@, i as int);
            }
            i = i + 1;
        }
        assert(other@.take(other@.len() as int) =~= other@);
    }

    /// A set of the same addresses.
    pub fn copy(&self) -> (s: IpSet)
        requires
            self.wf(),
        ensures
            s.wf(),
            s@ == self@,
            s.ips@ == self.ips@,
    {
        let mut ips: Vec<IpAddr> = Vec::new();
        let mut i: usize = 0;
        while i < self.ips.len()
            invariant
                i <= self.ips@.len(),
                ips@ == self.ips@.take(i as int),
            decreases self.ips@.len() - i,
        {
            ips.push(self.ips[i]);
            i = i + 1;
        }
        assert(ips@ =~= self.ips@);
        IpSet { ips }
    }
}

/// The first `i + 1` elements are the first `i` and the next one.
pub proof fn lemma_take_set<T>(s: Seq<T>, i: int)
    requires
        0 <= i < s.len(),
    ensures
        s.take(i + 1).to_set() == s.take(i).to_set().insert(s[i]),
{
    assert(s.take(i + 1) =~= s.take(i).push(s[i]));
    assert forall|x: T| s.take(i + 1).to_set().contains(x) <==> s.take(i).to_set().insert(
        s[i],
    ).contains(x) by {
        if s.take(i).contains(x) {
            let j = choose|j: int| 0 <= j < s.take(i).len() && s.take(i)[j] == x;
            assert(s.take(i + 1)[j] == x);
        }
        assert(s.take(i + 1)[i] == s[i]);
    }
    assert(s.take(i + 1).to_set() =~= s.take(i).to_set().insert(s[i]));
}

/// The first `i + 1` elements are the first `i` and the next one.
pub proof fn lemma_take_contains<T>(s: Seq<T>, i: int, x: T)
    requires
        0 <= i < s.len(),
    ensures
        s.take(i + 1).contains(x) <==> s.take(i).contains(x) || x == s[i],
{
    lemma_take_set(s, i);
    assert(s.take(i + 1).to_set().contains(x) <==> s.take(i).to_set().insert(s[i]).contains(x));
}

proof fn lemma_inserted(before: Seq<IpAddr>, i: int, ip: IpAddr)
    requires
        ascending(before),
        0 <= i <= before.len(),
        forall|j: int| 0 <= j < i ==> (#[trigger] before[j]).before(ip),
        i < before.len() ==> !before[i].before(ip) && before[i] != ip,
    ensures
        ascending(before.insert(i, ip)),
        before.insert(i, ip).to_set() == before.to_set().insert(ip),
{
    let after = before.insert(i, ip);
    assert forall|a: int, b: int| 0 <= a < b < after.len() implies (#[trigger] after[a]).before(
        #[trigger] after[b],
    ) by {
        if a == i {
            assert(after[b] == before[b - 1]);
            if b - 1 > i {
                assert(before[i].before(before[b - 1]));
            }
        } else if b == i {
            assert(after[a] == before[a]);
        } else {
            let a2 = if a < i { a } else { a - 1 };
            let b2 = if b < i { b } else { b - 1 };
            assert(after[a] == before[a2]);
            assert(after[b] == before[b2]);
        }
    }
    assert forall|x: IpAddr| after.to_set().contains(x) <==> before.to_set().insert(
        ip,
    ).contains(x) by {
        if after.contains(x) {
            let j = choose|j: int| 0 <= j < after.len() && after[j] == x;
            if j < i {
                assert(before[j] == x);
            } else if j > i {
                assert(before[j - 1] == x);
            }
        }
        if before.contains(x) {
            let j = choose|j: int| 0 <= j < before.len() && before[j] == x;
            let j2 = if j < i { j } else { j + 1 };
            assert(after[j2] == x);
        }
        assert(after[i] == ip);
    }
    assert(after.to_set() =~= before.to_set().insert(ip));
}

/// Two ascending lists of the same addresses are the same list.
pub proof fn ascending_lists_are_unique(a: Seq<IpAddr>, b: Seq<IpAddr>)
    requires
        ascending(a),
        ascending(b),
        a.to_set() == b.to_set(),
    ensures
        a == b,
    decreases a.len(),
{
    if a.len() == 0 {
        if b.len() > 0 {
            assert(b.to_set().contains(b[0]));
            assert(a.to_set().contains(b[0]));
        }
        assert(a =~= b);
    } else {
        assert(a.to_set().contains(a.last()));
        assert(b.to_set().contains(a.last()));
        let i = choose|i: int| 0 <= i < b.len() && b[i] == a.last();
        assert(b.to_set().contains(b.last()));
        assert(a.to_set().contains(b.last()));
        let j = choose|j: int| 0 <= j < a.len() && a[j] == b.last();
        if i < b.len() - 1 {
            assert(b[i].before(b[b.len() - 1]));
            if j < a.len() - 1 {
                assert(a[j].before(a[a.len() - 1]));
            }
            assert(false);
        }
        let a1 = a.drop_last();
        let b1 = b.drop_last();
        assert forall|x: IpAddr| a1.to_set().contains(x) <==> b1.to_set().contains(x) by {
            if a1.contains(x) {
                let k = choose|k: int| 0 <= k < a1.len() && a1[k] == x;
                assert(a[k].before(a[a.len() - 1]));
                assert(a.to_set().contains(a[k]));
                assert(b.to_set().contains(x));
                let m = choose|m: int| 0 <= m < b.len() && b[m] == x;
                assert(b1[m] == x);
            }
            if b1.contains(x) {
                let k = choose|k: int| 0 <= k < b1.len() && b1[k] == x;
                assert(b[k].before(b[b.len() - 1]));
                assert(b.to_set().contains(b[k]));
                assert(a.to_set().contains(x));
                let m = choose|m: int| 0 <= m < a.len() && a[m] == x;
                assert(a1[m] == x);
            }
        }
        assert(a1.to_set() =~= b1.to_set());
        ascending_lists_are_unique(a1, b1);
        assert(a =~= a1.push(a.last()));
        assert(b =~= b1.push(b.last()));
    }
}

/// The ascending list of the addresses of a set.
pub open spec fn listed_ascending(ips: Set<IpAddr>) -> Seq<IpAddr> {
    choose|s: Seq<IpAddr>| ascending(s) && #[trigger] s.to_set() == ips
}

/// The list of a set of addresses is the ascending one.
pub proof fn lemma_listed(s: Seq<IpAddr>)
    requires
        ascending(s),
    ensures
        listed_ascending(s.to_set()) == s,
{
    let t = listed_ascending(s.to_set());
    assert(ascending(t) && t.to_set() == s.to_set());
    ascending_lists_are_unique(s, t);
}

/// Every list of addresses has an ascending list of the same addresses.
pub proof fn lemma_sorted(s: Seq<IpAddr>)
    ensures
        ascending(listed_ascending(s.to_set())),
        listed_ascending(s.to_set()).to_set() == s.to_set(),
    decreases s.len(),
{
    if s.len() == 0 {
        assert(ascending(s));
        assert(s.to_set() == s.to_set());
    } else {
        let rest = s.drop_last();
        lemma_sorted(rest);
        let t = lemma_put(listed_ascending(rest.to_set()), s.last());
        assert forall|x: IpAddr| t.to_set().contains(x) <==> s.to_set().contains(x) by {
            if s.contains(x) {
                let i = choose|i: int| 0 <= i < s.len() && s[i] == x;
                if i < rest.len() {
                    assert(rest[i] == x);
                    assert(rest.to_set().contains(x));
                }
            }
            if rest.to_set().contains(x) {
                let i = choose|i: int| 0 <= i < rest.len() && rest[i] == x;
                assert(s[i] == x);
            }
            assert(s[s.len() - 1] == s.last());
        }
        assert(t.to_set() =~= s.to_set());
    }
}

proof fn lemma_put(s: Seq<IpAddr>, x: IpAddr) -> (t: Seq<IpAddr>)
    requires
        ascending(s),
    ensures
        ascending(t),
        forall|y: IpAddr| #[trigger] t.to_set().contains(y) <==> s.to_set().contains(y) || y == x,
    decreases s.len(),
{
    if s.len() == 0 || s.last().before(x) {
        let t = s.push(x);
        assert forall|y: IpAddr| #[trigger] t.to_set().contains(y) <==> s.to_set().contains(y) || y
            == x by {
            if s.contains(y) {
                let i = choose|i: int| 0 <= i < s.len() && s[i] == y;
                assert(t[i] == y);
            }
            assert(t[s.len() as int] == x);
        }
        t
    } else if s.last() == x {
        assert(s[s.len() - 1] == x);
        s
    } else {
        let rest = s.drop_last();
        let r = lemma_put(rest, x);
        let t = r.push(s.last());
        assert forall|i: int| 0 <= i < r.len() implies (#[trigger] r[i]).before(s.last()) by {
            assert(r.to_set().contains(r[i]));
            if rest.to_set().contains(r[i]) {
                let j = choose|j: int| 0 <= j < rest.len() && rest[j] == r[i];
                assert(s[j].before(s[s.len() - 1]));
            }
        }
        assert forall|y: IpAddr| #[trigger] t.to_set().contains(y) <==> s.to_set().contains(y) || y
            == x by {
            if s.contains(y) {
                let i = choose|i: int| 0 <= i < s.len() && s[i] == y;
                if i < rest.len() {
                    assert(rest[i] == y);
                    assert(rest.to_set().contains(y));
                    assert(r.to_set().contains(y));
                }
            }
            if r.contains(y) {
                let i = choose|i: int| 0 <= i < r.len() && r[i] == y;
                assert(t[i] == y);
                assert(r.to_set().contains(y));
                if rest.to_set().contains(y) {
                    let k = choose|k: int| 0 <= k < rest.len() && rest[k] == y;
                    assert(s[k] == y);
                }
            }
            assert(r.to_set().contains(x));
            assert(t[r.len() as int] == s.last());
            assert(s[s.len() - 1] == s.last());
            if t.contains(y) {
                let i = choose|i: int| 0 <= i < t.len() && t[i] == y;
                if i < r.len() {
                    assert(r[i] == y);
                }
            }
        }
        t
    }
}

/// Addresses are ordered by version and then by number: of two different ones
/// exactly one comes before the other, none comes before itself, and an address
/// of version 4 comes before every one of version 6.
pub proof fn addresses_are_ordered(a: IpAddr, b: IpAddr, c: IpAddr)
    ensures
        !a.before(a),
        a != b ==> a.before(b) != b.before(a),
        a.before(b) && b.before(c) ==> a.before(c),
        a is V4 && b is V6 ==> a.before(b),
        a matches IpAddr::V4(m) ==> (b matches IpAddr::V4(n) ==> (a.before(b) <==> m < n)),
        a matches IpAddr::V6(m) ==> (b matches IpAddr::V6(n) ==> (a.before(b) <==> m < n)),
{
}

/// An address of version 4 is written as its four octets in decimal, the most
/// significant one first, with dots between them.
pub proof fn octets_are_written_in_order(a: u8, b: u8, c: u8, d: u8, ip: u32)
    requires
        ip == a * 0x1000000 + b * 0x10000 + c * 0x100 + d,
    ensures
        IpAddr::V4(ip).text() == decimal(a as nat) + "."@ + decimal(b as nat) + "."@ + decimal(
            c as nat,
        ) + "."@ + decimal(d as nat),
{
    assert(ip / 0x1000000 == a);
    assert((ip / 0x10000) % 0x100 == b);
    assert((ip / 0x100) % 0x100 == c);
    assert(ip % 0x100 == d);
}

/// The segments of an address of version 6 are its eight groups of 16 bits, the
/// most significant one first.
#[verifier::rlimit(40)]
pub proof fn segments_make_up_the_address(ip: u128)
    ensures
        segments(ip).len() == 8,
        ip == segments(ip)[0] * 0x1_0000_0000_0000_0000_0000_0000_0000 + segments(ip)[1]
            * 0x1_0000_0000_0000_0000_0000_0000 + segments(ip)[2] * 0x1_0000_0000_0000_0000_0000
            + segments(ip)[3] * 0x1_0000_0000_0000_0000 + segments(ip)[4] * 0x1_0000_0000_0000
            + segments(ip)[5] * 0x1_0000_0000 + segments(ip)[6] * 0x1_0000 + segments(ip)[7],
{
    let n = ip as int;
    let n1 = n / 0x1_0000;
    let n2 = n1 / 0x1_0000;
    let n3 = n2 / 0x1_0000;
    let n4 = n3 / 0x1_0000;
    let n5 = n4 / 0x1_0000;
    let n6 = n5 / 0x1_0000;
    let n7 = n6 / 0x1_0000;
    assert(n / 0x1_0000_0000 == n2);
    assert(n / 0x1_0000_0000_0000 == n3);
    assert(n / 0x1_0000_0000_0000_0000 == n4);
    assert(n / 0x1_0000_0000_0000_0000_0000 == n5);
    assert(n / 0x1_0000_0000_0000_0000_0000_0000 == n6);
    assert(n / 0x1_0000_0000_0000_0000_0000_0000_0000 == n7);
    assert(n7 < 0x1_0000);
}

/// Hexadecimal digits write the number that they stand for, in small letters,
/// and without a zero in front of a number that is not zero.
pub proof fn hexadecimal_is_read_back(n: nat)
    ensures
        crate::text::all_digits(hexadecimal(n), 16),
        crate::text::number_of(hexadecimal(n), 16) == n,
        hexadecimal(n).len() > 0,
        n > 0 ==> hexadecimal(n)[0] != '0',
        forall|i: int|
            0 <= i < hexadecimal(n).len() ==> !('A' <= #[trigger] hexadecimal(n)[i] <= 'Z'),
    decreases n,
{
    reveal_with_fuel(crate::text::number_of, 2);
    if n >= 16 {
        hexadecimal_is_read_back(n / 16);
        let s = hexadecimal(n);
        assert(s.drop_last() =~= hexadecimal(n / 16));
        assert forall|i: int| 0 <= i < s.len() implies crate::text::digit_value(
            #[trigger] s[i],
            16,
        ) is Some && !('A' <= s[i] <= 'Z') by {
            if i < s.len() - 1 {
                assert(s[i] == hexadecimal(n / 16)[i]);
            }
        }
        assert(s[0] == hexadecimal(n / 16)[0]);
    } else {
        let s = hexadecimal(n);
        assert(s.drop_last() =~= Seq::<char>::empty());
    }
}

proof fn lemma_zeros_at(s: Seq<u16>, i: int)
    requires
        0 <= i <= s.len(),
    ensures
        0 <= zeros_at(s, i) <= s.len() - i,
        forall|j: int| i <= j < i + zeros_at(s, i) ==> #[trigger] s[j] == 0,
        i + zeros_at(s, i) < s.len() ==> s[i + zeros_at(s, i)] != 0,
    decreases s.len() - i,
{
    if i < s.len() && s[i] == 0 {
        lemma_zeros_at(s, i + 1);
    }
}

/// What is left out of the text of an address of version 6 is the longest row of
/// zero segments, and the first, if there are several: all of it is zero, it
/// does not go on, no row is longer, and none in front of it is as long.
pub proof fn longest_row_of_zeros_is_left_out(s: Seq<u16>, n: int, i: int)
    requires
        0 < n <= s.len(),
        0 <= i < n,
    ensures
        0 <= longest_zeros(s, n) < n,
        zeros_at(s, i) <= zeros_at(s, longest_zeros(s, n)),
        i < longest_zeros(s, n) ==> zeros_at(s, i) < zeros_at(s, longest_zeros(s, n)),
        forall|j: int|
            longest_zeros(s, n) <= j < longest_zeros(s, n) + zeros_at(s, longest_zeros(s, n))
                ==> #[trigger] s[j] == 0,
        longest_zeros(s, n) + zeros_at(s, longest_zeros(s, n)) < s.len() ==> s[longest_zeros(s, n)
            + zeros_at(s, longest_zeros(s, n))] != 0,
    decreases n,
{
    if n > 1 {
        longest_row_of_zeros_is_left_out(s, n - 1, if i < n - 1 { i } else { 0 });
    }
    lemma_zeros_at(s, longest_zeros(s, n));
}

/// The text of an address of version 6 shows the segments in hexadecimal with
/// colons between them, and a double colon for the row of zeros that is left
/// out, if that is longer than one.
pub proof fn v6_text_shows_the_segments(ip: u128)
    requires
        ip / 0x1_0000_0000 != 0xffff,
    ensures
        ({
            let s = segments(ip);
            let at = longest_zeros(s, 8);
            let n = zeros_at(s, at);
            &&& n > 1 ==> IpAddr::V6(ip).text() == colon_text(s.take(at)) + "::"@ + colon_text(
                s.skip(at + n),
            )
            &&& n <= 1 ==> IpAddr::V6(ip).text() == colon_text(s)
        }),
{
}

/// An address with a port shows both; where the address has colons of its own,
/// it stands in brackets, with its scope behind a percent sign, if it has one.
pub proof fn socket_address_shows_its_parts(ip: IpAddr, port: u16, scope_id: u32)
    ensures
        ip is V4 ==> unscoped(ip, port).text() == ip.text() + ":"@ + decimal(port as nat),
        ip is V6 ==> unscoped(ip, port).text() == "["@ + ip.text() + "]:"@ + decimal(port as nat),
        ip is V6 && scope_id != 0 ==> (SocketAddr { ip, port, flowinfo: 0, scope_id }).text()
            == "["@ + ip.text() + "%"@ + decimal(scope_id as nat) + "]:"@ + decimal(port as nat),
{
    let a = unscoped(ip, port);
    let b = SocketAddr { ip, port, flowinfo: 0, scope_id };
    if ip is V6 {
        assert(a.text() =~= "["@ + ip.text() + "]:"@ + decimal(port as nat));
        if scope_id != 0 {
            assert(b.text() =~= "["@ + ip.text() + "%"@ + decimal(scope_id as nat) + "]:"@
                + decimal(port as nat));
        }
    }
}

} // verus!
