//! A map for keys that are compared, not hashed.
use crate::net::{IpAddr, SocketAddr};
use crate::text::same;
use vstd::prelude::*;

verus! {

/// A key that can be told apart from another by what it stands for.
pub trait Key: View + Sized {
    /// Whether both stand for the same.
    fn same_key(&self, other: &Self) -> (r: bool)
        ensures
            r == (self@ == other@),
    ;
}

impl Key for String {
    fn same_key(&self, other: &Self) -> (r: bool) {
        same(self.as_str(), other.as_str())
    }
}

impl Key for u64 {
    fn same_key(&self, other: &Self) -> (r: bool) {
        *self == *other
    }
}

impl Key for u32 {
    fn same_key(&self, other: &Self) -> (r: bool) {
        *self == *other
    }
}

impl Key for IpAddr {
    fn same_key(&self, other: &Self) -> (r: bool) {
        *self == *other
    }
}

impl Key for SocketAddr {
    fn same_key(&self, other: &Self) -> (r: bool) {
        *self == *other
    }
}

/// Where `k` stands among the keys of `entries`.
pub open spec fn holds_at<K: Key, V>(entries: Seq<(K, V)>, k: K::V, i: int) -> bool {
    0 <= i < entries.len() && entries[i].0@ == k
}

/// Whether no key stands twice in `entries`.
pub open spec fn distinct_keys<K: Key, V>(entries: Seq<(K, V)>) -> bool {
    forall|i: int, j: int|
        0 <= i < j < entries.len() ==> (#[trigger] entries[i]).0@ != (#[trigger] entries[j]).0@
}

/// The map that `entries` list.
pub open spec fn map_of<K: Key, V>(entries: Seq<(K, V)>) -> Map<K::V, V> {
    Map::new(
        |k: K::V| exists|i: int| #[trigger] holds_at(entries, k, i),
        |k: K::V| entries[choose|i: int| #[trigger] holds_at(entries, k, i)].1,
    )
}

/// The keys of `entries`, in their order.
pub open spec fn keys_of<K: Key, V>(entries: Seq<(K, V)>) -> Seq<K::V> {
    entries.map_values(|e: (K, V)| e.0@)
}

/// A map as a list of its entries, in the order in which their keys came.
pub struct AssocMap<K: Key, V> {
    pub entries: Vec<(K, V)>,
}

impl<K: Key, V> View for AssocMap<K, V> {
    type V = Map<K::V, V>;

    open spec fn view(&self) -> Map<K::V, V> {
        map_of(self.entries@)
    }
}

/// An entry is what the map holds for its key.
pub proof fn lemma_entry<K: Key, V>(entries: Seq<(K, V)>, i: int)
    requires
        distinct_keys(entries),
        0 <= i < entries.len(),
    ensures
        map_of(entries).dom().contains(entries[i].0@),
        map_of(entries)[entries[i].0@] == entries[i].1,
{
    let k = entries[i].0@;
    assert(holds_at(entries, k, i));
    let j = choose|j: int| #[trigger] holds_at(entries, k, j);
    assert(i == j);
}

/// A key of the map stands in some entry.
pub proof fn lemma_key<K: Key, V>(entries: Seq<(K, V)>, k: K::V) -> (i: int)
    requires
        distinct_keys(entries),
        map_of(entries).dom().contains(k),
    ensures
        0 <= i < entries.len(),
        entries[i].0@ == k,
        map_of(entries)[k] == entries[i].1,
{
    let i = choose|i: int| #[trigger] holds_at(entries, k, i);
    lemma_entry(entries, i);
    i
}

impl<K: Key, V> AssocMap<K, V> {
    /// Whether no key stands in two entries.
    pub open spec fn wf(&self) -> bool {
        distinct_keys(self.entries@)
    }

    /// The keys, in the order in which they came.
    pub open spec fn keys(&self) -> Seq<K::V> {
        keys_of(self.entries@)
    }

    /// The empty map.
    pub fn new() -> (m: Self)
        ensures
            m.wf(),
            m.entries@ == Seq::<(K, V)>::empty(),
            m@ == Map::<K::V, V>::empty(),
    {
        let m = AssocMap { entries: Vec::new() };
        assert(m@ =~= Map::<K::V, V>::empty());
        m
    }

    /// The index of the entry of `k`; the number of entries, if there is none.
    fn find(&self, k: &K) -> (i: usize)
        requires
            self.wf(),
        ensures
            i <= self.entries@.len(),
            i < self.entries@.len() ==> self.entries@[i as int].0@ == k@
                && self@.dom().contains(k@) && self@[k@] == self.entries@[i as int].1,
            i == self.entries@.len() ==> !self@.dom().contains(k@),
    {
        let mut i: usize = 0;
        while i < self.entries.len()
            invariant
                self.wf(),
                i <= self.entries@.len(),
                forall|j: int| 0 <= j < i ==> (#[trigger] self.entries@[j]).0@ != k@,
            decreases self.entries@.len() - i,
        {
            if self.entries[i].0.same_key(k) {
                proof {
                    lemma_entry(self.entries@, i as int);
                }
                return i;
            }
            i = i + 1;
        }
        proof {
            if self@.dom().contains(k@) {
                let j = lemma_key(self.entries@, k@);
                assert(self.entries@[j].0@ == k@);
            }
        }
        i
    }

    /// The value of `k`.
    pub fn get(&self, k: &K) -> (r: Option<&V>)
        requires
            self.wf(),
        ensures
            match r {
                Some(v) => self@.dom().contains(k@) && *v == self@[k@],
                None => !self@.dom().contains(k@),
            },
    {
        let i: usize = self.find(k);
        if i < self.entries.len() {
            Some(&self.entries[i].1)
        } else {
            None
        }
    }

    /// The value of `k`, to be changed in place.
    pub fn get_mut(&mut self, k: &K) -> (r: Option<&mut V>)
        requires
            old(self).wf(),
        ensures
            final(self).wf(),
            final(self).keys() == old(self).keys(),
            match r {
                Some(v) => old(self)@.dom().contains(k@) && *v == old(self)@[k@] && final(self)@
                    == old(self)@.insert(k@, *final(v)),
                None => !old(self)@.dom().contains(k@) && final(self)@ == old(self)@,
            },
    {
        let i: usize = self.find(k);
        if i < self.entries.len() {
            let ghost before = self.entries@;
            let v = &mut self.entries[i].1;
            proof {
                lemma_updated(before, i as int, (before[i as int].0, *final(v)));
                assert(keys_of(before.update(i as int, (before[i as int].0, *final(v))))
                    =~= keys_of(before));
            }
            Some(v)
        } else {
            None
        }
    }

    /// Whether there is a value for `k`.
    pub fn contains_key(&self, k: &K) -> (r: bool)
        requires
            self.wf(),
        ensures
            r == self@.dom().contains(k@),
    {
        self.find(k) < self.entries.len()
    }

    /// Sets the value of `k`.
    pub fn insert(&mut self, k: K, v: V)
        requires
            old(self).wf(),
        ensures
            final(self).wf(),
            final(self)@ == old(self)@.insert(k@, v),
            final(self).keys() == if old(self)@.dom().contains(k@) {
                old(self).keys()
            } else {
                old(self).keys().push(k@)
            },
    {
        let i: usize = self.find(&k);
        let ghost before = self.entries@;
        let ghost key = k@;
        if i < self.entries.len() {
            self.entries[i] = (k, v);
            proof {
                lemma_updated(before, i as int, (k, v));
                assert(self.keys() =~= keys_of(before));
            }
        } else {
            self.entries.push((k, v));
            proof {
                lemma_pushed(before, (k, v));
                assert(self.keys() =~= keys_of(before).push(k@));
            }
        }
    }

    /// Takes the entry of `k` out, and returns its value.
    pub fn remove(&mut self, k: &K) -> (r: Option<V>)
        requires
            old(self).wf(),
        ensures
            final(self).wf(),
            final(self)@ == old(self)@.remove(k@),
            final(self).keys() == old(self).keys().filter(|x: K::V| x != k@),
            match r {
                Some(v) => old(self)@.dom().contains(k@) && v == old(self)@[k@],
                None => !old(self)@.dom().contains(k@),
            },
    {
        let i: usize = self.find(k);
        let ghost before = self.entries@;
        if i < self.entries.len() {
            let (_, v) = self.entries.remove(i);
            proof {
                lemma_removed(before, i as int);
                lemma_distinct_keys(before);
                lemma_filter_one(keys_of(before), i as int);
                assert(self.keys() =~= keys_of(before).remove(i as int));
            }
            Some(v)
        } else {
            assert(self@ =~= old(self)@.remove(k@));
            proof {
                assert forall|j: int| 0 <= j < keys_of(before).len() implies keys_of(before)[j]
                    != k@ by {
                    lemma_entry(before, j);
                }
                lemma_filter_all(keys_of(before), k@);
            }
            None
        }
    }
}

proof fn lemma_distinct_keys<K: Key, V>(entries: Seq<(K, V)>)
    requires
        distinct_keys(entries),
    ensures
        keys_of(entries).no_duplicates(),
{
    let keys = keys_of(entries);
    assert forall|i: int, j: int|
        0 <= i < keys.len() && 0 <= j < keys.len() && i != j implies keys[i] != keys[j] by {
        if i < j {
            assert(entries[i].0@ != entries[j].0@);
        } else {
            assert(entries[j].0@ != entries[i].0@);
        }
    }
}

/// Nothing is filtered out of a list that does not hold `x`.
proof fn lemma_filter_all<T>(s: Seq<T>, x: T)
    requires
        forall|j: int| 0 <= j < s.len() ==> s[j] != x,
    ensures
        s.filter(|y: T| y != x) == s,
    decreases s.len(),
{
    reveal(Seq::filter);
    if s.len() > 0 {
        lemma_filter_all(s.drop_last(), x);
        assert(s.drop_last().push(s.last()) =~= s);
    } else {
        assert(s.filter(|y: T| y != x) =~= s);
    }
}

/// Filtering one element out of a list without duplicates removes it.
proof fn lemma_filter_one<T>(s: Seq<T>, i: int)
    requires
        s.no_duplicates(),
        0 <= i < s.len(),
    ensures
        s.filter(|y: T| y != s[i]) == s.remove(i),
    decreases s.len(),
{
    reveal(Seq::filter);
    let x = s[i];
    let t = s.drop_last();
    if i == s.len() - 1 {
        assert forall|j: int| 0 <= j < t.len() implies t[j] != x by {
            assert(s[j] != s[i]);
        }
        lemma_filter_all(t, x);
        assert(s.remove(i) =~= t);
    } else {
        assert(t.no_duplicates());
        assert(t[i] == x);
        lemma_filter_one(t, i);
        assert(s.last() != x);
        assert(s.remove(i) =~= t.remove(i).push(s.last()));
    }
}

proof fn lemma_updated<K: Key, V>(before: Seq<(K, V)>, i: int, e: (K, V))
    requires
        distinct_keys(before),
        0 <= i < before.len(),
        before[i].0@ == e.0@,
    ensures
        distinct_keys(before.update(i, e)),
        map_of(before.update(i, e)) == map_of(before).insert(e.0@, e.1),
{
    let after = before.update(i, e);
    assert forall|k: K::V| map_of(after).dom().contains(k) <==> map_of(before).insert(
        e.0@,
        e.1,
    ).dom().contains(k) by {
        if map_of(after).dom().contains(k) {
            let j = lemma_key(after, k);
            assert(holds_at(before, k, j));
        }
        if map_of(before).dom().contains(k) {
            let j = lemma_key(before, k);
            assert(holds_at(after, k, j));
        }
        assert(holds_at(after, e.0@, i));
    }
    assert forall|k: K::V| map_of(after).dom().contains(k) implies map_of(after)[k] == map_of(
        before,
    ).insert(e.0@, e.1)[k] by {
        let j = lemma_key(after, k);
        if j == i {
        } else {
            lemma_entry(before, j);
            assert(after[i].0@ != after[j].0@);
        }
    }
    assert(map_of(after) =~= map_of(before).insert(e.0@, e.1));
}

proof fn lemma_pushed<K: Key, V>(before: Seq<(K, V)>, e: (K, V))
    requires
        distinct_keys(before),
        !map_of(before).dom().contains(e.0@),
    ensures
        distinct_keys(before.push(e)),
        map_of(before.push(e)) == map_of(before).insert(e.0@, e.1),
{
    let after = before.push(e);
    assert forall|i: int, j: int| 0 <= i < j < after.len() implies (#[trigger] after[i]).0@ != (
    #[trigger] after[j]).0@ by {
        lemma_entry(before, i);
    }
    assert forall|k: K::V| map_of(after).dom().contains(k) <==> map_of(before).insert(
        e.0@,
        e.1,
    ).dom().contains(k) by {
        if map_of(after).dom().contains(k) {
            let j = lemma_key(after, k);
            if j < before.len() {
                assert(holds_at(before, k, j));
            }
        }
        if map_of(before).dom().contains(k) {
            let j = lemma_key(before, k);
            assert(holds_at(after, k, j));
        }
        assert(holds_at(after, e.0@, before.len() as int));
    }
    assert forall|k: K::V| map_of(after).dom().contains(k) implies map_of(after)[k] == map_of(
        before,
    ).insert(e.0@, e.1)[k] by {
        let j = lemma_key(after, k);
        if j < before.len() {
            lemma_entry(before, j);
        }
    }
    assert(map_of(after) =~= map_of(before).insert(e.0@, e.1));
}

proof fn lemma_removed<K: Key, V>(before: Seq<(K, V)>, i: int)
    requires
        distinct_keys(before),
        0 <= i < before.len(),
    ensures
        distinct_keys(before.remove(i)),
        map_of(before.remove(i)) == map_of(before).remove(before[i].0@),
{
    let after = before.remove(i);
    let gone = before[i].0@;
    assert forall|a: int, b: int| 0 <= a < b < after.len() implies (#[trigger] after[a]).0@ != (
    #[trigger] after[b]).0@ by {
        let a2 = if a < i { a } else { a + 1 };
        let b2 = if b < i { b } else { b + 1 };
        assert(after[a] == before[a2]);
        assert(after[b] == before[b2]);
    }
    assert forall|k: K::V| map_of(after).dom().contains(k) <==> map_of(before).remove(
        gone,
    ).dom().contains(k) by {
        if map_of(after).dom().contains(k) {
            let j = lemma_key(after, k);
            let j2 = if j < i { j } else { j + 1 };
            assert(after[j] == before[j2]);
            assert(holds_at(before, k, j2));
            assert(before[i].0@ != before[j2].0@);
        }
        if map_of(before).dom().contains(k) && k != gone {
            let j = lemma_key(before, k);
            let j2 = if j < i { j } else { j - 1 };
            assert(after[j2] == before[j]);
            assert(holds_at(after, k, j2));
        }
    }
    assert forall|k: K::V| map_of(after).dom().contains(k) implies map_of(after)[k] == map_of(
        before,
    ).remove(gone)[k] by {
        let j = lemma_key(after, k);
        let j2 = if j < i { j } else { j + 1 };
        assert(after[j] == before[j2]);
        lemma_entry(before, j2);
        assert(before[i].0@ != before[j2].0@);
    }
    assert(map_of(after) =~= map_of(before).remove(gone));
}

/// A set of numbers, as the list of them in the order in which they came.
pub struct NumberSet {
    pub items: Vec<u32>,
}

impl View for NumberSet {
    type V = Set<u32>;

    open spec fn view(&self) -> Set<u32> {
        self.items@.to_set()
    }
}

impl NumberSet {
    /// Whether no number stands twice in the list.
    pub open spec fn wf(&self) -> bool {
        self.items@.no_duplicates()
    }

    /// The empty set.
    pub fn new() -> (s: NumberSet)
        ensures
            s.wf(),
            s.items@ == Seq::<u32>::empty(),
            s@ == Set::<u32>::empty(),
    {
        let s = NumberSet { items: Vec::new() };
        assert(s@ =~= Set::<u32>::empty());
        s
    }

    /// Whether the set is empty.
    pub fn is_empty(&self) -> (r: bool)
        ensures
            r == (self@ == Set::<u32>::empty()),
    {
        proof {
            if self.items@.len() == 0 {
                assert(self@ =~= Set::<u32>::empty());
            } else {
                assert(self@.contains(self.items@[0]));
            }
        }
        self.items.len() == 0
    }

    /// The index of `n` in the list; the list's length, if it is not there.
    fn find(&self, n: u32) -> (i: usize)
        ensures
            i <= self.items@.len(),
            i < self.items@.len() ==> self.items@[i as int] == n && self@.contains(n),
            i == self.items@.len() ==> !self@.contains(n),
    {
        let mut i: usize = 0;
        while i < self.items.len()
            invariant
                i <= self.items@.len(),
                forall|j: int| 0 <= j < i ==> self.items@[j] != n,
            decreases self.items@.len() - i,
        {
            if self.items[i] == n {
                assert(self.items@.contains(self.items@[i as int]));
                return i;
            }
            i = i + 1;
        }
        i
    }

    /// Whether `n` is in the set.
    pub fn contains(&self, n: u32) -> (r: bool)
        ensures
            r == self@.contains(n),
    {
        self.find(n) < self.items.len()
    }

    /// Puts `n` into the set, and returns whether that is a change.
    pub fn insert(&mut self, n: u32) -> (changed: bool)
        requires
            old(self).wf(),
        ensures
            final(self).wf(),
            final(self)@ == old(self)@.insert(n),
            changed == !old(self)@.contains(n),
    {
        let ghost before = self.items@;
        if self.contains(n) {
            assert(before.to_set().insert(n) =~= before.to_set());
            return false;
        }
        self.items.push(n);
        proof {
            let after = self.items@;
            assert forall|x: u32| after.to_set().contains(x) <==> before.to_set().insert(
                n,
            ).contains(x) by {
                if before.contains(x) {
                    let j = choose|j: int| 0 <= j < before.len() && before[j] == x;
                    assert(after[j] == x);
                }
                assert(after[before.len() as int] == n);
            }
            assert(after.to_set() =~= before.to_set().insert(n));
            assert forall|i: int, j: int|
                0 <= i < after.len() && 0 <= j < after.len() && i != j implies after[i]
                != after[j] by {
                assert(i < before.len() ==> before.contains(before[i]));
                assert(j < before.len() ==> before.contains(before[j]));
            }
        }
        true
    }

    /// Takes `n` out of the set, and returns whether that is a change.
    pub fn remove(&mut self, n: u32) -> (changed: bool)
        requires
            old(self).wf(),
        ensures
            final(self).wf(),
            final(self)@ == old(self)@.remove(n),
            changed == old(self)@.contains(n),
    {
        let ghost before = self.items@;
        let i: usize = self.find(n);
        if i == self.items.len() {
            assert(before.to_set().remove(n) =~= before.to_set());
            return false;
        }
        self.items.remove(i);
        proof {
            let after = self.items@;
            let i = i as int;
            assert forall|x: u32| after.to_set().contains(x) <==> before.to_set().remove(
                n,
            ).contains(x) by {
                if before.contains(x) && x != n {
                    let j = choose|j: int| 0 <= j < before.len() && before[j] == x;
                    assert(after[if j < i { j } else { j - 1 }] == x);
                }
                if after.contains(x) {
                    let j = choose|j: int| 0 <= j < after.len() && after[j] == x;
                    let k = if j < i { j } else { j + 1 };
                    assert(before[k] == x);
                    assert(k != i);
                }
            }
            assert(after.to_set() =~= before.to_set().remove(n));
            assert forall|a: int, b: int|
                0 <= a < after.len() && 0 <= b < after.len() && a != b implies after[a]
                != after[b] by {
                let a2 = if a < i { a } else { a + 1 };
                let b2 = if b < i { b } else { b + 1 };
                assert(after[a] == before[a2]);
                assert(after[b] == before[b2]);
            }
        }
        true
    }
}

} // verus!
