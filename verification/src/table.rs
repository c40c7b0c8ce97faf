//! A keyed table of storage entries.
use vstd::prelude::*;

use crate::address::Address;

verus! {

/// Keys that can be compared for equality.
pub trait Key: Copy {
    /// Whether the two keys are the same value.
    fn same(self, other: Self) -> (r: bool)
        ensures
            r == (self == other),
    ;
}

impl Key for u32 {
    fn same(self, other: Self) -> (r: bool) {
        self == other
    }
}

impl Key for u64 {
    fn same(self, other: Self) -> (r: bool) {
        self == other
    }
}

impl Key for Address {
    fn same(self, other: Self) -> (r: bool) {
        self == other
    }
}

/// Whether `i` is the first position of `s` that is filed under `k`.
pub open spec fn first_at<K, V>(s: Seq<(K, V)>, k: K, i: int) -> bool {
    &&& 0 <= i < s.len()
    &&& s[i].0 == k
    &&& forall|j: int| 0 <= j < i ==> (#[trigger] s[j]).0 != k
}

/// The map that a list of entries stands for: the first entry of a key counts.
pub open spec fn entries_map<K, V>(s: Seq<(K, V)>) -> Map<K, V> {
    Map::new(
        |k: K| exists|i: int| first_at(s, k, i),
        |k: K| s[choose|i: int| first_at(s, k, i)].1,
    )
}

/// Whether two maps hold the same under a key: both the same value, or both
/// nothing.
pub open spec fn agree<K, V>(a: Map<K, V>, b: Map<K, V>, k: K) -> bool {
    &&& a.contains_key(k) <==> b.contains_key(k)
    &&& a.contains_key(k) ==> a[k] == b[k]
}

/// Storage entries of one sort, by key.
#[derive(Debug)]
#[verifier::reject_recursive_types(K)]
pub struct Table<K, V> {
    pub entries: Vec<(K, V)>,
}

impl<K, V> View for Table<K, V> {
    type V = Map<K, V>;

    open spec fn view(&self) -> Map<K, V> {
        entries_map(self.entries@)
    }
}

/// A list without an entry for `k` has `k` outside its map.
proof fn lemma_absent<K, V>(s: Seq<(K, V)>, k: K)
    requires
        forall|j: int| 0 <= j < s.len() ==> (#[trigger] s[j]).0 != k,
    ensures
        !entries_map(s).contains_key(k),
{
}

/// A first position decides what the map holds.
proof fn lemma_present<K, V>(s: Seq<(K, V)>, k: K, i: int)
    requires
        first_at(s, k, i),
    ensures
        entries_map(s).contains_key(k),
        entries_map(s)[k] == s[i].1,
{
    let c = choose|j: int| first_at(s, k, j);
    assert(first_at(s, k, c));
    assert(c == i);
}

/// Maps that hold the same under every key are equal.
proof fn lemma_same_map<K, V>(a: Map<K, V>, b: Map<K, V>)
    requires
        forall|q: K| #[trigger] a.contains_key(q) ==> b.contains_key(q) && a[q] == b[q],
        forall|q: K| #[trigger] b.contains_key(q) ==> a.contains_key(q),
    ensures
        a == b,
{
    assert(a.dom() =~= b.dom()) by {
        assert forall|q: K| a.dom().contains(q) implies b.dom().contains(q) by {
            assert(a.contains_key(q));
        }
        assert forall|q: K| b.dom().contains(q) implies a.dom().contains(q) by {
            assert(b.contains_key(q));
        }
    }
    assert forall|q: K| #[trigger] a.dom().contains(q) implies a[q] == b[q] by {
        assert(a.contains_key(q));
    }
    assert(a =~= b);
}

/// Replacing the value at a first position is a map insertion.
proof fn lemma_update<K, V>(s: Seq<(K, V)>, k: K, i: int, v: V)
    requires
        first_at(s, k, i),
    ensures
        entries_map(s.update(i, (k, v))) =~= entries_map(s).insert(k, v),
{
    let t = s.update(i, (k, v));
    assert forall|q: K, j: int| first_at(s, q, j) implies #[trigger] first_at(t, q, j) by {
        assert forall|x: int| 0 <= x < j implies (#[trigger] t[x]).0 != q by {
            assert(s[x].0 != q);
        }
    }
    assert forall|q: K, j: int| first_at(t, q, j) implies #[trigger] first_at(s, q, j) by {
        assert forall|x: int| 0 <= x < j implies (#[trigger] s[x]).0 != q by {
            assert(t[x].0 != q);
        }
    }
    let m = entries_map(s).insert(k, v);
    assert forall|q: K| #[trigger] entries_map(t).contains_key(q) implies m.contains_key(q)
        && entries_map(t)[q] == m[q] by {
        let j = choose|j: int| first_at(t, q, j);
        lemma_present(t, q, j);
        assert(first_at(s, q, j));
        lemma_present(s, q, j);
    }
    assert forall|q: K| #[trigger] m.contains_key(q) implies entries_map(t).contains_key(q) by {
        if q == k {
            assert(first_at(t, k, i));
        } else {
            let j = choose|j: int| first_at(s, q, j);
            assert(first_at(t, q, j));
        }
    }
    lemma_same_map(entries_map(t), m);
}

/// Appending an entry for an absent key is a map insertion.
proof fn lemma_push<K, V>(s: Seq<(K, V)>, k: K, v: V)
    requires
        forall|j: int| 0 <= j < s.len() ==> (#[trigger] s[j]).0 != k,
    ensures
        entries_map(s.push((k, v))) =~= entries_map(s).insert(k, v),
{
    let t = s.push((k, v));
    let n = s.len() as int;
    assert(first_at(t, k, n)) by {
        assert forall|x: int| 0 <= x < n implies (#[trigger] t[x]).0 != k by {
            assert(s[x].0 != k);
        }
    }
    assert forall|q: K, j: int| first_at(s, q, j) implies #[trigger] first_at(t, q, j) by {
        assert forall|x: int| 0 <= x < j implies (#[trigger] t[x]).0 != q by {
            assert(s[x].0 != q);
        }
    }
    assert forall|q: K, j: int| j != n && first_at(t, q, j) implies #[trigger] first_at(
        s,
        q,
        j,
    ) by {
        assert forall|x: int| 0 <= x < j implies (#[trigger] s[x]).0 != q by {
            assert(t[x].0 != q);
        }
    }
    let m = entries_map(s).insert(k, v);
    assert forall|q: K| #[trigger] entries_map(t).contains_key(q) implies m.contains_key(q)
        && entries_map(t)[q] == m[q] by {
        let j = choose|j: int| first_at(t, q, j);
        lemma_present(t, q, j);
        if j != n {
            assert(first_at(s, q, j));
            lemma_present(s, q, j);
        }
    }
    assert forall|q: K| #[trigger] m.contains_key(q) implies entries_map(t).contains_key(q) by {
        if q != k {
            let j = choose|j: int| first_at(s, q, j);
            assert(first_at(t, q, j));
        }
    }
    lemma_same_map(entries_map(t), m);
}

/// Dropping one entry of `k` leaves what the map holds for every other key.
proof fn lemma_drop<K, V>(s: Seq<(K, V)>, k: K, i: int)
    requires
        0 <= i < s.len(),
        s[i].0 == k,
    ensures
        entries_map(s.remove(i)).remove(k) =~= entries_map(s).remove(k),
{
    let t = s.remove(i);
    assert forall|q: K, j: int| q != k && #[trigger] first_at(s, q, j) implies first_at(
        t,
        q,
        if j < i { j } else { j - 1 },
    ) && t[if j < i { j } else { j - 1 }] == s[j] by {
        let m = if j < i { j } else { j - 1 };
        assert(j != i);
        assert forall|x: int| 0 <= x < m implies (#[trigger] t[x]).0 != q by {
            if x < i {
                assert(t[x] == s[x]);
            } else {
                assert(t[x] == s[x + 1]);
            }
        }
    }
    assert forall|q: K, j: int| q != k && #[trigger] first_at(t, q, j) implies first_at(
        s,
        q,
        if j < i { j } else { j + 1 },
    ) && s[if j < i { j } else { j + 1 }] == t[j] by {
        let m = if j < i { j } else { j + 1 };
        assert forall|x: int| 0 <= x < m implies (#[trigger] s[x]).0 != q by {
            if x < i {
                assert(t[x] == s[x]);
            } else if x > i {
                assert(t[x - 1] == s[x]);
            }
        }
    }
    assert forall|q: K| q != k && entries_map(s).contains_key(q) implies entries_map(
        t,
    ).contains_key(q) && entries_map(t)[q] == #[trigger] entries_map(s)[q] by {
        let j = choose|j: int| first_at(s, q, j);
        lemma_present(s, q, j);
        assert(s[j].0 == q);
        lemma_present(t, q, if j < i { j } else { j - 1 });
    }
    assert forall|q: K| q != k && #[trigger] entries_map(t).contains_key(q) implies entries_map(
        s,
    ).contains_key(q) by {
        let j = choose|j: int| first_at(t, q, j);
        assert(t[j].0 == q);
        lemma_present(s, q, if j < i { j } else { j + 1 });
    }
}

impl<K: Key, V> Table<K, V> {
    /// A table without entries.
    pub fn new() -> (r: Self)
        ensures
            r@ == Map::<K, V>::empty(),
    {
        let r = Table { entries: Vec::new() };
        assert(r@ =~= Map::<K, V>::empty());
        r
    }

    /// The position of the entry that counts for `k`, if there is one.
    fn position(&self, k: K) -> (r: Option<usize>)
        ensures
            match r {
                Some(i) => first_at(self.entries@, k, i as int),
                None => forall|j: int|
                    0 <= j < self.entries@.len() ==> (#[trigger] self.entries@[j]).0 != k,
            },
    {
        let mut i: usize = 0;
        while i < self.entries.len()
            invariant
                i <= self.entries@.len(),
                forall|j: int| 0 <= j < i ==> (#[trigger] self.entries@[j]).0 != k,
            decreases self.entries@.len() - i,
        {
            if self.entries[i].0.same(k) {
                return Some(i);
            }
            i += 1;
        }
        None
    }

    /// The entry under `k`, if there is one.
    pub fn get(&self, k: K) -> (r: Option<&V>)
        ensures
            r is Some == self@.contains_key(k),
            r matches Some(v) ==> *v == self@[k],
    {
        match self.position(k) {
            Some(i) => {
                proof {
                    lemma_present(self.entries@, k, i as int);
                }
                Some(&self.entries[i].1)
            },
            None => {
                proof {
                    lemma_absent(self.entries@, k);
                }
                None
            },
        }
    }

    /// Whether there is an entry under `k`.
    pub fn has(&self, k: K) -> (r: bool)
        ensures
            r == self@.contains_key(k),
    {
        self.get(k).is_some()
    }

    /// Files `v` under `k`, in place of what was there.
    pub fn set(&mut self, k: K, v: V)
        ensures
            final(self)@ == old(self)@.insert(k, v),
    {
        match self.position(k) {
            Some(i) => {
                proof {
                    lemma_update(self.entries@, k, i as int, v);
                }
                self.entries.set(i, (k, v));
            },
            None => {
                proof {
                    lemma_push(self.entries@, k, v);
                }
                self.entries.push((k, v));
            },
        }
    }

    /// Drops what is filed under `k`; does nothing if there is no such entry.
    pub fn remove(&mut self, k: K)
        ensures
            final(self)@ == old(self)@.remove(k),
    {
        let mut i: usize = 0;
        while i < self.entries.len()
            invariant
                i <= self.entries@.len(),
                forall|j: int| 0 <= j < i ==> (#[trigger] self.entries@[j]).0 != k,
                entries_map(self.entries@).remove(k) == old(self)@.remove(k),
            decreases self.entries@.len() - i,
        {
            if self.entries[i].0.same(k) {
                proof {
                    lemma_drop(self.entries@, k, i as int);
                }
                self.entries.remove(i);
            } else {
                i += 1;
            }
        }
        proof {
            lemma_absent(self.entries@, k);
            assert(entries_map(self.entries@) =~= entries_map(self.entries@).remove(k));
        }
    }
}

/// A table holds under a key what the first entry of that key says, and nothing
/// where no entry is of that key.
pub proof fn law_first_entry_is_read<K, V>(t: Table<K, V>, i: int, k: K)
    requires
        0 <= i < t.entries@.len(),
        forall|j: int| 0 <= j < i ==> (#[trigger] t.entries@[j]).0 != t.entries@[i].0,
    ensures
        t@.contains_key(t.entries@[i].0),
        t@[t.entries@[i].0] == t.entries@[i].1,
        (forall|j: int| 0 <= j < t.entries@.len() ==> (#[trigger] t.entries@[j]).0 != k)
            ==> !t@.contains_key(k),
{
    lemma_present(t.entries@, t.entries@[i].0, i);
}

} // verus!
