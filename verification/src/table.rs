//! Keyed tables: finite maps that remember the order in which their keys
//! arrived.

use vstd::prelude::*;

verus! {

/// A value that can be copied without changing what it stands for.
pub trait Stored: View + Sized {
    fn duplicate(&self) -> (r: Self)
        ensures
            r@ == self@,
    ;
}

/// A value that can serve as the key of a table.
pub trait Key: Stored {
    fn same(&self, other: &Self) -> (r: bool)
        ensures
            r == (self@ == other@),
    ;
}

impl Stored for String {
    fn duplicate(&self) -> (r: Self) {
        self.clone()
    }
}

impl Key for String {
    fn same(&self, other: &Self) -> (r: bool) {
        *self == *other
    }
}

impl Stored for u64 {
    fn duplicate(&self) -> (r: Self) {
        *self
    }
}

impl Key for u64 {
    fn same(&self, other: &Self) -> (r: bool) {
        *self == *other
    }
}

impl Stored for u128 {
    fn duplicate(&self) -> (r: Self) {
        *self
    }
}

impl Stored for bool {
    fn duplicate(&self) -> (r: Self) {
        *self
    }
}

impl Stored for (String, String) {
    fn duplicate(&self) -> (r: Self) {
        (self.0.clone(), self.1.clone())
    }
}

impl Key for (String, String) {
    fn same(&self, other: &Self) -> (r: bool) {
        self.0 == other.0 && self.1 == other.1
    }
}

impl Stored for (String, u32) {
    fn duplicate(&self) -> (r: Self) {
        (self.0.clone(), self.1)
    }
}

impl Key for (String, u32) {
    fn same(&self, other: &Self) -> (r: bool) {
        self.0 == other.0 && self.1 == other.1
    }
}

/// Some entry of `e` has the key `k`.
pub open spec fn has_key<A, B>(e: Seq<(A, B)>, k: A) -> bool {
    exists|i: int| 0 <= i < e.len() && (#[trigger] e[i]).0 == k
}

/// The position of an entry of `e` with the key `k`.
pub open spec fn index_of<A, B>(e: Seq<(A, B)>, k: A) -> int {
    choose|i: int| 0 <= i < e.len() && (#[trigger] e[i]).0 == k
}

/// The value stored under `k`, if any.
pub open spec fn lookup<A, B>(e: Seq<(A, B)>, k: A) -> Option<B> {
    if has_key(e, k) {
        Some(e[index_of(e, k)].1)
    } else {
        None
    }
}

/// `e` with `v` stored under `k`: in place where the key was present, at the
/// end where it was not.
pub open spec fn upsert<A, B>(e: Seq<(A, B)>, k: A, v: B) -> Seq<(A, B)> {
    if has_key(e, k) {
        e.update(index_of(e, k), (k, v))
    } else {
        e.push((k, v))
    }
}

/// `e` without the entry for `k`.
pub open spec fn erase<A, B>(e: Seq<(A, B)>, k: A) -> Seq<(A, B)> {
    if has_key(e, k) {
        e.remove(index_of(e, k))
    } else {
        e
    }
}

/// No key occurs twice in `e`.
pub open spec fn distinct<A, B>(e: Seq<(A, B)>) -> bool {
    forall|i: int, j: int| 0 <= i < j < e.len() ==> (#[trigger] e[i]).0 != (#[trigger] e[j]).0
}

/// In a table without repeated keys, the entry at a position is what a
/// lookup of its key finds.
pub proof fn lemma_lookup_at<A, B>(e: Seq<(A, B)>, i: int)
    requires
        distinct(e),
        0 <= i < e.len(),
    ensures
        has_key(e, e[i].0),
        index_of(e, e[i].0) == i,
        lookup(e, e[i].0) == Some(e[i].1),
{
    let j = index_of(e, e[i].0);
    assert(e[j].0 == e[i].0);
    if j != i {
        if j < i {
            assert(e[j].0 != e[i].0);
        } else {
            assert(e[i].0 != e[j].0);
        }
    }
}

/// Storing under a key keeps keys distinct, and afterwards a lookup finds
/// the stored value under that key and the old values under all others.
pub proof fn lemma_upsert<A, B>(e: Seq<(A, B)>, k: A, v: B)
    requires
        distinct(e),
    ensures
        distinct(upsert(e, k, v)),
        lookup(upsert(e, k, v), k) == Some(v),
        forall|other: A| other != k ==> lookup(upsert(e, k, v), other) == lookup(e, other),
        forall|other: A| has_key(upsert(e, k, v), other) <==> other == k || has_key(e, other),
{
    let u = upsert(e, k, v);
    if has_key(e, k) {
        let i = index_of(e, k);
        assert(forall|j: int| 0 <= j < e.len() ==> (#[trigger] u[j]).0 == e[j].0);
        assert(distinct(u));
        assert(u[i].0 == k);
        lemma_lookup_at(u, i);
        assert forall|other: A| other != k implies lookup(u, other) == lookup(e, other) by {
            if has_key(e, other) {
                let j = index_of(e, other);
                assert(u[j] == e[j]);
                lemma_lookup_at(e, j);
                lemma_lookup_at(u, j);
            } else {
                if has_key(u, other) {
                    let j = index_of(u, other);
                    assert(e[j].0 == other);
                }
            }
        }
        assert forall|other: A| has_key(u, other) <==> other == k || has_key(e, other) by {
            if has_key(u, other) {
                let j = index_of(u, other);
                assert(e[j].0 == u[j].0);
            }
            if has_key(e, other) {
                let j = index_of(e, other);
                assert(u[j].0 == other);
            }
        }
    } else {
        let n = e.len() as int;
        assert(u[n].0 == k);
        assert(forall|j: int| 0 <= j < n ==> (#[trigger] u[j]) == e[j]);
        assert(distinct(u)) by {
            assert forall|i: int, j: int| 0 <= i < j < u.len() implies (#[trigger] u[i]).0 != (
            #[trigger] u[j]).0 by {
                if j == n {
                    assert(e[i].0 != k);
                } else {
                    assert(e[i].0 != e[j].0);
                }
            }
        }
        lemma_lookup_at(u, n);
        assert forall|other: A| other != k implies lookup(u, other) == lookup(e, other) by {
            if has_key(e, other) {
                let j = index_of(e, other);
                assert(u[j] == e[j]);
                lemma_lookup_at(e, j);
                lemma_lookup_at(u, j);
            } else {
                if has_key(u, other) {
                    let j = index_of(u, other);
                    assert(e[j].0 == other);
                }
            }
        }
        assert forall|other: A| has_key(u, other) <==> other == k || has_key(e, other) by {
            if has_key(u, other) {
                let j = index_of(u, other);
                if j < n {
                    assert(e[j].0 == other);
                }
            }
            if has_key(e, other) {
                let j = index_of(e, other);
                assert(u[j].0 == other);
            }
        }
    }
}

/// Erasing a key keeps keys distinct; afterwards the key is absent and all
/// other keys hold what they held.
pub proof fn lemma_erase<A, B>(e: Seq<(A, B)>, k: A)
    requires
        distinct(e),
    ensures
        distinct(erase(e, k)),
        !has_key(erase(e, k), k),
        forall|other: A| other != k ==> lookup(erase(e, k), other) == lookup(e, other),
        forall|other: A| has_key(erase(e, k), other) <==> other != k && has_key(e, other),
{
    let u = erase(e, k);
    if has_key(e, k) {
        let i = index_of(e, k);
        assert(forall|j: int| 0 <= j < i ==> (#[trigger] u[j]) == e[j]);
        assert(forall|j: int| i <= j < u.len() ==> (#[trigger] u[j]) == e[j + 1]);
        assert(distinct(u)) by {
            assert forall|a: int, b: int| 0 <= a < b < u.len() implies (#[trigger] u[a]).0 != (
            #[trigger] u[b]).0 by {
                let a2 = if a < i { a } else { a + 1 };
                let b2 = if b < i { b } else { b + 1 };
                assert(e[a2].0 != e[b2].0);
            }
        }
        assert forall|other: A| has_key(u, other) <==> other != k && has_key(e, other) by {
            if has_key(u, other) {
                let j = index_of(u, other);
                let j2 = if j < i { j } else { j + 1 };
                assert(e[j2].0 == other);
                if other == k {
                    lemma_lookup_at(e, j2);
                }
            }
            if other != k && has_key(e, other) {
                let j = index_of(e, other);
                let j2 = if j < i { j } else { j - 1 };
                assert(u[j2].0 == other);
            }
        }
        assert forall|other: A| other != k implies lookup(u, other) == lookup(e, other) by {
            if has_key(e, other) {
                let j = index_of(e, other);
                let j2 = if j < i { j } else { j - 1 };
                assert(u[j2] == e[j]);
                lemma_lookup_at(e, j);
                lemma_lookup_at(u, j2);
            }
        }
    }
}

/// `r` is present exactly where `expected` is, and then stands for the
/// same value.
pub open spec fn found<T: View>(r: Option<T>, expected: Option<T::V>) -> bool {
    match r {
        Some(v) => expected == Some(v@),
        None => expected is None,
    }
}

/// The values that a sequence of key-value pairs stands for.
pub open spec fn pairs<K: View, V: View>(v: Seq<(K, V)>) -> Seq<(K::V, V::V)> {
    v.map_values(|p: (K, V)| (p.0@, p.1@))
}

/// The page of `e` that starts `offset` entries after the newest and holds
/// up to `limit` entries, newest first.
pub open spec fn newest_page<A, B>(e: Seq<(A, B)>, offset: int, limit: int) -> Seq<(A, B)> {
    let start = if offset < e.len() {
        offset
    } else {
        e.len() as int
    };
    let end = if start + limit < e.len() {
        start + limit
    } else {
        e.len() as int
    };
    e.reverse().subrange(start, end)
}

/// One key with the value stored under it.
pub struct Entry<K, V> {
    pub key: K,
    pub value: V,
}

/// A table from keys to values that keeps the order of first insertion.
pub struct Table<K: Key, V: Stored> {
    rows: Vec<Entry<K, V>>,
}

impl<K: Key, V: Stored> View for Table<K, V> {
    type V = Seq<(K::V, V::V)>;

    closed spec fn view(&self) -> Seq<(K::V, V::V)> {
        self.rows@.map_values(|e: Entry<K, V>| (e.key@, e.value@))
    }
}

impl<K: Key, V: Stored> Table<K, V> {
    /// The table's invariant: no key occurs twice.
    pub open spec fn wf(&self) -> bool {
        distinct(self@)
    }

    /// The empty table.
    pub fn new() -> (t: Self)
        ensures
            t.wf(),
            t@ == Seq::<(K::V, V::V)>::empty(),
    {
        let t = Table { rows: Vec::new() };
        assert(t@ =~= Seq::<(K::V, V::V)>::empty());
        t
    }

    /// How many keys the table holds.
    pub fn len(&self) -> (n: usize)
        ensures
            n == self@.len(),
    {
        self.rows.len()
    }

    /// The key at position `i`.
    pub fn key_at(&self, i: usize) -> (k: &K)
        requires
            i < self@.len(),
        ensures
            k@ == self@[i as int].0,
    {
        &self.rows[i].key
    }

    /// The value at position `i`.
    pub fn value_at(&self, i: usize) -> (v: &V)
        requires
            i < self@.len(),
        ensures
            v@ == self@[i as int].1,
    {
        &self.rows[i].value
    }

    /// The position of `key`, if the table holds it.
    pub fn find(&self, key: &K) -> (r: Option<usize>)
        requires
            self.wf(),
        ensures
            match r {
                Some(i) => i < self@.len() && self@[i as int].0 == key@ && has_key(self@, key@)
                    && index_of(self@, key@) == i,
                None => !has_key(self@, key@),
            },
    {
        let mut i: usize = 0;
        while i < self.rows.len()
            invariant
                self.wf(),
                i <= self.rows.len(),
                forall|j: int| 0 <= j < i ==> (#[trigger] self@[j]).0 != key@,
            decreases self.rows.len() - i,
        {
            if self.rows[i].key.same(key) {
                proof {
                    lemma_lookup_at(self@, i as int);
                }
                return Some(i);
            }
            i += 1;
        }
        None
    }

    /// The value stored under `key`, if any.
    pub fn get(&self, key: &K) -> (r: Option<&V>)
        requires
            self.wf(),
        ensures
            match r {
                Some(v) => lookup(self@, key@) == Some(v@),
                None => lookup(self@, key@) is None,
            },
    {
        match self.find(key) {
            Some(i) => Some(&self.rows[i].value),
            None => None,
        }
    }

    /// Whether the table holds `key`.
    pub fn contains(&self, key: &K) -> (r: bool)
        requires
            self.wf(),
        ensures
            r == has_key(self@, key@),
    {
        self.find(key).is_some()
    }

    /// A copy of every entry, oldest first.
    pub fn entries(&self) -> (r: Vec<(K, V)>)
        ensures
            pairs(r@) == self@,
    {
        let mut r: Vec<(K, V)> = Vec::new();
        let mut i: usize = 0;
        while i < self.rows.len()
            invariant
                i <= self.rows.len(),
                r.len() == i,
                forall|j: int| 0 <= j < i ==> (#[trigger] r@[j]).0@ == self@[j].0 && r@[j].1@
                    == self@[j].1,
            decreases self.rows.len() - i,
        {
            r.push((self.rows[i].key.duplicate(), self.rows[i].value.duplicate()));
            i += 1;
        }
        assert(pairs(r@) =~= self@);
        r
    }

    /// A copy of the page that starts `offset` entries after the newest and
    /// holds up to `limit` entries, newest first.
    pub fn newest_first(&self, offset: usize, limit: usize) -> (r: Vec<(K, V)>)
        ensures
            pairs(r@) == newest_page(self@, offset as int, limit as int),
    {
        let n: usize = self.rows.len();
        let start: usize = if offset < n {
            offset
        } else {
            n
        };
        let end: usize = if limit < n - start {
            start + limit
        } else {
            n
        };
        let mut r: Vec<(K, V)> = Vec::new();
        let mut i: usize = start;
        while i < end
            invariant
                start <= i <= end <= n,
                n == self.rows.len(),
                r.len() == i - start,
                forall|j: int|
                    0 <= j < i - start ==> (#[trigger] r@[j]).0@ == self@[n - 1 - start - j].0
                        && r@[j].1@ == self@[n - 1 - start - j].1,
            decreases end - i,
        {
            let at: usize = n - 1 - i;
            r.push((self.rows[at].key.duplicate(), self.rows[at].value.duplicate()));
            i += 1;
        }
        assert(pairs(r@) =~= newest_page(self@, offset as int, limit as int));
        r
    }

    /// Stores `value` under `key`, replacing what was stored there.
    pub fn put(&mut self, key: K, value: V)
        requires
            old(self).wf(),
        ensures
            final(self).wf(),
            final(self)@ == upsert(old(self)@, key@, value@),
    {
        proof {
            lemma_upsert(self@, key@, value@);
        }
        match self.find(&key) {
            Some(i) => {
                let ghost before = self@;
                self.rows.set(i, Entry { key, value });
                assert(self@ =~= before.update(i as int, (key@, value@)));
            },
            None => {
                let ghost before = self@;
                self.rows.push(Entry { key, value });
                assert(self@ =~= before.push((key@, value@)));
            },
        }
    }

    /// Removes `key` and what was stored under it.
    pub fn remove(&mut self, key: &K)
        requires
            old(self).wf(),
        ensures
            final(self).wf(),
            final(self)@ == erase(old(self)@, key@),
    {
        proof {
            lemma_erase(self@, key@);
        }
        match self.find(key) {
            Some(i) => {
                let ghost before = self@;
                self.rows.remove(i);
                assert(self@ =~= before.remove(i as int));
            },
            None => {},
        }
    }
}

} // verus!
