//! Tables kept in key order.

use vstd::prelude::*;

use crate::hash::AddressHash;

verus! {

/// What a table can be keyed by: keys with a rank of their own.
pub trait TableKey: Copy {
    /// Where the key stands in the order of all keys.
    spec fn rank(self) -> nat;

    /// The rank as a number.
    fn order_key(&self) -> (key: u128)
        ensures
            key as nat == self.rank(),
    ;

    /// Equal ranks are equal keys.
    proof fn lemma_rank_decides(a: Self, b: Self)
        requires
            a.rank() == b.rank(),
        ensures
            a == b,
    ;
}

impl TableKey for u32 {
    open spec fn rank(self) -> nat {
        self as nat
    }

    fn order_key(&self) -> (key: u128) {
        *self as u128
    }

    proof fn lemma_rank_decides(a: Self, b: Self) {
    }
}

impl TableKey for AddressHash {
    /// Byte by byte, the first byte deciding first.
    open spec fn rank(self) -> nat {
        crate::bytes::be_value(self@)
    }

    fn order_key(&self) -> (key: u128) {
        self.as_number()
    }

    proof fn lemma_rank_decides(a: Self, b: Self) {
        AddressHash::lemma_bytes_decide(a, b);
        AddressHash::lemma_bytes_decide(b, a);
        crate::bytes::lemma_be_value_injective(a@, b@);
    }
}

/// A value that remembers when it was last touched, in milliseconds.
pub trait Stamped: Sized {
    /// When the value was last touched.
    spec fn stamped_at(self) -> u64;

    /// Read the stamp.
    fn stamp(&self) -> (at: u64)
        ensures
            at == self.stamped_at(),
    ;
}

/// How long ago `then` was at `now`. A stamp from the future is no time ago.
pub open spec fn age(now: u64, then: u64) -> int {
    if now >= then {
        now - then
    } else {
        0
    }
}

/// The same, at run time.
pub fn elapsed(now: u64, then: u64) -> (gone: u64)
    ensures
        gone == age(now, then),
{
    now.saturating_sub(then)
}

/// The rows of `m` younger than `ttl` at `now`.
pub open spec fn fresh_part<K, V: Stamped>(m: Map<K, V>, now: u64, ttl: u64) -> Map<K, V> {
    m.restrict(Set::new(|k: K| m.contains_key(k) && age(now, m[k].stamped_at()) < ttl))
}

/// Whether `k` is a row of `m` that no row is older than.
pub open spec fn is_oldest<K, V: Stamped>(m: Map<K, V>, k: K) -> bool {
    &&& m.contains_key(k)
    &&& forall|other: K| #[trigger]
        m.contains_key(other) ==> m[k].stamped_at() <= m[other].stamped_at()
}

/// Whether `k` is the first, in key order, of the rows of `m` that no row is older than.
pub open spec fn is_first_oldest<K: TableKey, V: Stamped>(m: Map<K, V>, k: K) -> bool {
    &&& is_oldest(m, k)
    &&& forall|other: K| #[trigger] is_oldest(m, other) ==> k.rank() <= other.rank()
}

/// The first, in key order, of the rows that no row is older than.
pub open spec fn first_oldest<K: TableKey, V: Stamped>(m: Map<K, V>) -> K {
    choose|k: K| is_first_oldest(m, k)
}

/// There is only one first oldest row.
pub proof fn lemma_first_oldest<K: TableKey, V: Stamped>(m: Map<K, V>, k: K)
    requires
        is_first_oldest(m, k),
    ensures
        first_oldest(m) == k,
{
    let chosen = first_oldest(m);
    assert(is_first_oldest(m, chosen));
    assert(is_oldest(m, k) && is_oldest(m, chosen));
    K::lemma_rank_decides(chosen, k);
}

/// A finite table that is not empty has an oldest row.
pub proof fn lemma_has_oldest<K, V: Stamped>(m: Map<K, V>) -> (k: K)
    requires
        m.dom().finite(),
        m.dom().len() > 0,
    ensures
        is_oldest(m, k),
    decreases m.dom().len(),
{
    let one = m.dom().choose();
    let rest = m.remove(one);
    assert(rest.dom() =~= m.dom().remove(one));
    if rest.dom().len() == 0 {
        assert forall|other: K| #[trigger] m.contains_key(other) implies m[one].stamped_at()
            <= m[other].stamped_at() by {
            if other != one {
                assert(rest.dom().contains(other));
            }
        }
        one
    } else {
        let best = lemma_has_oldest(rest);
        let k = if m[one].stamped_at() < m[best].stamped_at() {
            one
        } else {
            best
        };
        assert forall|other: K| #[trigger] m.contains_key(other) implies m[k].stamped_at()
            <= m[other].stamped_at() by {
            if other != one {
                assert(rest.contains_key(other));
            }
        }
        k
    }
}

/// A finite table that is not empty has a first oldest row.
pub proof fn lemma_has_first_oldest<K: TableKey, V: Stamped>(m: Map<K, V>)
    requires
        m.dom().finite(),
        m.dom().len() > 0,
    ensures
        is_first_oldest(m, first_oldest(m)),
{
    let k = lemma_has_oldest(m);
    lemma_lower_oldest(m, k);
}

/// Below an oldest row there is a first one.
proof fn lemma_lower_oldest<K: TableKey, V: Stamped>(m: Map<K, V>, k: K)
    requires
        is_oldest(m, k),
    ensures
        exists|first: K| is_first_oldest(m, first),
    decreases k.rank(),
{
    if !is_first_oldest(m, k) {
        let lower = choose|other: K| #[trigger] is_oldest(m, other) && other.rank() < k.rank();
        lemma_lower_oldest(m, lower);
    }
}

/// A table with room for a new row: all of it while there is room, else less its oldest row,
/// and none of it where nothing may stay.
pub open spec fn made_room<K: TableKey, V: Stamped>(m: Map<K, V>, capacity: nat) -> Map<K, V> {
    if capacity == 0 {
        Map::empty()
    } else if m.dom().len() >= capacity {
        m.remove(first_oldest(m))
    } else {
        m
    }
}

/// Whether `kept` is `m` less its oldest rows, as many as have to go until `capacity` are
/// left. Which of several equally old rows go is left open.
pub open spec fn is_trimmed_to<K, V: Stamped>(
    m: Map<K, V>,
    kept: Map<K, V>,
    capacity: nat,
) -> bool {
    &&& kept.submap_of(m)
    &&& kept.dom().len() == (if m.dom().len() <= capacity {
        m.dom().len()
    } else {
        capacity
    })
    &&& forall|gone: K, stays: K|
        #![trigger m.contains_key(gone), kept.contains_key(stays)]
        m.contains_key(gone) && !kept.contains_key(gone) && kept.contains_key(stays)
            ==> m[gone].stamped_at() <= m[stays].stamped_at()
}

/// A map, stored in key order.
#[verifier::reject_recursive_types(K)]
pub struct Table<K: TableKey, V> {
    rows: Vec<(K, V)>,
}

impl<K: TableKey, V> Table<K, V> {
    /// The rows, smallest key first.
    pub closed spec fn rows(&self) -> Seq<(K, V)> {
        self.rows@
    }

    /// Whether the keys are strictly increasing, so no key occurs twice.
    pub open spec fn inv(&self) -> bool {
        forall|i: int, j: int|
            #![trigger self.rows()[i], self.rows()[j]]
            0 <= i < j < self.rows().len() ==> self.rows()[i].0.rank() < self.rows()[j].0.rank()
    }

    /// Whether row `i` holds `key`.
    pub open spec fn holds_at(&self, i: int, key: K) -> bool {
        0 <= i < self.rows().len() && self.rows()[i].0 == key
    }

    /// The row that holds `key`.
    pub open spec fn index_of(&self, key: K) -> int {
        choose|i: int| self.holds_at(i, key)
    }

    /// The map this table stands for.
    pub open spec fn view(&self) -> Map<K, V> {
        Map::new(
            |key: K| exists|i: int| self.holds_at(i, key),
            |key: K| self.rows()[self.index_of(key)].1,
        )
    }

    /// Every row is an entry of the map, and a key found at a row is found at no other.
    pub proof fn lemma_row(&self, i: int)
        requires
            self.inv(),
            0 <= i < self.rows().len(),
        ensures
            self.view().contains_key(self.rows()[i].0),
            self.view()[self.rows()[i].0] == self.rows()[i].1,
            self.index_of(self.rows()[i].0) == i,
    {
        let key = self.rows()[i].0;
        assert(self.holds_at(i, key));
        let j = self.index_of(key);
        assert(self.holds_at(j, key));
        if j < i {
            assert(self.rows()[j].0.rank() < self.rows()[i].0.rank());
        }
        if i < j {
            assert(self.rows()[i].0.rank() < self.rows()[j].0.rank());
        }
    }

    /// Every entry of the map is a row.
    pub proof fn lemma_entry(&self, key: K)
        requires
            self.inv(),
            self.view().contains_key(key),
        ensures
            self.holds_at(self.index_of(key), key),
            self.view()[key] == self.rows()[self.index_of(key)].1,
    {
    }

    /// The map is finite and has as many entries as there are rows.
    pub proof fn lemma_size(&self)
        requires
            self.inv(),
        ensures
            self.view().dom().finite(),
            self.view().dom().len() == self.rows().len(),
    {
        let keys = self.rows().map_values(|row: (K, V)| row.0);
        assert(keys.no_duplicates()) by {
            assert forall|i: int, j: int|
                0 <= i < keys.len() && 0 <= j < keys.len() && i != j implies keys[i] != keys[j] by {
                if i < j {
                    assert(self.rows()[i].0.rank() < self.rows()[j].0.rank());
                } else {
                    assert(self.rows()[j].0.rank() < self.rows()[i].0.rank());
                }
            }
        }
        keys.unique_seq_to_set();
        assert(self.view().dom() =~= keys.to_set()) by {
            assert forall|key: K| self.view().dom().contains(key) implies keys.to_set().contains(key) by {
                let i = self.index_of(key);
                assert(self.holds_at(i, key));
                assert(keys[i] == key);
            }
            assert forall|key: K| keys.to_set().contains(key) implies self.view().dom().contains(key) by {
                let i = choose|i: int| 0 <= i < keys.len() && keys[i] == key;
                assert(self.holds_at(i, key));
            }
        }
    }

    /// An empty table.
    pub fn new() -> (table: Self)
        ensures
            table.inv(),
            table.view() == Map::<K, V>::empty(),
            table.rows() == Seq::<(K, V)>::empty(),
    {
        let table = Table { rows: Vec::new() };
        assert(table.view() =~= Map::<K, V>::empty()) by {
            assert forall|key: K| !table.view().contains_key(key) by {
                if table.view().contains_key(key) {
                    let i = choose|i: int| table.holds_at(i, key);
                    assert(table.holds_at(i, key));
                }
            }
        }
        table
    }

    /// How many rows there are.
    pub fn len(&self) -> (n: usize)
        requires
            self.inv(),
        ensures
            n == self.rows().len(),
            n == self.view().dom().len(),
    {
        proof {
            self.lemma_size();
        }
        self.rows.len()
    }

    /// The key of row `i`.
    pub fn key_at(&self, i: usize) -> (key: K)
        requires
            i < self.rows().len(),
        ensures
            key == self.rows()[i as int].0,
    {
        self.rows[i].0
    }

    /// The value of row `i`.
    pub fn value_at(&self, i: usize) -> (value: &V)
        requires
            i < self.rows().len(),
        ensures
            *value == self.rows()[i as int].1,
    {
        &self.rows[i].1
    }

    /// How many keys stand before `key`.
    fn position(&self, key: &K) -> (at: usize)
        requires
            self.inv(),
        ensures
            at <= self.rows().len(),
            forall|i: int| 0 <= i < at ==> (#[trigger] self.rows()[i]).0.rank() < key.rank(),
            forall|i: int|
                at <= i < self.rows().len() ==> (#[trigger] self.rows()[i]).0.rank() >= key.rank(),
    {
        let wanted: u128 = key.order_key();
        let mut low: usize = 0;
        let mut high: usize = self.rows.len();
        while low < high
            invariant
                low <= high <= self.rows().len(),
                self.inv(),
                wanted as nat == key.rank(),
                self.rows().len() == self.rows@.len(),
                forall|i: int| 0 <= i < low ==> (#[trigger] self.rows()[i]).0.rank() < key.rank(),
                forall|i: int|
                    high <= i < self.rows().len() ==> (#[trigger] self.rows()[i]).0.rank()
                        >= key.rank(),
            decreases high - low,
        {
            let middle: usize = low + (high - low) / 2;
            let here: u128 = self.rows[middle].0.order_key();
            assert(here as nat == self.rows()[middle as int].0.rank());
            if here < wanted {
                low = middle + 1;
            } else {
                high = middle;
            }
        }
        low
    }

    /// The row that holds `key`, if one does.
    pub fn find(&self, key: &K) -> (at: Option<usize>)
        requires
            self.inv(),
        ensures
            at is Some <==> self.view().contains_key(*key),
            at matches Some(i) ==> self.holds_at(i as int, *key) && self.view()[*key]
                == self.rows()[i as int].1,
    {
        let at: usize = self.position(key);
        if at < self.rows.len() && self.rows[at].0.order_key() == key.order_key() {
            proof {
                K::lemma_rank_decides(self.rows()[at as int].0, *key);
                self.lemma_row(at as int);
            }
            Some(at)
        } else {
            proof {
                if self.view().contains_key(*key) {
                    let i = self.index_of(*key);
                    assert(self.holds_at(i, *key));
                    assert(self.rows()[i].0.rank() == key.rank());
                    assert(at <= i);
                    if at < i {
                        assert(self.rows()[at as int].0.rank() < self.rows()[i].0.rank());
                    }
                }
            }
            None
        }
    }

    /// Whether `key` has a row.
    pub fn contains_key(&self, key: &K) -> (known: bool)
        requires
            self.inv(),
        ensures
            known == self.view().contains_key(*key),
    {
        self.find(key).is_some()
    }

    /// The value under `key`.
    pub fn get(&self, key: &K) -> (value: Option<&V>)
        requires
            self.inv(),
        ensures
            value is Some <==> self.view().contains_key(*key),
            value matches Some(v) ==> *v == self.view()[*key],
    {
        match self.find(key) {
            Some(i) => Some(&self.rows[i].1),
            None => None,
        }
    }

    /// Put `value` under `key`, replacing what was there.
    pub fn insert(&mut self, key: K, value: V)
        requires
            old(self).inv(),
        ensures
            final(self).inv(),
            final(self).view() == old(self).view().insert(key, value),
            final(self).rows().len() == old(self).rows().len() + (if old(
                self,
            ).view().contains_key(key) {
                0int
            } else {
                1int
            }),
    {
        let at: usize = self.position(&key);
        let ghost before = *self;
        if at < self.rows.len() && self.rows[at].0.order_key() == key.order_key() {
            proof {
                K::lemma_rank_decides(self.rows()[at as int].0, key);
                self.lemma_row(at as int);
            }
            self.rows.set(at, (key, value));
            proof {
                assert(self.rows() =~= before.rows().update(at as int, (key, value)));
                assert forall|i: int, j: int|
                    #![trigger self.rows()[i], self.rows()[j]]
                    0 <= i < j < self.rows().len() implies self.rows()[i].0.rank()
                    < self.rows()[j].0.rank() by {
                    assert(before.rows()[i].0.rank() < before.rows()[j].0.rank());
                }
                assert forall|k: K| #[trigger]
                    self.view().contains_key(k) == before.view().insert(key, value).contains_key(
                        k,
                    ) by {
                    if self.view().contains_key(k) {
                        let i = self.index_of(k);
                        assert(self.holds_at(i, k));
                        assert(before.holds_at(i, k));
                    }
                    if before.view().contains_key(k) {
                        let i = before.index_of(k);
                        assert(before.holds_at(i, k));
                        assert(self.holds_at(i, k));
                    }
                    if k == key {
                        assert(self.holds_at(at as int, k));
                    }
                }
                assert forall|k: K| #[trigger]
                    self.view().contains_key(k) implies self.view()[k] == before.view().insert(
                    key,
                    value,
                )[k] by {
                    let i = self.index_of(k);
                    assert(self.holds_at(i, k));
                    self.lemma_row(i);
                    if k != key {
                        assert(before.holds_at(i, k));
                        before.lemma_row(i);
                    } else {
                        self.lemma_row(at as int);
                    }
                }
                assert(self.view() =~= before.view().insert(key, value));
            }
        } else {
            proof {
                assert forall|i: int|
                    at <= i < self.rows().len() implies self.rows()[i].0.rank() > key.rank() by {
                    if self.rows()[i].0.rank() == key.rank() {
                        K::lemma_rank_decides(self.rows()[i].0, key);
                        if i > at {
                            assert(self.rows()[at as int].0.rank() < self.rows()[i].0.rank());
                        }
                    }
                }
                if self.view().contains_key(key) {
                    let i = self.index_of(key);
                    assert(self.holds_at(i, key));
                }
            }
            self.rows.insert(at, (key, value));
            proof {
                assert(self.rows() =~= before.rows().insert(at as int, (key, value)));
                assert forall|i: int, j: int|
                    #![trigger self.rows()[i], self.rows()[j]]
                    0 <= i < j < self.rows().len() implies self.rows()[i].0.rank()
                    < self.rows()[j].0.rank() by {
                    let bi = if i < at { i } else { i - 1 };
                    let bj = if j < at { j } else { j - 1 };
                    if i != at && j != at {
                        assert(before.rows()[bi].0.rank() < before.rows()[bj].0.rank());
                    }
                }
                assert forall|k: K| #[trigger]
                    self.view().contains_key(k) == before.view().insert(key, value).contains_key(
                        k,
                    ) by {
                    if self.view().contains_key(k) {
                        let i = self.index_of(k);
                        assert(self.holds_at(i, k));
                        if i < at {
                            assert(before.holds_at(i, k));
                        } else if i > at {
                            assert(before.holds_at(i - 1, k));
                        }
                    }
                    if before.view().contains_key(k) {
                        let i = before.index_of(k);
                        assert(before.holds_at(i, k));
                        if i < at {
                            assert(self.holds_at(i, k));
                        } else {
                            assert(self.holds_at(i + 1, k));
                        }
                    }
                    if k == key {
                        assert(self.holds_at(at as int, k));
                    }
                }
                assert forall|k: K| #[trigger]
                    self.view().contains_key(k) implies self.view()[k] == before.view().insert(
                    key,
                    value,
                )[k] by {
                    let i = self.index_of(k);
                    assert(self.holds_at(i, k));
                    self.lemma_row(i);
                    if k != key {
                        if i < at {
                            assert(before.holds_at(i, k));
                            before.lemma_row(i);
                        } else {
                            assert(before.holds_at(i - 1, k));
                            before.lemma_row(i - 1);
                        }
                    } else {
                        self.lemma_row(at as int);
                    }
                }
                assert(self.view() =~= before.view().insert(key, value));
            }
        }
    }

    /// Take row `i` out.
    pub fn remove_at(&mut self, i: usize) -> (row: (K, V))
        requires
            old(self).inv(),
            i < old(self).rows().len(),
        ensures
            final(self).inv(),
            row == old(self).rows()[i as int],
            final(self).rows() == old(self).rows().remove(i as int),
            final(self).view() == old(self).view().remove(row.0),
    {
        let ghost before = *self;
        let row = self.rows.remove(i);
        proof {
            assert(self.rows() =~= before.rows().remove(i as int));
            assert forall|a: int, b: int|
                #![trigger self.rows()[a], self.rows()[b]]
                0 <= a < b < self.rows().len() implies self.rows()[a].0.rank()
                < self.rows()[b].0.rank() by {
                let ba = if a < i { a } else { a + 1 };
                let bb = if b < i { b } else { b + 1 };
                assert(before.rows()[ba].0.rank() < before.rows()[bb].0.rank());
            }
            assert forall|k: K| #[trigger]
                self.view().contains_key(k) == before.view().remove(row.0).contains_key(k) by {
                if self.view().contains_key(k) {
                    let j = self.index_of(k);
                    assert(self.holds_at(j, k));
                    let bj = if j < i { j } else { j + 1 };
                    assert(before.holds_at(bj, k));
                    before.lemma_row(bj);
                    before.lemma_row(i as int);
                }
                if before.view().contains_key(k) && k != row.0 {
                    let j = before.index_of(k);
                    assert(before.holds_at(j, k));
                    if j < i {
                        assert(self.holds_at(j, k));
                    } else {
                        assert(self.holds_at(j - 1, k));
                    }
                }
            }
            assert forall|k: K| #[trigger]
                self.view().contains_key(k) implies self.view()[k] == before.view().remove(
                row.0,
            )[k] by {
                let j = self.index_of(k);
                assert(self.holds_at(j, k));
                self.lemma_row(j);
                let bj = if j < i { j } else { j + 1 };
                assert(before.holds_at(bj, k));
                before.lemma_row(bj);
            }
            assert(self.view() =~= before.view().remove(row.0));
        }
        row
    }

    /// Take the row under `key` out, if there is one.
    pub fn remove(&mut self, key: &K) -> (value: Option<V>)
        requires
            old(self).inv(),
        ensures
            final(self).inv(),
            final(self).view() == old(self).view().remove(*key),
            final(self).rows().len() == old(self).rows().len() - (if value is Some {
                1int
            } else {
                0int
            }),
            value is Some <==> old(self).view().contains_key(*key),
            value matches Some(v) ==> v == old(self).view()[*key],
    {
        match self.find(key) {
            Some(i) => {
                let row = self.remove_at(i);
                Some(row.1)
            },
            None => {
                assert(self.view().remove(*key) =~= self.view());
                None
            },
        }
    }
}

impl<K: TableKey, V: Stamped> Table<K, V> {
    /// Drop every row that is `ttl` old or older.
    pub fn drop_aged(&mut self, now: u64, ttl: u64)
        requires
            old(self).inv(),
        ensures
            final(self).inv(),
            final(self).view() == fresh_part(old(self).view(), now, ttl),
            final(self).rows().len() <= old(self).rows().len(),
    {
        let ghost start = self.view();
        let ghost rows = self.rows().len();
        let mut i: usize = 0;
        while i < self.len()
            invariant
                self.inv(),
                i <= self.rows().len() <= rows,
                self.view().submap_of(start),
                forall|k: K| #[trigger]
                    start.contains_key(k) && !self.view().contains_key(k) ==> age(
                        now,
                        start[k].stamped_at(),
                    ) >= ttl,
                forall|j: int|
                    0 <= j < i ==> age(now, (#[trigger] self.rows()[j]).1.stamped_at()) < ttl,
            decreases self.rows().len() - i,
        {
            proof {
                self.lemma_row(i as int);
            }
            let stamp: u64 = self.value_at(i).stamp();
            if elapsed(now, stamp) < ttl {
                i += 1;
            } else {
                let ghost before = *self;
                let row = self.remove_at(i);
                proof {
                    assert forall|j: int| 0 <= j < i implies age(
                        now,
                        (#[trigger] self.rows()[j]).1.stamped_at(),
                    ) < ttl by {
                        assert(self.rows()[j] == before.rows()[j]);
                    }
                }
            }
        }
        proof {
            assert forall|k: K| #[trigger]
                self.view().contains_key(k) == fresh_part(start, now, ttl).contains_key(k) by {
                if self.view().contains_key(k) {
                    let j = self.index_of(k);
                    assert(self.holds_at(j, k));
                    self.lemma_row(j);
                }
            }
            assert(self.view() =~= fresh_part(start, now, ttl));
        }
    }

    /// Take out a row that no row is older than.
    pub fn remove_oldest(&mut self) -> (key: Option<K>)
        requires
            old(self).inv(),
        ensures
            final(self).inv(),
            key is None <==> old(self).rows().len() == 0,
            key is None ==> *final(self) == *old(self),
            key matches Some(k) ==> k == first_oldest(old(self).view()) && is_first_oldest(
                old(self).view(),
                k,
            ) && final(self).view() == old(self).view().remove(k) && final(self).rows().len() + 1
                == old(self).rows().len(),
    {
        if self.rows.len() == 0 {
            return None;
        }
        let mut best: usize = 0;
        let mut least: u64 = self.value_at(0).stamp();
        let mut i: usize = 1;
        while i < self.rows.len()
            invariant
                self.inv(),
                self.rows().len() == self.rows@.len(),
                0 < i <= self.rows().len(),
                best < i,
                least == self.rows()[best as int].1.stamped_at(),
                forall|j: int|
                    0 <= j < i ==> least <= (#[trigger] self.rows()[j]).1.stamped_at(),
                forall|j: int|
                    0 <= j < best ==> least < (#[trigger] self.rows()[j]).1.stamped_at(),
            decreases self.rows().len() - i,
        {
            let stamp: u64 = self.value_at(i).stamp();
            if stamp < least {
                least = stamp;
                best = i;
            }
            i += 1;
        }
        proof {
            self.lemma_row(best as int);
            assert forall|other: K| #[trigger] self.view().contains_key(other) implies least
                <= self.view()[other].stamped_at() by {
                let j = self.index_of(other);
                assert(self.holds_at(j, other));
                self.lemma_row(j);
            }
            let k = self.rows()[best as int].0;
            assert(is_oldest(self.view(), k));
            assert forall|other: K| #[trigger] is_oldest(self.view(), other) implies k.rank()
                <= other.rank() by {
                let j = self.index_of(other);
                assert(self.holds_at(j, other));
                self.lemma_row(j);
                assert(self.view()[other].stamped_at() <= self.view()[k].stamped_at());
                assert(j >= best);
            }
            lemma_first_oldest(self.view(), k);
        }
        let row = self.remove_at(best);
        Some(row.0)
    }

    /// Take out the oldest rows until at most `capacity` are left.
    pub fn trim_oldest(&mut self, capacity: usize)
        requires
            old(self).inv(),
        ensures
            final(self).inv(),
            is_trimmed_to(old(self).view(), final(self).view(), capacity as nat),
            final(self).rows().len() <= capacity,
            final(self).rows().len() <= old(self).rows().len(),
    {
        let ghost start = self.view();
        let ghost rows = self.rows().len();
        proof {
            self.lemma_size();
        }
        while self.len() > capacity
            invariant
                self.inv(),
                rows == start.dom().len(),
                self.rows().len() <= rows,
                self.rows().len() >= capacity || self.rows().len() == rows,
                self.view().submap_of(start),
                forall|gone: K, stays: K|
                    #![trigger start.contains_key(gone), self.view().contains_key(stays)]
                    start.contains_key(gone) && !self.view().contains_key(gone)
                        && self.view().contains_key(stays) ==> start[gone].stamped_at()
                        <= start[stays].stamped_at(),
            decreases self.rows().len(),
        {
            let ghost before = self.view();
            let gone = self.remove_oldest();
            proof {
                let k = gone->0;
                assert(is_oldest(before, k));
                assert(self.view() =~= before.remove(k));
                assert forall|other: K| #[trigger] self.view().contains_key(
                    other,
                ) implies start.contains_key(other) && self.view()[other] == start[other] by {
                    assert(before.dom().contains(other));
                    assert(start.dom().contains(other));
                    assert(self.view()[other] == before[other]);
                }
                assert forall|gone: K, stays: K|
                    #![trigger start.contains_key(gone), self.view().contains_key(stays)]
                    start.contains_key(gone) && !self.view().contains_key(gone)
                        && self.view().contains_key(stays) implies start[gone].stamped_at()
                    <= start[stays].stamped_at() by {
                    assert(before.contains_key(stays));
                    if before.contains_key(gone) {
                        assert(gone == k);
                    }
                }
            }
        }
        proof {
            self.lemma_size();
        }
    }
}

/// A table keyed by address hash.
pub type AddressTable<V> = Table<AddressHash, V>;
/// Room is made by letting the oldest row go and no other: where several are as old, the one
/// with the lowest key. While there is room everything stays, and where nothing may stay
/// everything goes.
pub proof fn law_oldest_row_makes_room<K: TableKey, V: Stamped>(m: Map<K, V>, capacity: nat)
    requires
        m.dom().finite(),
    ensures
        capacity == 0 ==> made_room(m, capacity) == Map::<K, V>::empty(),
        m.dom().len() < capacity ==> made_room(m, capacity) == m,
        m.dom().len() >= capacity > 0 ==> exists|gone: K| #[trigger]
            m.contains_key(gone) && made_room(m, capacity) == m.remove(gone) && (forall|other: K|
             #[trigger]
                m.contains_key(other) && other != gone ==> m[gone].stamped_at()
                    < m[other].stamped_at() || (m[gone].stamped_at() == m[other].stamped_at()
                    && gone.rank() < other.rank())),
{
    if m.dom().len() >= capacity > 0 {
        lemma_has_first_oldest(m);
        let gone = first_oldest(m);
        assert forall|other: K| #[trigger] m.contains_key(other) && other != gone implies m[gone].stamped_at()
            < m[other].stamped_at() || (m[gone].stamped_at() == m[other].stamped_at() && gone.rank()
            < other.rank()) by {
            if m[gone].stamped_at() == m[other].stamped_at() {
                assert(is_oldest(m, other)) by {
                    assert forall|k: K| #[trigger] m.contains_key(k) implies m[other].stamped_at()
                        <= m[k].stamped_at() by {}
                }
                if gone.rank() == other.rank() {
                    K::lemma_rank_decides(gone, other);
                }
            }
        }
        assert(m.contains_key(gone));
    }
}

/// What is fresh of a table is the rows younger than the limit, each as it was.
pub proof fn law_fresh_rows_stay<K, V: Stamped>(m: Map<K, V>, now: u64, ttl: u64, key: K)
    ensures
        fresh_part(m, now, ttl).contains_key(key) <==> m.contains_key(key) && (now
            < m[key].stamped_at() && ttl > 0 || m[key].stamped_at() <= now && now
            - m[key].stamped_at() < ttl),
        fresh_part(m, now, ttl).contains_key(key) ==> fresh_part(m, now, ttl)[key] == m[key],
{
}

} // verus!
