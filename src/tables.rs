//! The kernel blocklist tables. The filter programs read them; this process
//! is their only writer, and keeps no copy of what they hold.

use vstd::prelude::*;
use aya::maps::{HashMap, MapData, MapError};
use crate::common::DROP_CODE;

verus! {

#[verifier::external_type_specification]
#[verifier::external_body]
#[verifier::reject_recursive_types(T)]
#[verifier::reject_recursive_types(K)]
#[verifier::reject_recursive_types(V)]
pub struct ExHashMap<T, K, V>(HashMap<T, K, V>);

#[verifier::external_type_specification]
#[verifier::external_body]
pub struct ExMapData(MapData);

#[verifier::external_type_specification]
#[verifier::external_body]
pub struct ExMapError(MapError);

/// A key/value table of `u32` slots, keyed by `K`.
pub trait BlockTable<K> {
    /// What the table holds.
    spec fn entries(&self) -> Map<K, u32>;

    /// The keys of the table; when the flag is set, every key was read.
    fn list_keys(&self) -> (r: (Vec<K>, bool))
        ensures
            forall|i: int| 0 <= i < r.0@.len() ==> self.entries().contains_key(#[trigger] r.0@[i]),
            r.1 ==> r.0@.to_set() == self.entries().dom(),
    ;

    /// Sets `key` to `value`; on failure the table is unchanged.
    fn put(&mut self, key: K, value: u32) -> (ok: bool)
        ensures
            ok ==> final(self).entries() == old(self).entries().insert(key, value),
            !ok ==> final(self).entries() == old(self).entries(),
    ;

    /// Removes `key`; on failure the table is unchanged.
    fn delete(&mut self, key: K) -> (ok: bool)
        ensures
            ok ==> final(self).entries() == old(self).entries().remove(key),
            !ok ==> final(self).entries() == old(self).entries(),
    ;
}

/// What the kernel hash table of IPv4 keys holds.
pub uninterp spec fn ip_table_entries(t: HashMap<MapData, u32, u32>) -> Map<u32, u32>;

/// What the kernel hash table of port keys holds.
pub uninterp spec fn port_table_entries(t: HashMap<MapData, u16, u32>) -> Map<u16, u32>;

/// Relies on aya's `HashMap::keys`, which visits every key of the table once.
#[verifier::external_body]
fn ip_table_keys(t: &HashMap<MapData, u32, u32>) -> (r: Vec<Result<u32, MapError>>)
    ensures
        forall|i: int|
            0 <= i < r@.len() && (#[trigger] r@[i]).is_ok() ==> ip_table_entries(
                *t,
            ).contains_key(r@[i]->Ok_0),
        (forall|i: int| 0 <= i < r@.len() ==> (#[trigger] r@[i]).is_ok()) ==> forall|k: u32|
            ip_table_entries(*t).contains_key(k) ==> exists|i: int|
                0 <= i < r@.len() && (#[trigger] r@[i]).is_ok() && r@[i]->Ok_0 == k,
{
    t.keys().collect()
}

/// Relies on aya's `HashMap::insert` (flags 0: create or replace the entry).
#[verifier::external_body]
fn ip_table_insert(t: &mut HashMap<MapData, u32, u32>, key: u32, value: u32) -> (r: Result<
    (),
    MapError,
>)
    ensures
        r.is_ok() ==> ip_table_entries(*final(t)) == ip_table_entries(*old(t)).insert(key, value),
        r.is_err() ==> ip_table_entries(*final(t)) == ip_table_entries(*old(t)),
{
    t.insert(key, value, 0)
}

/// Relies on aya's `HashMap::remove`.
#[verifier::external_body]
fn ip_table_remove(t: &mut HashMap<MapData, u32, u32>, key: u32) -> (r: Result<(), MapError>)
    ensures
        r.is_ok() ==> ip_table_entries(*final(t)) == ip_table_entries(*old(t)).remove(key),
        r.is_err() ==> ip_table_entries(*final(t)) == ip_table_entries(*old(t)),
{
    t.remove(&key)
}

/// Relies on aya's `HashMap::keys`, which visits every key of the table once.
#[verifier::external_body]
fn port_table_keys(t: &HashMap<MapData, u16, u32>) -> (r: Vec<Result<u16, MapError>>)
    ensures
        forall|i: int|
            0 <= i < r@.len() && (#[trigger] r@[i]).is_ok() ==> port_table_entries(
                *t,
            ).contains_key(r@[i]->Ok_0),
        (forall|i: int| 0 <= i < r@.len() ==> (#[trigger] r@[i]).is_ok()) ==> forall|k: u16|
            port_table_entries(*t).contains_key(k) ==> exists|i: int|
                0 <= i < r@.len() && (#[trigger] r@[i]).is_ok() && r@[i]->Ok_0 == k,
{
    t.keys().collect()
}

/// Relies on aya's `HashMap::insert` (flags 0: create or replace the entry).
#[verifier::external_body]
fn port_table_insert(t: &mut HashMap<MapData, u16, u32>, key: u16, value: u32) -> (r: Result<
    (),
    MapError,
>)
    ensures
        r.is_ok() ==> port_table_entries(*final(t)) == port_table_entries(*old(t)).insert(
            key,
            value,
        ),
        r.is_err() ==> port_table_entries(*final(t)) == port_table_entries(*old(t)),
{
    t.insert(key, value, 0)
}

/// Relies on aya's `HashMap::remove`.
#[verifier::external_body]
fn port_table_remove(t: &mut HashMap<MapData, u16, u32>, key: u16) -> (r: Result<(), MapError>)
    ensures
        r.is_ok() ==> port_table_entries(*final(t)) == port_table_entries(*old(t)).remove(key),
        r.is_err() ==> port_table_entries(*final(t)) == port_table_entries(*old(t)),
{
    t.remove(&key)
}

impl BlockTable<u32> for HashMap<MapData, u32, u32> {
    open spec fn entries(&self) -> Map<u32, u32> {
        ip_table_entries(*self)
    }

    fn list_keys(&self) -> (r: (Vec<u32>, bool)) {
        let all = ip_table_keys(self);
        let mut keys: Vec<u32> = Vec::new();
        let mut complete = true;
        let mut i: usize = 0;
        while i < all.len()
            invariant
                i <= all@.len(),
                forall|j: int|
                    0 <= j < all@.len() && (#[trigger] all@[j]).is_ok() ==> self.entries().contains_key(
                        all@[j]->Ok_0,
                    ),
                forall|j: int| 0 <= j < keys@.len() ==> self.entries().contains_key(#[trigger] keys@[j]),
                complete ==> forall|j: int| 0 <= j < i ==> (#[trigger] all@[j]).is_ok(),
                forall|j: int| 0 <= j < i && (#[trigger] all@[j]).is_ok() ==> keys@.contains(all@[j]->Ok_0),
            decreases all@.len() - i,
        {
            match &all[i] {
                Ok(k) => {
                    proof {
                        assert(all@[i as int].is_ok() && all@[i as int]->Ok_0 == *k);
                    }
                    let ghost before = keys@;
                    keys.push(*k);
                    proof {
                        assert(keys@[keys@.len() - 1] == *k);
                        assert forall|j: int| 0 <= j < i && (#[trigger] all@[j]).is_ok() implies keys@.contains(all@[j]->Ok_0) by {
                            let w = choose|w: int| 0 <= w < before.len() && before[w] == all@[j]->Ok_0;
                            assert(keys@[w] == before[w]);
                        }
                    }
                },
                Err(_) => {
                    complete = false;
                },
            }
            i = i + 1;
        }
        proof {
            if complete {
                assert forall|k: u32| #[trigger] keys@.to_set().contains(k) <==> self.entries().dom().contains(k) by {
                    if self.entries().contains_key(k) {
                        let j = choose|j: int| 0 <= j < all@.len() && (#[trigger] all@[j]).is_ok() && all@[j]->Ok_0 == k;
                        assert(keys@.contains(k));
                    }
                    if keys@.to_set().contains(k) {
                        let j = choose|j: int| 0 <= j < keys@.len() && keys@[j] == k;
                        assert(self.entries().contains_key(keys@[j]));
                    }
                }
                assert(keys@.to_set() =~= self.entries().dom());
            }
        }
        (keys, complete)
    }

    fn put(&mut self, key: u32, value: u32) -> (ok: bool) {
        ip_table_insert(self, key, value).is_ok()
    }

    fn delete(&mut self, key: u32) -> (ok: bool) {
        ip_table_remove(self, key).is_ok()
    }
}

impl BlockTable<u16> for HashMap<MapData, u16, u32> {
    open spec fn entries(&self) -> Map<u16, u32> {
        port_table_entries(*self)
    }

    fn list_keys(&self) -> (r: (Vec<u16>, bool)) {
        let all = port_table_keys(self);
        let mut keys: Vec<u16> = Vec::new();
        let mut complete = true;
        let mut i: usize = 0;
        while i < all.len()
            invariant
                i <= all@.len(),
                forall|j: int|
                    0 <= j < all@.len() && (#[trigger] all@[j]).is_ok() ==> self.entries().contains_key(
                        all@[j]->Ok_0,
                    ),
                forall|j: int| 0 <= j < keys@.len() ==> self.entries().contains_key(#[trigger] keys@[j]),
                complete ==> forall|j: int| 0 <= j < i ==> (#[trigger] all@[j]).is_ok(),
                forall|j: int| 0 <= j < i && (#[trigger] all@[j]).is_ok() ==> keys@.contains(all@[j]->Ok_0),
            decreases all@.len() - i,
        {
            match &all[i] {
                Ok(k) => {
                    proof {
                        assert(all@[i as int].is_ok() && all@[i as int]->Ok_0 == *k);
                    }
                    let ghost before = keys@;
                    keys.push(*k);
                    proof {
                        assert(keys@[keys@.len() - 1] == *k);
                        assert forall|j: int| 0 <= j < i && (#[trigger] all@[j]).is_ok() implies keys@.contains(all@[j]->Ok_0) by {
                            let w = choose|w: int| 0 <= w < before.len() && before[w] == all@[j]->Ok_0;
                            assert(keys@[w] == before[w]);
                        }
                    }
                },
                Err(_) => {
                    complete = false;
                },
            }
            i = i + 1;
        }
        proof {
            if complete {
                assert forall|k: u16| #[trigger] keys@.to_set().contains(k) <==> self.entries().dom().contains(k) by {
                    if self.entries().contains_key(k) {
                        let j = choose|j: int| 0 <= j < all@.len() && (#[trigger] all@[j]).is_ok() && all@[j]->Ok_0 == k;
                        assert(keys@.contains(k));
                    }
                    if keys@.to_set().contains(k) {
                        let j = choose|j: int| 0 <= j < keys@.len() && keys@[j] == k;
                        assert(self.entries().contains_key(keys@[j]));
                    }
                }
                assert(keys@.to_set() =~= self.entries().dom());
            }
        }
        (keys, complete)
    }

    fn put(&mut self, key: u16, value: u32) -> (ok: bool) {
        port_table_insert(self, key, value).is_ok()
    }

    fn delete(&mut self, key: u16) -> (ok: bool) {
        port_table_remove(self, key).is_ok()
    }
}


/// The table that blocks exactly `keys`.
pub open spec fn drop_entries<K>(keys: Seq<K>) -> Map<K, u32> {
    Map::new(|k: K| keys.contains(k), |k: K| DROP_CODE)
}

/// How a `replace_all` went: whether every earlier key was removed, and the
/// keys whose insertion failed (they were skipped).
pub struct ReplaceReport<K> {
    pub cleared: bool,
    pub failed: Vec<K>,
}

impl<K> ReplaceReport<K> {
    /// Every earlier key was removed and every new key inserted.
    pub fn is_complete(&self) -> (r: bool)
        ensures
            r == (self.cleared && self.failed@.len() == 0),
    {
        self.cleared && self.failed.len() == 0
    }
}

/// Makes `table` block exactly `keys`: removes the keys it holds, then inserts
/// each of `keys` with the drop action. Not atomic: in between, the table
/// blocks less. A key that cannot be removed or inserted is skipped and reported.
pub fn replace_all<K: Copy, T: BlockTable<K>>(table: &mut T, keys: &Vec<K>) -> (r: ReplaceReport<K>)
    ensures
        r.cleared ==> forall|k: K|
            #[trigger] final(table).entries().contains_key(k) ==> keys@.contains(k)
                && final(table).entries()[k] == DROP_CODE,
        forall|k: K|
            keys@.contains(k) && !r.failed@.contains(k) ==> #[trigger] final(table).entries().contains_key(k)
                && final(table).entries()[k] == DROP_CODE,
        forall|i: int| 0 <= i < r.failed@.len() ==> keys@.contains(#[trigger] r.failed@[i]),
        r.cleared && r.failed@.len() == 0 ==> final(table).entries() == drop_entries(keys@),
        forall|k: K|
            #[trigger] final(table).entries().contains_key(k) ==> (old(table).entries().contains_key(k)
                && final(table).entries()[k] == old(table).entries()[k]) || (keys@.contains(k)
                && final(table).entries()[k] == DROP_CODE),
{
    let (existing, complete) = table.list_keys();
    let ghost start = table.entries();
    let mut cleared = complete;
    let mut i: usize = 0;
    while i < existing.len()
        invariant
            i <= existing@.len(),
            cleared ==> complete && existing@.to_set() == start.dom(),
            start == old(table).entries(),
            forall|k: K| #[trigger] table.entries().contains_key(k) ==> start.contains_key(k) && table.entries()[k] == start[k],
            cleared ==> forall|j: int| 0 <= j < i ==> !table.entries().contains_key(#[trigger] existing@[j]),
        decreases existing@.len() - i,
    {
        let k = existing[i];
        if !table.delete(k) {
            cleared = false;
        }
        i = i + 1;
    }
    proof {
        if cleared {
            assert forall|k: K| !#[trigger] table.entries().contains_key(k) by {
                if table.entries().contains_key(k) {
                    assert(existing@.to_set().contains(k));
                    let j = choose|j: int| 0 <= j < existing@.len() && existing@[j] == k;
                    assert(!table.entries().contains_key(existing@[j]));
                }
            }
        }
    }
    let mut failed: Vec<K> = Vec::new();
    let mut j: usize = 0;
    while j < keys.len()
        invariant
            j <= keys@.len(),
            cleared ==> forall|k: K|
                #[trigger] table.entries().contains_key(k) ==> keys@.subrange(0, j as int).contains(k)
                    && table.entries()[k] == DROP_CODE,
            forall|k: K|
                keys@.subrange(0, j as int).contains(k) && !failed@.contains(k) ==> #[trigger] table.entries().contains_key(k)
                    && table.entries()[k] == DROP_CODE,
            forall|i: int| 0 <= i < failed@.len() ==> keys@.contains(#[trigger] failed@[i]),
            forall|k: K|
                #[trigger] table.entries().contains_key(k) ==> (start.contains_key(k)
                    && table.entries()[k] == start[k]) || (keys@.contains(k)
                    && table.entries()[k] == DROP_CODE),
            start == old(table).entries(),
        decreases keys@.len() - j,
    {
        let k = keys[j];
        let ghost pre = keys@.subrange(0, j as int);
        let ghost failed_before = failed@;
        proof {
            assert(keys@.subrange(0, j + 1) =~= pre.push(k));
        }
        if !table.put(k, DROP_CODE) {
            failed.push(k);
            proof {
                assert forall|x: K| keys@.subrange(0, j + 1).contains(x) && !failed@.contains(x) implies #[trigger] table.entries().contains_key(x)
                    && table.entries()[x] == DROP_CODE by {
                    if x != k {
                        let w = choose|w: int| 0 <= w < j + 1 && #[trigger] keys@.subrange(0, j + 1)[w] == x;
                        assert(pre[w] == x);
                        assert(pre.contains(x));
                        if failed_before.contains(x) {
                            let v = choose|v: int| 0 <= v < failed_before.len() && #[trigger] failed_before[v] == x;
                            assert(failed@[v] == x);
                        }
                    } else {
                        assert(failed@[failed@.len() - 1] == k);
                    }
                }
            }
        } else {
            proof {
                assert forall|x: K| keys@.subrange(0, j + 1).contains(x) && !failed@.contains(x) implies #[trigger] table.entries().contains_key(x)
                    && table.entries()[x] == DROP_CODE by {
                    if x != k {
                        let w = choose|w: int| 0 <= w < j + 1 && #[trigger] keys@.subrange(0, j + 1)[w] == x;
                        assert(pre[w] == x);
                    }
                }
                if cleared {
                    assert forall|x: K| #[trigger] table.entries().contains_key(x) implies keys@.subrange(0, j + 1).contains(x)
                        && table.entries()[x] == DROP_CODE by {
                        if x == k {
                            assert(keys@.subrange(0, j + 1)[j as int] == k);
                        } else {
                            let w = choose|w: int| 0 <= w < j && #[trigger] pre[w] == x;
                            assert(keys@.subrange(0, j + 1)[w] == x);
                        }
                    }
                }
            }
        }
        j = j + 1;
    }
    proof {
        assert(keys@.subrange(0, keys@.len() as int) =~= keys@);
        if cleared && failed@.len() == 0 {
            assert(table.entries() =~= drop_entries(keys@));
        }
    }
    ReplaceReport { cleared, failed }
}

/// A key type of the tables, compared by value.
pub trait TableKey: Copy {
    fn same(&self, other: &Self) -> (r: bool)
        ensures
            r == (*self == *other),
    ;
}

impl TableKey for u32 {
    fn same(&self, other: &u32) -> (r: bool) {
        *self == *other
    }
}

impl TableKey for u16 {
    fn same(&self, other: &u16) -> (r: bool) {
        *self == *other
    }
}

/// A table held in process memory that behaves as a kernel hash table does:
/// at most `capacity` entries, inserts of new keys fail when it is full,
/// removing an absent key fails.
pub struct MemoryTable<K> {
    slots: Vec<(K, u32)>,
    capacity: usize,
}

/// `i` is the first slot holding `k`.
pub open spec fn first_slot<K>(s: Seq<(K, u32)>, k: K, i: int) -> bool {
    0 <= i < s.len() && s[i].0 == k && forall|j: int| 0 <= j < i ==> s[j].0 != k
}

proof fn lemma_first_slot_unique<K>(s: Seq<(K, u32)>, k: K, i: int, j: int)
    requires
        first_slot(s, k, i),
        first_slot(s, k, j),
    ensures
        i == j,
{
}

impl<K: TableKey> MemoryTable<K> {
    pub closed spec fn capacity(&self) -> nat {
        self.capacity as nat
    }

    /// An empty table with room for `capacity` keys.
    pub fn new(capacity: usize) -> (r: Self)
        ensures
            r.entries() == Map::<K, u32>::empty(),
            r.capacity() == capacity,
    {
        let r = MemoryTable { slots: Vec::new(), capacity };
        proof {
            assert(r.entries() =~= Map::<K, u32>::empty());
        }
        r
    }

    fn position(&self, key: K) -> (r: Option<usize>)
        ensures
            r.is_some() ==> first_slot(self.slots@, key, r.unwrap() as int),
            r.is_none() ==> forall|j: int| 0 <= j < self.slots@.len() ==> self.slots@[j].0 != key,
    {
        let mut i: usize = 0;
        while i < self.slots.len()
            invariant
                i <= self.slots@.len(),
                forall|j: int| 0 <= j < i ==> self.slots@[j].0 != key,
            decreases self.slots@.len() - i,
        {
            if self.slots[i].0.same(&key) {
                return Some(i);
            }
            i = i + 1;
        }
        None
    }

    /// The value held for `key`, if any.
    pub fn get(&self, key: K) -> (r: Option<u32>)
        ensures
            r.is_some() == self.entries().contains_key(key),
            r.is_some() ==> r.unwrap() == self.entries()[key],
    {
        match self.position(key) {
            Some(i) => {
                proof {
                    let c = choose|c: int| first_slot(self.slots@, key, c);
                    lemma_first_slot_unique(self.slots@, key, c, i as int);
                }
                Some(self.slots[i].1)
            },
            None => None,
        }
    }
}

impl<K: TableKey> BlockTable<K> for MemoryTable<K> {
    closed spec fn entries(&self) -> Map<K, u32> {
        Map::new(
            |k: K| exists|i: int| 0 <= i < self.slots@.len() && self.slots@[i].0 == k,
            |k: K| self.slots@[choose|i: int| first_slot(self.slots@, k, i)].1,
        )
    }

    fn list_keys(&self) -> (r: (Vec<K>, bool)) {
        let mut out: Vec<K> = Vec::new();
        let mut i: usize = 0;
        while i < self.slots.len()
            invariant
                i <= self.slots@.len(),
                out@.len() == i,
                forall|j: int| 0 <= j < i ==> #[trigger] out@[j] == self.slots@[j].0,
            decreases self.slots@.len() - i,
        {
            out.push(self.slots[i].0);
            i = i + 1;
        }
        proof {
            assert forall|k: K| #[trigger] out@.to_set().contains(k) == self.entries().dom().contains(k) by {
                if self.entries().dom().contains(k) {
                    let w = choose|w: int| 0 <= w < self.slots@.len() && self.slots@[w].0 == k;
                    assert(out@[w] == k);
                }
                if out@.to_set().contains(k) {
                    let w = choose|w: int| 0 <= w < out@.len() && out@[w] == k;
                    assert(self.slots@[w].0 == k);
                }
            }
            assert(out@.to_set() =~= self.entries().dom());
            assert forall|j: int| 0 <= j < out@.len() implies self.entries().contains_key(#[trigger] out@[j]) by {
                assert(self.slots@[j].0 == out@[j]);
            }
        }
        (out, true)
    }

    fn put(&mut self, key: K, value: u32) -> (ok: bool) {
        let ghost pre = self.slots@;
        match self.position(key) {
            Some(i) => {
                self.slots.set(i, (key, value));
                proof {
                    let post = self.slots@;
                    assert forall|k: K| #[trigger] self.entries().contains_key(k) == old(self).entries().insert(key, value).contains_key(k) by {
                        if exists|w: int| 0 <= w < pre.len() && pre[w].0 == k {
                            let w = choose|w: int| 0 <= w < pre.len() && pre[w].0 == k;
                            if w != i {
                                assert(post[w].0 == k);
                            }
                        }
                        if k == key {
                            assert(post[i as int].0 == k);
                        }
                    }
                    assert forall|k: K| self.entries().contains_key(k) implies #[trigger] self.entries()[k] == old(self).entries().insert(key, value)[k] by {
                        let w = choose|w: int| 0 <= w < post.len() && post[w].0 == k;
                        lemma_first_slot_exists(post, k, w);
                        let c = choose|c: int| first_slot(post, k, c);
                        if k == key {
                            lemma_first_slot_unique(post, k, c, i as int);
                        } else {
                            assert forall|j: int| 0 <= j < c implies pre[j].0 != k by {
                                if j != i {
                                    assert(post[j] == pre[j]);
                                }
                            }
                            assert(post[c] == pre[c]);
                            assert(first_slot(pre, k, c));
                            let c0 = choose|c0: int| first_slot(pre, k, c0);
                            lemma_first_slot_unique(pre, k, c, c0);
                        }
                    }
                    assert(self.entries() =~= old(self).entries().insert(key, value));
                }
                true
            },
            None => {
                if self.slots.len() >= self.capacity {
                    return false;
                }
                self.slots.push((key, value));
                proof {
                    let post = self.slots@;
                    assert forall|k: K| #[trigger] self.entries().contains_key(k) == old(self).entries().insert(key, value).contains_key(k) by {
                        if exists|w: int| 0 <= w < pre.len() && pre[w].0 == k {
                            let w = choose|w: int| 0 <= w < pre.len() && pre[w].0 == k;
                            assert(post[w].0 == k);
                        }
                        if k == key {
                            assert(post[pre.len() as int].0 == k);
                        }
                    }
                    assert forall|k: K| self.entries().contains_key(k) implies #[trigger] self.entries()[k] == old(self).entries().insert(key, value)[k] by {
                        let w = choose|w: int| 0 <= w < post.len() && post[w].0 == k;
                        lemma_first_slot_exists(post, k, w);
                        let c = choose|c: int| first_slot(post, k, c);
                        if k == key {
                            lemma_first_slot_unique(post, k, c, pre.len() as int);
                        } else {
                            assert(c < pre.len());
                            assert forall|j: int| 0 <= j < c implies pre[j].0 != k by {
                                assert(post[j] == pre[j]);
                            }
                            assert(post[c] == pre[c]);
                            assert(first_slot(pre, k, c));
                            let c0 = choose|c0: int| first_slot(pre, k, c0);
                            lemma_first_slot_unique(pre, k, c, c0);
                        }
                    }
                    assert(self.entries() =~= old(self).entries().insert(key, value));
                }
                true
            },
        }
    }

    fn delete(&mut self, key: K) -> (ok: bool) {
        if self.position(key).is_none() {
            return false;
        }
        let ghost pre = self.slots@;
        let mut kept: Vec<(K, u32)> = Vec::new();
        let ghost mut from: Seq<int> = Seq::empty();
        let mut i: usize = 0;
        while i < self.slots.len()
            invariant
                i <= self.slots@.len(),
                pre == self.slots@,
                kept@.len() == from.len(),
                forall|j: int| 0 <= j < kept@.len() ==> 0 <= #[trigger] from[j] < i && kept@[j] == pre[from[j]] && pre[from[j]].0 != key,
                forall|a: int, b: int| 0 <= a < b < from.len() ==> #[trigger] from[a] < #[trigger] from[b],
                forall|w: int| 0 <= w < i && pre[w].0 != key ==> exists|j: int| 0 <= j < kept@.len() && #[trigger] from[j] == w,
            decreases self.slots@.len() - i,
        {
            let e = self.slots[i];
            if !e.0.same(&key) {
                let ghost kept_before = kept@;
                let ghost from_before = from;
                kept.push(e);
                proof {
                    from = from.push(i as int);
                    assert(from[from.len() - 1] == i);
                    assert forall|w: int| 0 <= w < i + 1 && pre[w].0 != key implies exists|j: int| 0 <= j < kept@.len() && #[trigger] from[j] == w by {
                        if w < i {
                            let j = choose|j: int| 0 <= j < kept_before.len() && #[trigger] from_before[j] == w;
                            assert(from[j] == w);
                        } else {
                            assert(from[kept@.len() - 1] == w);
                        }
                    }
                }
            }
            i = i + 1;
        }
        self.slots = kept;
        proof {
            let post = self.slots@;
            assert forall|k: K| #[trigger] self.entries().contains_key(k) == old(self).entries().remove(key).contains_key(k) by {
                if exists|w: int| 0 <= w < pre.len() && pre[w].0 == k {
                    let w = choose|w: int| 0 <= w < pre.len() && pre[w].0 == k;
                    if k != key {
                        let j = choose|j: int| 0 <= j < post.len() && #[trigger] from[j] == w;
                        assert(post[j].0 == k);
                    }
                }
                if exists|w: int| 0 <= w < post.len() && post[w].0 == k {
                    let w = choose|w: int| 0 <= w < post.len() && post[w].0 == k;
                    assert(pre[from[w]].0 == k);
                }
            }
            assert forall|k: K| self.entries().contains_key(k) implies #[trigger] self.entries()[k] == old(self).entries().remove(key)[k] by {
                let w = choose|w: int| 0 <= w < post.len() && post[w].0 == k;
                lemma_first_slot_exists(post, k, w);
                let c = choose|c: int| first_slot(post, k, c);
                assert(pre[from[c]].0 == k);
                lemma_first_slot_exists(pre, k, from[c]);
                let c0 = choose|c0: int| first_slot(pre, k, c0);
                if c0 < from[c] {
                    let j = choose|j: int| 0 <= j < post.len() && #[trigger] from[j] == c0;
                    if j < c {
                    } else {
                        assert(from[c] < from[j] || j == c);
                    }
                } else if c0 > from[c] {
                    assert(pre[from[c]].0 == k);
                }
                assert(c0 == from[c]);
            }
            assert(self.entries() =~= old(self).entries().remove(key));
        }
        true
    }
}

proof fn lemma_first_slot_exists<K>(s: Seq<(K, u32)>, k: K, w: int)
    requires
        0 <= w < s.len(),
        s[w].0 == k,
    ensures
        exists|i: int| first_slot(s, k, i),
    decreases w,
{
    if forall|j: int| 0 <= j < w ==> s[j].0 != k {
        assert(first_slot(s, k, w));
    } else {
        let j = choose|j: int| 0 <= j < w && s[j].0 == k;
        lemma_first_slot_exists(s, k, j);
    }
}
} // verus!
