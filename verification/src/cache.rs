//! Bounded associative caches for tile work.
//!
//! Both render caches (base-tile screen positions and decoded overlay
//! tiles) are capacity-bounded tables keyed by tile identity, reset at the
//! start of every frame.  A full table rejects new entries instead of
//! evicting old ones: a miss under pressure costs a redecode or redraw,
//! never a correctness violation, so rejected inserts and later misses are
//! only diagnostic events.  Inserting past capacity therefore never
//! disturbs what is already remembered, and a lookup of an identity that
//! was never accepted simply reports a miss.

use vstd::prelude::*;

verus! {

/// The map held by a key/value table read back to front, so that a later
/// entry for a key would shadow an earlier one (well-formed tables have
/// distinct keys, making the order irrelevant).
spec fn map_of<V>(keys: Seq<u32>, vals: Seq<V>) -> Map<u32, V>
    decreases keys.len(),
{
    if keys.len() == 0 || vals.len() == 0 {
        Map::empty()
    } else {
        map_of(keys.drop_last(), vals.drop_last()).insert(keys.last(), vals.last())
    }
}

/// A capacity-bounded associative table with no eviction.
pub struct BoundedCache<V> {
    keys: Vec<u32>,
    vals: Vec<V>,
    capacity: usize,
}

impl<V> BoundedCache<V> {
    /// The fixed number of slots.
    pub closed spec fn capacity(self) -> nat {
        self.capacity as nat
    }

    /// How many slots are taken.
    pub closed spec fn len(self) -> nat {
        self.keys@.len()
    }

    /// Internal invariant: parallel key and value columns, within capacity,
    /// all keys distinct.
    pub closed spec fn wf(self) -> bool {
        &&& self.keys@.len() == self.vals@.len()
        &&& self.keys@.len() <= self.capacity
        &&& forall|i: int, j: int|
            0 <= i < j < self.keys@.len() ==> self.keys@[i] != self.keys@[j]
    }

    /// The remembered associations.
    pub closed spec fn model(self) -> Map<u32, V> {
        map_of(self.keys@, self.vals@)
    }

    /// An empty table with the given number of slots.
    pub fn new(capacity: usize) -> (c: Self)
        ensures
            c.wf(),
            c.capacity() == capacity,
            c.len() == 0,
            c.model() == Map::<u32, V>::empty(),
    {
        BoundedCache { keys: Vec::new(), vals: Vec::new(), capacity }
    }

    /// Forget everything; the capacity stays.
    pub fn clear(&mut self)
        ensures
            final(self).wf(),
            final(self).capacity() == old(self).capacity(),
            final(self).len() == 0,
            final(self).model() == Map::<u32, V>::empty(),
    {
        self.keys.clear();
        self.vals.clear();
    }

    /// Look an identity up; `None` is a miss.
    pub fn get(&self, key: u32) -> (r: Option<&V>)
        requires
            self.wf(),
        ensures
            match r {
                Some(v) => self.model().contains_key(key) && *v == self.model()[key],
                None => !self.model().contains_key(key),
            },
    {
        let n = self.keys.len();
        let mut i: usize = 0;
        while i < n
            invariant
                i <= n,
                n == self.keys@.len(),
                self.wf(),
                forall|t: int| 0 <= t < i ==> self.keys@[t] != key,
            decreases n - i,
        {
            if self.keys[i] == key {
                proof {
                    lemma_map_of_index(self.keys@, self.vals@, i as int);
                }
                return Some(&self.vals[i]);
            }
            i = i + 1;
        }
        proof {
            lemma_map_of_absent(self.keys@, self.vals@, key);
        }
        None
    }

    /// Remember an association.  A known identity is updated in place; a
    /// new identity takes a free slot; a full table rejects the entry and
    /// keeps every existing association untouched.
    pub fn insert(&mut self, key: u32, value: V) -> (accepted: bool)
        requires
            old(self).wf(),
        ensures
            final(self).wf(),
            final(self).capacity() == old(self).capacity(),
            accepted == (old(self).model().contains_key(key) || old(self).len() < old(
                self,
            ).capacity()),
            accepted ==> final(self).model() == old(self).model().insert(key, value),
            !accepted ==> final(self).model() == old(self).model() && final(self).len() == old(
                self,
            ).len(),
            final(self).len() == if old(self).model().contains_key(key) || !accepted {
                old(self).len()
            } else {
                old(self).len() + 1
            },
    {
        let ghost keys0: Seq<u32> = self.keys@;
        let ghost vals0: Seq<V> = self.vals@;
        let n = self.keys.len();
        let mut i: usize = 0;
        while i < n
            invariant
                i <= n,
                n == self.keys@.len(),
                self.wf(),
                self.keys@ == keys0,
                self.vals@ == vals0,
                keys0 == old(self).keys@,
                vals0 == old(self).vals@,
                self.capacity == old(self).capacity,
                forall|t: int| 0 <= t < i ==> self.keys@[t] != key,
            decreases n - i,
        {
            if self.keys[i] == key {
                proof {
                    lemma_map_of_index(self.keys@, self.vals@, i as int);
                    lemma_map_of_update(self.keys@, self.vals@, i as int, value);
                }
                self.vals.set(i, value);
                return true;
            }
            i = i + 1;
        }
        proof {
            lemma_map_of_absent(self.keys@, self.vals@, key);
        }
        if n >= self.capacity {
            return false;
        }
        proof {
            lemma_map_of_push(self.keys@, self.vals@, key, value);
        }
        self.keys.push(key);
        self.vals.push(value);
        true
    }
}

/// A table's map holds each stored key with its stored value.
proof fn lemma_map_of_index<V>(keys: Seq<u32>, vals: Seq<V>, i: int)
    requires
        keys.len() == vals.len(),
        0 <= i < keys.len(),
        forall|a: int, b: int| 0 <= a < b < keys.len() ==> keys[a] != keys[b],
    ensures
        map_of(keys, vals).contains_key(keys[i]),
        map_of(keys, vals)[keys[i]] == vals[i],
    decreases keys.len(),
{
    if i == keys.len() - 1 {
    } else {
        lemma_map_of_index(keys.drop_last(), vals.drop_last(), i);
        assert(keys.drop_last()[i] == keys[i]);
        assert(keys[i] != keys.last());
    }
}

/// A key stored nowhere in the table is absent from its map.
proof fn lemma_map_of_absent<V>(keys: Seq<u32>, vals: Seq<V>, key: u32)
    requires
        keys.len() == vals.len(),
        forall|t: int| 0 <= t < keys.len() ==> keys[t] != key,
    ensures
        !map_of(keys, vals).contains_key(key),
    decreases keys.len(),
{
    if keys.len() > 0 {
        lemma_map_of_absent(keys.drop_last(), vals.drop_last(), key);
    }
}

/// Appending a fresh entry inserts it into the map.
proof fn lemma_map_of_push<V>(keys: Seq<u32>, vals: Seq<V>, key: u32, value: V)
    requires
        keys.len() == vals.len(),
    ensures
        map_of(keys.push(key), vals.push(value)) == map_of(keys, vals).insert(key, value),
{
    assert(keys.push(key).drop_last() =~= keys);
    assert(vals.push(value).drop_last() =~= vals);
}

/// Overwriting a stored value in place inserts it into the map.
proof fn lemma_map_of_update<V>(keys: Seq<u32>, vals: Seq<V>, i: int, value: V)
    requires
        keys.len() == vals.len(),
        0 <= i < keys.len(),
        forall|a: int, b: int| 0 <= a < b < keys.len() ==> keys[a] != keys[b],
    ensures
        map_of(keys, vals.update(i, value)) == map_of(keys, vals).insert(keys[i], value),
    decreases keys.len(),
{
    if i == keys.len() - 1 {
        assert(vals.update(i, value).drop_last() =~= vals.drop_last());
        assert(vals.update(i, value).last() == value);
        assert(map_of(keys, vals.update(i, value)) == map_of(
            keys.drop_last(),
            vals.drop_last(),
        ).insert(keys[i], value));
        assert(map_of(keys.drop_last(), vals.drop_last()).insert(keys[i], value) =~= map_of(
            keys,
            vals,
        ).insert(keys[i], value));
    } else {
        assert(vals.update(i, value).drop_last() =~= vals.drop_last().update(i, value));
        assert(keys.drop_last()[i] == keys[i]);
        lemma_map_of_update(keys.drop_last(), vals.drop_last(), i, value);
        assert(keys[i] != keys.last());
        assert(map_of(keys.drop_last(), vals.drop_last()).insert(keys[i], value).insert(
            keys.last(),
            vals.last(),
        ) =~= map_of(keys.drop_last(), vals.drop_last()).insert(keys.last(), vals.last()).insert(
            keys[i],
            value,
        ));
        assert(vals.update(i, value).last() == vals.last());
    }
}

} // verus!
