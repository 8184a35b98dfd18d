//! The fixed-capacity sector cache that sits between the parser and
//! the block source.  The recency bookkeeping lives in an LRU map from
//! block number to slot index; the slot bytes live in one flat buffer.
//!
//! The cache itself performs no input or output: a missing block is
//! reported to the caller, who reads it from the source and installs
//! it.  The contracts pin down coherence: a cached block always reads
//! back exactly the bytes that were installed for it, the cache never
//! holds more blocks than its capacity, and a miss under full
//! occupancy evicts exactly the least recently used block.

use vstd::prelude::*;

use vstd::assert_maps_equal;
use vstd::map::*;

verus! {

/// The block size of a DVD.
pub const DVDCSS_BLOCK_SIZE: usize = 2048;

#[verifier::external_type_specification]
#[verifier::external_body]
#[verifier::reject_recursive_types(K)]
#[verifier::reject_recursive_types(V)]
#[verifier::reject_recursive_types(S)]
pub struct ExLruCache<K, V, S>(lru::LruCache<K, V, S>);

/// The entries of the LRU map in most-recently-used-first order.
pub uninterp spec fn lru_entries(c: lru::LruCache<u32, u32, std::collections::hash_map::RandomState>) -> Seq<(u32, u32)>;

/// The capacity the LRU map was created with.
pub uninterp spec fn lru_cap(c: lru::LruCache<u32, u32, std::collections::hash_map::RandomState>) -> nat;

/// Relies on lru::LruCache::new: an empty cache holding at most `cap`
/// entries.
#[verifier::external_body]
fn lru_new(cap: usize) -> (r: lru::LruCache<u32, u32, std::collections::hash_map::RandomState>)
    requires
        cap >= 1,
    ensures
        lru_entries(r) == Seq::<(u32, u32)>::empty(),
        lru_cap(r) == cap,
{
    lru::LruCache::with_hasher(
        std::num::NonZeroUsize::new(cap).unwrap(),
        std::collections::hash_map::RandomState::new(),
    )
}

/// Relies on lru::LruCache::get: returns the key's value and moves the
/// entry to the front of the recency order; absent keys change nothing.
#[verifier::external_body]
fn lru_get(c: &mut lru::LruCache<u32, u32, std::collections::hash_map::RandomState>, k: u32) -> (r: Option<u32>)
    ensures
        lru_cap(*final(c)) == lru_cap(*old(c)),
        match r {
            Some(v) => exists|i: int|
                0 <= i < lru_entries(*old(c)).len() && #[trigger] lru_entries(*old(c))[i] == (k, v)
                    && lru_entries(*final(c)) == seq![(k, v)] + lru_entries(*old(c)).remove(i),
            None => (forall|i: int|
                0 <= i < lru_entries(*old(c)).len() ==> (#[trigger] lru_entries(*old(c))[i]).0
                    != k) && lru_entries(*final(c)) == lru_entries(*old(c)),
        },
{
    c.get(&k).copied()
}

/// Relies on lru::LruCache::put: inserts at the front of the recency
/// order; an existing key is updated and moved to the front; a new key
/// at capacity drops the entry at the back.
#[verifier::external_body]
fn lru_put(c: &mut lru::LruCache<u32, u32, std::collections::hash_map::RandomState>, k: u32, v: u32) -> (r: Option<u32>)
    ensures
        lru_cap(*final(c)) == lru_cap(*old(c)),
        match r {
            Some(w) => exists|i: int|
                0 <= i < lru_entries(*old(c)).len() && #[trigger] lru_entries(*old(c))[i] == (k, w)
                    && lru_entries(*final(c)) == seq![(k, v)] + lru_entries(*old(c)).remove(i),
            None => (forall|i: int|
                0 <= i < lru_entries(*old(c)).len() ==> (#[trigger] lru_entries(*old(c))[i]).0
                    != k) && (if lru_entries(*old(c)).len() < lru_cap(*old(c)) {
                lru_entries(*final(c)) == seq![(k, v)] + lru_entries(*old(c))
            } else {
                lru_entries(*final(c)) == seq![(k, v)] + lru_entries(*old(c)).drop_last()
            }),
        },
{
    c.put(k, v)
}

/// Relies on lru::LruCache::pop_lru: removes and returns the entry at
/// the back of the recency order.
#[verifier::external_body]
fn lru_pop_lru(c: &mut lru::LruCache<u32, u32, std::collections::hash_map::RandomState>) -> (r: Option<(u32, u32)>)
    ensures
        lru_cap(*final(c)) == lru_cap(*old(c)),
        match r {
            Some(kv) => lru_entries(*old(c)).len() > 0 && kv == lru_entries(*old(c)).last()
                && lru_entries(*final(c)) == lru_entries(*old(c)).drop_last(),
            None => lru_entries(*old(c)).len() == 0 && lru_entries(*final(c)) == lru_entries(
                *old(c),
            ),
        },
{
    c.pop_lru()
}

/// Relies on lru::LruCache::len: the number of entries held.
#[verifier::external_body]
fn lru_len(c: &lru::LruCache<u32, u32, std::collections::hash_map::RandomState>) -> (r: usize)
    ensures
        r == lru_entries(*c).len(),
{
    c.len()
}

/// All keys of the entry sequence are distinct.
pub open spec fn lru_unique_keys(s: Seq<(u32, u32)>) -> bool {
    forall|i: int, j: int| 0 <= i < j < s.len() ==> (#[trigger] s[i]).0 != (#[trigger] s[j]).0
}

/// The key-to-value mapping an entry sequence denotes.
pub open spec fn spec_lru_map(s: Seq<(u32, u32)>) -> Map<u32, u32>
    decreases s.len(),
{
    if s.len() == 0 {
        Map::<u32, u32>::empty()
    } else {
        spec_lru_map(s.drop_last()).insert(s.last().0, s.last().1)
    }
}

/// Membership in the mapping is existence of an entry with the key.
proof fn lemma_lru_map_contains(s: Seq<(u32, u32)>, b: u32)
    ensures
        spec_lru_map(s).contains_key(b) <==> exists|i: int|
            0 <= i < s.len() && (#[trigger] s[i]).0 == b,
    decreases s.len(),
{
    if s.len() > 0 {
        lemma_lru_map_contains(s.drop_last(), b);
        if s.last().0 == b {
            assert(s[s.len() - 1].0 == b);
        } else {
            if exists|i: int| 0 <= i < s.drop_last().len() && (#[trigger] s.drop_last()[i]).0
                == b {
                let i = choose|i: int|
                    0 <= i < s.drop_last().len() && (#[trigger] s.drop_last()[i]).0 == b;
                assert(s[i].0 == b);
            }
            if exists|i: int| 0 <= i < s.len() && (#[trigger] s[i]).0 == b {
                let i = choose|i: int| 0 <= i < s.len() && (#[trigger] s[i]).0 == b;
                assert(i < s.len() - 1);
                assert(s.drop_last()[i].0 == b);
            }
        }
    }
}

/// With distinct keys, the entry at any index gives the mapping's
/// value for its key.
proof fn lemma_lru_map_index(s: Seq<(u32, u32)>, i: int)
    requires
        lru_unique_keys(s),
        0 <= i < s.len(),
    ensures
        spec_lru_map(s).contains_key(s[i].0),
        spec_lru_map(s)[s[i].0] == s[i].1,
    decreases s.len(),
{
    if i == s.len() - 1 {
    } else {
        assert(s.drop_last()[i] == s[i]);
        assert(lru_unique_keys(s.drop_last())) by {
            assert(forall|x: int, y: int|
                0 <= x < y < s.drop_last().len() ==> s.drop_last()[x] == s[x] && s.drop_last()[y]
                    == s[y]);
        }
        lemma_lru_map_index(s.drop_last(), i);
        assert(s.last().0 != s[i].0);
    }
}

/// Moving an entry to the front leaves the mapping unchanged and the
/// keys distinct.
proof fn lemma_lru_map_promote(s: Seq<(u32, u32)>, i: int)
    requires
        lru_unique_keys(s),
        0 <= i < s.len(),
    ensures
        lru_unique_keys(seq![s[i]] + s.remove(i)),
        spec_lru_map(seq![s[i]] + s.remove(i)) == spec_lru_map(s),
        (seq![s[i]] + s.remove(i)).len() == s.len(),
{
    let s2 = seq![s[i]] + s.remove(i);
    assert(forall|j: int| 0 <= j < i ==> s.remove(i)[j] == s[j]);
    assert(forall|j: int| i <= j < s.len() - 1 ==> s.remove(i)[j] == s[j + 1]);
    assert(s2[0] == s[i]);
    assert(forall|j: int| 1 <= j < s2.len() ==> s2[j] == s.remove(i)[j - 1]);
    assert(lru_unique_keys(s2));
    assert_maps_equal!(spec_lru_map(s2), spec_lru_map(s), b => {
        lemma_lru_map_contains(s, b);
        lemma_lru_map_contains(s2, b);
        if exists|j: int| 0 <= j < s.len() && (#[trigger] s[j]).0 == b {
            let j = choose|j: int| 0 <= j < s.len() && (#[trigger] s[j]).0 == b;
            let j2: int = if j == i {
                0
            } else if j < i {
                j + 1
            } else {
                j
            };
            assert(s2[j2] == s[j]);
            assert(s2[j2].0 == b);
            lemma_lru_map_index(s, j);
            lemma_lru_map_index(s2, j2);
        } else {
            if exists|j: int| 0 <= j < s2.len() && (#[trigger] s2[j]).0 == b {
                let j = choose|j: int| 0 <= j < s2.len() && (#[trigger] s2[j]).0 == b;
                if j == 0 {
                    assert(s[i].0 == b);
                } else if j - 1 < i {
                    assert(s[j - 1].0 == b);
                } else {
                    assert(s[j].0 == b);
                }
            }
        }
    });
}

/// Prepending a fresh key inserts it into the mapping.
proof fn lemma_lru_map_prepend(s: Seq<(u32, u32)>, k: u32, v: u32)
    requires
        forall|i: int| 0 <= i < s.len() ==> (#[trigger] s[i]).0 != k,
    ensures
        spec_lru_map(seq![(k, v)] + s) == spec_lru_map(s).insert(k, v),
    decreases s.len(),
{
    let s2 = seq![(k, v)] + s;
    if s.len() == 0 {
        assert(s2.len() == 1);
        assert(s2.drop_last() =~= Seq::<(u32, u32)>::empty());
        assert(s2.last() == (k, v));
        assert(s2.len() == 1);
        assert(spec_lru_map(s2) == spec_lru_map(s2.drop_last()).insert(k, v));
        assert(spec_lru_map(s2.drop_last()) == spec_lru_map(Seq::<(u32, u32)>::empty()));
        assert(spec_lru_map(s2) =~= spec_lru_map(s).insert(k, v));
    } else {
        assert(forall|i: int| 0 <= i < s.drop_last().len() ==> s.drop_last()[i] == s[i]);
        lemma_lru_map_prepend(s.drop_last(), k, v);
        assert(s2.drop_last() =~= seq![(k, v)] + s.drop_last());
        assert(s2.last() == s.last());
        assert(spec_lru_map(s2) == spec_lru_map(s2.drop_last()).insert(s.last().0, s.last().1));
        assert(spec_lru_map(s2) == spec_lru_map(s.drop_last()).insert(k, v).insert(
            s.last().0,
            s.last().1,
        ));
        assert(s.last().0 != k);
        assert(spec_lru_map(s.drop_last()).insert(k, v).insert(s.last().0, s.last().1)
            =~= spec_lru_map(s.drop_last()).insert(s.last().0, s.last().1).insert(k, v));
    }
}

/// Dropping the last entry removes its key from the mapping.
proof fn lemma_lru_map_drop_last(s: Seq<(u32, u32)>)
    requires
        lru_unique_keys(s),
        s.len() > 0,
    ensures
        spec_lru_map(s.drop_last()) == spec_lru_map(s).remove(s.last().0),
{
    lemma_lru_map_contains(s.drop_last(), s.last().0);
    assert(forall|i: int| 0 <= i < s.drop_last().len() ==> s.drop_last()[i] == s[i]);
    assert(!spec_lru_map(s.drop_last()).contains_key(s.last().0));
    assert(spec_lru_map(s.drop_last()) =~= spec_lru_map(s).remove(s.last().0));
}

/// The fixed-capacity sector cache.
pub struct Cache {
    /// The slot bytes: `slot_count` runs of 2048 bytes.
    data: Vec<u8>,
    /// Block number to slot index, in recency order.
    lru_cache: lru::LruCache<u32, u32, std::collections::hash_map::RandomState>,
    /// Slot indices not yet holding a block.
    empty_blocks: Vec<u32>,
}

impl Cache {
    /// The number of 2048-byte slots.
    pub closed spec fn slot_count(self) -> int {
        lru_cap(self.lru_cache) as int
    }

    /// The cached block numbers, most recently used first.
    pub closed spec fn order(self) -> Seq<u32> {
        Seq::new(lru_entries(self.lru_cache).len(), |i: int| lru_entries(self.lru_cache)[i].0)
    }

    /// Block number to slot index.
    pub closed spec fn slot_map(self) -> Map<u32, u32> {
        spec_lru_map(lru_entries(self.lru_cache))
    }

    /// The bytes held for every cached block.
    pub closed spec fn contents(self) -> Map<u32, Seq<u8>> {
        Map::<u32, Seq<u8>>::new(
            |b: u32| self.slot_map().contains_key(b),
            |b: u32|
                self.data@.subrange(
                    self.slot_map()[b] * 2048,
                    self.slot_map()[b] * 2048 + 2048,
                ),
        )
    }

    pub closed spec fn wf(self) -> bool {
        let s = lru_entries(self.lru_cache);
        let free = self.empty_blocks@;
        &&& 1 <= self.slot_count() <= 0xFFFFFFFF
        &&& self.data@.len() == self.slot_count() * 2048
        &&& s.len() + free.len() == self.slot_count()
        &&& lru_unique_keys(s)
        &&& forall|i: int| 0 <= i < s.len() ==> (#[trigger] s[i]).1 < self.slot_count()
        &&& forall|i: int| 0 <= i < free.len() ==> #[trigger] free[i] < self.slot_count()
        &&& forall|i: int, j: int| 0 <= i < j < s.len() ==> (#[trigger] s[i]).1 != (#[trigger] s[j]).1
        &&& forall|i: int, j: int|
            0 <= i < s.len() && 0 <= j < free.len() ==> (#[trigger] s[i]).1 != #[trigger] free[j]
        &&& forall|i: int, j: int| 0 <= i < j < free.len() ==> #[trigger] free[i] != #[trigger] free[j]
    }

    /// Creates a cache of `capacity_bytes / 2048` slots.
    pub fn new(capacity_bytes: usize) -> (r: Cache)
        requires
            2048 <= capacity_bytes,
            capacity_bytes / 2048 <= 0xFFFFFFFF,
        ensures
            r.wf(),
            r.slot_count() == capacity_bytes / 2048,
            r.contents() == Map::<u32, Seq<u8>>::empty(),
            r.order() == Seq::<u32>::empty(),
    {
        let slots = capacity_bytes / 2048;
        proof {
            assert(slots >= 1);
        }
        let mut data: Vec<u8> = Vec::new();
        let mut i: usize = 0;
        while i < slots * 2048
            invariant
                slots * 2048 <= capacity_bytes,
                i <= slots * 2048,
                data@.len() == i,
            decreases slots * 2048 - i,
        {
            data.push(0u8);
            i = i + 1;
        }
        let mut empty_blocks: Vec<u32> = Vec::new();
        let mut j: usize = 0;
        while j < slots
            invariant
                slots <= 0xFFFFFFFF,
                j <= slots,
                empty_blocks@.len() == j,
                forall|t: int| 0 <= t < j ==> #[trigger] empty_blocks@[t] == t,
            decreases slots - j,
        {
            empty_blocks.push(j as u32);
            j = j + 1;
        }
        let lru_cache = lru_new(slots);
        let r = Cache { data, lru_cache, empty_blocks };
        proof {
            assert(r.order() =~= Seq::<u32>::empty());
            assert(r.contents() =~= Map::<u32, Seq<u8>>::empty());
        }
        r
    }

    /// The number of blocks the cache can hold.
    pub fn capacity_blocks(&self) -> (r: usize)
        requires
            self.wf(),
        ensures
            r == self.slot_count(),
    {
        let used = lru_len(&self.lru_cache);
        used + self.empty_blocks.len()
    }

    /// Reads a cached block: a hit returns exactly the bytes held for
    /// it and promotes the block to most recently used; a miss changes
    /// nothing and the caller fetches the block and installs it.
    pub fn read_block(&mut self, block: u32) -> (r: Option<Vec<u8>>)
        requires
            old(self).wf(),
        ensures
            final(self).wf(),
            final(self).slot_count() == old(self).slot_count(),
            final(self).contents() == old(self).contents(),
            match r {
                Some(bytes) => {
                    &&& old(self).contents().contains_key(block)
                    &&& bytes@ == old(self).contents()[block]
                    &&& bytes@.len() == 2048
                    &&& exists|i: int|
                        0 <= i < old(self).order().len() && old(self).order()[i] == block
                            && final(self).order() == seq![block] + old(self).order().remove(i)
                },
                None => {
                    &&& !old(self).contents().contains_key(block)
                    &&& final(self).order() == old(self).order()
                },
            },
    {
        let ghost s_old = lru_entries(self.lru_cache);
        let got = lru_get(&mut self.lru_cache, block);
        match got {
            Some(slot) => {
                proof {
                    let i = choose|i: int|
                        0 <= i < s_old.len() && #[trigger] s_old[i] == (block, slot)
                            && lru_entries(self.lru_cache) == seq![(block, slot)] + s_old.remove(
                            i,
                        );
                    lemma_lru_map_promote(s_old, i);
                    assert(seq![s_old[i]] + s_old.remove(i) == lru_entries(self.lru_cache));
                    lemma_lru_map_index(s_old, i);
                    assert(self.slot_map()[block] == slot);
                    assert(slot < self.slot_count());
                    assert((slot + 1) * 2048 <= self.slot_count() * 2048) by (nonlinear_arith)
                        requires
                            slot + 1 <= self.slot_count(),
                    ;
                    assert(slot * 2048 + 2048 == (slot + 1) * 2048) by (nonlinear_arith);
                    assert(slot * 2048 >= 0) by (nonlinear_arith)
                        requires
                            slot >= 0,
                    ;
                    // the new entry sequence keeps wf
                    let s_new = lru_entries(self.lru_cache);
                    assert(forall|j: int| 0 <= j < s_new.len() ==> (#[trigger] s_new[j]) == (
                    if j == 0 {
                        s_old[i]
                    } else if j - 1 < i {
                        s_old[j - 1]
                    } else {
                        s_old[j]
                    }));
                }
                let dl = self.data.len();
                proof {
                    assert(slot as int * 2048 + 2048 <= dl);
                }
                let start = (slot as usize) * 2048;
                let bytes = crate::lebytes::read_bytes(self.data.as_slice(), start, 2048);
                proof {
                    let i = choose|i: int|
                        0 <= i < s_old.len() && #[trigger] s_old[i] == (block, slot)
                            && lru_entries(self.lru_cache) == seq![(block, slot)] + s_old.remove(
                            i,
                        );
                    assert(old(self).order()[i] == block);
                    assert(final(self).order() =~= seq![block] + old(self).order().remove(i));
                    assert(final(self).contents() =~= old(self).contents());
                }
                Some(bytes)
            },
            None => {
                proof {
                    lemma_lru_map_contains(s_old, block);
                    assert(final(self).order() =~= old(self).order());
                    assert(final(self).contents() =~= old(self).contents());
                }
                None
            },
        }
    }

    /// Installs a block the source handed back: takes a free slot or,
    /// with none free, evicts exactly the least recently used block,
    /// then records the bytes as most recently used.  The cache never
    /// holds more blocks than its capacity.
    pub fn install_block(&mut self, block: u32, bytes: &[u8])
        requires
            old(self).wf(),
            !old(self).contents().contains_key(block),
            bytes@.len() == 2048,
        ensures
            final(self).wf(),
            final(self).slot_count() == old(self).slot_count(),
            final(self).order().len() <= final(self).slot_count(),
            if old(self).order().len() < old(self).slot_count() {
                &&& final(self).order() == seq![block] + old(self).order()
                &&& final(self).contents() == old(self).contents().insert(block, bytes@)
            } else {
                &&& final(self).order() == seq![block] + old(self).order().drop_last()
                &&& final(self).contents() == old(self).contents().remove(
                    old(self).order().last(),
                ).insert(block, bytes@)
            },
    {
        let ghost s_old = lru_entries(self.lru_cache);
        proof {
            lemma_lru_map_contains(s_old, block);
        }
        let slot: u32 = match self.empty_blocks.pop() {
            Some(slot) => slot,
            None => {
                proof {
                    assert(self.empty_blocks@.len() == 0);
                    assert(s_old.len() == self.slot_count());
                    assert(s_old.len() > 0);
                }
                let popped = lru_pop_lru(&mut self.lru_cache);
                match popped {
                    Some(kv) => kv.1,
                    None => {
                        proof {
                            assert(false);
                        }
                        0
                    },
                }
            },
        };
        let ghost s_mid = lru_entries(self.lru_cache);
        let ghost evicting = s_old.len() >= self.slot_count();
        proof {
            assert(slot < self.slot_count());
            assert((slot + 1) * 2048 <= self.slot_count() * 2048) by (nonlinear_arith)
                requires
                    slot + 1 <= self.slot_count(),
            ;
            assert(slot as int * 2048 + 2048 == (slot as int + 1) * 2048) by (nonlinear_arith);
            assert(slot as int * 2048 >= 0) by (nonlinear_arith)
                requires
                    slot as int >= 0,
            ;
        }
        let dl = self.data.len();
        proof {
            assert(slot as int * 2048 + 2048 <= dl);
        }
        let start = (slot as usize) * 2048;
        crate::lebytes::copy_into(&mut self.data, start, bytes);
        let ghost s_before_put = lru_entries(self.lru_cache);
        let _ = lru_put(&mut self.lru_cache, block, slot);
        proof {
            let s_new = lru_entries(self.lru_cache);
            if evicting {
                // the slot came from the evicted least-recent entry
                assert(s_mid == s_old.drop_last());
                assert(forall|i: int| 0 <= i < s_mid.len() ==> s_mid[i] == s_old[i]);
                assert(forall|i: int| 0 <= i < s_mid.len() ==> (#[trigger] s_mid[i]).0 != block);
                assert(s_mid.len() < lru_cap(self.lru_cache));
                assert(s_new == seq![(block, slot)] + s_mid);
                lemma_lru_map_prepend(s_mid, block, slot);
                lemma_lru_map_drop_last(s_old);
                assert(spec_lru_map(s_new) == spec_lru_map(s_old).remove(s_old.last().0).insert(
                    block,
                    slot,
                ));
                assert(forall|j: int| 0 <= j < s_new.len() ==> (#[trigger] s_new[j]) == (
                if j == 0 {
                    (block, slot)
                } else {
                    s_old[j - 1]
                }));
                assert(final(self).order() =~= seq![block] + old(self).order().drop_last());
                let c_old = old(self).contents();
                let c_new = final(self).contents();
                let target = c_old.remove(old(self).order().last()).insert(block, bytes@);
                assert forall|b: u32|
                    (c_new.contains_key(b) == target.contains_key(b)) && (c_new.contains_key(b)
                        ==> c_new[b] == target[b]) by {
                    if b == block {
                        assert(c_new[b] =~= bytes@);
                    } else if spec_lru_map(s_new).contains_key(b) {
                        lemma_lru_map_contains(s_new, b);
                        let j = choose|j: int| 0 <= j < s_new.len() && (#[trigger] s_new[j]).0 == b;
                        assert(j != 0);
                        assert(s_new[j] == s_old[j - 1]);
                        lemma_lru_map_index(s_new, j);
                        lemma_lru_map_index(s_old, j - 1);
                        assert(s_new[j].1 != slot);
                        assert(c_new[b] =~= c_old[b]);
                    } else {
                        lemma_lru_map_contains(s_new, b);
                        lemma_lru_map_contains(s_old, b);
                        if spec_lru_map(s_old).contains_key(b) {
                            let j = choose|j: int|
                                0 <= j < s_old.len() && (#[trigger] s_old[j]).0 == b;
                            assert(j == s_old.len() - 1);
                        }
                    }
                }
                assert(c_new =~= target);
                assert(old(self).order().len() >= old(self).slot_count());
            } else {
                // the slot came off the free list
                assert(s_mid == s_old);
                assert(self.empty_blocks@ == old(self).empty_blocks@.drop_last());
                assert(old(self).empty_blocks@.len() > 0);
                assert(slot == old(self).empty_blocks@.last());
                assert(forall|i: int|
                    0 <= i < self.empty_blocks@.len() ==> self.empty_blocks@[i] == old(
                        self,
                    ).empty_blocks@[i]);
                assert(s_old.len() < lru_cap(self.lru_cache));
                assert(s_new == seq![(block, slot)] + s_old);
                lemma_lru_map_prepend(s_old, block, slot);
                assert(forall|j: int| 0 <= j < s_new.len() ==> (#[trigger] s_new[j]) == (
                if j == 0 {
                    (block, slot)
                } else {
                    s_old[j - 1]
                }));
                assert(final(self).order() =~= seq![block] + old(self).order());
                let c_old = old(self).contents();
                let c_new = final(self).contents();
                let target = c_old.insert(block, bytes@);
                assert forall|b: u32|
                    (c_new.contains_key(b) == target.contains_key(b)) && (c_new.contains_key(b)
                        ==> c_new[b] == target[b]) by {
                    if b == block {
                        assert(final(self).contents()[b] =~= bytes@);
                    } else if spec_lru_map(s_new).contains_key(b) {
                        lemma_lru_map_contains(s_new, b);
                        let j = choose|j: int| 0 <= j < s_new.len() && (#[trigger] s_new[j]).0 == b;
                        assert(j != 0);
                        assert(s_new[j] == s_old[j - 1]);
                        lemma_lru_map_index(s_new, j);
                        lemma_lru_map_index(s_old, j - 1);
                        assert(s_new[j].1 != slot);
                        assert(final(self).contents()[b] =~= old(self).contents()[b]);
                    } else {
                        lemma_lru_map_contains(s_new, b);
                        lemma_lru_map_contains(s_old, b);
                    }
                }
                assert(c_new =~= target);
                assert(old(self).order().len() < old(self).slot_count());
            }
        }
    }
    /// One step of a split read: appends to `out` the part of the
    /// current block that the request covers, or reports the block as
    /// missing so the caller can fetch and install it.  Requests are
    /// split at 2048-byte block boundaries; a caller repeats the step
    /// until `out` holds `want` bytes.
    pub fn read_exact_step(&mut self, pos: u64, want: usize, out: &mut Vec<u8>) -> (r: Option<
        u32,
    >)
        requires
            old(self).wf(),
            old(out)@.len() < want,
            pos + want <= 0xFFFFFFFFu64 * 2048,
        ensures
            final(self).wf(),
            final(self).slot_count() == old(self).slot_count(),
            final(self).contents() == old(self).contents(),
            ({
                let cur = pos + old(out)@.len();
                let block = (cur / 2048) as u32;
                let off = cur % 2048;
                let chunk: int = if 2048 - off <= want - old(out)@.len() {
                    2048 - off
                } else {
                    want - old(out)@.len()
                };
                match r {
                    None => {
                        &&& old(self).contents().contains_key(block)
                        &&& final(out)@ == old(out)@ + old(self).contents()[block].subrange(
                            off as int,
                            off + chunk,
                        )
                        &&& exists|i: int|
                            0 <= i < old(self).order().len() && old(self).order()[i] == block
                                && final(self).order() == seq![block] + old(
                                self,
                            ).order().remove(i)
                    },
                    Some(b) => {
                        &&& b == block
                        &&& !old(self).contents().contains_key(b)
                        &&& final(out)@ == old(out)@
                        &&& final(self).order() == old(self).order()
                    },
                }
            }),
    {
        let done = out.len();
        let cur: u64 = pos + done as u64;
        proof {
            assert(cur / 2048 <= 0xFFFFFFFF) by (nonlinear_arith)
                requires
                    0 <= cur,
                    cur < 0xFFFFFFFFu64 * 2048 + 2048,
            ;
            assert(cur % 2048 < 2048) by (nonlinear_arith);
        }
        let block: u32 = (cur / 2048) as u32;
        let off: usize = (cur % 2048) as usize;
        match self.read_block(block) {
            Some(bytes) => {
                let room = 2048 - off;
                let need = want - done;
                let chunk = if room <= need {
                    room
                } else {
                    need
                };
                let mut t: usize = 0;
                while t < chunk
                    invariant
                        chunk <= 2048 - off,
                        off < 2048,
                        bytes@.len() == 2048,
                        t <= chunk,
                        out@.len() == done + t,
                        forall|j: int| 0 <= j < done ==> #[trigger] out@[j] == old(out)@[j],
                        forall|j: int| 0 <= j < t ==> #[trigger] out@[done + j] == bytes@[off + j],
                    decreases chunk - t,
                {
                    out.push(bytes[off + t]);
                    t = t + 1;
                }
                proof {
                    let target = old(out)@ + bytes@.subrange(off as int, off + chunk);
                    assert forall|j: int| 0 <= j < out@.len() implies out@[j] == target[j] by {
                        if j < done {
                            assert(out@[j] == old(out)@[j]);
                        } else {
                            assert(out@[done + (j - done)] == bytes@[off + (j - done)]);
                        }
                    }
                    assert(out@ =~= target);
                }
                None
            },
            None => Some(block),
        }
    }
}

} // verus!
