//! The chunk cache: a bounded, recency-ordered cache of raw chunk
//! bytes keyed by chunk identifier, plus the decision of how a chunk's
//! bytes are obtained (cache hit, single byte-range fetch, or whole
//! resource).

use vstd::prelude::*;

use crate::types::ChunkId;
use crate::types::IndexEntry;

verus! {

/// First position of `key` in a recency sequence, front (most recently
/// used) first.
pub open spec fn cache_find(view: Seq<(ChunkId, Seq<u8>)>, key: ChunkId) -> Option<int>
    decreases view.len(),
{
    if view.len() == 0 {
        None
    } else if view[0].0 == key {
        Some(0int)
    } else {
        match cache_find(view.drop_first(), key) {
            Some(i) => Some(i + 1),
            None => None,
        }
    }
}

/// What an insert does to the recency sequence: evict the least
/// recently used entry when at capacity, then put the new pair at the
/// most recently used position. Re-inserting an existing key is not
/// deduplicated.
pub open spec fn cache_insert(
    view: Seq<(ChunkId, Seq<u8>)>,
    cap: nat,
    key: ChunkId,
    val: Seq<u8>,
) -> Seq<(ChunkId, Seq<u8>)> {
    let trimmed = if view.len() == cap && view.len() > 0 {
        view.drop_last()
    } else {
        view
    };
    seq![(key, val)] + trimmed
}

/// A found key is a real, first occurrence; a missing key occurs
/// nowhere.
pub proof fn lemma_cache_find_props(view: Seq<(ChunkId, Seq<u8>)>, key: ChunkId)
    ensures
        match cache_find(view, key) {
            Some(i) => 0 <= i < view.len() && view[i].0 == key && forall|j: int|
                0 <= j < i ==> (#[trigger] view[j]).0 != key,
            None => forall|j: int| 0 <= j < view.len() ==> (#[trigger] view[j]).0 != key,
        },
    decreases view.len(),
{
    if view.len() == 0 {
    } else if view[0].0 == key {
    } else {
        lemma_cache_find_props(view.drop_first(), key);
        assert forall|j: int| 1 <= j < view.len() implies view.drop_first()[j - 1] == view[j] by {}
    }
}

/// The converse direction: a key that occurs at some position is found.
pub proof fn lemma_cache_find_occurs(view: Seq<(ChunkId, Seq<u8>)>, key: ChunkId, i: int)
    requires
        0 <= i < view.len(),
        view[i].0 == key,
    ensures
        cache_find(view, key) is Some,
    decreases view.len(),
{
    if view[0].0 == key {
    } else {
        assert(view.drop_first()[i - 1] == view[i]);
        lemma_cache_find_occurs(view.drop_first(), key, i - 1);
    }
}

/// Copies a byte buffer. Raw chunk bytes are immutable once fetched;
/// handing out a copy leaves the cached entry valid whatever the caller
/// does, and eviction cannot invalidate bytes a resolver still holds.
fn copy_bytes(v: &Vec<u8>) -> (r: Vec<u8>)
    ensures
        r@ == v@,
{
    let mut out: Vec<u8> = Vec::new();
    let mut i: usize = 0;
    while i < v.len()
        invariant
            i <= v@.len(),
            out@ == v@.subrange(0, i as int),
        decreases v@.len() - i,
    {
        out.push(v[i]);
        i = i + 1;
    }
    proof {
        assert(out@ =~= v@);
    }
    out
}

/// Simple LRU cache of raw chunk blobs, keyed by chunk ID. The front of
/// the sequence is the most recently used entry.
pub struct RawCache {
    entries: Vec<(ChunkId, Vec<u8>)>,
    capacity: usize,
}

impl RawCache {
    /// The recency-ordered contents, most recently used first.
    pub closed spec fn contents(&self) -> Seq<(ChunkId, Seq<u8>)> {
        Seq::new(self.entries@.len(), |i: int| (self.entries@[i].0, self.entries@[i].1@))
    }

    /// The fixed capacity chosen at construction.
    pub closed spec fn cap(&self) -> nat {
        self.capacity as nat
    }

    /// Create a new cache with the given capacity.
    pub fn new(cap: usize) -> (r: RawCache)
        ensures
            r.contents() =~= Seq::<(ChunkId, Seq<u8>)>::empty(),
            r.cap() == cap,
    {
        RawCache { entries: Vec::new(), capacity: cap }
    }

    /// Get a chunk by key, bumping it to the most recently used
    /// position if found. Absence is a normal outcome, not an error.
    pub fn get(&mut self, key: &ChunkId) -> (r: Option<Vec<u8>>)
        ensures
            final(self).cap() == old(self).cap(),
            match r {
                Some(v) => cache_find(old(self).contents(), *key) matches Some(i) && v@ == old(
                    self,
                ).contents()[i].1 && final(self).contents() == seq![old(self).contents()[i]] + old(
                    self,
                ).contents().remove(i),
                None => cache_find(old(self).contents(), *key) is None && final(self).contents()
                    == old(self).contents(),
            },
    {
        let n = self.entries.len();
        let mut i: usize = 0;
        while i < n
            invariant
                n == self.entries@.len(),
                i <= n,
                *self == *old(self),
                forall|j: int| 0 <= j < i ==> (#[trigger] self.entries@[j]).0 != *key,
            decreases n - i,
        {
            if self.entries[i].0 == *key {
                let (k, v) = self.entries.remove(i);
                let out = copy_bytes(&v);
                self.entries.insert(0, (k, v));
                proof {
                    lemma_cache_find_occurs(old(self).contents(), *key, i as int);
                    lemma_cache_find_props(old(self).contents(), *key);
                    assert(forall|j: int|
                        0 <= j < i ==> (#[trigger] old(self).contents()[j]).0 != *key);
                    assert(old(self).contents()[i as int].0 == *key);
                    match cache_find(old(self).contents(), *key) {
                        Some(f) => {
                            if f < i as int {
                                assert(old(self).contents()[f].0 != *key);
                            } else if f > i as int {
                                assert(old(self).contents()[i as int].0 != *key);
                            }
                        },
                        None => {
                            assert(false);
                        },
                    }
                    assert(cache_find(old(self).contents(), *key) == Some(i as int));
                    assert(self.contents() =~= seq![old(self).contents()[i as int]] + old(
                        self,
                    ).contents().remove(i as int));
                }
                return Some(out);
            }
            i = i + 1;
        }
        proof {
            lemma_cache_find_props(self.contents(), *key);
            assert forall|j: int| 0 <= j < n implies (#[trigger] self.contents()[j]).0 != *key by {
                assert(self.contents()[j].0 == self.entries@[j].0);
            }
            if cache_find(self.contents(), *key) is Some {
                lemma_cache_find_props(self.contents(), *key);
            }
        }
        None
    }

    /// Insert a new chunk at the most recently used position, evicting
    /// the least recently used entry if the cache is full.
    pub fn insert(&mut self, key: ChunkId, value: Vec<u8>)
        ensures
            final(self).cap() == old(self).cap(),
            final(self).contents() == cache_insert(
                old(self).contents(),
                old(self).cap(),
                key,
                value@,
            ),
    {
        if self.entries.len() == self.capacity && self.entries.len() > 0 {
            let _ = self.entries.pop();
        }
        self.entries.insert(0, (key, value));
        proof {
            assert(self.contents() =~= cache_insert(
                old(self).contents(),
                old(self).cap(),
                key,
                value@,
            ));
        }
    }
}

/// How the raw bytes of one chunk are to be obtained.
pub enum ChunkSource {
    /// The bytes were already cached (and the entry was promoted).
    Cached(Vec<u8>),
    /// Fetch exactly this inclusive byte range of the resource.
    FetchRange(u64, u64),
    /// Fetch the whole resource and treat it as the chunk.
    FetchWhole,
}

/// Decides how to materialize the chunk described by `entry`: from the
/// cache on a hit; otherwise by fetching exactly the bytes
/// `[offset, offset + length - 1]` when range requests are supported,
/// or the whole resource when they are not. The caller performs the
/// fetch and then inserts the result into the cache.
pub fn chunk_request(cache: &mut RawCache, supports_range: bool, entry: &IndexEntry) -> (r:
    ChunkSource)
    requires
        entry.length >= 1,
        entry.offset + entry.length - 1 <= u64::MAX,
    ensures
        final(cache).cap() == old(cache).cap(),
        match r {
            ChunkSource::Cached(v) => cache_find(old(cache).contents(), entry.chunk_id)
                matches Some(i) && v@ == old(cache).contents()[i].1 && final(cache).contents()
                == seq![old(cache).contents()[i]] + old(cache).contents().remove(i),
            ChunkSource::FetchRange(start, end) => {
                &&& cache_find(old(cache).contents(), entry.chunk_id) is None
                &&& final(cache).contents() == old(cache).contents()
                &&& supports_range
                &&& start == entry.offset
                &&& end == entry.offset + entry.length - 1
            },
            ChunkSource::FetchWhole => {
                &&& cache_find(old(cache).contents(), entry.chunk_id) is None
                &&& final(cache).contents() == old(cache).contents()
                &&& !supports_range
            },
        },
{
    match cache.get(&entry.chunk_id) {
        Some(v) => ChunkSource::Cached(v),
        None => {
            if supports_range {
                ChunkSource::FetchRange(entry.offset, entry.offset + (entry.length - 1) as u64)
            } else {
                ChunkSource::FetchWhole
            }
        },
    }
}

// ---------------------------------------------------------------------
// Laws
// ---------------------------------------------------------------------

/// Law: a chunk just inserted stands at the front of the cache with
/// exactly the inserted bytes, so an immediately repeated request for
/// the same chunk is served from the cache and issues no further fetch.
pub proof fn lemma_insert_then_found(
    view: Seq<(ChunkId, Seq<u8>)>,
    cap: nat,
    key: ChunkId,
    val: Seq<u8>,
)
    ensures
        cache_find(cache_insert(view, cap, key, val), key) == Some(0int),
        cache_insert(view, cap, key, val)[0] == (key, val),
{
    assert(cache_insert(view, cap, key, val)[0] == (key, val));
}

/// Law (cache effectiveness): an insert into a cache below capacity
/// evicts nothing, so a resident chunk stays resident. Together with
/// `lemma_promotion_keeps` and `lemma_insert_then_found`, this gives
/// the repeated-load guarantee: while the cache stays below capacity,
/// every chunk obtained once is served from the cache afterwards, so a
/// repeated load issues no fetch for it.
pub proof fn lemma_insert_below_capacity_keeps(
    view: Seq<(ChunkId, Seq<u8>)>,
    cap: nat,
    key: ChunkId,
    val: Seq<u8>,
    id: ChunkId,
)
    requires
        view.len() < cap,
        cache_find(view, id) is Some,
    ensures
        cache_find(cache_insert(view, cap, key, val), id) is Some,
{
    lemma_cache_find_props(view, id);
    match cache_find(view, id) {
        Some(i) => {
            assert(cache_insert(view, cap, key, val)[i + 1] == view[i]);
            lemma_cache_find_occurs(cache_insert(view, cap, key, val), id, i + 1);
        },
        None => {},
    }
}

/// Law (cache effectiveness): the promotion a cache hit performs only
/// reorders the contents, so a resident chunk stays resident.
pub proof fn lemma_promotion_keeps(view: Seq<(ChunkId, Seq<u8>)>, i: int, id: ChunkId)
    requires
        0 <= i < view.len(),
        cache_find(view, id) is Some,
    ensures
        cache_find(seq![view[i]] + view.remove(i), id) is Some,
{
    lemma_cache_find_props(view, id);
    let promoted = seq![view[i]] + view.remove(i);
    match cache_find(view, id) {
        Some(f) => {
            if f == i {
                assert(promoted[0] == view[i]);
                lemma_cache_find_occurs(promoted, id, 0);
            } else if f < i {
                assert(promoted[f + 1] == view[f]);
                lemma_cache_find_occurs(promoted, id, f + 1);
            } else {
                assert(promoted[f] == view[f]);
                lemma_cache_find_occurs(promoted, id, f);
            }
        },
        None => {},
    }
}

/// The cache contents after inserting each pair of `items`, in order,
/// into a cache whose contents start as `view`.
pub open spec fn cache_fill(
    view: Seq<(ChunkId, Seq<u8>)>,
    cap: nat,
    items: Seq<(ChunkId, Seq<u8>)>,
) -> Seq<(ChunkId, Seq<u8>)>
    decreases items.len(),
{
    if items.len() == 0 {
        view
    } else {
        cache_fill(cache_insert(view, cap, items[0].0, items[0].1), cap, items.drop_first())
    }
}

/// A run of inserts keeps the most recent entries: the resulting
/// contents are the latest inserted pairs, newest first, on top of what
/// still fits of the starting contents.
proof fn lemma_cache_fill_shape(
    view: Seq<(ChunkId, Seq<u8>)>,
    cap: nat,
    items: Seq<(ChunkId, Seq<u8>)>,
)
    requires
        cap >= 1,
        view.len() <= cap,
    ensures
        cache_fill(view, cap, items) =~= (items.reverse() + view).take(
            vstd::math::min(cap as int, (items.len() + view.len()) as int),
        ),
    decreases items.len(),
{
    if items.len() == 0 {
        assert(items.reverse() + view =~= view);
    } else {
        let head = items[0];
        let rest = items.drop_first();
        let view1 = cache_insert(view, cap, head.0, head.1);
        assert(view1.len() <= cap);
        lemma_cache_fill_shape(view1, cap, rest);
        let lhs = (rest.reverse() + view1).take(
            vstd::math::min(cap as int, (rest.len() + view1.len()) as int),
        );
        let rhs = (items.reverse() + view).take(
            vstd::math::min(cap as int, (items.len() + view.len()) as int),
        );
        assert(lhs.len() == rhs.len());
        assert forall|t: int| 0 <= t < lhs.len() implies lhs[t] == rhs[t] by {
            if t < rest.len() {
                assert(rest.reverse()[t] == rest[rest.len() - 1 - t]);
                assert(rest[rest.len() - 1 - t] == items[items.len() - 1 - t]);
                assert(items.reverse()[t] == items[items.len() - 1 - t]);
            } else if t == rest.len() {
                assert(lhs[t] == view1[0]);
                assert(view1[0] == (head.0, head.1));
                assert(rhs[t] == items.reverse()[t]);
                assert(items.reverse()[t] == items[0]);
            } else {
                let d = t - rest.len();
                assert(lhs[t] == view1[d]);
                if view.len() == cap {
                    assert(view1[d] == view.drop_last()[d - 1]);
                    assert(view.drop_last()[d - 1] == view[d - 1]);
                } else {
                    assert(view1[d] == view[d - 1]);
                }
                assert(rhs[t] == view[t - items.len()]);
            }
        }
        assert(lhs =~= rhs);
    }
}

/// Law: after inserting pairs with pairwise distinct keys into an empty
/// cache, more of them than the capacity, the cache holds exactly
/// `capacity` entries; every key among the surplus earliest-inserted
/// (and never reaccessed) pairs is absent, and every later key is
/// present.
pub proof fn lemma_cache_bound(cap: nat, items: Seq<(ChunkId, Seq<u8>)>)
    requires
        cap >= 1,
        items.len() > cap,
        forall|a: int, b: int|
            0 <= a < b < items.len() ==> (#[trigger] items[a]).0 != (#[trigger] items[b]).0,
    ensures
        cache_fill(Seq::empty(), cap, items).len() == cap,
        forall|j: int|
            0 <= j < items.len() - cap ==> cache_find(
                cache_fill(Seq::empty(), cap, items),
                (#[trigger] items[j]).0,
            ) is None,
        forall|j: int|
            items.len() - cap <= j < items.len() ==> cache_find(
                cache_fill(Seq::empty(), cap, items),
                (#[trigger] items[j]).0,
            ) is Some,
{
    lemma_cache_fill_shape(Seq::empty(), cap, items);
    let result = cache_fill(Seq::empty(), cap, items);
    assert(result.len() == cap);
    assert forall|i: int| 0 <= i < cap implies result[i] == items[items.len() - 1 - i] by {
        assert(result[i] == (items.reverse() + Seq::<(ChunkId, Seq<u8>)>::empty()).take(
            cap as int,
        )[i]);
        assert(items.reverse()[i] == items[items.len() - 1 - i]);
    }
    assert forall|j: int| 0 <= j < items.len() - cap implies cache_find(
        result,
        items[j].0,
    ) is None by {
        lemma_cache_find_props(result, items[j].0);
        match cache_find(result, items[j].0) {
            Some(i) => {
                assert(result[i] == items[items.len() - 1 - i]);
                assert(items[items.len() - 1 - i].0 == items[j].0);
                assert(j < items.len() - 1 - i);
                assert(false);
            },
            None => {},
        }
    }
    assert forall|j: int| items.len() - cap <= j < items.len() implies cache_find(
        result,
        items[j].0,
    ) is Some by {
        let i = items.len() - 1 - j;
        assert(result[i] == items[j]);
        lemma_cache_find_occurs(result, items[j].0, i);
    }
}

} // verus!
