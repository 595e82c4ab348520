//! The deduplicating event store: idempotent insert keyed by
//! `(chain_id, transaction_hash, log_index)`, the bounded write-through cache
//! with least-recently-inserted eviction, per-chain sync progress, and the
//! filtered query pipeline of the read API.

use vstd::prelude::*;

verus! {

use crate::models::{Event, EventQuery, event_key, ChainSyncState, ChainInfo};
use crate::text::{dec_chars, u64_to_dec_string};

/// A cache entry: the event and the instant (milliseconds) it entered the
/// cache, by which eviction picks its victim.
pub struct CachedEvent {
    pub event: Event,
    pub inserted_at: u64,
}

/// The key of a cache entry.
pub open spec fn cache_entry_key(c: CachedEvent) -> (u64, Seq<char>, u32) {
    event_key(c.event)
}

/// A row of the static chain directory.
pub struct ChainRow {
    pub chain_id: u64,
    pub name: String,
    pub rpc_url: String,
    pub identity_registry: String,
    pub reputation_registry: String,
    pub validation_registry: String,
    pub enabled: bool,
}

/// The event store: events, per-chain sync state, the chain directory, and
/// the bounded cache.
pub struct Storage {
    events: Vec<Event>,
    sync_states: Vec<ChainSyncState>,
    chains: Vec<ChainRow>,
    cache: Vec<CachedEvent>,
    max_cache_size: usize,
    legacy_last_synced: Option<u64>,
}

/// Whether a sequence of events contains one with the given key.
pub open spec fn has_event_key(evs: Seq<Event>, k: (u64, Seq<char>, u32)) -> bool {
    exists|i: int| 0 <= i < evs.len() && event_key(evs[i]) == k
}

/// Whether the cache contains an entry with the given key.
pub open spec fn cache_has_key(c: Seq<CachedEvent>, k: (u64, Seq<char>, u32)) -> bool {
    exists|i: int| 0 <= i < c.len() && cache_entry_key(c[i]) == k
}

/// The least index of a cache entry with minimal insertion time; the victim
/// of an eviction.
pub open spec fn oldest_index(c: Seq<CachedEvent>) -> int
    decreases c.len(),
{
    if c.len() <= 1 {
        0
    } else {
        let r = oldest_index(c.drop_last());
        if c.last().inserted_at < c[r].inserted_at {
            c.len() - 1
        } else {
            r
        }
    }
}

/// The oldest index lies in the sequence and attains the minimal insertion
/// time, least index first.
pub proof fn lemma_oldest_index(c: Seq<CachedEvent>)
    requires
        c.len() > 0,
    ensures
        0 <= oldest_index(c) < c.len(),
        forall|i: int| 0 <= i < c.len() ==> c[oldest_index(c)].inserted_at <= #[trigger] c[i].inserted_at,
        forall|i: int| 0 <= i < oldest_index(c) ==> c[oldest_index(c)].inserted_at < #[trigger] c[i].inserted_at,
    decreases c.len(),
{
    if c.len() > 1 {
        lemma_oldest_index(c.drop_last());
        assert(forall|i: int| 0 <= i < c.len() - 1 ==> c[i] == c.drop_last()[i]);
    }
}

/// The number of sync rows for a chain (for uniqueness statements).
pub open spec fn sync_index_of(ss: Seq<ChainSyncState>, chain_id: u64) -> int {
    choose|i: int| 0 <= i < ss.len() && ss[i].chain_id == chain_id
}

/// Whether a sync row for the chain exists.
pub open spec fn has_sync_row(ss: Seq<ChainSyncState>, chain_id: u64) -> bool {
    exists|i: int| 0 <= i < ss.len() && ss[i].chain_id == chain_id
}

/// A store stays well-formed when only its sync rows change and their chain
/// ids stay pairwise distinct.
proof fn lemma_wf_sync_update(pre: Storage, post: Storage)
    requires
        pre.wf(),
        post.events_view() == pre.events_view(),
        post.chains_view() == pre.chains_view(),
        post.cache_view() == pre.cache_view(),
        post.max_cache() == pre.max_cache(),
        forall|i: int, j: int|
            0 <= i < j < post.sync_view().len() ==> post.sync_view()[i].chain_id
                != post.sync_view()[j].chain_id,
    ensures
        post.wf(),
{
    assert forall|i: int, j: int|
        0 <= i < j < post.events_view().len() implies event_key(post.events_view()[i])
        != event_key(post.events_view()[j]) by {
        assert(event_key(pre.events_view()[i]) != event_key(pre.events_view()[j]));
    }
    assert forall|i: int, j: int|
        0 <= i < j < post.chains_view().len() implies post.chains_view()[i].chain_id
        < post.chains_view()[j].chain_id by {
        assert(pre.chains_view()[i].chain_id < pre.chains_view()[j].chain_id);
    }
    assert forall|i: int, j: int|
        0 <= i < j < post.cache_view().len() implies cache_entry_key(post.cache_view()[i])
        != cache_entry_key(post.cache_view()[j]) by {
        assert(cache_entry_key(pre.cache_view()[i]) != cache_entry_key(pre.cache_view()[j]));
    }
    assert(post.cache_view().len() == pre.cache_view().len());
    assert forall|i: int|
        0 <= i < post.cache_view().len() implies has_event_key(
        post.events_view(),
        cache_entry_key(#[trigger] post.cache_view()[i]),
    ) by {
        assert(has_event_key(pre.events_view(), cache_entry_key(pre.cache_view()[i])));
    }
}

/// A store stays well-formed when only its chain directory changes and its
/// rows stay sorted by chain id.
proof fn lemma_wf_chains_update(pre: Storage, post: Storage)
    requires
        pre.wf(),
        post.events_view() == pre.events_view(),
        post.sync_view() == pre.sync_view(),
        post.cache_view() == pre.cache_view(),
        post.max_cache() == pre.max_cache(),
        forall|i: int, j: int|
            0 <= i < j < post.chains_view().len() ==> post.chains_view()[i].chain_id
                < post.chains_view()[j].chain_id,
    ensures
        post.wf(),
{
    assert forall|i: int, j: int|
        0 <= i < j < post.events_view().len() implies event_key(post.events_view()[i])
        != event_key(post.events_view()[j]) by {
        assert(event_key(pre.events_view()[i]) != event_key(pre.events_view()[j]));
    }
    assert forall|i: int, j: int|
        0 <= i < j < post.sync_view().len() implies post.sync_view()[i].chain_id
        != post.sync_view()[j].chain_id by {
        assert(pre.sync_view()[i].chain_id != pre.sync_view()[j].chain_id);
    }
    assert forall|i: int, j: int|
        0 <= i < j < post.cache_view().len() implies cache_entry_key(post.cache_view()[i])
        != cache_entry_key(post.cache_view()[j]) by {
        assert(cache_entry_key(pre.cache_view()[i]) != cache_entry_key(pre.cache_view()[j]));
    }
    assert(post.cache_view().len() == pre.cache_view().len());
    assert forall|i: int|
        0 <= i < post.cache_view().len() implies has_event_key(
        post.events_view(),
        cache_entry_key(#[trigger] post.cache_view()[i]),
    ) by {
        assert(has_event_key(pre.events_view(), cache_entry_key(pre.cache_view()[i])));
    }
}

/// A store stays well-formed when nothing it checks has changed.
proof fn lemma_wf_frame(pre: Storage, post: Storage)
    requires
        pre.wf(),
        post.events_view() == pre.events_view(),
        post.sync_view() == pre.sync_view(),
        post.chains_view() == pre.chains_view(),
        post.cache_view() == pre.cache_view(),
        post.max_cache() == pre.max_cache(),
    ensures
        post.wf(),
{
    assert forall|i: int, j: int|
        0 <= i < j < post.sync_view().len() implies post.sync_view()[i].chain_id
        != post.sync_view()[j].chain_id by {
        assert(pre.sync_view()[i].chain_id != pre.sync_view()[j].chain_id);
    }
    lemma_wf_sync_update(pre, post);
}

impl Storage {
    /// The stored events, in insertion order.
    pub closed spec fn events_view(self) -> Seq<Event> {
        self.events@
    }

    /// The per-chain sync rows.
    pub closed spec fn sync_view(self) -> Seq<ChainSyncState> {
        self.sync_states@
    }

    /// The chain directory rows.
    pub closed spec fn chains_view(self) -> Seq<ChainRow> {
        self.chains@
    }

    /// The cache contents.
    pub closed spec fn cache_view(self) -> Seq<CachedEvent> {
        self.cache@
    }

    /// The configured cache bound.
    pub closed spec fn max_cache(self) -> usize {
        self.max_cache_size
    }

    /// The single-row legacy cursor.
    pub closed spec fn legacy_cursor(self) -> Option<u64> {
        self.legacy_last_synced
    }

    /// Well-formedness: event keys are unique, sync rows are unique per
    /// chain, directory rows are unique and sorted by chain id, and the
    /// cache respects its bound (one slot is always usable, also when the
    /// configured bound is zero).
    pub open spec fn wf(self) -> bool {
        &&& forall|i: int, j: int|
            0 <= i < j < self.events_view().len() ==> event_key(self.events_view()[i])
                != event_key(self.events_view()[j])
        &&& forall|i: int, j: int|
            0 <= i < j < self.sync_view().len() ==> self.sync_view()[i].chain_id
                != self.sync_view()[j].chain_id
        &&& forall|i: int, j: int|
            0 <= i < j < self.chains_view().len() ==> self.chains_view()[i].chain_id
                < self.chains_view()[j].chain_id
        &&& forall|i: int, j: int|
            0 <= i < j < self.cache_view().len() ==> cache_entry_key(self.cache_view()[i])
                != cache_entry_key(self.cache_view()[j])
        &&& self.cache_view().len() <= if self.max_cache() == 0 {
            1
        } else {
            self.max_cache() as int
        }
        &&& forall|i: int|
            0 <= i < self.cache_view().len() ==> has_event_key(
                self.events_view(),
                cache_entry_key(#[trigger] self.cache_view()[i]),
            )
    }

    /// A fresh store with the given cache bound.
    pub fn new(max_cache_size: usize) -> (r: Self)
        ensures
            r.wf(),
            r.events_view() == Seq::<Event>::empty(),
            r.sync_view() == Seq::<ChainSyncState>::empty(),
            r.chains_view() == Seq::<ChainRow>::empty(),
            r.cache_view() == Seq::<CachedEvent>::empty(),
            r.max_cache() == max_cache_size,
            r.legacy_cursor() is None,
    {
        Storage {
            events: Vec::new(),
            sync_states: Vec::new(),
            chains: Vec::new(),
            cache: Vec::new(),
            max_cache_size,
            legacy_last_synced: None,
        }
    }

    /// The cache's fill and bound.
    pub fn cache_stats(&self) -> (r: (usize, usize))
        ensures
            r.0 == self.cache_view().len(),
            r.1 == self.max_cache(),
    {
        (self.cache.len(), self.max_cache_size)
    }

    /// Whether the cache holds an entry for the event's key.
    fn cache_contains(&self, event: &Event) -> (r: bool)
        ensures
            r == cache_has_key(self.cache_view(), event_key(*event)),
    {
        let mut i: usize = 0;
        while i < self.cache.len()
            invariant
                0 <= i <= self.cache@.len(),
                forall|j: int| 0 <= j < i ==> cache_entry_key(self.cache@[j]) != event_key(*event),
            decreases self.cache@.len() - i,
        {
            let c = &self.cache[i];
            if c.event.chain_id == event.chain_id && c.event.log_index == event.log_index
                && crate::models::str_eq(
                c.event.transaction_hash.as_str(),
                event.transaction_hash.as_str(),
            ) {
                return true;
            }
            i += 1;
        }
        false
    }

    /// Whether an event with the given key is already stored.
    fn events_contain(&self, event: &Event) -> (r: bool)
        ensures
            r == has_event_key(self.events_view(), event_key(*event)),
    {
        let mut i: usize = 0;
        while i < self.events.len()
            invariant
                0 <= i <= self.events@.len(),
                forall|j: int| 0 <= j < i ==> event_key(self.events@[j]) != event_key(*event),
            decreases self.events@.len() - i,
        {
            let c = &self.events[i];
            if c.chain_id == event.chain_id && c.log_index == event.log_index
                && crate::models::str_eq(
                c.transaction_hash.as_str(),
                event.transaction_hash.as_str(),
            ) {
                return true;
            }
            i += 1;
        }
        false
    }

    /// Evicts the entry with the minimal insertion time (least index on
    /// ties), then inserts the event; below the bound it only inserts.
    #[verifier::rlimit(40)]
    fn cache_insert(&mut self, event: Event, now_ms: u64)
        requires
            old(self).wf(),
            !cache_has_key(old(self).cache_view(), event_key(event)),
            has_event_key(old(self).events_view(), event_key(event)),
        ensures
            final(self).wf(),
            final(self).events_view() == old(self).events_view(),
            final(self).sync_view() == old(self).sync_view(),
            final(self).chains_view() == old(self).chains_view(),
            final(self).max_cache() == old(self).max_cache(),
            final(self).legacy_cursor() == old(self).legacy_cursor(),
            final(self).cache_view() == (if old(self).cache_view().len() >= old(self).max_cache()
                && old(self).cache_view().len() > 0 {
                old(self).cache_view().remove(oldest_index(old(self).cache_view()))
            } else {
                old(self).cache_view()
            }).push(CachedEvent { event, inserted_at: now_ms }),
    {
        let ghost pre = self.cache@;
        if self.cache.len() >= self.max_cache_size && self.cache.len() > 0 {
            let mut best: usize = 0;
            let mut i: usize = 1;
            while i < self.cache.len()
                invariant
                    0 <= best < i <= self.cache@.len(),
                    self.cache@.len() > 0,
                    best == oldest_index(self.cache@.subrange(0, i as int)),
                decreases self.cache@.len() - i,
            {
                proof {
                    let prefix = self.cache@.subrange(0, i as int);
                    let ext = self.cache@.subrange(0, i as int + 1);
                    assert(ext.drop_last() =~= prefix);
                    assert(ext.last() == self.cache@[i as int]);
                    lemma_oldest_index(prefix);
                }
                if self.cache[i].inserted_at < self.cache[best].inserted_at {
                    best = i;
                }
                i += 1;
            }
            proof {
                assert(self.cache@.subrange(0, self.cache@.len() as int) =~= self.cache@);
            }
            self.cache.remove(best);
            proof {
                assert(self.cache@ =~= pre.remove(oldest_index(pre)));
                lemma_oldest_index(pre);
                assert forall|i: int, j: int|
                    0 <= i < j < self.cache@.len() implies cache_entry_key(self.cache@[i])
                    != cache_entry_key(self.cache@[j]) by {
                    let o = oldest_index(pre);
                    let pi = if i < o {
                        i
                    } else {
                        i + 1
                    };
                    let pj = if j < o {
                        j
                    } else {
                        j + 1
                    };
                    assert(self.cache@[i] == pre[pi] && self.cache@[j] == pre[pj]);
                }
            }
        }
        proof {
            let cur = self.cache@;
            assert forall|i: int|
                0 <= i < cur.len() implies cache_entry_key(cur[i]) != event_key(event) by {
                if pre.len() > cur.len() {
                    let o = oldest_index(pre);
                    let pi = if i < o {
                        i
                    } else {
                        i + 1
                    };
                    assert(cur[i] == pre[pi]);
                } else {
                    assert(cur[i] == pre[i]);
                }
            }
        }
        let ghost mid = self.cache@;
        self.cache.push(CachedEvent { event, inserted_at: now_ms });
        proof {
            assert forall|i: int, j: int|
                0 <= i < j < self.cache@.len() implies cache_entry_key(self.cache@[i])
                != cache_entry_key(self.cache@[j]) by {
                if j < mid.len() {
                    assert(self.cache@[i] == mid[i] && self.cache@[j] == mid[j]);
                } else {
                    assert(self.cache@[i] == mid[i]);
                    assert(cache_entry_key(self.cache@[j]) == event_key(event));
                }
            }
            assert(self.cache_view() == self.cache@);
            if pre.len() >= old(self).max_cache() && pre.len() > 0 {
                assert(mid.len() == pre.len() - 1);
                assert(self.cache@.len() == pre.len());
            } else {
                assert(self.cache@.len() == pre.len() + 1);
            }
            assert(self.events_view() == old(self).events_view());
            assert(self.chains_view() == old(self).chains_view());
            assert forall|i: int, j: int|
                0 <= i < j < self.events_view().len() implies event_key(self.events_view()[i])
                != event_key(self.events_view()[j]) by {
                assert(event_key(old(self).events_view()[i]) != event_key(
                    old(self).events_view()[j],
                ));
            }
            assert forall|i: int, j: int|
                0 <= i < j < self.chains_view().len() implies self.chains_view()[i].chain_id
                < self.chains_view()[j].chain_id by {
                assert(old(self).chains_view()[i].chain_id < old(self).chains_view()[j].chain_id);
            }
            assert(forall|i: int, j: int|
                0 <= i < j < self.sync_view().len() ==> self.sync_view()[i].chain_id
                    != self.sync_view()[j].chain_id);
            assert(forall|i: int, j: int|
                0 <= i < j < self.cache_view().len() ==> cache_entry_key(self.cache_view()[i])
                    != cache_entry_key(self.cache_view()[j]));
            assert(self.cache_view().len() <= if self.max_cache() == 0 {
                1
            } else {
                self.max_cache() as int
            });
            assert forall|i: int|
                0 <= i < self.cache@.len() implies has_event_key(
                self.events_view(),
                cache_entry_key(#[trigger] self.cache@[i]),
            ) by {
                if i < mid.len() {
                    if pre.len() > mid.len() {
                        let o = oldest_index(pre);
                        let pi = if i < o {
                            i
                        } else {
                            i + 1
                        };
                        assert(mid[i] == pre[pi]);
                        assert(has_event_key(
                            old(self).events_view(),
                            cache_entry_key(pre[pi]),
                        ));
                    } else {
                        assert(mid[i] == pre[i]);
                        assert(has_event_key(old(self).events_view(), cache_entry_key(pre[i])));
                    }
                } else {
                    assert(cache_entry_key(self.cache@[i]) == event_key(event));
                }
            }
            assert(self.wf());
        }
    }

    /// Stores an event: a silent no-op when its key is already cached or
    /// already stored; a fresh key appends the event, bumps the chain's
    /// `total_events_indexed`, and enters the cache. Returns whether a new
    /// row was written.
    pub fn store_event(&mut self, event: Event, now_ms: u64) -> (inserted: bool)
        requires
            old(self).wf(),
        ensures
            final(self).wf(),
            final(self).chains_view() == old(self).chains_view(),
            final(self).max_cache() == old(self).max_cache(),
            final(self).legacy_cursor() == old(self).legacy_cursor(),
            inserted == (!cache_has_key(old(self).cache_view(), event_key(event))
                && !has_event_key(old(self).events_view(), event_key(event))),
            // storing is idempotent on the stored rows
            final(self).events_view() == stored_events_after(old(self).events_view(), event),
            // a cache hit changes nothing
            cache_has_key(old(self).cache_view(), event_key(event)) ==> final(self).events_view()
                == old(self).events_view() && final(self).sync_view() == old(self).sync_view()
                && final(self).cache_view() == old(self).cache_view(),
            // on a cache miss the event enters the cache, evicting the
            // oldest entry when the cache is full
            !cache_has_key(old(self).cache_view(), event_key(event)) ==> final(self).cache_view()
                == (if old(self).cache_view().len() >= old(self).max_cache() && old(self).cache_view().len() > 0 {
                old(self).cache_view().remove(oldest_index(old(self).cache_view()))
            } else {
                old(self).cache_view()
            }).push(CachedEvent { event, inserted_at: now_ms }),
            // a duplicate key never adds a row nor touches sync state
            !inserted ==> final(self).events_view() == old(self).events_view() && final(self).sync_view() == old(self).sync_view(),
            // a fresh key appends exactly this event
            inserted ==> final(self).events_view() == old(self).events_view().push(event),
            // and bumps the chain's counter where its sync row exists
            inserted ==> final(self).sync_view().len() == old(self).sync_view().len() && (forall|
                i: int|
                0 <= i < old(self).sync_view().len() ==> #[trigger] final(self).sync_view()[i]
                    == (if old(self).sync_view()[i].chain_id == event.chain_id {
                    ChainSyncState {
                        total_events_indexed: bump(old(self).sync_view()[i].total_events_indexed),
                        ..old(self).sync_view()[i]
                    }
                } else {
                    old(self).sync_view()[i]
                })),
    {
        if self.cache_contains(&event) {
            proof {
                let k = event_key(event);
                let i = choose|i: int|
                    0 <= i < self.cache_view().len() && cache_entry_key(self.cache_view()[i]) == k;
                assert(has_event_key(self.events_view(), k));
            }
            return false;
        }
        let inserted = if self.events_contain(&event) {
            false
        } else {
            let ghost pre = self.events@;
            self.events.push(event.clone());
            proof {
                assert forall|i: int, j: int|
                    0 <= i < j < self.events@.len() implies event_key(self.events@[i])
                    != event_key(self.events@[j]) by {
                    if j < pre.len() {
                        assert(self.events@[i] == pre[i] && self.events@[j] == pre[j]);
                    } else {
                        assert(self.events@[j] == event);
                        assert(self.events@[i] == pre[i]);
                        assert(!has_event_key(pre, event_key(event)));
                    }
                }
            }
            let mut i: usize = 0;
            let n = self.sync_states.len();
            while i < n
                invariant
                    0 <= i <= n,
                    n == self.sync_states@.len(),
                    self.sync_states@.len() == old(self).sync_states@.len(),
                    self.events@ == old(self).events@.push(event),
                    self.cache@ == old(self).cache@,
                    self.chains@ == old(self).chains@,
                    self.max_cache_size == old(self).max_cache_size,
                    self.legacy_last_synced == old(self).legacy_last_synced,
                    forall|j: int|
                        0 <= j < i ==> #[trigger] self.sync_states@[j] == (if old(self).sync_states@[j].chain_id == event.chain_id {
                            ChainSyncState {
                                total_events_indexed: bump(
                                    old(self).sync_states@[j].total_events_indexed,
                                ),
                                ..old(self).sync_states@[j]
                            }
                        } else {
                            old(self).sync_states@[j]
                        }),
                    forall|j: int|
                        i <= j < self.sync_states@.len() ==> #[trigger] self.sync_states@[j] == old(self).sync_states@[j],
                decreases n - i,
            {
                if self.sync_states[i].chain_id == event.chain_id {
                    let cur = self.sync_states[i].total_events_indexed;
                    let bumped = if cur < u64::MAX {
                        cur + 1
                    } else {
                        cur
                    };
                    let row = &mut self.sync_states[i];
                    row.total_events_indexed = bumped;
                }
                i += 1;
            }
            proof {
                assert forall|i: int, j: int|
                    0 <= i < j < self.sync_states@.len() implies self.sync_states@[i].chain_id
                    != self.sync_states@[j].chain_id by {
                    assert(self.sync_states@[i].chain_id == old(self).sync_states@[i].chain_id);
                    assert(self.sync_states@[j].chain_id == old(self).sync_states@[j].chain_id);
                }
                let pre = old(self).events@;
                assert forall|i: int, j: int|
                    0 <= i < j < self.events@.len() implies event_key(self.events@[i])
                    != event_key(self.events@[j]) by {
                    if j < pre.len() {
                        assert(self.events@[i] == pre[i] && self.events@[j] == pre[j]);
                    } else {
                        assert(self.events@[j] == event);
                        assert(self.events@[i] == pre[i]);
                        assert(!has_event_key(pre, event_key(event)));
                    }
                }
            }
            true
        };
        proof {
            if !inserted {
                assert(self.events@ == old(self).events@);
                assert(self.sync_states@ == old(self).sync_states@);
            }
            assert forall|i: int, j: int|
                0 <= i < j < self.events_view().len() implies event_key(self.events_view()[i])
                != event_key(self.events_view()[j]) by {
                assert(self.events_view() == self.events@);
                if !inserted {
                    assert(event_key(old(self).events_view()[i]) != event_key(
                        old(self).events_view()[j],
                    ));
                }
            }
            assert forall|i: int, j: int|
                0 <= i < j < self.sync_view().len() implies self.sync_view()[i].chain_id
                != self.sync_view()[j].chain_id by {
                assert(self.sync_view() == self.sync_states@);
                if !inserted {
                    assert(old(self).sync_view()[i].chain_id != old(self).sync_view()[j].chain_id);
                }
            }
            assert forall|i: int, j: int|
                0 <= i < j < self.chains_view().len() implies self.chains_view()[i].chain_id
                < self.chains_view()[j].chain_id by {
                assert(self.chains_view() == old(self).chains_view());
                assert(old(self).chains_view()[i].chain_id < old(self).chains_view()[j].chain_id);
            }
            assert forall|i: int, j: int|
                0 <= i < j < self.cache_view().len() implies cache_entry_key(self.cache_view()[i])
                != cache_entry_key(self.cache_view()[j]) by {
                assert(self.cache_view() == old(self).cache_view());
                assert(cache_entry_key(old(self).cache_view()[i]) != cache_entry_key(
                    old(self).cache_view()[j],
                ));
            }
            assert(self.cache_view().len() == old(self).cache_view().len());
            assert forall|i: int|
                0 <= i < self.cache_view().len() implies has_event_key(
                self.events_view(),
                cache_entry_key(#[trigger] self.cache_view()[i]),
            ) by {
                assert(self.cache_view()[i] == old(self).cache_view()[i]);
                assert(has_event_key(
                    old(self).events_view(),
                    cache_entry_key(old(self).cache_view()[i]),
                ));
                let w = choose|k: int|
                    0 <= k < old(self).events_view().len() && event_key(
                        old(self).events_view()[k],
                    ) == cache_entry_key(old(self).cache_view()[i]);
                assert(event_key(self.events_view()[w]) == cache_entry_key(self.cache_view()[i]));
            }
            assert(self.wf());
            assert(!cache_has_key(self.cache_view(), event_key(event)));
            if inserted {
                assert(self.events_view().last() == event);
                assert(has_event_key(self.events_view(), event_key(event)));
            } else {
                assert(has_event_key(self.events_view(), event_key(event)));
            }
        }
        self.cache_insert(event, now_ms);
        inserted
    }

    /// The highest stored block number, zero when nothing is stored.
    fn max_block_exec(&self) -> (r: u64)
        ensures
            r as nat == max_block(self.events_view()),
    {
        let mut best: u64 = 0;
        let mut i: usize = 0;
        proof {
            assert(self.events@.subrange(0, 0) =~= Seq::<Event>::empty());
        }
        while i < self.events.len()
            invariant
                0 <= i <= self.events@.len(),
                best as nat == max_block(self.events@.subrange(0, i as int)),
            decreases self.events@.len() - i,
        {
            proof {
                let pre = self.events@.subrange(0, i as int);
                let post = self.events@.subrange(0, i as int + 1);
                assert(post.drop_last() =~= pre);
                assert(post.last() == self.events@[i as int]);
            }
            if self.events[i].block_number > best {
                best = self.events[i].block_number;
            }
            i += 1;
        }
        proof {
            assert(self.events@.subrange(0, self.events@.len() as int) =~= self.events@);
        }
        best
    }

    /// The number of stored events that pass every filter of the query;
    /// pagination plays no part.
    pub fn count_events(&self, query: &EventQuery, now_s: i64) -> (r: usize)
        ensures
            r == matching_events(self.events_view(), *query, now_s).len(),
    {
        let maxb = self.max_block_exec();
        let ghost pred = |e: Event| event_matches(e, *query, max_block(self.events@), now_s);
        let mut count: usize = 0;
        let mut i: usize = 0;
        proof {
            reveal(Seq::filter);
            assert(self.events@.subrange(0, 0) =~= Seq::<Event>::empty());
        }
        while i < self.events.len()
            invariant
                0 <= i <= self.events@.len(),
                maxb as nat == max_block(self.events@),
                pred == |e: Event| event_matches(e, *query, max_block(self.events@), now_s),
                count == self.events@.subrange(0, i as int).filter(pred).len(),
                count <= i,
            decreases self.events@.len() - i,
        {
            proof {
                reveal(Seq::filter);
                let pre = self.events@.subrange(0, i as int);
                let post = self.events@.subrange(0, i as int + 1);
                assert(post.drop_last() =~= pre);
                assert(post.last() == self.events@[i as int]);
            }
            if event_matches_exec(&self.events[i], query, maxb, now_s) {
                count += 1;
            }
            i += 1;
        }
        proof {
            assert(self.events@.subrange(0, self.events@.len() as int) =~= self.events@);
        }
        count
    }

    /// The events that pass every filter of the query, newest block first
    /// (ties by higher log index), cut to the requested page. Fails exactly
    /// when a negative `limit` or `offset` is supplied.
    pub fn get_recent_events(&self, query: &EventQuery, now_s: i64) -> (r: Result<
        Vec<Event>,
        StorageError,
    >)
        ensures
            r is Err <==> (query.offset is Some && query.offset->Some_0 < 0) || (query.limit
                is Some && query.limit->Some_0 < 0),
            r is Ok ==> r->Ok_0@ == query_results(self.events_view(), *query, now_s),
    {
        if let Some(o) = query.offset {
            if o < 0 {
                return Err(StorageError::InvalidPagination);
            }
        }
        if let Some(l) = query.limit {
            if l < 0 {
                return Err(StorageError::InvalidPagination);
            }
        }
        let maxb = self.max_block_exec();
        let ghost pred = |e: Event| event_matches(e, *query, max_block(self.events@), now_s);
        let mut filtered: Vec<Event> = Vec::new();
        let mut i: usize = 0;
        proof {
            reveal(Seq::filter);
            assert(self.events@.subrange(0, 0) =~= Seq::<Event>::empty());
        }
        while i < self.events.len()
            invariant
                0 <= i <= self.events@.len(),
                maxb as nat == max_block(self.events@),
                pred == |e: Event| event_matches(e, *query, max_block(self.events@), now_s),
                filtered@ == self.events@.subrange(0, i as int).filter(pred),
            decreases self.events@.len() - i,
        {
            proof {
                reveal(Seq::filter);
                let pre = self.events@.subrange(0, i as int);
                let post = self.events@.subrange(0, i as int + 1);
                assert(post.drop_last() =~= pre);
                assert(post.last() == self.events@[i as int]);
            }
            if event_matches_exec(&self.events[i], query, maxb, now_s) {
                filtered.push(self.events[i].clone());
            }
            i += 1;
        }
        proof {
            assert(self.events@.subrange(0, self.events@.len() as int) =~= self.events@);
            assert(filtered@ == matching_events(self.events@, *query, now_s));
        }
        let mut sorted: Vec<Event> = Vec::new();
        let mut i: usize = 0;
        proof {
            assert(filtered@.subrange(0, 0) =~= Seq::<Event>::empty());
        }
        while i < filtered.len()
            invariant
                0 <= i <= filtered@.len(),
                sorted@ == sort_desc(filtered@.subrange(0, i as int)),
                sorted@.len() == i,
            decreases filtered@.len() - i,
        {
            let e = &filtered[i];
            let ghost ev = filtered@[i as int];
            let mut idx: usize = 0;
            while idx < sorted.len() && !key_before_exec(e, &sorted[idx])
                invariant
                    0 <= idx <= sorted@.len(),
                    i < filtered@.len(),
                    *e == filtered@[i as int],
                    ev == filtered@[i as int],
                    forall|j: int| 0 <= j < idx ==> !key_before(ev, #[trigger] sorted@[j]),
                decreases sorted@.len() - idx,
            {
                proof {
                    assert(!key_before(ev, sorted@[idx as int]));
                }
                idx += 1;
            }
            proof {
                lemma_insert_desc_at(sorted@, filtered@[i as int], idx as int);
                let pre = filtered@.subrange(0, i as int);
                let post = filtered@.subrange(0, i as int + 1);
                assert(post.drop_last() =~= pre);
                assert(post.last() == filtered@[i as int]);
                assert(sorted@.insert(idx as int, filtered@[i as int]) =~= sorted@.subrange(
                    0,
                    idx as int,
                ) + seq![filtered@[i as int]] + sorted@.subrange(idx as int, sorted@.len() as int));
            }
            let c = e.clone();
            sorted.insert(idx, c);
            i += 1;
        }
        proof {
            assert(filtered@.subrange(0, filtered@.len() as int) =~= filtered@);
        }
        let skip: usize = match query.offset {
            Some(o) => {
                if o as u64 > sorted.len() as u64 {
                    sorted.len()
                } else {
                    o as usize
                }
            },
            None => 0,
        };
        let end: usize = match query.limit {
            Some(l) => {
                if l as u64 > (sorted.len() - skip) as u64 {
                    sorted.len()
                } else {
                    skip + (l as usize)
                }
            },
            None => sorted.len(),
        };
        let mut out: Vec<Event> = Vec::new();
        let mut k: usize = skip;
        while k < end
            invariant
                skip <= k <= end <= sorted@.len(),
                out@ =~= sorted@.subrange(skip as int, k as int),
            decreases end - k,
        {
            proof {
                assert(sorted@.subrange(skip as int, k as int + 1) =~= sorted@.subrange(
                    skip as int,
                    k as int,
                ).push(sorted@[k as int]));
            }
            out.push(sorted[k].clone());
            k += 1;
        }
        proof {
            let s = sorted@;
            let skip_s: int = match query.offset {
                Some(o) => if o as int > s.len() {
                    s.len() as int
                } else {
                    o as int
                },
                None => 0,
            };
            let end_s: int = match query.limit {
                Some(l) => if skip_s + l > s.len() {
                    s.len() as int
                } else {
                    skip_s + l
                },
                None => s.len() as int,
            };
            assert(skip as int == skip_s);
            assert(end as int == end_s);
            assert(page_of(s, query.offset, query.limit) == s.subrange(skip_s, end_s));
            assert(out@ =~= page_of(sorted@, query.offset, query.limit));
        }
        Ok(out)
    }

    /// The position of a chain's sync row, where one exists.
    fn sync_pos(&self, chain_id: u64) -> (r: Option<usize>)
        ensures
            r is Some <==> has_sync_row(self.sync_view(), chain_id),
            r is Some ==> 0 <= r->Some_0 < self.sync_view().len() && self.sync_view()[
                r->Some_0 as int
            ].chain_id == chain_id,
    {
        let mut i: usize = 0;
        while i < self.sync_states.len()
            invariant
                0 <= i <= self.sync_states@.len(),
                forall|j: int| 0 <= j < i ==> self.sync_states@[j].chain_id != chain_id,
            decreases self.sync_states@.len() - i,
        {
            if self.sync_states[i].chain_id == chain_id {
                return Some(i);
            }
            i += 1;
        }
        None
    }

    /// The chain's recorded cursor; zero where no sync row exists yet.
    pub fn get_last_synced_block_for_chain(&self, chain_id: u64) -> (r: u64)
        requires
            self.wf(),
        ensures
            !has_sync_row(self.sync_view(), chain_id) ==> r == 0,
            forall|i: int|
                0 <= i < self.sync_view().len() && self.sync_view()[i].chain_id == chain_id ==> r
                    == #[trigger] self.sync_view()[i].last_synced_block,
    {
        match self.sync_pos(chain_id) {
            Some(i) => {
                proof {
                    assert forall|j: int|
                        0 <= j < self.sync_view().len() && self.sync_view()[j].chain_id == chain_id
                            implies self.sync_view()[i as int].last_synced_block
                        == #[trigger] self.sync_view()[j].last_synced_block by {
                        if j != i {
                            assert(self.sync_view()[j].chain_id != self.sync_view()[
                                i as int
                            ].chain_id);
                        }
                    }
                }
                self.sync_states[i].last_synced_block
            },
            None => 0,
        }
    }

    /// A copy of the chain's sync row, where one exists.
    pub fn get_chain_sync_state(&self, chain_id: u64) -> (r: Option<ChainSyncState>)
        requires
            self.wf(),
        ensures
            r is Some <==> has_sync_row(self.sync_view(), chain_id),
            forall|i: int|
                0 <= i < self.sync_view().len() && self.sync_view()[i].chain_id == chain_id ==> r
                    == Some(#[trigger] self.sync_view()[i]),
    {
        match self.sync_pos(chain_id) {
            Some(i) => {
                proof {
                    assert forall|j: int|
                        0 <= j < self.sync_view().len() && #[trigger] self.sync_view()[j].chain_id
                            == chain_id implies self.sync_view()[i as int] == self.sync_view()[j]
                        by {
                        if j != i {
                            assert(self.sync_view()[j].chain_id != self.sync_view()[
                                i as int
                            ].chain_id);
                        }
                    }
                }
                Some(self.sync_states[i].clone())
            },
            None => None,
        }
    }

    /// Records the chain's cursor: the existing sync row is updated, or a
    /// fresh row is created whose other columns start empty.
    pub fn update_last_synced_block_for_chain(
        &mut self,
        chain_id: u64,
        block_number: u64,
        now_s: i64,
    )
        requires
            old(self).wf(),
        ensures
            final(self).wf(),
            final(self).events_view() == old(self).events_view(),
            final(self).chains_view() == old(self).chains_view(),
            final(self).cache_view() == old(self).cache_view(),
            final(self).max_cache() == old(self).max_cache(),
            final(self).legacy_cursor() == old(self).legacy_cursor(),
            has_sync_row(final(self).sync_view(), chain_id),
            // an existing row is rewritten in place, the rest are kept
            has_sync_row(old(self).sync_view(), chain_id) ==> final(self).sync_view().len() == old(
                self,
            ).sync_view().len() && (forall|i: int|
                0 <= i < old(self).sync_view().len() ==> #[trigger] final(self).sync_view()[i] == (
                if old(self).sync_view()[i].chain_id == chain_id {
                    ChainSyncState {
                        last_synced_block: block_number,
                        last_sync_time: now_s,
                        ..old(self).sync_view()[i]
                    }
                } else {
                    old(self).sync_view()[i]
                })),
            // otherwise a fresh row is appended
            !has_sync_row(old(self).sync_view(), chain_id) ==> final(self).sync_view() == old(
                self,
            ).sync_view().push(final(self).sync_view().last()) && {
                let row = final(self).sync_view().last();
                &&& row.chain_id == chain_id
                &&& row.last_synced_block == block_number
                &&& row.last_sync_time == now_s
                &&& row.status@ == Seq::<char>::empty()
                &&& row.error_message is None
                &&& row.total_events_indexed == 0
                &&& row.errors_last_hour == 0
            },
    {
        match self.sync_pos(chain_id) {
            Some(i) => {
                let row = &mut self.sync_states[i];
                row.last_synced_block = block_number;
                row.last_sync_time = now_s;
                proof {
                    assert forall|j: int, k: int|
                        0 <= j < k < self.sync_states@.len() implies self.sync_states@[j].chain_id
                        != self.sync_states@[k].chain_id by {
                        assert(self.sync_states@[j].chain_id == old(
                            self,
                        ).sync_states@[j].chain_id);
                        assert(self.sync_states@[k].chain_id == old(
                            self,
                        ).sync_states@[k].chain_id);
                    }
                    assert(self.sync_states@[i as int].chain_id == chain_id);
                    lemma_wf_sync_update(*old(self), *self);
                }
            },
            None => {
                let row = ChainSyncState {
                    chain_id,
                    last_synced_block: block_number,
                    last_sync_time: now_s,
                    status: String::new(),
                    error_message: None,
                    total_events_indexed: 0,
                    errors_last_hour: 0,
                };
                self.sync_states.push(row);
                proof {
                    let pre = old(self).sync_states@;
                    assert forall|j: int, k: int|
                        0 <= j < k < self.sync_states@.len() implies self.sync_states@[j].chain_id
                        != self.sync_states@[k].chain_id by {
                        if k < pre.len() {
                            assert(self.sync_states@[j] == pre[j] && self.sync_states@[k]
                                == pre[k]);
                        } else {
                            assert(self.sync_states@[j] == pre[j]);
                            assert(self.sync_states@[k].chain_id == chain_id);
                            assert(!has_sync_row(pre, chain_id));
                        }
                    }
                    assert(self.sync_states@.last().chain_id == chain_id);
                    lemma_wf_sync_update(*old(self), *self);
                }
            },
        }
    }

    /// Records a chain's status and error message on its sync row; a chain
    /// without a row is left untouched.
    pub fn update_chain_status(
        &mut self,
        chain_id: u64,
        status: crate::supervisor::ChainStatus,
        error_message: Option<&str>,
    )
        requires
            old(self).wf(),
        ensures
            final(self).wf(),
            final(self).events_view() == old(self).events_view(),
            final(self).chains_view() == old(self).chains_view(),
            final(self).cache_view() == old(self).cache_view(),
            final(self).max_cache() == old(self).max_cache(),
            final(self).legacy_cursor() == old(self).legacy_cursor(),
            final(self).sync_view().len() == old(self).sync_view().len(),
            forall|i: int|
                0 <= i < old(self).sync_view().len() && old(self).sync_view()[i].chain_id
                    != chain_id ==> #[trigger] final(self).sync_view()[i] == old(self).sync_view()[
                    i
                ],
            forall|i: int|
                0 <= i < old(self).sync_view().len() && old(self).sync_view()[i].chain_id
                    == chain_id ==> {
                    let row = #[trigger] final(self).sync_view()[i];
                    let pre = old(self).sync_view()[i];
                    &&& row.chain_id == pre.chain_id
                    &&& row.last_synced_block == pre.last_synced_block
                    &&& row.last_sync_time == pre.last_sync_time
                    &&& row.total_events_indexed == pre.total_events_indexed
                    &&& row.errors_last_hour == pre.errors_last_hour
                    &&& row.status@ == crate::supervisor::chain_status_name(status)
                    &&& match error_message {
                        None => row.error_message is None,
                        Some(m) => row.error_message is Some && row.error_message->Some_0@ == m@,
                    }
                },
    {
        match self.sync_pos(chain_id) {
            Some(i) => {
                let status_string = status.as_str().to_owned();
                let msg: Option<String> = match error_message {
                    Some(m) => Some(m.to_owned()),
                    None => None,
                };
                let row = &mut self.sync_states[i];
                row.status = status_string;
                row.error_message = msg;
                proof {
                    assert forall|j: int, k: int|
                        0 <= j < k < self.sync_states@.len() implies self.sync_states@[j].chain_id
                        != self.sync_states@[k].chain_id by {
                        assert(self.sync_states@[j].chain_id == old(
                            self,
                        ).sync_states@[j].chain_id);
                        assert(self.sync_states@[k].chain_id == old(
                            self,
                        ).sync_states@[k].chain_id);
                    }
                    assert forall|j: int|
                        0 <= j < old(self).sync_view().len() && old(self).sync_view()[j].chain_id
                            == chain_id implies j == i as int by {
                        if j != i {
                            assert(self.sync_states@[j].chain_id != self.sync_states@[
                                i as int
                            ].chain_id);
                        }
                    }
                    lemma_wf_sync_update(*old(self), *self);
                }
            },
            None => {
                proof {
                    lemma_wf_frame(*old(self), *self);
                }
            },
        }
    }

    /// Records the single-row cursor kept for single-chain deployments.
    pub fn update_last_synced_block(&mut self, block_number: u64)
        requires
            old(self).wf(),
        ensures
            final(self).wf(),
            final(self).events_view() == old(self).events_view(),
            final(self).sync_view() == old(self).sync_view(),
            final(self).chains_view() == old(self).chains_view(),
            final(self).cache_view() == old(self).cache_view(),
            final(self).max_cache() == old(self).max_cache(),
            final(self).legacy_cursor() == Some(block_number),
    {
        self.legacy_last_synced = Some(block_number);
        proof {
            lemma_wf_frame(*old(self), *self);
        }
    }

    /// Enters a chain into the static directory, replacing any row the chain
    /// already has. With the directory's order and uniqueness this pins the
    /// result: the other chains' rows, with this row in its place.
    pub fn add_chain(&mut self, row: ChainRow)
        requires
            old(self).wf(),
        ensures
            final(self).wf(),
            final(self).events_view() == old(self).events_view(),
            final(self).sync_view() == old(self).sync_view(),
            final(self).cache_view() == old(self).cache_view(),
            final(self).max_cache() == old(self).max_cache(),
            final(self).legacy_cursor() == old(self).legacy_cursor(),
            final(self).chains_view().contains(row),
            forall|i: int|
                0 <= i < old(self).chains_view().len() && (#[trigger] old(self).chains_view()[
                    i
                ]).chain_id != row.chain_id ==> final(self).chains_view().contains(
                    old(self).chains_view()[i],
                ),
            forall|i: int|
                0 <= i < final(self).chains_view().len() && (#[trigger] final(self).chains_view()[
                    i
                ]).chain_id != row.chain_id ==> old(self).chains_view().contains(
                    final(self).chains_view()[i],
                ),
    {
        let ghost pre = self.chains@;
        let target: u64 = row.chain_id;
        let mut idx: usize = 0;
        while idx < self.chains.len() && self.chains[idx].chain_id < target
            invariant
                0 <= idx <= self.chains@.len(),
                target == row.chain_id,
                forall|j: int| 0 <= j < idx ==> (#[trigger] self.chains@[j]).chain_id < target,
            decreases self.chains@.len() - idx,
        {
            idx += 1;
        }
        if idx < self.chains.len() && self.chains[idx].chain_id == target {
            self.chains.set(idx, row);
            proof {
                assert forall|i: int, j: int|
                    0 <= i < j < self.chains@.len() implies self.chains@[i].chain_id
                    < self.chains@[j].chain_id by {
                    assert(pre[i].chain_id < pre[j].chain_id);
                    assert(self.chains@[i].chain_id == pre[i].chain_id);
                    assert(self.chains@[j].chain_id == pre[j].chain_id);
                }
                lemma_wf_chains_update(*old(self), *self);
                assert(self.chains@[idx as int] == row);
                assert forall|i: int|
                    0 <= i < pre.len() && (#[trigger] pre[i]).chain_id != row.chain_id implies
                    self.chains@.contains(pre[i]) by {
                    assert(self.chains@[i] == pre[i]);
                }
                assert forall|i: int|
                    0 <= i < self.chains@.len() && (#[trigger] self.chains@[i]).chain_id
                        != row.chain_id implies pre.contains(self.chains@[i]) by {
                    assert(self.chains@[i] == pre[i]);
                }
            }
        } else {
            proof {
                if idx < pre.len() {
                    assert(pre[idx as int].chain_id > target);
                }
            }
            self.chains.insert(idx, row);
            proof {
                assert forall|i: int, j: int|
                    0 <= i < j < self.chains@.len() implies self.chains@[i].chain_id
                    < self.chains@[j].chain_id by {
                    let a = if i < idx {
                        i
                    } else {
                        i - 1
                    };
                    let b = if j <= idx {
                        j - 1
                    } else {
                        j - 1
                    };
                    if i < idx {
                        assert(self.chains@[i] == pre[i]);
                    } else if i > idx {
                        assert(self.chains@[i] == pre[i - 1]);
                    }
                    if j < idx {
                        assert(self.chains@[j] == pre[j]);
                    } else if j > idx {
                        assert(self.chains@[j] == pre[j - 1]);
                    }
                    if i == idx {
                        assert(self.chains@[i] == row);
                    }
                    if j == idx {
                        assert(self.chains@[j] == row);
                    }
                    if i < idx && j > idx {
                        assert(pre[i].chain_id < target);
                        assert(pre[idx as int].chain_id > target);
                        if idx < j - 1 {
                            assert(pre[idx as int].chain_id < pre[j - 1].chain_id);
                        }
                    }
                }
                lemma_wf_chains_update(*old(self), *self);
                assert(self.chains@[idx as int] == row);
                assert(self.chains@.contains(row));
                assert forall|i: int|
                    0 <= i < pre.len() && (#[trigger] pre[i]).chain_id != row.chain_id implies
                    self.chains@.contains(pre[i]) by {
                    if i < idx {
                        assert(self.chains@[i] == pre[i]);
                    } else {
                        assert(self.chains@[i + 1] == pre[i]);
                    }
                }
                assert forall|i: int|
                    0 <= i < self.chains@.len() && (#[trigger] self.chains@[i]).chain_id
                        != row.chain_id implies pre.contains(self.chains@[i]) by {
                    if i < idx {
                        assert(self.chains@[i] == pre[i]);
                    } else if i > idx {
                        assert(self.chains@[i] == pre[i - 1]);
                    }
                }
            }
        }
    }

    /// The enabled chains of the directory, in ascending chain-id order,
    /// each joined with its sync row where one exists.
    pub fn get_enabled_chains(&self) -> (r: Vec<ChainInfo>)
        requires
            self.wf(),
        ensures
            r@ == self.chains_view().filter(|c: ChainRow| c.enabled).map_values(
                |c: ChainRow| join_chain(c, self.sync_view()),
            ),
    {
        let ghost pred = |c: ChainRow| c.enabled;
        let ghost f = |c: ChainRow| join_chain(c, self.sync_view());
        let mut out: Vec<ChainInfo> = Vec::new();
        let mut i: usize = 0;
        proof {
            reveal(Seq::filter);
            assert(self.chains@.subrange(0, 0) =~= Seq::<ChainRow>::empty());
            assert(out@ =~= self.chains@.subrange(0, 0).filter(pred).map_values(f));
        }
        while i < self.chains.len()
            invariant
                0 <= i <= self.chains@.len(),
                self.wf(),
                pred == (|c: ChainRow| c.enabled),
                f == (|c: ChainRow| join_chain(c, self.sync_view())),
                out@ == self.chains@.subrange(0, i as int).filter(pred).map_values(f),
            decreases self.chains@.len() - i,
        {
            proof {
                reveal(Seq::filter);
                let pre = self.chains@.subrange(0, i as int);
                let post = self.chains@.subrange(0, i as int + 1);
                assert(post.drop_last() =~= pre);
                assert(post.last() == self.chains@[i as int]);
                if pred(self.chains@[i as int]) {
                    assert(post.filter(pred).map_values(f) =~= pre.filter(pred).map_values(
                        f,
                    ).push(f(self.chains@[i as int])));
                } else {
                    assert(post.filter(pred).map_values(f) =~= pre.filter(pred).map_values(f));
                }
            }
            let row = &self.chains[i];
            if row.enabled {
                let info = match self.sync_pos(row.chain_id) {
                    Some(k) => {
                        proof {
                            let ss = self.sync_view();
                            let c = sync_index_of(ss, row.chain_id);
                            assert(0 <= c < ss.len() && ss[c].chain_id == row.chain_id);
                            if c != k {
                                assert(ss[c].chain_id != ss[k as int].chain_id);
                            }
                            assert(ss[k as int] == ss[c]);
                        }
                        let sync = &self.sync_states[k];
                        ChainInfo {
                            chain_id: row.chain_id,
                            name: row.name.clone(),
                            rpc_url: row.rpc_url.clone(),
                            identity_registry: row.identity_registry.clone(),
                            reputation_registry: row.reputation_registry.clone(),
                            validation_registry: row.validation_registry.clone(),
                            last_synced_block: Some(sync.last_synced_block),
                            status: Some(sync.status.clone()),
                            error_message: match &sync.error_message {
                                Some(m) => Some(m.clone()),
                                None => None,
                            },
                            total_events_indexed: Some(sync.total_events_indexed),
                            errors_last_hour: Some(sync.errors_last_hour),
                            last_sync_time: Some(sync.last_sync_time),
                        }
                    },
                    None => ChainInfo {
                        chain_id: row.chain_id,
                        name: row.name.clone(),
                        rpc_url: row.rpc_url.clone(),
                        identity_registry: row.identity_registry.clone(),
                        reputation_registry: row.reputation_registry.clone(),
                        validation_registry: row.validation_registry.clone(),
                        last_synced_block: None,
                        status: None,
                        error_message: None,
                        total_events_indexed: None,
                        errors_last_hour: None,
                        last_sync_time: None,
                    },
                };
                proof {
                    assert(info == f(self.chains@[i as int]));
                }
                out.push(info);
            }
            i += 1;
        }
        proof {
            assert(self.chains@.subrange(0, self.chains@.len() as int) =~= self.chains@);
        }
        out
    }

    /// Counts of stored events, total and per category, restricted to the
    /// given chains (no list, or an empty one, restricts nothing). The two
    /// reserved categories always report zero.
    pub fn get_category_stats(&self, chain_ids: Option<Vec<u64>>) -> (r:
        crate::models::CategoryStats)
        ensures
            ({
                let ids = match chain_ids {
                    Some(v) => Some(v@),
                    None => None,
                };
                let evs = self.events_view();
                &&& r.all as int == to_i64_sat(
                    evs.filter(|e: Event| stats_chain_ok(e, ids)).len(),
                )
                &&& r.agents as int == to_i64_sat(
                    evs.filter(
                        |e: Event| stats_chain_ok(e, ids) && is_agents_type(e.event_type),
                    ).len(),
                )
                &&& r.metadata as int == to_i64_sat(
                    evs.filter(
                        |e: Event| stats_chain_ok(e, ids) && is_metadata_type(e.event_type),
                    ).len(),
                )
                &&& r.validation as int == to_i64_sat(
                    evs.filter(
                        |e: Event| stats_chain_ok(e, ids) && is_validation_type(e.event_type),
                    ).len(),
                )
                &&& r.feedback as int == to_i64_sat(
                    evs.filter(
                        |e: Event| stats_chain_ok(e, ids) && is_feedback_type(e.event_type),
                    ).len(),
                )
                &&& r.capabilities == 0
                &&& r.payments == 0
            }),
    {
        let ghost ids = match &chain_ids {
            Some(v) => Some(v@),
            None => None,
        };
        let ghost evs = self.events@;
        let ghost p_all = |e: Event| stats_chain_ok(e, ids);
        let ghost p_ag = |e: Event| stats_chain_ok(e, ids) && is_agents_type(e.event_type);
        let ghost p_md = |e: Event| stats_chain_ok(e, ids) && is_metadata_type(e.event_type);
        let ghost p_vl = |e: Event| stats_chain_ok(e, ids) && is_validation_type(e.event_type);
        let ghost p_fb = |e: Event| stats_chain_ok(e, ids) && is_feedback_type(e.event_type);
        let mut n_all: usize = 0;
        let mut n_ag: usize = 0;
        let mut n_md: usize = 0;
        let mut n_vl: usize = 0;
        let mut n_fb: usize = 0;
        let mut i: usize = 0;
        proof {
            reveal(Seq::filter);
            assert(evs.subrange(0, 0) =~= Seq::<Event>::empty());
        }
        while i < self.events.len()
            invariant
                0 <= i <= evs.len(),
                evs == self.events@,
                ids == (match chain_ids {
                    Some(v) => Some(v@),
                    None => None,
                }),
                p_all == (|e: Event| stats_chain_ok(e, ids)),
                p_ag == (|e: Event| stats_chain_ok(e, ids) && is_agents_type(e.event_type)),
                p_md == (|e: Event| stats_chain_ok(e, ids) && is_metadata_type(e.event_type)),
                p_vl == (|e: Event| stats_chain_ok(e, ids) && is_validation_type(e.event_type)),
                p_fb == (|e: Event| stats_chain_ok(e, ids) && is_feedback_type(e.event_type)),
                n_all == evs.subrange(0, i as int).filter(p_all).len(),
                n_ag == evs.subrange(0, i as int).filter(p_ag).len(),
                n_md == evs.subrange(0, i as int).filter(p_md).len(),
                n_vl == evs.subrange(0, i as int).filter(p_vl).len(),
                n_fb == evs.subrange(0, i as int).filter(p_fb).len(),
                n_ag <= n_all <= i && n_md <= i && n_vl <= i && n_fb <= i,
            decreases evs.len() - i,
        {
            proof {
                reveal(Seq::filter);
                let pre = evs.subrange(0, i as int);
                let post = evs.subrange(0, i as int + 1);
                assert(post.drop_last() =~= pre);
                assert(post.last() == evs[i as int]);
                pre.lemma_filter_len(p_all);
                pre.lemma_filter_len(p_ag);
                pre.lemma_filter_len(p_md);
                pre.lemma_filter_len(p_vl);
                pre.lemma_filter_len(p_fb);
            }
            let e = &self.events[i];
            let in_chains: bool = match &chain_ids {
                None => true,
                Some(v) => {
                    if v.len() == 0 {
                        true
                    } else {
                        let mut found = false;
                        let mut k: usize = 0;
                        while k < v.len()
                            invariant
                                0 <= k <= v@.len(),
                                i < evs.len(),
                                e == &evs[i as int],
                                found == exists|j: int|
                                    0 <= j < k && v@[j] == evs[i as int].chain_id,
                            decreases v@.len() - k,
                        {
                            if v[k] == e.chain_id {
                                found = true;
                            }
                            k += 1;
                        }
                        proof {
                            if found {
                                assert(v@.contains(evs[i as int].chain_id));
                            } else {
                                assert(!v@.contains(evs[i as int].chain_id));
                            }
                        }
                        found
                    }
                },
            };
            if in_chains {
                n_all += 1;
                match e.event_type {
                    crate::models::EventType::Registered => {
                        n_ag += 1;
                    },
                    crate::models::EventType::MetadataSet => {
                        n_md += 1;
                    },
                    crate::models::EventType::UriUpdated => {
                        n_md += 1;
                    },
                    crate::models::EventType::ValidationRequest => {
                        n_vl += 1;
                    },
                    crate::models::EventType::ValidationResponse => {
                        n_vl += 1;
                    },
                    crate::models::EventType::NewFeedback => {
                        n_fb += 1;
                    },
                    crate::models::EventType::FeedbackRevoked => {
                        n_fb += 1;
                    },
                    crate::models::EventType::ResponseAppended => {
                        n_fb += 1;
                    },
                }
            }
            i += 1;
        }
        proof {
            assert(evs.subrange(0, evs.len() as int) =~= evs);
        }
        crate::models::CategoryStats {
            all: usize_to_i64_sat(n_all),
            agents: usize_to_i64_sat(n_ag),
            capabilities: 0,
            metadata: usize_to_i64_sat(n_md),
            validation: usize_to_i64_sat(n_vl),
            feedback: usize_to_i64_sat(n_fb),
            payments: 0,
        }
    }
}

/// A directory row joined with the chain's sync row, as the read API
/// reports it; a chain without a sync row reports absent sync fields.
pub open spec fn join_chain(row: ChainRow, ss: Seq<ChainSyncState>) -> ChainInfo {
    if has_sync_row(ss, row.chain_id) {
        let i = sync_index_of(ss, row.chain_id);
        ChainInfo {
            chain_id: row.chain_id,
            name: row.name,
            rpc_url: row.rpc_url,
            identity_registry: row.identity_registry,
            reputation_registry: row.reputation_registry,
            validation_registry: row.validation_registry,
            last_synced_block: Some(ss[i].last_synced_block),
            status: Some(ss[i].status),
            error_message: ss[i].error_message,
            total_events_indexed: Some(ss[i].total_events_indexed),
            errors_last_hour: Some(ss[i].errors_last_hour),
            last_sync_time: Some(ss[i].last_sync_time),
        }
    } else {
        ChainInfo {
            chain_id: row.chain_id,
            name: row.name,
            rpc_url: row.rpc_url,
            identity_registry: row.identity_registry,
            reputation_registry: row.reputation_registry,
            validation_registry: row.validation_registry,
            last_synced_block: None,
            status: None,
            error_message: None,
            total_events_indexed: None,
            errors_last_hour: None,
            last_sync_time: None,
        }
    }
}


/// An event count clipped to the signed 64-bit range it is reported in.
pub open spec fn to_i64_sat(n: nat) -> int {
    if n > i64::MAX as nat {
        i64::MAX as int
    } else {
        n as int
    }
}

/// Clips a count to the signed 64-bit range.
pub fn usize_to_i64_sat(n: usize) -> (r: i64)
    ensures
        r as int == to_i64_sat(n as nat),
{
    if n as u64 > i64::MAX as u64 {
        i64::MAX
    } else {
        n as i64
    }
}

/// Whether an event passes the chain filter of the statistics query: no
/// list, or an empty list, restricts nothing.
pub open spec fn stats_chain_ok(e: Event, ids: Option<Seq<u64>>) -> bool {
    match ids {
        None => true,
        Some(s) => s.len() == 0 || s.contains(e.chain_id),
    }
}

/// The `agents` category: registration events.
pub open spec fn is_agents_type(t: crate::models::EventType) -> bool {
    t == crate::models::EventType::Registered
}

/// The `metadata` category: metadata and URI updates.
pub open spec fn is_metadata_type(t: crate::models::EventType) -> bool {
    t == crate::models::EventType::MetadataSet || t == crate::models::EventType::UriUpdated
}

/// The `validation` category: validation requests and responses.
pub open spec fn is_validation_type(t: crate::models::EventType) -> bool {
    t == crate::models::EventType::ValidationRequest || t
        == crate::models::EventType::ValidationResponse
}

/// The `feedback` category: feedback life-cycle events.
pub open spec fn is_feedback_type(t: crate::models::EventType) -> bool {
    t == crate::models::EventType::NewFeedback || t == crate::models::EventType::FeedbackRevoked
        || t == crate::models::EventType::ResponseAppended
}

/// Whether `a` comes strictly before `b` in result order.
pub fn key_before_exec(a: &Event, b: &Event) -> (r: bool)
    ensures
        r == key_before(*a, *b),
{
    a.block_number > b.block_number || (a.block_number == b.block_number && a.log_index
        > b.log_index)
}

/// The highest stored block number; zero when nothing is stored.
pub open spec fn max_block(evs: Seq<Event>) -> nat
    decreases evs.len(),
{
    if evs.len() == 0 {
        0
    } else {
        let rest = max_block(evs.drop_last());
        if evs.last().block_number as nat > rest {
            evs.last().block_number as nat
        } else {
            rest
        }
    }
}

/// Whether an event passes every filter of a query. `maxb` is the highest
/// stored block (the reference point of the `blocks` filter) and `now_s` the
/// current time in Unix seconds (the reference point of the `hours` filter,
/// which takes precedence over `blocks`).
pub open spec fn event_matches(e: Event, q: EventQuery, maxb: nat, now_s: i64) -> bool {
    &&& match q.chain_id {
        None => true,
        Some(s) => {
            let ids = crate::text::chain_ids_of_chars(s@);
            ids.len() == 0 || ids.contains(e.chain_id)
        },
    }
    &&& if q.hours is Some {
        e.block_timestamp as int >= now_s as int - q.hours->Some_0 as int * 3600
    } else if q.blocks is Some {
        e.block_number as int >= maxb as int - q.blocks->Some_0 as int
    } else {
        true
    }
    &&& match q.contract {
        None => true,
        Some(c) => e.contract_address@ == crate::text::ascii_lower_chars(c@),
    }
    &&& match q.event_type {
        None => true,
        Some(t) => crate::models::event_type_name(e.event_type) == t@,
    }
    &&& match crate::models::category_event_types(crate::models::query_category(q)) {
        None => true,
        Some(ts) => ts.contains(crate::models::event_type_name(e.event_type)),
    }
    &&& match q.agent_id {
        None => true,
        Some(a) => crate::models::data_agent_id(e.event_data) == a@,
    }
}

/// The stored events that pass every filter of the query, in storage order.
pub open spec fn matching_events(evs: Seq<Event>, q: EventQuery, now_s: i64) -> Seq<Event> {
    evs.filter(|e: Event| event_matches(e, q, max_block(evs), now_s))
}

/// The agent identifier carried by an event's payload.
pub fn agent_id_of(data: &crate::models::EventData) -> (r: &String)
    ensures
        r@ == crate::models::data_agent_id(*data),
{
    match data {
        crate::models::EventData::Registered(x) => &x.agent_id,
        crate::models::EventData::MetadataSet(x) => &x.agent_id,
        crate::models::EventData::UriUpdated(x) => &x.agent_id,
        crate::models::EventData::NewFeedback(x) => &x.agent_id,
        crate::models::EventData::FeedbackRevoked(x) => &x.agent_id,
        crate::models::EventData::ResponseAppended(x) => &x.agent_id,
        crate::models::EventData::ValidationRequest(x) => &x.agent_id,
        crate::models::EventData::ValidationResponse(x) => &x.agent_id,
    }
}

/// Whether an event passes every filter of a query.
pub fn event_matches_exec(e: &Event, q: &EventQuery, maxb: u64, now_s: i64) -> (r: bool)
    ensures
        r == event_matches(*e, *q, maxb as nat, now_s),
{
    let chain_ok: bool = match &q.chain_id {
        None => true,
        Some(s) => {
            let ids = crate::text::parse_chain_id_list(s.as_str());
            if ids.len() == 0 {
                true
            } else {
                let mut found = false;
                let mut i: usize = 0;
                while i < ids.len()
                    invariant
                        0 <= i <= ids@.len(),
                        found == exists|j: int| 0 <= j < i && ids@[j] == e.chain_id,
                    decreases ids@.len() - i,
                {
                    if ids[i] == e.chain_id {
                        found = true;
                    }
                    i += 1;
                }
                proof {
                    if found {
                        assert(ids@.contains(e.chain_id));
                    } else {
                        assert(!ids@.contains(e.chain_id));
                    }
                }
                found
            }
        },
    };
    if !chain_ok {
        return false;
    }
    let time_ok: bool = if let Some(h) = q.hours {
        let cutoff: i128 = now_s as i128 - h as i128 * 3600;
        e.block_timestamp as i128 >= cutoff
    } else if let Some(b) = q.blocks {
        let cutoff: i128 = maxb as i128 - b as i128;
        e.block_number as i128 >= cutoff
    } else {
        true
    };
    if !time_ok {
        return false;
    }
    let contract_ok: bool = match &q.contract {
        None => true,
        Some(c) => crate::text::eq_str_lower(e.contract_address.as_str(), c.as_str()),
    };
    if !contract_ok {
        return false;
    }
    let type_ok: bool = match &q.event_type {
        None => true,
        Some(t) => crate::models::str_eq(e.event_type.as_str(), t.as_str()),
    };
    if !type_ok {
        return false;
    }
    let category_ok: bool = match q.event_types_for_category() {
        None => true,
        Some(ts) => {
            let ghost names = crate::models::category_event_types(
                crate::models::query_category(*q),
            )->Some_0;
            let mut found = false;
            let mut i: usize = 0;
            while i < ts.len()
                invariant
                    0 <= i <= ts@.len(),
                    names == ts@.map_values(|t: &'static str| t@),
                    found == exists|j: int|
                        0 <= j < i && names[j] == crate::models::event_type_name(e.event_type),
                decreases ts@.len() - i,
            {
                proof {
                    assert(names[i as int] == ts@[i as int]@);
                }
                if crate::models::str_eq(e.event_type.as_str(), ts[i]) {
                    found = true;
                }
                i += 1;
            }
            proof {
                if found {
                    assert(names.contains(crate::models::event_type_name(e.event_type)));
                } else {
                    assert(!names.contains(crate::models::event_type_name(e.event_type)));
                }
            }
            found
        },
    };
    if !category_ok {
        return false;
    }
    match &q.agent_id {
        None => true,
        Some(a) => crate::models::str_eq(agent_id_of(&e.event_data).as_str(), a.as_str()),
    }
}

/// Whether `a` comes strictly before `b` in result order: higher block
/// first, higher log index first within a block.
pub open spec fn key_before(a: Event, b: Event) -> bool {
    a.block_number > b.block_number || (a.block_number == b.block_number && a.log_index
        > b.log_index)
}

/// Inserts an event into a descending-ordered sequence, after every entry it
/// does not strictly precede (so equal keys keep their storage order).
pub open spec fn insert_desc(s: Seq<Event>, e: Event) -> Seq<Event>
    decreases s.len(),
{
    if s.len() == 0 {
        seq![e]
    } else if key_before(e, s[0]) {
        seq![e] + s
    } else {
        seq![s[0]] + insert_desc(s.drop_first(), e)
    }
}

/// The stable sort of events into result order.
pub open spec fn sort_desc(s: Seq<Event>) -> Seq<Event>
    decreases s.len(),
{
    if s.len() == 0 {
        Seq::<Event>::empty()
    } else {
        insert_desc(sort_desc(s.drop_last()), s.last())
    }
}

/// One page of a sequence: `offset` rows skipped, at most `limit` rows kept.
/// Meaningful for non-negative `offset` and `limit`.
pub open spec fn page_of(s: Seq<Event>, offset: Option<i64>, limit: Option<i64>) -> Seq<Event> {
    let skip = match offset {
        Some(o) => if o as int > s.len() {
            s.len() as int
        } else {
            o as int
        },
        None => 0,
    };
    let end = match limit {
        Some(l) => if skip + l > s.len() {
            s.len() as int
        } else {
            skip + l
        },
        None => s.len() as int,
    };
    s.subrange(skip, end)
}

/// The rows a query returns: the matching events in descending
/// `(block_number, log_index)` order, cut to the requested page.
pub open spec fn query_results(evs: Seq<Event>, q: EventQuery, now_s: i64) -> Seq<Event> {
    page_of(sort_desc(matching_events(evs, q, now_s)), q.offset, q.limit)
}

/// A storage failure.
#[derive(Clone, Copy, Debug, PartialEq, Eq, Structural)]
pub enum StorageError {
    /// A negative pagination bound was supplied.
    InvalidPagination,
}

/// Where the insertion point lies, `insert_desc` splits the sequence there.
proof fn lemma_insert_desc_at(s: Seq<Event>, e: Event, idx: int)
    requires
        0 <= idx <= s.len(),
        forall|j: int| 0 <= j < idx ==> !key_before(e, #[trigger] s[j]),
        idx < s.len() ==> key_before(e, s[idx]),
    ensures
        insert_desc(s, e) == s.subrange(0, idx) + seq![e] + s.subrange(idx, s.len() as int),
    decreases s.len(),
{
    if s.len() == 0 {
        assert(insert_desc(s, e) =~= s.subrange(0, idx) + seq![e] + s.subrange(
            idx,
            s.len() as int,
        ));
    } else if key_before(e, s[0]) {
        assert(idx == 0);
        assert(insert_desc(s, e) =~= s.subrange(0, 0) + seq![e] + s.subrange(0, s.len() as int));
    } else {
        assert(idx > 0);
        let t = s.drop_first();
        assert(forall|j: int| 0 <= j < idx - 1 ==> !key_before(e, #[trigger] t[j]));
        assert(idx - 1 < t.len() ==> key_before(e, t[idx - 1]));
        lemma_insert_desc_at(t, e, idx - 1);
        assert(insert_desc(s, e) =~= s.subrange(0, idx) + seq![e] + s.subrange(
            idx,
            s.len() as int,
        )) by {
            assert(t.subrange(0, idx - 1) =~= s.subrange(1, idx));
            assert(t.subrange(idx - 1, t.len() as int) =~= s.subrange(idx, s.len() as int));
        }
    }
}

/// A counter bumped by one, held at the top of its range.
pub open spec fn bump(x: u64) -> u64 {
    if x < u64::MAX {
        (x + 1) as u64
    } else {
        x
    }
}

/// The stored events after one store: unchanged when the event's key is
/// already present, else extended by the event.
pub open spec fn stored_events_after(evs: Seq<Event>, e: Event) -> Seq<Event> {
    if has_event_key(evs, event_key(e)) {
        evs
    } else {
        evs.push(e)
    }
}

/// Idempotence of storage: the second store of an event finds its key
/// present and changes nothing, so storing twice equals storing once; and
/// because the key is present, the second store reports no insert, which
/// by `store_event`'s contract leaves the row count and the chain's
/// `total_events_indexed` untouched.
pub proof fn lemma_store_idempotent(evs: Seq<Event>, e: Event)
    ensures
        stored_events_after(stored_events_after(evs, e), e) == stored_events_after(evs, e),
        has_event_key(stored_events_after(evs, e), event_key(e)),
{
    if !has_event_key(evs, event_key(e)) {
        let evs2 = evs.push(e);
        assert(event_key(evs2[evs.len() as int]) == event_key(e));
        assert(has_event_key(evs2, event_key(e)));
    }
}

/// Membership distributes over concatenation.
proof fn lemma_concat_contains(a: Seq<Event>, b: Seq<Event>, x: Event)
    ensures
        (a + b).contains(x) <==> a.contains(x) || b.contains(x),
{
    if (a + b).contains(x) {
        let i = choose|i: int| 0 <= i < (a + b).len() && (a + b)[i] == x;
        if i < a.len() {
            assert(a[i] == x);
        } else {
            assert(b[i - a.len()] == x);
        }
    }
    if a.contains(x) {
        let i = choose|i: int| 0 <= i < a.len() && a[i] == x;
        assert((a + b)[i] == x);
    }
    if b.contains(x) {
        let i = choose|i: int| 0 <= i < b.len() && b[i] == x;
        assert((a + b)[a.len() + i] == x);
    }
}

/// Insertion adds exactly the inserted element to the membership.
proof fn lemma_insert_desc_contains(s: Seq<Event>, e: Event, x: Event)
    ensures
        insert_desc(s, e).contains(x) <==> s.contains(x) || x == e,
    decreases s.len(),
{
    if s.len() == 0 {
        assert(insert_desc(s, e) =~= seq![e]);
        if x == e {
            assert(insert_desc(s, e)[0] == x);
        }
    } else if key_before(e, s[0]) {
        lemma_concat_contains(seq![e], s, x);
        if x == e {
            assert(seq![e][0] == x);
        }
        assert(insert_desc(s, e) == seq![e] + s);
    } else {
        let t = s.drop_first();
        lemma_insert_desc_contains(t, e, x);
        lemma_concat_contains(seq![s[0]], insert_desc(t, e), x);
        assert(insert_desc(s, e) == seq![s[0]] + insert_desc(t, e));
        assert(s.contains(x) <==> seq![s[0]].contains(x) || t.contains(x)) by {
            if s.contains(x) {
                let i = choose|i: int| 0 <= i < s.len() && s[i] == x;
                if i == 0 {
                    assert(seq![s[0]][0] == x);
                } else {
                    assert(t[i - 1] == x);
                }
            }
            if seq![s[0]].contains(x) {
                assert(s[0] == x);
            }
            if t.contains(x) {
                let i = choose|i: int| 0 <= i < t.len() && t[i] == x;
                assert(s[i + 1] == x);
            }
        }
    }
}

/// Sorting keeps exactly the same members.
pub proof fn lemma_sort_contains(s: Seq<Event>, x: Event)
    ensures
        sort_desc(s).contains(x) <==> s.contains(x),
    decreases s.len(),
{
    if s.len() > 0 {
        let t = s.drop_last();
        lemma_sort_contains(t, x);
        lemma_insert_desc_contains(sort_desc(t), s.last(), x);
        assert(s.contains(x) <==> t.contains(x) || x == s.last()) by {
            if s.contains(x) {
                let i = choose|i: int| 0 <= i < s.len() && s[i] == x;
                if i < s.len() - 1 {
                    assert(t[i] == x);
                }
            }
            if t.contains(x) {
                let i = choose|i: int| 0 <= i < t.len() && t[i] == x;
                assert(s[i] == x);
            }
            if x == s.last() {
                assert(s[s.len() - 1] == x);
            }
        }
    }
}

/// A filtered sequence only holds members of the original.
proof fn lemma_filter_subset(s: Seq<Event>, pred: spec_fn(Event) -> bool, x: Event)
    requires
        s.filter(pred).contains(x),
    ensures
        s.contains(x),
    decreases s.len(),
{
    reveal(Seq::filter);
    if s.len() > 0 {
        let t = s.drop_last();
        if pred(s.last()) {
            assert(s.filter(pred) == t.filter(pred).push(s.last()));
            let i = choose|i: int| 0 <= i < s.filter(pred).len() && s.filter(pred)[i] == x;
            if i < s.filter(pred).len() - 1 {
                assert(t.filter(pred)[i] == x);
                lemma_filter_subset(t, pred, x);
                let j = choose|j: int| 0 <= j < t.len() && t[j] == x;
                assert(s[j] == x);
            } else {
                assert(s[s.len() - 1] == x);
            }
        } else {
            lemma_filter_subset(t, pred, x);
            let j = choose|j: int| 0 <= j < t.len() && t[j] == x;
            assert(s[j] == x);
        }
    }
}

/// Round trip through the store: every event a query returns is one of
/// the stored events, field for field — persisting and querying gives the
/// stored record back unchanged.
pub proof fn lemma_query_returns_stored(evs: Seq<Event>, q: EventQuery, now_s: i64, i: int)
    requires
        q.offset is Some ==> q.offset->Some_0 >= 0,
        q.limit is Some ==> q.limit->Some_0 >= 0,
        0 <= i < query_results(evs, q, now_s).len(),
    ensures
        evs.contains(query_results(evs, q, now_s)[i]),
{
    let f = matching_events(evs, q, now_s);
    let srt = sort_desc(f);
    let res = query_results(evs, q, now_s);
    let x = res[i];
    assert(srt.contains(x)) by {
        let skip = match q.offset {
            Some(o) => if o as int > srt.len() {
                srt.len() as int
            } else {
                o as int
            },
            None => 0,
        };
        let end = match q.limit {
            Some(l) => if skip + l > srt.len() {
                srt.len() as int
            } else {
                skip + l
            },
            None => srt.len() as int,
        };
        assert(res == srt.subrange(skip, end));
        assert(res[i] == srt[skip + i]);
        assert(exists|k: int| 0 <= k < srt.len() && srt[k] == x);
    }
    lemma_sort_contains(f, x);
    lemma_filter_subset(evs, |e: Event| event_matches(e, q, max_block(evs), now_s), x);
}

/// The predicate holds of every queried row.
proof fn lemma_query_row_matches(evs: Seq<Event>, q: EventQuery, now_s: i64, i: int)
    requires
        q.offset is Some ==> q.offset->Some_0 >= 0,
        q.limit is Some ==> q.limit->Some_0 >= 0,
        0 <= i < query_results(evs, q, now_s).len(),
    ensures
        event_matches(query_results(evs, q, now_s)[i], q, max_block(evs), now_s),
{
    let pred = |e: Event| event_matches(e, q, max_block(evs), now_s);
    let f = matching_events(evs, q, now_s);
    let srt = sort_desc(f);
    let res = query_results(evs, q, now_s);
    let x = res[i];
    assert(srt.contains(x)) by {
        let skip = match q.offset {
            Some(o) => if o as int > srt.len() {
                srt.len() as int
            } else {
                o as int
            },
            None => 0,
        };
        let end = match q.limit {
            Some(l) => if skip + l > srt.len() {
                srt.len() as int
            } else {
                skip + l
            },
            None => srt.len() as int,
        };
        assert(res == srt.subrange(skip, end));
        assert(res[i] == srt[skip + i]);
        assert(exists|k: int| 0 <= k < srt.len() && srt[k] == x);
    }
    lemma_sort_contains(f, x);
    let j = choose|j: int| 0 <= j < f.len() && f[j] == x;
    evs.lemma_filter_pred(pred, j);
    assert(evs.filter(pred)[j] == x);
}

/// Chain isolation: a query that names a single chain returns only that
/// chain's events, whatever keys collide across chains.
pub proof fn lemma_chain_isolation(evs: Seq<Event>, q: EventQuery, now_s: i64, b: u64, i: int)
    requires
        q.offset is Some ==> q.offset->Some_0 >= 0,
        q.limit is Some ==> q.limit->Some_0 >= 0,
        q.chain_id is Some,
        crate::text::chain_ids_of_chars(q.chain_id->Some_0@) == seq![b],
        0 <= i < query_results(evs, q, now_s).len(),
    ensures
        query_results(evs, q, now_s)[i].chain_id == b,
{
    lemma_query_row_matches(evs, q, now_s, i);
    let x = query_results(evs, q, now_s)[i];
    let ids = crate::text::chain_ids_of_chars(q.chain_id->Some_0@);
    assert(ids.contains(x.chain_id));
    let k = choose|k: int| 0 <= k < ids.len() && ids[k] == x.chain_id;
    assert(ids[0] == b);
}

/// Category restriction: with a category filter, every returned row's
/// event type lies in the category's expansion.
pub proof fn lemma_category_restricts(evs: Seq<Event>, q: EventQuery, now_s: i64, i: int)
    requires
        q.offset is Some ==> q.offset->Some_0 >= 0,
        q.limit is Some ==> q.limit->Some_0 >= 0,
        crate::models::category_event_types(crate::models::query_category(q)) is Some,
        0 <= i < query_results(evs, q, now_s).len(),
    ensures
        crate::models::category_event_types(crate::models::query_category(q))->Some_0.contains(
            crate::models::event_type_name(query_results(evs, q, now_s)[i].event_type),
        ),
{
    lemma_query_row_matches(evs, q, now_s, i);
}

/// A category with an empty expansion returns no rows at all.
pub proof fn lemma_empty_category(evs: Seq<Event>, q: EventQuery, now_s: i64)
    requires
        q.offset is Some ==> q.offset->Some_0 >= 0,
        q.limit is Some ==> q.limit->Some_0 >= 0,
        crate::models::category_event_types(crate::models::query_category(q)) == Some(
            Seq::<Seq<char>>::empty(),
        ),
    ensures
        query_results(evs, q, now_s).len() == 0,
{
    let pred = |e: Event| event_matches(e, q, max_block(evs), now_s);
    let f = matching_events(evs, q, now_s);
    if f.len() > 0 {
        evs.lemma_filter_pred(pred, 0);
        assert(evs.filter(pred)[0] == f[0]);
        assert(false);
    }
    assert(sort_desc(f).len() == 0);
}

/// Eviction removes the oldest entry: in a cache of distinct keys whose
/// entry at `m` is strictly the oldest, inserting a fresh key leaves
/// `m`'s key absent.
pub proof fn lemma_lru_evicts_oldest(c: Seq<CachedEvent>, m: int, e: CachedEvent)
    requires
        0 <= m < c.len(),
        forall|i: int| 0 <= i < c.len() && i != m ==> c[m].inserted_at < (#[trigger] c[i]).inserted_at,
        forall|i: int, j: int|
            0 <= i < j < c.len() ==> cache_entry_key(c[i]) != cache_entry_key(c[j]),
        cache_entry_key(e) != cache_entry_key(c[m]),
    ensures
        !cache_has_key(
            c.remove(oldest_index(c)).push(e),
            cache_entry_key(c[m]),
        ),
{
    lemma_oldest_index(c);
    let o = oldest_index(c);
    if o != m {
        assert(c[o].inserted_at <= c[m].inserted_at);
        assert(c[m].inserted_at < c[o].inserted_at);
    }
    assert(o == m);
    let after = c.remove(m).push(e);
    assert forall|i: int|
        0 <= i < after.len() implies cache_entry_key(#[trigger] after[i]) != cache_entry_key(
        c[m],
    ) by {
        if i < after.len() - 1 {
            let pi = if i < m {
                i
            } else {
                i + 1
            };
            assert(after[i] == c[pi]);
            assert(cache_entry_key(c[pi]) != cache_entry_key(c[m]));
        } else {
            assert(after[i] == e);
        }
    }
}

/// The textual cache key of an event's identity, as the operational logs
/// show it: `chain_id:transaction_hash:log_index`.
pub fn cache_key(chain_id: u64, transaction_hash: &str, log_index: u32) -> (r: String)
    ensures
        r@ == dec_chars(chain_id as nat) + ":"@ + transaction_hash@ + ":"@ + dec_chars(
            log_index as nat,
        ),
{
    let mut s = u64_to_dec_string(chain_id);
    s.append(":");
    s.append(transaction_hash);
    s.append(":");
    let tail = u64_to_dec_string(log_index as u64);
    s.append(tail.as_str());
    s
}

} // verus!
