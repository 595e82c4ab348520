//! Per-chain polling statistics: a sliding one-minute window of poll
//! instants and the last observed head block. Time enters as an explicit
//! millisecond instant.

use vstd::prelude::*;

verus! {

/// One chain's statistics.
#[derive(Debug)]
pub struct ChainStats {
    /// Poll instants of the last minute, milliseconds, oldest first.
    pub poll_timestamps: Vec<u64>,
    /// The last head block the indexer observed.
    pub current_block: Option<u64>,
}

/// The poll instants still inside the minute window that ends `now_ms`.
pub open spec fn recent_polls(ts: Seq<u64>, now_ms: u64) -> Seq<u64> {
    ts.filter(|t: u64| t as int >= now_ms as int - 60000)
}

impl ChainStats {
    /// Fresh statistics: no polls seen, no block observed.
    pub fn new() -> (r: Self)
        ensures
            r.poll_timestamps@ == Seq::<u64>::empty(),
            r.current_block is None,
    {
        ChainStats { poll_timestamps: Vec::new(), current_block: None }
    }

    /// Appends a poll instant and drops instants older than one minute.
    pub fn record_poll(&mut self, timestamp: u64)
        ensures
            final(self).current_block == old(self).current_block,
            final(self).poll_timestamps@ == recent_polls(
                old(self).poll_timestamps@,
                timestamp,
            ).push(timestamp),
    {
        let ghost pred = |t: u64| t as int >= timestamp as int - 60000;
        let mut kept: Vec<u64> = Vec::new();
        let mut i: usize = 0;
        proof {
            reveal(Seq::filter);
            assert(self.poll_timestamps@.subrange(0, 0) =~= Seq::<u64>::empty());
        }
        while i < self.poll_timestamps.len()
            invariant
                0 <= i <= self.poll_timestamps@.len(),
                pred == (|t: u64| t as int >= timestamp as int - 60000),
                kept@ == self.poll_timestamps@.subrange(0, i as int).filter(pred),
            decreases self.poll_timestamps@.len() - i,
        {
            proof {
                reveal(Seq::filter);
                let pre = self.poll_timestamps@.subrange(0, i as int);
                let post = self.poll_timestamps@.subrange(0, i as int + 1);
                assert(post.drop_last() =~= pre);
                assert(post.last() == self.poll_timestamps@[i as int]);
            }
            let t = self.poll_timestamps[i];
            if t as i128 >= timestamp as i128 - 60000 {
                kept.push(t);
            }
            i += 1;
        }
        proof {
            assert(self.poll_timestamps@.subrange(0, self.poll_timestamps@.len() as int)
                =~= self.poll_timestamps@);
        }
        kept.push(timestamp);
        self.poll_timestamps = kept;
    }

    /// Notes the head block.
    pub fn update_current_block(&mut self, block: u64)
        ensures
            final(self).current_block == Some(block),
            final(self).poll_timestamps@ == old(self).poll_timestamps@,
    {
        self.current_block = Some(block);
    }

    /// Polls seen within the minute ending now.
    pub fn get_polling_rate(&self, now_ms: u64) -> (r: usize)
        ensures
            r == recent_polls(self.poll_timestamps@, now_ms).len(),
    {
        let ghost pred = |t: u64| t as int >= now_ms as int - 60000;
        let mut count: usize = 0;
        let mut i: usize = 0;
        proof {
            reveal(Seq::filter);
            assert(self.poll_timestamps@.subrange(0, 0) =~= Seq::<u64>::empty());
        }
        while i < self.poll_timestamps.len()
            invariant
                0 <= i <= self.poll_timestamps@.len(),
                pred == (|t: u64| t as int >= now_ms as int - 60000),
                count == self.poll_timestamps@.subrange(0, i as int).filter(pred).len(),
                count <= i,
            decreases self.poll_timestamps@.len() - i,
        {
            proof {
                reveal(Seq::filter);
                let pre = self.poll_timestamps@.subrange(0, i as int);
                let post = self.poll_timestamps@.subrange(0, i as int + 1);
                assert(post.drop_last() =~= pre);
                assert(post.last() == self.poll_timestamps@[i as int]);
                pre.lemma_filter_len(pred);
            }
            if self.poll_timestamps[i] as i128 >= now_ms as i128 - 60000 {
                count += 1;
            }
            i += 1;
        }
        proof {
            assert(self.poll_timestamps@.subrange(0, self.poll_timestamps@.len() as int)
                =~= self.poll_timestamps@);
        }
        count
    }

    /// A snapshot for reporting.
    pub fn snapshot(&self, now_ms: u64) -> (r: ChainStatsSnapshot)
        ensures
            r.polling_rate == recent_polls(self.poll_timestamps@, now_ms).len(),
            r.current_block == self.current_block,
    {
        ChainStatsSnapshot {
            polling_rate: self.get_polling_rate(now_ms),
            current_block: self.current_block,
        }
    }
}

/// A point-in-time view of one chain's statistics.
#[derive(Clone, Copy, Debug)]
pub struct ChainStatsSnapshot {
    /// Polls seen in the last minute.
    pub polling_rate: usize,
    pub current_block: Option<u64>,
}

/// The statistics of every chain, keyed by chain id.
#[derive(Debug)]
pub struct StatsTracker {
    entries: Vec<(u64, ChainStats)>,
}

/// Whether the tracker holds an entry for the chain.
pub open spec fn has_stats_entry(es: Seq<(u64, ChainStats)>, chain_id: u64) -> bool {
    exists|i: int| 0 <= i < es.len() && es[i].0 == chain_id
}

impl StatsTracker {
    /// The tracked entries.
    pub closed spec fn entries_view(self) -> Seq<(u64, ChainStats)> {
        self.entries@
    }

    /// Well-formedness: one entry per chain.
    pub open spec fn wf(self) -> bool {
        forall|i: int, j: int|
            0 <= i < j < self.entries_view().len() ==> self.entries_view()[i].0
                != self.entries_view()[j].0
    }

    /// An empty tracker.
    pub fn new() -> (r: Self)
        ensures
            r.wf(),
            r.entries_view() == Seq::<(u64, ChainStats)>::empty(),
    {
        StatsTracker { entries: Vec::new() }
    }

    /// The position of a chain's entry, where one exists.
    fn pos(&self, chain_id: u64) -> (r: Option<usize>)
        ensures
            r is Some <==> has_stats_entry(self.entries_view(), chain_id),
            r is Some ==> 0 <= r->Some_0 < self.entries_view().len() && self.entries_view()[
                r->Some_0 as int
            ].0 == chain_id,
    {
        let mut i: usize = 0;
        while i < self.entries.len()
            invariant
                0 <= i <= self.entries@.len(),
                forall|j: int| 0 <= j < i ==> (#[trigger] self.entries@[j]).0 != chain_id,
            decreases self.entries@.len() - i,
        {
            if self.entries[i].0 == chain_id {
                return Some(i);
            }
            i += 1;
        }
        None
    }

    /// Records a poll instant for the chain, creating its entry on first
    /// sight.
    pub fn record_poll(&mut self, chain_id: u64, now_ms: u64)
        requires
            old(self).wf(),
        ensures
            final(self).wf(),
            // an existing entry gains the poll, the rest are kept
            has_stats_entry(old(self).entries_view(), chain_id) ==> final(self).entries_view().len() == old(self).entries_view().len() && (forall|i: int|
                0 <= i < old(self).entries_view().len() ==> {
                    let pre = old(self).entries_view()[i];
                    let post = #[trigger] final(self).entries_view()[i];
                    if pre.0 == chain_id {
                        post.0 == pre.0 && post.1.current_block == pre.1.current_block
                            && post.1.poll_timestamps@ == recent_polls(
                            pre.1.poll_timestamps@,
                            now_ms,
                        ).push(now_ms)
                    } else {
                        post == pre
                    }
                }),
            // a first poll appends a fresh entry holding only it
            !has_stats_entry(old(self).entries_view(), chain_id) ==> final(self).entries_view()
                == old(self).entries_view().push(final(self).entries_view().last()) && {
                let e = final(self).entries_view().last();
                &&& e.0 == chain_id
                &&& e.1.poll_timestamps@ =~= seq![now_ms]
                &&& e.1.current_block is None
            },
    {
        match self.pos(chain_id) {
            Some(i) => {
                let entry = &mut self.entries[i];
                entry.1.record_poll(now_ms);
                proof {
                    assert forall|j: int, k: int|
                        0 <= j < k < self.entries@.len() implies (#[trigger] self.entries@[j]).0
                        != (#[trigger] self.entries@[k]).0 by {
                        assert(self.entries@[j].0 == old(self).entries@[j].0);
                        assert(self.entries@[k].0 == old(self).entries@[k].0);
                    }
                }
            },
            None => {
                let mut stats = ChainStats::new();
                stats.record_poll(now_ms);
                proof {
                    reveal(Seq::filter);
                    assert(recent_polls(Seq::<u64>::empty(), now_ms) =~= Seq::<u64>::empty());
                    assert(stats.poll_timestamps@ =~= seq![now_ms]);
                }
                self.entries.push((chain_id, stats));
                proof {
                    let pre = old(self).entries@;
                    assert forall|j: int, k: int|
                        0 <= j < k < self.entries@.len() implies (#[trigger] self.entries@[j]).0
                        != (#[trigger] self.entries@[k]).0 by {
                        if k < pre.len() {
                            assert(self.entries@[j] == pre[j] && self.entries@[k] == pre[k]);
                        } else {
                            assert(self.entries@[j] == pre[j]);
                            assert(self.entries@[k].0 == chain_id);
                            assert(!has_stats_entry(pre, chain_id));
                        }
                    }
                }
            },
        }
    }

    /// Notes the chain's head block, creating its entry on first sight.
    pub fn update_current_block(&mut self, chain_id: u64, block: u64)
        requires
            old(self).wf(),
        ensures
            final(self).wf(),
            has_stats_entry(old(self).entries_view(), chain_id) ==> final(self).entries_view().len() == old(self).entries_view().len() && (forall|i: int|
                0 <= i < old(self).entries_view().len() ==> {
                    let pre = old(self).entries_view()[i];
                    let post = #[trigger] final(self).entries_view()[i];
                    if pre.0 == chain_id {
                        post.0 == pre.0 && post.1.current_block == Some(block)
                            && post.1.poll_timestamps@ == pre.1.poll_timestamps@
                    } else {
                        post == pre
                    }
                }),
            !has_stats_entry(old(self).entries_view(), chain_id) ==> final(self).entries_view()
                == old(self).entries_view().push(final(self).entries_view().last()) && {
                let e = final(self).entries_view().last();
                &&& e.0 == chain_id
                &&& e.1.poll_timestamps@ == Seq::<u64>::empty()
                &&& e.1.current_block == Some(block)
            },
    {
        match self.pos(chain_id) {
            Some(i) => {
                let entry = &mut self.entries[i];
                entry.1.update_current_block(block);
                proof {
                    assert forall|j: int, k: int|
                        0 <= j < k < self.entries@.len() implies (#[trigger] self.entries@[j]).0
                        != (#[trigger] self.entries@[k]).0 by {
                        assert(self.entries@[j].0 == old(self).entries@[j].0);
                        assert(self.entries@[k].0 == old(self).entries@[k].0);
                    }
                }
            },
            None => {
                let mut stats = ChainStats::new();
                stats.update_current_block(block);
                self.entries.push((chain_id, stats));
                proof {
                    let pre = old(self).entries@;
                    assert forall|j: int, k: int|
                        0 <= j < k < self.entries@.len() implies (#[trigger] self.entries@[j]).0
                        != (#[trigger] self.entries@[k]).0 by {
                        if k < pre.len() {
                            assert(self.entries@[j] == pre[j] && self.entries@[k] == pre[k]);
                        } else {
                            assert(self.entries@[j] == pre[j]);
                            assert(self.entries@[k].0 == chain_id);
                            assert(!has_stats_entry(pre, chain_id));
                        }
                    }
                }
            },
        }
    }

    /// Polls the chain saw within the minute ending now; zero for a chain
    /// never seen.
    pub fn get_polling_rate(&self, chain_id: u64, now_ms: u64) -> (r: usize)
        requires
            self.wf(),
        ensures
            !has_stats_entry(self.entries_view(), chain_id) ==> r == 0,
            forall|i: int|
                0 <= i < self.entries_view().len() && (#[trigger] self.entries_view()[i]).0
                    == chain_id ==> r == recent_polls(
                    self.entries_view()[i].1.poll_timestamps@,
                    now_ms,
                ).len(),
    {
        match self.pos(chain_id) {
            Some(i) => {
                proof {
                    assert forall|j: int|
                        0 <= j < self.entries_view().len() && (#[trigger] self.entries_view()[
                            j
                        ]).0 == chain_id implies self.entries_view()[j] == self.entries_view()[
                        i as int
                    ] by {
                        if j != i {
                            assert(self.entries@[j].0 != self.entries@[i as int].0);
                        }
                    }
                }
                self.entries[i].1.get_polling_rate(now_ms)
            },
            None => 0,
        }
    }

    /// The chain's last observed head block.
    pub fn get_current_block(&self, chain_id: u64) -> (r: Option<u64>)
        requires
            self.wf(),
        ensures
            !has_stats_entry(self.entries_view(), chain_id) ==> r is None,
            forall|i: int|
                0 <= i < self.entries_view().len() && (#[trigger] self.entries_view()[i]).0
                    == chain_id ==> r == self.entries_view()[i].1.current_block,
    {
        match self.pos(chain_id) {
            Some(i) => {
                proof {
                    assert forall|j: int|
                        0 <= j < self.entries_view().len() && (#[trigger] self.entries_view()[
                            j
                        ]).0 == chain_id implies self.entries_view()[j] == self.entries_view()[
                        i as int
                    ] by {
                        if j != i {
                            assert(self.entries@[j].0 != self.entries@[i as int].0);
                        }
                    }
                }
                self.entries[i].1.current_block
            },
            None => None,
        }
    }

    /// A snapshot of the chain's statistics, where the chain was seen.
    pub fn get_chain_stats(&self, chain_id: u64, now_ms: u64) -> (r: Option<ChainStatsSnapshot>)
        requires
            self.wf(),
        ensures
            r is Some <==> has_stats_entry(self.entries_view(), chain_id),
            forall|i: int|
                0 <= i < self.entries_view().len() && (#[trigger] self.entries_view()[i]).0
                    == chain_id ==> r is Some && r->Some_0.polling_rate == recent_polls(
                    self.entries_view()[i].1.poll_timestamps@,
                    now_ms,
                ).len() && r->Some_0.current_block == self.entries_view()[i].1.current_block,
    {
        match self.pos(chain_id) {
            Some(i) => {
                proof {
                    assert forall|j: int|
                        0 <= j < self.entries_view().len() && (#[trigger] self.entries_view()[
                            j
                        ]).0 == chain_id implies self.entries_view()[j] == self.entries_view()[
                        i as int
                    ] by {
                        if j != i {
                            assert(self.entries@[j].0 != self.entries@[i as int].0);
                        }
                    }
                }
                Some(self.entries[i].1.snapshot(now_ms))
            },
            None => None,
        }
    }
}

} // verus!
