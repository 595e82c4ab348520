//! The RPC provider manager: weighted rotation, per-minute rate limits,
//! and cooldown-based failover across a chain's endpoints. Time enters as an
//! explicit millisecond instant, so every transition is a function of the
//! state and the clock value the caller read.

use vstd::prelude::*;

verus! {

use crate::config::RpcProvider;

/// One endpoint's live state beside its static settings.
#[derive(Debug)]
pub struct ProviderState {
    pub provider: RpcProvider,
    /// Requests served in the current rotation cycle.
    pub request_count: u32,
    /// Requests served in the current minute window.
    pub requests_this_minute: u32,
    /// When the current minute window opened, in milliseconds.
    pub minute_window_start: u64,
    /// When the last error happened, in milliseconds.
    pub last_error: Option<u64>,
    pub in_cooldown: bool,
    pub consecutive_errors: u32,
}

impl Clone for ProviderState {
    /// An identical copy.
    fn clone(&self) -> (res: Self)
        ensures
            res == *self,
    {
        ProviderState {
            provider: self.provider.clone(),
            request_count: self.request_count,
            requests_this_minute: self.requests_this_minute,
            minute_window_start: self.minute_window_start,
            last_error: self.last_error,
            in_cooldown: self.in_cooldown,
            consecutive_errors: self.consecutive_errors,
        }
    }
}

/// A fresh state: no requests served, no errors, window opened now.
pub open spec fn spec_fresh_state(p: RpcProvider, now_ms: u64) -> ProviderState {
    ProviderState {
        provider: p,
        request_count: 0u32,
        requests_this_minute: 0u32,
        minute_window_start: now_ms,
        last_error: None,
        in_cooldown: false,
        consecutive_errors: 0u32,
    }
}

/// Available: not cooling down, and under the per-minute allowance while
/// the current minute window is open.
pub open spec fn spec_available(p: ProviderState, now_ms: u64) -> bool {
    &&& !p.in_cooldown
    &&& (if (now_ms as int - p.minute_window_start as int) < 60000 {
        p.requests_this_minute < p.provider.max_requests_per_minute
    } else {
        true
    })
}

/// Due for rotation: the cycle's request count has reached the weight.
pub open spec fn spec_should_rotate(p: ProviderState) -> bool {
    p.request_count >= p.provider.weight
}

/// The state with its minute window rolled when a minute has passed.
pub open spec fn spec_roll_window(p: ProviderState, now_ms: u64) -> ProviderState {
    if now_ms as int - p.minute_window_start as int >= 60000 {
        ProviderState { minute_window_start: now_ms, requests_this_minute: 0u32, ..p }
    } else {
        p
    }
}

/// The state with an elapsed cooldown released.
pub open spec fn spec_release_cooldown(p: ProviderState, now_ms: u64) -> ProviderState {
    if p.in_cooldown && p.last_error is Some && now_ms as int - p.last_error->Some_0 as int
        >= p.provider.cooldown_on_error_ms as int {
        ProviderState { in_cooldown: false, consecutive_errors: 0u32, ..p }
    } else {
        p
    }
}

/// The refresh selection begins with: windows rolled, cooldowns released.
pub open spec fn spec_refresh(p: ProviderState, now_ms: u64) -> ProviderState {
    spec_release_cooldown(spec_roll_window(p, now_ms), now_ms)
}

/// The state after a successful request: both counters advance, the error
/// streak ends.
pub open spec fn spec_on_success(p: ProviderState) -> ProviderState {
    ProviderState {
        request_count: bump32(p.request_count),
        requests_this_minute: bump32(p.requests_this_minute),
        consecutive_errors: 0u32,
        ..p
    }
}

/// The state after a failed request: the error is stamped, the cooldown
/// begins, the cycle count resets.
pub open spec fn spec_on_error(p: ProviderState, now_ms: u64) -> ProviderState {
    ProviderState {
        last_error: Some(now_ms),
        consecutive_errors: bump32(p.consecutive_errors),
        in_cooldown: true,
        request_count: 0u32,
        ..p
    }
}

/// A counter bumped by one, held at the top of its range.
pub open spec fn bump32(x: u32) -> u32 {
    if x < u32::MAX {
        (x + 1) as u32
    } else {
        x
    }
}

impl ProviderState {
    /// A fresh state for an endpoint.
    pub fn new(provider: RpcProvider, now_ms: u64) -> (r: Self)
        ensures
            r == spec_fresh_state(provider, now_ms),
    {
        ProviderState {
            provider,
            request_count: 0,
            requests_this_minute: 0,
            minute_window_start: now_ms,
            last_error: None,
            in_cooldown: false,
            consecutive_errors: 0,
        }
    }

    /// Whether the endpoint may serve a request now.
    pub fn is_available(&self, now_ms: u64) -> (r: bool)
        ensures
            r == spec_available(*self, now_ms),
    {
        if self.in_cooldown {
            return false;
        }
        if (now_ms as i128 - self.minute_window_start as i128) < 60000 {
            self.requests_this_minute < self.provider.max_requests_per_minute
        } else {
            true
        }
    }

    /// Opens a new minute window when the current one has run out.
    pub fn update_minute_window(&mut self, now_ms: u64)
        ensures
            *final(self) == spec_roll_window(*old(self), now_ms),
    {
        if (now_ms as i128 - self.minute_window_start as i128) >= 60000 {
            self.minute_window_start = now_ms;
            self.requests_this_minute = 0;
        }
    }

    /// Whether the rotation quota is spent.
    pub fn should_rotate(&self) -> (r: bool)
        ensures
            r == spec_should_rotate(*self),
    {
        self.request_count >= self.provider.weight
    }

    /// Opens a new rotation cycle.
    pub fn reset_count(&mut self)
        ensures
            *final(self) == (ProviderState { request_count: 0u32, ..*old(self) }),
    {
        self.request_count = 0;
    }
}

/// The refreshed form of a state: window rolled, cooldown released.
pub fn refresh_state(p: &ProviderState, now_ms: u64) -> (r: ProviderState)
    ensures
        r == spec_refresh(*p, now_ms),
{
    let mut q = p.clone();
    q.update_minute_window(now_ms);
    if q.in_cooldown {
        if let Some(le) = q.last_error {
            if (now_ms as i128 - le as i128) >= q.provider.cooldown_on_error_ms as i128 {
                q.in_cooldown = false;
                q.consecutive_errors = 0;
            }
        }
    }
    q
}

/// What one run of the selection loop leaves behind: the provider states
/// (rotation resets cycle counts), the cursor, and the chosen position.
pub struct Selection {
    pub providers: Seq<ProviderState>,
    pub index: int,
    pub chosen: Option<int>,
}

/// The selection loop: starting at `idx`, a provider due for rotation (in a
/// pool of more than one) has its count reset and the cursor advances; an
/// available provider is chosen; an unavailable one is skipped, counting
/// one attempt. A full pass of failed attempts chooses none. `fuel` bounds
/// the walk; twice the pool size suffices for every pool whose weights are
/// positive, and a zero-weight pool runs out of fuel and chooses none.
pub open spec fn spec_select(
    ps: Seq<ProviderState>,
    idx: int,
    attempts: int,
    fuel: nat,
    now_ms: u64,
) -> Selection
    decreases fuel,
{
    if attempts >= ps.len() || fuel == 0 {
        Selection { providers: ps, index: idx, chosen: None }
    } else if spec_should_rotate(ps[idx]) && ps.len() > 1 {
        spec_select(
            ps.update(idx, ProviderState { request_count: 0u32, ..ps[idx] }),
            (idx + 1) % (ps.len() as int),
            attempts,
            (fuel - 1) as nat,
            now_ms,
        )
    } else if spec_available(ps[idx], now_ms) {
        Selection { providers: ps, index: idx, chosen: Some(idx) }
    } else {
        spec_select(ps, (idx + 1) % (ps.len() as int), attempts + 1, (fuel - 1) as nat, now_ms)
    }
}

/// The first available position after `start`, walking forward with
/// wrap-around and stopping short of coming back around.
pub open spec fn spec_find_available(
    ps: Seq<ProviderState>,
    start: int,
    cand: int,
    steps: nat,
    now_ms: u64,
) -> Option<int>
    decreases steps,
{
    if steps == 0 || cand == start {
        None
    } else if spec_available(ps[cand], now_ms) {
        Some(cand)
    } else {
        spec_find_available(ps, start, (cand + 1) % (ps.len() as int), (steps - 1) as nat, now_ms)
    }
}

/// Why the manager cannot hand out a provider.
#[derive(Clone, Copy, Debug, PartialEq, Eq, Structural)]
pub enum ProviderError {
    /// The pool would be empty.
    NoProvidersConfigured,
    /// Every provider is rate limited or cooling down.
    AllProvidersUnavailable,
}

/// Inserts a provider after every entry whose priority is not larger, so
/// equal priorities keep their configured order.
pub open spec fn insert_by_priority(s: Seq<RpcProvider>, p: RpcProvider) -> Seq<RpcProvider>
    decreases s.len(),
{
    if s.len() == 0 {
        seq![p]
    } else if p.priority < s[0].priority {
        seq![p] + s
    } else {
        seq![s[0]] + insert_by_priority(s.drop_first(), p)
    }
}

/// The stable sort of providers by ascending priority.
pub open spec fn sort_by_priority(s: Seq<RpcProvider>) -> Seq<RpcProvider>
    decreases s.len(),
{
    if s.len() == 0 {
        Seq::<RpcProvider>::empty()
    } else {
        insert_by_priority(sort_by_priority(s.drop_last()), s.last())
    }
}

/// Where the insertion point lies, `insert_by_priority` splits there.
proof fn lemma_insert_by_priority_at(s: Seq<RpcProvider>, p: RpcProvider, idx: int)
    requires
        0 <= idx <= s.len(),
        forall|j: int| 0 <= j < idx ==> !(p.priority < (#[trigger] s[j]).priority),
        idx < s.len() ==> p.priority < s[idx].priority,
    ensures
        insert_by_priority(s, p) == s.subrange(0, idx) + seq![p] + s.subrange(idx, s.len() as int),
    decreases s.len(),
{
    if s.len() == 0 {
        assert(insert_by_priority(s, p) =~= s.subrange(0, idx) + seq![p] + s.subrange(
            idx,
            s.len() as int,
        ));
    } else if p.priority < s[0].priority {
        assert(idx == 0);
        assert(insert_by_priority(s, p) =~= s.subrange(0, 0) + seq![p] + s.subrange(
            0,
            s.len() as int,
        ));
    } else {
        assert(idx > 0);
        let t = s.drop_first();
        assert(forall|j: int| 0 <= j < idx - 1 ==> !(p.priority < (#[trigger] t[j]).priority));
        assert(idx - 1 < t.len() ==> p.priority < t[idx - 1].priority);
        lemma_insert_by_priority_at(t, p, idx - 1);
        assert(insert_by_priority(s, p) =~= s.subrange(0, idx) + seq![p] + s.subrange(
            idx,
            s.len() as int,
        )) by {
            assert(t.subrange(0, idx - 1) =~= s.subrange(1, idx));
            assert(t.subrange(idx - 1, t.len() as int) =~= s.subrange(idx, s.len() as int));
        }
    }
}

/// The provider pool of one chain, with its rotation cursor.
#[derive(Debug)]
pub struct ProviderManager {
    providers: Vec<ProviderState>,
    current_index: usize,
    chain_name: String,
}

impl ProviderManager {
    /// The pool's states.
    pub closed spec fn providers_view(self) -> Seq<ProviderState> {
        self.providers@
    }

    /// The rotation cursor.
    pub closed spec fn index_view(self) -> int {
        self.current_index as int
    }

    /// The chain this pool serves.
    pub closed spec fn name_view(self) -> Seq<char> {
        self.chain_name@
    }

    /// Well-formedness: a non-empty pool and a cursor inside it.
    pub open spec fn wf(self) -> bool {
        &&& self.providers_view().len() > 0
        &&& 0 <= self.index_view() < self.providers_view().len()
    }

    /// Builds the pool: the providers sorted by ascending priority (equal
    /// priorities keep their order), each in a fresh state, the cursor on
    /// the first. An empty list is refused.
    pub fn new(providers: Vec<RpcProvider>, chain_name: String, now_ms: u64) -> (r: Result<
        Self,
        ProviderError,
    >)
        ensures
            r is Err <==> providers@.len() == 0,
            r is Err ==> r->Err_0 == ProviderError::NoProvidersConfigured,
            r is Ok ==> {
                let m = r->Ok_0;
                &&& m.wf()
                &&& m.index_view() == 0
                &&& m.name_view() == chain_name@
                &&& m.providers_view() == sort_by_priority(providers@).map_values(
                    |p: RpcProvider| spec_fresh_state(p, now_ms),
                )
            },
    {
        if providers.len() == 0 {
            return Err(ProviderError::NoProvidersConfigured);
        }
        let mut sorted: Vec<RpcProvider> = Vec::new();
        let mut i: usize = 0;
        proof {
            assert(providers@.subrange(0, 0) =~= Seq::<RpcProvider>::empty());
        }
        while i < providers.len()
            invariant
                0 <= i <= providers@.len(),
                sorted@ == sort_by_priority(providers@.subrange(0, i as int)),
                sorted@.len() == i,
            decreases providers@.len() - i,
        {
            let p = &providers[i];
            let mut idx: usize = 0;
            while idx < sorted.len() && !(p.priority < sorted[idx].priority)
                invariant
                    0 <= idx <= sorted@.len(),
                    i < providers@.len(),
                    *p == providers@[i as int],
                    forall|j: int|
                        0 <= j < idx ==> !(providers@[i as int].priority
                            < (#[trigger] sorted@[j]).priority),
                decreases sorted@.len() - idx,
            {
                idx += 1;
            }
            proof {
                lemma_insert_by_priority_at(sorted@, providers@[i as int], idx as int);
                let pre = providers@.subrange(0, i as int);
                let post = providers@.subrange(0, i as int + 1);
                assert(post.drop_last() =~= pre);
                assert(post.last() == providers@[i as int]);
                assert(sorted@.insert(idx as int, providers@[i as int]) =~= sorted@.subrange(
                    0,
                    idx as int,
                ) + seq![providers@[i as int]] + sorted@.subrange(idx as int, sorted@.len() as int));
            }
            let c = p.clone();
            sorted.insert(idx, c);
            i += 1;
        }
        proof {
            assert(providers@.subrange(0, providers@.len() as int) =~= providers@);
        }
        let mut states: Vec<ProviderState> = Vec::new();
        let mut i: usize = 0;
        while i < sorted.len()
            invariant
                0 <= i <= sorted@.len(),
                sorted@ == sort_by_priority(providers@),
                sorted@.len() == providers@.len(),
                states@ =~= sorted@.subrange(0, i as int).map_values(
                    |p: RpcProvider| spec_fresh_state(p, now_ms),
                ),
            decreases sorted@.len() - i,
        {
            proof {
                assert(sorted@.subrange(0, i as int + 1) =~= sorted@.subrange(0, i as int).push(
                    sorted@[i as int],
                ));
                assert(sorted@.subrange(0, i as int + 1).map_values(
                    |p: RpcProvider| spec_fresh_state(p, now_ms),
                ) =~= sorted@.subrange(0, i as int).map_values(
                    |p: RpcProvider| spec_fresh_state(p, now_ms),
                ).push(spec_fresh_state(sorted@[i as int], now_ms)));
            }
            let p = sorted[i].clone();
            states.push(
                ProviderState {
                    provider: p,
                    request_count: 0,
                    requests_this_minute: 0,
                    minute_window_start: now_ms,
                    last_error: None,
                    in_cooldown: false,
                    consecutive_errors: 0,
                },
            );
            i += 1;
        }
        proof {
            assert(sorted@.subrange(0, sorted@.len() as int) =~= sorted@);
            assert(states@ =~= sort_by_priority(providers@).map_values(
                |p: RpcProvider| spec_fresh_state(p, now_ms),
            ));
        }
        Ok(ProviderManager { providers: states, current_index: 0, chain_name })
    }

    /// The provider states after the refresh selection begins with.
    pub open spec fn refreshed(self, now_ms: u64) -> Seq<ProviderState> {
        self.providers_view().map_values(|p: ProviderState| spec_refresh(p, now_ms))
    }

    /// Picks the provider to call next: every window is rolled and every
    /// elapsed cooldown released, then the selection loop runs from the
    /// current cursor. Fails exactly when it chooses no position.
    pub fn get_current_provider(&mut self, now_ms: u64) -> (r: Result<String, ProviderError>)
        requires
            old(self).wf(),
        ensures
            final(self).wf(),
            final(self).name_view() == old(self).name_view(),
            ({
                let sel = spec_select(
                    old(self).refreshed(now_ms),
                    old(self).index_view(),
                    0,
                    select_fuel(old(self).providers_view().len()),
                    now_ms,
                );
                &&& final(self).providers_view() == sel.providers
                &&& final(self).index_view() == sel.index
                &&& (r is Ok <==> sel.chosen is Some)
                &&& (r is Ok ==> r->Ok_0@ == sel.providers[sel.index].provider.url@)
                &&& (r is Err ==> r->Err_0 == ProviderError::AllProvidersUnavailable)
            }),
    {
        let len = self.providers.len();
        let ghost pre = self.providers@;
        let mut i: usize = 0;
        while i < len
            invariant
                0 <= i <= len,
                len == self.providers@.len(),
                pre.len() == len,
                self.current_index == old(self).current_index,
                self.chain_name@ == old(self).chain_name@,
                forall|j: int|
                    0 <= j < i ==> #[trigger] self.providers@[j] == spec_refresh(pre[j], now_ms),
                forall|j: int| i <= j < len ==> #[trigger] self.providers@[j] == pre[j],
            decreases len - i,
        {
            let refreshed = refresh_state(&self.providers[i], now_ms);
            self.providers.set(i, refreshed);
            i += 1;
        }
        proof {
            assert(self.providers@ =~= old(self).refreshed(now_ms));
        }
        let ghost ps1 = self.providers@;
        let ghost fuel0 = select_fuel(ps1.len());
        let mut idx: usize = self.current_index;
        let mut attempts: usize = 0;
        let mut fuel: usize = if len <= usize::MAX / 2 {
            2 * len
        } else {
            usize::MAX
        };
        let mut chosen: bool = false;
        loop
            invariant_except_break
                len == self.providers@.len(),
                len > 0,
                0 <= idx < len,
                0 <= attempts,
                !chosen,
                self.current_index == old(self).current_index,
                self.chain_name@ == old(self).chain_name@,
                spec_select(ps1, old(self).index_view(), 0, fuel0, now_ms) == spec_select(
                    self.providers@,
                    idx as int,
                    attempts as int,
                    fuel as nat,
                    now_ms,
                ),
            ensures
                ({
                    let sel = spec_select(ps1, old(self).index_view(), 0, fuel0, now_ms);
                    &&& self.providers@ == sel.providers
                    &&& idx as int == sel.index
                    &&& (chosen <==> sel.chosen is Some)
                    &&& len == self.providers@.len()
                    &&& 0 <= idx < len
                    &&& self.chain_name@ == old(self).chain_name@
                }),
            decreases fuel,
        {
            if attempts >= len || fuel == 0 {
                proof {
                    assert(spec_select(self.providers@, idx as int, attempts as int, fuel as nat, now_ms)
                        == Selection { providers: self.providers@, index: idx as int, chosen: None });
                }
                break ;
            }
            let cur_rotate = self.providers[idx].should_rotate();
            if cur_rotate && len > 1 {
                let mut reset = self.providers[idx].clone();
                reset.reset_count();
                proof {
                    assert(self.providers@.update(
                        idx as int,
                        ProviderState { request_count: 0u32, ..self.providers@[idx as int] },
                    ) == self.providers@.update(idx as int, reset));
                }
                self.providers.set(idx, reset);
                idx = (idx + 1) % len;
                fuel = fuel - 1;
            } else if self.providers[idx].is_available(now_ms) {
                proof {
                    assert(spec_select(self.providers@, idx as int, attempts as int, fuel as nat, now_ms)
                        == Selection {
                        providers: self.providers@,
                        index: idx as int,
                        chosen: Some(idx as int),
                    });
                }
                chosen = true;
                break ;
            } else {
                idx = (idx + 1) % len;
                attempts = attempts + 1;
                fuel = fuel - 1;
            }
        }
        self.current_index = idx;
        if chosen {
            Ok(self.providers[idx].provider.url.clone())
        } else {
            Err(ProviderError::AllProvidersUnavailable)
        }
    }

    /// Records a successful request on the current provider: both counters
    /// advance and the error streak ends.
    pub fn mark_success(&mut self)
        requires
            old(self).wf(),
        ensures
            final(self).wf(),
            final(self).name_view() == old(self).name_view(),
            final(self).index_view() == old(self).index_view(),
            final(self).providers_view() == old(self).providers_view().update(
                old(self).index_view(),
                spec_on_success(old(self).providers_view()[old(self).index_view()]),
            ),
    {
        let idx = self.current_index;
        let mut p = self.providers[idx].clone();
        let rc = p.request_count;
        p.request_count = if rc < u32::MAX {
            rc + 1
        } else {
            rc
        };
        let rm = p.requests_this_minute;
        p.requests_this_minute = if rm < u32::MAX {
            rm + 1
        } else {
            rm
        };
        p.consecutive_errors = 0;
        self.providers.set(idx, p);
    }

    /// Records a failed request on the current provider: the cooldown
    /// begins and the cursor moves to the first available successor, if the
    /// forward walk finds one before coming back around.
    pub fn mark_error(&mut self, now_ms: u64)
        requires
            old(self).wf(),
        ensures
            final(self).wf(),
            final(self).name_view() == old(self).name_view(),
            final(self).providers_view() == old(self).providers_view().update(
                old(self).index_view(),
                spec_on_error(old(self).providers_view()[old(self).index_view()], now_ms),
            ),
            final(self).index_view() == (match spec_find_available(
                final(self).providers_view(),
                old(self).index_view(),
                (old(self).index_view() + 1) % (old(self).providers_view().len() as int),
                old(self).providers_view().len() as nat,
                now_ms,
            ) {
                Some(i) => i,
                None => old(self).index_view(),
            }),
    {
        let len = self.providers.len();
        let start = self.current_index;
        let mut p = self.providers[start].clone();
        p.last_error = Some(now_ms);
        let ce = p.consecutive_errors;
        p.consecutive_errors = if ce < u32::MAX {
            ce + 1
        } else {
            ce
        };
        p.in_cooldown = true;
        p.request_count = 0;
        proof {
            assert(p == spec_on_error(old(self).providers_view()[old(self).index_view()], now_ms));
        }
        self.providers.set(start, p);
        let ghost ps1 = self.providers@;
        let mut cand: usize = (start + 1) % len;
        let mut steps: usize = len;
        let mut found: bool = false;
        loop
            invariant_except_break
                len == self.providers@.len(),
                len > 0,
                0 <= cand < len,
                start < len,
                !found,
                self.providers@ == ps1,
                self.current_index == start,
                self.chain_name@ == old(self).chain_name@,
                spec_find_available(ps1, start as int, (start as int + 1) % (len as int), len as nat, now_ms)
                    == spec_find_available(ps1, start as int, cand as int, steps as nat, now_ms),
            ensures
                ({
                    let sel = spec_find_available(
                        ps1,
                        start as int,
                        (start as int + 1) % (len as int),
                        len as nat,
                        now_ms,
                    );
                    &&& (found <==> sel is Some)
                    &&& (found ==> cand as int == sel->Some_0)
                    &&& self.providers@ == ps1
                    &&& self.current_index == start
                    &&& 0 <= cand < len
                    &&& self.chain_name@ == old(self).chain_name@
                }),
            decreases steps,
        {
            if steps == 0 || cand == start {
                proof {
                    assert(spec_find_available(ps1, start as int, cand as int, steps as nat, now_ms)
                        is None);
                }
                break ;
            }
            if self.providers[cand].is_available(now_ms) {
                proof {
                    assert(spec_find_available(ps1, start as int, cand as int, steps as nat, now_ms)
                        == Some(cand as int));
                }
                found = true;
                break ;
            }
            cand = (cand + 1) % len;
            steps = steps - 1;
        }
        if found {
            self.current_index = cand;
        }
    }

    /// A monitoring snapshot: elapsed cooldowns are released first, then
    /// the pool is counted.
    pub fn get_stats(&mut self, now_ms: u64) -> (r: ProviderStats)
        requires
            old(self).wf(),
        ensures
            final(self).wf(),
            final(self).name_view() == old(self).name_view(),
            final(self).index_view() == old(self).index_view(),
            final(self).providers_view() == old(self).providers_view().map_values(
                |p: ProviderState| spec_release_cooldown(p, now_ms),
            ),
            r.total_providers == final(self).providers_view().len(),
            r.available_providers == final(self).providers_view().filter(
                |p: ProviderState| spec_available(p, now_ms),
            ).len(),
            r.cooldown_providers == final(self).providers_view().filter(
                |p: ProviderState| p.in_cooldown,
            ).len(),
            r.current_provider_index == final(self).index_view(),
            r.current_provider_url@ == final(self).providers_view()[final(self).index_view()].provider.url@,
    {
        let len = self.providers.len();
        let ghost pre = self.providers@;
        let mut i: usize = 0;
        while i < len
            invariant
                0 <= i <= len,
                len == self.providers@.len(),
                pre.len() == len,
                self.current_index == old(self).current_index,
                self.current_index < len,
                self.chain_name@ == old(self).chain_name@,
                forall|j: int|
                    0 <= j < i ==> #[trigger] self.providers@[j] == spec_release_cooldown(
                        pre[j],
                        now_ms,
                    ),
                forall|j: int| i <= j < len ==> #[trigger] self.providers@[j] == pre[j],
            decreases len - i,
        {
            let mut q = self.providers[i].clone();
            if q.in_cooldown {
                if let Some(le) = q.last_error {
                    if (now_ms as i128 - le as i128) >= q.provider.cooldown_on_error_ms as i128 {
                        q.in_cooldown = false;
                        q.consecutive_errors = 0;
                    }
                }
            }
            proof {
                assert(q == spec_release_cooldown(pre[i as int], now_ms));
            }
            self.providers.set(i, q);
            i += 1;
        }
        proof {
            assert(self.providers@ =~= pre.map_values(
                |p: ProviderState| spec_release_cooldown(p, now_ms),
            ));
        }
        let ghost cur = self.providers@;
        let ghost p_av = |p: ProviderState| spec_available(p, now_ms);
        let ghost p_cd = |p: ProviderState| p.in_cooldown;
        let mut available: usize = 0;
        let mut in_cooldown: usize = 0;
        let mut i: usize = 0;
        proof {
            reveal(Seq::filter);
            assert(cur.subrange(0, 0) =~= Seq::<ProviderState>::empty());
        }
        while i < len
            invariant
                0 <= i <= len,
                len == self.providers@.len(),
                self.providers@ == cur,
                self.current_index == old(self).current_index,
                self.current_index < len,
                self.chain_name@ == old(self).chain_name@,
                p_av == (|p: ProviderState| spec_available(p, now_ms)),
                p_cd == (|p: ProviderState| p.in_cooldown),
                available == cur.subrange(0, i as int).filter(p_av).len(),
                in_cooldown == cur.subrange(0, i as int).filter(p_cd).len(),
                available <= i && in_cooldown <= i,
            decreases len - i,
        {
            proof {
                reveal(Seq::filter);
                let pr = cur.subrange(0, i as int);
                let po = cur.subrange(0, i as int + 1);
                assert(po.drop_last() =~= pr);
                assert(po.last() == cur[i as int]);
                pr.lemma_filter_len(p_av);
                pr.lemma_filter_len(p_cd);
            }
            if self.providers[i].is_available(now_ms) {
                available += 1;
            }
            if self.providers[i].in_cooldown {
                in_cooldown += 1;
            }
            i += 1;
        }
        proof {
            assert(cur.subrange(0, cur.len() as int) =~= cur);
        }
        ProviderStats {
            total_providers: len,
            available_providers: available,
            cooldown_providers: in_cooldown,
            current_provider_index: self.current_index,
            current_provider_url: self.providers[self.current_index].provider.url.clone(),
        }
    }
}

/// The walk bound of the selection loop: twice the pool size, clipped to
/// the machine word.
pub open spec fn select_fuel(len: nat) -> nat {
    if 2 * len > usize::MAX as nat {
        usize::MAX as nat
    } else {
        2 * len
    }
}

/// The state after `n` successful requests.
pub open spec fn after_successes(p: ProviderState, n: nat) -> ProviderState
    decreases n,
{
    if n == 0 {
        p
    } else {
        spec_on_success(after_successes(p, (n - 1) as nat))
    }
}

/// Successful requests count up both counters exactly, as long as neither
/// saturates, and touch nothing else.
pub proof fn lemma_successes_count(p: ProviderState, n: nat)
    requires
        p.request_count + n <= u32::MAX,
        p.requests_this_minute + n <= u32::MAX,
    ensures
        after_successes(p, n).request_count == p.request_count + n,
        after_successes(p, n).requests_this_minute == p.requests_this_minute + n,
        after_successes(p, n).provider == p.provider,
        after_successes(p, n).minute_window_start == p.minute_window_start,
        after_successes(p, n).last_error == p.last_error,
        after_successes(p, n).in_cooldown == p.in_cooldown,
    decreases n,
{
    if n > 0 {
        lemma_successes_count(p, (n - 1) as nat);
    }
}

/// Weighted rotation: in a pool of two whose first provider has spent its
/// rotation quota and whose second is available and under quota, selection
/// resets the first's count and chooses the second.
pub proof fn lemma_weighted_rotation(ps: Seq<ProviderState>, now_ms: u64)
    requires
        ps.len() == 2,
        spec_should_rotate(ps[0]),
        !spec_should_rotate(ps[1]),
        spec_available(ps[1], now_ms),
    ensures
        ({
            let sel = spec_select(ps, 0, 0, select_fuel(2), now_ms);
            &&& sel.chosen == Some(1int)
            &&& sel.index == 1
            &&& sel.providers[1] == ps[1]
        }),
{
    let ps2 = ps.update(0, ProviderState { request_count: 0u32, ..ps[0] });
    assert(select_fuel(2) == 4);
    assert(spec_select(ps, 0, 0, 4, now_ms) == spec_select(ps2, 1, 0, 3, now_ms));
    assert(ps2[1] == ps[1]);
    assert(spec_select(ps2, 1, 0, 3, now_ms) == Selection {
        providers: ps2,
        index: 1int,
        chosen: Some(1int),
    });
}

/// Provider rotation: a fresh pool of two providers hands the second's
/// URL out once the first has served exactly its weight in successes.
pub proof fn lemma_rotation_after_weight(p1: RpcProvider, p2: RpcProvider, now_ms: u64)
    requires
        p1.weight > 0,
        p2.weight > 0,
        p2.max_requests_per_minute > 0,
    ensures
        ({
            let s1 = after_successes(spec_fresh_state(p1, now_ms), p1.weight as nat);
            let ps = seq![s1, spec_fresh_state(p2, now_ms)];
            let sel = spec_select(
                ps.map_values(|p: ProviderState| spec_refresh(p, now_ms)),
                0,
                0,
                select_fuel(2),
                now_ms,
            );
            &&& sel.chosen == Some(1int)
            &&& sel.providers[sel.index].provider.url == p2.url
        }),
{
    let f1 = spec_fresh_state(p1, now_ms);
    let s1 = after_successes(f1, p1.weight as nat);
    lemma_successes_count(f1, p1.weight as nat);
    assert(spec_should_rotate(s1));
    let s2 = spec_fresh_state(p2, now_ms);
    assert(!spec_should_rotate(s2));
    assert(spec_available(s2, now_ms));
    let ps = seq![s1, s2];
    let psr = ps.map_values(|p: ProviderState| spec_refresh(p, now_ms));
    assert(spec_refresh(s1, now_ms) == s1);
    assert(spec_refresh(s2, now_ms) == s2);
    assert(psr =~= ps);
    lemma_weighted_rotation(ps, now_ms);
}

/// Provider failover: an error on the first of two providers moves the
/// cursor to the second when it is available, and the next selection
/// chooses it.
pub proof fn lemma_failover(ps: Seq<ProviderState>, now_ms: u64)
    requires
        ps.len() == 2,
        spec_available(ps[1], now_ms),
        !spec_should_rotate(ps[1]),
        ps[1].provider.max_requests_per_minute > 0,
    ensures
        ({
            let ps1 = ps.update(0, spec_on_error(ps[0], now_ms));
            &&& spec_find_available(ps1, 0, 1, 2, now_ms) == Some(1int)
            &&& ({
                let sel = spec_select(
                    ps1.map_values(|p: ProviderState| spec_refresh(p, now_ms)),
                    1,
                    0,
                    select_fuel(2),
                    now_ms,
                );
                &&& sel.chosen == Some(1int)
                &&& sel.index == 1
            })
        }),
{
    let ps1 = ps.update(0, spec_on_error(ps[0], now_ms));
    assert(ps1[1] == ps[1]);
    assert(spec_find_available(ps1, 0, 1, 2, now_ms) == Some(1int));
    let psr = ps1.map_values(|p: ProviderState| spec_refresh(p, now_ms));
    assert(psr[1] == spec_refresh(ps[1], now_ms));
    assert(spec_available(psr[1], now_ms)) by {
        let q = spec_roll_window(ps[1], now_ms);
        if now_ms as int - ps[1].minute_window_start as int >= 60000 {
            assert(q.requests_this_minute == 0);
        }
        assert(spec_release_cooldown(q, now_ms) == q);
    }
    assert(!spec_should_rotate(psr[1]));
    assert(select_fuel(2) == 4);
    assert(spec_select(psr, 1, 0, 4, now_ms) == Selection {
        providers: psr,
        index: 1int,
        chosen: Some(1int),
    });
}

/// Rate limiting: a pool of one unavailable provider yields no selection.
pub proof fn lemma_rate_limited(ps: Seq<ProviderState>, now_ms: u64)
    requires
        ps.len() == 1,
        !spec_available(ps[0], now_ms),
    ensures
        spec_select(ps, 0, 0, select_fuel(1), now_ms).chosen is None,
{
    assert(select_fuel(1) == 2);
    assert(spec_select(ps, 0, 0, 2, now_ms) == spec_select(ps, 0, 1, 1, now_ms));
    assert(spec_select(ps, 0, 1, 1, now_ms).chosen is None);
}

/// Rate limiting: after exactly its per-minute allowance in successes,
/// still inside the same minute window, the pool's only provider is
/// refused and selection fails.
pub proof fn lemma_rate_limit_after_quota(p: RpcProvider, now_ms: u64)
    ensures
        ({
            let s = after_successes(
                spec_fresh_state(p, now_ms),
                p.max_requests_per_minute as nat,
            );
            &&& !spec_available(s, now_ms)
            &&& spec_select(
                seq![spec_refresh(s, now_ms)],
                0,
                0,
                select_fuel(1),
                now_ms,
            ).chosen is None
        }),
{
    let f = spec_fresh_state(p, now_ms);
    let s = after_successes(f, p.max_requests_per_minute as nat);
    lemma_successes_count(f, p.max_requests_per_minute as nat);
    assert(s.requests_this_minute == p.max_requests_per_minute);
    assert(s.minute_window_start == now_ms);
    assert(!spec_available(s, now_ms));
    assert(spec_refresh(s, now_ms) == s);
    lemma_rate_limited(seq![s], now_ms);
    assert(seq![spec_refresh(s, now_ms)] =~= seq![s]);
}

/// A monitoring snapshot of one chain's provider pool.
#[derive(Debug)]
pub struct ProviderStats {
    pub total_providers: usize,
    pub available_providers: usize,
    pub cooldown_providers: usize,
    pub current_provider_index: usize,
    pub current_provider_url: String,
}

} // verus!
