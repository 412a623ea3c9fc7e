//! Incremental saving of session metrics: what has already been written to
//! the statistics file, and the delta still to write.
use vstd::prelude::*;
use crate::metrics::{Metrics, MetricsView};
use crate::stats_store::{add_delta, ServerStats};

verus! {

/// Counts to add to a server's statistics.
#[derive(Clone, Copy, PartialEq, Eq, Structural, Debug)]
pub struct StatsDelta {
    pub calls: usize,
    pub tokens_in: usize,
    pub tokens_out: usize,
    pub cache_hits: usize,
    pub knowledge_hits: usize,
}

/// What the session loop does after a response.
#[derive(Clone, Copy, PartialEq, Eq, Structural, Debug)]
pub enum SaveAction {
    /// Add this delta to the statistics file.
    Save(StatsDelta),
    /// Cache hits happened that no tool call counted.
    UncountedCacheHits,
    /// Nothing new to persist.
    Nothing,
    /// A counter is below its persisted value.
    Behind,
}

/// The session counters already persisted.
pub struct StatsCheckpoint {
    saved: MetricsView,
}

impl View for StatsCheckpoint {
    type V = MetricsView;

    closed spec fn view(&self) -> MetricsView {
        self.saved
    }
}

/// Every counter of `cur` is at least the persisted one (counters have not
/// wrapped since they were saved).
pub open spec fn not_behind(saved: MetricsView, cur: MetricsView) -> bool {
    &&& cur.tool_calls >= saved.tool_calls
    &&& cur.tokens_in >= saved.tokens_in
    &&& cur.tokens_out >= saved.tokens_out
    &&& cur.cache_hits >= saved.cache_hits
    &&& cur.knowledge_hits >= saved.knowledge_hits
}

/// What `cur` adds to `saved`.
pub open spec fn delta_between(saved: MetricsView, cur: MetricsView) -> StatsDelta {
    StatsDelta {
        calls: (cur.tool_calls - saved.tool_calls) as usize,
        tokens_in: (cur.tokens_in - saved.tokens_in) as usize,
        tokens_out: (cur.tokens_out - saved.tokens_out) as usize,
        cache_hits: (cur.cache_hits - saved.cache_hits) as usize,
        knowledge_hits: (cur.knowledge_hits - saved.knowledge_hits) as usize,
    }
}

impl StatsCheckpoint {
    /// Nothing persisted yet.
    pub fn new() -> (c: Self)
        ensures
            c@ == Metrics::new_view(),
    {
        StatsCheckpoint { saved: MetricsView { tool_calls: 0, tokens_in: 0, tokens_out: 0, cache_hits: 0, knowledge_hits: 0 } }
    }

    pub fn saved_calls(&self) -> (n: usize)
        ensures
            n == self@.tool_calls,
    {
        self.saved.tool_calls
    }

    pub fn saved_cache_hits(&self) -> (n: usize)
        ensures
            n == self@.cache_hits,
    {
        self.saved.cache_hits
    }

    /// The delta to persist: present when calls were made since the last
    /// save, and then what every counter grew by.
    pub fn pending(&self, metrics: &Metrics) -> (r: Option<StatsDelta>)
        requires
            metrics@.tool_calls >= self@.tool_calls,
            metrics@.tool_calls > self@.tool_calls ==> not_behind(self@, metrics@),
        ensures
            metrics@.tool_calls > self@.tool_calls ==> r == Some(delta_between(self@, metrics@)),
            metrics@.tool_calls == self@.tool_calls ==> r is None,
    {
        let cur_calls = metrics.tool_calls();
        if cur_calls > self.saved.tool_calls {
            Some(StatsDelta {
                calls: cur_calls - self.saved.tool_calls,
                tokens_in: metrics.tokens_in() - self.saved.tokens_in,
                tokens_out: metrics.tokens_out() - self.saved.tokens_out,
                cache_hits: metrics.cache_hits() - self.saved.cache_hits,
                knowledge_hits: metrics.knowledge_hits() - self.saved.knowledge_hits,
            })
        } else {
            None
        }
    }

    /// Whether `pending` may be asked of `metrics`: its calls are not behind
    /// the persisted ones, and when there are new calls no counter is.
    pub fn can_take(&self, metrics: &Metrics) -> (b: bool)
        ensures
            b == (metrics@.tool_calls >= self@.tool_calls && (metrics@.tool_calls > self@.tool_calls
                ==> not_behind(self@, metrics@))),
    {
        let cur = metrics.tool_calls();
        if cur < self.saved.tool_calls {
            false
        } else if cur == self.saved.tool_calls {
            true
        } else {
            metrics.tokens_in() >= self.saved.tokens_in && metrics.tokens_out() >= self.saved.tokens_out
                && metrics.cache_hits() >= self.saved.cache_hits && metrics.knowledge_hits()
                >= self.saved.knowledge_hits
        }
    }

    /// What to do after a response has been written: persist the new work
    /// when there were new calls; note cache hits that no call counted;
    /// otherwise nothing. `Behind` when a counter fell below what was saved.
    pub fn next_action(&self, metrics: &Metrics) -> (r: SaveAction)
        ensures
            match r {
                SaveAction::Save(d) => metrics@.tool_calls > self@.tool_calls && not_behind(self@, metrics@) && d
                    == delta_between(self@, metrics@),
                SaveAction::Behind => metrics@.tool_calls > self@.tool_calls && !not_behind(self@, metrics@),
                SaveAction::UncountedCacheHits => metrics@.tool_calls <= self@.tool_calls && metrics@.cache_hits
                    > self@.cache_hits,
                SaveAction::Nothing => metrics@.tool_calls <= self@.tool_calls && metrics@.cache_hits
                    <= self@.cache_hits,
            },
    {
        if metrics.tool_calls() > self.saved.tool_calls {
            if self.can_take(metrics) {
                match self.pending(metrics) {
                    Some(d) => SaveAction::Save(d),
                    None => SaveAction::Nothing,
                }
            } else {
                SaveAction::Behind
            }
        } else if metrics.cache_hits() > self.saved.cache_hits {
            SaveAction::UncountedCacheHits
        } else {
            SaveAction::Nothing
        }
    }

    /// Mark the current counters as persisted.
    pub fn commit(&mut self, metrics: &Metrics)
        ensures
            final(self)@ == metrics@,
    {
        self.saved = MetricsView {
            tool_calls: metrics.tool_calls(),
            tokens_in: metrics.tokens_in(),
            tokens_out: metrics.tokens_out(),
            cache_hits: metrics.cache_hits(),
            knowledge_hits: metrics.knowledge_hits(),
        };
    }
}

/// Persisting deltas keeps the statistics in step with the session: when
/// the stored statistics already hold the saved counters on top of `base`,
/// adding the pending delta makes them hold the current counters on top of
/// `base`; and right after a commit nothing is pending.
pub proof fn law_checkpoint_accounting(base: ServerStats, saved: MetricsView, cur: MetricsView)
    requires
        not_behind(saved, cur),
        base.total_calls + cur.tool_calls <= usize::MAX,
        base.tokens_in + cur.tokens_in <= usize::MAX,
        base.tokens_out + cur.tokens_out <= usize::MAX,
        base.cache_hits + cur.cache_hits <= usize::MAX,
        base.knowledge_hits + cur.knowledge_hits <= usize::MAX,
    ensures
        ({
            let stored = add_delta(
                base,
                saved.tool_calls as nat,
                saved.tokens_in as nat,
                saved.tokens_out as nat,
                saved.cache_hits as nat,
                saved.knowledge_hits as nat,
            );
            let d = delta_between(saved, cur);
            add_delta(
                stored,
                d.calls as nat,
                d.tokens_in as nat,
                d.tokens_out as nat,
                d.cache_hits as nat,
                d.knowledge_hits as nat,
            ) == add_delta(
                base,
                cur.tool_calls as nat,
                cur.tokens_in as nat,
                cur.tokens_out as nat,
                cur.cache_hits as nat,
                cur.knowledge_hits as nat,
            )
        }),
        delta_between(cur, cur) == (StatsDelta { calls: 0, tokens_in: 0, tokens_out: 0, cache_hits: 0, knowledge_hits: 0 }),
{
}

} // verus!
