//! Per-server statistics accumulated across sessions.
use vstd::prelude::*;
use crate::metrics::{saved, Metrics};
use crate::strmap::StrMap;

verus! {

#[verifier::external_type_specification]
#[verifier::external_body]
pub struct ExPathBuf(std::path::PathBuf);

/// Per-server persistent statistics accumulated across sessions.
#[derive(Clone, Copy, PartialEq, Eq, Structural, Debug)]
pub struct ServerStats {
    pub total_calls: usize,
    pub tokens_in: usize,
    pub tokens_out: usize,
    pub sessions: usize,
    pub cache_hits: usize,
    pub knowledge_hits: usize,
}

pub open spec fn zero_stats() -> ServerStats {
    ServerStats {
        total_calls: 0,
        tokens_in: 0,
        tokens_out: 0,
        sessions: 0,
        cache_hits: 0,
        knowledge_hits: 0,
    }
}

impl Default for ServerStats {
    fn default() -> (s: Self)
        ensures
            s == zero_stats(),
    {
        ServerStats {
            total_calls: 0,
            tokens_in: 0,
            tokens_out: 0,
            sessions: 0,
            cache_hits: 0,
            knowledge_hits: 0,
        }
    }
}

impl ServerStats {
    pub fn tokens_saved(&self) -> (n: usize)
        ensures
            n == saved(self.tokens_in as nat, self.tokens_out as nat),
    {
        self.tokens_in.saturating_sub(self.tokens_out)
    }
}

/// The statistics held for `server`, or all zeros when there are none.
pub open spec fn stats_or_zero(m: Map<Seq<char>, ServerStats>, server: Seq<char>) -> ServerStats {
    if m.contains_key(server) {
        m[server]
    } else {
        zero_stats()
    }
}

/// Adding these counts to `s` stays within `usize`.
pub open spec fn delta_fits(
    s: ServerStats,
    calls: nat,
    tokens_in: nat,
    tokens_out: nat,
    cache_hits: nat,
    knowledge_hits: nat,
) -> bool {
    &&& s.total_calls + calls <= usize::MAX
    &&& s.tokens_in + tokens_in <= usize::MAX
    &&& s.tokens_out + tokens_out <= usize::MAX
    &&& s.cache_hits + cache_hits <= usize::MAX
    &&& s.knowledge_hits + knowledge_hits <= usize::MAX
}

/// `s` with these counts added (sessions unchanged).
pub open spec fn add_delta(
    s: ServerStats,
    calls: nat,
    tokens_in: nat,
    tokens_out: nat,
    cache_hits: nat,
    knowledge_hits: nat,
) -> ServerStats {
    ServerStats {
        total_calls: (s.total_calls + calls) as usize,
        tokens_in: (s.tokens_in + tokens_in) as usize,
        tokens_out: (s.tokens_out + tokens_out) as usize,
        cache_hits: (s.cache_hits + cache_hits) as usize,
        knowledge_hits: (s.knowledge_hits + knowledge_hits) as usize,
        ..s
    }
}

/// `s` with one more session.
pub open spec fn add_session(s: ServerStats) -> ServerStats {
    ServerStats { sessions: (s.sessions + 1) as usize, ..s }
}

struct StatsData {
    servers: StrMap<ServerStats>,
}

/// Statistics of all servers, with the file they are kept in.
pub struct StatsStore {
    path: std::path::PathBuf,
    data: StatsData,
}

impl View for StatsStore {
    type V = Map<Seq<char>, ServerStats>;

    closed spec fn view(&self) -> Map<Seq<char>, ServerStats> {
        self.data.servers@
    }
}

impl StatsStore {
    /// The file the statistics are kept in.
    pub closed spec fn file(&self) -> std::path::PathBuf {
        self.path
    }

    /// A store for the file at `path` holding `servers`.
    pub fn from_parts(path: std::path::PathBuf, servers: StrMap<ServerStats>) -> (s: Self)
        ensures
            s@ == servers@,
            s.file() == path,
    {
        StatsStore { path, data: StatsData { servers } }
    }

    /// The file the statistics are kept in.
    pub fn path(&self) -> (p: &std::path::PathBuf)
        ensures
            *p == self.file(),
    {
        &self.path
    }

    /// Add session metrics to the named server's cumulative totals, counting
    /// one more session.
    pub fn record(&mut self, server: &str, metrics: &Metrics)
        requires
            delta_fits(
                stats_or_zero(old(self)@, server@),
                metrics@.tool_calls as nat,
                metrics@.tokens_in as nat,
                metrics@.tokens_out as nat,
                metrics@.cache_hits as nat,
                metrics@.knowledge_hits as nat,
            ),
            stats_or_zero(old(self)@, server@).sessions + 1 <= usize::MAX,
        ensures
            final(self).file() == old(self).file(),
            ({
                let s = stats_or_zero(old(self)@, server@);
                final(self)@ == old(self)@.insert(
                    server@,
                    ServerStats {
                        total_calls: (s.total_calls + metrics@.tool_calls) as usize,
                        tokens_in: (s.tokens_in + metrics@.tokens_in) as usize,
                        tokens_out: (s.tokens_out + metrics@.tokens_out) as usize,
                        cache_hits: (s.cache_hits + metrics@.cache_hits) as usize,
                        knowledge_hits: (s.knowledge_hits + metrics@.knowledge_hits) as usize,
                        sessions: (s.sessions + 1) as usize,
                    },
                )
            }),
    {
        let entry = match self.data.servers.get(server) {
            Some(s) => *s,
            None => ServerStats::default(),
        };
        let updated = ServerStats {
            total_calls: entry.total_calls + metrics.tool_calls(),
            tokens_in: entry.tokens_in + metrics.tokens_in(),
            tokens_out: entry.tokens_out + metrics.tokens_out(),
            cache_hits: entry.cache_hits + metrics.cache_hits(),
            knowledge_hits: entry.knowledge_hits + metrics.knowledge_hits(),
            sessions: entry.sessions + 1,
        };
        self.data.servers.insert(server.to_owned(), updated);
    }

    /// Increment the session counter for a server (once per process lifetime).
    pub fn increment_sessions(&mut self, server: &str)
        requires
            stats_or_zero(old(self)@, server@).sessions + 1 <= usize::MAX,
        ensures
            final(self).file() == old(self).file(),
            final(self)@ == old(self)@.insert(
                server@,
                add_session(stats_or_zero(old(self)@, server@)),
            ),
    {
        let entry = match self.data.servers.get(server) {
            Some(s) => *s,
            None => ServerStats::default(),
        };
        let updated = ServerStats { sessions: entry.sessions + 1, ..entry };
        self.data.servers.insert(server.to_owned(), updated);
    }

    /// Add a pre-computed delta (used for mid-session incremental saves).
    pub fn record_delta(
        &mut self,
        server: &str,
        calls: usize,
        tokens_in: usize,
        tokens_out: usize,
        cache_hits: usize,
        knowledge_hits: usize,
    )
        requires
            delta_fits(
                stats_or_zero(old(self)@, server@),
                calls as nat,
                tokens_in as nat,
                tokens_out as nat,
                cache_hits as nat,
                knowledge_hits as nat,
            ),
        ensures
            final(self).file() == old(self).file(),
            final(self)@ == old(self)@.insert(
                server@,
                add_delta(
                    stats_or_zero(old(self)@, server@),
                    calls as nat,
                    tokens_in as nat,
                    tokens_out as nat,
                    cache_hits as nat,
                    knowledge_hits as nat,
                ),
            ),
    {
        let entry = match self.data.servers.get(server) {
            Some(s) => *s,
            None => ServerStats::default(),
        };
        let updated = ServerStats {
            total_calls: entry.total_calls + calls,
            tokens_in: entry.tokens_in + tokens_in,
            tokens_out: entry.tokens_out + tokens_out,
            cache_hits: entry.cache_hits + cache_hits,
            knowledge_hits: entry.knowledge_hits + knowledge_hits,
            ..entry
        };
        self.data.servers.insert(server.to_owned(), updated);
    }

    /// Whether `record_delta` may add these counts to the server's totals:
    /// every sum fits in `usize`.
    pub fn fits_delta(
        &self,
        server: &str,
        calls: usize,
        tokens_in: usize,
        tokens_out: usize,
        cache_hits: usize,
        knowledge_hits: usize,
    ) -> (b: bool)
        ensures
            b == delta_fits(
                stats_or_zero(self@, server@),
                calls as nat,
                tokens_in as nat,
                tokens_out as nat,
                cache_hits as nat,
                knowledge_hits as nat,
            ),
    {
        let s = match self.data.servers.get(server) {
            Some(s) => *s,
            None => ServerStats::default(),
        };
        s.total_calls.checked_add(calls).is_some() && s.tokens_in.checked_add(tokens_in).is_some()
            && s.tokens_out.checked_add(tokens_out).is_some() && s.cache_hits.checked_add(cache_hits).is_some()
            && s.knowledge_hits.checked_add(knowledge_hits).is_some()
    }

    /// Whether `increment_sessions` may count one more session for the
    /// server: its session count is below `usize::MAX`.
    pub fn can_count_session(&self, server: &str) -> (b: bool)
        ensures
            b == (stats_or_zero(self@, server@).sessions + 1 <= usize::MAX),
    {
        match self.data.servers.get(server) {
            Some(s) => s.sessions < usize::MAX,
            None => true,
        }
    }

    /// Return all server stats.
    pub fn all(&self) -> (r: &StrMap<ServerStats>)
        ensures
            r@ == self@,
    {
        &self.data.servers
    }
}

/// Recording a whole session is the same as recording its counts as a delta
/// and then counting one more session.
pub proof fn law_record_is_delta_then_session(
    m: Map<Seq<char>, ServerStats>,
    server: Seq<char>,
    metrics: crate::metrics::MetricsView,
)
    requires
        delta_fits(
            stats_or_zero(m, server),
            metrics.tool_calls as nat,
            metrics.tokens_in as nat,
            metrics.tokens_out as nat,
            metrics.cache_hits as nat,
            metrics.knowledge_hits as nat,
        ),
        stats_or_zero(m, server).sessions + 1 <= usize::MAX,
    ensures
        ({
            let s = stats_or_zero(m, server);
            let after_delta = m.insert(
                server,
                add_delta(
                    s,
                    metrics.tool_calls as nat,
                    metrics.tokens_in as nat,
                    metrics.tokens_out as nat,
                    metrics.cache_hits as nat,
                    metrics.knowledge_hits as nat,
                ),
            );
            after_delta.insert(server, add_session(stats_or_zero(after_delta, server))) == m.insert(
                server,
                ServerStats {
                    total_calls: (s.total_calls + metrics.tool_calls) as usize,
                    tokens_in: (s.tokens_in + metrics.tokens_in) as usize,
                    tokens_out: (s.tokens_out + metrics.tokens_out) as usize,
                    cache_hits: (s.cache_hits + metrics.cache_hits) as usize,
                    knowledge_hits: (s.knowledge_hits + metrics.knowledge_hits) as usize,
                    sessions: (s.sessions + 1) as usize,
                },
            )
        }),
{
    let s = stats_or_zero(m, server);
    let after_delta = m.insert(
        server,
        add_delta(
            s,
            metrics.tool_calls as nat,
            metrics.tokens_in as nat,
            metrics.tokens_out as nat,
            metrics.cache_hits as nat,
            metrics.knowledge_hits as nat,
        ),
    );
    assert(after_delta.insert(server, add_session(stats_or_zero(after_delta, server))) =~= m.insert(
        server,
        ServerStats {
            total_calls: (s.total_calls + metrics.tool_calls) as usize,
            tokens_in: (s.tokens_in + metrics.tokens_in) as usize,
            tokens_out: (s.tokens_out + metrics.tokens_out) as usize,
            cache_hits: (s.cache_hits + metrics.cache_hits) as usize,
            knowledge_hits: (s.knowledge_hits + metrics.knowledge_hits) as usize,
            sessions: (s.sessions + 1) as usize,
        },
    ));
}

} // verus!
