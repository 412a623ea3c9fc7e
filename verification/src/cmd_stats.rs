//! Number and name formatting for the statistics report.
use vstd::prelude::*;
use crate::metrics::{format_number, saved, with_thousands};
use crate::stats_store::ServerStats;
use crate::strmap::StrMap;
use vstd::string::StringSliceAdditionalSpecFns;

verus! {

/// Format a number with thousands separators: `12345` → `"12,345"`.
pub fn fmt_num(n: usize) -> (s: String)
    ensures
        s@ == with_thousands(n as nat),
{
    format_number(n)
}

/// `s` when it fits in `max` bytes; otherwise its first `max - 1` bytes
/// followed by `…`.
pub fn truncate(s: &str, max: usize) -> (r: String)
    requires
        s.len() <= max || (max >= 1 && vstd::utf8::is_char_boundary(s.spec_bytes(), max - 1)),
    ensures
        s.len() <= max ==> r@ == s@,
        s.len() > max ==> r@.len() >= 1 && r@.last() == '…' && vstd::utf8::encode_utf8(r@.drop_last())
            == s.spec_bytes().take(max - 1),
{
    if s.len() <= max {
        s.to_owned()
    } else {
        let (head, _) = s.split_at(max - 1);
        let mut cs = crate::text::str_chars(head);
        cs.push('…');
        proof {
            assert(cs@.drop_last() =~= head@);
        }
        crate::text::string_from_chars(&cs)
    }
}


// ── Totals and ranking over all servers ─────────────────────────────────────

/// Each counter summed over a list of server statistics.
pub struct StatsSum {
    pub total_calls: nat,
    pub tokens_in: nat,
    pub tokens_out: nat,
    pub sessions: nat,
    pub cache_hits: nat,
    pub knowledge_hits: nat,
}

pub open spec fn stats_sum(s: Seq<ServerStats>) -> StatsSum
    decreases s.len(),
{
    if s.len() == 0 {
        StatsSum { total_calls: 0, tokens_in: 0, tokens_out: 0, sessions: 0, cache_hits: 0, knowledge_hits: 0 }
    } else {
        let t = stats_sum(s.drop_last());
        let x = s.last();
        StatsSum {
            total_calls: t.total_calls + x.total_calls as nat,
            tokens_in: t.tokens_in + x.tokens_in as nat,
            tokens_out: t.tokens_out + x.tokens_out as nat,
            sessions: t.sessions + x.sessions as nat,
            cache_hits: t.cache_hits + x.cache_hits as nat,
            knowledge_hits: t.knowledge_hits + x.knowledge_hits as nat,
        }
    }
}

/// Every sum fits in `usize`.
pub open spec fn sum_fits(t: StatsSum) -> bool {
    &&& t.total_calls <= usize::MAX
    &&& t.tokens_in <= usize::MAX
    &&& t.tokens_out <= usize::MAX
    &&& t.sessions <= usize::MAX
    &&& t.cache_hits <= usize::MAX
    &&& t.knowledge_hits <= usize::MAX
}

/// The statistics of each server, in the map's order.
pub open spec fn stats_values(e: Seq<(String, ServerStats)>) -> Seq<ServerStats> {
    e.map_values(|p: (String, ServerStats)| p.1)
}

/// A prefix never sums to more than the whole list.
proof fn lemma_sum_prefix(s: Seq<ServerStats>, i: int)
    requires
        0 <= i <= s.len(),
    ensures
        ({
            let p = stats_sum(s.take(i));
            let t = stats_sum(s);
            &&& p.total_calls <= t.total_calls
            &&& p.tokens_in <= t.tokens_in
            &&& p.tokens_out <= t.tokens_out
            &&& p.sessions <= t.sessions
            &&& p.cache_hits <= t.cache_hits
            &&& p.knowledge_hits <= t.knowledge_hits
        }),
    decreases s.len(),
{
    if i < s.len() {
        assert(s.drop_last().take(i) =~= s.take(i));
        lemma_sum_prefix(s.drop_last(), i);
    } else {
        assert(s.take(i) =~= s);
    }
}

/// The counters of all servers added up, or `None` when a sum does not fit
/// in `usize`.
pub fn stats_totals(all: &StrMap<ServerStats>) -> (r: Option<ServerStats>)
    ensures
        ({
            let t = stats_sum(stats_values(all.entry_seq()));
            match r {
                Some(x) => sum_fits(t) && x.total_calls == t.total_calls && x.tokens_in == t.tokens_in
                    && x.tokens_out == t.tokens_out && x.sessions == t.sessions && x.cache_hits
                    == t.cache_hits && x.knowledge_hits == t.knowledge_hits,
                None => !sum_fits(t),
            }
        }),
{
    let entries = all.entries();
    let ghost vals = stats_values(entries@);
    let mut acc = ServerStats { total_calls: 0, tokens_in: 0, tokens_out: 0, sessions: 0, cache_hits: 0, knowledge_hits: 0 };
    let mut i: usize = 0;
    while i < entries.len()
        invariant
            i <= entries.len(),
            entries@ == all.entry_seq(),
            vals == stats_values(entries@),
            ({
                let t = stats_sum(vals.take(i as int));
                &&& acc.total_calls == t.total_calls
                &&& acc.tokens_in == t.tokens_in
                &&& acc.tokens_out == t.tokens_out
                &&& acc.sessions == t.sessions
                &&& acc.cache_hits == t.cache_hits
                &&& acc.knowledge_hits == t.knowledge_hits
            }),
        decreases entries.len() - i,
    {
        let x = entries[i].1;
        proof {
            assert(vals.take(i + 1).drop_last() =~= vals.take(i as int));
            assert(vals.take(i + 1).last() == x);
            lemma_sum_prefix(vals, i + 1);
        }
        let total_calls = match acc.total_calls.checked_add(x.total_calls) {
            Some(v) => v,
            None => return None,
        };
        let tokens_in = match acc.tokens_in.checked_add(x.tokens_in) {
            Some(v) => v,
            None => return None,
        };
        let tokens_out = match acc.tokens_out.checked_add(x.tokens_out) {
            Some(v) => v,
            None => return None,
        };
        let sessions = match acc.sessions.checked_add(x.sessions) {
            Some(v) => v,
            None => return None,
        };
        let cache_hits = match acc.cache_hits.checked_add(x.cache_hits) {
            Some(v) => v,
            None => return None,
        };
        let knowledge_hits = match acc.knowledge_hits.checked_add(x.knowledge_hits) {
            Some(v) => v,
            None => return None,
        };
        acc = ServerStats { total_calls, tokens_in, tokens_out, sessions, cache_hits, knowledge_hits };
        i = i + 1;
    }
    assert(vals.take(entries.len() as int) =~= vals);
    Some(acc)
}

/// The tokens a server's statistics record as saved.
pub open spec fn saved_of(s: ServerStats) -> nat {
    saved(s.tokens_in as nat, s.tokens_out as nat)
}

/// Entry `a` is listed before entry `b`: it saved more tokens, or as many
/// and it comes first in the map.
pub open spec fn ranks_before(e: Seq<(String, ServerStats)>, a: int, b: int) -> bool {
    saved_of(e[a].1) > saved_of(e[b].1) || (saved_of(e[a].1) == saved_of(e[b].1) && a < b)
}

/// The positions of the map's entries, ordered by tokens saved, most first;
/// servers that saved as many keep the map's order.
pub fn rank_by_saved(all: &StrMap<ServerStats>) -> (r: Vec<usize>)
    ensures
        r@.len() == all.entry_seq().len(),
        forall|i: int| 0 <= i < r@.len() ==> r@[i] < all.entry_seq().len(),
        forall|i: int, j: int|
            0 <= i < j < r@.len() ==> ranks_before(all.entry_seq(), #[trigger] r@[i] as int, #[trigger] r@[j] as int),
        forall|i: int, j: int|
            0 <= i < j < r@.len() ==> #[trigger] r@[i] != #[trigger] r@[j],
        forall|i: int, j: int|
            0 <= i < j < r@.len() ==> saved(
                all.entry_seq()[#[trigger] r@[i] as int].1.tokens_in as nat,
                all.entry_seq()[r@[i] as int].1.tokens_out as nat,
            ) >= saved(
                all.entry_seq()[#[trigger] r@[j] as int].1.tokens_in as nat,
                all.entry_seq()[r@[j] as int].1.tokens_out as nat,
            ),
{
    let entries = all.entries();
    let ghost e = entries@;
    let mut order: Vec<usize> = Vec::new();
    let mut k: usize = 0;
    while k < entries.len()
        invariant
            k <= entries.len(),
            e == entries@,
            order@.len() == k,
            forall|i: int| 0 <= i < order@.len() ==> order@[i] < k,
            forall|i: int, j: int|
                0 <= i < j < order@.len() ==> ranks_before(e, #[trigger] order@[i] as int, #[trigger] order@[j] as int),
        decreases entries.len() - k,
    {
        let sk = entries[k].1.tokens_saved();
        let mut p: usize = 0;
        while p < order.len() && entries[order[p]].1.tokens_saved() >= sk
            invariant
                p <= order@.len(),
                k < entries.len(),
                e == entries@,
                sk == saved_of(e[k as int].1),
                forall|i: int| 0 <= i < order@.len() ==> order@[i] < k,
                forall|i: int| 0 <= i < p ==> saved_of(e[order@[i] as int].1) >= sk,
            decreases order@.len() - p,
        {
            p = p + 1;
        }
        proof {
            assert forall|q: int| p <= q < order@.len() implies saved_of(e[order@[q] as int].1) < sk by {
                if q > p {
                    assert(ranks_before(e, order@[p as int] as int, order@[q] as int));
                }
            }
        }
        let ghost before = order@;
        order.insert(p, k);
        proof {
            assert(order@ =~= before.insert(p as int, k));
            assert forall|i: int, j: int| 0 <= i < j < order@.len() implies ranks_before(
                e,
                #[trigger] order@[i] as int,
                #[trigger] order@[j] as int,
            ) by {
                if j < p {
                    assert(order@[i] == before[i] && order@[j] == before[j]);
                } else if j == p {
                    assert(order@[i] == before[i]);
                } else if i == p {
                    assert(order@[j] == before[j - 1]);
                } else if i < p {
                    assert(order@[i] == before[i] && order@[j] == before[j - 1]);
                } else {
                    assert(order@[i] == before[i - 1] && order@[j] == before[j - 1]);
                }
            }
        }
        k = k + 1;
    }
    proof {
        law_ranking_orders_by_tokens_saved(e, order@);
    }
    order
}

/// In any order that `ranks_before` holds along, each entry appears once and
/// an entry saved at least as many tokens (tokens in minus tokens out, or 0)
/// as every entry after it.
pub proof fn law_ranking_orders_by_tokens_saved(e: Seq<(String, ServerStats)>, r: Seq<usize>)
    requires
        forall|i: int| 0 <= i < r.len() ==> r[i] < e.len(),
        forall|i: int, j: int|
            0 <= i < j < r.len() ==> ranks_before(e, #[trigger] r[i] as int, #[trigger] r[j] as int),
    ensures
        forall|i: int, j: int| 0 <= i < j < r.len() ==> #[trigger] r[i] != #[trigger] r[j],
        forall|i: int, j: int|
            0 <= i < j < r.len() ==> saved(e[#[trigger] r[i] as int].1.tokens_in as nat, e[r[i] as int].1.tokens_out as nat)
                >= saved(e[#[trigger] r[j] as int].1.tokens_in as nat, e[r[j] as int].1.tokens_out as nat),
{
    assert forall|i: int, j: int| 0 <= i < j < r.len() implies #[trigger] r[i] != #[trigger] r[j] by {
        assert(ranks_before(e, r[i] as int, r[j] as int));
    }
    assert forall|i: int, j: int| 0 <= i < j < r.len() implies saved(
        e[#[trigger] r[i] as int].1.tokens_in as nat,
        e[r[i] as int].1.tokens_out as nat,
    ) >= saved(e[#[trigger] r[j] as int].1.tokens_in as nat, e[r[j] as int].1.tokens_out as nat) by {
        assert(ranks_before(e, r[i] as int, r[j] as int));
    }
}

} // verus!
