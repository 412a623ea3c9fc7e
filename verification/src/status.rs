//! Ranking and labels of MCP server statuses.
use vstd::prelude::*;
use crate::clients::{DetectedClient, ServerEntry, ServerStatus};
use crate::compress::chars_eq;
use crate::text::{less_than, lemma_str_lt_irreflexive, lemma_str_lt_total, lemma_str_lt_transitive, str_chars, str_lt};

verus! {

/// Ordering weight of a status: proxied first, then direct, disabled, http.
pub open spec fn rank_of(s: ServerStatus) -> u8 {
    match s {
        ServerStatus::Proxied => 0,
        ServerStatus::Direct => 1,
        ServerStatus::Disabled => 2,
        ServerStatus::Http => 3,
    }
}

pub fn status_rank(s: &ServerStatus) -> (r: u8)
    ensures
        r == rank_of(*s),
{
    match s {
        ServerStatus::Proxied => 0,
        ServerStatus::Direct => 1,
        ServerStatus::Disabled => 2,
        ServerStatus::Http => 3,
    }
}

/// The label shown for a status.
pub open spec fn status_label(s: ServerStatus) -> Seq<char> {
    match s {
        ServerStatus::Proxied => "\u{2713} proxied"@,
        ServerStatus::Direct => "\u{2717} direct"@,
        ServerStatus::Disabled => "- disabled"@,
        ServerStatus::Http => "~ http"@,
    }
}

pub fn format_status(s: &ServerStatus) -> (r: &'static str)
    ensures
        r@ == status_label(*s),
{
    match s {
        ServerStatus::Proxied => "\u{2713} proxied",
        ServerStatus::Direct => "\u{2717} direct",
        ServerStatus::Disabled => "- disabled",
        ServerStatus::Http => "~ http",
    }
}

/// Distinct statuses have distinct ranks, strictly ordered proxied, direct,
/// disabled, http.
pub proof fn law_status_rank_order(a: ServerStatus, b: ServerStatus)
    ensures
        rank_of(ServerStatus::Proxied) < rank_of(ServerStatus::Direct),
        rank_of(ServerStatus::Direct) < rank_of(ServerStatus::Disabled),
        rank_of(ServerStatus::Disabled) < rank_of(ServerStatus::Http),
        rank_of(a) == rank_of(b) <==> a == b,
{
}


// ── The status table ─────────────────────────────────────────────────────────

/// One server entry of one client: the server's name, the client's name and
/// the entry's status.
pub type Occurrence = (Seq<char>, Seq<char>, ServerStatus);

/// The server entries of a client, in order.
pub open spec fn client_occurrences(c: DetectedClient) -> Seq<Occurrence> {
    c.servers@.map_values(|e: ServerEntry| (e.name@, c.def.name@, e.status))
}

/// Every server entry of every client, clients in order.
pub open spec fn occurrences(d: Seq<DetectedClient>) -> Seq<Occurrence>
    decreases d.len(),
{
    if d.len() == 0 {
        seq![]
    } else {
        occurrences(d.drop_last()) + client_occurrences(d.last())
    }
}

/// The entries for the server `name`, in order.
pub open spec fn entries_named(occ: Seq<Occurrence>, name: Seq<char>) -> Seq<Occurrence>
    decreases occ.len(),
{
    if occ.len() == 0 {
        seq![]
    } else {
        let g = entries_named(occ.drop_last(), name);
        if occ.last().0 == name {
            g.push(occ.last())
        } else {
            g
        }
    }
}

/// The best (lowest) rank among entries; 99 when there are none.
pub open spec fn best_rank(g: Seq<Occurrence>) -> nat
    decreases g.len(),
{
    if g.len() == 0 {
        99
    } else {
        let b = best_rank(g.drop_last());
        let r = rank_of(g.last().2) as nat;
        if r < b {
            r
        } else {
            b
        }
    }
}

/// Entry `k` is the first entry of its server.
pub open spec fn is_first(occ: Seq<Occurrence>, k: int) -> bool {
    0 <= k < occ.len() && forall|j: int| 0 <= j < k ==> (#[trigger] occ[j]).0 != occ[k].0
}

/// `name` is the name of a server some client lists.
pub open spec fn is_server_of(occ: Seq<Occurrence>, name: Seq<char>) -> bool {
    exists|k: int| is_first(occ, k) && occ[k].0 == name
}

/// The server `a` is listed before the server `b`: its best status ranks
/// higher, or as high and its name sorts first.
pub open spec fn listed_before(occ: Seq<Occurrence>, a: Seq<char>, b: Seq<char>) -> bool {
    let ra = best_rank(entries_named(occ, a));
    let rb = best_rank(entries_named(occ, b));
    ra < rb || (ra == rb && str_lt(a, b))
}

/// A server as the status report lists it: its name, the status of its
/// first entry, and the clients that list it, in order.
#[derive(Debug)]
pub struct StatusRow {
    pub name: String,
    pub status: ServerStatus,
    pub clients: Vec<&'static str>,
}

/// The client names of entries.
pub open spec fn client_names(g: Seq<Occurrence>) -> Seq<Seq<char>> {
    g.map_values(|o: Occurrence| o.1)
}

/// The row of the server `name`.
pub open spec fn row_matches(r: StatusRow, occ: Seq<Occurrence>) -> bool {
    let g = entries_named(occ, r.name@);
    &&& g.len() > 0
    &&& r.status == g[0].2
    &&& str_views(r.clients@) == client_names(g)
}

/// The texts of string slices.
pub open spec fn str_views(v: Seq<&'static str>) -> Seq<Seq<char>> {
    v.map_values(|c: &'static str| c@)
}

type Flat = (String, &'static str, ServerStatus);

spec fn flat_view(v: Seq<Flat>) -> Seq<Occurrence> {
    v.map_values(|t: Flat| (t.0@, t.1@, t.2))
}

/// Every server entry of every client, as values.
fn flatten(detected: &Vec<DetectedClient>) -> (r: Vec<Flat>)
    ensures
        flat_view(r@) == occurrences(detected@),
{
    let mut out: Vec<Flat> = Vec::new();
    let mut i: usize = 0;
    while i < detected.len()
        invariant
            i <= detected.len(),
            flat_view(out@) == occurrences(detected@.take(i as int)),
        decreases detected.len() - i,
    {
        let c = &detected[i];
        let ghost base = out@;
        assert(detected@.take(i + 1).drop_last() =~= detected@.take(i as int));
        let mut j: usize = 0;
        while j < c.servers.len()
            invariant
                j <= c.servers.len(),
                c == detected@[i as int],
                base.len() <= out@.len(),
                out@.take(base.len() as int) == base,
                flat_view(out@) == flat_view(base) + client_occurrences(*c).take(j as int),
            decreases c.servers.len() - j,
        {
            let e = &c.servers[j];
            let ghost prev = out@;
            out.push((e.name.clone(), c.def.name, e.status));
            proof {
                assert(out@.drop_last() =~= prev);
                assert(out@.take(base.len() as int) =~= base);
                assert(flat_view(out@) =~= flat_view(prev).push((e.name@, c.def.name@, e.status)));
                assert(client_occurrences(*c).take(j + 1) =~= client_occurrences(*c).take(j as int).push(
                    (e.name@, c.def.name@, e.status),
                ));
            }
            j = j + 1;
        }
        assert(client_occurrences(*c).take(j as int) =~= client_occurrences(*c));
        i = i + 1;
    }
    assert(detected@.take(detected.len() as int) =~= detected@);
    out
}


/// The best rank among the entries of the server `name`.
fn best_rank_of(flat: &Vec<Flat>, name: &Vec<char>) -> (r: u8)
    ensures
        r == best_rank(entries_named(flat_view(flat@), name@)),
{
    let ghost occ = flat_view(flat@);
    let mut best: u8 = 99;
    let mut k: usize = 0;
    while k < flat.len()
        invariant
            k <= flat.len(),
            occ == flat_view(flat@),
            best == best_rank(entries_named(occ.take(k as int), name@)),
        decreases flat.len() - k,
    {
        assert(occ.take(k + 1).drop_last() =~= occ.take(k as int));
        assert(occ.take(k + 1).last() == (flat@[k as int].0@, flat@[k as int].1@, flat@[k as int].2));
        if chars_eq(&str_chars(flat[k].0.as_str()), name) {
            let ghost g0 = entries_named(occ.take(k as int), name@);
            assert(g0.push(occ[k as int]).drop_last() =~= g0);
            let r = status_rank(&flat[k].2);
            if r < best {
                best = r;
            }
        }
        k = k + 1;
    }
    assert(occ.take(flat.len() as int) =~= occ);
    best
}

/// The row of the server `name`, which has an entry.
fn build_row(flat: &Vec<Flat>, name: &String) -> (r: StatusRow)
    requires
        exists|k: int| 0 <= k < flat@.len() && (#[trigger] flat@[k]).0@ == name@,
    ensures
        r.name@ == name@,
        row_matches(r, flat_view(flat@)),
{
    let ghost occ = flat_view(flat@);
    let key = str_chars(name.as_str());
    let mut clients: Vec<&'static str> = Vec::new();
    let mut first: Option<ServerStatus> = None;
    let mut k: usize = 0;
    while k < flat.len()
        invariant
            k <= flat.len(),
            occ == flat_view(flat@),
            key@ == name@,
            ({
                let g = entries_named(occ.take(k as int), name@);
                &&& str_views(clients@) == client_names(g)
                &&& match first {
                    Some(st) => g.len() > 0 && st == g[0].2,
                    None => g.len() == 0,
                }
            }),
        decreases flat.len() - k,
    {
        assert(occ.take(k + 1).drop_last() =~= occ.take(k as int));
        assert(occ.take(k + 1).last() == (flat@[k as int].0@, flat@[k as int].1@, flat@[k as int].2));
        let ghost before = clients@;
        if chars_eq(&str_chars(flat[k].0.as_str()), &key) {
            clients.push(flat[k].1);
            if first.is_none() {
                first = Some(flat[k].2);
            }
            proof {
                let g0 = entries_named(occ.take(k as int), name@);
                assert(str_views(clients@) =~= str_views(before).push(flat@[k as int].1@));
                assert(client_names(g0.push(occ[k as int])) =~= client_names(g0).push(flat@[k as int].1@));
            }
        }
        k = k + 1;
    }
    assert(occ.take(flat.len() as int) =~= occ);
    proof {
        let k0 = choose|k: int| 0 <= k < flat@.len() && (#[trigger] flat@[k]).0@ == name@;
        lemma_named_nonempty(occ, name@, k0);
    }
    let status = match first {
        Some(st) => st,
        None => ServerStatus::Http,
    };
    StatusRow { name: name.clone(), status, clients }
}

proof fn lemma_named_nonempty(occ: Seq<Occurrence>, name: Seq<char>, k: int)
    requires
        0 <= k < occ.len(),
        occ[k].0 == name,
    ensures
        entries_named(occ, name).len() > 0,
    decreases occ.len(),
{
    if k < occ.len() - 1 {
        lemma_named_nonempty(occ.drop_last(), name, k);
    }
}


/// The positions of the first entry of each server, in order.
fn first_positions(flat: &Vec<Flat>) -> (r: Vec<usize>)
    ensures
        forall|i: int| 0 <= i < r@.len() ==> is_first(flat_view(flat@), #[trigger] r@[i] as int),
        forall|k: int| is_first(flat_view(flat@), k) ==> r@.contains(k as usize),
        forall|i: int, j: int| 0 <= i < j < r@.len() ==> #[trigger] r@[i] < #[trigger] r@[j],
{
    let ghost occ = flat_view(flat@);
    let mut r: Vec<usize> = Vec::new();
    let mut k: usize = 0;
    while k < flat.len()
        invariant
            k <= flat.len(),
            occ == flat_view(flat@),
            forall|i: int| 0 <= i < r@.len() ==> is_first(occ, #[trigger] r@[i] as int),
            forall|x: int| 0 <= x < k && is_first(occ, x) ==> r@.contains(x as usize),
            forall|i: int| 0 <= i < r@.len() ==> #[trigger] r@[i] < k,
            forall|i: int, j: int| 0 <= i < j < r@.len() ==> #[trigger] r@[i] < #[trigger] r@[j],
        decreases flat.len() - k,
    {
        let name = str_chars(flat[k].0.as_str());
        let mut j: usize = 0;
        let mut seen = false;
        while j < k && !seen
            invariant
                j <= k < flat.len(),
                occ == flat_view(flat@),
                name@ == occ[k as int].0,
                !seen ==> forall|x: int| 0 <= x < j ==> (#[trigger] occ[x]).0 != occ[k as int].0,
                seen ==> exists|x: int| 0 <= x < k && (#[trigger] occ[x]).0 == occ[k as int].0,
            decreases k - j + if seen { 0int } else { 1int },
        {
            if chars_eq(&str_chars(flat[j].0.as_str()), &name) {
                seen = true;
                assert(occ[j as int].0 == occ[k as int].0);
            } else {
                j = j + 1;
            }
        }
        let ghost before = r@;
        if !seen {
            r.push(k);
            assert(r@[before.len() as int] == k);
        }
        proof {
            assert forall|x: int| 0 <= x < k + 1 && is_first(occ, x) implies r@.contains(x as usize) by {
                if x < k {
                    assert(before.contains(x as usize));
                    let i = choose|i: int| 0 <= i < before.len() && before[i] == x as usize;
                    assert(r@[i] == x as usize);
                } else {
                    if seen {
                        let y = choose|y: int| 0 <= y < k && (#[trigger] occ[y]).0 == occ[k as int].0;
                        assert(occ[y].0 != occ[x].0);
                    }
                    assert(r@[before.len() as int] == x as usize);
                }
            }
        }
        k = k + 1;
    }
    r
}

/// The entries named by two first positions name different servers.
proof fn lemma_firsts_distinct(occ: Seq<Occurrence>, a: int, b: int)
    requires
        is_first(occ, a),
        is_first(occ, b),
        a != b,
    ensures
        occ[a].0 != occ[b].0,
{
    if a < b {
        assert(occ[a].0 != occ[b].0);
    } else {
        assert(occ[b].0 != occ[a].0);
    }
}

proof fn lemma_listed_before_transitive(occ: Seq<Occurrence>, a: Seq<char>, b: Seq<char>, c: Seq<char>)
    requires
        listed_before(occ, a, b),
        listed_before(occ, b, c),
    ensures
        listed_before(occ, a, c),
{
    let ra = best_rank(entries_named(occ, a));
    let rb = best_rank(entries_named(occ, b));
    let rc = best_rank(entries_named(occ, c));
    if ra == rb && rb == rc {
        lemma_str_lt_transitive(a, b, c);
    }
}

proof fn lemma_listed_before_total(occ: Seq<Occurrence>, a: Seq<char>, b: Seq<char>)
    requires
        a != b,
    ensures
        listed_before(occ, a, b) || listed_before(occ, b, a),
{
    lemma_str_lt_total(a, b);
}

/// Whether the server of entry `a` is listed before that of entry `b`.
fn before_exec(flat: &Vec<Flat>, a: usize, b: usize) -> (r: bool)
    requires
        a < flat@.len(),
        b < flat@.len(),
    ensures
        r == listed_before(flat_view(flat@), flat_view(flat@)[a as int].0, flat_view(flat@)[b as int].0),
{
    let na = str_chars(flat[a].0.as_str());
    let nb = str_chars(flat[b].0.as_str());
    let ra = best_rank_of(flat, &na);
    let rb = best_rank_of(flat, &nb);
    ra < rb || (ra == rb && less_than(&na, &nb))
}


/// `v` is one of the first `t` items of `firsts`.
spec fn placed_among(firsts: Seq<usize>, t: int, v: usize) -> bool {
    exists|j: int| 0 <= j < t && firsts[j] == v
}

/// The first positions ordered by how their servers are listed.
fn order_positions(flat: &Vec<Flat>, firsts: &Vec<usize>) -> (order: Vec<usize>)
    requires
        forall|i: int| 0 <= i < firsts@.len() ==> is_first(flat_view(flat@), #[trigger] firsts@[i] as int),
        forall|i: int, j: int| 0 <= i < j < firsts@.len() ==> #[trigger] firsts@[i] < #[trigger] firsts@[j],
    ensures
        forall|i: int| 0 <= i < order@.len() ==> firsts@.contains(#[trigger] order@[i]),
        forall|j: int| 0 <= j < firsts@.len() ==> order@.contains(#[trigger] firsts@[j]),
        forall|i: int, j: int|
            0 <= i < j < order@.len() ==> listed_before(
                flat_view(flat@),
                flat_view(flat@)[#[trigger] order@[i] as int].0,
                flat_view(flat@)[#[trigger] order@[j] as int].0,
            ),
{
    let ghost occ = flat_view(flat@);
    let mut order: Vec<usize> = Vec::new();
    let mut t: usize = 0;
    while t < firsts.len()
        invariant
            t <= firsts.len(),
            occ == flat_view(flat@),
            forall|i: int| 0 <= i < firsts@.len() ==> is_first(occ, #[trigger] firsts@[i] as int),
            forall|i: int, j: int| 0 <= i < j < firsts@.len() ==> #[trigger] firsts@[i] < #[trigger] firsts@[j],
            forall|i: int| 0 <= i < order@.len() ==> placed_among(firsts@, t as int, #[trigger] order@[i]),
            forall|j: int| 0 <= j < t ==> order@.contains(#[trigger] firsts@[j]),
            forall|i: int, j: int|
                0 <= i < j < order@.len() ==> listed_before(occ, occ[#[trigger] order@[i] as int].0, occ[#[trigger] order@[j] as int].0),
        decreases firsts.len() - t,
    {
        let x = firsts[t];
        assert(is_first(occ, x as int));
        let mut p: usize = 0;
        while p < order.len() && before_exec(flat, order[p], x)
            invariant
                p <= order@.len(),
                t < firsts.len(),
                x == firsts@[t as int],
                occ == flat_view(flat@),
                forall|i: int| 0 <= i < order@.len() ==> placed_among(firsts@, t as int, #[trigger] order@[i]),
                forall|i: int| 0 <= i < firsts@.len() ==> is_first(occ, #[trigger] firsts@[i] as int),
                forall|i: int| 0 <= i < p ==> listed_before(occ, occ[#[trigger] order@[i] as int].0, occ[x as int].0),
            decreases order@.len() - p,
        {
            proof {
                assert(placed_among(firsts@, t as int, order@[p as int]));
                let j = choose|j: int| 0 <= j < t && firsts@[j] == order@[p as int];
                assert(is_first(occ, firsts@[j] as int));
            }
            p = p + 1;
        }
        proof {
            // Every placed position is an earlier first position than `x`,
            // so it names another server.
            assert forall|q: int| 0 <= q < order@.len() implies #[trigger] occ[order@[q] as int].0 != occ[x as int].0 by {
                assert(placed_among(firsts@, t as int, order@[q]));
                let j = choose|j: int| 0 <= j < t && firsts@[j] == order@[q];
                assert(firsts@[j] < firsts@[t as int]);
                lemma_firsts_distinct(occ, order@[q] as int, x as int);
            }
            if p < order@.len() {
                lemma_listed_before_total(occ, occ[order@[p as int] as int].0, occ[x as int].0);
            }
            assert forall|q: int| p <= q < order@.len() implies listed_before(occ, occ[x as int].0, occ[#[trigger] order@[q] as int].0) by {
                if q > p {
                    assert(listed_before(occ, occ[order@[p as int] as int].0, occ[order@[q] as int].0));
                    lemma_listed_before_transitive(occ, occ[x as int].0, occ[order@[p as int] as int].0, occ[order@[q] as int].0);
                }
            }
        }
        let ghost before = order@;
        order.insert(p, x);
        proof {
            assert(order@ =~= before.insert(p as int, x));
            assert forall|i: int| 0 <= i < order@.len() implies placed_among(firsts@, t + 1, #[trigger] order@[i]) by {
                if i < p {
                    assert(order@[i] == before[i]);
                    assert(placed_among(firsts@, t as int, before[i]));
                    let j = choose|j: int| 0 <= j < t && firsts@[j] == before[i];
                    assert(0 <= j < t + 1 && firsts@[j] == order@[i]);
                } else if i == p {
                    assert(firsts@[t as int] == order@[i]);
                } else {
                    assert(order@[i] == before[i - 1]);
                    assert(placed_among(firsts@, t as int, before[i - 1]));
                    let j = choose|j: int| 0 <= j < t && firsts@[j] == before[i - 1];
                    assert(0 <= j < t + 1 && firsts@[j] == order@[i]);
                }
            }
            assert forall|j: int| 0 <= j < t + 1 implies order@.contains(#[trigger] firsts@[j]) by {
                if j < t {
                    assert(before.contains(firsts@[j]));
                    let i = choose|i: int| 0 <= i < before.len() && before[i] == firsts@[j];
                    if i < p {
                        assert(order@[i] == firsts@[j]);
                    } else {
                        assert(order@[i + 1] == firsts@[j]);
                    }
                } else {
                    assert(order@[p as int] == firsts@[j]);
                }
            }
            assert forall|i: int, j: int| 0 <= i < j < order@.len() implies listed_before(
                occ,
                occ[#[trigger] order@[i] as int].0,
                occ[#[trigger] order@[j] as int].0,
            ) by {
                if j < p {
                    assert(order@[i] == before[i] && order@[j] == before[j]);
                } else if j == p {
                    assert(order@[i] == before[i]);
                } else if i == p {
                    assert(order@[j] == before[j - 1]);
                } else if i < p {
                    assert(order@[i] == before[i] && order@[j] == before[j - 1]);
                } else {
                    assert(order@[i] == before[i - 1] && order@[j] == before[j - 1]);
                }
            }
        }
        t = t + 1;
    }
    proof {
        assert forall|i: int| 0 <= i < order@.len() implies firsts@.contains(#[trigger] order@[i]) by {
            assert(placed_among(firsts@, firsts@.len() as int, order@[i]));
            let j = choose|j: int| 0 <= j < firsts@.len() && firsts@[j] == order@[i];
        }
    }
    order
}

/// The server status table: one row per server listed by any client, the
/// servers whose best status ranks highest first (proxied, direct, disabled,
/// http), then by name. A row shows the status of the server's first entry
/// and every client that lists it.
pub fn status_table(detected: &Vec<DetectedClient>) -> (r: Vec<StatusRow>)
    ensures
        ({
            let occ = occurrences(detected@);
            &&& forall|i: int| 0 <= i < r@.len() ==> row_matches(#[trigger] r@[i], occ)
            &&& forall|i: int|
                0 <= i < r@.len() ==> is_server_of(occ, (#[trigger] r@[i]).name@)
            &&& forall|k: int| is_first(occ, k) ==> exists|i: int| 0 <= i < r@.len() && (#[trigger] r@[i]).name@ == occ[k].0
            &&& forall|i: int, j: int|
                0 <= i < j < r@.len() ==> listed_before(occ, (#[trigger] r@[i]).name@, (#[trigger] r@[j]).name@)
        }),
{
    let flat = flatten(detected);
    let ghost occ = flat_view(flat@);
    let firsts = first_positions(&flat);
    let order = order_positions(&flat, &firsts);
    let mut rows: Vec<StatusRow> = Vec::new();
    let mut i: usize = 0;
    while i < order.len()
        invariant
            i <= order.len(),
            occ == flat_view(flat@),
            occ == occurrences(detected@),
            rows@.len() == i,
            forall|a: int| 0 <= a < order@.len() ==> firsts@.contains(#[trigger] order@[a]),
            forall|a: int| 0 <= a < firsts@.len() ==> is_first(occ, #[trigger] firsts@[a] as int),
            forall|a: int| 0 <= a < i ==> row_matches(#[trigger] rows@[a], occ),
            forall|a: int| 0 <= a < i ==> (#[trigger] rows@[a]).name@ == occ[order@[a] as int].0,
        decreases order.len() - i,
    {
        let pos = order[i];
        proof {
            assert(firsts@.contains(pos));
            let a = choose|a: int| 0 <= a < firsts@.len() && firsts@[a] == pos;
            assert(is_first(occ, firsts@[a] as int));
            assert(flat@[pos as int].0@ == occ[pos as int].0);
        }
        let row = build_row(&flat, &flat[pos].0);
        rows.push(row);
        i = i + 1;
    }
    proof {
        assert forall|a: int| 0 <= a < rows@.len() implies is_server_of(occ, (#[trigger] rows@[a]).name@) by {
            assert(firsts@.contains(order@[a]));
            let b = choose|b: int| 0 <= b < firsts@.len() && firsts@[b] == order@[a];
            let w = order@[a] as int;
            assert(is_first(occ, w));
            assert(occ[w].0 =~= rows@[a].name@);
        }
        assert forall|k: int| is_first(occ, k) implies exists|a: int| 0 <= a < rows@.len() && (#[trigger] rows@[a]).name@ == occ[k].0 by {
            assert(firsts@.contains(k as usize));
            let b = choose|b: int| 0 <= b < firsts@.len() && firsts@[b] == k as usize;
            assert(order@.contains(firsts@[b]));
            let a = choose|a: int| 0 <= a < order@.len() && order@[a] == firsts@[b];
            assert(rows@[a].name@ == occ[k].0);
        }
        assert forall|a: int, b: int| 0 <= a < b < rows@.len() implies listed_before(occ, (#[trigger] rows@[a]).name@, (#[trigger] rows@[b]).name@) by {
            assert(listed_before(occ, occ[order@[a] as int].0, occ[order@[b] as int].0));
        }
    }
    rows
}

} // verus!
