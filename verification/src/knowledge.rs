//! Choosing a hit among the results of a semantic search of past tool calls.
use vstd::prelude::*;
use crate::compress::chars_eq;
use crate::json::{
    clone_json, jview, jview_fields, jview_items, lemma_jview_fields, lemma_jview_items, vget, vget_str, vu64,
    Json, JsonNumber, JsonV, NumV,
};
use crate::text::{append_chars, str_chars, string_from_chars};
use crate::json::{json_text, to_json_string};

verus! {

/// The tool name of a query text `"<tool_name>: <args_json>"`: everything
/// before the first `": "`, or the whole text when it holds none.
pub open spec fn query_tool(q: Seq<char>) -> Seq<char>
    decreases q.len(),
{
    if q.len() < 2 {
        q
    } else if q[0] == ':' && q[1] == ' ' {
        seq![]
    } else {
        seq![q[0]] + query_tool(q.drop_first())
    }
}

/// The tool name of a query text (as `query_text.split(": ").next()`).
#[verifier::spinoff_prover]
pub fn tool_of_query(query_text: &str) -> (r: String)
    ensures
        r@ == query_tool(query_text@),
{
    let q = str_chars(query_text);
    let n = q.len();
    let mut i: usize = 0;
    assert(q@.skip(0) =~= q@);
    assert(q@.take(0) + q@ =~= q@);
    while i < n && !(i + 1 < n && q[i] == ':' && q[i + 1] == ' ')
        invariant
            i <= n,
            n == q.len(),
            query_tool(q@) == q@.take(i as int) + query_tool(q@.skip(i as int)),
        decreases n - i,
    {
        let ghost rest = q@.skip(i as int);
        assert(rest.drop_first() =~= q@.skip(i + 1));
        assert(q@.take(i + 1) =~= q@.take(i as int) + seq![rest[0]]);
        i = i + 1;
    }
    proof {
        let rest = q@.skip(i as int);
        if i < n {
            assert(rest[0] == ':' && rest[1] == ' ');
        } else {
            assert(rest.len() == 0);
        }
    }
    assert(q@.take(i as int) + Seq::<char>::empty() =~= q@.take(i as int));
    let mut r: Vec<char> = Vec::new();
    let mut j: usize = 0;
    while j < i
        invariant
            j <= i <= q.len(),
            r@ == q@.take(j as int),
        decreases i - j,
    {
        r.push(q[j]);
        j = j + 1;
        assert(r@ =~= q@.take(j as int));
    }
    string_from_chars(&r)
}

/// A stored response chosen as a hit, with its token sizes.
#[derive(Debug)]
pub struct KnowledgeHit {
    pub response: Json,
    pub tokens_original: usize,
    pub tokens_compressed: usize,
}

/// The outcome of inspecting one search result's metadata.
pub enum ResultCheck {
    /// The result is skipped (another tool, or expired).
    Skip,
    /// The search gives up (malformed metadata).
    Stop,
    /// The result is the hit.
    Hit(JsonV, usize, usize),
}

/// The number stored under `key`, or 0.
pub open spec fn u64_or_zero(meta: JsonV, key: Seq<char>) -> u64 {
    match vget(meta, key) {
        Some(v) => match vu64(v) {
            Some(u) => u,
            None => 0,
        },
        None => 0,
    }
}

/// What one result's metadata decides: a different stored tool name skips
/// it; a missing or non-numeric insertion time ends the search; an entry
/// `ttl_secs` or more old is skipped; a missing response ends the search;
/// otherwise it is the hit.
pub open spec fn check_result(meta: JsonV, tool: Seq<char>, now: u64, ttl_secs: u64) -> ResultCheck {
    if vget_str(meta, "tool_name"@) is Some && vget_str(meta, "tool_name"@) != Some(tool) {
        ResultCheck::Skip
    } else {
        match vget(meta, "inserted_at"@) {
            Some(v) => match vu64(v) {
                Some(inserted_at) => {
                    let age = if now >= inserted_at { now - inserted_at } else { 0 };
                    if age >= ttl_secs {
                        ResultCheck::Skip
                    } else {
                        match vget(meta, "response"@) {
                            Some(resp) => ResultCheck::Hit(
                                resp,
                                u64_or_zero(meta, "tokens_original"@) as usize,
                                u64_or_zero(meta, "tokens_compressed"@) as usize,
                            ),
                            None => ResultCheck::Stop,
                        }
                    }
                },
                None => ResultCheck::Stop,
            },
            None => ResultCheck::Stop,
        }
    }
}

/// The hit among results (in rank order): the first that `check_result`
/// accepts, unless one before it ends the search.
pub open spec fn select(metas: Seq<JsonV>, tool: Seq<char>, now: u64, ttl_secs: u64) -> Option<(JsonV, usize, usize)>
    decreases metas.len(),
{
    if metas.len() == 0 {
        None
    } else {
        match check_result(metas[0], tool, now, ttl_secs) {
            ResultCheck::Skip => select(metas.drop_first(), tool, now, ttl_secs),
            ResultCheck::Stop => None,
            ResultCheck::Hit(r, a, b) => Some((r, a, b)),
        }
    }
}

fn u64_field_or_zero(meta: &Json, key: &str) -> (r: u64)
    ensures
        r == u64_or_zero(meta@, key@),
{
    match meta.get(key) {
        Some(v) => match v.as_u64() {
            Some(u) => u,
            None => 0,
        },
        None => 0,
    }
}

/// Choose the hit among the metadata of search results, ranked best first:
/// the first result stored for the same tool and younger than `ttl_secs` at
/// time `now`.
pub fn select_hit(query_text: &str, metas: &Vec<Json>, now: u64, ttl_secs: u64) -> (r: Option<KnowledgeHit>)
    ensures
        match r {
            Some(h) => select(jview_items(metas@), query_tool(query_text@), now, ttl_secs) == Some(
                (h.response@, h.tokens_original, h.tokens_compressed),
            ),
            None => select(jview_items(metas@), query_tool(query_text@), now, ttl_secs) is None,
        },
{
    let tool = tool_of_query(query_text);
    let tool_chars = str_chars(tool.as_str());
    proof {
        lemma_jview_items(metas@);
    }
    let ghost all = jview_items(metas@);
    let mut i: usize = 0;
    assert(all.skip(0) =~= all);
    while i < metas.len()
        invariant
            i <= metas.len(),
            all == jview_items(metas@),
            all.len() == metas@.len(),
            forall|j: int| 0 <= j < metas@.len() ==> #[trigger] all[j] == jview(metas@[j]),
            tool_chars@ == tool@,
            tool@ == query_tool(query_text@),
            select(all, tool@, now, ttl_secs) == select(all.skip(i as int), tool@, now, ttl_secs),
        decreases metas.len() - i,
    {
        let meta = &metas[i];
        let ghost rest = all.skip(i as int);
        assert(rest[0] == meta@);
        assert(rest.drop_first() =~= all.skip(i + 1));
        let other_tool = match meta.get("tool_name") {
            Some(v) => match v.as_str() {
                Some(stored) => !chars_eq(&str_chars(stored.as_str()), &tool_chars),
                None => false,
            },
            None => false,
        };
        if !other_tool {
            let inserted_at = match meta.get("inserted_at") {
                Some(v) => match v.as_u64() {
                    Some(u) => u,
                    None => return None,
                },
                None => return None,
            };
            if now.saturating_sub(inserted_at) < ttl_secs {
                let response = match meta.get("response") {
                    Some(r) => clone_json(r),
                    None => return None,
                };
                let tokens_original = u64_field_or_zero(meta, "tokens_original") as usize;
                let tokens_compressed = u64_field_or_zero(meta, "tokens_compressed") as usize;
                return Some(KnowledgeHit { response, tokens_original, tokens_compressed });
            }
        }
        i = i + 1;
    }
    None
}

// ── Query text ─────────────────────────────────────────────────────────────

/// The query text of a tool call: `"<tool_name>: <args_json>"`.
pub open spec fn query_text_of(tool_name: Seq<char>, args: JsonV) -> Seq<char> {
    tool_name + ": "@ + json_text(args)
}

/// Build the query text used as the semantic key for a tool call.
///
/// Format: `"<tool_name>: <args_json>"`.
pub fn query_text(tool_name: &str, args: &Json) -> (r: String)
    ensures
        r@ == query_text_of(tool_name@, args@),
{
    let mut cs = str_chars(tool_name);
    append_chars(&mut cs, &str_chars(": "));
    append_chars(&mut cs, &str_chars(to_json_string(args).as_str()));
    string_from_chars(&cs)
}


// ── Stored entries ──────────────────────────────────────────────────────────

/// Seconds in `ttl_days` days.
pub fn ttl_secs_of_days(ttl_days: u64) -> (s: u64)
    requires
        ttl_days * 86_400 <= u64::MAX,
    ensures
        s == ttl_days * 86_400,
{
    ttl_days * 86_400
}

/// The metadata stored beside a response: when it was stored, the tool of
/// its query, the response itself and its token sizes.
pub open spec fn entry_metadata_view(
    query_text: Seq<char>,
    response: JsonV,
    inserted_at: u64,
    tokens_original: usize,
    tokens_compressed: usize,
) -> JsonV {
    JsonV::Object(
        seq![
            ("inserted_at"@, JsonV::Number(NumV::PosInt(inserted_at))),
            ("tool_name"@, JsonV::Str(query_tool(query_text))),
            ("response"@, response),
            ("tokens_original"@, JsonV::Number(NumV::PosInt(tokens_original as u64))),
            ("tokens_compressed"@, JsonV::Number(NumV::PosInt(tokens_compressed as u64))),
        ],
    )
}

/// Build the metadata of a stored response (see `entry_metadata_view`).
pub fn entry_metadata(
    query_text: &str,
    response: Json,
    inserted_at: u64,
    tokens_original: usize,
    tokens_compressed: usize,
) -> (m: Json)
    ensures
        m@ == entry_metadata_view(query_text@, response@, inserted_at, tokens_original, tokens_compressed),
{
    let ghost rv = response@;
    let fields = vec![
        ("inserted_at".to_owned(), Json::Number(JsonNumber::PosInt(inserted_at))),
        ("tool_name".to_owned(), Json::Str(tool_of_query(query_text))),
        ("response".to_owned(), response),
        ("tokens_original".to_owned(), Json::Number(JsonNumber::PosInt(tokens_original as u64))),
        ("tokens_compressed".to_owned(), Json::Number(JsonNumber::PosInt(tokens_compressed as u64))),
    ];
    proof {
        lemma_jview_fields(fields@);
        assert(jview_fields(fields@) =~= seq![
            ("inserted_at"@, JsonV::Number(NumV::PosInt(inserted_at))),
            ("tool_name"@, JsonV::Str(query_tool(query_text@))),
            ("response"@, rv),
            ("tokens_original"@, JsonV::Number(NumV::PosInt(tokens_original as u64))),
            ("tokens_compressed"@, JsonV::Number(NumV::PosInt(tokens_compressed as u64))),
        ]);
    }
    Json::Object(fields)
}


// ── What a hit is ──────────────────────────────────────────────────────────

/// The result's metadata records the query's tool (or no tool) and an
/// insertion time less than `ttl_secs` before `now`.
pub open spec fn fresh_for(meta: JsonV, tool: Seq<char>, now: u64, ttl_secs: u64) -> bool {
    &&& (vget_str(meta, "tool_name"@) is None || vget_str(meta, "tool_name"@) == Some(tool))
    &&& match vget(meta, "inserted_at"@) {
        Some(v) => match vu64(v) {
            Some(t) => (if now >= t { now - t } else { 0 }) < ttl_secs,
            None => false,
        },
        None => false,
    }
}

/// A knowledge hit is never stale and never another tool's: it is the
/// response stored with some result whose metadata records the query's tool
/// (or none) and an age under the lifetime.
pub proof fn law_knowledge_hit_is_fresh(metas: Seq<JsonV>, tool: Seq<char>, now: u64, ttl_secs: u64)
    ensures
        select(metas, tool, now, ttl_secs) matches Some((r, a, b)) ==> exists|i: int|
            0 <= i < metas.len() && fresh_for(#[trigger] metas[i], tool, now, ttl_secs) && vget(metas[i], "response"@)
                == Some(r),
    decreases metas.len(),
{
    if metas.len() > 0 {
        let rest = metas.drop_first();
        law_knowledge_hit_is_fresh(rest, tool, now, ttl_secs);
        match check_result(metas[0], tool, now, ttl_secs) {
            ResultCheck::Skip => {
                if let Some((r, a, b)) = select(metas, tool, now, ttl_secs) {
                    let i = choose|i: int|
                        0 <= i < rest.len() && fresh_for(#[trigger] rest[i], tool, now, ttl_secs) && vget(rest[i], "response"@)
                            == Some(r);
                    assert(metas[i + 1] == rest[i]);
                }
            },
            ResultCheck::Stop => {},
            ResultCheck::Hit(r, a, b) => {
                assert(fresh_for(metas[0], tool, now, ttl_secs));
            },
        }
    }
}

/// The hit is the best-ranked fresh result: the response comes from a result
/// whose metadata records the query's tool (or none) and an age under the
/// lifetime, and every result ranked before it is another tool's or expired.
pub proof fn law_knowledge_hit_is_first_fresh(metas: Seq<JsonV>, tool: Seq<char>, now: u64, ttl_secs: u64)
    ensures
        select(metas, tool, now, ttl_secs) matches Some((r, a, b)) ==> exists|i: int|
            0 <= i < metas.len() && fresh_for(#[trigger] metas[i], tool, now, ttl_secs) && vget(metas[i], "response"@)
                == Some(r) && forall|j: int| 0 <= j < i ==> !fresh_for(#[trigger] metas[j], tool, now, ttl_secs),
    decreases metas.len(),
{
    if metas.len() > 0 {
        let rest = metas.drop_first();
        law_knowledge_hit_is_first_fresh(rest, tool, now, ttl_secs);
        match check_result(metas[0], tool, now, ttl_secs) {
            ResultCheck::Skip => {
                assert(!fresh_for(metas[0], tool, now, ttl_secs));
                if let Some((r, a, b)) = select(metas, tool, now, ttl_secs) {
                    let i = choose|i: int|
                        0 <= i < rest.len() && fresh_for(#[trigger] rest[i], tool, now, ttl_secs) && vget(rest[i], "response"@)
                            == Some(r) && forall|j: int| 0 <= j < i ==> !fresh_for(#[trigger] rest[j], tool, now, ttl_secs);
                    assert(metas[i + 1] == rest[i]);
                    assert forall|j: int| 0 <= j < i + 1 implies !fresh_for(#[trigger] metas[j], tool, now, ttl_secs) by {
                        if j > 0 {
                            assert(metas[j] == rest[j - 1]);
                        }
                    }
                }
            },
            ResultCheck::Stop => {},
            ResultCheck::Hit(r, a, b) => {
                assert(fresh_for(metas[0], tool, now, ttl_secs));
            },
        }
    }
}

/// The result's metadata records another tool, or an insertion time
/// `ttl_secs` or more before `now`.
pub open spec fn passed_over(meta: JsonV, tool: Seq<char>, now: u64, ttl_secs: u64) -> bool {
    ||| (vget_str(meta, "tool_name"@) is Some && vget_str(meta, "tool_name"@) != Some(tool))
    ||| match vget(meta, "inserted_at"@) {
        Some(v) => match vu64(v) {
            Some(t) => (if now >= t { now - t } else { 0 }) >= ttl_secs,
            None => false,
        },
        None => false,
    }
}

/// A fresh result that stores a response, with only other tools' or expired
/// results ranked before it, is the hit: its response is the one given, with
/// the token counts it stores (0 where one is missing).
pub proof fn law_knowledge_first_fresh_is_hit(metas: Seq<JsonV>, tool: Seq<char>, now: u64, ttl_secs: u64, i: int)
    requires
        0 <= i < metas.len(),
        forall|j: int| 0 <= j < i ==> passed_over(#[trigger] metas[j], tool, now, ttl_secs),
        fresh_for(metas[i], tool, now, ttl_secs),
        vget(metas[i], "response"@) is Some,
    ensures
        select(metas, tool, now, ttl_secs) == Some((
            vget(metas[i], "response"@)->Some_0,
            u64_or_zero(metas[i], "tokens_original"@) as usize,
            u64_or_zero(metas[i], "tokens_compressed"@) as usize,
        )),
    decreases i,
{
    if i > 0 {
        let rest = metas.drop_first();
        assert(passed_over(metas[0], tool, now, ttl_secs));
        assert forall|j: int| 0 <= j < i - 1 implies passed_over(#[trigger] rest[j], tool, now, ttl_secs) by {
            assert(rest[j] == metas[j + 1]);
        }
        assert(rest[i - 1] == metas[i]);
        law_knowledge_first_fresh_is_hit(rest, tool, now, ttl_secs, i - 1);
    }
}

} // verus!
