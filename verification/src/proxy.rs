//! The decisions of the proxy between an MCP client and its upstream server:
//! what text a `tools/call` result holds, how it is compressed and rewritten,
//! and how cache and knowledge-store hits are answered.
use vstd::prelude::*;
use crate::compress::{apply_all, chars_eq, token_estimate, tokens_saved, Pipeline};
use crate::json::{
    clone_json, field_is_str, jview, jview_fields, jview_items, lemma_jview_fields,
    lemma_jview_items, vfield, vget, vget_str, vstr, Json, JsonV,
};
use crate::metrics::{after_call, after_record, saved, Metrics, MetricsView};
use crate::protocol::{payload_view, JsonRpcResponse, PayloadV, ResponsePayload, ResponseV};
use crate::text::{join_line_vecs, join_lines, line_views, str_chars, string_from_chars};
use vstd::string::StringSliceAdditionalSpecFns;
use crate::cache::{cache_key_writes, expiry, live_entries, lookup, make_cache_key, now_secs, Cache, CacheView};
use crate::knowledge::{query_text, query_text_of};
use crate::json::{json_text, to_json_string, vstr as json_vstr};
use crate::metrics::{after_cache_hit, after_knowledge_hit};
use crate::protocol::{opt_view, JsonRpcRequest, RequestId};
use std::collections::hash_map::DefaultHasher;
use std::hash::Hasher;
use vstd::std_specs::hash::DefaultHasherAdditionalSpecFns;

verus! {

/// The number of UTF-8 bytes of a text, as `str::len` gives it.
pub open spec fn byte_len(s: Seq<char>) -> usize {
    vstd::utf8::encode_utf8(s).len() as usize
}

// ── Text content of a tool result ───────────────────────────────────────────

/// The text of a content item: its `text` string when its `type` is
/// `"text"`.
pub open spec fn item_text(item: JsonV) -> Option<Seq<char>> {
    if vget_str(item, "type"@) == Some("text"@) {
        vget_str(item, "text"@)
    } else {
        None
    }
}

/// The texts of the text items, in order.
pub open spec fn texts_of(items: Seq<JsonV>) -> Seq<Seq<char>>
    decreases items.len(),
{
    if items.len() == 0 {
        seq![]
    } else {
        let ts = texts_of(items.drop_last());
        match item_text(items.last()) {
            Some(t) => ts.push(t),
            None => ts,
        }
    }
}

/// The text of a `tools/call` result: the texts of the items of its
/// `content` array joined by `'\n'`, or `None` when there is no text item.
pub open spec fn text_content(v: JsonV) -> Option<Seq<char>> {
    match vget(v, "content"@) {
        Some(JsonV::Array(items)) => if texts_of(items).len() == 0 {
            None
        } else {
            Some(join_lines(texts_of(items)))
        },
        _ => None,
    }
}

pub(crate) fn item_text_exec(item: &Json) -> (r: Option<&String>)
    ensures
        match r {
            Some(t) => item_text(item@) == Some(t@),
            None => item_text(item@) is None,
        },
{
    if field_is_str(item.get("type"), "text") {
        match item.get("text") {
            Some(t) => t.as_str(),
            None => None,
        }
    } else {
        None
    }
}

/// Parse a raw tools/call response content into a string for compression.
pub fn extract_text_content(value: &Json) -> (r: Option<String>)
    ensures
        match r {
            Some(s) => text_content(value@) == Some(s@),
            None => text_content(value@) is None,
        },
{
    let content = match value.get("content") {
        Some(c) => c,
        None => return None,
    };
    let items = match content.as_array() {
        Some(a) => a,
        None => return None,
    };
    proof {
        lemma_jview_items(items@);
    }
    let mut texts: Vec<Vec<char>> = Vec::new();
    let mut i: usize = 0;
    while i < items.len()
        invariant
            i <= items.len(),
            jview_items(items@).len() == items@.len(),
            forall|j: int| 0 <= j < items@.len() ==> #[trigger] jview_items(items@)[j] == jview(items@[j]),
            line_views(texts@) == texts_of(jview_items(items@).take(i as int)),
        decreases items.len() - i,
    {
        let ghost iv = jview_items(items@);
        assert(iv.take(i + 1).drop_last() =~= iv.take(i as int));
        assert(iv.take(i + 1).last() == jview(items@[i as int]));
        let ghost before = line_views(texts@);
        match item_text_exec(&items[i]) {
            Some(t) => {
                texts.push(str_chars(t.as_str()));
                assert(line_views(texts@) =~= before.push(t@));
            },
            None => {},
        }
        i = i + 1;
    }
    assert(jview_items(items@).take(items.len() as int) =~= jview_items(items@));
    if texts.len() == 0 {
        None
    } else {
        Some(string_from_chars(&join_line_vecs(&texts)))
    }
}

// ── Rewriting the text items ───────────────────────────────────────────────

/// `fs` with the field `key` set to `v`: replaced in place when present,
/// appended otherwise.
pub open spec fn set_field(fs: Seq<(Seq<char>, JsonV)>, key: Seq<char>, v: JsonV) -> Seq<(Seq<char>, JsonV)>
    decreases fs.len(),
{
    if fs.len() == 0 {
        seq![(key, v)]
    } else if fs[0].0 == key {
        fs.update(0, (key, v))
    } else {
        seq![fs[0]] + set_field(fs.drop_first(), key, v)
    }
}

/// A content item with its text replaced by `text` when it is a text item.
pub open spec fn rewrite_item(item: JsonV, text: Seq<char>) -> JsonV {
    if vget_str(item, "type"@) == Some("text"@) {
        match item {
            JsonV::Object(fs) => JsonV::Object(set_field(fs, "text"@, JsonV::Str(text))),
            _ => item,
        }
    } else {
        item
    }
}

/// A `tools/call` result with the text of every text item of its `content`
/// array replaced by `text`.
pub open spec fn rewrite_content(v: JsonV, text: Seq<char>) -> JsonV {
    match v {
        JsonV::Object(fs) => match vfield(fs, "content"@) {
            Some(JsonV::Array(items)) => JsonV::Object(
                set_field(fs, "content"@, JsonV::Array(text_once(items, text))),
            ),
            _ => v,
        },
        _ => v,
    }
}

/// The items with the first text item holding `text` and the other text
/// items dropped; the items without text stay as they are.
pub open spec fn text_once(items: Seq<JsonV>, text: Seq<char>) -> Seq<JsonV>
    decreases items.len(),
{
    if items.len() == 0 {
        seq![]
    } else {
        let prev = text_once(items.drop_last(), text);
        let it = items.last();
        if item_text(it) is Some {
            if texts_of(items.drop_last()).len() == 0 {
                prev.push(rewrite_item(it, text))
            } else {
                prev
            }
        } else {
            prev.push(it)
        }
    }
}

pub proof fn lemma_set_field_found(fs: Seq<(Seq<char>, JsonV)>, key: Seq<char>, v: JsonV, i: int)
    requires
        0 <= i < fs.len(),
        fs[i].0 == key,
        forall|j: int| 0 <= j < i ==> (#[trigger] fs[j]).0 != key,
    ensures
        set_field(fs, key, v) == fs.update(i, (key, v)),
        vfield(fs, key) == Some(fs[i].1),
    decreases i,
{
    if i > 0 {
        let rest = fs.drop_first();
        assert forall|j: int| 0 <= j < i - 1 implies (#[trigger] rest[j]).0 != key by {
            assert(rest[j] == fs[j + 1]);
        }
        assert(fs[0].0 != key);
        lemma_set_field_found(rest, key, v, i - 1);
        assert(seq![fs[0]] + rest.update(i - 1, (key, v)) =~= fs.update(i, (key, v)));
    }
}

pub proof fn lemma_set_field_missing(fs: Seq<(Seq<char>, JsonV)>, key: Seq<char>, v: JsonV)
    requires
        forall|j: int| 0 <= j < fs.len() ==> (#[trigger] fs[j]).0 != key,
    ensures
        set_field(fs, key, v) == fs.push((key, v)),
        vfield(fs, key) is None,
    decreases fs.len(),
{
    if fs.len() > 0 {
        let rest = fs.drop_first();
        assert forall|j: int| 0 <= j < rest.len() implies (#[trigger] rest[j]).0 != key by {
            assert(rest[j] == fs[j + 1]);
        }
        assert(fs[0].0 != key);
        lemma_set_field_missing(rest, key, v);
        assert(seq![fs[0]] + rest.push((key, v)) =~= fs.push((key, v)));
    }
}

/// `fields` with the field `key` set to `v`.
pub(crate) fn set_field_exec(input: Vec<(String, Json)>, key: &str, v: Json) -> (r: Vec<(String, Json)>)
    ensures
        jview_fields(r@) == set_field(jview_fields(input@), key@, v@),
{
    let mut fields = input;
    proof {
        lemma_jview_fields(fields@);
    }
    let k = str_chars(key);
    let mut i: usize = 0;
    while i < fields.len()
        invariant
            i <= fields.len(),
            k@ == key@,
            fields@ == input@,
            forall|j: int| 0 <= j < i ==> (#[trigger] fields@[j]).0@ != key@,
        decreases fields.len() - i,
    {
        if chars_eq(&str_chars(fields[i].0.as_str()), &k) {
            let ghost old_fields = fields@;
            fields.set(i, (key.to_owned(), v));
            proof {
                lemma_jview_fields(old_fields);
                let fv = jview_fields(old_fields);
                assert forall|j: int| 0 <= j < i implies (#[trigger] fv[j]).0 != key@ by {
                    assert(fv[j] == (old_fields[j].0@, jview(old_fields[j].1)));
                }
                lemma_set_field_found(fv, key@, v@, i as int);
                lemma_jview_fields(fields@);
                assert(jview_fields(fields@) =~= fv.update(i as int, (key@, v@)));
            }
            return fields;
        }
        i = i + 1;
    }
    let ghost old_fields = fields@;
    fields.push((key.to_owned(), v));
    proof {
        lemma_jview_fields(old_fields);
        let fv = jview_fields(old_fields);
        assert forall|j: int| 0 <= j < fv.len() implies (#[trigger] fv[j]).0 != key@ by {
            assert(fv[j] == (old_fields[j].0@, jview(old_fields[j].1)));
        }
        lemma_set_field_missing(fv, key@, v@);
        lemma_jview_fields(fields@);
        assert(jview_fields(fields@) =~= fv.push((key@, v@)));
    }
    fields
}

/// A content item with its text replaced when it is a text item.
pub(crate) fn rewrite_item_exec(item: &Json, text: &String) -> (r: Json)
    ensures
        r@ == rewrite_item(item@, text@),
{
    if field_is_str(item.get("type"), "text") {
        match item {
            Json::Object(fs) => {
                let copy = clone_json(item);
                match copy {
                    Json::Object(fields) => Json::Object(
                        set_field_exec(fields, "text", Json::Str(text.clone())),
                    ),
                    _ => copy,
                }
            },
            _ => clone_json(item),
        }
    } else {
        clone_json(item)
    }
}

/// The result `value` with every text item of `content` set to `text`.
pub fn rewrite_content_exec(value: &Json, text: &String) -> (r: Json)
    ensures
        r@ == rewrite_content(value@, text@),
{
    let items = match value.get("content") {
        Some(c) => match c.as_array() {
            Some(a) => a,
            None => return clone_json(value),
        },
        None => return clone_json(value),
    };
    proof {
        lemma_jview_items(items@);
    }
    let ghost iv = jview_items(items@);
    let mut new_items: Vec<Json> = Vec::new();
    let mut placed = false;
    let mut i: usize = 0;
    while i < items.len()
        invariant
            i <= items.len(),
            iv == jview_items(items@),
            iv.len() == items@.len(),
            forall|j: int| 0 <= j < items@.len() ==> #[trigger] iv[j] == jview(items@[j]),
            placed == (texts_of(iv.take(i as int)).len() > 0),
            jview_items(new_items@) == text_once(iv.take(i as int), text@),
        decreases items.len() - i,
    {
        assert(iv.take(i + 1).drop_last() =~= iv.take(i as int));
        assert(iv.take(i + 1).last() == iv[i as int]);
        let ghost before = new_items@;
        match item_text_exec(&items[i]) {
            Some(_) => {
                if !placed {
                    new_items.push(rewrite_item_exec(&items[i], text));
                    assert(new_items@.drop_last() =~= before);
                    placed = true;
                }
            },
            None => {
                new_items.push(clone_json(&items[i]));
                assert(new_items@.drop_last() =~= before);
            },
        }
        assert(jview_items(new_items@) =~= text_once(iv.take(i + 1), text@));
        i = i + 1;
    }
    assert(iv.take(items.len() as int) =~= iv);
    let copy = clone_json(value);
    match copy {
        Json::Object(fields) => Json::Object(set_field_exec(fields, "content", Json::Array(new_items))),
        _ => copy,
    }
}

// ── Compression of a tools/call response ───────────────────────────────────

/// What compression makes of a `tools/call` response: when its result has
/// text content that compresses to fewer estimated tokens, the text items are
/// replaced by the compressed text; otherwise the response is unchanged.
pub open spec fn intercepted(resp: ResponseV, p: Seq<crate::compress::Strategy>) -> ResponseV {
    match resp.payload {
        PayloadV::Result(v) => match text_content(v) {
            Some(original) => {
                let compressed = apply_all(p, original);
                if saved(token_estimate(byte_len(original) as nat), token_estimate(byte_len(compressed) as nat))
                    == 0 {
                    resp
                } else {
                    ResponseV { payload: PayloadV::Result(rewrite_content(v, compressed)), ..resp }
                }
            },
            None => resp,
        },
        _ => resp,
    }
}

/// How the counters change when a `tools/call` response passes through
/// compression: a text result records its original and compressed sizes, a
/// result without text counts one call, an error result changes nothing.
pub open spec fn metrics_after_intercept(m: MetricsView, resp: ResponseV, p: Seq<crate::compress::Strategy>) -> MetricsView {
    match resp.payload {
        PayloadV::Result(v) => match text_content(v) {
            Some(original) => after_record(m, byte_len(original) as nat, byte_len(apply_all(p, original)) as nat),
            None => after_call(m),
        },
        _ => m,
    }
}

/// Intercept tools/call responses and compress text content.
pub fn intercept_tools_call(pipeline: &Pipeline, metrics: &mut Metrics, resp: JsonRpcResponse) -> (r: JsonRpcResponse)
    ensures
        r@ == intercepted(resp@, pipeline@),
        final(metrics)@ == metrics_after_intercept(old(metrics)@, resp@, pipeline@),
{
    let original = match &resp.payload {
        ResponsePayload::Result(value) => match extract_text_content(value) {
            Some(t) => t,
            None => {
                metrics.record_call();
                return resp;
            },
        },
        ResponsePayload::Error(_) => return resp,
    };
    let compressed = pipeline.compress(original.as_str());
    let saved_tokens = tokens_saved(original.as_str(), compressed.as_str());
    metrics.record(original.as_str(), compressed.as_str());
    if saved_tokens == 0 {
        return resp;
    }
    let new_value = match &resp.payload {
        ResponsePayload::Result(value) => rewrite_content_exec(value, &compressed),
        ResponsePayload::Error(_) => return resp,
    };
    JsonRpcResponse { jsonrpc: resp.jsonrpc, id: resp.id, payload: ResponsePayload::Result(new_value) }
}

// ── Keys of a tools/call request ────────────────────────────────────────────

/// The tool named by `tools/call` parameters and its arguments (`null` when
/// absent); `None` when the parameters hold no string `name`.
pub open spec fn tool_call_target(params: Option<JsonV>) -> Option<(Seq<char>, JsonV)> {
    match params {
        Some(p) => match vget_str(p, "name"@) {
            Some(name) => Some(
                (
                    name,
                    match vget(p, "arguments"@) {
                        Some(a) => a,
                        None => JsonV::Null,
                    },
                ),
            ),
            None => None,
        },
        None => None,
    }
}

/// The cache key of a `tools/call` request with these parameters.
pub open spec fn tool_cache_key(params: Option<JsonV>) -> Option<u64> {
    match tool_call_target(params) {
        Some((name, args)) => Some(DefaultHasher::spec_finish(cache_key_writes(name, args))),
        None => None,
    }
}

/// The query text of a `tools/call` request with these parameters.
pub open spec fn tool_query_text(params: Option<JsonV>) -> Option<Seq<char>> {
    match tool_call_target(params) {
        Some((name, args)) => Some(query_text_of(name, args)),
        None => None,
    }
}

/// The tool name and arguments of a `tools/call` request.
fn call_target(req: &JsonRpcRequest) -> (r: Option<(&String, Json)>)
    ensures
        match r {
            Some((name, args)) => tool_call_target(opt_view(req.params)) == Some((name@, args@)),
            None => tool_call_target(opt_view(req.params)) is None,
        },
{
    let params = match &req.params {
        Some(p) => p,
        None => return None,
    };
    let name = match params.get("name") {
        Some(n) => match n.as_str() {
            Some(s) => s,
            None => return None,
        },
        None => return None,
    };
    let args = match params.get("arguments") {
        Some(a) => clone_json(a),
        None => Json::Null,
    };
    Some((name, args))
}

/// Compute a cache key from a tools/call request's tool name and arguments.
pub fn tools_call_cache_key(req: &JsonRpcRequest) -> (r: Option<u64>)
    ensures
        r == tool_cache_key(opt_view(req.params)),
{
    match call_target(req) {
        Some((name, args)) => Some(make_cache_key(name.as_str(), &args)),
        None => None,
    }
}

/// Build the query text used as the semantic key for a tools/call request.
pub fn tools_call_query_text(req: &JsonRpcRequest) -> (r: Option<String>)
    ensures
        match r {
            Some(q) => tool_query_text(opt_view(req.params)) == Some(q@),
            None => tool_query_text(opt_view(req.params)) is None,
        },
{
    match call_target(req) {
        Some((name, args)) => Some(query_text(name.as_str(), &args)),
        None => None,
    }
}

// ── The proxy's own state ──────────────────────────────────────────────────

/// What the proxy keeps besides its connection to the upstream server: the
/// compression pipeline, the session metrics and the optional cache.
pub struct ProxyState {
    pipeline: Pipeline,
    metrics: Metrics,
    cache: Option<Cache>,
}

pub struct ProxyView {
    pub pipeline: Seq<crate::compress::Strategy>,
    pub metrics: MetricsView,
    pub cache: Option<CacheView>,
}

pub open spec fn cache_view(c: Option<Cache>) -> Option<CacheView> {
    match c {
        Some(x) => Some(x@),
        None => None,
    }
}

impl View for ProxyState {
    type V = ProxyView;

    closed spec fn view(&self) -> ProxyView {
        ProxyView { pipeline: self.pipeline@, metrics: self.metrics@, cache: cache_view(self.cache) }
    }
}

/// `resp` answering the request with id `id`.
pub open spec fn with_id(resp: ResponseV, id: RequestId) -> ResponseV {
    ResponseV { id: id, ..resp }
}

/// The cached reply to a `tools/call` request at time `now`: the live cache
/// entry for its key, answered under the request's id, with its token sizes.
pub open spec fn cached_reply(c: Option<CacheView>, params: Option<JsonV>, id: RequestId, now: u64) -> Option<(ResponseV, usize, usize)> {
    match (c, tool_cache_key(params)) {
        (Some(cv), Some(key)) => match lookup(cv.entries, key, now) {
            Some(e) => Some((with_id(e.response@, id), e.tokens_original, e.tokens_compressed)),
            None => None,
        },
        _ => None,
    }
}

/// The cache after storing `resp` for `key` at `now`: expired entries gone,
/// the entry for `key` holding the response, its expiry and token sizes.
pub open spec fn cache_after_store(old: CacheView, new: CacheView, key: u64, resp: ResponseV, tokens_original: usize, tokens_compressed: usize, now: u64) -> bool {
    let kept = live_entries(old.entries, now);
    &&& new.ttl_secs == old.ttl_secs
    &&& new.entries.dom() == kept.dom().insert(key)
    &&& forall|k: u64| #[trigger] new.entries.contains_key(k) && k != key ==> new.entries[k] == kept[k]
    &&& new.entries[key].response@ == resp
    &&& new.entries[key].expires_at == expiry(now, old.ttl_secs)
    &&& new.entries[key].tokens_original == tokens_original
    &&& new.entries[key].tokens_compressed == tokens_compressed
}

impl ProxyState {
    /// The state of a freshly spawned proxy: the default pipeline, zero
    /// metrics, no cache.
    pub fn new() -> (s: Self)
        ensures
            s@.pipeline == crate::compress::default_strategies(),
            s@.metrics == Metrics::new_view(),
            s@.cache is None,
    {
        ProxyState { pipeline: Pipeline::default_pipeline(), metrics: Metrics::new(), cache: None }
    }

    /// The state of a proxy whose pipeline follows the `[compression]`
    /// settings: zero metrics, no cache.
    pub fn from_compression(c: &crate::config::CompressionConfig) -> (s: Self)
        ensures
            s@.pipeline == crate::compress::configured_strategies(*c),
            s@.metrics == Metrics::new_view(),
            s@.cache is None,
    {
        ProxyState { pipeline: Pipeline::from_config(c), metrics: Metrics::new(), cache: None }
    }

    /// Enable TTL caching for `tools/call` results with `cache`.
    pub fn with_cache(self, cache: Cache) -> (s: Self)
        ensures
            s@ == (ProxyView { cache: Some(cache@), ..self@ }),
    {
        ProxyState { cache: Some(cache), ..self }
    }

    pub fn metrics(&self) -> (m: &Metrics)
        ensures
            m@ == self@.metrics,
    {
        &self.metrics
    }

    pub fn cache(&self) -> (c: Option<&Cache>)
        ensures
            match c {
                Some(x) => self@.cache == Some(x@),
                None => self@.cache is None,
            },
    {
        match &self.cache {
            Some(c) => Some(c),
            None => None,
        }
    }

    /// Drop the expired cache entries (before the cache is saved).
    pub fn evict_expired_cache_at(&mut self, now: u64)
        ensures
            final(self)@.pipeline == old(self)@.pipeline,
            final(self)@.metrics == old(self)@.metrics,
            match old(self)@.cache {
                Some(c) => final(self)@.cache == Some(CacheView { entries: live_entries(c.entries, now), ..c }),
                None => final(self)@.cache is None,
            },
    {
        match &mut self.cache {
            Some(c) => c.evict_expired_at(now),
            None => {},
        }
    }

    /// Drop the expired cache entries at the current time.
    pub fn evict_expired_cache(&mut self)
        ensures
            final(self)@.pipeline == old(self)@.pipeline,
            final(self)@.metrics == old(self)@.metrics,
            match old(self)@.cache {
                Some(c) => exists|now: u64| final(self)@.cache == Some(CacheView { entries: live_entries(c.entries, now), ..c }),
                None => final(self)@.cache is None,
            },
    {
        self.evict_expired_cache_at(now_secs());
    }

    /// Return a cached response and its token sizes for this tools/call
    /// request.
    fn cache_get_at(&self, req: &JsonRpcRequest, now: u64) -> (r: Option<(JsonRpcResponse, usize, usize)>)
        ensures
            match r {
                Some((resp, tin, tout)) => cached_reply(self@.cache, opt_view(req.params), req.id, now) == Some((resp@, tin, tout)),
                None => cached_reply(self@.cache, opt_view(req.params), req.id, now) is None,
            },
    {
        let key = match tools_call_cache_key(req) {
            Some(k) => k,
            None => return None,
        };
        let cache = match &self.cache {
            Some(c) => c,
            None => return None,
        };
        let cached = match cache.get_at(key, now) {
            Some(r) => r,
            None => return None,
        };
        let mut resp = cached.clone();
        resp.id = req.id.clone();
        let (tok_in, tok_out) = match cache.get_tokens_at(key, now) {
            Some(t) => t,
            None => (0, 0),
        };
        Some((resp, tok_in, tok_out))
    }

    /// Layer 1 of a `tools/call`: the exact TTL cache at time `now`. On a hit
    /// the cached response answers the request and counts as a cache hit.
    pub fn serve_from_cache_at(&mut self, req: &JsonRpcRequest, now: u64) -> (r: Option<JsonRpcResponse>)
        ensures
            final(self)@.pipeline == old(self)@.pipeline,
            final(self)@.cache == old(self)@.cache,
            match cached_reply(old(self)@.cache, opt_view(req.params), req.id, now) {
                Some((resp, tin, tout)) => r matches Some(x) && x@ == resp
                    && final(self)@.metrics == after_cache_hit(old(self)@.metrics, tin, tout),
                None => r is None && final(self)@.metrics == old(self)@.metrics,
            },
    {
        match self.cache_get_at(req, now) {
            Some((cached, tok_in, tok_out)) => {
                self.metrics.record_cache_hit_with_tokens(tok_in, tok_out);
                Some(cached)
            },
            None => None,
        }
    }

    /// Layer 1 of a `tools/call` at the current time.
    pub fn serve_from_cache(&mut self, req: &JsonRpcRequest) -> (r: Option<JsonRpcResponse>)
        ensures
            final(self)@.pipeline == old(self)@.pipeline,
            final(self)@.cache == old(self)@.cache,
            exists|now: u64| #![trigger cached_reply(old(self)@.cache, opt_view(req.params), req.id, now)] match cached_reply(old(self)@.cache, opt_view(req.params), req.id, now) {
                Some((resp, tin, tout)) => r matches Some(x) && x@ == resp
                    && final(self)@.metrics == after_cache_hit(old(self)@.metrics, tin, tout),
                None => r is None && final(self)@.metrics == old(self)@.metrics,
            },
    {
        self.serve_from_cache_at(req, now_secs())
    }

    /// Layer 2 of a `tools/call`: a knowledge-store hit answers the request
    /// under its id and counts as a knowledge hit.
    pub fn serve_knowledge_hit(&mut self, req: &JsonRpcRequest, resp: JsonRpcResponse, tokens_original: usize, tokens_compressed: usize) -> (r: JsonRpcResponse)
        ensures
            r@ == with_id(resp@, req.id),
            final(self)@ == (ProxyView {
                metrics: after_knowledge_hit(old(self)@.metrics, tokens_original, tokens_compressed),
                ..old(self)@
            }),
    {
        let mut resp = resp;
        resp.id = req.id.clone();
        self.metrics.record_knowledge_hit_with_tokens(tokens_original, tokens_compressed);
        resp
    }

    /// Store a tools/call response in the cache with its token sizes.
    fn cache_insert_at(&mut self, req: &JsonRpcRequest, resp: JsonRpcResponse, tokens_original: usize, tokens_compressed: usize, now: u64)
        ensures
            final(self)@.pipeline == old(self)@.pipeline,
            final(self)@.metrics == old(self)@.metrics,
            match (old(self)@.cache, tool_cache_key(opt_view(req.params))) {
                (Some(c), Some(key)) => final(self)@.cache matches Some(c2) && cache_after_store(c, c2, key, resp@, tokens_original, tokens_compressed, now),
                _ => final(self)@.cache == old(self)@.cache,
            },
    {
        let key = tools_call_cache_key(req);
        match (&mut self.cache, key) {
            (Some(cache), Some(k)) => {
                cache.evict_expired_at(now);
                let ghost kept = cache@;
                cache.insert_at(k, resp, tokens_original, tokens_compressed, now);
            },
            _ => {},
        }
    }

    /// The last step of a `tools/call` answered upstream at time `now`: the
    /// response is compressed, counted and stored in the cache. Returns the
    /// response and the tokens it added to the session's in and out counters.
    pub fn finish_tools_call_at(&mut self, req: &JsonRpcRequest, response: Option<JsonRpcResponse>, now: u64) -> (r: (Option<JsonRpcResponse>, usize, usize))
        ensures
            final(self)@.pipeline == old(self)@.pipeline,
            match response {
                Some(x) => {
                    &&& r.0 matches Some(y) && y@ == intercepted(x@, old(self)@.pipeline)
                    &&& final(self)@.metrics == metrics_after_intercept(old(self)@.metrics, x@, old(self)@.pipeline)
                    &&& match (old(self)@.cache, tool_cache_key(opt_view(req.params))) {
                        (Some(c), Some(key)) => final(self)@.cache matches Some(c2) && cache_after_store(c, c2, key, intercepted(x@, old(self)@.pipeline), r.1, r.2, now),
                        _ => final(self)@.cache == old(self)@.cache,
                    }
                },
                None => r.0 is None && final(self)@.metrics == old(self)@.metrics && final(self)@.cache == old(self)@.cache,
            },
            r.1 == final(self)@.metrics.tokens_in.wrapping_sub(old(self)@.metrics.tokens_in),
            r.2 == final(self)@.metrics.tokens_out.wrapping_sub(old(self)@.metrics.tokens_out),
    {
        let tok_in_before = self.metrics.tokens_in();
        let tok_out_before = self.metrics.tokens_out();
        let result = match response {
            Some(resp) => Some(intercept_tools_call(&self.pipeline, &mut self.metrics, resp)),
            None => None,
        };
        let tok_in = self.metrics.tokens_in().wrapping_sub(tok_in_before);
        let tok_out = self.metrics.tokens_out().wrapping_sub(tok_out_before);
        match &result {
            Some(resp) => {
                self.cache_insert_at(req, resp.clone(), tok_in, tok_out, now);
            },
            None => {},
        }
        (result, tok_in, tok_out)
    }

    /// The last step of a `tools/call` answered upstream, at the current time.
    pub fn finish_tools_call(&mut self, req: &JsonRpcRequest, response: Option<JsonRpcResponse>) -> (r: (Option<JsonRpcResponse>, usize, usize))
        ensures
            final(self)@.pipeline == old(self)@.pipeline,
            match response {
                Some(x) => {
                    &&& r.0 matches Some(y) && y@ == intercepted(x@, old(self)@.pipeline)
                    &&& final(self)@.metrics == metrics_after_intercept(old(self)@.metrics, x@, old(self)@.pipeline)
                },
                None => r.0 is None && final(self)@.metrics == old(self)@.metrics && final(self)@.cache == old(self)@.cache,
            },
            r.1 == final(self)@.metrics.tokens_in.wrapping_sub(old(self)@.metrics.tokens_in),
            r.2 == final(self)@.metrics.tokens_out.wrapping_sub(old(self)@.metrics.tokens_out),
    {
        self.finish_tools_call_at(req, response, now_secs())
    }
}


/// A stored `tools/call` result answers every later call with the same tool
/// and arguments while it lives: from the time it is stored until its
/// expiry, the cache replies with the stored response under the new
/// request's id and with the stored token sizes; from its expiry on, the
/// cache has no reply for it.
pub proof fn law_identical_call_served_from_cache(
    old_cache: CacheView,
    new_cache: CacheView,
    key: u64,
    resp: ResponseV,
    tokens_original: usize,
    tokens_compressed: usize,
    now: u64,
    params: Option<JsonV>,
    id: RequestId,
    t: u64,
)
    requires
        cache_after_store(old_cache, new_cache, key, resp, tokens_original, tokens_compressed, now),
        tool_cache_key(params) == Some(key),
    ensures
        t < expiry(now, old_cache.ttl_secs) ==> cached_reply(Some(new_cache), params, id, t) == Some(
            (with_id(resp, id), tokens_original, tokens_compressed),
        ),
        t >= expiry(now, old_cache.ttl_secs) ==> cached_reply(Some(new_cache), params, id, t) is None,
{
    assert(new_cache.entries.dom().contains(key));
}


/// Reading a field after setting one: the set field holds the new value,
/// every other field reads as before.
pub proof fn lemma_set_field_get(fs: Seq<(Seq<char>, JsonV)>, key: Seq<char>, v: JsonV, k2: Seq<char>)
    ensures
        vfield(set_field(fs, key, v), k2) == if k2 == key {
            Some(v)
        } else {
            vfield(fs, k2)
        },
    decreases fs.len(),
{
    if fs.len() > 0 && fs[0].0 != key {
        lemma_set_field_get(fs.drop_first(), key, v, k2);
        let r = set_field(fs, key, v);
        assert(r[0] == fs[0]);
        assert(r.drop_first() =~= set_field(fs.drop_first(), key, v));
    } else if fs.len() > 0 {
        let r = set_field(fs, key, v);
        assert(r.drop_first() =~= fs.drop_first());
    } else {
        let r = set_field(fs, key, v);
        assert(r == seq![(key, v)]);
        assert(r.drop_first() =~= Seq::<(Seq<char>, JsonV)>::empty());
        assert(vfield(r.drop_first(), k2) is None);
    }
}

/// A rewritten text item holds the new text.
proof fn lemma_rewrite_item_text(item: JsonV, text: Seq<char>)
    requires
        item_text(item) is Some,
    ensures
        item_text(rewrite_item(item, text)) == Some(text),
{
    reveal_strlit("type");
    reveal_strlit("text");
    assert("type"@[1] != "text"@[1]);
    match item {
        JsonV::Object(fs) => {
            lemma_set_field_get(fs, "text"@, JsonV::Str(text), "type"@);
            lemma_set_field_get(fs, "text"@, JsonV::Str(text), "text"@);
        },
        _ => {},
    }
}

/// After the rewrite the text items hold the new text exactly once.
proof fn lemma_texts_once(items: Seq<JsonV>, text: Seq<char>)
    ensures
        texts_of(text_once(items, text)) == if texts_of(items).len() == 0 {
            Seq::<Seq<char>>::empty()
        } else {
            seq![text]
        },
    decreases items.len(),
{
    if items.len() > 0 {
        let prev = items.drop_last();
        lemma_texts_once(prev, text);
        let it = items.last();
        let p = text_once(prev, text);
        if item_text(it) is Some {
            if texts_of(prev).len() == 0 {
                lemma_rewrite_item_text(it, text);
                assert(p.push(rewrite_item(it, text)).drop_last() =~= p);
            }
        } else {
            assert(p.push(it).drop_last() =~= p);
        }
    }
}

/// Compressed text is not repeated: after the rewrite, the text content of
/// a result that had text is exactly the new text.
pub proof fn law_rewritten_text_appears_once(v: JsonV, text: Seq<char>)
    requires
        text_content(v) is Some,
    ensures
        text_content(rewrite_content(v, text)) == Some(text),
{
    match v {
        JsonV::Object(fs) => match vfield(fs, "content"@) {
            Some(JsonV::Array(items)) => {
                lemma_texts_once(items, text);
                lemma_set_field_get(fs, "content"@, JsonV::Array(text_once(items, text)), "content"@);
                assert(join_lines(seq![text]) == text);
            },
            _ => {},
        },
        _ => {},
    }
}

} // verus!
