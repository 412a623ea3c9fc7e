//! The `[Code Context]` block: code chunks found by semantic search, shown as
//! a compact preview to prepend to a tool response.
use vstd::prelude::*;
use crate::json::{clone_json, jview, jview_items, lemma_jview_items, vfield, Json, JsonV};
use crate::protocol::{JsonRpcResponse, PayloadV, ResponsePayload, ResponseV};
use crate::proxy::{item_text, item_text_exec, rewrite_item, rewrite_item_exec, set_field, set_field_exec};
use crate::text::{
    append_chars, decimal, decimal_chars, join_line_vecs, join_lines, line_views, lines,
    split_lines, str_chars, string_from_chars, take_vec,
};

verus! {

/// A code chunk as the context block shows it.
#[derive(Debug)]
pub struct CodeChunk {
    /// The function or item name, if the chunk has one.
    pub name: Option<String>,
    /// The file the chunk comes from, as displayed.
    pub path: String,
    /// The language, in lower case (`rust`, `python`, ...).
    pub language: String,
    pub start_line: usize,
    pub end_line: usize,
    pub content: String,
}

/// How many lines of a chunk's content the preview shows.
pub const PREVIEW_LINES: usize = 6;

/// `// <name> — <path>:<start>–<end> (<language>)`.
pub open spec fn chunk_header(c: CodeChunk) -> Seq<char> {
    let name = match c.name {
        Some(n) => n@,
        None => "(unnamed)"@,
    };
    "// "@ + name + " — "@ + c.path@ + ":"@ + decimal(c.start_line as nat) + "–"@ + decimal(
        c.end_line as nat,
    ) + " ("@ + c.language@ + ")"@
}

/// The first lines of the chunk's content.
pub open spec fn chunk_preview(c: CodeChunk) -> Seq<char> {
    let ls = lines(c.content@);
    let n = if ls.len() < PREVIEW_LINES { ls.len() as int } else { PREVIEW_LINES as int };
    join_lines(ls.take(n))
}

/// The lines of the block: a title, then for each chunk its header, its
/// preview and an empty line.
pub open spec fn context_lines(chunks: Seq<CodeChunk>) -> Seq<Seq<char>>
    decreases chunks.len(),
{
    if chunks.len() == 0 {
        seq!["[Code Context]"@]
    } else {
        let c = chunks.last();
        context_lines(chunks.drop_last()) + seq![chunk_header(c), chunk_preview(c), seq![]]
    }
}

fn chunk_header_exec(c: &CodeChunk) -> (r: Vec<char>)
    ensures
        r@ == chunk_header(*c),
{
    let mut out = str_chars("// ");
    match &c.name {
        Some(n) => append_chars(&mut out, &str_chars(n.as_str())),
        None => append_chars(&mut out, &str_chars("(unnamed)")),
    }
    append_chars(&mut out, &str_chars(" — "));
    append_chars(&mut out, &str_chars(c.path.as_str()));
    append_chars(&mut out, &str_chars(":"));
    append_chars(&mut out, &decimal_chars(c.start_line));
    append_chars(&mut out, &str_chars("–"));
    append_chars(&mut out, &decimal_chars(c.end_line));
    append_chars(&mut out, &str_chars(" ("));
    append_chars(&mut out, &str_chars(c.language.as_str()));
    append_chars(&mut out, &str_chars(")"));
    out
}

fn chunk_preview_exec(c: &CodeChunk) -> (r: Vec<char>)
    ensures
        r@ == chunk_preview(*c),
{
    let all = split_lines(&str_chars(c.content.as_str()));
    let n = if all.len() < PREVIEW_LINES { all.len() } else { PREVIEW_LINES };
    let mut kept: Vec<Vec<char>> = Vec::new();
    let mut i: usize = 0;
    while i < n
        invariant
            i <= n,
            n <= all.len(),
            kept@.len() == i,
            line_views(kept@) == line_views(all@).take(i as int),
        decreases n - i,
    {
        let ghost before = kept@;
        let line = take_vec(&all[i], all[i].len());
        assert(line@ =~= all@[i as int]@);
        kept.push(line);
        assert(kept@.drop_last() =~= before);
        i = i + 1;
        assert(line_views(kept@) =~= line_views(all@).take(i as int));
    }
    join_line_vecs(&kept)
}

/// Format `chunks` as a compact `[Code Context]` block suitable for
/// prepending to an MCP tool response.
pub fn format_code_context(chunks: &Vec<CodeChunk>) -> (r: String)
    ensures
        r@ == join_lines(context_lines(chunks@)),
{
    let mut out: Vec<Vec<char>> = Vec::new();
    out.push(str_chars("[Code Context]"));
    let mut i: usize = 0;
    while i < chunks.len()
        invariant
            i <= chunks.len(),
            line_views(out@) == context_lines(chunks@.take(i as int)),
        decreases chunks.len() - i,
    {
        proof {
            assert(chunks@.take(i + 1).drop_last() =~= chunks@.take(i as int));
        }
        let ghost before = out@;
        out.push(chunk_header_exec(&chunks[i]));
        out.push(chunk_preview_exec(&chunks[i]));
        out.push(Vec::new());
        proof {
            assert(line_views(out@) =~= line_views(before) + seq![
                chunk_header(chunks@[i as int]),
                chunk_preview(chunks@[i as int]),
                seq![],
            ]);
        }
        i = i + 1;
    }
    assert(chunks@.take(chunks.len() as int) =~= chunks@);
    string_from_chars(&join_line_vecs(&out))
}


// ── Injecting the block into a tool result ─────────────────────────────────

/// The position of the first text item (a `"text"`-typed item with a string
/// `text`).
pub open spec fn first_text_item(items: Seq<JsonV>) -> Option<int>
    decreases items.len(),
{
    if items.len() == 0 {
        None
    } else if item_text(items[0]) is Some {
        Some(0)
    } else {
        match first_text_item(items.drop_first()) {
            Some(j) => Some(j + 1),
            None => None,
        }
    }
}

/// The context block put before a text.
pub open spec fn with_context(block: Seq<char>, text: Seq<char>) -> Seq<char> {
    block + "\n\n"@ + text
}

/// The items with the context block put before the first text item's text.
pub open spec fn inject_items(items: Seq<JsonV>, block: Seq<char>) -> Seq<JsonV> {
    match first_text_item(items) {
        Some(i) => items.update(i, rewrite_item(items[i], with_context(block, item_text(items[i])->0))),
        None => items,
    }
}

/// A `tools/call` result with the block put before its first text item.
pub open spec fn inject_context(v: JsonV, block: Seq<char>) -> JsonV {
    match v {
        JsonV::Object(fs) => match vfield(fs, "content"@) {
            Some(JsonV::Array(items)) => JsonV::Object(set_field(fs, "content"@, JsonV::Array(inject_items(items, block)))),
            _ => v,
        },
        _ => v,
    }
}

proof fn lemma_first_text_item(items: Seq<JsonV>, i: int)
    requires
        0 <= i <= items.len(),
        forall|j: int| 0 <= j < i ==> item_text(#[trigger] items[j]) is None,
    ensures
        i < items.len() && item_text(items[i]) is Some ==> first_text_item(items) == Some(i),
        i == items.len() ==> first_text_item(items) is None,
    decreases i,
{
    if i > 0 {
        let rest = items.drop_first();
        assert forall|j: int| 0 <= j < i - 1 implies item_text(#[trigger] rest[j]) is None by {
            assert(rest[j] == items[j + 1]);
        }
        assert(item_text(items[0]) is None);
        lemma_first_text_item(rest, i - 1);
    }
}

proof fn lemma_first_text_item_props(items: Seq<JsonV>)
    ensures
        match first_text_item(items) {
            Some(i) => 0 <= i < items.len() && item_text(items[i]) is Some && forall|j: int|
                0 <= j < i ==> item_text(#[trigger] items[j]) is None,
            None => forall|j: int| 0 <= j < items.len() ==> item_text(#[trigger] items[j]) is None,
        },
    decreases items.len(),
{
    if items.len() > 0 {
        let rest = items.drop_first();
        lemma_first_text_item_props(rest);
        if item_text(items[0]) is None {
            match first_text_item(rest) {
                Some(i) => {
                    assert forall|j: int| 0 <= j < i + 1 implies item_text(#[trigger] items[j]) is None by {
                        if j > 0 {
                            assert(items[j] == rest[j - 1]);
                        }
                    }
                },
                None => {
                    assert forall|j: int| 0 <= j < items.len() implies item_text(#[trigger] items[j]) is None by {
                        if j > 0 {
                            assert(items[j] == rest[j - 1]);
                        }
                    }
                },
            }
        }
    }
}

/// The result `value` with `block` put before the text of its first text
/// item.
fn inject_value(value: &Json, block: &Vec<char>) -> (r: Json)
    ensures
        r@ == inject_context(value@, block@),
{
    let items = match value.get("content") {
        Some(c) => match c.as_array() {
            Some(a) => a,
            None => return clone_json(value),
        },
        None => return clone_json(value),
    };
    proof {
        lemma_jview_items(items@);
    }
    let ghost iv = jview_items(items@);
    let mut new_items: Vec<Json> = Vec::new();
    let mut found = false;
    let mut i: usize = 0;
    while i < items.len()
        invariant
            i <= items.len(),
            iv == jview_items(items@),
            iv.len() == items@.len(),
            forall|j: int| 0 <= j < items@.len() ==> #[trigger] iv[j] == jview(items@[j]),
            new_items@.len() == i,
            !found ==> forall|j: int| 0 <= j < i ==> item_text(#[trigger] iv[j]) is None,
            !found ==> jview_items(new_items@) == iv.take(i as int),
            found ==> jview_items(new_items@) == inject_items(iv, block@).take(i as int),
            found ==> first_text_item(iv) is Some && first_text_item(iv)->0 < i,
        decreases items.len() - i,
    {
        let ghost before = new_items@;
        let ghost was_found = found;
        proof {
            lemma_first_text_item_props(iv);
        }
        let item = &items[i];
        let next = if found {
            clone_json(item)
        } else {
            match item_text_exec(item) {
                Some(t) => {
                    let mut text: Vec<char> = Vec::new();
                    crate::text::append_chars(&mut text, block);
                    crate::text::append_chars(&mut text, &crate::text::str_chars("\n\n"));
                    crate::text::append_chars(&mut text, &crate::text::str_chars(t.as_str()));
                    let full = crate::text::string_from_chars(&text);
                    proof {
                        lemma_first_text_item(iv, i as int);
                        assert(full@ =~= with_context(block@, t@));
                    }
                    found = true;
                    rewrite_item_exec(item, &full)
                },
                None => clone_json(item),
            }
        };
        new_items.push(next);
        proof {
            assert(new_items@.drop_last() =~= before);
            let target = inject_items(iv, block@);
            if found {
                let k = first_text_item(iv)->0;
                assert(0 <= k < iv.len());
                assert(target == iv.update(k, rewrite_item(iv[k], with_context(block@, item_text(iv[k])->0))));
                if was_found {
                    assert(k < i);
                    assert(target[i as int] == iv[i as int]);
                } else {
                    assert(k == i);
                }
                assert(jview_items(new_items@) =~= target.take(i + 1));
            } else {
                assert(jview_items(new_items@) =~= iv.take(i + 1));
            }
        }
        i = i + 1;
    }
    proof {
        lemma_first_text_item_props(iv);
        if !found {
            lemma_first_text_item(iv, iv.len() as int);
            assert(iv.take(items.len() as int) =~= iv);
            assert(inject_items(iv, block@) == iv);
        } else {
            assert(inject_items(iv, block@).len() == iv.len());
            assert(inject_items(iv, block@).take(items.len() as int) =~= inject_items(iv, block@));
        }
    }
    let copy = clone_json(value);
    match copy {
        Json::Object(fields) => Json::Object(set_field_exec(fields, "content", Json::Array(new_items))),
        _ => copy,
    }
}

/// A `tools/call` response with the context block prepended to its
/// result's first text item.
pub open spec fn injected_response(resp: ResponseV, block: Seq<char>) -> ResponseV {
    match resp.payload {
        PayloadV::Result(v) => ResponseV { payload: PayloadV::Result(inject_context(v, block)), ..resp },
        _ => resp,
    }
}

/// Prepend a `[Code Context]` block (built from `chunks`) to the first text
/// item of a `tools/call` response, returning the enriched response.
pub fn inject_code_context_into_response(resp: JsonRpcResponse, chunks: &Vec<CodeChunk>) -> (r: JsonRpcResponse)
    ensures
        r@ == injected_response(resp@, join_lines(context_lines(chunks@))),
{
    match &resp.payload {
        ResponsePayload::Result(value) => {
            let block = str_chars(format_code_context(chunks).as_str());
            let new_value = inject_value(value, &block);
            JsonRpcResponse { jsonrpc: resp.jsonrpc, id: resp.id, payload: ResponsePayload::Result(new_value) }
        },
        ResponsePayload::Error(_) => resp,
    }
}

} // verus!
