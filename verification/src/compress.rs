//! Compress text output to reduce LLM token costs.
//!
//! Goal: same information, fewer tokens. Never lose meaning, only reduce
//! representation.
use vstd::prelude::*;
use crate::config::CompressionConfig;
use crate::text::{
    append_chars, decimal, decimal_chars, has_prefix, join_line_vecs, join_lines, line_views,
    lines, split_lines, starts_with, str_chars, string_from_chars, trim, trim_end, trim_end_vec,
    trim_vec,
};

verus! {

// ── Token estimates ─────────────────────────────────────────────────────────

/// Approximate token count of a text of `bytes` UTF-8 bytes (1 token ≈ 4 bytes,
/// rounded up).
pub open spec fn token_estimate(bytes: nat) -> nat {
    (bytes + 3) / 4
}

/// Approximate token count (1 token ≈ 4 chars).
pub fn estimate_tokens(text: &str) -> (n: usize)
    ensures
        n == token_estimate(text.len() as nat),
{
    let len = text.len();
    let extra: usize = if len % 4 == 0 { 0 } else { 1 };
    len / 4 + extra
}

/// Count tokens saved between original and compressed text.
pub fn tokens_saved(original: &str, compressed: &str) -> (n: usize)
    ensures
        n == if token_estimate(original.len() as nat) >= token_estimate(compressed.len() as nat) {
            token_estimate(original.len() as nat) - token_estimate(compressed.len() as nat)
        } else {
            0
        },
{
    estimate_tokens(original).saturating_sub(estimate_tokens(compressed))
}

// ── The strategy interface ──────────────────────────────────────────────────

/// A lossless text transformation.
pub trait CompressionStrategy {
    /// What the strategy makes of a text.
    spec fn transform(&self, text: Seq<char>) -> Seq<char>;

    fn compress(&self, text: &str) -> (out: String)
        ensures
            out@ == self.transform(text@),
    ;
}

/// Remove ANSI escape codes (terminal colors, cursor control).
pub struct StripAnsi;

/// Minify pretty-printed JSON output.
pub struct CompactJson;

/// Remove single-line code comments (`//`) inside fenced code blocks.
pub struct StripComments;

/// Collapse consecutive duplicate lines into `line (xN)`.
pub struct Dedup;

/// Collapse multiple blank lines and trim trailing whitespace per line.
pub struct Minify;

// ── StripAnsi ──────────────────────────────────────────────────────────────

pub const ESC: char = '\u{1b}';

/// Where a scan of terminal output stands with respect to escape codes.
#[derive(Clone, Copy, PartialEq, Eq, Structural)]
pub enum AnsiState {
    /// Ordinary text.
    Text,
    /// Just after an ESC.
    Escape,
    /// Inside an `ESC [ ...` control sequence, before its final byte.
    Sequence,
}

/// The final byte of a control sequence: `'\x40'..='\x7e'`.
pub open spec fn is_final_byte(c: char) -> bool {
    '\u{40}' <= c && c <= '\u{7e}'
}

/// One character of the scan: the next state and what is kept of `c`.
pub open spec fn ansi_step(st: AnsiState, c: char) -> (AnsiState, Seq<char>) {
    match st {
        AnsiState::Sequence => {
            if is_final_byte(c) {
                (AnsiState::Text, seq![])
            } else {
                (AnsiState::Sequence, seq![])
            }
        },
        AnsiState::Escape => {
            if c == '[' {
                (AnsiState::Sequence, seq![])
            } else if c == ESC {
                (AnsiState::Escape, seq![])
            } else {
                (AnsiState::Text, seq![c])
            }
        },
        AnsiState::Text => {
            if c == ESC {
                (AnsiState::Escape, seq![])
            } else {
                (AnsiState::Text, seq![c])
            }
        },
    }
}

/// The state reached and the text kept after scanning `s`.
pub open spec fn ansi_scan(s: Seq<char>) -> (AnsiState, Seq<char>)
    decreases s.len(),
{
    if s.len() == 0 {
        (AnsiState::Text, seq![])
    } else {
        let (st, kept) = ansi_scan(s.drop_last());
        let (st2, more) = ansi_step(st, s.last());
        (st2, kept + more)
    }
}

/// `s` without ESC characters and without `ESC [` control sequences (up to
/// and including their final byte).
pub open spec fn strip_ansi(s: Seq<char>) -> Seq<char> {
    ansi_scan(s).1
}

impl CompressionStrategy for StripAnsi {
    open spec fn transform(&self, text: Seq<char>) -> Seq<char> {
        strip_ansi(text)
    }

    fn compress(&self, text: &str) -> (out: String) {
        let cs = str_chars(text);
        let mut kept: Vec<char> = Vec::new();
        let mut st = AnsiState::Text;
        let mut i: usize = 0;
        while i < cs.len()
            invariant
                i <= cs.len(),
                ansi_scan(cs@.take(i as int)) == (st, kept@),
            decreases cs.len() - i,
        {
            let c = cs[i];
            assert(cs@.take(i + 1).drop_last() =~= cs@.take(i as int));
            assert(cs@.take(i + 1).last() == c);
            let ghost before = kept@;
            match st {
                AnsiState::Sequence => {
                    if '\u{40}' <= c && c <= '\u{7e}' {
                        st = AnsiState::Text;
                    }
                },
                AnsiState::Escape => {
                    if c == '[' {
                        st = AnsiState::Sequence;
                    } else if c != ESC {
                        kept.push(c);
                        st = AnsiState::Text;
                    }
                },
                AnsiState::Text => {
                    if c == ESC {
                        st = AnsiState::Escape;
                    } else {
                        kept.push(c);
                    }
                },
            }
            assert(kept@ =~= before + ansi_step(ansi_scan(cs@.take(i as int)).0, c).1);
            i = i + 1;
        }
        assert(cs@.take(cs.len() as int) =~= cs@);
        string_from_chars(&kept)
    }
}

pub proof fn lemma_strip_ansi_no_escape(s: Seq<char>)
    ensures
        !strip_ansi(s).contains(ESC),
    decreases s.len(),
{
    if s.len() > 0 {
        lemma_strip_ansi_no_escape(s.drop_last());
        let (st, kept) = ansi_scan(s.drop_last());
        let more = ansi_step(st, s.last()).1;
        if (kept + more).contains(ESC) {
            let k = choose|k: int| 0 <= k < (kept + more).len() && (kept + more)[k] == ESC;
            if k < kept.len() {
                assert(kept[k] == ESC);
            }
        }
    }
}

pub proof fn lemma_strip_ansi_plain(s: Seq<char>)
    requires
        !s.contains(ESC),
    ensures
        ansi_scan(s) == (AnsiState::Text, s),
    decreases s.len(),
{
    if s.len() > 0 {
        assert(!s.drop_last().contains(ESC)) by {
            if s.drop_last().contains(ESC) {
                let k = choose|k: int| 0 <= k < s.drop_last().len() && s.drop_last()[k] == ESC;
                assert(s[k] == ESC);
            }
        }
        lemma_strip_ansi_plain(s.drop_last());
        assert(s.last() != ESC) by {
            assert(s[s.len() - 1] == s.last());
        }
        assert(s.drop_last() + seq![s.last()] =~= s);
    }
}

/// Stripping escape codes leaves no ESC character behind, leaves text without
/// ESC unchanged, and so stripping twice is stripping once.
pub proof fn law_strip_ansi(s: Seq<char>)
    ensures
        !strip_ansi(s).contains(ESC),
        !s.contains(ESC) ==> strip_ansi(s) == s,
        strip_ansi(strip_ansi(s)) == strip_ansi(s),
{
    lemma_strip_ansi_no_escape(s);
    if !s.contains(ESC) {
        lemma_strip_ansi_plain(s);
    }
    lemma_strip_ansi_plain(strip_ansi(s));
}

// ── CompactJson ────────────────────────────────────────────────────────────

/// What `serde_json` makes of `text` when it parses it as a JSON value and
/// writes that value back without insignificant whitespace; `None` when
/// `text` is not JSON.
pub uninterp spec fn json_compact_form(text: Seq<char>) -> Option<Seq<char>>;

/// `serde_json::from_str::<Value>` on `text`, then `serde_json::to_string` of
/// the value. The result is named by `json_compact_form`; `None` stands for
/// either call failing.
#[verifier::external_body]
fn json_reserialize(text: &str) -> (r: Option<String>)
    ensures
        match r {
            Some(out) => json_compact_form(text@) == Some(out@),
            None => json_compact_form(text@).is_none(),
        },
{
    match serde_json::from_str::<serde_json::Value>(text) {
        Ok(value) => serde_json::to_string(&value).ok(),
        Err(_) => None,
    }
}

/// The text `CompactJson` outputs for `text`, given what the JSON
/// reserialisation made of the trimmed text.
pub open spec fn compact_json_of(text: Seq<char>, form: Option<Seq<char>>) -> Seq<char> {
    match form {
        Some(out) => out,
        None => text,
    }
}

/// The output of `CompactJson` for `text`: the compact JSON form of the
/// trimmed text when it parses, `text` unchanged otherwise.
pub open spec fn compact_json(text: Seq<char>) -> Seq<char> {
    compact_json_of(text, json_compact_form(trim(text)))
}

impl CompactJson {
    /// Chooses `CompactJson`'s output once the reserialisation of the trimmed
    /// text is known: that form when there is one, otherwise `text` itself.
    pub fn choose_output(text: &str, form: Option<String>) -> (out: String)
        ensures
            out@ == compact_json_of(text@, match form {
                Some(f) => Some(f@),
                None => None,
            }),
    {
        match form {
            Some(f) => f,
            None => text.to_owned(),
        }
    }
}

impl CompressionStrategy for CompactJson {
    open spec fn transform(&self, text: Seq<char>) -> Seq<char> {
        compact_json(text)
    }

    fn compress(&self, text: &str) -> (out: String) {
        let cs = str_chars(text);
        let trimmed = string_from_chars(&trim_vec(&cs));
        let form = json_reserialize(trimmed.as_str());
        CompactJson::choose_output(text, form)
    }
}

// ── StripComments ──────────────────────────────────────────────────────────

pub open spec fn fence() -> Seq<char> {
    seq!['`', '`', '`']
}

pub open spec fn line_comment() -> Seq<char> {
    seq!['/', '/']
}

/// Scanning lines: whether the scan is inside a fenced code block, and the
/// lines kept. A line whose trimmed text starts with three backticks opens or
/// closes a block; inside a block, a line whose trimmed text starts with `//`
/// is dropped.
pub open spec fn comment_scan(ls: Seq<Seq<char>>) -> (bool, Seq<Seq<char>>)
    decreases ls.len(),
{
    if ls.len() == 0 {
        (false, seq![])
    } else {
        let (in_block, kept) = comment_scan(ls.drop_last());
        let t = trim(ls.last());
        let in_block2 = if has_prefix(t, fence()) {
            !in_block
        } else {
            in_block
        };
        if in_block2 && has_prefix(t, line_comment()) {
            (in_block2, kept)
        } else {
            (in_block2, kept.push(ls.last()))
        }
    }
}

pub open spec fn strip_comments(text: Seq<char>) -> Seq<char> {
    join_lines(comment_scan(lines(text)).1)
}

fn fence_chars() -> (v: Vec<char>)
    ensures
        v@ == fence(),
{
    let v = vec!['`', '`', '`'];
    assert(v@ =~= fence());
    v
}

fn comment_chars() -> (v: Vec<char>)
    ensures
        v@ == line_comment(),
{
    let v = vec!['/', '/'];
    assert(v@ =~= line_comment());
    v
}

impl CompressionStrategy for StripComments {
    open spec fn transform(&self, text: Seq<char>) -> Seq<char> {
        strip_comments(text)
    }

    fn compress(&self, text: &str) -> (out: String) {
        let cs = str_chars(text);
        let ls = split_lines(&cs);
        let fence_v = fence_chars();
        let comment_v = comment_chars();
        let mut in_block = false;
        let mut kept: Vec<Vec<char>> = Vec::new();
        let mut i: usize = 0;
        while i < ls.len()
            invariant
                i <= ls.len(),
                fence_v@ == fence(),
                comment_v@ == line_comment(),
                comment_scan(line_views(ls@).take(i as int)) == (in_block, line_views(kept@)),
            decreases ls.len() - i,
        {
            let ghost lv = line_views(ls@);
            assert(lv.take(i + 1).drop_last() =~= lv.take(i as int));
            assert(lv.take(i + 1).last() == ls[i as int]@);
            let t = trim_vec(&ls[i]);
            if starts_with(&t, &fence_v) {
                in_block = !in_block;
            }
            if !(in_block && starts_with(&t, &comment_v)) {
                let ghost before = line_views(kept@);
                kept.push(ls[i].clone());
                assert(line_views(kept@) =~= before.push(ls[i as int]@));
            }
            i = i + 1;
        }
        assert(line_views(ls@).take(ls.len() as int) =~= line_views(ls@));
        string_from_chars(&join_line_vecs(&kept))
    }
}

// ── Dedup ──────────────────────────────────────────────────────────────────

/// Runs of consecutive equal lines, as (line, run length).
pub open spec fn dedup_runs(ls: Seq<Seq<char>>) -> Seq<(Seq<char>, nat)>
    decreases ls.len(),
{
    if ls.len() == 0 {
        seq![]
    } else {
        let r = dedup_runs(ls.drop_last());
        if r.len() > 0 && r.last().0 == ls.last() {
            r.update(r.len() - 1, (ls.last(), r.last().1 + 1))
        } else {
            r.push((ls.last(), 1))
        }
    }
}

/// A run of `n` copies of `line`: the line itself, followed by ` (xN)` when
/// it occurred more than once.
pub open spec fn render_run(line: Seq<char>, n: nat) -> Seq<char> {
    if n > 1 {
        line + seq![' ', '(', 'x'] + decimal(n) + seq![')']
    } else {
        line
    }
}

pub open spec fn rendered_runs(rs: Seq<(Seq<char>, nat)>) -> Seq<Seq<char>> {
    rs.map_values(|r: (Seq<char>, nat)| render_run(r.0, r.1))
}

pub proof fn lemma_rendered_push(rs: Seq<(Seq<char>, nat)>, x: (Seq<char>, nat))
    ensures
        rendered_runs(rs.push(x)) =~= rendered_runs(rs).push(render_run(x.0, x.1)),
{
}

pub open spec fn dedup(text: Seq<char>) -> Seq<char> {
    join_lines(rendered_runs(dedup_runs(lines(text))))
}

/// Whether two character vectors hold the same characters.
pub fn chars_eq(a: &Vec<char>, b: &Vec<char>) -> (r: bool)
    ensures
        r == (a@ == b@),
{
    if a.len() != b.len() {
        return false;
    }
    let mut i: usize = 0;
    while i < a.len()
        invariant
            i <= a.len(),
            a.len() == b.len(),
            forall|j: int| 0 <= j < i ==> a@[j] == b@[j],
        decreases a.len() - i,
    {
        if a[i] != b[i] {
            return false;
        }
        i = i + 1;
    }
    assert(a@ =~= b@);
    true
}

fn render_run_exec(line: &Vec<char>, n: usize) -> (r: Vec<char>)
    ensures
        r@ == render_run(line@, n as nat),
{
    let mut r = line.clone();
    if n > 1 {
        r.push(' ');
        r.push('(');
        r.push('x');
        append_chars(&mut r, &decimal_chars(n));
        r.push(')');
        assert(r@ =~= line@ + seq![' ', '(', 'x'] + decimal(n as nat) + seq![')']);
    }
    r
}

pub proof fn lemma_dedup_runs_bounds(ls: Seq<Seq<char>>)
    ensures
        dedup_runs(ls).len() <= ls.len(),
        forall|k: int| 0 <= k < dedup_runs(ls).len() ==> 1 <= (#[trigger] dedup_runs(ls)[k]).1 <= ls.len(),
    decreases ls.len(),
{
    if ls.len() > 0 {
        lemma_dedup_runs_bounds(ls.drop_last());
    }
}

impl CompressionStrategy for Dedup {
    open spec fn transform(&self, text: Seq<char>) -> Seq<char> {
        dedup(text)
    }

    fn compress(&self, text: &str) -> (out: String) {
        let cs = str_chars(text);
        let ls = split_lines(&cs);
        let mut result: Vec<Vec<char>> = Vec::new();
        let mut current: Option<Vec<char>> = None;
        let mut count: usize = 0;
        let mut i: usize = 0;
        while i < ls.len()
            invariant
                i <= ls.len(),
                ({
                    let rs = dedup_runs(line_views(ls@).take(i as int));
                    &&& count <= i
                    &&& match current {
                        None => rs.len() == 0 && result@.len() == 0,
                        Some(cur) => {
                            &&& rs.len() > 0
                            &&& rs.last() == (cur@, count as nat)
                            &&& line_views(result@) == rendered_runs(rs.drop_last())
                        },
                    }
                }),
            decreases ls.len() - i,
        {
            let ghost lv = line_views(ls@);
            assert(lv.take(i + 1).drop_last() =~= lv.take(i as int));
            assert(lv.take(i + 1).last() == ls[i as int]@);
            let ghost rs_old = dedup_runs(lv.take(i as int));
            let same = match &current {
                Some(prev) => chars_eq(prev, &ls[i]),
                None => false,
            };
            if same {
                count = count + 1;
                let ghost rs_new = dedup_runs(lv.take(i + 1));
                assert(rs_new.drop_last() =~= rs_old.drop_last());
            } else {
                let ghost before = line_views(result@);
                match current {
                    Some(prev) => {
                        result.push(render_run_exec(&prev, count));
                        assert(line_views(result@) =~= before.push(render_run(prev@, count as nat)));
                        proof {
                            lemma_rendered_push(rs_old.drop_last(), rs_old.last());
                        }
                        assert(rs_old.drop_last().push(rs_old.last()) =~= rs_old);
                    },
                    None => {
                        assert(line_views(result@) =~= rendered_runs(rs_old));
                    },
                }
                current = Some(ls[i].clone());
                count = 1;
                let ghost rs_new = dedup_runs(lv.take(i + 1));
                assert(rs_new.drop_last() =~= rs_old);
            }
            i = i + 1;
        }
        assert(line_views(ls@).take(ls.len() as int) =~= line_views(ls@));
        let ghost rs = dedup_runs(line_views(ls@));
        match current {
            Some(prev) => {
                let ghost before = line_views(result@);
                result.push(render_run_exec(&prev, count));
                assert(line_views(result@) =~= before.push(render_run(prev@, count as nat)));
                proof {
                    lemma_rendered_push(rs.drop_last(), rs.last());
                }
                assert(rs.drop_last().push(rs.last()) =~= rs);
            },
            None => {
                assert(line_views(result@) =~= rendered_runs(rs));
            },
        }
        string_from_chars(&join_line_vecs(&result))
    }
}

// ── Minify ─────────────────────────────────────────────────────────────────

/// Scanning lines: whether the previous line was blank, and the lines kept.
/// Each line loses its trailing whitespace; a blank line is kept (as an
/// empty line) only when the line before it was not blank.
pub open spec fn minify_scan(ls: Seq<Seq<char>>) -> (bool, Seq<Seq<char>>)
    decreases ls.len(),
{
    if ls.len() == 0 {
        (false, seq![])
    } else {
        let (prev_blank, kept) = minify_scan(ls.drop_last());
        let t = trim_end(ls.last());
        if t.len() == 0 {
            if prev_blank {
                (true, kept)
            } else {
                (true, kept.push(seq![]))
            }
        } else {
            (false, kept.push(t))
        }
    }
}

pub open spec fn minify_lines(text: Seq<char>) -> Seq<Seq<char>> {
    minify_scan(lines(text)).1
}

pub open spec fn minify(text: Seq<char>) -> Seq<char> {
    join_lines(minify_lines(text))
}

impl CompressionStrategy for Minify {
    open spec fn transform(&self, text: Seq<char>) -> Seq<char> {
        minify(text)
    }

    fn compress(&self, text: &str) -> (out: String) {
        let cs = str_chars(text);
        let ls = split_lines(&cs);
        let mut result: Vec<Vec<char>> = Vec::new();
        let mut blank_count: usize = 0;
        let mut i: usize = 0;
        while i < ls.len()
            invariant
                i <= ls.len(),
                blank_count <= i,
                minify_scan(line_views(ls@).take(i as int)) == (blank_count > 0, line_views(
                    result@,
                )),
            decreases ls.len() - i,
        {
            let ghost lv = line_views(ls@);
            assert(lv.take(i + 1).drop_last() =~= lv.take(i as int));
            assert(lv.take(i + 1).last() == ls[i as int]@);
            let trimmed = trim_end_vec(&ls[i]);
            let ghost before = line_views(result@);
            if trimmed.len() == 0 {
                blank_count = blank_count + 1;
                if blank_count == 1 {
                    result.push(Vec::new());
                    assert(line_views(result@) =~= before.push(seq![]));
                }
            } else {
                blank_count = 0;
                result.push(trimmed);
                assert(line_views(result@) =~= before.push(trim_end(ls[i as int]@)));
            }
            i = i + 1;
        }
        assert(line_views(ls@).take(ls.len() as int) =~= line_views(ls@));
        string_from_chars(&join_line_vecs(&result))
    }
}

} // verus!

verus! {

// ── Pipeline ───────────────────────────────────────────────────────────────

/// The strategies a pipeline can apply.
#[derive(Clone, Copy, PartialEq, Eq, Structural)]
pub enum Strategy {
    StripAnsi,
    CompactJson,
    StripComments,
    Dedup,
    Minify,
}

/// What one strategy makes of a text.
pub open spec fn apply_strategy(k: Strategy, text: Seq<char>) -> Seq<char> {
    match k {
        Strategy::StripAnsi => strip_ansi(text),
        Strategy::CompactJson => compact_json(text),
        Strategy::StripComments => strip_comments(text),
        Strategy::Dedup => dedup(text),
        Strategy::Minify => minify(text),
    }
}

/// The strategies `ks` applied to `text` in order, the first one first.
pub open spec fn apply_all(ks: Seq<Strategy>, text: Seq<char>) -> Seq<char>
    decreases ks.len(),
{
    if ks.len() == 0 {
        text
    } else {
        apply_strategy(ks.last(), apply_all(ks.drop_last(), text))
    }
}

impl CompressionStrategy for Strategy {
    open spec fn transform(&self, text: Seq<char>) -> Seq<char> {
        apply_strategy(*self, text)
    }

    fn compress(&self, text: &str) -> (out: String) {
        match self {
            Strategy::StripAnsi => StripAnsi.compress(text),
            Strategy::CompactJson => CompactJson.compress(text),
            Strategy::StripComments => StripComments.compress(text),
            Strategy::Dedup => Dedup.compress(text),
            Strategy::Minify => Minify.compress(text),
        }
    }
}

/// Apply a pipeline of strategies in sequence.
pub struct Pipeline {
    strategies: Vec<Strategy>,
}

impl View for Pipeline {
    type V = Seq<Strategy>;

    closed spec fn view(&self) -> Seq<Strategy> {
        self.strategies@
    }
}

/// The strategies of the default pipeline, in the order they run.
pub open spec fn default_strategies() -> Seq<Strategy> {
    seq![
        Strategy::StripAnsi,
        Strategy::CompactJson,
        Strategy::StripComments,
        Strategy::Dedup,
        Strategy::Minify,
    ]
}

/// `k` when `on`, nothing otherwise.
pub open spec fn if_on(on: bool, k: Strategy) -> Seq<Strategy> {
    if on {
        seq![k]
    } else {
        seq![]
    }
}

/// The strategies that the `[compression]` settings enable, in the default
/// order; none when `enabled` is off.
pub open spec fn configured_strategies(c: CompressionConfig) -> Seq<Strategy> {
    if !c.enabled {
        seq![]
    } else {
        if_on(c.strip_ansi, Strategy::StripAnsi) + if_on(c.compact_json, Strategy::CompactJson) + if_on(
            c.strip_comments,
            Strategy::StripComments,
        ) + if_on(c.dedup, Strategy::Dedup) + if_on(c.minify, Strategy::Minify)
    }
}

impl Pipeline {
    pub fn default_pipeline() -> (p: Self)
        ensures
            p@ == default_strategies(),
    {
        let strategies = vec![
            Strategy::StripAnsi,
            Strategy::CompactJson,
            Strategy::StripComments,
            Strategy::Dedup,
            Strategy::Minify,
        ];
        assert(strategies@ =~= default_strategies());
        Pipeline { strategies }
    }

    /// The pipeline the `[compression]` settings ask for: nothing when
    /// compression is off, otherwise each enabled strategy in the default
    /// order.
    pub fn from_config(c: &CompressionConfig) -> (p: Self)
        ensures
            p@ == configured_strategies(*c),
    {
        let mut strategies: Vec<Strategy> = Vec::new();
        if c.enabled {
            if c.strip_ansi {
                strategies.push(Strategy::StripAnsi);
            }
            if c.compact_json {
                strategies.push(Strategy::CompactJson);
            }
            if c.strip_comments {
                strategies.push(Strategy::StripComments);
            }
            if c.dedup {
                strategies.push(Strategy::Dedup);
            }
            if c.minify {
                strategies.push(Strategy::Minify);
            }
        }
        assert(strategies@ =~= configured_strategies(*c));
        Pipeline { strategies }
    }

    pub fn compress(&self, text: &str) -> (out: String)
        ensures
            out@ == apply_all(self@, text@),
    {
        let mut acc = text.to_owned();
        let mut i: usize = 0;
        while i < self.strategies.len()
            invariant
                i <= self.strategies.len(),
                acc@ == apply_all(self.strategies@.take(i as int), text@),
            decreases self.strategies.len() - i,
        {
            assert(self.strategies@.take(i + 1).drop_last() =~= self.strategies@.take(i as int));
            acc = self.strategies[i].compress(acc.as_str());
            i = i + 1;
        }
        assert(self.strategies@.take(self.strategies.len() as int) =~= self.strategies@);
        acc
    }
}

/// The default pipeline strips escape codes, then compacts JSON, then strips
/// code comments, then collapses repeated lines, then minifies.
pub proof fn law_default_pipeline_order(text: Seq<char>)
    ensures
        apply_all(default_strategies(), text) == minify(
            dedup(strip_comments(compact_json(strip_ansi(text)))),
        ),
{
    let ks = default_strategies();
    reveal_with_fuel(apply_all, 6);
    assert(ks.drop_last() =~= seq![Strategy::StripAnsi, Strategy::CompactJson, Strategy::StripComments, Strategy::Dedup]);
    assert(ks.drop_last().drop_last() =~= seq![Strategy::StripAnsi, Strategy::CompactJson, Strategy::StripComments]);
    assert(ks.drop_last().drop_last().drop_last() =~= seq![Strategy::StripAnsi, Strategy::CompactJson]);
    assert(ks.drop_last().drop_last().drop_last().drop_last() =~= seq![Strategy::StripAnsi]);
    assert(ks.drop_last().drop_last().drop_last().drop_last().drop_last() =~= Seq::<Strategy>::empty());
}

// ── Laws of the line strategies ─────────────────────────────────────────────

pub proof fn lemma_trim_end_idempotent(s: Seq<char>)
    ensures
        trim_end(trim_end(s)) == trim_end(s),
{
    crate::text::lemma_trim_end_shape(s);
}

proof fn lemma_minify_scan(ls: Seq<Seq<char>>)
    ensures
        minify_scan(ls).0 <==> (minify_scan(ls).1.len() > 0 && minify_scan(ls).1.last().len() == 0),
        forall|i: int|
            0 <= i < minify_scan(ls).1.len() ==> trim_end(#[trigger] minify_scan(ls).1[i])
                == minify_scan(ls).1[i],
        forall|i: int|
            0 <= i < minify_scan(ls).1.len() - 1 ==> !(#[trigger] minify_scan(ls).1[i].len() == 0
                && minify_scan(ls).1[i + 1].len() == 0),
        minify_scan(ls).1.len() <= ls.len(),
    decreases ls.len(),
{
    if ls.len() > 0 {
        lemma_minify_scan(ls.drop_last());
        lemma_trim_end_idempotent(ls.last());
        assert(trim_end(Seq::<char>::empty()) == Seq::<char>::empty());
    }
}

/// Minify leaves no line with trailing whitespace and never two blank lines
/// in a row, and gives at most as many lines as the text had.
pub proof fn law_minify(text: Seq<char>)
    ensures
        minify(text) == join_lines(minify_lines(text)),
        forall|i: int|
            0 <= i < minify_lines(text).len() ==> trim_end(#[trigger] minify_lines(text)[i])
                == minify_lines(text)[i],
        forall|i: int|
            0 <= i < minify_lines(text).len() - 1 ==> !(#[trigger] minify_lines(text)[i].len()
                == 0 && minify_lines(text)[i + 1].len() == 0),
        minify_lines(text).len() <= lines(text).len(),
{
    lemma_minify_scan(lines(text));
}

/// The non-blank lines of `ls`.
pub open spec fn non_blank(ls: Seq<Seq<char>>) -> Seq<Seq<char>> {
    ls.filter(|l: Seq<char>| l.len() > 0)
}

proof fn lemma_minify_scan_non_blank(ls: Seq<Seq<char>>)
    ensures
        non_blank(minify_scan(ls).1) == non_blank(ls.map_values(|l: Seq<char>| trim_end(l))),
    decreases ls.len(),
{
    reveal(Seq::filter);
    if ls.len() > 0 {
        let prev = ls.drop_last();
        lemma_minify_scan_non_blank(prev);
        let f = |l: Seq<char>| trim_end(l);
        assert(ls.map_values(f).drop_last() =~= prev.map_values(f));
        assert(ls.map_values(f).last() == trim_end(ls.last()));
        let kept = minify_scan(prev).1;
        assert(kept.push(seq![]).drop_last() =~= kept);
        assert(kept.push(trim_end(ls.last())).drop_last() =~= kept);
    }
}

proof fn lemma_minify_scan_sources(ls: Seq<Seq<char>>)
    ensures
        forall|i: int|
            0 <= i < minify_scan(ls).1.len() && (#[trigger] minify_scan(ls).1[i]).len() > 0
                ==> exists|j: int| 0 <= j < ls.len() && minify_scan(ls).1[i] == trim_end(
                #[trigger] ls[j],
            ),
    decreases ls.len(),
{
    if ls.len() > 0 {
        let prev = ls.drop_last();
        lemma_minify_scan_sources(prev);
        let out = minify_scan(ls).1;
        let kept = minify_scan(prev).1;
        assert forall|i: int| 0 <= i < out.len() && (#[trigger] out[i]).len() > 0 implies exists|j: int|
            0 <= j < ls.len() && out[i] == trim_end(#[trigger] ls[j]) by {
            if i < kept.len() {
                assert(out[i] == kept[i]);
                let j = choose|j: int| 0 <= j < prev.len() && kept[i] == trim_end(#[trigger] prev[j]);
                assert(ls[j] == prev[j]);
            } else {
                assert(out[i] == trim_end(ls[ls.len() - 1]));
            }
        }
    }
}

/// Minify changes a line only at its end: the non-blank lines it gives are,
/// in order, exactly the input's lines with trailing whitespace removed that
/// are not blank, so leading whitespace and everything before the trailing
/// whitespace stay as they were.
pub proof fn law_minify_keeps_line_text(text: Seq<char>)
    ensures
        non_blank(minify_lines(text)) == non_blank(lines(text).map_values(|l: Seq<char>| trim_end(l))),
        forall|i: int|
            0 <= i < minify_lines(text).len() && (#[trigger] minify_lines(text)[i]).len() > 0
                ==> exists|j: int| 0 <= j < lines(text).len() && minify_lines(text)[i] == trim_end(
                #[trigger] lines(text)[j],
            ),
{
    lemma_minify_scan_non_blank(lines(text));
    lemma_minify_scan_sources(lines(text));
}

/// `n` copies of `line`.
pub open spec fn repeat_line(line: Seq<char>, n: nat) -> Seq<Seq<char>> {
    Seq::new(n, |i: int| line)
}

/// The lines a list of runs stands for.
pub open spec fn expand_runs(rs: Seq<(Seq<char>, nat)>) -> Seq<Seq<char>>
    decreases rs.len(),
{
    if rs.len() == 0 {
        seq![]
    } else {
        expand_runs(rs.drop_last()) + repeat_line(rs.last().0, rs.last().1)
    }
}

/// Collapsing repeated lines loses nothing: the runs expand back to exactly
/// the original lines, every run counts at least one line, and neighbouring
/// runs hold different lines.
pub proof fn law_dedup_runs_lossless(ls: Seq<Seq<char>>)
    ensures
        expand_runs(dedup_runs(ls)) == ls,
        forall|k: int| 0 <= k < dedup_runs(ls).len() ==> (#[trigger] dedup_runs(ls)[k]).1 >= 1,
        forall|k: int|
            0 <= k < dedup_runs(ls).len() - 1 ==> (#[trigger] dedup_runs(ls)[k]).0 != dedup_runs(
                ls,
            )[k + 1].0,
    decreases ls.len(),
{
    if ls.len() > 0 {
        let prev = ls.drop_last();
        law_dedup_runs_lossless(prev);
        let r = dedup_runs(prev);
        if r.len() > 0 && r.last().0 == ls.last() {
            let r2 = r.update(r.len() - 1, (ls.last(), r.last().1 + 1));
            assert(r2.drop_last() =~= r.drop_last());
            assert(expand_runs(r) == expand_runs(r.drop_last()) + repeat_line(r.last().0, r.last().1));
            assert(repeat_line(ls.last(), r.last().1 + 1) =~= repeat_line(ls.last(), r.last().1).push(ls.last()));
            assert(expand_runs(r2) =~= expand_runs(r).push(ls.last()));
            assert(prev.push(ls.last()) =~= ls);
        } else {
            let r2 = r.push((ls.last(), 1));
            assert(r2.drop_last() =~= r);
            assert(repeat_line(ls.last(), 1) =~= seq![ls.last()]);
            assert(expand_runs(r2) =~= expand_runs(r).push(ls.last()));
            assert(prev.push(ls.last()) =~= ls);
        }
    }
}

proof fn lemma_dedup_runs_distinct(ls: Seq<Seq<char>>)
    requires
        forall|i: int| 0 <= i < ls.len() - 1 ==> #[trigger] ls[i] != ls[i + 1],
    ensures
        dedup_runs(ls) == ls.map_values(|l: Seq<char>| (l, 1nat)),
    decreases ls.len(),
{
    if ls.len() > 0 {
        let prev = ls.drop_last();
        assert forall|i: int| 0 <= i < prev.len() - 1 implies #[trigger] prev[i] != prev[i + 1] by {
            assert(prev[i] == ls[i] && prev[i + 1] == ls[i + 1]);
        }
        lemma_dedup_runs_distinct(prev);
        if prev.len() > 0 {
            assert(ls[prev.len() - 1] != ls[prev.len() as int]);
        }
        assert(ls.map_values(|l: Seq<char>| (l, 1nat)) =~= prev.map_values(
            |l: Seq<char>| (l, 1nat),
        ).push((ls.last(), 1nat)));
    }
}

/// Text without two equal lines in a row comes out of Dedup as its lines
/// joined again, unchanged.
pub proof fn law_dedup_no_repeats(text: Seq<char>)
    requires
        forall|i: int|
            0 <= i < lines(text).len() - 1 ==> #[trigger] lines(text)[i] != lines(text)[i + 1],
    ensures
        dedup(text) == join_lines(lines(text)),
{
    let ls = lines(text);
    lemma_dedup_runs_distinct(ls);
    assert(rendered_runs(dedup_runs(ls)) =~= ls);
}

proof fn lemma_comment_scan_no_fence(ls: Seq<Seq<char>>)
    requires
        forall|i: int| 0 <= i < ls.len() ==> !has_prefix(trim(#[trigger] ls[i]), fence()),
    ensures
        comment_scan(ls) == (false, ls),
    decreases ls.len(),
{
    if ls.len() > 0 {
        let prev = ls.drop_last();
        assert forall|i: int| 0 <= i < prev.len() implies !has_prefix(trim(#[trigger] prev[i]), fence()) by {
            assert(prev[i] == ls[i]);
        }
        lemma_comment_scan_no_fence(prev);
        assert(!has_prefix(trim(ls[ls.len() - 1]), fence()));
        assert(prev.push(ls.last()) =~= ls);
    }
}

/// Outside fenced code blocks nothing is stripped: text without a fence line
/// comes out of StripComments as its lines joined again.
pub proof fn law_strip_comments_outside_blocks(text: Seq<char>)
    requires
        forall|i: int|
            0 <= i < lines(text).len() ==> !has_prefix(trim(#[trigger] lines(text)[i]), fence()),
    ensures
        strip_comments(text) == join_lines(lines(text)),
{
    lemma_comment_scan_no_fence(lines(text));
}

/// Inside or outside a fenced block, StripComments keeps every line whose
/// trimmed text does not start with the two characters `//`, unchanged and
/// in its place; a line inside a block whose trimmed text starts with `//`
/// is dropped. Lines that merely start with a single `/` stay. A line whose
/// trimmed text starts with three backticks opens or closes a block.
pub proof fn law_strip_comments_drops_only_comment_lines(ps: Seq<Seq<char>>, l: Seq<char>)
    ensures
        !has_prefix(trim(l), seq!['/', '/']) ==> comment_scan(ps.push(l)).1 == comment_scan(ps).1.push(l),
        comment_scan(ps.push(l)).0 && has_prefix(trim(l), seq!['/', '/']) ==> comment_scan(ps.push(l)).1
            == comment_scan(ps).1,
        !comment_scan(ps.push(l)).0 ==> comment_scan(ps.push(l)).1 == comment_scan(ps).1.push(l),
        comment_scan(ps.push(l)).0 == (comment_scan(ps).0 != has_prefix(trim(l), seq!['`', '`', '`'])),
{
    assert(ps.push(l).drop_last() =~= ps);
    assert(line_comment() =~= seq!['/', '/']);
}

/// Minify line by line: one more input line adds that line without its
/// trailing whitespace when anything is left of it; a blank line adds one
/// empty line, unless the input line before it was blank too, in which case
/// it adds nothing.
pub proof fn law_minify_line_by_line(ps: Seq<Seq<char>>, l: Seq<char>)
    ensures
        trim_end(l).len() > 0 ==> minify_scan(ps.push(l)).1 == minify_scan(ps).1.push(trim_end(l)),
        trim_end(l).len() == 0 && ps.len() > 0 && trim_end(ps.last()).len() == 0 ==> minify_scan(
            ps.push(l),
        ).1 == minify_scan(ps).1,
        trim_end(l).len() == 0 && !(ps.len() > 0 && trim_end(ps.last()).len() == 0) ==> minify_scan(
            ps.push(l),
        ).1 == minify_scan(ps).1.push(seq![]),
{
    assert(ps.push(l).drop_last() =~= ps);
    if ps.len() > 0 {
        assert(ps.drop_last().push(ps.last()) =~= ps);
    }
}

} // verus!
