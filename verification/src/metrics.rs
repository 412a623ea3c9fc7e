//! Token savings tracked across a proxy session.
use vstd::prelude::*;
use crate::compress::{estimate_tokens, token_estimate};
use crate::text::{append_chars, decimal, decimal_chars};

verus! {

/// The counters of a session.
pub struct MetricsView {
    pub tool_calls: usize,
    pub tokens_in: usize,
    pub tokens_out: usize,
    pub cache_hits: usize,
    pub knowledge_hits: usize,
}

/// Tracks token savings across a proxy session. Counters wrap around on
/// overflow.
pub struct Metrics {
    tool_calls: usize,
    tokens_in: usize,
    tokens_out: usize,
    cache_hits: usize,
    knowledge_hits: usize,
}

impl View for Metrics {
    type V = MetricsView;

    closed spec fn view(&self) -> MetricsView {
        MetricsView {
            tool_calls: self.tool_calls,
            tokens_in: self.tokens_in,
            tokens_out: self.tokens_out,
            cache_hits: self.cache_hits,
            knowledge_hits: self.knowledge_hits,
        }
    }
}

/// Tokens saved: tokens in minus tokens out, or 0 when more went out.
pub open spec fn saved(tokens_in: nat, tokens_out: nat) -> nat {
    if tokens_in >= tokens_out {
        (tokens_in - tokens_out) as nat
    } else {
        0
    }
}

/// The counters after recording a compression of a text of `original_bytes`
/// bytes into one of `compressed_bytes` bytes.
pub open spec fn after_record(m: MetricsView, original_bytes: nat, compressed_bytes: nat) -> MetricsView {
    MetricsView {
        tool_calls: m.tool_calls.wrapping_add(1),
        tokens_in: m.tokens_in.wrapping_add(token_estimate(original_bytes) as usize),
        tokens_out: m.tokens_out.wrapping_add(token_estimate(compressed_bytes) as usize),
        ..m
    }
}

/// The counters after a tool call without text content.
pub open spec fn after_call(m: MetricsView) -> MetricsView {
    MetricsView { tool_calls: m.tool_calls.wrapping_add(1), ..m }
}

/// The counters after a cache hit whose response had these token sizes.
pub open spec fn after_cache_hit(m: MetricsView, tokens_original: usize, tokens_compressed: usize) -> MetricsView {
    MetricsView {
        tool_calls: m.tool_calls.wrapping_add(1),
        cache_hits: m.cache_hits.wrapping_add(1),
        tokens_in: m.tokens_in.wrapping_add(tokens_original),
        tokens_out: m.tokens_out.wrapping_add(tokens_compressed),
        ..m
    }
}

/// The counters after a knowledge-store hit whose response had these token
/// sizes.
pub open spec fn after_knowledge_hit(m: MetricsView, tokens_original: usize, tokens_compressed: usize) -> MetricsView {
    MetricsView {
        tool_calls: m.tool_calls.wrapping_add(1),
        knowledge_hits: m.knowledge_hits.wrapping_add(1),
        tokens_in: m.tokens_in.wrapping_add(tokens_original),
        tokens_out: m.tokens_out.wrapping_add(tokens_compressed),
        ..m
    }
}

impl Metrics {
    /// The counters of a new session: all zero.
    pub open spec fn new_view() -> MetricsView {
        MetricsView { tool_calls: 0, tokens_in: 0, tokens_out: 0, cache_hits: 0, knowledge_hits: 0 }
    }

    pub fn new() -> (m: Self)
        ensures
            m@ == Metrics::new_view(),
    {
        Metrics { tool_calls: 0, tokens_in: 0, tokens_out: 0, cache_hits: 0, knowledge_hits: 0 }
    }

    /// Record a compression event.
    pub fn record(&mut self, original: &str, compressed: &str)
        ensures
            final(self)@ == after_record(old(self)@, original.len() as nat, compressed.len() as nat),
    {
        self.tool_calls = self.tool_calls.wrapping_add(1);
        self.tokens_in = self.tokens_in.wrapping_add(estimate_tokens(original));
        self.tokens_out = self.tokens_out.wrapping_add(estimate_tokens(compressed));
    }

    /// Record a tool call that had no compressible text content.
    pub fn record_call(&mut self)
        ensures
            final(self)@ == after_call(old(self)@),
    {
        self.tool_calls = self.tool_calls.wrapping_add(1);
    }

    /// Record a cache hit (upstream not contacted), with the original and
    /// compressed token sizes of the cached response.
    pub fn record_cache_hit_with_tokens(&mut self, tokens_original: usize, tokens_compressed: usize)
        ensures
            final(self)@ == after_cache_hit(old(self)@, tokens_original, tokens_compressed),
    {
        self.tool_calls = self.tool_calls.wrapping_add(1);
        self.cache_hits = self.cache_hits.wrapping_add(1);
        self.tokens_in = self.tokens_in.wrapping_add(tokens_original);
        self.tokens_out = self.tokens_out.wrapping_add(tokens_compressed);
    }

    /// Record a knowledge store hit (semantically similar past response found).
    pub fn record_knowledge_hit_with_tokens(
        &mut self,
        tokens_original: usize,
        tokens_compressed: usize,
    )
        ensures
            final(self)@ == after_knowledge_hit(old(self)@, tokens_original, tokens_compressed),
    {
        self.tool_calls = self.tool_calls.wrapping_add(1);
        self.knowledge_hits = self.knowledge_hits.wrapping_add(1);
        self.tokens_in = self.tokens_in.wrapping_add(tokens_original);
        self.tokens_out = self.tokens_out.wrapping_add(tokens_compressed);
    }

    pub fn cache_hits(&self) -> (n: usize)
        ensures
            n == self@.cache_hits,
    {
        self.cache_hits
    }

    pub fn knowledge_hits(&self) -> (n: usize)
        ensures
            n == self@.knowledge_hits,
    {
        self.knowledge_hits
    }

    pub fn tool_calls(&self) -> (n: usize)
        ensures
            n == self@.tool_calls,
    {
        self.tool_calls
    }

    pub fn tokens_in(&self) -> (n: usize)
        ensures
            n == self@.tokens_in,
    {
        self.tokens_in
    }

    pub fn tokens_out(&self) -> (n: usize)
        ensures
            n == self@.tokens_out,
    {
        self.tokens_out
    }

    pub fn tokens_saved(&self) -> (n: usize)
        ensures
            n == saved(self@.tokens_in as nat, self@.tokens_out as nat),
    {
        self.tokens_in.saturating_sub(self.tokens_out)
    }
}

/// Recording a compression, so long as no counter wraps, adds one call and
/// the token estimates of both texts and leaves the hit counters alone; when
/// neither the session nor the compression grew the text, the tokens saved
/// grow by exactly the tokens this compression saved.
pub proof fn law_record_accumulates(m: MetricsView, original_bytes: nat, compressed_bytes: nat)
    requires
        m.tool_calls + 1 <= usize::MAX,
        m.tokens_in + token_estimate(original_bytes) <= usize::MAX,
        m.tokens_out + token_estimate(compressed_bytes) <= usize::MAX,
    ensures
        ({
            let after = after_record(m, original_bytes, compressed_bytes);
            &&& after.tool_calls == m.tool_calls + 1
            &&& after.tokens_in == m.tokens_in + token_estimate(original_bytes)
            &&& after.tokens_out == m.tokens_out + token_estimate(compressed_bytes)
            &&& after.cache_hits == m.cache_hits
            &&& after.knowledge_hits == m.knowledge_hits
            &&& (m.tokens_in >= m.tokens_out && original_bytes >= compressed_bytes ==> saved(
                after.tokens_in as nat,
                after.tokens_out as nat,
            ) == saved(m.tokens_in as nat, m.tokens_out as nat) + saved(
                token_estimate(original_bytes),
                token_estimate(compressed_bytes),
            ))
        }),
{
    assert(original_bytes >= compressed_bytes ==> (original_bytes + 3) / 4 >= (compressed_bytes + 3) / 4) by (nonlinear_arith);
}

// ── Thousands separators ───────────────────────────────────────────────────

/// `digits` with a `','` before every group of three digits counted from
/// the right.
pub open spec fn group_thousands(digits: Seq<char>) -> Seq<char>
    decreases digits.len(),
{
    if digits.len() <= 3 {
        digits
    } else {
        group_thousands(digits.take(digits.len() - 3)) + seq![','] + digits.skip(digits.len() - 3)
    }
}

/// The decimal representation of `n` with thousands separated by commas.
pub open spec fn with_thousands(n: nat) -> Seq<char> {
    group_thousands(decimal(n))
}

/// The first `end` characters of `digits`, grouped by thousands.
pub fn group_prefix(digits: &Vec<char>, end: usize) -> (r: Vec<char>)
    requires
        end <= digits.len(),
    ensures
        r@ == group_thousands(digits@.take(end as int)),
    decreases end,
{
    if end <= 3 {
        crate::text::take_vec(digits, end)
    } else {
        let mut r = group_prefix(digits, end - 3);
        r.push(',');
        let mut tail: Vec<char> = Vec::new();
        tail.push(digits[end - 3]);
        tail.push(digits[end - 2]);
        tail.push(digits[end - 1]);
        append_chars(&mut r, &tail);
        let ghost p = digits@.take(end as int);
        assert(p.take(p.len() - 3) =~= digits@.take(end - 3));
        assert(p.skip(p.len() - 3) =~= tail@);
        r
    }
}

/// Format a number with thousands separators: `1234567` → `"1,234,567"`.
pub fn format_number(n: usize) -> (s: String)
    ensures
        s@ == with_thousands(n as nat),
{
    let digits = decimal_chars(n);
    let r = group_prefix(&digits, digits.len());
    assert(digits@.take(digits.len() as int) =~= digits@);
    crate::text::string_from_chars(&r)
}

pub proof fn lemma_decimal_digits(n: nat)
    ensures
        forall|i: int| 0 <= i < decimal(n).len() ==> #[trigger] decimal(n)[i] != ',',
        decimal(n).len() >= 1,
    decreases n,
{
    let ds = seq!['0', '1', '2', '3', '4', '5', '6', '7', '8', '9'];
    assert(forall|d: int| 0 <= d < 10 ==> #[trigger] ds[d] != ',');
    if n >= 10 {
        lemma_decimal_digits(n / 10);
    }
}

pub open spec fn not_comma(c: char) -> bool {
    c != ','
}

proof fn lemma_group_thousands(digits: Seq<char>)
    requires
        forall|i: int| 0 <= i < digits.len() ==> #[trigger] digits[i] != ',',
    ensures
        group_thousands(digits).filter(|c: char| not_comma(c)) == digits,
        digits.len() >= 1 ==> group_thousands(digits).len() >= 1 && group_thousands(digits)[0] != ',',
    decreases digits.len(),
{
    broadcast use Seq::filter_distributes_over_add;

    let f = |c: char| not_comma(c);
    if digits.len() <= 3 {
        lemma_filter_identity(digits);
    } else {
        let head = digits.take(digits.len() - 3);
        let tail = digits.skip(digits.len() - 3);
        lemma_group_thousands(head);
        lemma_filter_identity(tail);
        assert(seq![','].filter(f) =~= Seq::<char>::empty()) by {
            reveal_with_fuel(Seq::filter, 2);
        }
        assert((group_thousands(head) + seq![',']).filter(f) == group_thousands(head).filter(f)
            + seq![','].filter(f));
        assert(head + tail =~= digits);
    }
}

proof fn lemma_filter_identity(s: Seq<char>)
    requires
        forall|i: int| 0 <= i < s.len() ==> #[trigger] s[i] != ',',
    ensures
        s.filter(|c: char| not_comma(c)) == s,
    decreases s.len(),
{
    reveal_with_fuel(Seq::filter, 1);
    if s.len() > 0 {
        let p = s.drop_last();
        assert forall|i: int| 0 <= i < p.len() implies #[trigger] p[i] != ',' by {
            assert(p[i] == s[i]);
        }
        lemma_filter_identity(p);
        assert(s.last() == s[s.len() - 1]);
        assert(s.filter(|c: char| not_comma(c)) =~= p.filter(|c: char| not_comma(c)).push(s.last()));
        assert(p.push(s.last()) =~= s);
    }
}

/// Separating thousands is lossless: dropping the commas of
/// `format_number(n)` gives back the decimal digits of `n`, and the text
/// never starts with a comma.
pub proof fn law_format_number_digits(n: nat)
    ensures
        with_thousands(n).filter(|c: char| not_comma(c)) == decimal(n),
        with_thousands(n).len() >= 1,
        with_thousands(n)[0] != ',',
{
    lemma_decimal_digits(n);
    lemma_group_thousands(decimal(n));
}


// ── A whole session ─────────────────────────────────────────────────────────

/// One recording step of a session: a compression (byte sizes of the text
/// before and after), a call without text, a cache hit or a knowledge hit
/// (token sizes of the stored response).
pub enum MetricsStep {
    Record(nat, nat),
    Call,
    CacheHit(usize, usize),
    KnowledgeHit(usize, usize),
}

pub open spec fn apply_step(m: MetricsView, s: MetricsStep) -> MetricsView {
    match s {
        MetricsStep::Record(a, b) => after_record(m, a, b),
        MetricsStep::Call => after_call(m),
        MetricsStep::CacheHit(a, b) => after_cache_hit(m, a, b),
        MetricsStep::KnowledgeHit(a, b) => after_knowledge_hit(m, a, b),
    }
}

/// The counters after the steps, in order.
pub open spec fn apply_steps(m: MetricsView, steps: Seq<MetricsStep>) -> MetricsView
    decreases steps.len(),
{
    if steps.len() == 0 {
        m
    } else {
        apply_step(apply_steps(m, steps.drop_last()), steps.last())
    }
}

/// The tokens a step adds to the input and output counters.
pub open spec fn step_tokens(s: MetricsStep) -> (nat, nat) {
    match s {
        MetricsStep::Record(a, b) => (token_estimate(a), token_estimate(b)),
        MetricsStep::Call => (0, 0),
        MetricsStep::CacheHit(a, b) => (a as nat, b as nat),
        MetricsStep::KnowledgeHit(a, b) => (a as nat, b as nat),
    }
}

/// What the steps add up to: tokens in, tokens out, cache hits, knowledge
/// hits.
pub open spec fn step_totals(steps: Seq<MetricsStep>) -> (nat, nat, nat, nat)
    decreases steps.len(),
{
    if steps.len() == 0 {
        (0, 0, 0, 0)
    } else {
        let (i, o, c, k) = step_totals(steps.drop_last());
        let (a, b) = step_tokens(steps.last());
        (
            i + a,
            o + b,
            c + if steps.last() is CacheHit { 1nat } else { 0nat },
            k + if steps.last() is KnowledgeHit { 1nat } else { 0nat },
        )
    }
}

/// A session adds up: starting from a new session, so long as no counter
/// wraps, every step counts one tool call, the hit counters count the hits,
/// the token counters hold the sums of the steps' tokens, hits never
/// outnumber calls, and the tokens saved never exceed the tokens in.
pub proof fn law_session_totals(steps: Seq<MetricsStep>)
    requires
        steps.len() <= usize::MAX,
        step_totals(steps).0 <= usize::MAX,
        step_totals(steps).1 <= usize::MAX,
    ensures
        ({
            let m = apply_steps(Metrics::new_view(), steps);
            let (i, o, c, k) = step_totals(steps);
            &&& m.tool_calls == steps.len()
            &&& m.tokens_in == i
            &&& m.tokens_out == o
            &&& m.cache_hits == c
            &&& m.knowledge_hits == k
            &&& m.cache_hits + m.knowledge_hits <= m.tool_calls
            &&& saved(m.tokens_in as nat, m.tokens_out as nat) <= m.tokens_in
        }),
    decreases steps.len(),
{
    if steps.len() > 0 {
        law_session_totals(steps.drop_last());
    }
}

} // verus!
