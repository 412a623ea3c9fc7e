use trimcp::metrics::{format_number, Metrics};

#[test]
fn test_record_accumulates_tokens() {
    let mut m = Metrics::new();
    m.record("hello world longer text here", "hello world");
    assert_eq!(m.tool_calls(), 1);
    assert!(m.tokens_in() > m.tokens_out());
}

#[test]
fn test_tokens_saved_is_difference() {
    let mut m = Metrics::new();
    m.record("a".repeat(100).as_str(), "a".repeat(40).as_str());
    assert_eq!(m.tokens_saved(), m.tokens_in() - m.tokens_out());
}

#[test]
fn test_multiple_records_accumulate() {
    let mut m = Metrics::new();
    m.record("text one longer", "text one");
    m.record("text two longer", "text two");
    assert_eq!(m.tool_calls(), 2);
}

#[test]
fn test_format_number_thousands() {
    assert_eq!(format_number(1_000), "1,000");
    assert_eq!(format_number(1_234_567), "1,234,567");
    assert_eq!(format_number(42), "42");
}

#[test]
fn new_metrics_are_zero() {
    let m = Metrics::new();
    assert_eq!(m.tool_calls(), 0);
    assert_eq!(m.tokens_in(), 0);
    assert_eq!(m.tokens_out(), 0);
    assert_eq!(m.cache_hits(), 0);
    assert_eq!(m.knowledge_hits(), 0);
    assert_eq!(m.tokens_saved(), 0);
}

#[test]
fn record_adds_estimated_tokens() {
    let mut m = Metrics::new();
    m.record(&"a".repeat(400), &"a".repeat(200));
    assert_eq!(m.tokens_in(), 100);
    assert_eq!(m.tokens_out(), 50);
    assert_eq!(m.tokens_saved(), 50);
}

#[test]
fn record_call_counts_without_tokens() {
    let mut m = Metrics::new();
    m.record_call();
    m.record_call();
    assert_eq!(m.tool_calls(), 2);
    assert_eq!(m.tokens_in(), 0);
}

#[test]
fn cache_and_knowledge_hits_count_calls_and_tokens() {
    let mut m = Metrics::new();
    m.record_cache_hit_with_tokens(30, 10);
    m.record_knowledge_hit_with_tokens(20, 5);
    assert_eq!(m.tool_calls(), 2);
    assert_eq!(m.cache_hits(), 1);
    assert_eq!(m.knowledge_hits(), 1);
    assert_eq!(m.tokens_in(), 50);
    assert_eq!(m.tokens_out(), 15);
    assert_eq!(m.tokens_saved(), 35);
}

#[test]
fn tokens_saved_is_zero_when_output_grew() {
    let mut m = Metrics::new();
    m.record("ab", "abcdefghijkl");
    assert_eq!(m.tokens_saved(), 0);
}

#[test]
fn format_number_edge_cases() {
    assert_eq!(format_number(0), "0");
    assert_eq!(format_number(999), "999");
    assert_eq!(format_number(100_000), "100,000");
    assert_eq!(format_number(12_345), "12,345");
}

#[test]
fn a_session_adds_up() {
    let mut m = Metrics::new();
    m.record(&"a".repeat(40), &"a".repeat(8));
    m.record_call();
    m.record_cache_hit_with_tokens(7, 3);
    m.record_knowledge_hit_with_tokens(5, 5);
    assert_eq!(m.tool_calls(), 4);
    assert!(m.cache_hits() + m.knowledge_hits() <= m.tool_calls());
    assert_eq!(m.tokens_in(), 10 + 7 + 5);
    assert_eq!(m.tokens_out(), 2 + 3 + 5);
    assert!(m.tokens_saved() <= m.tokens_in());
}
