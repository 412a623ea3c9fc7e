use trimcp::cmd_stats::{fmt_num, truncate};

#[test]
fn test_fmt_num_thousands() {
    assert_eq!(fmt_num(1_000), "1,000");
    assert_eq!(fmt_num(12_345), "12,345");
    assert_eq!(fmt_num(1_234_567), "1,234,567");
}

#[test]
fn test_truncate() {
    assert_eq!(truncate("hello", 10), "hello");
    assert_eq!(truncate("hello world foo", 10), "hello wor…");
}

#[test]
fn truncate_at_exact_length_keeps_text() {
    assert_eq!(truncate("abcde", 5), "abcde");
    assert_eq!(truncate("abcdef", 5), "abcd…");
}

#[test]
fn fmt_num_small_values() {
    assert_eq!(fmt_num(0), "0");
    assert_eq!(fmt_num(7), "7");
}
