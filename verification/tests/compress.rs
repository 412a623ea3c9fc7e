use trimcp::compress::{
    estimate_tokens, tokens_saved, CompactJson, CompressionStrategy, Dedup, Minify, Pipeline,
    StripAnsi, StripComments,
};

// ── StripAnsi ─────────────────────────────────────────────────────────────

#[test]
fn test_strip_ansi_removes_color_codes() {
    let input = "\x1b[32mhello\x1b[0m world";
    assert_eq!(StripAnsi.compress(input), "hello world");
}

#[test]
fn test_strip_ansi_plain_text_unchanged() {
    let input = "plain text without ansi";
    assert_eq!(StripAnsi.compress(input), input);
}

// ── CompactJson ───────────────────────────────────────────────────────────

#[test]
fn test_compact_json_minifies_pretty_json() {
    let input = "{\n  \"key\": \"value\",\n  \"num\": 42\n}";
    let output = CompactJson.compress(input);
    assert_eq!(output, r#"{"key":"value","num":42}"#);
    assert!(output.len() < input.len());
}

#[test]
fn test_compact_json_leaves_non_json_unchanged() {
    let input = "this is not json";
    assert_eq!(CompactJson.compress(input), input);
}

// ── StripComments ─────────────────────────────────────────────────────────

#[test]
fn test_strip_comments_removes_slash_comments_in_code_block() {
    let input = "```rust\nlet x = 1;\n// this is a comment\nlet y = 2;\n```";
    let output = StripComments.compress(input);
    assert!(!output.contains("// this is a comment"));
    assert!(output.contains("let x = 1;"));
    assert!(output.contains("let y = 2;"));
}

#[test]
fn test_strip_comments_keeps_hash_markdown_headers() {
    let input = "# Title\n## Section\nsome text";
    let output = StripComments.compress(input);
    assert!(output.contains("# Title"));
    assert!(output.contains("## Section"));
}

#[test]
fn test_strip_comments_keeps_slash_comments_outside_code_block() {
    // `//` outside a code block is kept (could be part of prose or URLs)
    let input = "// not in a code block";
    assert_eq!(StripComments.compress(input), input);
}

#[test]
fn test_strip_comments_keeps_inline_comments() {
    // Only strips full-line comments, not inline ones
    let input = "```rust\nlet x = 1; // inline comment\n```";
    assert!(StripComments.compress(input).contains("// inline comment"));
}

// ── Dedup ─────────────────────────────────────────────────────────────────

#[test]
fn test_dedup_collapses_consecutive_duplicates() {
    let input = "INFO started\nINFO started\nINFO started\nERROR failed";
    let output = Dedup.compress(input);
    assert_eq!(output, "INFO started (x3)\nERROR failed");
}

#[test]
fn test_dedup_keeps_non_consecutive_duplicates() {
    let input = "line a\nline b\nline a";
    let output = Dedup.compress(input);
    assert_eq!(output, "line a\nline b\nline a");
}

#[test]
fn test_dedup_single_line_unchanged() {
    let input = "only one line";
    assert_eq!(Dedup.compress(input), input);
}

// ── Minify ────────────────────────────────────────────────────────────────

#[test]
fn test_minify_collapses_multiple_blank_lines() {
    let input = "line one\n\n\n\nline two";
    let output = Minify.compress(input);
    assert_eq!(output, "line one\n\nline two");
}

#[test]
fn test_minify_trims_trailing_whitespace() {
    let input = "line one   \nline two  ";
    let output = Minify.compress(input);
    assert_eq!(output, "line one\nline two");
}

// ── estimate_tokens ───────────────────────────────────────────────────────

#[test]
fn test_estimate_tokens_approximation() {
    let text = "hello world"; // 11 chars → 3 tokens
    assert_eq!(estimate_tokens(text), 3);
}

#[test]
fn test_tokens_saved_returns_difference() {
    let original = "a".repeat(100);
    let compressed = "a".repeat(40);
    assert_eq!(tokens_saved(&original, &compressed), 15);
}

// ── Pipeline ──────────────────────────────────────────────────────────────

#[test]
fn test_pipeline_applies_all_strategies() {
    let input = "\x1b[32mINFO started\x1b[0m\nINFO started\nINFO started\n\n\n";
    let output = Pipeline::default_pipeline().compress(input);
    assert!(!output.contains("\x1b["));
    assert!(output.contains("(x3)"));
    assert!(!output.ends_with("\n\n"));
}

// ── Further cases ─────────────────────────────────────────────────────────

#[test]
fn strip_ansi_removes_cursor_movement_and_keeps_text() {
    assert_eq!(StripAnsi.compress("a\x1b[2Kb\x1b[1;31mc"), "abc");
    assert_eq!(StripAnsi.compress(""), "");
}

#[test]
fn strip_ansi_is_idempotent_on_example() {
    let once = StripAnsi.compress("\x1b[1mbold\x1b[0m and \x1b[4munderline\x1b[24m");
    assert_eq!(once, "bold and underline");
    assert_eq!(StripAnsi.compress(&once), once);
}

#[test]
fn compact_json_minifies_nested_arrays() {
    let input = "[ 1, 2,\n  { \"a\" : [ true, null ] } ]";
    assert_eq!(CompactJson.compress(input), r#"[1,2,{"a":[true,null]}]"#);
}

#[test]
fn compact_json_keeps_text_that_is_already_compact() {
    let input = r#"{"a":1}"#;
    assert_eq!(CompactJson.compress(input), input);
}

#[test]
fn compact_json_keeps_unbalanced_json() {
    let input = "{\"a\": 1";
    assert_eq!(CompactJson.compress(input), input);
}

#[test]
fn strip_comments_removes_indented_comment_lines_and_keeps_hash_in_code() {
    let input = "```sh\nx=1\n   // note\n# keep me\n```\n// prose";
    let output = StripComments.compress(input);
    assert_eq!(output, "```sh\nx=1\n# keep me\n```\n// prose");
}

#[test]
fn dedup_of_two_runs() {
    assert_eq!(Dedup.compress("a\na\nb\nb\nb"), "a (x2)\nb (x3)");
    assert_eq!(Dedup.compress(""), "");
}

#[test]
fn minify_keeps_one_trailing_blank_line() {
    assert_eq!(Minify.compress("a\n\n\n"), "a\n");
    assert_eq!(Minify.compress("   "), "");
}

#[test]
fn estimate_tokens_rounds_up() {
    assert_eq!(estimate_tokens(""), 0);
    assert_eq!(estimate_tokens("a"), 1);
    assert_eq!(estimate_tokens("abcd"), 1);
    assert_eq!(estimate_tokens("abcde"), 2);
}

#[test]
fn tokens_saved_never_negative() {
    assert_eq!(tokens_saved("ab", "abcdefghij"), 0);
}

#[test]
fn pipeline_output_of_plain_text_is_unchanged() {
    let input = "nothing to compress here";
    assert_eq!(Pipeline::default_pipeline().compress(input), input);
}

#[test]
fn pipeline_from_settings_runs_only_enabled_strategies() {
    let mut c = trimcp::config::CompressionConfig::default();
    c.dedup = false;
    let p = Pipeline::from_config(&c);
    assert_eq!(p.compress("a\na\n\n\n\nb   "), "a\na\n\nb");
    c.enabled = false;
    assert_eq!(Pipeline::from_config(&c).compress("a\na\n\n\n"), "a\na\n\n\n");
    c.enabled = true;
    c.strip_comments = true;
    c.dedup = true;
    assert_eq!(
        Pipeline::from_config(&c).compress("```\n// x\ny\ny\n```"),
        "```\ny (x2)\n```"
    );
}
