use trimcp::clients::ServerStatus;
use trimcp::status::{format_status, status_rank};

#[test]
fn test_format_status_proxied() {
    assert_eq!(format_status(&ServerStatus::Proxied), "✓ proxied");
}

#[test]
fn test_format_status_direct() {
    assert_eq!(format_status(&ServerStatus::Direct), "✗ direct");
}

#[test]
fn test_format_status_disabled() {
    assert_eq!(format_status(&ServerStatus::Disabled), "- disabled");
}

#[test]
fn test_format_status_http() {
    assert_eq!(format_status(&ServerStatus::Http), "~ http");
}

#[test]
fn test_status_rank_ordering() {
    assert!(status_rank(&ServerStatus::Proxied) < status_rank(&ServerStatus::Direct));
    assert!(status_rank(&ServerStatus::Direct) < status_rank(&ServerStatus::Disabled));
    assert!(status_rank(&ServerStatus::Disabled) < status_rank(&ServerStatus::Http));
}

#[test]
fn status_ranks_are_distinct_and_start_at_zero() {
    assert_eq!(status_rank(&ServerStatus::Proxied), 0);
    assert_eq!(status_rank(&ServerStatus::Http), 3);
}
