use std::path::PathBuf;
use trimcp::checkpoint::{SaveAction, StatsCheckpoint};
use trimcp::metrics::Metrics;
use trimcp::stats_store::{ServerStats, StatsStore};
use trimcp::strmap::StrMap;

fn empty_store() -> StatsStore {
    StatsStore::from_parts(PathBuf::from("/tmp/stats.json"), StrMap::new())
}

#[test]
fn test_server_stats_tokens_saved() {
    let s = ServerStats {
        total_calls: 10,
        tokens_in: 1000,
        tokens_out: 600,
        sessions: 2,
        cache_hits: 0,
        knowledge_hits: 0,
    };
    assert_eq!(s.tokens_saved(), 400);
}

#[test]
fn test_stats_store_record_accumulates() {
    let mut store = empty_store();
    let mut m = Metrics::new();
    m.record("a".repeat(400).as_str(), "a".repeat(200).as_str());
    store.record("my-server", &m);

    let stats = store.all().get("my-server").unwrap();
    assert_eq!(stats.sessions, 1);
    assert_eq!(stats.total_calls, 1);
    assert!(stats.tokens_in > 0);
}

#[test]
fn test_stats_store_record_multiple_sessions() {
    let mut store = empty_store();
    for i in 0..3u32 {
        let mut m = Metrics::new();
        m.record("a".repeat(400 * (i as usize + 1)).as_str(), "a".repeat(200).as_str());
        store.record("server-b", &m);
    }
    let stats = store.all().get("server-b").unwrap();
    assert_eq!(stats.sessions, 3);
    assert_eq!(stats.total_calls, 3);
    assert_eq!(stats.tokens_in, 100 + 200 + 300);
    assert_eq!(stats.tokens_out, 150);
}

#[test]
fn default_stats_are_zero() {
    let s = ServerStats::default();
    assert_eq!(s.total_calls, 0);
    assert_eq!(s.sessions, 0);
    assert_eq!(s.tokens_saved(), 0);
}

#[test]
fn tokens_saved_saturates() {
    let s = ServerStats { tokens_in: 5, tokens_out: 9, ..ServerStats::default() };
    assert_eq!(s.tokens_saved(), 0);
}

#[test]
fn delta_then_session_equals_record() {
    let mut m = Metrics::new();
    m.record(&"b".repeat(80), &"b".repeat(20));
    m.record_cache_hit_with_tokens(10, 3);

    let mut a = empty_store();
    a.record("s", &m);

    let mut b = empty_store();
    b.record_delta("s", m.tool_calls(), m.tokens_in(), m.tokens_out(), m.cache_hits(), m.knowledge_hits());
    b.increment_sessions("s");

    assert_eq!(a.all().get("s"), b.all().get("s"));
    assert_eq!(b.all().get("s").unwrap().cache_hits, 1);
}

#[test]
fn other_servers_are_untouched() {
    let mut store = empty_store();
    store.increment_sessions("a");
    store.record_delta("b", 2, 30, 10, 0, 1);
    assert_eq!(store.all().len(), 2);
    assert_eq!(store.all().get("a").unwrap().sessions, 1);
    assert_eq!(store.all().get("a").unwrap().total_calls, 0);
    assert_eq!(store.all().get("b").unwrap().sessions, 0);
    assert_eq!(store.all().get("b").unwrap().knowledge_hits, 1);
}

#[test]
fn checkpoint_reports_only_new_work() {
    let mut cp = StatsCheckpoint::new();
    let mut m = Metrics::new();
    assert!(cp.pending(&m).is_none());
    m.record(&"c".repeat(40), &"c".repeat(8));
    let d = cp.pending(&m).expect("pending work");
    assert_eq!((d.calls, d.tokens_in, d.tokens_out), (1, 10, 2));
    cp.commit(&m);
    assert_eq!(cp.saved_calls(), 1);
    assert!(cp.pending(&m).is_none());
    m.record_cache_hit_with_tokens(10, 2);
    let d2 = cp.pending(&m).expect("pending work");
    assert_eq!((d2.calls, d2.tokens_in, d2.cache_hits), (1, 10, 1));
    assert_eq!(cp.saved_cache_hits(), 0);
}

#[test]
fn persisted_deltas_add_up_to_the_session() {
    let mut store = empty_store();
    let mut cp = StatsCheckpoint::new();
    let mut m = Metrics::new();
    m.record(&"d".repeat(40), &"d".repeat(8));
    let d = cp.pending(&m).unwrap();
    store.record_delta("s", d.calls, d.tokens_in, d.tokens_out, d.cache_hits, d.knowledge_hits);
    cp.commit(&m);
    m.record(&"d".repeat(80), &"d".repeat(8));
    let d = cp.pending(&m).unwrap();
    store.record_delta("s", d.calls, d.tokens_in, d.tokens_out, d.cache_hits, d.knowledge_hits);
    let s = store.all().get("s").unwrap();
    assert_eq!(s.total_calls, m.tool_calls());
    assert_eq!(s.tokens_in, m.tokens_in());
    assert_eq!(s.tokens_out, m.tokens_out());
}

#[test]
fn totals_add_every_server() {
    let mut servers = StrMap::new();
    servers.insert("a".to_string(), ServerStats { total_calls: 2, tokens_in: 100, tokens_out: 40, sessions: 1, cache_hits: 1, knowledge_hits: 0 });
    servers.insert("b".to_string(), ServerStats { total_calls: 3, tokens_in: 50, tokens_out: 50, sessions: 2, cache_hits: 0, knowledge_hits: 4 });
    let t = trimcp::cmd_stats::stats_totals(&servers).unwrap();
    assert_eq!(t, ServerStats { total_calls: 5, tokens_in: 150, tokens_out: 90, sessions: 3, cache_hits: 1, knowledge_hits: 4 });
    assert_eq!(t.tokens_saved(), 60);
}

#[test]
fn totals_report_overflow() {
    let mut servers = StrMap::new();
    servers.insert("a".to_string(), ServerStats { tokens_in: usize::MAX, ..ServerStats::default() });
    servers.insert("b".to_string(), ServerStats { tokens_in: 1, ..ServerStats::default() });
    assert!(trimcp::cmd_stats::stats_totals(&servers).is_none());
    assert!(trimcp::cmd_stats::stats_totals(&StrMap::new()).is_some());
}

#[test]
fn servers_rank_by_tokens_saved_then_map_order() {
    let mut servers = StrMap::new();
    servers.insert("low".to_string(), ServerStats { tokens_in: 10, tokens_out: 9, ..ServerStats::default() });
    servers.insert("high".to_string(), ServerStats { tokens_in: 100, tokens_out: 1, ..ServerStats::default() });
    servers.insert("tie".to_string(), ServerStats { tokens_in: 5, tokens_out: 4, ..ServerStats::default() });
    servers.insert("none".to_string(), ServerStats::default());
    let order = trimcp::cmd_stats::rank_by_saved(&servers);
    let names: Vec<&str> = order.iter().map(|&i| servers.entries()[i].0.as_str()).collect();
    assert_eq!(names, vec!["high", "low", "tie", "none"]);
}

#[test]
fn next_action_after_each_response() {
    let mut cp = StatsCheckpoint::new();
    let mut m = Metrics::new();
    assert_eq!(cp.next_action(&m), SaveAction::Nothing);
    m.record(&"e".repeat(8), &"e".repeat(4));
    match cp.next_action(&m) {
        SaveAction::Save(d) => {
            assert_eq!((d.calls, d.tokens_in, d.tokens_out), (1, 2, 1));
            cp.commit(&m);
        }
        other => panic!("expected a save, got {other:?}"),
    }
    assert_eq!(cp.next_action(&m), SaveAction::Nothing);
    assert!(cp.can_take(&m));
}

#[test]
fn store_keeps_its_file_through_updates() {
    let mut store = empty_store();
    assert_eq!(store.path(), &PathBuf::from("/tmp/stats.json"));
    store.increment_sessions("s");
    store.record_delta("s", 1, 2, 3, 0, 0);
    assert_eq!(store.path(), &PathBuf::from("/tmp/stats.json"));
}

#[test]
fn overflow_checks_before_updates() {
    let mut servers = StrMap::new();
    servers.insert("full".to_string(), ServerStats { sessions: usize::MAX, tokens_in: usize::MAX - 1, ..ServerStats::default() });
    let store = StatsStore::from_parts(PathBuf::from("/tmp/s.json"), servers);
    assert!(!store.can_count_session("full"));
    assert!(store.can_count_session("other"));
    assert!(store.fits_delta("full", 1, 1, 0, 0, 0));
    assert!(!store.fits_delta("full", 0, 2, 0, 0, 0));
    assert!(store.fits_delta("other", usize::MAX, 0, 0, 0, 0));
}
