use conntop::aggregate::aggregate;
use conntop::pattern::Tab;
use conntop::stats::{ConnectionStats, StatsItem, StatsValue};
use conntop::window::{HistoryItem, Window};

fn num(n: i64) -> StatsValue {
    StatsValue::Number(n)
}

fn txt(s: &str) -> StatsValue {
    StatsValue::Other(s.to_string())
}

fn conn(pairs: Vec<(&str, StatsValue)>) -> ConnectionStats {
    ConnectionStats { stats: pairs.into_iter().map(|(k, v)| (k.to_string(), v)).collect() }
}

fn snap(timestamp: u64, connections: Vec<ConnectionStats>) -> HistoryItem {
    HistoryItem { timestamp, connections }
}

fn tab(spec: &str) -> Tab {
    Tab::parse(spec).ok().unwrap()
}

fn keys(rows: &[StatsItem]) -> Vec<String> {
    rows.iter().map(|r| r.key.clone()).collect()
}

#[test]
fn latest_empty_window_is_none() {
    let w = Window::new(1000);
    assert!(w.latest().is_none());
    assert_eq!(w.len(), 0);
}

#[test]
fn latest_returns_single_snapshot() {
    let mut w = Window::new(1000);
    w.ingest(snap(7, vec![]));
    let h = w.latest().unwrap();
    assert_eq!(h.timestamp, 7);
    assert_eq!(w.len(), 1);
}

#[test]
fn latest_returns_most_recent_of_many() {
    let mut w = Window::new(1000);
    w.ingest(snap(1, vec![]));
    w.ingest(snap(2, vec![]));
    w.ingest(snap(3, vec![]));
    assert_eq!(w.latest().unwrap().timestamp, 3);
    assert_eq!(w.len(), 3);
}

#[test]
fn eviction_is_exact() {
    let mut w = Window::new(100);
    w.ingest(snap(0, vec![]));
    w.ingest(snap(50, vec![]));
    w.ingest(snap(120, vec![]));
    // 120 - 0 = 120 >= 100 evicted; 120 - 50 = 70 < 100 kept.
    assert_eq!(w.len(), 2);
    assert_eq!(w.get(0).timestamp, 50);
    assert_eq!(w.get(1).timestamp, 120);
    // The boundary case: an age of exactly the retention period is evicted.
    w.ingest(snap(150, vec![]));
    assert_eq!(w.len(), 2);
    assert_eq!(w.get(0).timestamp, 120);
    assert_eq!(w.get(1).timestamp, 150);
}

#[test]
fn zero_retention_keeps_nothing() {
    let mut w = Window::new(0);
    w.ingest(snap(5, vec![]));
    assert_eq!(w.len(), 0);
    assert!(w.latest().is_none());
}

#[test]
fn numeric_key_aggregates_to_sum() {
    let t = tab("total=.*:.*");
    let conns = vec![conn(vec![("a", num(2))]), conn(vec![("a", num(3))])];
    let rows = aggregate(&conns, &t);
    assert_eq!(keys(&rows), vec!["a".to_string()]);
    assert_eq!(rows[0].aggregated_value(), Ok(5));
}

#[test]
fn non_numeric_key_aggregates_to_distinct_count() {
    let t = tab("total=.*:.*");
    let conns = vec![
        conn(vec![("s", txt("ok"))]),
        conn(vec![("s", txt("ok"))]),
        conn(vec![("s", txt("fail"))]),
    ];
    let rows = aggregate(&conns, &t);
    assert_eq!(keys(&rows), vec!["s".to_string()]);
    assert_eq!(rows[0].values.len(), 2);
    assert_eq!(rows[0].aggregated_value(), Err(2));
}

#[test]
fn mixed_key_reports_only_distinct_count() {
    let t = tab("total=.*:.*");
    let conns = vec![conn(vec![("m", num(1))]), conn(vec![("m", txt("x"))])];
    let rows = aggregate(&conns, &t);
    assert_eq!(rows[0].aggregated_value(), Err(2));
}

#[test]
fn matching_connection_contributes_all_its_stats() {
    let t = tab("t=^rtt$:.*");
    let conns = vec![
        conn(vec![("rtt", num(10)), ("loss", num(1))]),
        conn(vec![("bw", num(5))]),
    ];
    let rows = aggregate(&conns, &t);
    assert_eq!(keys(&rows), vec!["loss".to_string(), "rtt".to_string()]);
}

#[test]
fn aggregation_is_order_independent() {
    let t = tab("total=.*:.*");
    let a = vec![
        conn(vec![("a", num(2)), ("s", txt("ok"))]),
        conn(vec![("a", num(3)), ("s", txt("fail"))]),
    ];
    let b = vec![
        conn(vec![("a", num(3)), ("s", txt("fail"))]),
        conn(vec![("a", num(2)), ("s", txt("ok"))]),
    ];
    let ra = aggregate(&a, &t);
    let rb = aggregate(&b, &t);
    assert_eq!(keys(&ra), keys(&rb));
    for (x, y) in ra.iter().zip(rb.iter()) {
        assert_eq!(x.aggregated_value(), y.aggregated_value());
    }
}

#[test]
fn rows_come_out_sorted_by_key() {
    let t = tab("total=.*:.*");
    let conns = vec![conn(vec![("b", num(1)), ("a", num(2)), ("c", num(3))])];
    let rows = aggregate(&conns, &t);
    assert_eq!(
        keys(&rows),
        vec!["a".to_string(), "b".to_string(), "c".to_string()]
    );
}

#[test]
fn no_match_means_no_rows() {
    let t = tab("t=^absent$:.*");
    let conns = vec![conn(vec![("rtt", num(10))])];
    let rows = aggregate(&conns, &t);
    assert!(rows.is_empty());
    let rows2 = aggregate(&vec![], &t);
    assert!(rows2.is_empty());
}

#[test]
fn duplicate_numeric_values_collapse() {
    let t = tab("total=.*:.*");
    let conns = vec![conn(vec![("a", num(2))]), conn(vec![("a", num(2))])];
    let rows = aggregate(&conns, &t);
    assert_eq!(rows[0].values.len(), 1);
    assert_eq!(rows[0].aggregated_value(), Ok(2));
}

#[test]
fn value_text_renders_decimals() {
    assert_eq!(num(0).to_text(), "0");
    assert_eq!(num(42).to_text(), "42");
    assert_eq!(num(-5).to_text(), "-5");
    assert_eq!(num(i64::MAX).to_text(), "9223372036854775807");
    assert_eq!(num(i64::MIN).to_text(), "-9223372036854775808");
    assert_eq!(txt("hi").to_text(), "hi");
}

#[test]
fn model_equality_is_per_variant() {
    assert!(num(2).model_eq(&num(2)));
    assert!(!num(2).model_eq(&num(3)));
    assert!(txt("2").model_eq(&txt("2")));
    assert!(!num(2).model_eq(&txt("2")));
}
