use conntop::pattern::{Tab, TabSpecError};
use conntop::stats::{ConnectionStats, StatsValue};
use conntop::ui::{InputEvent, PollOutcome, Ui, UiOpts};
use conntop::window::HistoryItem;

fn num(n: i64) -> StatsValue {
    StatsValue::Number(n)
}

fn txt(s: &str) -> StatsValue {
    StatsValue::Other(s.to_string())
}

fn conn(pairs: Vec<(&str, StatsValue)>) -> ConnectionStats {
    ConnectionStats { stats: pairs.into_iter().map(|(k, v)| (k.to_string(), v)).collect() }
}

fn tab(spec: &str) -> Tab {
    Tab::parse(spec).ok().unwrap()
}

fn ui(retention_period: u64, specs: Vec<&str>) -> Ui {
    let tabs: Vec<Tab> = specs.into_iter().map(tab).collect();
    Ui::new(UiOpts { retention_period, tab: tabs })
}

#[test]
fn tab_spec_matches_and_rejects() {
    let t = tab("fast=rtt:^[0-2][0-9]$");
    assert_eq!(t.label().as_str(), "fast");
    assert!(t.is_match(&conn(vec![("rtt", txt("15"))]).stats));
    assert!(!t.is_match(&conn(vec![("rtt", txt("200"))]).stats));
}

#[test]
fn tab_spec_splits_on_first_separator() {
    let t = tab("a=b=c:d");
    assert_eq!(t.label().as_str(), "a");
    // The key pattern is "b=c", the value pattern "d"; both match anywhere.
    assert!(t.is_match(&conn(vec![("xb=cy", txt("d"))]).stats));
    assert!(!t.is_match(&conn(vec![("plain", txt("d"))]).stats));
}

#[test]
fn tab_spec_without_equals_is_malformed() {
    match Tab::parse("noequals") {
        Err(TabSpecError::Malformed { input }) => assert_eq!(input, "noequals"),
        _ => panic!("expected a malformed tab spec"),
    }
}

#[test]
fn tab_spec_without_colon_is_malformed() {
    match Tab::parse("a=b") {
        Err(TabSpecError::Malformed { input }) => assert_eq!(input, "a=b"),
        _ => panic!("expected a malformed tab spec"),
    }
}

#[test]
fn bad_key_pattern_is_reported() {
    match Tab::parse("a=(:b") {
        Err(TabSpecError::Pattern { pattern, message }) => {
            assert_eq!(pattern, "(");
            assert!(!message.is_empty());
        },
        _ => panic!("expected a pattern error"),
    }
}

#[test]
fn bad_value_pattern_is_reported() {
    match Tab::parse("a=.*:(") {
        Err(TabSpecError::Pattern { pattern, .. }) => assert_eq!(pattern, "("),
        _ => panic!("expected a pattern error"),
    }
}

#[test]
fn numeric_values_match_by_their_text() {
    let t = tab("n=.*:^15$");
    assert!(t.is_match(&conn(vec![("x", num(15))]).stats));
    assert!(!t.is_match(&conn(vec![("x", num(150))]).stats));
}

#[test]
fn value_pattern_is_consulted() {
    let t = tab("w=^k$:^v$");
    assert!(t.is_match(&conn(vec![("k", txt("v"))]).stats));
    assert!(!t.is_match(&conn(vec![("k", txt("w"))]).stats));
    assert!(!t.is_match(&conn(vec![("j", txt("v"))]).stats));
}

#[test]
fn tab_navigation_stays_in_range() {
    let mut u = ui(1000, vec!["a=.*:.*", "b=.*:.*"]);
    assert_eq!(u.active_tab_index(), 0);
    let r = u.handle_input(&InputEvent::NextTab, 0);
    assert!(!r.quit && r.redraw);
    let r = u.handle_input(&InputEvent::NextTab, 0);
    assert!(!r.quit && !r.redraw);
    u.handle_input(&InputEvent::NextTab, 0);
    assert_eq!(u.active_tab_index(), 1);
    u.handle_input(&InputEvent::PrevTab, 0);
    u.handle_input(&InputEvent::PrevTab, 0);
    u.handle_input(&InputEvent::PrevTab, 0);
    assert_eq!(u.active_tab_index(), 0);
}

#[test]
fn selection_moves_are_clamped() {
    let mut u = ui(1000, vec!["total=.*:.*"]);
    assert_eq!(u.selected_row(), None);
    u.handle_input(&InputEvent::SelectDown, 3);
    assert_eq!(u.selected_row(), Some(0));
    u.handle_input(&InputEvent::SelectDown, 3);
    u.handle_input(&InputEvent::SelectDown, 3);
    assert_eq!(u.selected_row(), Some(2));
    u.handle_input(&InputEvent::SelectDown, 3);
    assert_eq!(u.selected_row(), Some(2));
    u.handle_input(&InputEvent::SelectUp, 3);
    assert_eq!(u.selected_row(), Some(1));
    u.handle_input(&InputEvent::SelectUp, 3);
    u.handle_input(&InputEvent::SelectUp, 3);
    assert_eq!(u.selected_row(), Some(0));
}

#[test]
fn selection_on_empty_table_stays_at_top() {
    let mut u = ui(1000, vec!["total=.*:.*"]);
    u.handle_input(&InputEvent::SelectDown, 0);
    assert_eq!(u.selected_row(), Some(0));
    u.handle_input(&InputEvent::SelectDown, 0);
    assert_eq!(u.selected_row(), Some(0));
}

#[test]
fn quit_and_ignored_keys() {
    let mut u = ui(1000, vec!["total=.*:.*"]);
    let r = u.handle_input(&InputEvent::Other, 0);
    assert!(!r.quit && !r.redraw);
    let r = u.handle_input(&InputEvent::Quit, 0);
    assert!(r.quit && !r.redraw);
}

#[test]
fn poll_timeout_changes_nothing() {
    let mut u = ui(1000, vec!["total=.*:.*"]);
    let r = u.handle_poll(PollOutcome::Timeout);
    assert!(matches!(r, Ok(false)));
    assert!(u.aggregated_rows().is_empty());
}

#[test]
fn poll_closed_is_fatal() {
    let mut u = ui(1000, vec!["total=.*:.*"]);
    let r = u.handle_poll(PollOutcome::Closed);
    assert!(r.is_err());
}

#[test]
fn poll_snapshot_feeds_the_table() {
    let mut u = ui(1000, vec!["total=.*:.*"]);
    assert!(u.aggregated_rows().is_empty());
    let item = HistoryItem { timestamp: 1, connections: vec![conn(vec![("a", num(2))])] };
    let r = u.handle_poll(PollOutcome::Snapshot(item));
    assert!(matches!(r, Ok(true)));
    let rows = u.aggregated_rows();
    assert_eq!(rows.len(), 1);
    assert_eq!(rows[0].key, "a");
    assert_eq!(rows[0].aggregated_value(), Ok(2));
}

#[test]
fn only_the_latest_snapshot_is_aggregated() {
    let mut u = ui(10_000, vec!["total=.*:.*"]);
    let first = HistoryItem { timestamp: 1, connections: vec![conn(vec![("old", num(1))])] };
    let second = HistoryItem { timestamp: 2, connections: vec![conn(vec![("new", num(2))])] };
    u.handle_poll(PollOutcome::Snapshot(first)).ok().unwrap();
    u.handle_poll(PollOutcome::Snapshot(second)).ok().unwrap();
    let rows = u.aggregated_rows();
    assert_eq!(rows.len(), 1);
    assert_eq!(rows[0].key, "new");
}

#[test]
fn switching_tabs_switches_the_filter() {
    let mut u = ui(1000, vec!["first=^a$:.*", "second=^b$:.*"]);
    assert_eq!(u.tab_len(), 2);
    assert_eq!(u.tab_name(0).as_str(), "first");
    assert_eq!(u.tab_name(1).as_str(), "second");
    let item = HistoryItem {
        timestamp: 1,
        connections: vec![conn(vec![("a", num(1))]), conn(vec![("b", num(2))])],
    };
    u.handle_poll(PollOutcome::Snapshot(item)).ok().unwrap();
    let rows = u.aggregated_rows();
    assert_eq!(rows.len(), 1);
    assert_eq!(rows[0].key, "a");
    u.handle_input(&InputEvent::NextTab, rows.len());
    let rows = u.aggregated_rows();
    assert_eq!(rows.len(), 1);
    assert_eq!(rows[0].key, "b");
}

#[test]
fn selection_survives_tab_switches() {
    let mut u = ui(1000, vec!["a=.*:.*", "b=.*:.*"]);
    u.handle_input(&InputEvent::SelectDown, 5);
    u.handle_input(&InputEvent::SelectDown, 5);
    u.handle_input(&InputEvent::NextTab, 5);
    assert_eq!(u.selected_row(), Some(1));
}
