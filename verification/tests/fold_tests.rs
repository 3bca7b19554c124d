use backtest_dashboard::model::{EquityPoint, OrderEntry, OrderView, ResultSnapshot};
use backtest_dashboard::parse::parse_u64;
use backtest_dashboard::state::TerminalData;
use backtest_dashboard::text::split_lines;
use backtest_dashboard::Message;

fn order_view(tag: &str) -> OrderView {
    OrderView {
        time: format!("{}-time", tag),
        order_type: format!("{}-type", tag),
        side: format!("{}-side", tag),
        quantity: format!("{}-qty", tag),
        symbol: format!("{}-sym", tag),
    }
}

fn entry(id: &str, tag: &str) -> OrderEntry {
    OrderEntry { id: String::from(id), view: order_view(tag) }
}

fn point(time: i64, value: i64) -> EquityPoint {
    EquityPoint { time, value }
}

fn snapshot(
    equity: Option<Vec<EquityPoint>>,
    orders: Option<Vec<OrderEntry>>,
) -> ResultSnapshot {
    ResultSnapshot { equity_points: equity, orders }
}

#[test]
fn orders_sorted_by_numeric_id() {
    // Orders {"3": A, "1": B, "2": C} come out as B, C, A.
    let mut data = TerminalData::new();
    data.packet(snapshot(
        None,
        Some(vec![entry("3", "a"), entry("1", "b"), entry("2", "c")]),
    ));
    let times: Vec<&str> = data.order_time.iter().map(|s| s.as_str()).collect();
    assert_eq!(times, vec!["b-time", "c-time", "a-time"]);
    let syms: Vec<&str> = data.order_symbol.iter().map(|s| s.as_str()).collect();
    assert_eq!(syms, vec!["b-sym", "c-sym", "a-sym"]);
    assert_eq!(data.order_type.len(), 3);
    assert_eq!(data.order_sides.len(), 3);
    assert_eq!(data.order_qty.len(), 3);
}

#[test]
fn orders_replaced_wholesale() {
    let mut data = TerminalData::new();
    data.packet(snapshot(None, Some(vec![entry("1", "a"), entry("2", "b")])));
    assert_eq!(data.order_time.len(), 2);
    data.packet(snapshot(None, Some(vec![entry("9", "z")])));
    assert_eq!(data.order_time.len(), 1);
    assert_eq!(data.order_time[0], "z-time");
    // An empty payload that is present replaces the columns with nothing.
    data.packet(snapshot(None, Some(vec![])));
    assert_eq!(data.order_time.len(), 0);
}

#[test]
fn orders_untouched_without_payload() {
    let mut data = TerminalData::new();
    data.packet(snapshot(None, Some(vec![entry("1", "a")])));
    let before_time = data.order_time.clone();
    let before_sym = data.order_symbol.clone();
    data.packet(snapshot(Some(vec![point(1, 10)]), None));
    assert_eq!(data.order_time, before_time);
    assert_eq!(data.order_symbol, before_sym);
}

#[test]
fn malformed_order_id_dropped() {
    let mut data = TerminalData::new();
    data.packet(snapshot(
        None,
        Some(vec![entry("x", "a"), entry("2", "b"), entry("-1", "c")]),
    ));
    assert_eq!(data.order_time.len(), 1);
    assert_eq!(data.order_time[0], "b-time");
}

#[test]
fn equal_numeric_ids_keep_arrival_order() {
    let mut data = TerminalData::new();
    data.packet(snapshot(None, Some(vec![entry("03", "a"), entry("3", "b")])));
    let times: Vec<&str> = data.order_time.iter().map(|s| s.as_str()).collect();
    assert_eq!(times, vec!["a-time", "b-time"]);
}

#[test]
fn equity_merges_sorted_and_deduplicated() {
    let mut data = TerminalData::new();
    data.packet(snapshot(Some(vec![point(2, 5), point(1, 3)]), None));
    assert_eq!(data.equity, vec![point(1, 3), point(2, 5)]);
    // Resending the same points grows nothing.
    data.packet(snapshot(Some(vec![point(1, 3), point(2, 5)]), None));
    assert_eq!(data.equity, vec![point(1, 3), point(2, 5)]);
    // New points merge in, they do not replace.
    data.packet(snapshot(Some(vec![point(3, 7)]), None));
    assert_eq!(data.equity, vec![point(1, 3), point(2, 5), point(3, 7)]);
}

#[test]
fn equity_filters_non_positive_values() {
    let mut data = TerminalData::new();
    data.packet(snapshot(
        Some(vec![point(1, 10), point(2, -5), point(3, 0)]),
        None,
    ));
    assert_eq!(data.equity, vec![point(1, 10)]);
    // However often a non-positive point is resent, it never appears.
    data.packet(snapshot(Some(vec![point(2, -5)]), None));
    assert_eq!(data.equity, vec![point(1, 10)]);
}

#[test]
fn equity_equal_times_keep_arrival_order() {
    let mut data = TerminalData::new();
    data.packet(snapshot(Some(vec![point(1, 5), point(1, 3)]), None));
    assert_eq!(data.equity, vec![point(1, 5), point(1, 3)]);
}

#[test]
fn log_splits_multi_line_payloads() {
    let mut data = TerminalData::new();
    data.log(String::from("hello"), false);
    data.log(String::from("line1\nline2"), true);
    assert_eq!(data.logs.len(), 3);
    assert_eq!(data.logs[0].text, "hello");
    assert!(!data.logs[0].is_error);
    assert_eq!(data.logs[1].text, "line1");
    assert!(data.logs[1].is_error);
    assert_eq!(data.logs[2].text, "line2");
    assert!(data.logs[2].is_error);
}

#[test]
fn split_lines_matches_line_ending_rules() {
    let split = |s: &str| -> Vec<String> { split_lines(s) };
    assert_eq!(split("line1\nline2"), vec!["line1", "line2"]);
    assert_eq!(split("a\r\nb"), vec!["a", "b"]);
    assert_eq!(split("a\n"), vec!["a"]);
    assert_eq!(split(""), Vec::<String>::new());
    assert_eq!(split("\n"), vec![""]);
    assert_eq!(split("a\r"), vec!["a\r"]);
    assert_eq!(split("a\n\nb"), vec!["a", "", "b"]);
}

#[test]
fn parse_u64_accepts_exactly_decimal_numerals() {
    assert_eq!(parse_u64("0"), Some(0));
    assert_eq!(parse_u64("42"), Some(42));
    assert_eq!(parse_u64("007"), Some(7));
    assert_eq!(parse_u64("18446744073709551615"), Some(u64::MAX));
    assert_eq!(parse_u64("18446744073709551616"), None);
    assert_eq!(parse_u64(""), None);
    assert_eq!(parse_u64("+3"), None);
    assert_eq!(parse_u64("-3"), None);
    assert_eq!(parse_u64("12a"), None);
}

#[test]
fn stop_event_changes_nothing_and_ends_loop() {
    let mut data = TerminalData::new();
    data.log(String::from("hello"), false);
    let before_logs = data.logs.len();
    let done = data.handle_data(Message::Stop);
    assert!(done);
    assert_eq!(data.logs.len(), before_logs);
    assert!(!data.handle_data(Message::Log(String::from("more"), false)));
}

#[test]
fn default_state_is_empty() {
    let data = TerminalData::default();
    assert_eq!(data.logs.len(), 0);
    assert_eq!(data.equity.len(), 0);
    assert_eq!(data.order_time.len(), 0);
    assert_eq!(data.order_type.len(), 0);
    assert_eq!(data.order_sides.len(), 0);
    assert_eq!(data.order_qty.len(), 0);
    assert_eq!(data.order_symbol.len(), 0);
}
