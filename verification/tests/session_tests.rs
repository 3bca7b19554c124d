use backtest_dashboard::layout::{
    split_fixed_horizontal, split_percent_vertical, LeftTerminalChunks, OrdersChunk, Rect,
    RightTerminalChunk, Term,
};
use backtest_dashboard::lifecycle::{SessionPhase, SessionState};
use backtest_dashboard::model::{EquityPoint, ResultSnapshot};
use backtest_dashboard::render::ChartBounds;
use backtest_dashboard::state::TerminalData;
use backtest_dashboard::window::{tail_start, visible_column};
use backtest_dashboard::Message;

fn frame(width: u16, height: u16) -> Rect {
    Rect { x: 0, y: 0, width, height }
}

#[test]
fn layout_partitions_a_normal_frame() {
    let term = Term::new(frame(100, 40));
    // 75% / 25% horizontally.
    assert_eq!(term.left.graph.x, 0);
    assert_eq!(term.left.graph.width, 75);
    assert_eq!(term.right.performance.x, 75);
    assert_eq!(term.right.performance.width, 25);
    // Left side: 70% graph, 30% logs.
    assert_eq!(term.left.graph.height, 28);
    assert_eq!(term.left.logs.y, 28);
    assert_eq!(term.left.logs.height, 12);
    // Right side: 35% performance, 35% metrics, 30% orders row.
    assert_eq!(term.right.performance.y, 0);
    assert_eq!(term.right.performance.height, 14);
    assert_eq!(term.right.metrics.y, 14);
    assert_eq!(term.right.metrics.height, 14);
    assert_eq!(term.right.orders.order_time.y, 28);
    assert_eq!(term.right.orders.order_time.height, 12);
}

#[test]
fn order_columns_have_fixed_widths_and_clip() {
    // A right side wide enough for some columns: frame 300 wide gives a
    // 75-column orders row, which fits 27 + 8 + 11 + 8 + 11 and leaves
    // slack.
    let term = Term::new(frame(300, 40));
    assert_eq!(term.right.orders.order_time.width, 27);
    assert_eq!(term.right.orders.order_type.width, 8);
    assert_eq!(term.right.orders.order_direction.width, 11);
    assert_eq!(term.right.orders.order_symbol.width, 8);
    assert_eq!(term.right.orders.order_quantity.width, 11);
    assert_eq!(term.right.orders.order_time.x, 225);
    assert_eq!(term.right.orders.order_type.x, 252);
    // A narrow frame clips: a 25-column orders row is eaten whole by the
    // first column, the rest get nothing.
    let narrow = Term::new(frame(100, 40));
    assert_eq!(narrow.right.orders.order_time.width, 25);
    assert_eq!(narrow.right.orders.order_type.width, 0);
    assert_eq!(narrow.right.orders.order_direction.width, 0);
    assert_eq!(narrow.right.orders.order_symbol.width, 0);
    assert_eq!(narrow.right.orders.order_quantity.width, 0);
}

#[test]
fn layout_survives_tiny_frames() {
    let term = Term::new(frame(1, 1));
    assert_eq!(term.left.graph.width, 0);
    assert_eq!(term.right.orders.order_quantity.width, 0);
    let term = Term::new(frame(0, 0));
    assert_eq!(term.left.logs.height, 0);
}

#[test]
fn layout_respects_frame_origin() {
    let term = Term::new(Rect { x: 10, y: 5, width: 100, height: 40 });
    assert_eq!(term.left.graph.x, 10);
    assert_eq!(term.left.graph.y, 5);
    assert_eq!(term.right.performance.x, 85);
    assert_eq!(term.left.logs.y, 33);
}

#[test]
fn percent_split_gives_remainder_to_last() {
    let area = Rect { x: 0, y: 0, width: 10, height: 99 };
    let chunks = split_percent_vertical(area, &vec![35, 35, 30]);
    assert_eq!(chunks.len(), 3);
    assert_eq!(chunks[0].height, 34);
    assert_eq!(chunks[1].height, 34);
    assert_eq!(chunks[2].height, 31);
    assert_eq!(chunks[2].y, 68);
    assert_eq!(chunks[2].width, 10);
}

#[test]
fn fixed_split_consumes_left_to_right() {
    let area = Rect { x: 0, y: 0, width: 40, height: 3 };
    let cols = split_fixed_horizontal(area, &vec![27, 8, 11, 8, 11]);
    let widths: Vec<u16> = cols.iter().map(|c| c.width).collect();
    assert_eq!(widths, vec![27, 8, 5, 0, 0]);
    assert_eq!(cols[2].x, 35);
}

#[test]
fn chunk_constructors_bind_in_order() {
    let r = |x: u16| Rect { x, y: 0, width: 1, height: 1 };
    let left = LeftTerminalChunks::new(vec![r(0), r(1)]);
    assert_eq!(left.graph.x, 0);
    assert_eq!(left.logs.x, 1);
    let right = RightTerminalChunk::new(
        vec![r(0), r(1), r(2)],
        vec![r(3), r(4), r(5), r(6), r(7)],
    );
    assert_eq!(right.performance.x, 0);
    assert_eq!(right.metrics.x, 1);
    assert_eq!(right.orders.order_time.x, 3);
    assert_eq!(right.orders.order_quantity.x, 7);
    let oc = OrdersChunk::new(vec![r(0), r(1), r(2), r(3), r(4)]);
    assert_eq!(oc.order_direction.x, 2);
}

#[test]
fn log_window_shows_last_five_of_ten() {
    // A log pane of height 7 has 5 usable rows: of 10 accumulated lines
    // exactly lines 6 to 10 show, in original order.
    let mut data = TerminalData::new();
    for i in 1..=10 {
        data.log(format!("line{}", i), false);
    }
    let shown = data.visible_logs(7);
    let texts: Vec<&str> = shown.iter().map(|(t, _)| t.as_str()).collect();
    assert_eq!(texts, vec!["line6", "line7", "line8", "line9", "line10"]);
    // The scrolled-out lines are retained, not dropped.
    assert_eq!(data.logs.len(), 10);
}

#[test]
fn window_edges() {
    assert_eq!(tail_start(10, 7), 5);
    assert_eq!(tail_start(3, 7), 0);
    assert_eq!(tail_start(10, 2), 10);
    assert_eq!(tail_start(10, 1), 10);
    assert_eq!(tail_start(0, 7), 0);
    let col = vec![String::from("a"), String::from("b"), String::from("c")];
    assert_eq!(visible_column(&col, 4), vec!["b", "c"]);
    assert_eq!(visible_column(&col, 20), vec!["a", "b", "c"]);
    assert_eq!(visible_column(&col, 1), Vec::<String>::new());
}

#[test]
fn chart_bounds_follow_the_curve() {
    let mut data = TerminalData::new();
    assert!(data.chart_bounds().is_none());
    data.packet(ResultSnapshot {
        equity_points: Some(vec![
            EquityPoint { time: 3, value: 2 },
            EquityPoint { time: 1, value: 5 },
        ]),
        orders: None,
    });
    let b = data.chart_bounds().unwrap();
    assert_eq!(
        b,
        ChartBounds { x_min: 1, x_max: 3, y_min: 2, y_max: 5 }
    );
}

#[test]
fn chart_upper_bound_clamps_to_zero() {
    // The lower bound is the true minimum; the upper bound never drops
    // below zero, so the zero line stays in view.
    let data = TerminalData {
        logs: Vec::new(),
        equity: vec![
            EquityPoint { time: 1, value: -7 },
            EquityPoint { time: 2, value: -3 },
        ],
        order_time: Vec::new(),
        order_type: Vec::new(),
        order_sides: Vec::new(),
        order_qty: Vec::new(),
        order_symbol: Vec::new(),
    };
    let b = data.chart_bounds().unwrap();
    assert_eq!(b.y_min, -7);
    assert_eq!(b.y_max, 0);
}

#[test]
fn stop_restores_exactly_once() {
    let mut session = SessionState::new();
    session.start();
    assert_eq!(session.phase, SessionPhase::Running);
    assert!(session.device_managed);
    let first = session.stop();
    assert!(first);
    assert_eq!(session.phase, SessionPhase::Stopped);
    assert!(!session.device_managed);
    assert_eq!(session.restore_count, 1);
    // A second, racing teardown request restores nothing and changes
    // nothing.
    let second = session.stop();
    assert!(!second);
    assert_eq!(session.restore_count, 1);
    assert!(!session.device_managed);
}

#[test]
fn stop_before_start_restores_nothing() {
    let mut session = SessionState::new();
    let restore = session.stop();
    assert!(!restore);
    assert_eq!(session.restore_count, 0);
}

#[test]
fn full_session_scenario() {
    // Start; two log posts; one snapshot with a negative and a duplicate
    // point and no orders; stop.
    let mut session = SessionState::new();
    session.start();
    let mut data = TerminalData::new();

    assert!(!data.handle_data(Message::Log(String::from("hello"), false)));
    assert!(!data.handle_data(Message::Log(String::from("line1\nline2"), true)));
    assert!(!data.handle_data(Message::Packet(ResultSnapshot {
        equity_points: Some(vec![
            EquityPoint { time: 1, value: 10 },
            EquityPoint { time: 2, value: -5 },
            EquityPoint { time: 1, value: 10 },
        ]),
        orders: None,
    })));

    let logs: Vec<(&str, bool)> =
        data.logs.iter().map(|l| (l.text.as_str(), l.is_error)).collect();
    assert_eq!(
        logs,
        vec![("hello", false), ("line1", true), ("line2", true)]
    );
    assert_eq!(data.equity, vec![EquityPoint { time: 1, value: 10 }]);
    assert_eq!(data.order_time.len(), 0);
    assert_eq!(data.order_type.len(), 0);
    assert_eq!(data.order_sides.len(), 0);
    assert_eq!(data.order_qty.len(), 0);
    assert_eq!(data.order_symbol.len(), 0);

    // The render loop exits on the stop sentinel without touching state.
    assert!(data.handle_data(Message::Stop));
    assert_eq!(data.logs.len(), 3);

    // Teardown restores the device exactly once, even if requested twice.
    assert!(session.stop());
    assert!(!session.stop());
    assert_eq!(session.restore_count, 1);
    assert!(!session.device_managed);
}
