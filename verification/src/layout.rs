//! The layout engine: a pure function from the current frame size to the
//! set of regions the render pass draws into.
//!
//! The frame is split 75% / 25% horizontally; the left side 70% / 30%
//! vertically into graph and log regions; the right side 35% / 35% / 30%
//! vertically into a reserved performance slot, a reserved metrics slot and
//! the orders row; the orders row into five fixed-width columns (time 27,
//! type 8, direction 11, symbol 8, quantity 11), clipped to the space that
//! remains when the terminal is too narrow.

use vstd::prelude::*;
use vstd::arithmetic::div_mod::lemma_fundamental_div_mod;
use vstd::arithmetic::mul::lemma_mul_inequality;

verus! {

/// A rectangular region of the terminal frame, in character cells.
#[derive(Clone, Copy, PartialEq, Eq, Structural, Debug)]
pub struct Rect {
    pub x: u16,
    pub y: u16,
    pub width: u16,
    pub height: u16,
}

impl Rect {
    /// The region's right and bottom edges stay within the coordinate space.
    pub open spec fn wf(self) -> bool {
        self.x + self.width <= u16::MAX && self.y + self.height <= u16::MAX
    }
}

/// The size of one percentage chunk: `pct` percent of `total`, rounded down.
pub open spec fn pct_len(total: u16, pct: u16) -> int {
    total * pct / 100
}

/// The combined size of the first `i` percentage chunks of `total`.
pub open spec fn pct_prefix(total: u16, pcts: Seq<u16>, i: int) -> int
    decreases i,
{
    if i <= 0 {
        0
    } else {
        pct_prefix(total, pcts, i - 1) + pct_len(total, pcts[i - 1])
    }
}

/// The sum of the first `i` percentages.
pub open spec fn pct_sum(pcts: Seq<u16>, i: int) -> int
    decreases i,
{
    if i <= 0 {
        0
    } else {
        pct_sum(pcts, i - 1) + pcts[i - 1]
    }
}

/// Partial percentage sums only grow.
pub proof fn lemma_pct_sum_monotone(pcts: Seq<u16>, i: int, j: int)
    requires
        0 <= i <= j,
    ensures
        pct_sum(pcts, i) <= pct_sum(pcts, j),
    decreases j - i,
{
    if i < j {
        lemma_pct_sum_monotone(pcts, i, j - 1);
    }
}

/// One percentage chunk is bounded by the whole.
pub proof fn lemma_pct_len_bound(total: u16, pct: u16)
    requires
        pct <= 100,
    ensures
        0 <= pct_len(total, pct) <= total,
{
    lemma_fundamental_div_mod(total * pct, 100);
    lemma_mul_inequality(pct as int, 100, total as int);
    assert(total * pct == pct * total) by (nonlinear_arith);
    assert(0 <= total * pct) by (nonlinear_arith);
}

/// Chunks never overshoot: while the percentages used so far sum to at most
/// 100, the combined chunk size stays within `total`.
pub proof fn lemma_pct_prefix_bound(total: u16, pcts: Seq<u16>, i: int)
    requires
        0 <= i <= pcts.len(),
    ensures
        100 * pct_prefix(total, pcts, i) <= total * pct_sum(pcts, i),
        0 <= pct_prefix(total, pcts, i),
        pct_sum(pcts, i) <= 100 ==> pct_prefix(total, pcts, i) <= total,
    decreases i,
{
    if i > 0 {
        lemma_pct_prefix_bound(total, pcts, i - 1);
        lemma_fundamental_div_mod(total * pcts[i - 1], 100);
        assert(total * pct_sum(pcts, i) == total * pct_sum(pcts, i - 1) + total * pcts[i - 1])
            by (nonlinear_arith)
            requires
                pct_sum(pcts, i) == pct_sum(pcts, i - 1) + pcts[i - 1],
        ;
        assert(0 <= total * pcts[i - 1]) by (nonlinear_arith);
        assert(0 <= pct_len(total, pcts[i - 1]));
    }
    if pct_sum(pcts, i) <= 100 {
        lemma_mul_inequality(pct_sum(pcts, i), 100, total as int);
        assert(total * pct_sum(pcts, i) == pct_sum(pcts, i) * total) by (nonlinear_arith);
    }
}

/// Every single percentage is bounded by the total sum.
pub proof fn lemma_pct_elem_bound(pcts: Seq<u16>, k: int, n: int)
    requires
        0 <= k < n <= pcts.len(),
    ensures
        pcts[k] <= pct_sum(pcts, n),
{
    lemma_pct_sum_monotone(pcts, 0, k);
    lemma_pct_sum_monotone(pcts, k + 1, n);
}

/// Computes one percentage chunk of `total`, rounded down.
fn pct_chunk(total: u16, pct: u16) -> (h: u16)
    requires
        pct <= 100,
    ensures
        h == pct_len(total, pct),
        h <= total,
{
    proof {
        lemma_pct_len_bound(total, pct);
    }
    ((total as u32) * (pct as u32) / 100) as u16
}

/// Splits a region vertically into one chunk per percentage: each chunk but
/// the last takes its percentage of the height rounded down, and the last
/// chunk takes the height that remains.
pub fn split_percent_vertical(area: Rect, pcts: &Vec<u16>) -> (out: Vec<Rect>)
    requires
        area.wf(),
        pcts@.len() >= 1,
        pct_sum(pcts@, pcts@.len() as int) <= 100,
    ensures
        out@.len() == pcts@.len(),
        forall|i: int|
            0 <= i < out@.len() ==> {
                let r = #[trigger] out@[i];
                r.x == area.x && r.width == area.width && r.wf() && r.y == area.y + pct_prefix(
                    area.height,
                    pcts@,
                    i,
                )
            },
        forall|i: int|
            0 <= i < out@.len() - 1 ==> (#[trigger] out@[i]).height == pct_len(
                area.height,
                pcts@[i],
            ),
        out@[pcts@.len() - 1].height == area.height - pct_prefix(
            area.height,
            pcts@,
            pcts@.len() - 1,
        ),
{
    let n = pcts.len();
    let mut out: Vec<Rect> = Vec::new();
    let mut used: u16 = 0;
    let mut i: usize = 0;
    while i < n - 1
        invariant
            area.wf(),
            1 <= n == pcts@.len(),
            pct_sum(pcts@, n as int) <= 100,
            0 <= i <= n - 1,
            out@.len() == i,
            used == pct_prefix(area.height, pcts@, i as int),
            used <= area.height,
            forall|k: int|
                0 <= k < i ==> {
                    let r = #[trigger] out@[k];
                    r.x == area.x && r.width == area.width && r.wf() && r.y == area.y
                        + pct_prefix(area.height, pcts@, k) && r.height == pct_len(
                        area.height,
                        pcts@[k],
                    )
                },
        decreases n - i,
    {
        proof {
            lemma_pct_sum_monotone(pcts@, i + 1 as int, n as int);
            lemma_pct_elem_bound(pcts@, i as int, n as int);
            lemma_pct_prefix_bound(area.height, pcts@, i + 1 as int);
        }
        let h = pct_chunk(area.height, pcts[i]);
        out.push(
            Rect { x: area.x, y: area.y + used, width: area.width, height: h },
        );
        used = used + h;
        i = i + 1;
    }
    proof {
        lemma_pct_sum_monotone(pcts@, i as int, n as int);
        lemma_pct_prefix_bound(area.height, pcts@, i as int);
    }
    out.push(
        Rect { x: area.x, y: area.y + used, width: area.width, height: area.height - used },
    );
    out
}

/// Splits a region horizontally into one chunk per percentage: each chunk
/// but the last takes its percentage of the width rounded down, and the
/// last chunk takes the width that remains.
pub fn split_percent_horizontal(area: Rect, pcts: &Vec<u16>) -> (out: Vec<Rect>)
    requires
        area.wf(),
        pcts@.len() >= 1,
        pct_sum(pcts@, pcts@.len() as int) <= 100,
    ensures
        out@.len() == pcts@.len(),
        forall|i: int|
            0 <= i < out@.len() ==> {
                let r = #[trigger] out@[i];
                r.y == area.y && r.height == area.height && r.wf() && r.x == area.x + pct_prefix(
                    area.width,
                    pcts@,
                    i,
                )
            },
        forall|i: int|
            0 <= i < out@.len() - 1 ==> (#[trigger] out@[i]).width == pct_len(
                area.width,
                pcts@[i],
            ),
        out@[pcts@.len() - 1].width == area.width - pct_prefix(
            area.width,
            pcts@,
            pcts@.len() - 1,
        ),
{
    let n = pcts.len();
    let mut out: Vec<Rect> = Vec::new();
    let mut used: u16 = 0;
    let mut i: usize = 0;
    while i < n - 1
        invariant
            area.wf(),
            1 <= n == pcts@.len(),
            pct_sum(pcts@, n as int) <= 100,
            0 <= i <= n - 1,
            out@.len() == i,
            used == pct_prefix(area.width, pcts@, i as int),
            used <= area.width,
            forall|k: int|
                0 <= k < i ==> {
                    let r = #[trigger] out@[k];
                    r.y == area.y && r.height == area.height && r.wf() && r.x == area.x
                        + pct_prefix(area.width, pcts@, k) && r.width == pct_len(
                        area.width,
                        pcts@[k],
                    )
                },
        decreases n - i,
    {
        proof {
            lemma_pct_sum_monotone(pcts@, i + 1 as int, n as int);
            lemma_pct_elem_bound(pcts@, i as int, n as int);
            lemma_pct_prefix_bound(area.width, pcts@, i + 1 as int);
        }
        let w = pct_chunk(area.width, pcts[i]);
        out.push(
            Rect { x: area.x + used, y: area.y, width: w, height: area.height },
        );
        used = used + w;
        i = i + 1;
    }
    proof {
        lemma_pct_sum_monotone(pcts@, i as int, n as int);
        lemma_pct_prefix_bound(area.width, pcts@, i as int);
    }
    out.push(
        Rect { x: area.x + used, y: area.y, width: area.width - used, height: area.height },
    );
    out
}

/// The width a fixed-size column actually gets: its nominal width, clipped
/// to the space that remains.
pub open spec fn clip(avail: int, want: u16) -> int {
    if want <= avail {
        want as int
    } else {
        avail
    }
}

/// The width consumed by the first `i` fixed-size columns of a row of
/// width `total`.
pub open spec fn fixed_prefix(total: u16, ws: Seq<u16>, i: int) -> int
    decreases i,
{
    if i <= 0 {
        0
    } else {
        let prev = fixed_prefix(total, ws, i - 1);
        prev + clip(total - prev, ws[i - 1])
    }
}

/// Splits a row horizontally into fixed-width columns in order: each column
/// takes its nominal width, or whatever width remains when the row is too
/// narrow.
pub fn split_fixed_horizontal(area: Rect, widths: &Vec<u16>) -> (out: Vec<Rect>)
    requires
        area.wf(),
    ensures
        out@.len() == widths@.len(),
        forall|i: int|
            0 <= i < out@.len() ==> {
                let r = #[trigger] out@[i];
                r.y == area.y && r.height == area.height && r.wf() && r.x == area.x
                    + fixed_prefix(area.width, widths@, i) && r.width == clip(
                    area.width - fixed_prefix(area.width, widths@, i),
                    widths@[i],
                )
            },
{
    let n = widths.len();
    let mut out: Vec<Rect> = Vec::new();
    let mut used: u16 = 0;
    let mut i: usize = 0;
    while i < n
        invariant
            area.wf(),
            n == widths@.len(),
            0 <= i <= n,
            out@.len() == i,
            used == fixed_prefix(area.width, widths@, i as int),
            used <= area.width,
            forall|k: int|
                0 <= k < i ==> {
                    let r = #[trigger] out@[k];
                    r.y == area.y && r.height == area.height && r.wf() && r.x == area.x
                        + fixed_prefix(area.width, widths@, k) && r.width == clip(
                        area.width - fixed_prefix(area.width, widths@, k),
                        widths@[k],
                    )
                },
        decreases n - i,
    {
        let want = widths[i];
        let avail = area.width - used;
        let w = if want <= avail {
            want
        } else {
            avail
        };
        out.push(
            Rect { x: area.x + used, y: area.y, width: w, height: area.height },
        );
        used = used + w;
        i = i + 1;
    }
    out
}

/// The left 75% of the frame.
pub open spec fn spec_left_area(frame: Rect) -> Rect {
    Rect {
        x: frame.x,
        y: frame.y,
        width: pct_len(frame.width, 75) as u16,
        height: frame.height,
    }
}

/// The right 25% of the frame: whatever the left side leaves over.
pub open spec fn spec_right_area(frame: Rect) -> Rect {
    Rect {
        x: (frame.x + pct_len(frame.width, 75)) as u16,
        y: frame.y,
        width: (frame.width - pct_len(frame.width, 75)) as u16,
        height: frame.height,
    }
}

/// The graph region: the top 70% of the left side.
pub open spec fn spec_graph_area(frame: Rect) -> Rect {
    let left = spec_left_area(frame);
    Rect {
        x: left.x,
        y: left.y,
        width: left.width,
        height: pct_len(left.height, 70) as u16,
    }
}

/// The log region: the bottom of the left side, below the graph.
pub open spec fn spec_logs_area(frame: Rect) -> Rect {
    let left = spec_left_area(frame);
    Rect {
        x: left.x,
        y: (left.y + pct_len(left.height, 70)) as u16,
        width: left.width,
        height: (left.height - pct_len(left.height, 70)) as u16,
    }
}

/// The reserved performance slot: the top 35% of the right side.
pub open spec fn spec_performance_area(frame: Rect) -> Rect {
    let right = spec_right_area(frame);
    Rect {
        x: right.x,
        y: right.y,
        width: right.width,
        height: pct_len(right.height, 35) as u16,
    }
}

/// The reserved metrics slot: the middle 35% of the right side.
pub open spec fn spec_metrics_area(frame: Rect) -> Rect {
    let right = spec_right_area(frame);
    Rect {
        x: right.x,
        y: (right.y + pct_len(right.height, 35)) as u16,
        width: right.width,
        height: pct_len(right.height, 35) as u16,
    }
}

/// The orders row: the bottom of the right side, below the two reserved
/// slots.
pub open spec fn spec_orders_row(frame: Rect) -> Rect {
    let right = spec_right_area(frame);
    Rect {
        x: right.x,
        y: (right.y + pct_len(right.height, 35) + pct_len(right.height, 35)) as u16,
        width: right.width,
        height: (right.height - pct_len(right.height, 35) - pct_len(right.height, 35)) as u16,
    }
}

/// The nominal widths of the five order columns, in display order: time,
/// type, direction, symbol, quantity.
pub open spec fn order_widths() -> Seq<u16> {
    seq![27u16, 8u16, 11u16, 8u16, 11u16]
}

/// The `i`-th order column of the orders row.
pub open spec fn spec_order_column(frame: Rect, i: int) -> Rect {
    let row = spec_orders_row(frame);
    Rect {
        x: (row.x + fixed_prefix(row.width, order_widths(), i)) as u16,
        y: row.y,
        width: clip(row.width - fixed_prefix(row.width, order_widths(), i), order_widths()[i])
            as u16,
        height: row.height,
    }
}

/// The five regions of the order blotter, one per display column.
pub struct OrdersChunk {
    pub order_time: Rect,
    pub order_type: Rect,
    pub order_direction: Rect,
    pub order_symbol: Rect,
    pub order_quantity: Rect,
}

impl OrdersChunk {
    /// Binds the five column regions, in display order, from a split of the
    /// orders row.
    pub fn new(chunk: Vec<Rect>) -> (c: OrdersChunk)
        requires
            chunk@.len() >= 5,
        ensures
            c.order_time == chunk@[0],
            c.order_type == chunk@[1],
            c.order_direction == chunk@[2],
            c.order_symbol == chunk@[3],
            c.order_quantity == chunk@[4],
    {
        OrdersChunk {
            order_time: chunk[0],
            order_type: chunk[1],
            order_direction: chunk[2],
            order_symbol: chunk[3],
            order_quantity: chunk[4],
        }
    }
}

/// The two regions of the left side: graph on top, logs below.
pub struct LeftTerminalChunks {
    pub graph: Rect,
    pub logs: Rect,
}

impl LeftTerminalChunks {
    /// Binds the graph and log regions from a split of the left side.
    pub fn new(chunks: Vec<Rect>) -> (c: LeftTerminalChunks)
        requires
            chunks@.len() >= 2,
        ensures
            c.graph == chunks@[0],
            c.logs == chunks@[1],
    {
        LeftTerminalChunks { graph: chunks[0], logs: chunks[1] }
    }
}

/// The regions of the right side: the two reserved slots and the order
/// columns.
pub struct RightTerminalChunk {
    pub performance: Rect,
    pub metrics: Rect,
    pub orders: OrdersChunk,
}

impl RightTerminalChunk {
    /// Binds the right-side regions from a split of the right side and a
    /// split of its orders row.
    pub fn new(chunks: Vec<Rect>, order_chunk: Vec<Rect>) -> (c: RightTerminalChunk)
        requires
            chunks@.len() >= 3,
            order_chunk@.len() >= 5,
        ensures
            c.performance == chunks@[0],
            c.metrics == chunks@[1],
            c.orders.order_time == order_chunk@[0],
            c.orders.order_type == order_chunk@[1],
            c.orders.order_direction == order_chunk@[2],
            c.orders.order_symbol == order_chunk@[3],
            c.orders.order_quantity == order_chunk@[4],
    {
        RightTerminalChunk {
            performance: chunks[0],
            metrics: chunks[1],
            orders: OrdersChunk::new(order_chunk),
        }
    }
}

/// The full region set of one frame, recomputed from the terminal size
/// every frame.
pub struct Term {
    pub left: LeftTerminalChunks,
    pub right: RightTerminalChunk,
}

impl Term {
    /// Partitions the frame: 75/25 horizontally, the left side 70/30 into
    /// graph and logs, the right side 35/35/30 into the reserved slots and
    /// the orders row, and the orders row into the five fixed-width
    /// columns.
    pub fn new(frame: Rect) -> (t: Term)
        requires
            frame.wf(),
        ensures
            t.left.graph == spec_graph_area(frame),
            t.left.logs == spec_logs_area(frame),
            t.right.performance == spec_performance_area(frame),
            t.right.metrics == spec_metrics_area(frame),
            t.right.orders.order_time == spec_order_column(frame, 0),
            t.right.orders.order_type == spec_order_column(frame, 1),
            t.right.orders.order_direction == spec_order_column(frame, 2),
            t.right.orders.order_symbol == spec_order_column(frame, 3),
            t.right.orders.order_quantity == spec_order_column(frame, 4),
    {
        let mut hpcts: Vec<u16> = Vec::new();
        hpcts.push(75);
        hpcts.push(25);
        proof {
            assert(pct_sum(hpcts@, 0) == 0);
            assert(pct_sum(hpcts@, 1) == 75);
            assert(pct_sum(hpcts@, 2) == 100);
        }
        let hchunk = split_percent_horizontal(frame, &hpcts);

        let mut lpcts: Vec<u16> = Vec::new();
        lpcts.push(70);
        lpcts.push(30);
        proof {
            assert(pct_sum(lpcts@, 0) == 0);
            assert(pct_sum(lpcts@, 1) == 70);
            assert(pct_sum(lpcts@, 2) == 100);
            assert(pct_prefix(hchunk@[0].height, lpcts@, 0) == 0);
            assert(pct_prefix(hchunk@[0].height, lpcts@, 1) == pct_len(hchunk@[0].height, 70));
        }
        let left = split_percent_vertical(hchunk[0], &lpcts);

        let mut rpcts: Vec<u16> = Vec::new();
        rpcts.push(35);
        rpcts.push(35);
        rpcts.push(30);
        proof {
            assert(pct_sum(rpcts@, 0) == 0);
            assert(pct_sum(rpcts@, 1) == 35);
            assert(pct_sum(rpcts@, 2) == 70);
            assert(pct_sum(rpcts@, 3) == 100);
            assert(pct_prefix(hchunk@[1].height, rpcts@, 0) == 0);
            assert(pct_prefix(hchunk@[1].height, rpcts@, 1) == pct_len(hchunk@[1].height, 35));
            assert(pct_prefix(hchunk@[1].height, rpcts@, 2) == pct_len(hchunk@[1].height, 35)
                + pct_len(hchunk@[1].height, 35));
        }
        let right = split_percent_vertical(hchunk[1], &rpcts);

        let mut ws: Vec<u16> = Vec::new();
        ws.push(27);
        ws.push(8);
        ws.push(11);
        ws.push(8);
        ws.push(11);
        proof {
            assert(ws@ =~= order_widths());
        }
        let orders_chunks = split_fixed_horizontal(right[2], &ws);

        Term {
            left: LeftTerminalChunks::new(left),
            right: RightTerminalChunk::new(right, orders_chunks),
        }
    }
}

} // verus!
