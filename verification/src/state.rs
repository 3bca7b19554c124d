//! The aggregation state: the cumulative view model the render task owns,
//! and the fold rules that merge one event into it.
//!
//! Equity points are merged: the curve is the union of every point ever
//! received, filtered to positive values, deduplicated by exact
//! (time, value) identity and kept sorted ascending by time.  Order columns
//! are replaced wholesale by every snapshot that carries an orders payload,
//! sorted ascending by numeric order id; a snapshot without one leaves them
//! untouched.  Log lines are append-only.

use vstd::prelude::*;
use crate::model::{EquityPoint, OrderEntry, OrderLabels, ResultSnapshot};
use crate::parse::{dec_val, is_dec_u64};
use crate::text::line_split;
use crate::Message;

verus! {

/// One display line of the log pane.
pub struct LogLine {
    pub text: String,
    pub is_error: bool,
}

/// One order of the blotter, ghost form: its numeric id and its five
/// labels.
pub struct OrderRow {
    pub id: u64,
    pub labels: OrderLabels,
}

/// The ghost image of the aggregation state.
#[verifier::ext_equal]
pub struct DataView {
    pub logs: Seq<(Seq<char>, bool)>,
    pub equity: Seq<EquityPoint>,
    pub order_time: Seq<Seq<char>>,
    pub order_type: Seq<Seq<char>>,
    pub order_sides: Seq<Seq<char>>,
    pub order_qty: Seq<Seq<char>>,
    pub order_symbol: Seq<Seq<char>>,
}

/// Inserts one point before the first element whose time exceeds the
/// point's time, so that a merge keeps the curve sorted and keeps points
/// of equal time in arrival order.
pub open spec fn insert_point(s: Seq<EquityPoint>, p: EquityPoint) -> Seq<EquityPoint>
    decreases s.len(),
{
    if s.len() == 0 {
        seq![p]
    } else if s[0].time > p.time {
        seq![p] + s
    } else {
        seq![s[0]] + insert_point(s.skip(1), p)
    }
}

/// Folds one incoming point into the curve: a point survives only if its
/// value is positive and it is not already present.
pub open spec fn merge_one(s: Seq<EquityPoint>, p: EquityPoint) -> Seq<EquityPoint> {
    if p.value > 0 && !s.contains(p) {
        insert_point(s, p)
    } else {
        s
    }
}

/// Folds the points of one snapshot into the curve, in arrival order.
pub open spec fn merge_points(s: Seq<EquityPoint>, pts: Seq<EquityPoint>) -> Seq<EquityPoint>
    decreases pts.len(),
{
    if pts.len() == 0 {
        s
    } else {
        merge_one(merge_points(s, pts.drop_last()), pts.last())
    }
}

/// An order entry whose id parses as an unsigned integer; any other entry
/// is malformed and is dropped by the fold rather than aborting it.
pub open spec fn entry_valid(e: OrderEntry) -> bool {
    is_dec_u64(e.id@)
}

/// The ghost row a valid entry turns into.
pub open spec fn row_of(e: OrderEntry) -> OrderRow {
    OrderRow { id: dec_val(e.id@) as u64, labels: e.view@ }
}

/// Inserts one row before the first row with a strictly greater id, so
/// rows of equal numeric id keep arrival order.
pub open spec fn insert_row(s: Seq<OrderRow>, r: OrderRow) -> Seq<OrderRow>
    decreases s.len(),
{
    if s.len() == 0 {
        seq![r]
    } else if s[0].id > r.id {
        seq![r] + s
    } else {
        seq![s[0]] + insert_row(s.skip(1), r)
    }
}

/// The rows of one orders payload: the valid entries, sorted ascending by
/// numeric id; malformed entries are skipped.
pub open spec fn sorted_rows(entries: Seq<OrderEntry>) -> Seq<OrderRow>
    decreases entries.len(),
{
    if entries.len() == 0 {
        Seq::empty()
    } else {
        let prev = sorted_rows(entries.drop_last());
        if entry_valid(entries.last()) {
            insert_row(prev, row_of(entries.last()))
        } else {
            prev
        }
    }
}

/// Sorted ascending by time.
pub open spec fn sorted_points(s: Seq<EquityPoint>) -> bool {
    forall|i: int, j: int| 0 <= i < j < s.len() ==> s[i].time <= s[j].time
}

/// No two elements agree on both time and value.
pub open spec fn nodup_points(s: Seq<EquityPoint>) -> bool {
    forall|i: int, j: int| 0 <= i < j < s.len() ==> s[i] != s[j]
}

/// Every element has a strictly positive value.
pub open spec fn positive_points(s: Seq<EquityPoint>) -> bool {
    forall|i: int| 0 <= i < s.len() ==> s[i].value > 0
}

impl DataView {
    /// The state a fresh session starts from: everything empty.
    pub open spec fn init() -> DataView {
        DataView {
            logs: Seq::empty(),
            equity: Seq::empty(),
            order_time: Seq::empty(),
            order_type: Seq::empty(),
            order_sides: Seq::empty(),
            order_qty: Seq::empty(),
            order_symbol: Seq::empty(),
        }
    }

    /// The curve is sorted ascending by time.
    pub open spec fn equity_sorted(self) -> bool {
        sorted_points(self.equity)
    }

    /// No two points of the curve agree on both time and value.
    pub open spec fn equity_nodup(self) -> bool {
        nodup_points(self.equity)
    }

    /// Every point of the curve has a strictly positive value.
    pub open spec fn equity_positive(self) -> bool {
        positive_points(self.equity)
    }

    /// The five order columns have equal length: index `i` across all five
    /// describes one order.
    pub open spec fn columns_aligned(self) -> bool {
        self.order_type.len() == self.order_time.len() && self.order_sides.len()
            == self.order_time.len() && self.order_qty.len() == self.order_time.len()
            && self.order_symbol.len() == self.order_time.len()
    }

    /// The state invariant the fold maintains.
    pub open spec fn wf(self) -> bool {
        self.equity_sorted() && self.equity_nodup() && self.equity_positive()
            && self.columns_aligned()
    }

    /// The state after a log event: one display line per text line, each
    /// tagged with the error flag, appended to the log.
    pub open spec fn with_log(self, text: Seq<char>, is_error: bool) -> DataView {
        DataView {
            logs: self.logs + line_split(text).map_values(|l: Seq<char>| (l, is_error)),
            ..self
        }
    }

    /// The state after a result snapshot: equity merged, and the five
    /// columns replaced exactly when the snapshot carries an orders
    /// payload.
    pub open spec fn fold_snapshot(self, snap: ResultSnapshot) -> DataView {
        let eq = match snap.equity_points {
            Some(pts) => merge_points(self.equity, pts@),
            None => self.equity,
        };
        match snap.orders {
            Some(entries) => {
                let rows = sorted_rows(entries@);
                DataView {
                    logs: self.logs,
                    equity: eq,
                    order_time: rows.map_values(|r: OrderRow| r.labels.time),
                    order_type: rows.map_values(|r: OrderRow| r.labels.order_type),
                    order_sides: rows.map_values(|r: OrderRow| r.labels.side),
                    order_qty: rows.map_values(|r: OrderRow| r.labels.quantity),
                    order_symbol: rows.map_values(|r: OrderRow| r.labels.symbol),
                }
            },
            None => DataView { equity: eq, ..self },
        }
    }

    /// The whole fold: the state after one event, and whether the event
    /// was the stop sentinel.  A stop changes nothing and ends the loop.
    pub open spec fn fold_msg(self, m: Message) -> (DataView, bool) {
        match m {
            Message::Packet(p) => (self.fold_snapshot(p), false),
            Message::Log(text, is_error) => (self.with_log(text@, is_error), false),
            Message::Stop => (self, true),
        }
    }
}

/// The aggregation state, mutated only by the render task.
pub struct TerminalData {
    pub logs: Vec<LogLine>,
    pub equity: Vec<EquityPoint>,
    pub order_time: Vec<String>,
    pub order_type: Vec<String>,
    pub order_sides: Vec<String>,
    pub order_qty: Vec<String>,
    pub order_symbol: Vec<String>,
}

impl View for TerminalData {
    type V = DataView;

    open spec fn view(&self) -> DataView {
        DataView {
            logs: self.logs@.map_values(|l: LogLine| (l.text@, l.is_error)),
            equity: self.equity@,
            order_time: self.order_time@.map_values(|s: String| s@),
            order_type: self.order_type@.map_values(|s: String| s@),
            order_sides: self.order_sides@.map_values(|s: String| s@),
            order_qty: self.order_qty@.map_values(|s: String| s@),
            order_symbol: self.order_symbol@.map_values(|s: String| s@),
        }
    }
}

impl TerminalData {
    /// A fresh, empty aggregation state.
    pub fn new() -> (d: TerminalData)
        ensures
            d@ == DataView::init(),
    {
        let d = TerminalData {
            logs: Vec::new(),
            equity: Vec::new(),
            order_time: Vec::new(),
            order_type: Vec::new(),
            order_sides: Vec::new(),
            order_qty: Vec::new(),
            order_symbol: Vec::new(),
        };
        proof {
            assert(d@ =~~= DataView::init());
        }
        d
    }
}

/// What inserting one point does to the curve's contents: one more
/// element, and membership extends by exactly the new point.
pub proof fn lemma_insert_point_shape(s: Seq<EquityPoint>, p: EquityPoint)
    ensures
        insert_point(s, p).len() == s.len() + 1,
        forall|q: EquityPoint|
            #[trigger] insert_point(s, p).contains(q) <==> (s.contains(q) || q == p),
    decreases s.len(),
{
    broadcast use vstd::seq_lib::lemma_seq_concat_contains_all_elements;
    broadcast use vstd::seq_lib::lemma_seq_empty_contains_nothing;
    broadcast use vstd::seq_lib::lemma_seq_contains_after_push;

    assert(seq![p] =~= Seq::<EquityPoint>::empty().push(p));
    if s.len() == 0 {
        assert(s =~= Seq::<EquityPoint>::empty());
        assert(insert_point(s, p) == seq![p]);
    } else if s[0].time > p.time {
        assert(insert_point(s, p) == seq![p] + s);
    } else {
        lemma_insert_point_shape(s.skip(1), p);
        assert(seq![s[0]] =~= Seq::<EquityPoint>::empty().push(s[0]));
        assert(s =~= seq![s[0]] + s.skip(1));
        assert(insert_point(s, p) == seq![s[0]] + insert_point(s.skip(1), p));
    }
}

/// Inserting keeps the curve sorted.
pub proof fn lemma_insert_point_sorted(s: Seq<EquityPoint>, p: EquityPoint)
    requires
        sorted_points(s),
    ensures
        sorted_points(insert_point(s, p)),
    decreases s.len(),
{
    let r = insert_point(s, p);
    if s.len() == 0 {
    } else if s[0].time > p.time {
        assert forall|i: int, j: int| 0 <= i < j < r.len() implies r[i].time <= r[j].time by {
            if i > 0 {
                assert(r[i] == s[i - 1] && r[j] == s[j - 1]);
            } else {
                assert(r[j] == s[j - 1]);
            }
        };
    } else {
        assert(sorted_points(s.skip(1))) by {
            assert forall|i: int, j: int|
                0 <= i < j < s.skip(1).len() implies s.skip(1)[i].time <= s.skip(1)[j].time by {
                assert(s.skip(1)[i] == s[i + 1] && s.skip(1)[j] == s[j + 1]);
            };
        };
        lemma_insert_point_sorted(s.skip(1), p);
        lemma_insert_point_shape(s.skip(1), p);
        let rr = insert_point(s.skip(1), p);
        assert forall|i: int, j: int| 0 <= i < j < r.len() implies r[i].time <= r[j].time by {
            if i == 0 {
                assert(r[j] == rr[j - 1]);
                assert(rr.contains(rr[j - 1]));
                if s.skip(1).contains(rr[j - 1]) {
                    let k = choose|k: int|
                        0 <= k < s.skip(1).len() && s.skip(1)[k] == rr[j - 1];
                    assert(s[k + 1] == rr[j - 1]);
                } else {
                    assert(rr[j - 1] == p);
                }
            } else {
                assert(r[i] == rr[i - 1] && r[j] == rr[j - 1]);
            }
        };
    }
}

/// Inserting a point that is not yet present keeps the curve free of
/// duplicates.
pub proof fn lemma_insert_point_nodup(s: Seq<EquityPoint>, p: EquityPoint)
    requires
        nodup_points(s),
        !s.contains(p),
    ensures
        nodup_points(insert_point(s, p)),
    decreases s.len(),
{
    let r = insert_point(s, p);
    if s.len() == 0 {
    } else if s[0].time > p.time {
        assert forall|i: int, j: int| 0 <= i < j < r.len() implies r[i] != r[j] by {
            if i == 0 {
                assert(r[j] == s[j - 1]);
                if r[j] == p {
                    assert(s.contains(p));
                }
            } else {
                assert(r[i] == s[i - 1] && r[j] == s[j - 1]);
            }
        };
    } else {
        assert(nodup_points(s.skip(1))) by {
            assert forall|i: int, j: int|
                0 <= i < j < s.skip(1).len() implies s.skip(1)[i] != s.skip(1)[j] by {
                assert(s.skip(1)[i] == s[i + 1] && s.skip(1)[j] == s[j + 1]);
            };
        };
        assert(!s.skip(1).contains(p)) by {
            if s.skip(1).contains(p) {
                let k = choose|k: int| 0 <= k < s.skip(1).len() && s.skip(1)[k] == p;
                assert(s[k + 1] == p);
            }
        };
        lemma_insert_point_nodup(s.skip(1), p);
        lemma_insert_point_shape(s.skip(1), p);
        let rr = insert_point(s.skip(1), p);
        assert forall|i: int, j: int| 0 <= i < j < r.len() implies r[i] != r[j] by {
            if i == 0 {
                assert(r[j] == rr[j - 1]);
                assert(rr.contains(rr[j - 1]));
                if s.skip(1).contains(rr[j - 1]) {
                    let k = choose|k: int|
                        0 <= k < s.skip(1).len() && s.skip(1)[k] == rr[j - 1];
                    assert(s[k + 1] == rr[j - 1]);
                    if r[j] == s[0] {
                        assert(s[k + 1] == s[0]);
                    }
                } else {
                    assert(rr[j - 1] == p);
                    if r[j] == s[0] {
                        assert(s.contains(p));
                    }
                }
            } else {
                assert(r[i] == rr[i - 1] && r[j] == rr[j - 1]);
            }
        };
    }
}

/// The whole-merge invariant: folding any snapshot's points into a
/// well-formed curve keeps it sorted, duplicate-free and positive, never
/// shrinks it, and ends with exactly the old points plus the new positive
/// ones.
pub proof fn lemma_merge_points_props(s: Seq<EquityPoint>, pts: Seq<EquityPoint>)
    requires
        sorted_points(s),
        nodup_points(s),
        positive_points(s),
    ensures
        sorted_points(merge_points(s, pts)),
        nodup_points(merge_points(s, pts)),
        positive_points(merge_points(s, pts)),
        merge_points(s, pts).len() >= s.len(),
        forall|q: EquityPoint|
            #[trigger] merge_points(s, pts).contains(q) <==> (s.contains(q) || (pts.contains(q)
                && q.value > 0)),
    decreases pts.len(),
{
    broadcast use vstd::seq_lib::lemma_seq_contains_after_push;
    broadcast use vstd::seq_lib::lemma_seq_empty_contains_nothing;

    let m = merge_points(s, pts);
    if pts.len() == 0 {
        assert(pts =~= Seq::<EquityPoint>::empty());
    } else {
        lemma_merge_points_props(s, pts.drop_last());
        let prev = merge_points(s, pts.drop_last());
        let p = pts.last();
        assert(pts =~= pts.drop_last().push(p));
        if p.value > 0 && !prev.contains(p) {
            lemma_insert_point_shape(prev, p);
            lemma_insert_point_sorted(prev, p);
            lemma_insert_point_nodup(prev, p);
            assert forall|i: int| 0 <= i < m.len() implies m[i].value > 0 by {
                assert(m.contains(m[i]));
                if prev.contains(m[i]) {
                    let k = choose|k: int| 0 <= k < prev.len() && prev[k] == m[i];
                } else {
                    assert(m[i] == p);
                }
            };
        }
    }
}

/// Pinpoints where the recursive insert lands: before the first element
/// whose time exceeds the point's.
pub proof fn lemma_insert_point_at(s: Seq<EquityPoint>, p: EquityPoint, pos: int)
    requires
        0 <= pos <= s.len(),
        forall|k: int| 0 <= k < pos ==> s[k].time <= p.time,
        pos < s.len() ==> s[pos].time > p.time,
    ensures
        insert_point(s, p) =~= s.insert(pos, p),
    decreases pos,
{
    if pos == 0 {
        if s.len() == 0 {
            assert(insert_point(s, p) =~= s.insert(0, p));
        } else {
            assert(s[0].time > p.time);
            assert(seq![p] + s =~= s.insert(0, p));
        }
    } else {
        assert(s[0].time <= p.time);
        assert forall|k: int| 0 <= k < pos - 1 implies s.skip(1)[k].time <= p.time by {
            assert(s.skip(1)[k] == s[k + 1]);
        };
        assert(pos - 1 < s.skip(1).len() ==> s.skip(1)[pos - 1].time > p.time);
        lemma_insert_point_at(s.skip(1), p, pos - 1);
        assert(insert_point(s, p) == seq![s[0]] + insert_point(s.skip(1), p));
        assert(seq![s[0]] + s.skip(1).insert(pos - 1, p) =~= s.insert(pos, p));
    }
}

/// Does the curve already hold exactly this point?
fn contains_point(v: &Vec<EquityPoint>, p: EquityPoint) -> (r: bool)
    ensures
        r == v@.contains(p),
{
    let mut i: usize = 0;
    while i < v.len()
        invariant
            0 <= i <= v@.len(),
            forall|k: int| 0 <= k < i ==> v@[k] != p,
        decreases v@.len() - i,
    {
        if v[i].time == p.time && v[i].value == p.value {
            assert(v@[i as int] == p);
            return true;
        }
        i = i + 1;
    }
    proof {
        if v@.contains(p) {
            let k = choose|k: int| 0 <= k < v@.len() && v@[k] == p;
            assert(false);
        }
    }
    false
}

/// The position of the first element whose time exceeds `t`, or the length
/// when there is none.
fn insert_pos(v: &Vec<EquityPoint>, t: i64) -> (pos: usize)
    ensures
        0 <= pos <= v@.len(),
        forall|k: int| 0 <= k < pos ==> v@[k].time <= t,
        pos < v@.len() ==> v@[pos as int].time > t,
{
    let mut i: usize = 0;
    while i < v.len()
        invariant
            0 <= i <= v@.len(),
            forall|k: int| 0 <= k < i ==> v@[k].time <= t,
        decreases v@.len() - i,
    {
        if v[i].time > t {
            return i;
        }
        i = i + 1;
    }
    i
}

/// Folds the points of one snapshot into the curve, in arrival order.
fn merge_into(eq: &mut Vec<EquityPoint>, pts: &Vec<EquityPoint>)
    ensures
        final(eq)@ == merge_points(old(eq)@, pts@),
{
    let ghost orig = eq@;
    let mut k: usize = 0;
    proof {
        assert(pts@.take(0) =~= Seq::<EquityPoint>::empty());
    }
    while k < pts.len()
        invariant
            0 <= k <= pts@.len(),
            eq@ == merge_points(orig, pts@.take(k as int)),
        decreases pts@.len() - k,
    {
        let p = pts[k];
        proof {
            assert(pts@.take(k + 1).drop_last() =~= pts@.take(k as int));
            assert(pts@.take(k + 1).last() == pts@[k as int]);
        }
        if p.value > 0 {
            if !contains_point(eq, p) {
                let pos = insert_pos(eq, p.time);
                proof {
                    lemma_insert_point_at(eq@, p, pos as int);
                }
                eq.insert(pos, p);
            }
        }
        proof {
            assert(eq@ =~= merge_points(orig, pts@.take(k + 1)));
        }
        k = k + 1;
    }
    proof {
        assert(pts@.take(pts@.len() as int) =~= pts@);
    }
}

/// The ghost rows of the sort buffer: each buffered pair as an
/// [`OrderRow`].
pub open spec fn rows_view(s: Seq<(u64, crate::model::OrderView)>) -> Seq<OrderRow> {
    s.map_values(|pr: (u64, crate::model::OrderView)| OrderRow { id: pr.0, labels: pr.1@ })
}

/// Pinpoints where the recursive row insert lands: before the first row
/// whose id exceeds the new row's.
pub proof fn lemma_insert_row_at(s: Seq<OrderRow>, r: OrderRow, pos: int)
    requires
        0 <= pos <= s.len(),
        forall|k: int| 0 <= k < pos ==> s[k].id <= r.id,
        pos < s.len() ==> s[pos].id > r.id,
    ensures
        insert_row(s, r) =~= s.insert(pos, r),
    decreases pos,
{
    if pos == 0 {
        if s.len() == 0 {
            assert(insert_row(s, r) =~= s.insert(0, r));
        } else {
            assert(s[0].id > r.id);
            assert(seq![r] + s =~= s.insert(0, r));
        }
    } else {
        assert(s[0].id <= r.id);
        assert forall|k: int| 0 <= k < pos - 1 implies s.skip(1)[k].id <= r.id by {
            assert(s.skip(1)[k] == s[k + 1]);
        };
        assert(pos - 1 < s.skip(1).len() ==> s.skip(1)[pos - 1].id > r.id);
        lemma_insert_row_at(s.skip(1), r, pos - 1);
        assert(insert_row(s, r) == seq![s[0]] + insert_row(s.skip(1), r));
        assert(seq![s[0]] + s.skip(1).insert(pos - 1, r) =~= s.insert(pos, r));
    }
}

/// The position of the first buffered row whose id exceeds `id`, or the
/// length when there is none.
fn row_insert_pos(rows: &Vec<(u64, crate::model::OrderView)>, id: u64) -> (pos: usize)
    ensures
        0 <= pos <= rows@.len(),
        forall|k: int| 0 <= k < pos ==> (#[trigger] rows@[k]).0 <= id,
        pos < rows@.len() ==> rows@[pos as int].0 > id,
{
    let mut i: usize = 0;
    while i < rows.len()
        invariant
            0 <= i <= rows@.len(),
            forall|k: int| 0 <= k < i ==> (#[trigger] rows@[k]).0 <= id,
        decreases rows@.len() - i,
    {
        if rows[i].0 > id {
            return i;
        }
        i = i + 1;
    }
    i
}

/// One push onto a column extends its mapped view by exactly the label
/// the next row contributes.
proof fn lemma_col_push(
    col_old: Seq<String>,
    col_new: Seq<String>,
    rows: Seq<OrderRow>,
    j: int,
    f: spec_fn(OrderRow) -> Seq<char>,
)
    requires
        0 <= j < rows.len(),
        col_new.len() == col_old.len() + 1,
        forall|k: int| 0 <= k < col_old.len() ==> col_new[k] == col_old[k],
        col_new.last()@ == f(rows[j]),
        col_old.map_values(|s: String| s@) == rows.take(j).map_values(f),
    ensures
        col_new.map_values(|s: String| s@) == rows.take(j + 1).map_values(f),
{
    assert(col_old.len() == j) by {
        assert(col_old.map_values(|s: String| s@).len() == col_old.len());
        assert(rows.take(j).map_values(f).len() == j);
    }
    assert forall|k: int|
        0 <= k < col_new.len() implies (#[trigger] col_new[k])@ == f(rows.take(j + 1)[k]) by {
        if k < j {
            assert(col_new[k] == col_old[k]);
            assert(col_old.map_values(|s: String| s@)[k] == rows.take(j).map_values(f)[k]);
            assert(rows.take(j)[k] == rows[k] && rows.take(j + 1)[k] == rows[k]);
        } else {
            assert(k == j);
            assert(col_new[k] == col_new.last());
            assert(rows.take(j + 1)[k] == rows[j]);
        }
    };
    assert(col_new.map_values(|s: String| s@) =~= rows.take(j + 1).map_values(f));
}

impl TerminalData {
    /// Replaces the five order columns with the valid entries of one
    /// orders payload, sorted ascending by numeric id; malformed ids are
    /// dropped entry by entry.
    fn rebuild_orders(&mut self, entries: Vec<OrderEntry>)
        ensures
            final(self)@ == (DataView {
                order_time: sorted_rows(entries@).map_values(|r: OrderRow| r.labels.time),
                order_type: sorted_rows(entries@).map_values(|r: OrderRow| r.labels.order_type),
                order_sides: sorted_rows(entries@).map_values(|r: OrderRow| r.labels.side),
                order_qty: sorted_rows(entries@).map_values(|r: OrderRow| r.labels.quantity),
                order_symbol: sorted_rows(entries@).map_values(|r: OrderRow| r.labels.symbol),
                ..old(self)@
            }),
    {
        let ghost orig = entries@;
        let mut pending = entries;
        let mut rows: Vec<(u64, crate::model::OrderView)> = Vec::new();
        proof {
            assert(orig.take(0) =~= Seq::<OrderEntry>::empty());
            assert(rows_view(rows@) =~= Seq::<OrderRow>::empty());
            assert(pending@ =~= orig.skip(0));
        }
        while pending.len() > 0
            invariant
                pending@.len() <= orig.len(),
                pending@ == orig.skip(orig.len() - pending@.len()),
                rows_view(rows@) == sorted_rows(orig.take(orig.len() - pending@.len())),
            decreases pending@.len(),
        {
            let ghost k = orig.len() - pending@.len();
            let ghost prevp = pending@;
            let e = pending.remove(0);
            let ghost ge = e;
            proof {
                assert(ge == orig[k]);
                assert(pending@ =~= orig.skip(k + 1));
                assert(orig.take(k + 1).drop_last() =~= orig.take(k));
                assert(orig.take(k + 1).last() == orig[k]);
            }
            let OrderEntry { id, view } = e;
            match crate::parse::parse_u64(id.as_str()) {
                Some(oid) => {
                    proof {
                        assert(entry_valid(ge));
                        assert(oid == dec_val(ge.id@));
                        assert(row_of(ge) == (OrderRow { id: oid, labels: view@ }));
                    }
                    let pos = row_insert_pos(&rows, oid);
                    let ghost prev = rows_view(rows@);
                    proof {
                        assert(forall|k2: int|
                            0 <= k2 < prev.len() ==> (#[trigger] prev[k2]).id == rows@[k2].0);
                        lemma_insert_row_at(prev, (OrderRow { id: oid, labels: view@ }), pos as int);
                    }
                    rows.insert(pos, (oid, view));
                    proof {
                        assert(rows_view(rows@) =~= prev.insert(
                            pos as int,
                            (OrderRow { id: oid, labels: view@ }),
                        ));
                    }
                },
                None => {
                    proof {
                        assert(!entry_valid(ge));
                    }
                },
            }
        }
        proof {
            assert(orig.take(orig.len() as int) =~= orig);
            assert(rows_view(rows@) == sorted_rows(orig));
        }
        self.order_time = Vec::new();
        self.order_type = Vec::new();
        self.order_sides = Vec::new();
        self.order_qty = Vec::new();
        self.order_symbol = Vec::new();
        let ghost rs = rows_view(rows@);
        proof {
            assert(rows_view(rows@) =~= rs.skip(0));
            assert(self.order_time@.map_values(|s: String| s@) =~= rs.take(0).map_values(
                |r: OrderRow| r.labels.time,
            ));
            assert(self.order_type@.map_values(|s: String| s@) =~= rs.take(0).map_values(
                |r: OrderRow| r.labels.order_type,
            ));
            assert(self.order_sides@.map_values(|s: String| s@) =~= rs.take(0).map_values(
                |r: OrderRow| r.labels.side,
            ));
            assert(self.order_qty@.map_values(|s: String| s@) =~= rs.take(0).map_values(
                |r: OrderRow| r.labels.quantity,
            ));
            assert(self.order_symbol@.map_values(|s: String| s@) =~= rs.take(0).map_values(
                |r: OrderRow| r.labels.symbol,
            ));
        }
        while rows.len() > 0
            invariant
                rows@.len() <= rs.len(),
                rows_view(rows@) == rs.skip(rs.len() - rows@.len()),
                self.order_time@.map_values(|s: String| s@) == rs.take(
                    rs.len() - rows@.len(),
                ).map_values(|r: OrderRow| r.labels.time),
                self.order_type@.map_values(|s: String| s@) == rs.take(
                    rs.len() - rows@.len(),
                ).map_values(|r: OrderRow| r.labels.order_type),
                self.order_sides@.map_values(|s: String| s@) == rs.take(
                    rs.len() - rows@.len(),
                ).map_values(|r: OrderRow| r.labels.side),
                self.order_qty@.map_values(|s: String| s@) == rs.take(
                    rs.len() - rows@.len(),
                ).map_values(|r: OrderRow| r.labels.quantity),
                self.order_symbol@.map_values(|s: String| s@) == rs.take(
                    rs.len() - rows@.len(),
                ).map_values(|r: OrderRow| r.labels.symbol),
                self.logs == old(self).logs,
                self.equity == old(self).equity,
            decreases rows@.len(),
        {
            let ghost j = rs.len() - rows@.len();
            let ghost prevrows = rows@;
            let pr = rows.remove(0);
            proof {
                assert(pr == prevrows[0]);
                assert(rows_view(prevrows)[0] == rs[j]);
                assert(rows@ =~= prevrows.skip(1));
                assert forall|k2: int|
                    0 <= k2 < rows@.len() implies rows_view(rows@)[k2] == rs[j + 1 + k2] by {
                    assert(rows@[k2] == prevrows[k2 + 1]);
                    assert(rows_view(prevrows)[k2 + 1] == rs.skip(j)[k2 + 1]);
                };
                assert(rows_view(rows@) =~= rs.skip(j + 1));
                assert(rs.take(j + 1).drop_last() =~= rs.take(j));
                assert(rs.take(j + 1).last() == rs[j]);
            }
            let view = pr.1;
            let ghost gv = view;
            let ghost ct = self.order_time@;
            let ghost cy = self.order_type@;
            let ghost cs = self.order_sides@;
            let ghost cq = self.order_qty@;
            let ghost cb = self.order_symbol@;
            let crate::model::OrderView { time, order_type, side, quantity, symbol } = view;
            self.order_time.push(time);
            self.order_type.push(order_type);
            self.order_sides.push(side);
            self.order_qty.push(quantity);
            self.order_symbol.push(symbol);
            proof {
                assert(gv@ == rs[j].labels);
                lemma_col_push(ct, self.order_time@, rs, j, |r: OrderRow| r.labels.time);
                lemma_col_push(cy, self.order_type@, rs, j, |r: OrderRow| r.labels.order_type);
                lemma_col_push(cs, self.order_sides@, rs, j, |r: OrderRow| r.labels.side);
                lemma_col_push(cq, self.order_qty@, rs, j, |r: OrderRow| r.labels.quantity);
                lemma_col_push(cb, self.order_symbol@, rs, j, |r: OrderRow| r.labels.symbol);
            }
        }
        proof {
            assert(rs.take(rs.len() as int) =~= rs);
            assert(self@ =~~= (DataView {
                order_time: sorted_rows(orig).map_values(|r: OrderRow| r.labels.time),
                order_type: sorted_rows(orig).map_values(|r: OrderRow| r.labels.order_type),
                order_sides: sorted_rows(orig).map_values(|r: OrderRow| r.labels.side),
                order_qty: sorted_rows(orig).map_values(|r: OrderRow| r.labels.quantity),
                order_symbol: sorted_rows(orig).map_values(|r: OrderRow| r.labels.symbol),
                ..old(self)@
            }));
        }
    }
}

impl TerminalData {
    /// Appends one log payload: one display line per text line, each
    /// tagged with the error flag.
    pub fn log(&mut self, msg: String, error: bool)
        ensures
            final(self)@ == old(self)@.with_log(msg@, error),
    {
        let mut lines = crate::text::split_lines(msg.as_str());
        let ghost ls = line_split(msg@);
        let ghost base = self.logs@.map_values(|l: LogLine| (l.text@, l.is_error));
        proof {
            assert(lines@.map_values(|l: String| l@) =~= ls);
            assert(ls.take(0) =~= Seq::<Seq<char>>::empty());
            assert(base + ls.take(0).map_values(|l: Seq<char>| (l, error)) =~= base);
        }
        while lines.len() > 0
            invariant
                lines@.len() <= ls.len(),
                lines@.map_values(|l: String| l@) == ls.skip(ls.len() - lines@.len()),
                self.logs@.map_values(|l: LogLine| (l.text@, l.is_error)) == base + ls.take(
                    ls.len() - lines@.len(),
                ).map_values(|l: Seq<char>| (l, error)),
                self.equity == old(self).equity,
                self.order_time == old(self).order_time,
                self.order_type == old(self).order_type,
                self.order_sides == old(self).order_sides,
                self.order_qty == old(self).order_qty,
                self.order_symbol == old(self).order_symbol,
            decreases lines@.len(),
        {
            let ghost j = ls.len() - lines@.len();
            let ghost prevlines = lines@;
            let line = lines.remove(0);
            proof {
                assert(prevlines.map_values(|l: String| l@)[0] == ls.skip(j)[0]);
                assert(line@ == ls[j]);
                assert forall|k2: int|
                    0 <= k2 < lines@.len() implies (#[trigger] lines@[k2])@ == ls.skip(
                    j + 1,
                )[k2] by {
                    assert(lines@[k2] == prevlines[k2 + 1]);
                    assert(prevlines.map_values(|l: String| l@)[k2 + 1] == ls.skip(j)[k2 + 1]);
                };
                assert(lines@.map_values(|l: String| l@) =~= ls.skip(j + 1));
            }
            let ghost prevlogs = self.logs@;
            self.logs.push(LogLine { text: line, is_error: error });
            proof {
                assert(prevlogs.len() == base.len() + j) by {
                    assert(prevlogs.map_values(|l: LogLine| (l.text@, l.is_error)).len()
                        == prevlogs.len());
                };
                assert(self.logs@.len() == base.len() + j + 1);
                assert(ls.take(j + 1).len() == j + 1);
                assert((base + ls.take(j + 1).map_values(|l: Seq<char>| (l, error))).len()
                    == base.len() + j + 1);
                assert forall|k2: int|
                    0 <= k2 < self.logs@.len() implies (((#[trigger] self.logs@[k2]).text@,
                self.logs@[k2].is_error)) == (base + ls.take(j + 1).map_values(
                    |l: Seq<char>| (l, error),
                ))[k2] by {
                    assert(prevlogs.len() == base.len() + j) by {
                        assert(prevlogs.map_values(|l: LogLine| (l.text@, l.is_error)).len()
                            == prevlogs.len());
                    };
                    if k2 < prevlogs.len() {
                        assert(self.logs@[k2] == prevlogs[k2]);
                        assert(prevlogs.map_values(|l: LogLine| (l.text@, l.is_error))[k2] == (
                        base + ls.take(j).map_values(|l: Seq<char>| (l, error)))[k2]);
                        if k2 >= base.len() {
                            assert(ls.take(j)[k2 - base.len()] == ls[k2 - base.len()]);
                            assert(ls.take(j + 1)[k2 - base.len()] == ls[k2 - base.len()]);
                        }
                    } else {
                        assert(k2 == base.len() + j);
                        assert(self.logs@[k2].text@ == ls[j]);
                        assert(self.logs@[k2].is_error == error);
                        assert(ls.take(j + 1)[j] == ls[j]);
                        assert((base + ls.take(j + 1).map_values(|l: Seq<char>| (l, error)))[k2]
                            == ls.take(j + 1).map_values(|l: Seq<char>| (l, error))[j]);
                    }
                };
                assert(self.logs@.map_values(|l: LogLine| (l.text@, l.is_error)) =~= base
                    + ls.take(j + 1).map_values(|l: Seq<char>| (l, error)));
            }
        }
        proof {
            assert(ls.take(ls.len() as int) =~= ls);
            assert(self@ =~~= old(self)@.with_log(msg@, error));
        }
    }

    /// Folds one result snapshot: merges its equity points into the curve
    /// and, when it carries an orders payload, replaces the five columns.
    pub fn packet(&mut self, packet: ResultSnapshot)
        ensures
            final(self)@ == old(self)@.fold_snapshot(packet),
    {
        let ghost gp = packet;
        let ResultSnapshot { equity_points, orders } = packet;
        match equity_points {
            Some(pts) => {
                merge_into(&mut self.equity, &pts);
            },
            None => {},
        }
        match orders {
            Some(entries) => {
                self.rebuild_orders(entries);
            },
            None => {},
        }
        proof {
            assert(self@ =~~= old(self)@.fold_snapshot(gp));
        }
    }

    /// Consumes one event: folds it into the state and reports whether it
    /// was the stop sentinel, which changes nothing and ends the render
    /// loop.
    pub fn handle_data(&mut self, msg: Message) -> (done: bool)
        ensures
            final(self)@ == old(self)@.fold_msg(msg).0,
            done == old(self)@.fold_msg(msg).1,
    {
        match msg {
            Message::Packet(p) => {
                self.packet(p);
                false
            },
            Message::Log(text, error) => {
                self.log(text, error);
                false
            },
            Message::Stop => true,
        }
    }
}

impl Default for TerminalData {
    /// Same as [`TerminalData::new`].
    fn default() -> (d: Self)
        ensures
            d@ == DataView::init(),
    {
        TerminalData::new()
    }
}

} // verus!
