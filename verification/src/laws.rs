//! The library's laws: what holds of the aggregation state after any
//! sequence of events, proved once over the spec-level fold.

use vstd::prelude::*;
use crate::model::ResultSnapshot;
use crate::state::{
    insert_row, lemma_merge_points_props, sorted_rows, DataView, OrderRow,
};
use crate::Message;

verus! {

/// The state after a whole event sequence has been folded, in order.
pub open spec fn fold_events(v: DataView, ms: Seq<Message>) -> DataView
    decreases ms.len(),
{
    if ms.len() == 0 {
        v
    } else {
        fold_events(v, ms.drop_last()).fold_msg(ms.last()).0
    }
}

/// The numeric ids of a row sequence are ascending.
pub open spec fn rows_sorted(s: Seq<OrderRow>) -> bool {
    forall|i: int, j: int| 0 <= i < j < s.len() ==> s[i].id <= s[j].id
}

/// What inserting one row does to the blotter's contents: one more row,
/// drawn from the old rows plus the new one.
pub proof fn lemma_insert_row_shape(s: Seq<OrderRow>, r: OrderRow)
    ensures
        insert_row(s, r).len() == s.len() + 1,
        forall|q: OrderRow| #[trigger] insert_row(s, r).contains(q) <==> (s.contains(q) || q
            == r),
    decreases s.len(),
{
    broadcast use vstd::seq_lib::lemma_seq_concat_contains_all_elements;
    broadcast use vstd::seq_lib::lemma_seq_empty_contains_nothing;
    broadcast use vstd::seq_lib::lemma_seq_contains_after_push;

    assert(seq![r] =~= Seq::<OrderRow>::empty().push(r));
    if s.len() == 0 {
        assert(s =~= Seq::<OrderRow>::empty());
        assert(insert_row(s, r) == seq![r]);
    } else if s[0].id > r.id {
        assert(insert_row(s, r) == seq![r] + s);
    } else {
        lemma_insert_row_shape(s.skip(1), r);
        assert(seq![s[0]] =~= Seq::<OrderRow>::empty().push(s[0]));
        assert(s =~= seq![s[0]] + s.skip(1));
        assert(insert_row(s, r) == seq![s[0]] + insert_row(s.skip(1), r));
    }
}

/// Inserting keeps the blotter sorted by id.
pub proof fn lemma_insert_row_sorted(s: Seq<OrderRow>, r: OrderRow)
    requires
        rows_sorted(s),
    ensures
        rows_sorted(insert_row(s, r)),
    decreases s.len(),
{
    let out = insert_row(s, r);
    if s.len() == 0 {
    } else if s[0].id > r.id {
        assert forall|i: int, j: int| 0 <= i < j < out.len() implies out[i].id <= out[j].id by {
            if i > 0 {
                assert(out[i] == s[i - 1] && out[j] == s[j - 1]);
            } else {
                assert(out[j] == s[j - 1]);
            }
        };
    } else {
        assert(rows_sorted(s.skip(1))) by {
            assert forall|i: int, j: int|
                0 <= i < j < s.skip(1).len() implies s.skip(1)[i].id <= s.skip(1)[j].id by {
                assert(s.skip(1)[i] == s[i + 1] && s.skip(1)[j] == s[j + 1]);
            };
        };
        lemma_insert_row_sorted(s.skip(1), r);
        lemma_insert_row_shape(s.skip(1), r);
        let rest = insert_row(s.skip(1), r);
        assert forall|i: int, j: int| 0 <= i < j < out.len() implies out[i].id <= out[j].id by {
            if i == 0 {
                assert(out[j] == rest[j - 1]);
                assert(rest.contains(rest[j - 1]));
                if s.skip(1).contains(rest[j - 1]) {
                    let k = choose|k: int|
                        0 <= k < s.skip(1).len() && s.skip(1)[k] == rest[j - 1];
                    assert(s[k + 1] == rest[j - 1]);
                } else {
                    assert(rest[j - 1] == r);
                }
            } else {
                assert(out[i] == rest[i - 1] && out[j] == rest[j - 1]);
            }
        };
    }
}

/// The blotter any orders payload rebuilds is sorted ascending by numeric
/// id.
pub proof fn lemma_sorted_rows_sorted(entries: Seq<crate::model::OrderEntry>)
    ensures
        rows_sorted(sorted_rows(entries)),
    decreases entries.len(),
{
    if entries.len() > 0 {
        lemma_sorted_rows_sorted(entries.drop_last());
        if crate::state::entry_valid(entries.last()) {
            lemma_insert_row_sorted(
                sorted_rows(entries.drop_last()),
                crate::state::row_of(entries.last()),
            );
        }
    }
}

/// One fold step preserves the state invariant: the curve stays sorted,
/// free of duplicates and strictly positive, and the five order columns
/// stay index-aligned.
pub proof fn lemma_fold_msg_preserves_wf(v: DataView, m: Message)
    requires
        v.wf(),
    ensures
        v.fold_msg(m).0.wf(),
{
    match m {
        Message::Packet(p) => {
            match p.equity_points {
                Some(pts) => {
                    lemma_merge_points_props(v.equity, pts@);
                },
                None => {},
            }
        },
        Message::Log(text, is_error) => {},
        Message::Stop => {},
    }
}

/// The invariant holds after every event sequence folded from a fresh
/// state: the equity curve is always sorted ascending by time, holds no
/// two points with identical time and value, holds no point with a value
/// at or below zero however often one is resent, and the five order
/// columns are always of equal length.
pub proof fn lemma_fold_events_wf(ms: Seq<Message>)
    ensures
        fold_events(DataView::init(), ms).wf(),
    decreases ms.len(),
{
    if ms.len() > 0 {
        lemma_fold_events_wf(ms.drop_last());
        lemma_fold_msg_preserves_wf(fold_events(DataView::init(), ms.drop_last()), ms.last());
    }
}

/// A snapshot without an orders payload leaves the five order columns and
/// the log exactly as they were: only the equity curve can change.
pub proof fn lemma_snapshot_without_orders_keeps_columns(v: DataView, snap: ResultSnapshot)
    requires
        snap.orders is None,
    ensures
        v.fold_snapshot(snap).order_time == v.order_time,
        v.fold_snapshot(snap).order_type == v.order_type,
        v.fold_snapshot(snap).order_sides == v.order_sides,
        v.fold_snapshot(snap).order_qty == v.order_qty,
        v.fold_snapshot(snap).order_symbol == v.order_symbol,
        v.fold_snapshot(snap).logs == v.logs,
{
}

/// A snapshot with an orders payload replaces all five columns wholesale:
/// each column is exactly the matching label of the payload's valid rows,
/// sorted ascending by numeric id, so the columns come out index-aligned
/// and of one common length.
pub proof fn lemma_snapshot_with_orders_replaces_columns(v: DataView, snap: ResultSnapshot)
    requires
        snap.orders is Some,
    ensures
        v.fold_snapshot(snap).order_time == sorted_rows(snap.orders.unwrap()@).map_values(
            |r: OrderRow| r.labels.time,
        ),
        v.fold_snapshot(snap).order_type == sorted_rows(snap.orders.unwrap()@).map_values(
            |r: OrderRow| r.labels.order_type,
        ),
        v.fold_snapshot(snap).order_sides == sorted_rows(snap.orders.unwrap()@).map_values(
            |r: OrderRow| r.labels.side,
        ),
        v.fold_snapshot(snap).order_qty == sorted_rows(snap.orders.unwrap()@).map_values(
            |r: OrderRow| r.labels.quantity,
        ),
        v.fold_snapshot(snap).order_symbol == sorted_rows(snap.orders.unwrap()@).map_values(
            |r: OrderRow| r.labels.symbol,
        ),
        v.fold_snapshot(snap).columns_aligned(),
        rows_sorted(sorted_rows(snap.orders.unwrap()@)),
{
    lemma_sorted_rows_sorted(snap.orders.unwrap()@);
}

} // verus!
