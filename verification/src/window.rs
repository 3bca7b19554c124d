//! The tail-window rule: a pane of height `h` reserves two rows for its
//! border and shows only the last `h - 2` items of an unbounded series,
//! oldest of the shown items first.

use vstd::prelude::*;

verus! {

/// The rows a pane can actually display: its height minus the two border
/// rows.
pub open spec fn usable_rows(height: u16) -> int {
    if height >= 2 {
        height - 2
    } else {
        0
    }
}

/// The index of the first displayed item: everything before it is retained
/// but scrolled out of view.
pub open spec fn window_start(len: int, height: u16) -> int {
    if len <= usable_rows(height) {
        0
    } else {
        len - usable_rows(height)
    }
}

/// Computes where the displayed tail of a series of `len` items begins in
/// a pane of the given height.
pub fn tail_start(len: usize, height: u16) -> (start: usize)
    ensures
        start == window_start(len as int, height),
        start <= len,
{
    let usable: usize = if height >= 2 {
        (height - 2) as usize
    } else {
        0
    };
    if len <= usable {
        0
    } else {
        len - usable
    }
}

/// The displayed tail of one order column: the last `height - 2` labels,
/// in original relative order.
pub fn visible_column(col: &Vec<String>, height: u16) -> (out: Vec<String>)
    ensures
        out@.len() == col@.len() - window_start(col@.len() as int, height),
        forall|i: int|
            0 <= i < out@.len() ==> (#[trigger] out@[i])@ == col@[window_start(
                col@.len() as int,
                height,
            ) + i]@,
{
    let start = tail_start(col.len(), height);
    let mut out: Vec<String> = Vec::new();
    let mut j: usize = start;
    while j < col.len()
        invariant
            start == window_start(col@.len() as int, height),
            start <= j <= col@.len(),
            out@.len() == j - start,
            forall|i: int|
                0 <= i < out@.len() ==> (#[trigger] out@[i])@ == col@[start + i]@,
        decreases col@.len() - j,
    {
        out.push(col[j].clone());
        j = j + 1;
    }
    out
}

} // verus!
