//! The pure half of the render pass: which slice of each series one frame
//! shows, and the axis bounds of the equity chart.  The drawing itself
//! happens outside the library; it receives these values and puts them on
//! the screen.

use vstd::prelude::*;
use crate::state::TerminalData;
use crate::window::{tail_start, window_start};

verus! {

/// The axis bounds of the equity chart for one frame.
///
/// The X bounds are the first and last time of the sorted curve.  The Y
/// lower bound is the true minimum value, deliberately not clamped to
/// zero; the Y upper bound is the maximum value clamped to at least zero,
/// so the zero line is always in view.
#[derive(Clone, Copy, PartialEq, Eq, Structural, Debug)]
pub struct ChartBounds {
    pub x_min: i64,
    pub x_max: i64,
    pub y_min: i64,
    pub y_max: i64,
}

impl TerminalData {
    /// The chart bounds of the current curve, or nothing when the curve is
    /// empty and only the bordered frame is drawn.
    pub fn chart_bounds(&self) -> (b: Option<ChartBounds>)
        ensures
            b is Some <==> self@.equity.len() > 0,
            b matches Some(cb) ==> {
                &&& cb.x_min == self@.equity.first().time
                &&& cb.x_max == self@.equity.last().time
                &&& forall|i: int|
                    0 <= i < self@.equity.len() ==> cb.y_min <= (#[trigger] self@.equity[i]).value
                &&& exists|i: int|
                    0 <= i < self@.equity.len() && (#[trigger] self@.equity[i]).value == cb.y_min
                &&& cb.y_max >= 0
                &&& forall|i: int|
                    0 <= i < self@.equity.len() ==> cb.y_max >= (#[trigger] self@.equity[i]).value
                &&& (cb.y_max == 0 || exists|i: int|
                    0 <= i < self@.equity.len() && (#[trigger] self@.equity[i]).value == cb.y_max)
            },
    {
        let n = self.equity.len();
        if n == 0 {
            return None;
        }
        let mut y_min: i64 = self.equity[0].value;
        let mut y_max: i64 = 0;
        let mut k: usize = 0;
        proof {
            assert(self@.equity[0].value == y_min);
        }
        while k < n
            invariant
                n == self@.equity.len(),
                n > 0,
                0 <= k <= n,
                forall|i: int| 0 <= i < k ==> y_min <= (#[trigger] self@.equity[i]).value,
                y_min <= self@.equity[0].value,
                exists|i: int|
                    0 <= i < n && (#[trigger] self@.equity[i]).value == y_min,
                y_max >= 0,
                forall|i: int| 0 <= i < k ==> y_max >= (#[trigger] self@.equity[i]).value,
                y_max == 0 || exists|i: int|
                    0 <= i < n && (#[trigger] self@.equity[i]).value == y_max,
            decreases n - k,
        {
            let v = self.equity[k].value;
            if v < y_min {
                y_min = v;
            }
            if v > y_max {
                y_max = v;
            }
            k = k + 1;
        }
        Some(
            ChartBounds {
                x_min: self.equity[0].time,
                x_max: self.equity[n - 1].time,
                y_min,
                y_max,
            },
        )
    }

    /// The displayed tail of the log pane: the last `height - 2` lines with
    /// their error flags, oldest of the shown lines first.
    pub fn visible_logs(&self, height: u16) -> (out: Vec<(String, bool)>)
        ensures
            out@.len() == self@.logs.len() - window_start(self@.logs.len() as int, height),
            forall|i: int|
                0 <= i < out@.len() ==> ((#[trigger] out@[i]).0@, out@[i].1) == self@.logs[
                    window_start(self@.logs.len() as int, height) + i],
    {
        let start = tail_start(self.logs.len(), height);
        let mut out: Vec<(String, bool)> = Vec::new();
        let mut j: usize = start;
        while j < self.logs.len()
            invariant
                start == window_start(self@.logs.len() as int, height),
                start <= j <= self@.logs.len(),
                out@.len() == j - start,
                forall|i: int|
                    0 <= i < out@.len() ==> ((#[trigger] out@[i]).0@, out@[i].1) == self@.logs[
                        start + i],
            decreases self@.logs.len() - j,
        {
            out.push((self.logs[j].text.clone(), self.logs[j].is_error));
            j = j + 1;
        }
        out
    }
}

} // verus!
