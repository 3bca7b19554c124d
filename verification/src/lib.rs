//! Verified core of a live terminal dashboard for a long-running backtest.
//!
//! The library owns the pure logic of the dashboard: the fold that merges
//! incoming result snapshots into the aggregation state, the layout engine
//! that partitions a frame into regions, the tail-windowing rule that bounds
//! what each pane displays, and the session lifecycle state machine that
//! guarantees the terminal device is restored exactly once.  Transport,
//! decoding and the actual drawing calls live outside the library and hand
//! it plain values.

use vstd::prelude::*;

pub mod laws;
pub mod layout;
pub mod lifecycle;
pub mod model;
pub mod parse;
pub mod render;
pub mod state;
pub mod text;
pub mod window;

use crate::model::ResultSnapshot;

verus! {

/// One event consumed by the render loop, in FIFO order, one per frame.
pub enum Message {
    /// A decoded result snapshot: new equity points and/or a replacement
    /// order set.
    Packet(ResultSnapshot),
    /// A log line (possibly multi-line) and whether it is an error line.
    Log(String, bool),
    /// Sentinel: the render loop exits after dequeuing this.
    Stop,
}

} // verus!
