//! The in-memory result model the dashboard consumes: already-decoded
//! values handed over by the ingestion boundary.

use vstd::prelude::*;

verus! {

/// One sample of the equity curve.
///
/// Time and value are totally ordered integer keys.  A caller that samples a
/// continuous quantity supplies any order-preserving integer encoding of it;
/// zero must encode zero, so that `value > 0` means a strictly positive
/// sample.
#[derive(Clone, Copy, PartialEq, Eq, Structural, Debug)]
pub struct EquityPoint {
    pub time: i64,
    pub value: i64,
}

/// A rendering-ready projection of a single order: five short display
/// labels.
pub struct OrderView {
    pub time: String,
    pub order_type: String,
    pub side: String,
    pub quantity: String,
    pub symbol: String,
}

/// The ghost image of an [`OrderView`]: the five labels as character
/// sequences.
pub struct OrderLabels {
    pub time: Seq<char>,
    pub order_type: Seq<char>,
    pub side: Seq<char>,
    pub quantity: Seq<char>,
    pub symbol: Seq<char>,
}

impl View for OrderView {
    type V = OrderLabels;

    open spec fn view(&self) -> OrderLabels {
        OrderLabels {
            time: self.time@,
            order_type: self.order_type@,
            side: self.side@,
            quantity: self.quantity@,
            symbol: self.symbol@,
        }
    }
}

/// One entry of the order mapping as it arrives: the order id, still a
/// string on the wire, and the display projection of the order.
pub struct OrderEntry {
    pub id: String,
    pub view: OrderView,
}

/// One inbound update: zero or more new equity points and, optionally, a
/// full replacement order set.
///
/// An absent `orders` mapping is different from an empty one: absence leaves
/// the previous order columns untouched, while an empty mapping replaces
/// them with empty columns.
pub struct ResultSnapshot {
    pub equity_points: Option<Vec<EquityPoint>>,
    pub orders: Option<Vec<OrderEntry>>,
}

} // verus!
