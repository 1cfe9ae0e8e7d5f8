//! Input events: the derivatives, order-book and liquidation streams a radar
//! folds. Market quantities are carried as an opaque value type `V`.
use vstd::prelude::*;

verus! {

/// The side of a liquidation. `Buy` means a long position was liquidated (a buy
/// to close); `Sell` means a short was liquidated.
#[derive(Clone, Copy, Debug, PartialEq, Eq, Structural)]
pub enum Side {
    /// A long position was liquidated.
    Buy,
    /// A short position was liquidated.
    Sell,
}

/// A single perp market event; `ts` is seconds or milliseconds, consistent with
/// the feed.
#[derive(Clone, Copy, Debug, PartialEq)]
pub enum Event<V> {
    /// A derivatives snapshot: open interest, funding rate and mark price.
    Derivatives { ts: i64, open_interest: V, funding_rate: V, mark_price: V },
    /// A top-of-book snapshot: resting bid/ask volume and best bid/ask.
    Orderbook { ts: i64, bid_volume: V, ask_volume: V, best_bid: V, best_ask: V },
    /// A liquidation: the side, quantity and price of a forced close.
    Liquidation { ts: i64, side: Side, qty: V, price: V },
}

impl<V> Event<V> {
    /// The timestamp of the event, whatever its variant.
    pub open spec fn spec_ts(self) -> i64 {
        match self {
            Event::Derivatives { ts, .. } => ts,
            Event::Orderbook { ts, .. } => ts,
            Event::Liquidation { ts, .. } => ts,
        }
    }

    /// The event timestamp, regardless of variant.
    pub fn ts(&self) -> (t: i64)
        ensures
            t == self.spec_ts(),
    {
        match self {
            Event::Derivatives { ts, .. } => *ts,
            Event::Orderbook { ts, .. } => *ts,
            Event::Liquidation { ts, .. } => *ts,
        }
    }
}

} // verus!
