//! What a folded state holds, stated over the whole event history: each
//! window keeps exactly the most recent values of its stream, and each signal
//! reads the values its definition names (the latest one and the one `window`
//! events earlier, or the last `window` liquidations).
use vstd::prelude::*;

use crate::event::Event;
use crate::signal::SignalKind;
use crate::spec::SpecShape;
use crate::symbol_state::{
    capacity_for, fold_all, initial_view, inputs_of, later, max_window, push_recent, spec_ready,
    ScoreInputs,
};

verus! {

/// The open interest of every derivatives event, in order.
pub open spec fn oi_values<V>(events: Seq<Event<V>>) -> Seq<V>
    decreases events.len(),
{
    if events.len() == 0 {
        Seq::empty()
    } else {
        let rest = oi_values(events.drop_last());
        match events.last() {
            Event::Derivatives { open_interest, .. } => rest.push(open_interest),
            _ => rest,
        }
    }
}

/// The funding rate of every derivatives event, in order.
pub open spec fn funding_values<V>(events: Seq<Event<V>>) -> Seq<V>
    decreases events.len(),
{
    if events.len() == 0 {
        Seq::empty()
    } else {
        let rest = funding_values(events.drop_last());
        match events.last() {
            Event::Derivatives { funding_rate, .. } => rest.push(funding_rate),
            _ => rest,
        }
    }
}

/// The mark price of every derivatives event, in order.
pub open spec fn mark_values<V>(events: Seq<Event<V>>) -> Seq<V>
    decreases events.len(),
{
    if events.len() == 0 {
        Seq::empty()
    } else {
        let rest = mark_values(events.drop_last());
        match events.last() {
            Event::Derivatives { mark_price, .. } => rest.push(mark_price),
            _ => rest,
        }
    }
}

/// The quantity of every liquidation, in order.
pub open spec fn liq_values<V>(events: Seq<Event<V>>) -> Seq<V>
    decreases events.len(),
{
    if events.len() == 0 {
        Seq::empty()
    } else {
        let rest = liq_values(events.drop_last());
        match events.last() {
            Event::Liquidation { qty, .. } => rest.push(qty),
            _ => rest,
        }
    }
}

/// The bid and ask volume of the latest order-book event, if any.
pub open spec fn latest_book<V>(events: Seq<Event<V>>) -> Option<(V, V)>
    decreases events.len(),
{
    if events.len() == 0 {
        None
    } else {
        match events.last() {
            Event::Orderbook { bid_volume, ask_volume, .. } => Some((bid_volume, ask_volume)),
            _ => latest_book(events.drop_last()),
        }
    }
}

/// The greatest timestamp of the events (`i64::MIN` for none).
pub open spec fn max_ts<V>(events: Seq<Event<V>>) -> i64
    decreases events.len(),
{
    if events.len() == 0 {
        i64::MIN
    } else {
        later(max_ts(events.drop_last()), events.last().spec_ts())
    }
}

/// The last `cap` values of `h` (all of them when there are fewer).
pub open spec fn keep_last<V>(h: Seq<V>, cap: nat) -> Seq<V> {
    if h.len() > cap {
        h.subrange(h.len() - cap, h.len() as int)
    } else {
        h
    }
}

proof fn lemma_keep_last_push<V>(h: Seq<V>, v: V, cap: nat)
    requires
        cap >= 1,
    ensures
        push_recent(keep_last(h, cap), v, cap) == keep_last(h.push(v), cap),
{
    let k = keep_last(h, cap);
    let t = k.push(v);
    if h.len() > cap {
        assert(t.subrange(1, t.len() as int) =~= h.push(v).subrange(
            h.push(v).len() - cap,
            h.push(v).len() as int,
        ));
    } else if h.len() == cap {
        assert(t.subrange(1, t.len() as int) =~= h.push(v).subrange(1, h.push(v).len() as int));
    }
}

/// A state folded from a fresh one holds, for each stream, exactly its last
/// `cap` values; the latest book; and the greatest timestamp.
pub proof fn lemma_fold_keeps_recent_history<V>(shape: SpecShape, events: Seq<Event<V>>)
    ensures
        ({
            let s = fold_all(initial_view::<V>(shape), events);
            let cap = capacity_for(shape.signals@);
            &&& s.cap == cap
            &&& s.oi == keep_last(oi_values(events), cap)
            &&& s.funding == keep_last(funding_values(events), cap)
            &&& s.mark == keep_last(mark_values(events), cap)
            &&& s.liq_qty == keep_last(liq_values(events), cap)
            &&& s.last_book == latest_book(events)
            &&& s.last_ts == max_ts(events)
        }),
    decreases events.len(),
{
    let cap = capacity_for(shape.signals@);
    if events.len() == 0 {
        assert(keep_last(Seq::<V>::empty(), cap) =~= Seq::<V>::empty());
    } else {
        let prev = events.drop_last();
        lemma_fold_keeps_recent_history(shape, prev);
        match events.last() {
            Event::Derivatives { open_interest, funding_rate, mark_price, .. } => {
                lemma_keep_last_push(oi_values(prev), open_interest, cap);
                lemma_keep_last_push(funding_values(prev), funding_rate, cap);
                lemma_keep_last_push(mark_values(prev), mark_price, cap);
            },
            Event::Liquidation { qty, .. } => {
                lemma_keep_last_push(liq_values(prev), qty, cap);
            },
            _ => {},
        }
    }
}

/// A windowed signal of a spec has a window no larger than the spec's
/// largest.
proof fn lemma_window_at_most_max(sigs: Seq<crate::spec::SignalShape>, i: int)
    requires
        0 <= i < sigs.len(),
        sigs[i].kind.spec_windowed(),
    ensures
        sigs[i].window <= max_window(sigs),
    decreases sigs.len(),
{
    if i < sigs.len() - 1 {
        lemma_window_at_most_max(sigs.drop_last(), i);
    }
}

/// A signal of a spec is ready exactly when enough events of its stream have
/// arrived: more derivatives events than its window for `oi_delta` and
/// `oi_price_divergence`, two derivatives events for `funding_flip`, one
/// order-book event for `book_imbalance`, one liquidation for `liq_cluster`.
pub proof fn lemma_ready_after_enough_events<V>(shape: SpecShape, events: Seq<Event<V>>, i: int)
    requires
        0 <= i < shape.signals@.len(),
        events.len() <= usize::MAX,
    ensures
        ({
            let sig = shape.signals@[i];
            let ready = spec_ready(fold_all(initial_view::<V>(shape), events), sig);
            match sig.kind {
                SignalKind::OiDelta | SignalKind::OiPriceDivergence => ready == (oi_values(
                    events,
                ).len() > sig.window),
                SignalKind::FundingFlip => ready == (funding_values(events).len() >= 2),
                SignalKind::BookImbalance => ready == (latest_book(events) is Some),
                SignalKind::LiqCluster => ready == (liq_values(events).len() > 0),
            }
        }),
{
    lemma_fold_keeps_recent_history(shape, events);
    lemma_stream_lengths_bounded(events);
    let sig = shape.signals@[i];
    if sig.kind.spec_windowed() {
        lemma_window_at_most_max(shape.signals@, i);
    }
}

/// No stream has more values than there are events.
proof fn lemma_stream_lengths_bounded<V>(events: Seq<Event<V>>)
    ensures
        oi_values(events).len() <= events.len(),
        funding_values(events).len() <= events.len(),
        liq_values(events).len() <= events.len(),
    decreases events.len(),
{
    if events.len() > 0 {
        lemma_stream_lengths_bounded(events.drop_last());
    }
}

/// The three derivatives streams have one value per derivatives event.
proof fn lemma_derivative_streams_align<V>(events: Seq<Event<V>>)
    ensures
        funding_values(events).len() == oi_values(events).len(),
        mark_values(events).len() == oi_values(events).len(),
    decreases events.len(),
{
    if events.len() > 0 {
        lemma_derivative_streams_align(events.drop_last());
    }
}

/// Each signal of a spec, once ready, reads exactly the event values its
/// definition names: `oi_delta` the latest open interest and the one `window`
/// derivatives events earlier; `funding_flip` the last two funding rates;
/// `book_imbalance` the latest book; `liq_cluster` the last `window`
/// liquidation quantities (all of them when there are fewer);
/// `oi_price_divergence` the latest open interest and mark price and those
/// `window` derivatives events earlier.
pub proof fn lemma_inputs_read_recent_events<V>(
    shape: SpecShape,
    events: Seq<Event<V>>,
    i: int,
    inputs: ScoreInputs<V>,
)
    requires
        0 <= i < shape.signals@.len(),
        spec_ready(fold_all(initial_view::<V>(shape), events), shape.signals@[i]),
        inputs_of(fold_all(initial_view::<V>(shape), events), shape.signals@[i], inputs),
    ensures
        ({
            let sig = shape.signals@[i];
            let w = sig.window as int;
            let oi = oi_values(events);
            let funding = funding_values(events);
            let mark = mark_values(events);
            let liq = liq_values(events);
            let n = oi.len() as int;
            let m = liq.len() as int;
            match sig.kind {
                SignalKind::OiDelta => inputs == ScoreInputs::OpenInterest {
                    past: oi[n - 1 - w],
                    latest: oi[n - 1],
                },
                SignalKind::FundingFlip => inputs == ScoreInputs::Funding {
                    previous: funding[n - 2],
                    latest: funding[n - 1],
                },
                SignalKind::BookImbalance => latest_book(events) matches Some(b) && inputs
                    == ScoreInputs::Book { bid: b.0, ask: b.1 },
                SignalKind::LiqCluster => inputs matches ScoreInputs::Liquidations { recent }
                    && recent@ == liq.subrange(
                    if w < m {
                        m - w
                    } else {
                        0
                    },
                    m,
                ),
                SignalKind::OiPriceDivergence => inputs == ScoreInputs::Divergence {
                    oi_past: oi[n - 1 - w],
                    oi_latest: oi[n - 1],
                    mark_past: mark[n - 1 - w],
                    mark_latest: mark[n - 1],
                },
            }
        }),
{
    lemma_fold_keeps_recent_history(shape, events);
    lemma_derivative_streams_align(events);
    let sig = shape.signals@[i];
    let s = fold_all(initial_view::<V>(shape), events);
    let cap = capacity_for(shape.signals@);
    let oi = oi_values(events);
    let liq = liq_values(events);
    let n = oi.len() as int;
    let k = s.oi.len() as int;
    assert(forall|j: int| 0 <= j < k ==> #[trigger] s.oi[k - 1 - j] == oi[n - 1 - j]);
    assert(forall|j: int| 0 <= j < k ==> #[trigger] s.funding[k - 1 - j] == funding_values(events)[n
        - 1 - j]);
    assert(forall|j: int| 0 <= j < k ==> #[trigger] s.mark[k - 1 - j] == mark_values(events)[n - 1
        - j]);
    if sig.kind == SignalKind::LiqCluster {
        lemma_window_at_most_max(shape.signals@, i);
        let m = liq.len() as int;
        let c = s.liq_qty.len() as int;
        let w = sig.window as int;
        let take = if w < c {
            w
        } else {
            c
        };
        if let ScoreInputs::Liquidations { recent } = inputs {
            assert(recent@ =~= liq.subrange(
                if w < m {
                    m - w
                } else {
                    0
                },
                m,
            ));
        }
    }
}

} // verus!
