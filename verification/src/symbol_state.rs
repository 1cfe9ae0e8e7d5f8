//! Per-symbol state: bounded recent histories of each event stream, folded one
//! event at a time, and the window values each signal reads.
use std::collections::VecDeque;

use vstd::prelude::*;

use crate::event::Event;
use crate::signal::SignalKind;
use crate::spec::{SignalShape, SpecShape};

verus! {

/// The abstract content of a [`SymbolState`].
pub struct StateView<V> {
    /// Recent open-interest values, oldest first.
    pub oi: Seq<V>,
    /// Recent funding rates, oldest first.
    pub funding: Seq<V>,
    /// Recent mark prices, oldest first.
    pub mark: Seq<V>,
    /// Recent liquidation quantities, oldest first.
    pub liq_qty: Seq<V>,
    /// The bid and ask volume of the latest order-book snapshot.
    pub last_book: Option<(V, V)>,
    /// The greatest timestamp folded (`i64::MIN` before any event).
    pub last_ts: i64,
    /// How many values each history keeps.
    pub cap: nat,
}

impl<V> StateView<V> {
    /// The histories never exceed the capacity, the three derivatives
    /// histories move together, and the capacity is at least two.
    pub open spec fn wf(self) -> bool {
        &&& 2 <= self.cap <= usize::MAX
        &&& self.oi.len() <= self.cap
        &&& self.funding.len() == self.oi.len()
        &&& self.mark.len() == self.oi.len()
        &&& self.liq_qty.len() <= self.cap
    }
}

/// Append `v` to a history and drop the oldest value once it exceeds `cap`.
pub open spec fn push_recent<V>(s: Seq<V>, v: V, cap: nat) -> Seq<V> {
    let t = s.push(v);
    if t.len() > cap {
        t.subrange(1, t.len() as int)
    } else {
        t
    }
}

/// Appending to a history within its capacity drops only the oldest value,
/// and only when the history was full: the result holds the last
/// `min(len + 1, cap)` values and ends with the new one.
pub proof fn lemma_push_recent<V>(s: Seq<V>, v: V, cap: nat)
    requires
        cap >= 1,
        s.len() <= cap,
    ensures
        push_recent(s, v, cap) == (if s.len() == cap {
            s.push(v).subrange(1, cap as int + 1)
        } else {
            s.push(v)
        }),
        push_recent(s, v, cap).len() == (if s.len() + 1 <= cap {
            s.len() + 1
        } else {
            cap
        }),
        push_recent(s, v, cap).last() == v,
{
}

/// The greater of two timestamps.
pub open spec fn later(a: i64, b: i64) -> i64 {
    if a >= b {
        a
    } else {
        b
    }
}

/// The state after folding one event.
pub open spec fn step<V>(s: StateView<V>, e: Event<V>) -> StateView<V> {
    match e {
        Event::Derivatives { ts, open_interest, funding_rate, mark_price } => StateView {
            oi: push_recent(s.oi, open_interest, s.cap),
            funding: push_recent(s.funding, funding_rate, s.cap),
            mark: push_recent(s.mark, mark_price, s.cap),
            last_ts: later(s.last_ts, ts),
            ..s
        },
        Event::Orderbook { ts, bid_volume, ask_volume, .. } => StateView {
            last_book: Some((bid_volume, ask_volume)),
            last_ts: later(s.last_ts, ts),
            ..s
        },
        Event::Liquidation { ts, qty, .. } => StateView {
            liq_qty: push_recent(s.liq_qty, qty, s.cap),
            last_ts: later(s.last_ts, ts),
            ..s
        },
    }
}

/// The state after folding every event of `events`, in order.
pub open spec fn fold_all<V>(s: StateView<V>, events: Seq<Event<V>>) -> StateView<V>
    decreases events.len(),
{
    if events.len() == 0 {
        s
    } else {
        step(fold_all(s, events.drop_last()), events.last())
    }
}

/// The largest window any windowed signal of `sigs` references.
pub open spec fn max_window(sigs: Seq<SignalShape>) -> nat
    decreases sigs.len(),
{
    if sigs.len() == 0 {
        0
    } else {
        let rest = max_window(sigs.drop_last());
        let s = sigs.last();
        if s.kind.spec_windowed() && s.window > rest {
            s.window as nat
        } else {
            rest
        }
    }
}

/// The history capacity for a spec: one more than the largest window (so the
/// signal with that window can become ready), at least two (so the funding
/// flip always has a previous value), and at most `usize::MAX` (a window of
/// `usize::MAX` can never be exceeded, so such a signal keeps every value and
/// is never ready).
pub open spec fn capacity_for(sigs: Seq<SignalShape>) -> nat {
    if max_window(sigs) >= usize::MAX {
        usize::MAX as nat
    } else if max_window(sigs) + 1 >= 2 {
        max_window(sigs) + 1
    } else {
        2
    }
}

/// The state of a symbol before any event, sized for `shape`.
pub open spec fn initial_view<V>(shape: SpecShape) -> StateView<V> {
    StateView {
        oi: Seq::empty(),
        funding: Seq::empty(),
        mark: Seq::empty(),
        liq_qty: Seq::empty(),
        last_book: None,
        last_ts: i64::MIN,
        cap: capacity_for(shape.signals@),
    }
}

/// Whether enough events of the right kind have been seen to score `sig`.
pub open spec fn spec_ready<V>(s: StateView<V>, sig: SignalShape) -> bool {
    match sig.kind {
        SignalKind::OiDelta | SignalKind::OiPriceDivergence => s.oi.len() > sig.window,
        SignalKind::FundingFlip => s.funding.len() >= 2,
        SignalKind::BookImbalance => s.last_book is Some,
        SignalKind::LiqCluster => s.liq_qty.len() > 0,
    }
}

/// The window values a signal's score is computed from.
pub enum ScoreInputs<V> {
    /// Open interest `window` events ago and now (`oi_delta`).
    OpenInterest { past: V, latest: V },
    /// The previous and the latest funding rate (`funding_flip`).
    Funding { previous: V, latest: V },
    /// The bid and ask volume of the latest book (`book_imbalance`).
    Book { bid: V, ask: V },
    /// The most recent liquidation quantities, at most `window` of them, oldest
    /// first (`liq_cluster`).
    Liquidations { recent: Vec<V> },
    /// Open interest and mark price `window` events ago and now
    /// (`oi_price_divergence`).
    Divergence { oi_past: V, oi_latest: V, mark_past: V, mark_latest: V },
}

/// Whether `inputs` are exactly the values of `s` that `sig` reads.
pub open spec fn inputs_of<V>(s: StateView<V>, sig: SignalShape, inputs: ScoreInputs<V>) -> bool {
    let n = s.oi.len() as int;
    let w = sig.window as int;
    match sig.kind {
        SignalKind::OiDelta => inputs == ScoreInputs::OpenInterest {
            past: s.oi[n - 1 - w],
            latest: s.oi[n - 1],
        },
        SignalKind::FundingFlip => inputs == ScoreInputs::Funding {
            previous: s.funding[s.funding.len() - 2],
            latest: s.funding[s.funding.len() - 1],
        },
        SignalKind::BookImbalance => inputs == ScoreInputs::Book {
            bid: s.last_book->Some_0.0,
            ask: s.last_book->Some_0.1,
        },
        SignalKind::LiqCluster => {
            let m = s.liq_qty.len() as int;
            let take = if w < m {
                w
            } else {
                m
            };
            inputs matches ScoreInputs::Liquidations { recent } && recent@ == s.liq_qty.subrange(
                m - take,
                m,
            )
        },
        SignalKind::OiPriceDivergence => inputs == ScoreInputs::Divergence {
            oi_past: s.oi[n - 1 - w],
            oi_latest: s.oi[n - 1],
            mark_past: s.mark[n - 1 - w],
            mark_latest: s.mark[n - 1],
        },
    }
}

/// The recent per-symbol history needed to score every signal in a spec.
#[derive(Clone, Debug)]
pub struct SymbolState<V> {
    oi: VecDeque<V>,
    funding: VecDeque<V>,
    mark: VecDeque<V>,
    liq_qty: VecDeque<V>,
    last_book: Option<(V, V)>,
    last_ts: i64,
    cap: usize,
}

impl<V> View for SymbolState<V> {
    type V = StateView<V>;

    closed spec fn view(&self) -> StateView<V> {
        StateView {
            oi: self.oi@,
            funding: self.funding@,
            mark: self.mark@,
            liq_qty: self.liq_qty@,
            last_book: self.last_book,
            last_ts: self.last_ts,
            cap: self.cap as nat,
        }
    }
}

/// Push `v`, dropping the oldest value once the buffer exceeds `cap`.
fn push_capped<V>(buf: &mut VecDeque<V>, v: V, cap: usize)
    ensures
        final(buf)@ == push_recent(old(buf)@, v, cap as nat),
{
    buf.push_back(v);
    if buf.len() > cap {
        buf.pop_front();
    }
}

fn later_ts(a: i64, b: i64) -> (c: i64)
    ensures
        c == later(a, b),
{
    if a >= b {
        a
    } else {
        b
    }
}

impl<V> SymbolState<V> {
    /// Whether the state's invariant holds.
    pub open spec fn wf(&self) -> bool {
        self@.wf()
    }
}

impl<V: Copy> SymbolState<V> {
    /// A state sized for `shape`: each history holds one more value than the
    /// largest window any windowed signal references (at most `usize::MAX`),
    /// and at least two. No event has been seen.
    pub fn new(shape: &SpecShape) -> (s: Self)
        ensures
            s@ == initial_view::<V>(*shape),
            s.wf(),
            s@.last_ts == i64::MIN,
            forall|sig: SignalShape| !spec_ready(#[trigger] s@, sig),
    {
        let mut max_w: usize = 0;
        let mut i: usize = 0;
        while i < shape.signals.len()
            invariant
                i <= shape.signals.len(),
                max_w == max_window(shape.signals@.take(i as int)),
            decreases shape.signals.len() - i,
        {
            let ghost next = shape.signals@.take(i + 1);
            assert(next.drop_last() =~= shape.signals@.take(i as int));
            let sig = &shape.signals[i];
            if sig.kind.is_windowed() && sig.window > max_w {
                max_w = sig.window;
            }
            i = i + 1;
        }
        assert(shape.signals@.take(shape.signals.len() as int) =~= shape.signals@);
        let cap = if max_w == usize::MAX {
            usize::MAX
        } else if max_w + 1 >= 2 {
            max_w + 1
        } else {
            2
        };
        SymbolState {
            oi: VecDeque::new(),
            funding: VecDeque::new(),
            mark: VecDeque::new(),
            liq_qty: VecDeque::new(),
            last_book: None,
            last_ts: i64::MIN,
            cap,
        }
    }

    /// Fold one event into the state: a derivatives snapshot extends the open
    /// interest, funding and mark histories, an order-book snapshot replaces
    /// the latest book, a liquidation extends the liquidation history; every
    /// event raises the latest timestamp to its own if greater.
    pub fn fold(&mut self, event: &Event<V>)
        requires
            old(self).wf(),
        ensures
            final(self)@ == step(old(self)@, *event),
            final(self).wf(),
    {
        match event {
            Event::Derivatives { ts, open_interest, funding_rate, mark_price } => {
                push_capped(&mut self.oi, *open_interest, self.cap);
                push_capped(&mut self.funding, *funding_rate, self.cap);
                push_capped(&mut self.mark, *mark_price, self.cap);
                self.last_ts = later_ts(self.last_ts, *ts);
            },
            Event::Orderbook { ts, bid_volume, ask_volume, .. } => {
                self.last_book = Some((*bid_volume, *ask_volume));
                self.last_ts = later_ts(self.last_ts, *ts);
            },
            Event::Liquidation { ts, qty, .. } => {
                push_capped(&mut self.liq_qty, *qty, self.cap);
                self.last_ts = later_ts(self.last_ts, *ts);
            },
        }
    }

    /// The greatest timestamp folded so far (the "as of" stamp of an alert).
    pub fn last_ts(&self) -> (t: i64)
        ensures
            t == self@.last_ts,
    {
        self.last_ts
    }

    /// Whether enough events of the right kind have been seen to score `sig`:
    /// more derivatives events than the window for `oi_delta` and
    /// `oi_price_divergence`, two for `funding_flip`, one book for
    /// `book_imbalance`, one liquidation for `liq_cluster`.
    pub fn ready(&self, sig: &SignalShape) -> (b: bool)
        ensures
            b == spec_ready(self@, *sig),
    {
        match sig.kind {
            SignalKind::OiDelta | SignalKind::OiPriceDivergence => self.oi.len() > sig.window,
            SignalKind::FundingFlip => self.funding.len() >= 2,
            SignalKind::BookImbalance => self.last_book.is_some(),
            SignalKind::LiqCluster => self.liq_qty.len() > 0,
        }
    }

    /// The window values `sig` is scored from, or `None` when it is not ready.
    pub fn score_inputs(&self, sig: &SignalShape) -> (r: Option<ScoreInputs<V>>)
        requires
            self.wf(),
        ensures
            r is None <==> !spec_ready(self@, *sig),
            r matches Some(inputs) ==> inputs_of(self@, *sig, inputs),
    {
        if !self.ready(sig) {
            return None;
        }
        match sig.kind {
            SignalKind::OiDelta => {
                let n = self.oi.len();
                Some(ScoreInputs::OpenInterest { past: self.oi[n - 1 - sig.window], latest: self.oi[n - 1] })
            },
            SignalKind::FundingFlip => {
                let n = self.funding.len();
                Some(ScoreInputs::Funding { previous: self.funding[n - 2], latest: self.funding[n - 1] })
            },
            SignalKind::BookImbalance => {
                match self.last_book {
                    Some((bid, ask)) => Some(ScoreInputs::Book { bid, ask }),
                    None => None,
                }
            },
            SignalKind::LiqCluster => {
                let m = self.liq_qty.len();
                let take = if sig.window < m {
                    sig.window
                } else {
                    m
                };
                let mut recent: Vec<V> = Vec::new();
                let mut j: usize = m - take;
                while j < m
                    invariant
                        m == self.liq_qty@.len(),
                        take <= m,
                        m - take <= j <= m,
                        recent@ == self.liq_qty@.subrange(m - take, j as int),
                    decreases m - j,
                {
                    recent.push(self.liq_qty[j]);
                    j = j + 1;
                    assert(recent@ =~= self.liq_qty@.subrange(m - take, j as int));
                }
                Some(ScoreInputs::Liquidations { recent })
            },
            SignalKind::OiPriceDivergence => {
                let n = self.oi.len();
                let k = n - 1 - sig.window;
                Some(
                    ScoreInputs::Divergence {
                        oi_past: self.oi[k],
                        oi_latest: self.oi[n - 1],
                        mark_past: self.mark[k],
                        mark_latest: self.mark[n - 1],
                    },
                )
            },
        }
    }
}

} // verus!
