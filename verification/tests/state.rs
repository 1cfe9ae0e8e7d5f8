use radar_core::order::{symbol_order, SymbolOrder};
use radar_core::event::{Event, Side};
use radar_core::signal::SignalKind;
use radar_core::spec::{SignalShape, SpecShape};
use radar_core::symbol_state::{ScoreInputs, SymbolState};
use radar_core::universe::Universe;

fn sig(kind: SignalKind, params: Vec<f64>) -> SignalShape {
    let texts: Vec<String> = params.iter().map(|p| format!("{p}")).collect();
    let w = params.first().copied().unwrap_or(0.0);
    let window = if w.is_finite() && w > 0.0 { w as usize } else { 0 };
    SignalShape::new(kind, &texts, window, true)
}

fn spec_of(signals: Vec<SignalShape>) -> SpecShape {
    SpecShape { signals, threshold_finite: true, limit: None }
}

fn deriv(ts: i64, oi: f64, funding: f64, mark: f64) -> Event<f64> {
    Event::Derivatives { ts, open_interest: oi, funding_rate: funding, mark_price: mark }
}

fn folded(shape: &SpecShape, events: &[Event<f64>]) -> SymbolState<f64> {
    let mut state = SymbolState::new(shape);
    for e in events {
        state.fold(e);
    }
    state
}

#[test]
fn event_ts_reads_every_variant() {
    assert_eq!(deriv(7, 1.0, 0.0, 1.0).ts(), 7);
    let book: Event<f64> = Event::Orderbook {
        ts: 8,
        bid_volume: 1.0,
        ask_volume: 2.0,
        best_bid: 3.0,
        best_ask: 4.0,
    };
    assert_eq!(book.ts(), 8);
    let liq: Event<f64> = Event::Liquidation { ts: -3, side: Side::Buy, qty: 1.0, price: 2.0 };
    assert_eq!(liq.ts(), -3);
}

#[test]
fn oi_delta_reads_window_endpoints() {
    let s = sig(SignalKind::OiDelta, vec![2.0, 0.1]);
    let shape = spec_of(vec![s.clone()]);
    let state = folded(
        &shape,
        &[deriv(1, 100.0, 0.0, 50.0), deriv(2, 105.0, 0.0, 50.0), deriv(3, 110.0, 0.0, 50.0)],
    );
    assert!(state.ready(&s));
    match state.score_inputs(&s) {
        Some(ScoreInputs::OpenInterest { past, latest }) => {
            assert_eq!(past, 100.0);
            assert_eq!(latest, 110.0);
        }
        _ => panic!("expected open-interest inputs"),
    }
}

#[test]
fn oi_delta_not_ready_reads_nothing() {
    let s = sig(SignalKind::OiDelta, vec![2.0, 0.1]);
    let shape = spec_of(vec![s.clone()]);
    let state = folded(&shape, &[deriv(1, 100.0, 0.0, 50.0), deriv(2, 110.0, 0.0, 50.0)]);
    assert!(!state.ready(&s));
    assert!(state.score_inputs(&s).is_none());
}

#[test]
fn funding_flip_reads_last_two_rates() {
    let s = sig(SignalKind::FundingFlip, vec![0.0005]);
    let shape = spec_of(vec![s.clone()]);
    let state = folded(&shape, &[deriv(1, 1.0, 0.0003, 50.0), deriv(2, 1.0, -0.0004, 50.0)]);
    match state.score_inputs(&s) {
        Some(ScoreInputs::Funding { previous, latest }) => {
            assert_eq!(previous, 0.0003);
            assert_eq!(latest, -0.0004);
        }
        _ => panic!("expected funding inputs"),
    }
    let one = folded(&shape, &[deriv(1, 1.0, 0.0003, 50.0)]);
    assert!(one.score_inputs(&s).is_none());
}

#[test]
fn book_imbalance_reads_latest_book() {
    let s = sig(SignalKind::BookImbalance, vec![1.0]);
    let shape = spec_of(vec![s.clone()]);
    let book = |ts: i64, bid: f64, ask: f64| Event::Orderbook {
        ts,
        bid_volume: bid,
        ask_volume: ask,
        best_bid: 49.0,
        best_ask: 51.0,
    };
    let empty = folded(&shape, &[]);
    assert!(empty.score_inputs(&s).is_none());
    let state = folded(&shape, &[book(1, 1.0, 2.0), book(2, 800.0, 1200.0)]);
    match state.score_inputs(&s) {
        Some(ScoreInputs::Book { bid, ask }) => {
            assert_eq!(bid, 800.0);
            assert_eq!(ask, 1200.0);
        }
        _ => panic!("expected book inputs"),
    }
}

#[test]
fn liq_cluster_reads_the_last_window() {
    let s = sig(SignalKind::LiqCluster, vec![2.0, 50.0]);
    let shape = spec_of(vec![s.clone()]);
    let liq = |ts: i64, qty: f64| Event::Liquidation { ts, side: Side::Sell, qty, price: 50.0 };
    let state = folded(&shape, &[liq(1, 10.0), liq(2, 15.0), liq(3, 20.0)]);
    match state.score_inputs(&s) {
        Some(ScoreInputs::Liquidations { recent }) => assert_eq!(recent, vec![15.0, 20.0]),
        _ => panic!("expected liquidation inputs"),
    }
    let short = folded(&shape, &[liq(1, 10.0)]);
    match short.score_inputs(&s) {
        Some(ScoreInputs::Liquidations { recent }) => assert_eq!(recent, vec![10.0]),
        _ => panic!("expected liquidation inputs"),
    }
}

#[test]
fn divergence_reads_oi_and_mark_endpoints() {
    let s = sig(SignalKind::OiPriceDivergence, vec![2.0, 0.1]);
    let shape = spec_of(vec![s.clone()]);
    let state = folded(
        &shape,
        &[deriv(1, 100.0, 0.0, 100.0), deriv(2, 105.0, 0.0, 95.0), deriv(3, 110.0, 0.0, 90.0)],
    );
    match state.score_inputs(&s) {
        Some(ScoreInputs::Divergence { oi_past, oi_latest, mark_past, mark_latest }) => {
            assert_eq!((oi_past, oi_latest, mark_past, mark_latest), (100.0, 110.0, 100.0, 90.0));
        }
        _ => panic!("expected divergence inputs"),
    }
}

#[test]
fn histories_keep_only_what_the_largest_window_needs() {
    // Window 2 needs three values; older ones are dropped.
    let s = sig(SignalKind::OiDelta, vec![2.0, 0.1]);
    let shape = spec_of(vec![s.clone(), sig(SignalKind::FundingFlip, vec![0.0005])]);
    let events: Vec<Event<f64>> = (1..=6).map(|i| deriv(i, i as f64 * 10.0, 0.0, 1.0)).collect();
    let state = folded(&shape, &events);
    match state.score_inputs(&s) {
        Some(ScoreInputs::OpenInterest { past, latest }) => {
            assert_eq!(past, 40.0);
            assert_eq!(latest, 60.0);
        }
        _ => panic!("expected open-interest inputs"),
    }
}

#[test]
fn last_ts_is_the_greatest_timestamp() {
    let shape = spec_of(vec![sig(SignalKind::FundingFlip, vec![0.0005])]);
    let fresh = folded(&shape, &[]);
    assert_eq!(fresh.last_ts(), i64::MIN);
    let state = folded(&shape, &[deriv(5, 1.0, 0.0, 1.0), deriv(3, 1.0, 0.0, 1.0)]);
    assert_eq!(state.last_ts(), 5);
}

fn universe_spec() -> SpecShape {
    spec_of(vec![sig(SignalKind::FundingFlip, vec![0.0005])])
}

#[test]
fn ensure_creates_once_and_fold_routes() {
    let spec = universe_spec();
    let mut u: Universe<f64> = Universe::new();
    u.ensure("BTCUSDT", &spec);
    u.fold("BTCUSDT", &deriv(1, 1.0, 0.0001, 50.0));
    u.ensure("BTCUSDT", &spec); // idempotent: must not replace the state
    assert_eq!(u.scanned(), 1);
    assert!(u.contains("BTCUSDT"));
    assert_eq!(u.entries()[0].1.last_ts(), 1);
}

#[test]
fn fold_absent_symbol_is_noop() {
    let mut u: Universe<f64> = Universe::new();
    u.fold("NOPE", &deriv(1, 1.0, 0.0001, 50.0));
    assert_eq!(u.scanned(), 0);
}

#[test]
fn scanned_counts_distinct_symbols() {
    let spec = universe_spec();
    let mut u: Universe<f64> = Universe::new();
    u.ensure("BTCUSDT", &spec);
    u.ensure("ETHUSDT", &spec);
    assert_eq!(u.scanned(), 2);
}

#[test]
fn universe_keeps_symbols_in_order() {
    let spec = universe_spec();
    let mut u: Universe<f64> = Universe::new();
    for s in ["SOL", "BTC", "ETH", "BTC", "ADA", "ÉTÉ", "B"] {
        u.ensure(s, &spec);
    }
    let names: Vec<&str> = u.entries().iter().map(|(s, _)| s.as_str()).collect();
    assert_eq!(names, vec!["ADA", "B", "BTC", "ETH", "SOL", "ÉTÉ"]);
    assert_eq!(u.locate("ETH"), Ok(3));
    assert_eq!(u.locate("C"), Err(3));
}

#[test]
fn symbol_order_is_character_order() {
    assert_eq!(symbol_order("AAA", "AAB"), SymbolOrder::Before);
    assert_eq!(symbol_order("AA", "AAA"), SymbolOrder::Before);
    assert_eq!(symbol_order("ZZZ", "AAA"), SymbolOrder::After);
    assert_eq!(symbol_order("BTC", "BTC"), SymbolOrder::Same);
    assert_eq!(symbol_order("", "A"), SymbolOrder::Before);
}

#[test]
fn huge_parameters_never_overflow_the_sizing() {
    // A non-windowed signal with a huge first parameter, and windowed ones
    // whose window saturates to usize::MAX.
    let flip = sig(SignalKind::FundingFlip, vec![1e20]);
    let oi = sig(SignalKind::OiDelta, vec![1e30, 0.1]);
    let liq = sig(SignalKind::LiqCluster, vec![1e30, 50.0]);
    assert_eq!(oi.window, usize::MAX);
    let shape = spec_of(vec![flip.clone(), oi.clone(), liq.clone()]);
    let l = |ts: i64, qty: f64| Event::Liquidation { ts, side: Side::Buy, qty, price: 1.0 };
    let state = folded(
        &shape,
        &[deriv(1, 1.0, 0.1, 1.0), deriv(2, 2.0, -0.2, 1.0), l(3, 4.0), l(4, 5.0), l(5, 6.0)],
    );
    assert!(state.ready(&flip));
    assert!(!state.ready(&oi));
    assert!(state.score_inputs(&oi).is_none());
    match state.score_inputs(&liq) {
        Some(ScoreInputs::Liquidations { recent }) => assert_eq!(recent, vec![4.0, 5.0, 6.0]),
        _ => panic!("expected liquidation inputs"),
    }
}
