use radar_core::batch::{fold_one, fold_symbols};
use radar_core::error::Error;
use radar_core::event::Event;
use radar_core::radar::Radar;
use radar_core::signal::SignalKind;
use radar_core::spec::{SignalShape, SpecShape};
use radar_core::symbol_state::{ScoreInputs, SymbolState};

fn funding_spec() -> SpecShape {
    let s = SignalShape::new(SignalKind::FundingFlip, &vec!["0.0005".to_string()], 0, true);
    SpecShape { signals: vec![s], threshold_finite: true, limit: None }
}

fn deriv(ts: i64, funding: f64) -> Event<f64> {
    Event::Derivatives { ts, open_interest: 1.0, funding_rate: funding, mark_price: 50.0 }
}

fn funding_inputs(state: &SymbolState<f64>, shape: &SpecShape) -> Option<(f64, f64)> {
    match state.score_inputs(&shape.signals[0]) {
        Some(ScoreInputs::Funding { previous, latest }) => Some((previous, latest)),
        _ => None,
    }
}

fn summary(radar: &Radar<f64>) -> Vec<(String, i64, Option<(f64, f64)>)> {
    let shape = radar.shape().clone();
    radar
        .universe()
        .entries()
        .iter()
        .map(|(s, st)| (s.clone(), st.last_ts(), funding_inputs(st, &shape)))
        .collect()
}

#[test]
fn new_rejects_an_invalid_spec() {
    let empty = SpecShape { signals: vec![], threshold_finite: true, limit: None };
    match Radar::<f64>::new(empty) {
        Err(Error::BadSpec(m)) => assert_eq!(m, "at least one signal is required"),
        _ => panic!("expected a spec error"),
    }
}

#[test]
fn invalid_spec_on_construction_errors() {
    let empty = SpecShape { signals: vec![], threshold_finite: true, limit: None };
    assert!(Radar::<f64>::new(empty).is_err());
    let texts = vec!["0.1".to_string(), "0.2".to_string()];
    let wrong = SignalShape::new(SignalKind::FundingFlip, &texts, 0, true);
    let arity = SpecShape { signals: vec![wrong], threshold_finite: true, limit: None };
    assert!(Radar::<f64>::new(arity).is_err());
}

#[test]
fn new_rejects_a_duplicate_signal_key() {
    let mut spec = funding_spec();
    spec.signals.push(spec.signals[0].clone());
    assert!(Radar::<f64>::new(spec).is_err());
}

#[test]
fn feed_then_states_equal_batch_fold() {
    let mut streaming: Radar<f64> = Radar::new(funding_spec()).unwrap();
    for (sym, ts, funding) in [("BBB", 1, 0.0002), ("AAA", 1, 0.0003), ("BBB", 2, 0.0003), ("AAA", 2, -0.0004)] {
        streaming.feed(sym, &deriv(ts, funding)).unwrap();
    }
    let batch = vec![
        ("AAA".to_string(), vec![deriv(1, 0.0003), deriv(2, -0.0004)]),
        ("BBB".to_string(), vec![deriv(1, 0.0002), deriv(2, 0.0003)]),
    ];
    let shape = funding_spec();
    let states = fold_symbols(&batch, &shape);
    let batched: Vec<(String, i64, Option<(f64, f64)>)> = states
        .iter()
        .map(|(s, st)| (s.clone(), st.last_ts(), funding_inputs(st, &shape)))
        .collect();
    assert_eq!(summary(&streaming), batched);
    assert_eq!(batched[0], ("AAA".to_string(), 2, Some((0.0003, -0.0004))));
}

#[test]
fn feed_batch_matches_individual_feeds() {
    let mut a: Radar<f64> = Radar::new(funding_spec()).unwrap();
    a.feed("AAA", &deriv(1, 0.0003)).unwrap();
    a.feed("AAA", &deriv(2, -0.0004)).unwrap();
    let mut b: Radar<f64> = Radar::new(funding_spec()).unwrap();
    b.feed_batch("AAA", &vec![deriv(1, 0.0003), deriv(2, -0.0004)]).unwrap();
    assert_eq!(summary(&a), summary(&b));
}

#[test]
fn reset_clears_streaming_state() {
    let mut r: Radar<f64> = Radar::new(funding_spec()).unwrap();
    r.feed("AAA", &deriv(1, 0.0003)).unwrap();
    r.reset();
    assert_eq!(r.universe().scanned(), 0);
    assert!(r.check_spec().is_ok());
}

#[test]
fn set_spec_clears_and_reconfigures() {
    let mut r: Radar<f64> = Radar::new(funding_spec()).unwrap();
    r.feed("AAA", &deriv(1, 0.0003)).unwrap();
    let book = SignalShape::new(SignalKind::BookImbalance, &vec!["1".to_string()], 0, true);
    r.set_spec(SpecShape { signals: vec![book], threshold_finite: true, limit: None });
    assert_eq!(r.universe().scanned(), 0);
    assert_eq!(r.shape().signals[0].key, "book_imbalance(1)");
}

#[test]
fn fold_one_folds_in_order() {
    let st = fold_one(&vec![deriv(1, 0.0003), deriv(2, -0.0004)], &funding_spec());
    assert_eq!(st.last_ts(), 2);
    assert_eq!(funding_inputs(&st, &funding_spec()), Some((0.0003, -0.0004)));
}

#[test]
fn empty_feed_batch_tracks_the_symbol() {
    let mut r: Radar<f64> = Radar::new(funding_spec()).unwrap();
    r.feed_batch("AAA", &vec![]).unwrap();
    assert_eq!(r.universe().scanned(), 1);
    let batch = vec![("AAA".to_string(), Vec::<Event<f64>>::new())];
    assert_eq!(fold_symbols(&batch, &funding_spec()).len(), 1);
    assert_eq!(summary(&r)[0], ("AAA".to_string(), i64::MIN, None));
}

#[test]
fn replace_spec_validates_first() {
    let mut r: Radar<f64> = Radar::new(funding_spec()).unwrap();
    r.feed("AAA", &deriv(1, 0.0003)).unwrap();
    let empty = SpecShape { signals: vec![], threshold_finite: true, limit: None };
    assert!(r.replace_spec(empty).is_err());
    assert_eq!(r.universe().scanned(), 1);
    let book = SignalShape::new(SignalKind::BookImbalance, &vec!["1".to_string()], 0, true);
    let ok = SpecShape { signals: vec![book], threshold_finite: true, limit: None };
    assert!(r.replace_spec(ok).is_ok());
    assert_eq!(r.universe().scanned(), 0);
}

#[test]
fn huge_parameter_spec_feeds_without_panic() {
    let s = SignalShape::new(SignalKind::FundingFlip, &vec!["100000000000000000000".to_string()], usize::MAX, true);
    let spec = SpecShape { signals: vec![s], threshold_finite: true, limit: None };
    let mut r: Radar<f64> = Radar::new(spec).unwrap();
    r.feed("AAA", &deriv(1, 0.0003)).unwrap();
    r.feed_batch("BBB", &vec![deriv(1, 0.0003), deriv(2, 0.0001)]).unwrap();
    assert_eq!(r.universe().scanned(), 2);
}
