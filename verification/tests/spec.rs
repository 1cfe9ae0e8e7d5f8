use radar_core::error::Error;
use radar_core::signal::SignalKind;
use radar_core::spec::{SignalShape, SpecShape};

fn sig(kind: SignalKind, params: Vec<f64>, weight: f64) -> SignalShape {
    let texts: Vec<String> = params
        .iter()
        .map(|p| format!("{}", (p / 1e-8).round() * 1e-8))
        .collect();
    let w = params.first().copied().unwrap_or(0.0);
    let window = if w.is_finite() && w > 0.0 { w as usize } else { 0 };
    SignalShape::new(kind, &texts, window, weight.is_finite() && weight >= 0.0)
}

fn spec_with(signals: Vec<SignalShape>, threshold: f64, limit: Option<usize>) -> SpecShape {
    SpecShape { signals, threshold_finite: threshold.is_finite(), limit }
}

fn message(r: Result<(), Error>) -> String {
    match r {
        Err(Error::BadSpec(m)) => m,
        other => panic!("expected a spec error, got {other:?}"),
    }
}

#[test]
fn valid_spec_passes() {
    let spec = spec_with(vec![sig(SignalKind::OiDelta, vec![20.0, 0.1], 2.0)], 0.4, Some(50));
    assert!(spec.validate().is_ok());
}

#[test]
fn empty_signals_rejected() {
    assert!(spec_with(vec![], 0.0, None).validate().is_err());
}

#[test]
fn wrong_arity_rejected() {
    let spec = spec_with(vec![sig(SignalKind::OiDelta, vec![20.0], 1.0)], 0.0, None);
    assert!(spec.validate().is_err());
}

#[test]
fn negative_or_nonfinite_weight_rejected() {
    let neg = spec_with(vec![sig(SignalKind::FundingFlip, vec![0.0005], -1.0)], 0.0, None);
    assert!(neg.validate().is_err());
    let nan = spec_with(vec![sig(SignalKind::FundingFlip, vec![0.0005], f64::NAN)], 0.0, None);
    assert!(nan.validate().is_err());
}

#[test]
fn nonfinite_threshold_rejected() {
    let spec = spec_with(vec![sig(SignalKind::FundingFlip, vec![0.0005], 1.0)], f64::INFINITY, None);
    assert!(spec.validate().is_err());
}

#[test]
fn zero_limit_rejected() {
    let spec = spec_with(vec![sig(SignalKind::FundingFlip, vec![0.0005], 1.0)], 0.0, Some(0));
    assert!(spec.validate().is_err());
}

#[test]
fn duplicate_signal_key_rejected() {
    let spec = spec_with(
        vec![
            sig(SignalKind::OiDelta, vec![20.0, 0.1], 1.0),
            sig(SignalKind::OiDelta, vec![20.0, 0.1], 2.0),
        ],
        0.0,
        None,
    );
    assert!(spec.validate().is_err());
}

#[test]
fn validation_messages_name_the_first_problem() {
    assert_eq!(
        message(spec_with(vec![], f64::NAN, Some(0)).validate()),
        "at least one signal is required"
    );
    let one = || vec![sig(SignalKind::FundingFlip, vec![0.0005], 1.0)];
    assert_eq!(message(spec_with(one(), f64::NAN, Some(0)).validate()), "threshold must be finite");
    assert_eq!(
        message(spec_with(one(), 0.0, Some(0)).validate()),
        "limit must be greater than zero"
    );
    assert_eq!(
        message(spec_with(vec![sig(SignalKind::FundingFlip, vec![0.1, 0.2], 1.0)], 0.0, None).validate()),
        "funding_flip takes 1 parameter(s), got 2"
    );
    assert_eq!(
        message(spec_with(vec![sig(SignalKind::LiqCluster, vec![5.0, 30.0], -2.0)], 0.0, None).validate()),
        "liq_cluster weight must be finite and non-negative"
    );
    assert_eq!(
        message(
            spec_with(
                vec![
                    sig(SignalKind::BookImbalance, vec![1.0], 1.0),
                    sig(SignalKind::BookImbalance, vec![1.0], 3.0),
                ],
                0.0,
                None
            )
            .validate()
        ),
        "duplicate signal: book_imbalance(1)"
    );
}

#[test]
fn signal_shape_records_its_parts() {
    let s = sig(SignalKind::LiqCluster, vec![5.0, 30.0], 1.5);
    assert_eq!(s.kind, SignalKind::LiqCluster);
    assert_eq!(s.param_count, 2);
    assert_eq!(s.window, 5);
    assert!(s.weight_valid);
    assert_eq!(s.key, "liq_cluster(5,30)");
}

#[test]
fn error_messages_carry_their_kind() {
    assert_eq!(Error::BadSpec("x".to_string()).message(), "invalid spec: x");
    assert_eq!(Error::Json("y".to_string()).message(), "json error: y");
    assert_eq!(Error::Toml("z".to_string()).message(), "toml error: z");
}
