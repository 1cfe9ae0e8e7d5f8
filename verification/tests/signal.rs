use radar_core::signal::{signal_key, SignalKind};

fn texts(params: &[f64]) -> Vec<String> {
    params
        .iter()
        .map(|p| format!("{}", (p / 1e-8).round() * 1e-8))
        .collect()
}

#[test]
fn arity_matches_each_kind() {
    assert_eq!(SignalKind::OiDelta.arity(), 2);
    assert_eq!(SignalKind::FundingFlip.arity(), 1);
    assert_eq!(SignalKind::BookImbalance.arity(), 1);
    assert_eq!(SignalKind::LiqCluster.arity(), 2);
    assert_eq!(SignalKind::OiPriceDivergence.arity(), 2);
}

#[test]
fn key_formats_kind_and_params() {
    assert_eq!(signal_key(SignalKind::OiDelta, &texts(&[20.0, 0.1])), "oi_delta(20,0.1)");
    assert_eq!(signal_key(SignalKind::FundingFlip, &texts(&[0.0005])), "funding_flip(0.0005)");
    assert_eq!(
        signal_key(SignalKind::OiPriceDivergence, &texts(&[20.0, 0.1])),
        "oi_price_divergence(20,0.1)"
    );
}

#[test]
fn key_of_a_signal_without_params() {
    assert_eq!(signal_key(SignalKind::BookImbalance, &vec![]), "book_imbalance()");
}

#[test]
fn kind_names_are_snake_case() {
    assert_eq!(SignalKind::OiDelta.as_str(), "oi_delta");
    assert_eq!(SignalKind::FundingFlip.as_str(), "funding_flip");
    assert_eq!(SignalKind::BookImbalance.as_str(), "book_imbalance");
    assert_eq!(SignalKind::LiqCluster.as_str(), "liq_cluster");
    assert_eq!(SignalKind::OiPriceDivergence.as_str(), "oi_price_divergence");
}

#[test]
fn windowed_kinds() {
    assert!(SignalKind::OiDelta.is_windowed());
    assert!(SignalKind::LiqCluster.is_windowed());
    assert!(SignalKind::OiPriceDivergence.is_windowed());
    assert!(!SignalKind::FundingFlip.is_windowed());
    assert!(!SignalKind::BookImbalance.is_windowed());
}

#[test]
fn decimal_rendering() {
    assert_eq!(radar_core::text::decimal_string(0), "0");
    assert_eq!(radar_core::text::decimal_string(7), "7");
    assert_eq!(radar_core::text::decimal_string(120), "120");
    assert_eq!(radar_core::text::decimal_string(18446744073709551615), "18446744073709551615");
}
