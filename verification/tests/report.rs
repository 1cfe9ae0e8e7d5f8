use radar_core::report::{rank, Candidate};

fn key(x: f64) -> i64 {
    let bits = x.to_bits() as i64;
    bits ^ ((((bits >> 63) as u64) >> 1) as i64)
}

fn cand(symbol: &str, severity: f64, threshold: f64) -> Candidate<f64> {
    Candidate {
        symbol: symbol.to_string(),
        order_key: key(severity),
        passes: severity >= threshold,
        item: severity,
    }
}

fn symbols(r: &[Candidate<f64>]) -> Vec<&str> {
    r.iter().map(|c| c.symbol.as_str()).collect()
}

#[test]
fn rank_orders_by_severity_then_symbol() {
    let r = rank(vec![cand("BBB", 0.6, 0.0), cand("AAA", 1.0, 0.0)], None);
    assert_eq!(symbols(&r), vec!["AAA", "BBB"]);
    assert_eq!(r[0].item, 1.0);
}

#[test]
fn threshold_filters_out_below() {
    let r = rank(vec![cand("AAA", 1.0, 0.8), cand("BBB", 0.6, 0.8)], None);
    assert_eq!(symbols(&r), vec!["AAA"]);
}

#[test]
fn limit_truncates_after_sort() {
    let r = rank(vec![cand("BBB", 0.6, 0.0), cand("AAA", 1.0, 0.0)], Some(1));
    assert_eq!(symbols(&r), vec!["AAA"]);
}

#[test]
fn tie_broken_by_symbol_ascending() {
    let r = rank(vec![cand("ZZZ", 1.0, 0.0), cand("AAA", 1.0, 0.0)], None);
    assert_eq!(symbols(&r), vec!["AAA", "ZZZ"]);
}

#[test]
fn rank_handles_many_and_equal_severities() {
    let mut cs = Vec::new();
    for (i, s) in ["D", "B", "E", "A", "C", "F"].iter().enumerate() {
        cs.push(cand(s, if i % 2 == 0 { 0.5 } else { 0.25 }, 0.3));
    }
    cs.push(cand("G", 0.0, 0.0));
    let r = rank(cs, Some(10));
    assert_eq!(symbols(&r), vec!["C", "D", "E", "G"]);
}

#[test]
fn rank_of_nothing_is_empty() {
    let r: Vec<Candidate<f64>> = rank(vec![], Some(3));
    assert!(r.is_empty());
}

#[test]
fn report_does_not_depend_on_candidate_order() {
    let make = |order: &[usize]| {
        let all = [("AAA", 0.5), ("BBB", 0.9), ("CCC", 0.5), ("DDD", 0.1), ("EEE", 0.7)];
        order.iter().map(|&i| cand(all[i].0, all[i].1, 0.2)).collect::<Vec<_>>()
    };
    let a = rank(make(&[0, 1, 2, 3, 4]), Some(3));
    let b = rank(make(&[4, 3, 2, 1, 0]), Some(3));
    let c = rank(make(&[2, 4, 0, 3, 1]), Some(3));
    assert_eq!(symbols(&a), vec!["BBB", "EEE", "AAA"]);
    assert_eq!(symbols(&a), symbols(&b));
    assert_eq!(symbols(&a), symbols(&c));
}
