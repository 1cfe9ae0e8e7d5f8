//! The structure of a radar specification and its validation.
//!
//! A spec's signals carry real-valued parameters and weights; what validation
//! and state sizing read of them is held here as plain values: the parameter
//! count, the window length (the first parameter, read as a bounded index),
//! whether the weight is finite and non-negative, and the canonical key built
//! from the formatted parameters.
use vstd::prelude::*;

use crate::error::Error;
use crate::signal::{key_of, signal_key, string_views, SignalKind};
use crate::text::{decimal, decimal_string};

verus! {

/// What validation and state sizing read of one signal of a spec.
#[derive(Clone, Debug)]
pub struct SignalShape {
    /// Which signal this is.
    pub kind: SignalKind,
    /// How many parameters the signal was given.
    pub param_count: usize,
    /// The window parameter as a bounded index (`0` when the first parameter is
    /// absent, non-finite or not positive).
    pub window: usize,
    /// Whether the weight is finite and non-negative.
    pub weight_valid: bool,
    /// The canonical `factors` key, `"<kind>(<params>)"`.
    pub key: String,
}

/// What validation and state sizing read of a spec.
#[derive(Clone, Debug)]
pub struct SpecShape {
    /// The signals, in declaration order.
    pub signals: Vec<SignalShape>,
    /// Whether the alert threshold is finite.
    pub threshold_finite: bool,
    /// The optional top-N cap.
    pub limit: Option<usize>,
}

impl SignalShape {
    /// Describe a signal from its kind, its formatted parameters, its window
    /// index and the validity of its weight; the key is built from the kind and
    /// the formatted parameters.
    pub fn new(kind: SignalKind, params: &Vec<String>, window: usize, weight_valid: bool) -> (s:
        SignalShape)
        ensures
            s.kind == kind,
            s.param_count == params.len(),
            s.window == window,
            s.weight_valid == weight_valid,
            s.key@ == key_of(kind, string_views(params@)),
    {
        SignalShape {
            kind,
            param_count: params.len(),
            window,
            weight_valid,
            key: signal_key(kind, params),
        }
    }
}

/// The message for a signal with the wrong number of parameters.
pub open spec fn arity_message(s: SignalShape) -> Seq<char> {
    s.kind.name() + " takes "@ + decimal(s.kind.spec_arity()) + " parameter(s), got "@ + decimal(
        s.param_count as nat,
    )
}

/// The message for a signal with a non-finite or negative weight.
pub open spec fn weight_message(s: SignalShape) -> Seq<char> {
    s.kind.name() + " weight must be finite and non-negative"@
}

/// The message for a signal whose key an earlier signal already has.
pub open spec fn duplicate_message(s: SignalShape) -> Seq<char> {
    "duplicate signal: "@ + s.key@
}

/// Whether some signal of `earlier` has the key `key`.
pub open spec fn key_taken(earlier: Seq<SignalShape>, key: Seq<char>) -> bool {
    exists|j: int| 0 <= j < earlier.len() && (#[trigger] earlier[j]).key@ == key
}

/// The problem with signal `s` given the signals declared before it, if any:
/// wrong arity, then an invalid weight, then a repeated key.
pub open spec fn signal_problem(s: SignalShape, earlier: Seq<SignalShape>) -> Option<Seq<char>> {
    if s.param_count != s.kind.spec_arity() {
        Some(arity_message(s))
    } else if !s.weight_valid {
        Some(weight_message(s))
    } else if key_taken(earlier, s.key@) {
        Some(duplicate_message(s))
    } else {
        None
    }
}

/// The problem with the first faulty signal of `sigs`, in declaration order.
pub open spec fn first_signal_problem(sigs: Seq<SignalShape>) -> Option<Seq<char>>
    decreases sigs.len(),
{
    if sigs.len() == 0 {
        None
    } else {
        match first_signal_problem(sigs.drop_last()) {
            Some(m) => Some(m),
            None => signal_problem(sigs.last(), sigs.drop_last()),
        }
    }
}

/// The problem with a spec, if any, in the order the checks are made: no
/// signals, a non-finite threshold, a zero limit, then the first faulty signal.
pub open spec fn spec_problem(shape: SpecShape) -> Option<Seq<char>> {
    if shape.signals@.len() == 0 {
        Some("at least one signal is required"@)
    } else if !shape.threshold_finite {
        Some("threshold must be finite"@)
    } else if shape.limit == Some(0usize) {
        Some("limit must be greater than zero"@)
    } else {
        first_signal_problem(shape.signals@)
    }
}

/// Whether `r` is the outcome that validation owes for a spec whose problem
/// (if any) is `problem`.
pub open spec fn validation_outcome(r: Result<(), Error>, problem: Option<Seq<char>>) -> bool {
    match problem {
        None => r is Ok,
        Some(m) => r matches Err(Error::BadSpec(msg)) && msg@ == m,
    }
}

fn bad_spec(text: &str) -> (e: Error)
    ensures
        e matches Error::BadSpec(m) && m@ == text@,
{
    Error::BadSpec(text.to_owned())
}

fn key_seen(seen: &Vec<String>, key: &String) -> (b: bool)
    ensures
        b == exists|j: int| 0 <= j < seen@.len() && (#[trigger] seen@[j])@ == key@,
{
    let mut i: usize = 0;
    while i < seen.len()
        invariant
            i <= seen.len(),
            forall|j: int| 0 <= j < i ==> (#[trigger] seen@[j])@ != key@,
        decreases seen.len() - i,
    {
        if seen[i] == *key {
            return true;
        }
        i = i + 1;
    }
    false
}

fn check_signal(s: &SignalShape, seen: &Vec<String>, Ghost(earlier): Ghost<Seq<SignalShape>>) -> (r:
    Result<(), Error>)
    requires
        seen@.len() == earlier.len(),
        forall|j: int| 0 <= j < earlier.len() ==> (#[trigger] seen@[j])@ == earlier[j].key@,
    ensures
        validation_outcome(r, signal_problem(*s, earlier)),
{
    let arity = s.kind.arity();
    if s.param_count != arity {
        let mut m = s.kind.as_str().to_owned();
        m.append(" takes ");
        m.append(decimal_string(arity).as_str());
        m.append(" parameter(s), got ");
        m.append(decimal_string(s.param_count).as_str());
        return Err(Error::BadSpec(m));
    }
    if !s.weight_valid {
        let mut m = s.kind.as_str().to_owned();
        m.append(" weight must be finite and non-negative");
        return Err(Error::BadSpec(m));
    }
    if key_seen(seen, &s.key) {
        assert(key_taken(earlier, s.key@)) by {
            let j = choose|j: int| 0 <= j < seen@.len() && (#[trigger] seen@[j])@ == s.key@;
            assert(earlier[j].key@ == s.key@);
        }
        let mut m = "duplicate signal: ".to_owned();
        m.append(s.key.as_str());
        return Err(Error::BadSpec(m));
    }
    assert(!key_taken(earlier, s.key@)) by {
        if key_taken(earlier, s.key@) {
            let j = choose|j: int| 0 <= j < earlier.len() && (#[trigger] earlier[j]).key@ == s.key@;
            assert(seen@[j]@ == s.key@);
        }
    }
    Ok(())
}

impl SpecShape {
    /// Check the spec is structurally sound: at least one signal, a finite
    /// threshold, a positive limit if present, and for every signal in order
    /// the right parameter arity, a finite non-negative weight and a key no
    /// earlier signal has. The first problem found is reported.
    pub fn validate(&self) -> (r: Result<(), Error>)
        ensures
            validation_outcome(r, spec_problem(*self)),
    {
        if self.signals.len() == 0 {
            return Err(bad_spec("at least one signal is required"));
        }
        if !self.threshold_finite {
            return Err(bad_spec("threshold must be finite"));
        }
        if let Some(limit) = self.limit {
            if limit == 0 {
                return Err(bad_spec("limit must be greater than zero"));
            }
        }
        let mut seen: Vec<String> = Vec::new();
        let mut i: usize = 0;
        while i < self.signals.len()
            invariant
                i <= self.signals.len(),
                seen@.len() == i,
                forall|j: int| 0 <= j < i ==> (#[trigger] seen@[j])@ == self.signals@[j].key@,
                first_signal_problem(self.signals@.take(i as int)) is None,
                spec_problem(*self) == first_signal_problem(self.signals@),
            decreases self.signals.len() - i,
        {
            let ghost earlier = self.signals@.take(i as int);
            let ghost next = self.signals@.take(i + 1);
            assert(next.drop_last() =~= earlier);
            assert(next.last() == self.signals@[i as int]);
            let r = check_signal(&self.signals[i], &seen, Ghost(earlier));
            if r.is_err() {
                assert(first_signal_problem(next) == signal_problem(self.signals@[i as int], earlier));
                proof {
                    lemma_first_problem_prefix(self.signals@, i as int + 1);
                }
                return r;
            }
            seen.push(self.signals[i].key.clone());
            i = i + 1;
        }
        assert(self.signals@.take(self.signals.len() as int) =~= self.signals@);
        Ok(())
    }
}

/// Signals without a problem have pairwise distinct keys.
proof fn lemma_no_problem_distinct(sigs: Seq<SignalShape>)
    requires
        first_signal_problem(sigs) is None,
    ensures
        forall|i: int, j: int|
            0 <= i < j < sigs.len() ==> (#[trigger] sigs[i]).key@ != (#[trigger] sigs[j]).key@,
    decreases sigs.len(),
{
    if sigs.len() > 0 {
        let prev = sigs.drop_last();
        lemma_no_problem_distinct(prev);
        assert forall|i: int, j: int|
            0 <= i < j < sigs.len() implies (#[trigger] sigs[i]).key@ != (#[trigger] sigs[j]).key@ by {
            if j == sigs.len() - 1 {
                assert(!key_taken(prev, sigs.last().key@));
                assert(prev[i] == sigs[i]);
            } else {
                assert(prev[i] == sigs[i]);
                assert(prev[j] == sigs[j]);
            }
        }
    }
}

/// A spec that passes validation has pairwise distinct signal keys, so every
/// signal has an entry of its own in an alert's factors.
pub proof fn lemma_valid_keys_distinct(shape: SpecShape)
    requires
        spec_problem(shape) is None,
    ensures
        forall|i: int, j: int|
            0 <= i < j < shape.signals@.len() ==> (#[trigger] shape.signals@[i]).key@ != (
            #[trigger] shape.signals@[j]).key@,
{
    lemma_no_problem_distinct(shape.signals@);
}

/// Signals that each have the right arity and a valid weight, with pairwise
/// distinct keys, have no problem; and signals without a problem each have the
/// right arity and a valid weight.
proof fn lemma_signals_without_problem(sigs: Seq<SignalShape>)
    ensures
        first_signal_problem(sigs) is None <==> (forall|i: int|
            0 <= i < sigs.len() ==> (#[trigger] sigs[i]).param_count == sigs[i].kind.spec_arity()
                && sigs[i].weight_valid) && (forall|i: int, j: int|
            0 <= i < j < sigs.len() ==> (#[trigger] sigs[i]).key@ != (#[trigger] sigs[j]).key@),
    decreases sigs.len(),
{
    if sigs.len() > 0 {
        let prev = sigs.drop_last();
        let last = sigs.len() - 1;
        lemma_signals_without_problem(prev);
        if first_signal_problem(sigs) is None {
            lemma_no_problem_distinct(sigs);
            assert forall|i: int| 0 <= i < sigs.len() implies (#[trigger] sigs[i]).param_count
                == sigs[i].kind.spec_arity() && sigs[i].weight_valid by {
                if i < prev.len() {
                    assert(prev[i] == sigs[i]);
                }
            }
        } else {
            if (forall|i: int|
                0 <= i < sigs.len() ==> (#[trigger] sigs[i]).param_count == sigs[i].kind.spec_arity()
                    && sigs[i].weight_valid) && (forall|i: int, j: int|
                0 <= i < j < sigs.len() ==> (#[trigger] sigs[i]).key@ != (#[trigger] sigs[j]).key@) {
                assert forall|i: int| 0 <= i < prev.len() implies (#[trigger] prev[i]).param_count
                    == prev[i].kind.spec_arity() && prev[i].weight_valid by {
                    assert(prev[i] == sigs[i]);
                }
                assert forall|i: int, j: int| 0 <= i < j < prev.len() implies (#[trigger] prev[i]).key@
                    != (#[trigger] prev[j]).key@ by {
                    assert(prev[i] == sigs[i]);
                    assert(prev[j] == sigs[j]);
                }
                assert(sigs[last].param_count == sigs[last].kind.spec_arity());
                assert(sigs[last].weight_valid);
                assert(!key_taken(prev, sigs.last().key@)) by {
                    if key_taken(prev, sigs.last().key@) {
                        let j = choose|j: int| 0 <= j < prev.len() && (#[trigger] prev[j]).key@
                            == sigs.last().key@;
                        assert(prev[j] == sigs[j]);
                        assert(sigs[j].key@ != sigs[last].key@);
                    }
                }
                assert(false);
            }
        }
    }
}

/// A spec passes validation exactly when it has at least one signal, a finite
/// threshold and no zero limit, and its signals each have the number of
/// parameters their kind takes and a finite non-negative weight, with
/// pairwise distinct `kind(params)` keys (two signals of one kind with
/// different parameters are accepted).
pub proof fn lemma_validation_accepts_exactly(shape: SpecShape)
    ensures
        spec_problem(shape) is None <==> shape.signals@.len() > 0 && shape.threshold_finite
            && shape.limit != Some(0usize) && (forall|i: int|
            0 <= i < shape.signals@.len() ==> (#[trigger] shape.signals@[i]).param_count
                == shape.signals@[i].kind.spec_arity() && shape.signals@[i].weight_valid) && (
        forall|i: int, j: int|
            0 <= i < j < shape.signals@.len() ==> (#[trigger] shape.signals@[i]).key@ != (
            #[trigger] shape.signals@[j]).key@),
{
    lemma_signals_without_problem(shape.signals@);
}

/// The number of parameters each kind takes: a window and a reference for
/// `oi_delta`, `liq_cluster` and `oi_price_divergence`; one for
/// `funding_flip` and `book_imbalance`.
pub proof fn lemma_kind_arities()
    ensures
        SignalKind::OiDelta.spec_arity() == 2,
        SignalKind::LiqCluster.spec_arity() == 2,
        SignalKind::OiPriceDivergence.spec_arity() == 2,
        SignalKind::FundingFlip.spec_arity() == 1,
        SignalKind::BookImbalance.spec_arity() == 1,
{
}

/// A signal key never collides with the `severity` entry of the factors.
pub proof fn lemma_key_is_not_severity(kind: SignalKind, params: Seq<Seq<char>>)
    ensures
        key_of(kind, params) != "severity"@,
{
    reveal_strlit("severity");
    let k = key_of(kind, params);
    assert(k[k.len() - 1] == ')');
}

/// Once a prefix of the signals has a problem, the whole list reports that
/// same problem.
proof fn lemma_first_problem_prefix(sigs: Seq<SignalShape>, n: int)
    requires
        0 <= n <= sigs.len(),
    ensures
        first_signal_problem(sigs.take(n)) is Some ==> first_signal_problem(sigs)
            == first_signal_problem(sigs.take(n)),
    decreases sigs.len() - n,
{
    if n < sigs.len() {
        lemma_first_problem_prefix(sigs, n + 1);
        let t = sigs.take(n + 1);
        assert(t.drop_last() =~= sigs.take(n));
    } else {
        assert(sigs.take(n) =~= sigs);
    }
}

} // verus!
