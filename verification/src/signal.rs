//! Signal kinds and the canonical signal key.
use vstd::prelude::*;

verus! {

/// The five cascade signals. Each scores how strongly it fires for one perp.
#[derive(Clone, Copy, Debug, PartialEq, Eq, Structural)]
pub enum SignalKind {
    /// Relative change in open interest over a window (leverage building up).
    OiDelta,
    /// Funding-rate magnitude, doubled on a sign flip (positioning stress).
    FundingFlip,
    /// Top-of-book bid/ask volume imbalance.
    BookImbalance,
    /// Sum of liquidation quantity over a window (a cascade in progress).
    LiqCluster,
    /// Open interest rising while price falls, or vice versa.
    OiPriceDivergence,
}

impl SignalKind {
    /// The canonical `snake_case` name of the kind.
    pub open spec fn name(self) -> Seq<char> {
        match self {
            SignalKind::OiDelta => seq!['o', 'i', '_', 'd', 'e', 'l', 't', 'a'],
            SignalKind::FundingFlip => seq!['f', 'u', 'n', 'd', 'i', 'n', 'g', '_', 'f', 'l', 'i', 'p'],
            SignalKind::BookImbalance => seq![
                'b', 'o', 'o', 'k', '_', 'i', 'm', 'b', 'a', 'l', 'a', 'n', 'c', 'e'
            ],
            SignalKind::LiqCluster => seq!['l', 'i', 'q', '_', 'c', 'l', 'u', 's', 't', 'e', 'r'],
            SignalKind::OiPriceDivergence => seq![
                'o', 'i', '_', 'p', 'r', 'i', 'c', 'e', '_', 'd', 'i', 'v', 'e', 'r', 'g', 'e',
                'n', 'c', 'e'
            ],
        }
    }

    /// The number of parameters the kind takes.
    pub open spec fn spec_arity(self) -> nat {
        match self {
            SignalKind::OiDelta | SignalKind::LiqCluster | SignalKind::OiPriceDivergence => 2,
            SignalKind::FundingFlip | SignalKind::BookImbalance => 1,
        }
    }

    /// Whether the kind reads a window of events (its first parameter).
    pub open spec fn spec_windowed(self) -> bool {
        match self {
            SignalKind::OiDelta | SignalKind::LiqCluster | SignalKind::OiPriceDivergence => true,
            SignalKind::FundingFlip | SignalKind::BookImbalance => false,
        }
    }

    /// The canonical `snake_case` name, matching the wire representation.
    pub fn as_str(self) -> (s: &'static str)
        ensures
            s@ == self.name(),
    {
        match self {
            SignalKind::OiDelta => {
                proof {
                    reveal_strlit("oi_delta");
                }
                "oi_delta"
            },
            SignalKind::FundingFlip => {
                proof {
                    reveal_strlit("funding_flip");
                }
                "funding_flip"
            },
            SignalKind::BookImbalance => {
                proof {
                    reveal_strlit("book_imbalance");
                }
                "book_imbalance"
            },
            SignalKind::LiqCluster => {
                proof {
                    reveal_strlit("liq_cluster");
                }
                "liq_cluster"
            },
            SignalKind::OiPriceDivergence => {
                proof {
                    reveal_strlit("oi_price_divergence");
                }
                "oi_price_divergence"
            },
        }
    }

    /// The exact number of parameters this kind requires.
    pub fn arity(self) -> (n: usize)
        ensures
            n == self.spec_arity(),
    {
        match self {
            SignalKind::OiDelta | SignalKind::LiqCluster | SignalKind::OiPriceDivergence => 2,
            SignalKind::FundingFlip | SignalKind::BookImbalance => 1,
        }
    }

    /// Whether the kind's first parameter is a window length.
    pub fn is_windowed(self) -> (b: bool)
        ensures
            b == self.spec_windowed(),
    {
        match self {
            SignalKind::OiDelta | SignalKind::LiqCluster | SignalKind::OiPriceDivergence => true,
            SignalKind::FundingFlip | SignalKind::BookImbalance => false,
        }
    }
}


/// The elements of `parts` joined by `sep`: `p0 sep p1 sep ... pn`.
pub open spec fn joined(parts: Seq<Seq<char>>, sep: char) -> Seq<char>
    decreases parts.len(),
{
    if parts.len() == 0 {
        Seq::empty()
    } else if parts.len() == 1 {
        parts[0]
    } else {
        joined(parts.drop_last(), sep) + seq![sep] + parts.last()
    }
}

/// The views of a list of strings.
pub open spec fn string_views(v: Seq<String>) -> Seq<Seq<char>> {
    v.map_values(|s: String| s@)
}

/// The canonical key of a signal: `"<kind>(<p0>,<p1>,...)"`.
pub open spec fn key_of(kind: SignalKind, params: Seq<Seq<char>>) -> Seq<char> {
    kind.name() + seq!['('] + joined(params, ',') + seq![')']
}

/// Build the canonical key of a signal from its kind and its already formatted
/// parameters: the kind's name, then the parameters joined by commas in
/// parentheses (e.g. `oi_delta(20,0.1)`).
pub fn signal_key(kind: SignalKind, params: &Vec<String>) -> (key: String)
    ensures
        key@ == key_of(kind, string_views(params@)),
{
    proof {
        reveal_strlit("(");
        reveal_strlit(")");
    }
    let mut key = kind.as_str().to_owned();
    key.append("(");
    let ghost head = kind.name() + seq!['('];
    let mut i: usize = 0;
    while i < params.len()
        invariant
            i <= params.len(),
            key@ == head + joined(string_views(params@).take(i as int), ','),
            head == kind.name() + seq!['('],
        decreases params.len() - i,
    {
        let ghost views = string_views(params@);
        assert(views.take(i + 1).drop_last() =~= views.take(i as int));
        assert(views.take(i + 1).last() == params@[i as int]@);
        proof {
            reveal_strlit(",");
        }
        if i > 0 {
            key.append(",");
        } else {
            assert(views.take(0) =~= Seq::<Seq<char>>::empty());
        }
        key.append(params[i].as_str());
        i = i + 1;
        assert(key@ =~= head + joined(views.take(i as int), ','));
    }
    assert(string_views(params@).take(params.len() as int) =~= string_views(params@));
    key.append(")");
    key
}

} // verus!
