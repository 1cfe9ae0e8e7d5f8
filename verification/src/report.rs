//! Ranking alerts into a report: keep the candidates that reached the
//! threshold, order them by severity descending then symbol ascending, and cap
//! them to the limit.
//!
//! A candidate's severity enters as `order_key`, an integer whose order is the
//! severity's total order, so the ranking is a total order on integers and
//! symbols.
use vstd::prelude::*;

use crate::order::{
    lemma_precedes_asymmetric, lemma_precedes_connected, lemma_precedes_transitive, precedes,
    symbol_order, SymbolOrder,
};

verus! {

broadcast use vstd::seq_lib::to_multiset_insert;

/// One symbol's candidate alert.
pub struct Candidate<A> {
    /// The perp symbol.
    pub symbol: String,
    /// The severity's position in the total order of severities.
    pub order_key: i64,
    /// Whether the severity reached the threshold.
    pub passes: bool,
    /// The rest of the alert.
    pub item: A,
}

/// Whether `a` may stand before `b` in a report: a greater severity, or an
/// equal severity and a symbol that does not sort after `b`'s.
pub open spec fn ranks_before<A>(a: Candidate<A>, b: Candidate<A>) -> bool {
    a.order_key > b.order_key || (a.order_key == b.order_key && !precedes(b.symbol@, a.symbol@))
}

/// Whether `s` is in report order.
pub open spec fn in_report_order<A>(s: Seq<Candidate<A>>) -> bool {
    forall|i: int, j: int| 0 <= i < j < s.len() ==> ranks_before(#[trigger] s[i], #[trigger] s[j])
}

/// Whether a candidate reached the threshold.
pub open spec fn passes<A>(c: Candidate<A>) -> bool {
    c.passes
}

/// The number of alerts a report keeps out of `n` ranked ones.
pub open spec fn kept(n: nat, limit: Option<usize>) -> nat {
    match limit {
        Some(l) => if (l as nat) < n {
            l as nat
        } else {
            n
        },
        None => n,
    }
}

/// Whether `r` is a report ranked from `cands`: the candidates that passed,
/// put in report order, then cut to the limit.
pub open spec fn ranked<A>(cands: Seq<Candidate<A>>, limit: Option<usize>, r: Seq<Candidate<A>>) -> bool {
    exists|full: Seq<Candidate<A>>|
        {
            &&& full.to_multiset() == cands.filter(|c: Candidate<A>| passes(c)).to_multiset()
            &&& in_report_order(full)
            &&& r == full.take(kept(full.len(), limit) as int)
        }
}

/// Whether no two candidates of `s` are for the same symbol.
pub open spec fn no_repeated_symbols<A>(s: Seq<Candidate<A>>) -> bool {
    forall|a: int, b: int| 0 <= a < b < s.len() ==> (#[trigger] s[a]).symbol@ != (#[trigger] s[b]).symbol@
}

proof fn lemma_filter_count<A>(s: Seq<A>, p: spec_fn(A) -> bool, x: A)
    ensures
        s.filter(p).to_multiset().count(x) == (if p(x) {
            s.to_multiset().count(x)
        } else {
            0
        }),
    decreases s.len(),
{
    broadcast use vstd::multiset::group_multiset_axioms;
    broadcast use vstd::seq_lib::to_multiset_build;

    if s.len() == 0 {
        reveal(Seq::filter);
        assert(s.filter(p) =~= Seq::<A>::empty());
        vstd::seq_lib::to_multiset_len(s);
        vstd::seq_lib::to_multiset_len(s.filter(p));
        vstd::multiset::lemma_multiset_empty_len(s.to_multiset());
        vstd::multiset::lemma_multiset_empty_len(s.filter(p).to_multiset());
    } else {
        let t = s.drop_last();
        lemma_filter_count(t, p, x);
        assert(s =~= t.push(s.last()));
        t.lemma_filter_push(s.last(), p);
    }
}

proof fn lemma_repeat_counts_twice<A>(s: Seq<A>, a: int, b: int)
    requires
        0 <= a < s.len(),
        0 <= b < s.len(),
        a != b,
        s[a] == s[b],
    ensures
        s.to_multiset().count(s[a]) >= 2,
{
    broadcast use vstd::multiset::group_multiset_axioms;

    let r = s.remove(a);
    vstd::seq_lib::to_multiset_remove(s, a);
    let j = if b < a {
        b
    } else {
        b - 1
    };
    assert(r[j] == s[a]);
    vstd::seq_lib::to_multiset_contains(r, s[a]);
    vstd::seq_lib::to_multiset_contains(s, s[a]);
}

proof fn lemma_count_twice_repeats<A>(s: Seq<A>, x: A) -> (ij: (int, int))
    requires
        s.to_multiset().count(x) >= 2,
    ensures
        0 <= ij.0 < s.len(),
        0 <= ij.1 < s.len(),
        ij.0 != ij.1,
        s[ij.0] == x,
        s[ij.1] == x,
{
    broadcast use vstd::multiset::group_multiset_axioms;

    vstd::seq_lib::to_multiset_contains(s, x);
    let i = choose|i: int| 0 <= i < s.len() && s[i] == x;
    let r = s.remove(i);
    vstd::seq_lib::to_multiset_remove(s, i);
    vstd::seq_lib::to_multiset_contains(r, x);
    let k = choose|k: int| 0 <= k < r.len() && r[k] == x;
    let j = if k < i {
        k
    } else {
        k + 1
    };
    assert(s[j] == x);
    (i, j)
}

proof fn lemma_sub_multiset_no_repeats<A>(s: Seq<Candidate<A>>, t: Seq<Candidate<A>>)
    requires
        no_repeated_symbols(s),
        forall|x: Candidate<A>| #[trigger] t.to_multiset().count(x) <= s.to_multiset().count(x),
    ensures
        no_repeated_symbols(t),
{
    assert forall|a: int, b: int| 0 <= a < b < t.len() implies (#[trigger] t[a]).symbol@ != (
    #[trigger] t[b]).symbol@ by {
        if t[a].symbol@ == t[b].symbol@ {
            if t[a] == t[b] {
                lemma_repeat_counts_twice(t, a, b);
                assert(s.to_multiset().count(t[a]) >= 2);
                let (i, j) = lemma_count_twice_repeats(s, t[a]);
                if i < j {
                    assert(s[i].symbol@ != s[j].symbol@);
                } else {
                    assert(s[j].symbol@ != s[i].symbol@);
                }
            } else {
                vstd::seq_lib::to_multiset_contains(t, t[a]);
                vstd::seq_lib::to_multiset_contains(t, t[b]);
                assert(t.contains(t[a]));
                assert(t.contains(t[b]));
                vstd::seq_lib::to_multiset_contains(s, t[a]);
                vstd::seq_lib::to_multiset_contains(s, t[b]);
                let i = choose|i: int| 0 <= i < s.len() && s[i] == t[a];
                let j = choose|j: int| 0 <= j < s.len() && s[j] == t[b];
                if i < j {
                    assert(s[i].symbol@ != s[j].symbol@);
                } else {
                    assert(s[j].symbol@ != s[i].symbol@);
                }
            }
        }
    }
}

proof fn lemma_sorted_permutation_unique<A>(s1: Seq<Candidate<A>>, s2: Seq<Candidate<A>>)
    requires
        in_report_order(s1),
        in_report_order(s2),
        s1.to_multiset() == s2.to_multiset(),
        no_repeated_symbols(s1),
    ensures
        s1 == s2,
    decreases s1.len(),
{
    broadcast use vstd::multiset::group_multiset_axioms;

    vstd::seq_lib::to_multiset_len(s1);
    vstd::seq_lib::to_multiset_len(s2);
    if s1.len() == 0 {
        assert(s1 =~= s2);
    } else {
        vstd::seq_lib::to_multiset_contains(s1, s1[0]);
        vstd::seq_lib::to_multiset_contains(s2, s1[0]);
        vstd::seq_lib::to_multiset_contains(s2, s2[0]);
        vstd::seq_lib::to_multiset_contains(s1, s2[0]);
        let j = choose|j: int| 0 <= j < s2.len() && s2[j] == s1[0];
        let i = choose|i: int| 0 <= i < s1.len() && s1[i] == s2[0];
        if s1[0] != s2[0] {
            assert(i != 0 && j != 0);
            assert(ranks_before(s1[0], s1[i]));
            assert(ranks_before(s2[0], s2[j]));
            lemma_precedes_connected(s1[0].symbol@, s2[0].symbol@);
            assert(s1[0].symbol@ != s1[i].symbol@);
        }
        let t1 = s1.drop_first();
        let t2 = s2.drop_first();
        assert(s1.remove(0) =~= t1);
        assert(s2.remove(0) =~= t2);
        vstd::seq_lib::to_multiset_remove(s1, 0);
        vstd::seq_lib::to_multiset_remove(s2, 0);
        assert(in_report_order(t1)) by {
            assert forall|a: int, b: int| 0 <= a < b < t1.len() implies ranks_before(
                #[trigger] t1[a],
                #[trigger] t1[b],
            ) by {
                assert(t1[a] == s1[a + 1] && t1[b] == s1[b + 1]);
            }
        }
        assert(in_report_order(t2)) by {
            assert forall|a: int, b: int| 0 <= a < b < t2.len() implies ranks_before(
                #[trigger] t2[a],
                #[trigger] t2[b],
            ) by {
                assert(t2[a] == s2[a + 1] && t2[b] == s2[b + 1]);
            }
        }
        assert(no_repeated_symbols(t1)) by {
            assert forall|a: int, b: int| 0 <= a < b < t1.len() implies (#[trigger] t1[a]).symbol@
                != (#[trigger] t1[b]).symbol@ by {
                assert(t1[a] == s1[a + 1] && t1[b] == s1[b + 1]);
            }
        }
        lemma_sorted_permutation_unique(t1, t2);
        assert(s1 =~= seq![s1[0]] + t1);
        assert(s2 =~= seq![s2[0]] + t2);
    }
}

/// A report depends on the candidates only, not on the order they are handed
/// over in (so a parallel fold gives the same report as a sequential one),
/// when no two candidates are for the same symbol.
pub proof fn lemma_report_independent_of_order<A>(
    c1: Seq<Candidate<A>>,
    c2: Seq<Candidate<A>>,
    limit: Option<usize>,
    r1: Seq<Candidate<A>>,
    r2: Seq<Candidate<A>>,
)
    requires
        c1.to_multiset() == c2.to_multiset(),
        no_repeated_symbols(c1),
        ranked(c1, limit, r1),
        ranked(c2, limit, r2),
    ensures
        r1 == r2,
{
    let p = |c: Candidate<A>| passes(c);
    let full1 = choose|full: Seq<Candidate<A>>|
        {
            &&& full.to_multiset() == c1.filter(|c: Candidate<A>| passes(c)).to_multiset()
            &&& in_report_order(full)
            &&& r1 == full.take(kept(full.len(), limit) as int)
        };
    let full2 = choose|full: Seq<Candidate<A>>|
        {
            &&& full.to_multiset() == c2.filter(|c: Candidate<A>| passes(c)).to_multiset()
            &&& in_report_order(full)
            &&& r2 == full.take(kept(full.len(), limit) as int)
        };
    assert forall|x: Candidate<A>| #[trigger] full1.to_multiset().count(x) == full2.to_multiset().count(
        x,
    ) && full1.to_multiset().count(x) <= c1.to_multiset().count(x) by {
        lemma_filter_count(c1, p, x);
        lemma_filter_count(c2, p, x);
    }
    assert(full1.to_multiset() =~= full2.to_multiset());
    lemma_sub_multiset_no_repeats(c1, full1);
    lemma_sorted_permutation_unique(full1, full2);
}

/// Of two candidates, one may stand before the other.
pub proof fn lemma_ranks_total<A>(a: Candidate<A>, b: Candidate<A>)
    ensures
        ranks_before(a, b) || ranks_before(b, a),
{
    lemma_precedes_asymmetric(a.symbol@, b.symbol@, 0);
}

/// Report order is transitive.
pub proof fn lemma_ranks_transitive<A>(a: Candidate<A>, b: Candidate<A>, c: Candidate<A>)
    requires
        ranks_before(a, b),
        ranks_before(b, c),
    ensures
        ranks_before(a, c),
{
    if a.order_key == b.order_key && b.order_key == c.order_key {
        let (x, y, z) = (a.symbol@, b.symbol@, c.symbol@);
        if precedes(z, x) {
            lemma_precedes_connected(x, y);
            lemma_precedes_connected(y, z);
            if x == y {
            } else if y == z {
            } else {
                lemma_precedes_transitive(x, y, z, 0);
                lemma_precedes_asymmetric(x, z, 0);
            }
        }
    }
}

fn ranks_no_later<A>(a: &Candidate<A>, b: &Candidate<A>) -> (r: bool)
    ensures
        r == ranks_before(*a, *b),
{
    if a.order_key != b.order_key {
        a.order_key > b.order_key
    } else {
        symbol_order(b.symbol.as_str(), a.symbol.as_str()) != SymbolOrder::Before
    }
}

/// The first position of sorted `out` whose candidate `c` may stand before.
fn insertion_point<A>(out: &Vec<Candidate<A>>, c: &Candidate<A>) -> (p: usize)
    requires
        in_report_order(out@),
    ensures
        p <= out@.len(),
        forall|j: int| 0 <= j < p ==> ranks_before(#[trigger] out@[j], *c),
        forall|j: int| p <= j < out@.len() ==> ranks_before(*c, #[trigger] out@[j]),
{
    let mut lo: usize = 0;
    let mut hi: usize = out.len();
    while lo < hi
        invariant
            in_report_order(out@),
            lo <= hi <= out@.len(),
            forall|j: int| 0 <= j < lo ==> ranks_before(#[trigger] out@[j], *c),
            forall|j: int| hi <= j < out@.len() ==> ranks_before(*c, #[trigger] out@[j]),
        decreases hi - lo,
    {
        let mid = lo + (hi - lo) / 2;
        if ranks_no_later(c, &out[mid]) {
            assert forall|j: int| mid <= j < out@.len() implies ranks_before(*c, #[trigger] out@[j]) by {
                if j > mid {
                    lemma_ranks_transitive(*c, out@[mid as int], out@[j]);
                }
            }
            hi = mid;
        } else {
            proof {
                lemma_ranks_total(*c, out@[mid as int]);
            }
            assert forall|j: int| 0 <= j < mid + 1 implies ranks_before(#[trigger] out@[j], *c) by {
                if j < mid {
                    lemma_ranks_transitive(out@[j], out@[mid as int], *c);
                }
            }
            lo = mid + 1;
        }
    }
    lo
}

/// Rank candidates into a report: keep those that passed the threshold, order
/// them by severity descending then symbol ascending, and keep the first
/// `limit` of them when a limit is given.
pub fn rank<A>(candidates: Vec<Candidate<A>>, limit: Option<usize>) -> (r: Vec<Candidate<A>>)
    ensures
        ranked(candidates@, limit, r@),
        forall|i: int| 0 <= i < r@.len() ==> (#[trigger] r@[i]).passes,
        in_report_order(r@),
        limit matches Some(l) ==> r@.len() <= l,
{
    let ghost orig = candidates@;
    let ghost p = |c: Candidate<A>| passes(c);
    let mut rest = candidates;
    let mut out: Vec<Candidate<A>> = Vec::new();
    proof {
        reveal(Seq::filter);
        let e = orig.subrange(orig.len() as int, orig.len() as int);
        assert(e.filter(p) =~= Seq::<Candidate<A>>::empty());
        assert(out@ =~= Seq::<Candidate<A>>::empty());
    }
    while rest.len() > 0
        invariant
            p == (|c: Candidate<A>| passes(c)),
            orig == candidates@,
            rest@.len() <= orig.len(),
            rest@ == orig.subrange(0, rest@.len() as int),
            in_report_order(out@),
            out@.to_multiset() == orig.subrange(rest@.len() as int, orig.len() as int).filter(
                p,
            ).to_multiset(),
        decreases rest@.len(),
    {
        let ghost n = rest@.len();
        let c = rest.pop().unwrap();
        assert(c == orig[n - 1]);
        let ghost done = orig.subrange(n as int, orig.len() as int);
        assert(orig.subrange(n - 1, orig.len() as int) =~= seq![c] + done);
        proof {
            done.lemma_filter_prepend(c, p);
            assert(p(c) == c.passes);
            assert((seq![c] + done).filter(p) == orig.subrange(n - 1, orig.len() as int).filter(p));
        }
        if c.passes {
            let at = insertion_point(&out, &c);
            let ghost before = out@;
            out.insert(at, c);
            proof {
                assert(out@ == before.insert(at as int, c));
                assert((seq![c] + done.filter(p)).to_multiset() =~= done.filter(p).to_multiset().insert(c)) by {
                    let s = done.filter(p);
                    assert(seq![c] + s =~= s.insert(0, c));
                }
                assert(orig.subrange(n - 1, orig.len() as int).filter(p) == seq![c] + done.filter(p));
                assert forall|i: int, j: int| 0 <= i < j < out@.len() implies ranks_before(
                    #[trigger] out@[i],
                    #[trigger] out@[j],
                ) by {
                    if j < at {
                        assert(out@[i] == before[i]);
                        assert(out@[j] == before[j]);
                    } else if i < at && j == at {
                        assert(out@[i] == before[i]);
                    } else if i < at && j > at {
                        assert(out@[i] == before[i]);
                        assert(out@[j] == before[j - 1]);
                    } else if i == at {
                        assert(out@[j] == before[j - 1]);
                    } else {
                        assert(out@[i] == before[i - 1]);
                        assert(out@[j] == before[j - 1]);
                    }
                }
            }
        } else {
            assert((Seq::<Candidate<A>>::empty() + done.filter(p)) =~= done.filter(p));
        }
    }
    assert(orig.subrange(0, orig.len() as int) =~= orig);
    let ghost full = out@;
    match limit {
        Some(l) => {
            out.truncate(l);
        },
        None => {},
    }
    assert(out@ =~= full.take(kept(full.len(), limit) as int));
    proof {
        assert forall|i: int| 0 <= i < full.len() implies (#[trigger] full[i]).passes by {
            let f = orig.filter(p);
            vstd::seq_lib::to_multiset_contains(full, full[i]);
            vstd::seq_lib::to_multiset_contains(f, full[i]);
            assert(full.contains(full[i]));
            assert(f.contains(full[i]));
            let k = choose|k: int| 0 <= k < f.len() && f[k] == full[i];
            orig.lemma_filter_pred(p, k);
            assert(p(f[k]));
        }
    }
    out
}

} // verus!
