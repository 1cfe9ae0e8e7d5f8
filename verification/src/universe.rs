//! The universe: one [`SymbolState`] per symbol being tracked, kept in symbol
//! order so iteration is deterministic.
use vstd::prelude::*;

use crate::event::Event;
use crate::order::{
    lemma_precedes_irreflexive, lemma_precedes_transitive, precedes, symbol_order, SymbolOrder,
};
use crate::spec::SpecShape;
use crate::symbol_state::{initial_view, step, StateView, SymbolState};

verus! {

/// Whether the symbols of `s` are strictly increasing (so also distinct).
pub open spec fn keys_sorted<V>(s: Seq<(Seq<char>, StateView<V>)>) -> bool {
    forall|i: int, j: int| 0 <= i < j < s.len() ==> precedes(#[trigger] s[i].0, #[trigger] s[j].0)
}

/// Whether some entry of `s` is for symbol `k`.
pub open spec fn has_key<V>(s: Seq<(Seq<char>, StateView<V>)>, k: Seq<char>) -> bool {
    exists|i: int| 0 <= i < s.len() && (#[trigger] s[i]).0 == k
}

/// The entries of `s` as a map from symbol to state.
pub open spec fn as_map<V>(s: Seq<(Seq<char>, StateView<V>)>) -> Map<Seq<char>, StateView<V>> {
    Map::new(
        |k: Seq<char>| has_key(s, k),
        |k: Seq<char>| s[choose|i: int| 0 <= i < s.len() && (#[trigger] s[i]).0 == k].1,
    )
}

/// In a sorted list, the map sends each entry's symbol to that entry's state.
pub proof fn lemma_as_map_at<V>(s: Seq<(Seq<char>, StateView<V>)>, i: int)
    requires
        keys_sorted(s),
        0 <= i < s.len(),
    ensures
        as_map(s).dom().contains(s[i].0),
        as_map(s)[s[i].0] == s[i].1,
{
    assert(has_key(s, s[i].0));
    let j = choose|j: int| 0 <= j < s.len() && (#[trigger] s[j]).0 == s[i].0;
    if j != i {
        lemma_precedes_irreflexive(s[i].0, 0);
        if i < j {
            assert(precedes(s[i].0, s[j].0));
        } else {
            assert(precedes(s[j].0, s[i].0));
        }
    }
}

/// The universe of tracked symbols.
pub struct Universe<V> {
    symbols: Vec<(String, SymbolState<V>)>,
}

/// The view of one stored entry.
pub open spec fn entry_view<V>(e: (String, SymbolState<V>)) -> (Seq<char>, StateView<V>) {
    (e.0@, e.1@)
}

impl<V> View for Universe<V> {
    type V = Seq<(Seq<char>, StateView<V>)>;

    closed spec fn view(&self) -> Seq<(Seq<char>, StateView<V>)> {
        self.symbols@.map_values(|e: (String, SymbolState<V>)| entry_view(e))
    }
}

impl<V> Universe<V> {
    /// Symbols strictly increasing, every state well formed.
    pub open spec fn wf(&self) -> bool {
        &&& keys_sorted(self@)
        &&& forall|i: int| 0 <= i < self@.len() ==> (#[trigger] self@[i]).1.wf()
    }
}

impl<V: Copy> Universe<V> {
    proof fn lemma_view(&self)
        ensures
            self@.len() == self.symbols@.len(),
            forall|i: int|
                0 <= i < self.symbols@.len() ==> #[trigger] self@[i] == entry_view(
                    self.symbols@[i],
                ),
    {
    }

    /// An empty universe.
    pub fn new() -> (u: Self)
        ensures
            u@ == Seq::<(Seq<char>, StateView<V>)>::empty(),
            u.wf(),
    {
        let u = Universe { symbols: Vec::new() };
        proof {
            u.lemma_view();
        }
        assert(u@ =~= Seq::<(Seq<char>, StateView<V>)>::empty());
        u
    }

    /// Find `symbol`: `Ok(i)` when entry `i` is for it, else `Err(i)` with `i`
    /// the position where it would be inserted to keep the order.
    pub fn locate(&self, symbol: &str) -> (r: Result<usize, usize>)
        requires
            self.wf(),
        ensures
            r matches Ok(i) ==> i < self@.len() && self@[i as int].0 == symbol@,
            r matches Err(i) ==> i <= self@.len() && (forall|j: int|
                0 <= j < i ==> precedes(#[trigger] self@[j].0, symbol@)) && (forall|j: int|
                i <= j < self@.len() ==> precedes(symbol@, #[trigger] self@[j].0)),
    {
        proof {
            self.lemma_view();
        }
        let mut lo: usize = 0;
        let mut hi: usize = self.symbols.len();
        while lo < hi
            invariant
                self.wf(),
                self@.len() == self.symbols@.len(),
                forall|i: int|
                    0 <= i < self.symbols@.len() ==> #[trigger] self@[i] == entry_view(
                        self.symbols@[i],
                    ),
                lo <= hi <= self@.len(),
                forall|j: int| 0 <= j < lo ==> precedes(#[trigger] self@[j].0, symbol@),
                forall|j: int| hi <= j < self@.len() ==> precedes(symbol@, #[trigger] self@[j].0),
            decreases hi - lo,
        {
            let mid = lo + (hi - lo) / 2;
            let o = symbol_order(self.symbols[mid].0.as_str(), symbol);
            assert(self@[mid as int].0 == self.symbols@[mid as int].0@);
            match o {
                SymbolOrder::Same => {
                    return Ok(mid);
                },
                SymbolOrder::Before => {
                    assert forall|j: int| 0 <= j < mid + 1 implies precedes(
                        #[trigger] self@[j].0,
                        symbol@,
                    ) by {
                        if j < mid {
                            lemma_precedes_transitive(self@[j].0, self@[mid as int].0, symbol@, 0);
                        }
                    }
                    lo = mid + 1;
                },
                SymbolOrder::After => {
                    assert forall|j: int| mid <= j < self@.len() implies precedes(
                        symbol@,
                        #[trigger] self@[j].0,
                    ) by {
                        if j > mid {
                            lemma_precedes_transitive(symbol@, self@[mid as int].0, self@[j].0, 0);
                        }
                    }
                    hi = mid;
                },
            }
        }
        Err(lo)
    }

    /// Whether a state is kept for `symbol`.
    pub fn contains(&self, symbol: &str) -> (b: bool)
        requires
            self.wf(),
        ensures
            b == has_key(self@, symbol@),
    {
        match self.locate(symbol) {
            Ok(_) => true,
            Err(i) => {
                assert forall|j: int| 0 <= j < self@.len() implies (#[trigger] self@[j]).0
                    != symbol@ by {
                    lemma_precedes_irreflexive(symbol@, 0);
                }
                false
            },
        }
    }

    /// Ensure `symbol` has a state, building one sized for `shape` if absent;
    /// an existing state is kept as it is.
    pub fn ensure(&mut self, symbol: &str, shape: &SpecShape)
        requires
            old(self).wf(),
        ensures
            final(self).wf(),
            has_key(old(self)@, symbol@) ==> final(self)@ == old(self)@,
            !has_key(old(self)@, symbol@) ==> exists|p: int|
                0 <= p <= old(self)@.len() && final(self)@ == old(self)@.insert(
                    p,
                    (symbol@, initial_view::<V>(*shape)),
                ),
    {
        proof {
            self.lemma_view();
        }
        match self.locate(symbol) {
            Ok(_) => {},
            Err(i) => {
                let ghost old_view = self@;
                assert forall|j: int| 0 <= j < old_view.len() implies (#[trigger] old_view[j]).0
                    != symbol@ by {
                    lemma_precedes_irreflexive(symbol@, 0);
                }
                let state = SymbolState::new(shape);
                self.symbols.insert(i, (symbol.to_owned(), state));
                proof {
                    self.lemma_view();
                    let nv = old_view.insert(i as int, (symbol@, initial_view::<V>(*shape)));
                    assert(self@ =~= nv);
                    assert forall|a: int, b: int| 0 <= a < b < nv.len() implies precedes(
                        #[trigger] nv[a].0,
                        #[trigger] nv[b].0,
                    ) by {
                        if a < i && b > i {
                            assert(nv[b] == old_view[b - 1]);
                        } else if b > i && a > i {
                            assert(nv[a] == old_view[a - 1]);
                            assert(nv[b] == old_view[b - 1]);
                        } else if a == i {
                            assert(nv[b] == old_view[b - 1]);
                        }
                    }
                }
            },
        }
    }

    /// Fold one event into `symbol`'s state; a no-op if the symbol is absent.
    pub fn fold(&mut self, symbol: &str, event: &Event<V>)
        requires
            old(self).wf(),
        ensures
            final(self).wf(),
            !has_key(old(self)@, symbol@) ==> final(self)@ == old(self)@,
            forall|i: int|
                0 <= i < old(self)@.len() && (#[trigger] old(self)@[i]).0 == symbol@
                    ==> final(self)@ == old(self)@.update(i, (symbol@, step(old(self)@[i].1, *event))),
    {
        proof {
            self.lemma_view();
        }
        let ghost old_view = self@;
        match self.locate(symbol) {
            Ok(i) => {
                assert(self.symbols@[i as int].1.wf());
                self.symbols[i].1.fold(event);
                proof {
                    self.lemma_view();
                    let nv = old_view.update(i as int, (symbol@, step(old_view[i as int].1, *event)));
                    assert(self@ =~= nv);
                    assert forall|j: int|
                        0 <= j < old_view.len() && (#[trigger] old_view[j]).0 == symbol@ implies j
                        == i by {
                        if j != i {
                            lemma_precedes_irreflexive(symbol@, 0);
                        }
                    }
                }
            },
            Err(_) => {
                assert forall|j: int| 0 <= j < old_view.len() implies (#[trigger] old_view[j]).0
                    != symbol@ by {
                    lemma_precedes_irreflexive(symbol@, 0);
                }
            },
        }
    }

    /// The number of symbols tracked.
    pub fn scanned(&self) -> (n: usize)
        ensures
            n == self@.len(),
    {
        proof {
            self.lemma_view();
        }
        self.symbols.len()
    }

    /// The tracked symbols and their states, in symbol order.
    pub fn entries(&self) -> (r: &Vec<(String, SymbolState<V>)>)
        ensures
            r@.map_values(|e: (String, SymbolState<V>)| entry_view(e)) == self@,
    {
        &self.symbols
    }
}

} // verus!
