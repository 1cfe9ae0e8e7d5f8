//! Batch folding and the streaming model: feeding events one at a time builds
//! exactly the states a batch fold of each symbol's events builds.
use vstd::prelude::*;

use crate::event::Event;
use crate::order::{lemma_precedes_asymmetric, lemma_precedes_irreflexive, precedes};
use crate::spec::SpecShape;
use crate::symbol_state::{fold_all, initial_view, step, StateView, SymbolState};
use crate::universe::{as_map, has_key, keys_sorted, lemma_as_map_at, Universe};

verus! {

/// The tracked states (as a map) once symbol `k` is sure to have a state: a
/// symbol seen for the first time gets a fresh state sized for `shape`.
pub open spec fn ensure_map<V>(m: Map<Seq<char>, StateView<V>>, shape: SpecShape, k: Seq<char>) -> Map<
    Seq<char>,
    StateView<V>,
> {
    if m.dom().contains(k) {
        m
    } else {
        m.insert(k, initial_view::<V>(shape))
    }
}

/// The tracked states (as a map) after feeding event `e` to symbol `k`.
pub open spec fn feed_map<V>(
    m: Map<Seq<char>, StateView<V>>,
    shape: SpecShape,
    k: Seq<char>,
    e: Event<V>,
) -> Map<Seq<char>, StateView<V>> {
    let m1 = ensure_map(m, shape, k);
    m1.insert(k, step(m1[k], e))
}

/// The tracked states after feeding the list `events` to symbol `k`: the
/// symbol gets a state even when the list is empty.
pub open spec fn feed_events_map<V>(
    m: Map<Seq<char>, StateView<V>>,
    shape: SpecShape,
    k: Seq<char>,
    events: Seq<Event<V>>,
) -> Map<Seq<char>, StateView<V>>
    decreases events.len(),
{
    if events.len() == 0 {
        ensure_map(m, shape, k)
    } else {
        feed_map(feed_events_map(m, shape, k, events.drop_last()), shape, k, events.last())
    }
}

/// The tracked states after feeding single events one after another.
pub open spec fn feed_each_map<V>(
    m: Map<Seq<char>, StateView<V>>,
    shape: SpecShape,
    k: Seq<char>,
    events: Seq<Event<V>>,
) -> Map<Seq<char>, StateView<V>>
    decreases events.len(),
{
    if events.len() == 0 {
        m
    } else {
        feed_map(feed_each_map(m, shape, k, events.drop_last()), shape, k, events.last())
    }
}

/// The tracked states after feeding every `(symbol, events)` of `batches` in
/// order to an empty universe.
pub open spec fn feed_batches_map<V>(shape: SpecShape, batches: Seq<(Seq<char>, Seq<Event<V>>)>) -> Map<
    Seq<char>,
    StateView<V>,
>
    decreases batches.len(),
{
    if batches.len() == 0 {
        Map::empty()
    } else {
        feed_events_map(
            feed_batches_map(shape, batches.drop_last()),
            shape,
            batches.last().0,
            batches.last().1,
        )
    }
}

/// Whether some feed of `batches` is for symbol `k`.
pub open spec fn touched<V>(batches: Seq<(Seq<char>, Seq<Event<V>>)>, k: Seq<char>) -> bool {
    exists|i: int| 0 <= i < batches.len() && (#[trigger] batches[i]).0 == k
}

/// The events fed to symbol `k`, in feed order.
pub open spec fn events_for<V>(batches: Seq<(Seq<char>, Seq<Event<V>>)>, k: Seq<char>) -> Seq<
    Event<V>,
>
    decreases batches.len(),
{
    if batches.len() == 0 {
        Seq::empty()
    } else {
        events_for(batches.drop_last(), k) + if batches.last().0 == k {
            batches.last().1
        } else {
            Seq::empty()
        }
    }
}

/// Folding a concatenation folds the first part, then the second.
pub proof fn lemma_fold_all_append<V>(s: StateView<V>, a: Seq<Event<V>>, b: Seq<Event<V>>)
    ensures
        fold_all(s, a + b) == fold_all(fold_all(s, a), b),
    decreases b.len(),
{
    if b.len() == 0 {
        assert(a + b =~= a);
    } else {
        lemma_fold_all_append(s, a, b.drop_last());
        assert((a + b).drop_last() =~= a + b.drop_last());
        assert((a + b).last() == b.last());
    }
}

/// Feeding a list of events to a symbol whose state is the fold of `prior`
/// (or which has no state and no prior events) leaves it in the fold of
/// `prior` followed by the list.
pub proof fn lemma_feed_events_extends<V>(
    m: Map<Seq<char>, StateView<V>>,
    shape: SpecShape,
    k: Seq<char>,
    prior: Seq<Event<V>>,
    events: Seq<Event<V>>,
)
    requires
        m.dom().contains(k) ==> m[k] == fold_all(initial_view::<V>(shape), prior),
        !m.dom().contains(k) ==> prior.len() == 0,
    ensures
        feed_events_map(m, shape, k, events) == m.insert(
            k,
            fold_all(initial_view::<V>(shape), prior + events),
        ),
    decreases events.len(),
{
    if events.len() == 0 {
        assert(prior + events =~= prior);
        if m.dom().contains(k) {
            assert(m.insert(k, m[k]) =~= m);
        } else {
            assert(prior =~= Seq::<Event<V>>::empty());
        }
    } else {
        lemma_feed_events_extends(m, shape, k, prior, events.drop_last());
        assert((prior + events).drop_last() =~= prior + events.drop_last());
        assert((prior + events).last() == events.last());
        assert(m.insert(k, fold_all(initial_view::<V>(shape), prior + events.drop_last())).insert(
            k,
            fold_all(initial_view::<V>(shape), prior + events),
        ) =~= m.insert(k, fold_all(initial_view::<V>(shape), prior + events)));
    }
}

/// A single feed is a feed of a one-event list.
pub proof fn lemma_feed_is_single_batch<V>(
    m: Map<Seq<char>, StateView<V>>,
    shape: SpecShape,
    k: Seq<char>,
    e: Event<V>,
)
    ensures
        feed_map(m, shape, k, e) == feed_events_map(m, shape, k, seq![e]),
{
    let one = seq![e];
    assert(one.drop_last() =~= Seq::<Event<V>>::empty());
    assert(one.last() == e);
    assert(ensure_map(ensure_map(m, shape, k), shape, k) =~= ensure_map(m, shape, k));
    assert(feed_events_map(m, shape, k, one.drop_last()) == ensure_map(m, shape, k));
}

/// Feeding a non-empty list of events to a symbol at once is feeding them one
/// by one.
pub proof fn lemma_batch_feed_is_feeds<V>(
    m: Map<Seq<char>, StateView<V>>,
    shape: SpecShape,
    k: Seq<char>,
    events: Seq<Event<V>>,
)
    requires
        events.len() > 0,
    ensures
        feed_events_map(m, shape, k, events) == feed_each_map(m, shape, k, events),
    decreases events.len(),
{
    if events.len() == 1 {
        assert(events.drop_last() =~= Seq::<Event<V>>::empty());
        assert(ensure_map(ensure_map(m, shape, k), shape, k) =~= ensure_map(m, shape, k));
        assert(feed_events_map(m, shape, k, events.drop_last()) == ensure_map(m, shape, k));
        assert(feed_each_map(m, shape, k, events.drop_last()) == m);
    } else {
        lemma_batch_feed_is_feeds(m, shape, k, events.drop_last());
    }
}

/// The states a batch fold builds: each symbol's events folded onto a fresh
/// state sized for `shape`.
pub open spec fn batch_states<V>(shape: SpecShape, batch: Seq<(Seq<char>, Seq<Event<V>>)>) -> Seq<
    (Seq<char>, StateView<V>),
> {
    batch.map_values(
        |b: (Seq<char>, Seq<Event<V>>)| (b.0, fold_all(initial_view::<V>(shape), b.1)),
    )
}

/// A map equals the map of a sorted list when both have the same symbols and
/// the map agrees with every entry.
pub proof fn lemma_as_map_equals<V>(s: Seq<(Seq<char>, StateView<V>)>, m: Map<Seq<char>, StateView<V>>)
    requires
        keys_sorted(s),
        forall|k: Seq<char>| has_key(s, k) <==> m.dom().contains(k),
        forall|i: int| 0 <= i < s.len() ==> m[(#[trigger] s[i]).0] == s[i].1,
    ensures
        as_map(s) == m,
{
    assert forall|k: Seq<char>| #[trigger] as_map(s).dom().contains(k) implies as_map(s)[k] == m[k] by {
        let i = choose|i: int| 0 <= i < s.len() && (#[trigger] s[i]).0 == k;
        lemma_as_map_at(s, i);
    }
    assert(as_map(s) =~= m);
}

/// Inserting a new symbol into a sorted list inserts it into its map.
pub proof fn lemma_as_map_insert<V>(
    s: Seq<(Seq<char>, StateView<V>)>,
    p: int,
    k: Seq<char>,
    v: StateView<V>,
)
    requires
        keys_sorted(s),
        keys_sorted(s.insert(p, (k, v))),
        0 <= p <= s.len(),
        !has_key(s, k),
    ensures
        as_map(s.insert(p, (k, v))) == as_map(s).insert(k, v),
{
    let t = s.insert(p, (k, v));
    let m = as_map(s).insert(k, v);
    assert forall|x: Seq<char>| has_key(t, x) <==> m.dom().contains(x) by {
        if has_key(t, x) {
            let i = choose|i: int| 0 <= i < t.len() && (#[trigger] t[i]).0 == x;
            if i < p {
                assert(s[i].0 == x);
                assert(has_key(s, x));
            } else if i > p {
                assert(s[i - 1].0 == x);
                assert(has_key(s, x));
            }
        }
        if m.dom().contains(x) && x != k {
            let i = choose|i: int| 0 <= i < s.len() && (#[trigger] s[i]).0 == x;
            if i < p {
                assert(t[i].0 == x);
            } else {
                assert(t[i + 1].0 == x);
            }
        }
        if x == k {
            assert(t[p].0 == x);
        }
    }
    assert forall|i: int| 0 <= i < t.len() implies m[(#[trigger] t[i]).0] == t[i].1 by {
        if i < p {
            lemma_as_map_at(s, i);
            assert(t[i] == s[i]);
            assert(s[i].0 != k);
        } else if i > p {
            lemma_as_map_at(s, i - 1);
            assert(t[i] == s[i - 1]);
            assert(s[i - 1].0 != k);
        }
    }
    lemma_as_map_equals(t, m);
}

/// Replacing an entry's state in a sorted list replaces it in its map.
pub proof fn lemma_as_map_update<V>(s: Seq<(Seq<char>, StateView<V>)>, i: int, v: StateView<V>)
    requires
        keys_sorted(s),
        0 <= i < s.len(),
    ensures
        keys_sorted(s.update(i, (s[i].0, v))),
        as_map(s.update(i, (s[i].0, v))) == as_map(s).insert(s[i].0, v),
{
    let k = s[i].0;
    let t = s.update(i, (k, v));
    let m = as_map(s).insert(k, v);
    assert(keys_sorted(t)) by {
        assert forall|a: int, b: int| 0 <= a < b < t.len() implies precedes(
            #[trigger] t[a].0,
            #[trigger] t[b].0,
        ) by {
            assert(t[a].0 == s[a].0);
            assert(t[b].0 == s[b].0);
        }
    }
    assert forall|x: Seq<char>| has_key(t, x) <==> m.dom().contains(x) by {
        if has_key(t, x) {
            let j = choose|j: int| 0 <= j < t.len() && (#[trigger] t[j]).0 == x;
            assert(s[j].0 == x);
        }
        if m.dom().contains(x) {
            if x == k {
                assert(t[i].0 == x);
            } else {
                let j = choose|j: int| 0 <= j < s.len() && (#[trigger] s[j]).0 == x;
                assert(t[j].0 == x);
            }
        }
    }
    assert forall|j: int| 0 <= j < t.len() implies m[(#[trigger] t[j]).0] == t[j].1 by {
        if j != i {
            lemma_as_map_at(s, j);
            if s[j].0 == k {
                lemma_precedes_irreflexive(k, 0);
                if j < i {
                    assert(precedes(s[j].0, s[i].0));
                } else {
                    assert(precedes(s[i].0, s[j].0));
                }
            }
        }
    }
    lemma_as_map_equals(t, m);
}

/// Two sorted lists with the same map are the same list.
pub proof fn lemma_sorted_unique<V>(s1: Seq<(Seq<char>, StateView<V>)>, s2: Seq<(Seq<char>, StateView<V>)>)
    requires
        keys_sorted(s1),
        keys_sorted(s2),
        as_map(s1) == as_map(s2),
    ensures
        s1 == s2,
    decreases s1.len(),
{
    if s1.len() == 0 {
        if s2.len() > 0 {
            assert(has_key(s2, s2[0].0));
            assert(as_map(s2).dom().contains(s2[0].0));
        }
        assert(s1 =~= s2);
    } else if s2.len() == 0 {
        assert(has_key(s1, s1[0].0));
        assert(as_map(s1).dom().contains(s1[0].0));
    } else {
        let k1 = s1[0].0;
        let k2 = s2[0].0;
        lemma_as_map_at(s1, 0);
        lemma_as_map_at(s2, 0);
        if k1 != k2 {
            let j = choose|j: int| 0 <= j < s2.len() && (#[trigger] s2[j]).0 == k1;
            let i = choose|i: int| 0 <= i < s1.len() && (#[trigger] s1[i]).0 == k2;
            assert(j != 0);
            assert(i != 0);
            assert(precedes(s2[0].0, s2[j].0));
            assert(precedes(s1[0].0, s1[i].0));
            lemma_precedes_asymmetric(k1, k2, 0);
        }
        let t1 = s1.drop_first();
        let t2 = s2.drop_first();
        assert(keys_sorted(t1)) by {
            assert forall|a: int, b: int| 0 <= a < b < t1.len() implies precedes(
                #[trigger] t1[a].0,
                #[trigger] t1[b].0,
            ) by {
                assert(t1[a] == s1[a + 1]);
                assert(t1[b] == s1[b + 1]);
            }
        }
        assert(keys_sorted(t2)) by {
            assert forall|a: int, b: int| 0 <= a < b < t2.len() implies precedes(
                #[trigger] t2[a].0,
                #[trigger] t2[b].0,
            ) by {
                assert(t2[a] == s2[a + 1]);
                assert(t2[b] == s2[b + 1]);
            }
        }
        lemma_drop_first_map(s1);
        lemma_drop_first_map(s2);
        lemma_sorted_unique(t1, t2);
        assert(s1 =~= seq![s1[0]] + t1);
        assert(s2 =~= seq![s2[0]] + t2);
    }
}

/// Dropping the first entry of a sorted list removes its symbol from the map.
proof fn lemma_drop_first_map<V>(s: Seq<(Seq<char>, StateView<V>)>)
    requires
        keys_sorted(s),
        s.len() > 0,
    ensures
        keys_sorted(s.drop_first()),
        as_map(s.drop_first()) == as_map(s).remove(s[0].0),
{
    let t = s.drop_first();
    let k = s[0].0;
    let m = as_map(s).remove(k);
    assert(keys_sorted(t)) by {
        assert forall|a: int, b: int| 0 <= a < b < t.len() implies precedes(
            #[trigger] t[a].0,
            #[trigger] t[b].0,
        ) by {
            assert(t[a] == s[a + 1]);
            assert(t[b] == s[b + 1]);
        }
    }
    assert forall|x: Seq<char>| has_key(t, x) <==> m.dom().contains(x) by {
        if has_key(t, x) {
            let j = choose|j: int| 0 <= j < t.len() && (#[trigger] t[j]).0 == x;
            assert(s[j + 1].0 == x);
            assert(has_key(s, x));
            assert(precedes(s[0].0, s[j + 1].0));
            lemma_precedes_irreflexive(k, 0);
        }
        if m.dom().contains(x) {
            let j = choose|j: int| 0 <= j < s.len() && (#[trigger] s[j]).0 == x;
            assert(j != 0);
            assert(t[j - 1].0 == x);
        }
    }
    assert forall|j: int| 0 <= j < t.len() implies m[(#[trigger] t[j]).0] == t[j].1 by {
        lemma_as_map_at(s, j + 1);
        assert(precedes(s[0].0, s[j + 1].0));
        lemma_precedes_irreflexive(k, 0);
    }
    lemma_as_map_equals(t, m);
}

/// Feeding lists of events, symbol by symbol, leaves every touched symbol in
/// the state that folding all the events it was fed, in feed order, onto a
/// fresh state gives; symbols never touched have no state.
pub proof fn lemma_batches_fold_per_symbol<V>(
    shape: SpecShape,
    batches: Seq<(Seq<char>, Seq<Event<V>>)>,
)
    ensures
        feed_batches_map(shape, batches) == Map::new(
            |k: Seq<char>| touched(batches, k),
            |k: Seq<char>| fold_all(initial_view::<V>(shape), events_for(batches, k)),
        ),
        forall|k: Seq<char>| !touched(batches, k) ==> (#[trigger] events_for(batches, k)).len() == 0,
    decreases batches.len(),
{
    let target = Map::new(
        |k: Seq<char>| touched(batches, k),
        |k: Seq<char>| fold_all(initial_view::<V>(shape), events_for(batches, k)),
    );
    if batches.len() == 0 {
        assert(feed_batches_map(shape, batches) =~= target);
    } else {
        let prev = batches.drop_last();
        let (k, evs) = batches.last();
        lemma_batches_fold_per_symbol(shape, prev);
        let before = feed_batches_map(shape, prev);
        assert forall|x: Seq<char>| #[trigger] touched(batches, x) <==> (touched(prev, x) || x == k) by {
            if touched(batches, x) {
                let i = choose|i: int| 0 <= i < batches.len() && (#[trigger] batches[i]).0 == x;
                if i < prev.len() {
                    assert(prev[i].0 == x);
                }
            }
            if touched(prev, x) {
                let i = choose|i: int| 0 <= i < prev.len() && (#[trigger] prev[i]).0 == x;
                assert(batches[i].0 == x);
            }
            if x == k {
                assert(batches[batches.len() - 1].0 == x);
            }
        }
        assert forall|x: Seq<char>| #[trigger] events_for(batches, x) == (if x == k {
            events_for(prev, x) + evs
        } else {
            events_for(prev, x)
        }) by {
            if x != k {
                assert(events_for(prev, x) + Seq::<Event<V>>::empty() =~= events_for(prev, x));
            }
        }
        lemma_feed_events_extends(before, shape, k, events_for(prev, k), evs);
        let after = feed_batches_map(shape, batches);
        assert forall|x: Seq<char>| #[trigger] after.dom().contains(x) implies after[x] == target[x] by {
            if x != k {
                assert(before.dom().contains(x));
            }
        }
        assert(after.dom() =~= target.dom());
        assert(after =~= target);
        assert forall|x: Seq<char>| !touched(batches, x) implies (#[trigger] events_for(
            batches,
            x,
        )).len() == 0 by {
            assert(!touched(prev, x));
        }
    }
}

/// The central equivalence of the two operating modes: a universe built by
/// feeding lists of events symbol by symbol (single events being one-event
/// lists), held sorted by symbol, is exactly the list of states a batch fold
/// builds, provided the batch lists the fed symbols in symbol order, each with
/// all the events fed to it in order (possibly none).
pub proof fn lemma_stream_matches_batch<V>(
    shape: SpecShape,
    batches: Seq<(Seq<char>, Seq<Event<V>>)>,
    stream: Seq<(Seq<char>, StateView<V>)>,
    batch: Seq<(Seq<char>, Seq<Event<V>>)>,
)
    requires
        keys_sorted(stream),
        as_map(stream) == feed_batches_map(shape, batches),
        forall|a: int, b: int|
            0 <= a < b < batch.len() ==> precedes(#[trigger] batch[a].0, #[trigger] batch[b].0),
        forall|k: Seq<char>|
            touched(batches, k) <==> exists|i: int| 0 <= i < batch.len() && (#[trigger] batch[i]).0 == k,
        forall|i: int|
            0 <= i < batch.len() ==> (#[trigger] batch[i]).1 == events_for(batches, batch[i].0),
    ensures
        stream == batch_states(shape, batch),
{
    let bs = batch_states(shape, batch);
    lemma_batches_fold_per_symbol(shape, batches);
    let m = feed_batches_map(shape, batches);
    assert(keys_sorted(bs)) by {
        assert forall|a: int, b: int| 0 <= a < b < bs.len() implies precedes(
            #[trigger] bs[a].0,
            #[trigger] bs[b].0,
        ) by {
            assert(bs[a].0 == batch[a].0);
            assert(bs[b].0 == batch[b].0);
        }
    }
    assert forall|k: Seq<char>| has_key(bs, k) <==> m.dom().contains(k) by {
        if has_key(bs, k) {
            let i = choose|i: int| 0 <= i < bs.len() && (#[trigger] bs[i]).0 == k;
            assert(batch[i].0 == k);
        }
        if m.dom().contains(k) {
            let i = choose|i: int| 0 <= i < batch.len() && (#[trigger] batch[i]).0 == k;
            assert(bs[i].0 == k);
        }
    }
    assert forall|i: int| 0 <= i < bs.len() implies m[(#[trigger] bs[i]).0] == bs[i].1 by {
        assert(bs[i].0 == batch[i].0);
        assert(touched(batches, batch[i].0));
    }
    lemma_as_map_equals(bs, m);
    lemma_sorted_unique(stream, bs);
}

/// What `Universe::ensure` does to the map of tracked states.
proof fn lemma_ensure_map<V>(
    s0: Seq<(Seq<char>, StateView<V>)>,
    s1: Seq<(Seq<char>, StateView<V>)>,
    shape: SpecShape,
    k: Seq<char>,
)
    requires
        keys_sorted(s0),
        keys_sorted(s1),
        has_key(s0, k) ==> s1 == s0,
        !has_key(s0, k) ==> exists|p: int|
            0 <= p <= s0.len() && s1 == s0.insert(p, (k, initial_view::<V>(shape))),
    ensures
        as_map(s1) == ensure_map(as_map(s0), shape, k),
        has_key(s1, k),
{
    if has_key(s0, k) {
        let j = choose|j: int| 0 <= j < s0.len() && (#[trigger] s0[j]).0 == k;
        lemma_as_map_at(s0, j);
    } else {
        let p = choose|p: int| 0 <= p <= s0.len() && s1 == s0.insert(p, (k, initial_view::<V>(shape)));
        lemma_as_map_insert(s0, p, k, initial_view::<V>(shape));
        assert(s1[p].0 == k);
        assert(!as_map(s0).dom().contains(k));
    }
}

/// Fold every event onto a fresh state sized for `shape`.
pub fn fold_one<V: Copy>(events: &Vec<Event<V>>, shape: &SpecShape) -> (s: SymbolState<V>)
    ensures
        s@ == fold_all(initial_view::<V>(*shape), events@),
        s.wf(),
{
    let mut state = SymbolState::new(shape);
    let mut i: usize = 0;
    while i < events.len()
        invariant
            i <= events.len(),
            state.wf(),
            state@ == fold_all(initial_view::<V>(*shape), events@.take(i as int)),
        decreases events.len() - i,
    {
        assert(events@.take(i + 1).drop_last() =~= events@.take(i as int));
        state.fold(&events[i]);
        i = i + 1;
    }
    assert(events@.take(events.len() as int) =~= events@);
    state
}

/// Build each symbol's state from its events, in the order given.
pub fn fold_symbols<V: Copy>(events: &Vec<(String, Vec<Event<V>>)>, shape: &SpecShape) -> (r: Vec<
    (String, SymbolState<V>),
>)
    ensures
        r@.len() == events@.len(),
        forall|i: int|
            0 <= i < r@.len() ==> (#[trigger] r@[i]).0@ == events@[i].0@ && r@[i].1@ == fold_all(
                initial_view::<V>(*shape),
                events@[i].1@,
            ) && r@[i].1.wf(),
{
    let mut out: Vec<(String, SymbolState<V>)> = Vec::new();
    let mut i: usize = 0;
    while i < events.len()
        invariant
            i <= events.len(),
            out@.len() == i,
            forall|j: int|
                0 <= j < i ==> (#[trigger] out@[j]).0@ == events@[j].0@ && out@[j].1@ == fold_all(
                    initial_view::<V>(*shape),
                    events@[j].1@,
                ) && out@[j].1.wf(),
        decreases events.len() - i,
    {
        let state = fold_one(&events[i].1, shape);
        let name = events[i].0.clone();
        out.push((name, state));
        i = i + 1;
    }
    out
}

impl<V: Copy> Universe<V> {
    /// Feed one event to `symbol`: build its state if it is new, then fold the
    /// event into it.
    pub fn feed(&mut self, symbol: &str, event: &Event<V>, shape: &SpecShape)
        requires
            old(self).wf(),
        ensures
            final(self).wf(),
            as_map(final(self)@) == feed_map(as_map(old(self)@), *shape, symbol@, *event),
    {
        let ghost s0 = self@;
        self.ensure(symbol, shape);
        let ghost s1 = self@;
        proof {
            lemma_ensure_map(s0, s1, *shape, symbol@);
        }
        let ghost i = choose|i: int| 0 <= i < s1.len() && (#[trigger] s1[i]).0 == symbol@;
        self.fold(symbol, event);
        proof {
            lemma_as_map_at(s1, i);
            lemma_as_map_update(s1, i, step(s1[i].1, *event));
        }
    }

    /// Feed a list of events to `symbol`, in order; the symbol gets a state
    /// even when the list is empty.
    pub fn feed_batch(&mut self, symbol: &str, events: &Vec<Event<V>>, shape: &SpecShape)
        requires
            old(self).wf(),
        ensures
            final(self).wf(),
            as_map(final(self)@) == feed_events_map(as_map(old(self)@), *shape, symbol@, events@),
    {
        let ghost s0 = self@;
        self.ensure(symbol, shape);
        proof {
            lemma_ensure_map(s0, self@, *shape, symbol@);
            assert(events@.take(0) =~= Seq::<Event<V>>::empty());
        }
        let mut i: usize = 0;
        while i < events.len()
            invariant
                i <= events.len(),
                self.wf(),
                as_map(self@) == feed_events_map(as_map(s0), *shape, symbol@, events@.take(i as int)),
            decreases events.len() - i,
        {
            assert(events@.take(i + 1).drop_last() =~= events@.take(i as int));
            self.feed(symbol, &events[i], shape);
            i = i + 1;
        }
        assert(events@.take(events.len() as int) =~= events@);
    }
}

} // verus!
