//! The streaming radar: a spec and the universe of symbol states fed so far.
use vstd::prelude::*;

use crate::batch::{feed_events_map, feed_map};
use crate::error::Error;
use crate::event::Event;
use crate::spec::{spec_problem, validation_outcome, SpecShape};
use crate::symbol_state::StateView;
use crate::universe::{as_map, keys_sorted, Universe};

verus! {

/// A radar over a fixed spec, holding the streaming universe of fed events.
pub struct Radar<V> {
    shape: SpecShape,
    universe: Universe<V>,
}

impl<V> Radar<V> {
    /// The universe is always well formed: symbols in order, states sound.
    #[verifier::type_invariant]
    spec fn universe_sound(&self) -> bool {
        self.universe.wf()
    }

    /// The spec the radar runs.
    pub closed spec fn spec_shape(&self) -> SpecShape {
        self.shape
    }

    /// The symbols fed so far and their states, in symbol order.
    pub closed spec fn states(&self) -> Seq<(Seq<char>, StateView<V>)> {
        self.universe@
    }
}

impl<V: Copy> Radar<V> {
    /// Build a radar over `shape`, which is validated: an invalid spec is the
    /// validation error.
    pub fn new(shape: SpecShape) -> (r: Result<Self, Error>)
        ensures
            match spec_problem(shape) {
                None => r matches Ok(radar) && radar.spec_shape() == shape && radar.states()
                    == Seq::<(Seq<char>, StateView<V>)>::empty(),
                Some(m) => r matches Err(Error::BadSpec(msg)) && msg@ == m,
            },
    {
        match shape.validate() {
            Err(e) => Err(e),
            Ok(()) => Ok(Radar { shape, universe: Universe::new() }),
        }
    }

    /// The crate version string.
    pub fn version() -> (v: &'static str)
        ensures
            v@ == "0.1.4"@,
    {
        crate::command::version()
    }

    /// Replace the spec and clear the streaming universe (state sizing changes
    /// with the spec).
    pub fn set_spec(&mut self, shape: SpecShape)
        ensures
            final(self).spec_shape() == shape,
            final(self).states() == Seq::<(Seq<char>, StateView<V>)>::empty(),
    {
        proof {
            use_type_invariant(&*self);
        }
        self.universe = Universe::new();
        self.shape = shape;
    }

    /// Validate `shape`, then make it the spec and clear the streaming
    /// universe; an invalid spec leaves the radar as it was.
    pub fn replace_spec(&mut self, shape: SpecShape) -> (r: Result<(), Error>)
        ensures
            validation_outcome(r, spec_problem(shape)),
            r is Ok ==> final(self).spec_shape() == shape && final(self).states() == Seq::<
                (Seq<char>, StateView<V>),
            >::empty(),
            r is Err ==> final(self).spec_shape() == old(self).spec_shape() && final(self).states()
                == old(self).states(),
    {
        match shape.validate() {
            Err(e) => Err(e),
            Ok(()) => {
                self.set_spec(shape);
                Ok(())
            },
        }
    }

    /// Feed one event for a symbol into the streaming universe. Never fails;
    /// the `Result` keeps the command surface uniform.
    pub fn feed(&mut self, symbol: &str, event: &Event<V>) -> (r: Result<(), Error>)
        ensures
            r is Ok,
            final(self).spec_shape() == old(self).spec_shape(),
            keys_sorted(final(self).states()),
            as_map(final(self).states()) == feed_map(
                as_map(old(self).states()),
                old(self).spec_shape(),
                symbol@,
                *event,
            ),
    {
        proof {
            use_type_invariant(&*self);
        }
        let mut u = Universe::new();
        std::mem::swap(&mut u, &mut self.universe);
        u.feed(symbol, event, &self.shape);
        self.universe = u;
        Ok(())
    }

    /// Feed a list of events for a symbol, in order; the symbol gets a state
    /// even when the list is empty, as a batch scan would give it.
    pub fn feed_batch(&mut self, symbol: &str, events: &Vec<Event<V>>) -> (r: Result<(), Error>)
        ensures
            r is Ok,
            final(self).spec_shape() == old(self).spec_shape(),
            keys_sorted(final(self).states()),
            as_map(final(self).states()) == feed_events_map(
                as_map(old(self).states()),
                old(self).spec_shape(),
                symbol@,
                events@,
            ),
    {
        proof {
            use_type_invariant(&*self);
        }
        let mut u = Universe::new();
        std::mem::swap(&mut u, &mut self.universe);
        u.feed_batch(symbol, events, &self.shape);
        self.universe = u;
        Ok(())
    }

    /// Clear the streaming universe, keeping the spec.
    pub fn reset(&mut self)
        ensures
            final(self).spec_shape() == old(self).spec_shape(),
            final(self).states() == Seq::<(Seq<char>, StateView<V>)>::empty(),
    {
        self.universe = Universe::new();
    }

    /// Validate the spec before a report is made of the streaming state.
    pub fn check_spec(&self) -> (r: Result<(), Error>)
        ensures
            validation_outcome(r, spec_problem(self.spec_shape())),
    {
        self.shape.validate()
    }

    /// The spec the radar runs.
    pub fn shape(&self) -> (s: &SpecShape)
        ensures
            *s == self.spec_shape(),
    {
        &self.shape
    }

    /// The streaming universe.
    pub fn universe(&self) -> (u: &Universe<V>)
        ensures
            u@ == self.states(),
            u.wf(),
    {
        proof {
            use_type_invariant(self);
        }
        &self.universe
    }
}

} // verus!
