//! Stagnation tracking of an evolution: the best fitness of the last
//! generations is kept in a window, and a full window that shows too
//! little improvement counts as stagnant; enough stagnant windows in a row
//! call for a restart.
//!
//! Fitness values are kept by their bit patterns; whether a window shows
//! enough improvement is judged by the caller on the values themselves.

use vstd::prelude::*;
use crate::population::GeneticAlgorithmConfig;

verus! {

/// How many generations the window holds, and how many stagnant windows in
/// a row call for a restart.
pub const STAGNATION_THRESHOLD: usize = 10;

/// The window after a new entry: the last `threshold` entries.
pub open spec fn window(s: Seq<u64>, threshold: nat) -> Seq<u64> {
    if s.len() > threshold {
        s.drop_first()
    } else {
        s
    }
}

/// Tracks how long the best fitness has stagnated.
pub struct EvolutionManager {
    config: GeneticAlgorithmConfig,
    stagnation_threshold: usize,
    stagnation_counter: usize,
    best_fitness_history: Vec<u64>,
}

impl EvolutionManager {
    #[verifier::type_invariant]
    spec fn window_fits(&self) -> bool {
        &&& self.best_fitness_history@.len() <= self.stagnation_threshold
        &&& self.stagnation_threshold == STAGNATION_THRESHOLD
    }

    /// The settings the manager was made with.
    pub closed spec fn settings(&self) -> GeneticAlgorithmConfig {
        self.config
    }

    /// The number of stagnant windows in a row.
    pub closed spec fn counter(&self) -> nat {
        self.stagnation_counter as nat
    }

    /// The bit patterns of the best fitness of the last generations, oldest
    /// first.
    pub closed spec fn history(&self) -> Seq<u64> {
        self.best_fitness_history@
    }

    pub fn new(config: GeneticAlgorithmConfig) -> (r: Self)
        ensures
            r.settings() == config,
            r.counter() == 0,
            r.history() == Seq::<u64>::empty(),
    {
        EvolutionManager {
            config,
            stagnation_threshold: STAGNATION_THRESHOLD,
            stagnation_counter: 0,
            best_fitness_history: Vec::new(),
        }
    }

    /// Whether to restart: when restarts on stagnation are on and the
    /// threshold of stagnant windows in a row is reached.
    pub fn should_restart(&self) -> (r: bool)
        ensures
            r == (self.settings().restart_on_stagnation && self.counter() >= STAGNATION_THRESHOLD),
    {
        proof {
            use_type_invariant(self);
        }
        if self.config.restart_on_stagnation {
            self.stagnation_counter >= self.stagnation_threshold
        } else {
            false
        }
    }

    /// Records the best fitness of a generation, by its bit pattern, in the
    /// window of the last generations; once the window is full, returns its
    /// oldest and newest entries, from which the caller judges whether it
    /// is stagnant.
    pub fn record_best_fitness(&mut self, best_fitness_bits: u64) -> (r: Option<(u64, u64)>)
        ensures
            final(self).history() == window(old(self).history().push(best_fitness_bits), STAGNATION_THRESHOLD as nat),
            final(self).history().len() <= STAGNATION_THRESHOLD,
            final(self).counter() == old(self).counter(),
            final(self).settings() == old(self).settings(),
            r == if final(self).history().len() >= STAGNATION_THRESHOLD {
                Some((final(self).history()[0], final(self).history().last()))
            } else {
                None::<(u64, u64)>
            },
    {
        proof {
            use_type_invariant(&*self);
        }
        let mut h = self.best_fitness_history.clone();
        assert(h@ == old(self).history());
        h.push(best_fitness_bits);
        if h.len() > self.stagnation_threshold {
            h.remove(0);
            assert(h@ =~= old(self).history().push(best_fitness_bits).drop_first());
        }
        let n = h.len();
        let r = if n >= self.stagnation_threshold {
            Some((h[0], h[n - 1]))
        } else {
            None
        };
        self.best_fitness_history = h;
        r
    }

    /// Counts a full window: one more stagnant window in a row, or none
    /// when the window improved.
    pub fn count_stagnation(&mut self, stagnant: bool)
        requires
            stagnant ==> old(self).counter() < usize::MAX,
        ensures
            final(self).counter() == if stagnant {
                old(self).counter() + 1
            } else {
                0
            },
            final(self).history() == old(self).history(),
            final(self).settings() == old(self).settings(),
    {
        proof {
            use_type_invariant(&*self);
        }
        if stagnant {
            self.stagnation_counter = self.stagnation_counter + 1;
        } else {
            self.stagnation_counter = 0;
        }
    }

    /// Starts afresh: no stagnant window and an empty window.
    pub fn reset_stagnation(&mut self)
        ensures
            final(self).counter() == 0,
            final(self).history() == Seq::<u64>::empty(),
            final(self).settings() == old(self).settings(),
    {
        proof {
            use_type_invariant(&*self);
        }
        self.stagnation_counter = 0;
        self.best_fitness_history = Vec::new();
    }

    /// The number of stagnant windows in a row.
    pub fn stagnation_counter(&self) -> (r: usize)
        ensures
            r == self.counter(),
    {
        self.stagnation_counter
    }

    /// The number of stagnant windows that calls for a restart.
    pub fn stagnation_threshold(&self) -> (r: usize)
        ensures
            r == STAGNATION_THRESHOLD,
    {
        proof {
            use_type_invariant(self);
        }
        self.stagnation_threshold
    }

    /// The bit patterns of the best fitness in the window, oldest first.
    pub fn best_fitness_history(&self) -> (r: &[u64])
        ensures
            r@ == self.history(),
    {
        self.best_fitness_history.as_slice()
    }
}

/// A window that held no more than `threshold` entries, after a new entry:
/// the new entry is its newest, it holds the last `threshold` entries (all
/// of them when there are no more), oldest first.
pub proof fn law_window_keeps_latest(s: Seq<u64>, x: u64, threshold: nat)
    requires
        0 < threshold,
        s.len() <= threshold,
    ensures
        window(s.push(x), threshold).last() == x,
        window(s.push(x), threshold).len() == if s.len() < threshold {
            s.len() + 1
        } else {
            threshold
        },
        window(s.push(x), threshold) == s.push(x).skip(s.push(x).len() - window(s.push(x), threshold).len()),
{
    let w = window(s.push(x), threshold);
    assert(w =~= s.push(x).skip(s.push(x).len() - w.len()));
}

} // verus!
