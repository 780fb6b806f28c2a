//! The parameters of a search, and what can be wrong with them.

use crate::histogram::MAX_TOTAL;
use crate::random::random_event;
use vstd::prelude::*;

verus! {

/// A share or a probability between 0 and 1, as a fraction.
#[derive(Debug, Clone, Copy)]
pub struct Rate {
    numer: u32,
    denom: u32,
}

impl Rate {
    #[verifier::type_invariant]
    spec fn valid(self) -> bool {
        0 < self.denom && self.numer <= self.denom
    }

    /// The numerator.
    pub closed spec fn numer(self) -> nat {
        self.numer as nat
    }

    /// The denominator.
    pub closed spec fn denom(self) -> nat {
        self.denom as nat
    }

    /// This share of `size`, rounded down.
    pub open spec fn of(self, size: nat) -> nat {
        size * self.numer() / self.denom()
    }

    /// The rate `numer / denom`, where that lies between 0 and 1.
    pub fn new(numer: u32, denom: u32) -> (rate: Option<Rate>)
        ensures
            match rate {
                Some(r) => 0 < denom && numer <= denom && r.numer() == numer && r.denom() == denom,
                None => denom == 0 || numer > denom,
            },
    {
        if denom == 0 || numer > denom {
            None
        } else {
            Some(Rate { numer, denom })
        }
    }

    /// The numerator.
    pub fn numerator(&self) -> (n: u32)
        ensures
            n == self.numer(),
            n <= self.denom(),
    {
        proof {
            use_type_invariant(self);
        }
        self.numer
    }

    /// The denominator.
    pub fn denominator(&self) -> (d: u32)
        ensures
            d == self.denom(),
            d > 0,
    {
        proof {
            use_type_invariant(self);
        }
        self.denom
    }

    /// This share of `size`, rounded down.
    pub fn apply(&self, size: usize) -> (part: usize)
        ensures
            part == self.of(size as nat),
            part <= size,
    {
        proof {
            use_type_invariant(self);
        }
        assert(size * self.numer <= 0xffff_ffff_ffff_ffff * 0xffff_ffff) by (nonlinear_arith)
            requires
                size <= 0xffff_ffff_ffff_ffff,
                self.numer <= 0xffff_ffff,
        ;
        let scaled: u128 = (size as u128) * (self.numer as u128);
        let part: u128 = scaled / (self.denom as u128);
        proof {
            let s = size as int;
            let n = self.numer as int;
            let d = self.denom as int;
            assert(0 <= s * n <= s * d) by (nonlinear_arith)
                requires
                    0 <= s,
                    0 <= n <= d,
            ;
            vstd::arithmetic::div_mod::lemma_div_is_ordered(s * n, s * d, d);
            vstd::arithmetic::div_mod::lemma_div_multiples_vanish(s, d);
        }
        part as usize
    }

    /// Decides at random, with this probability, whether an event happens.
    /// At rate 0 it never does, at rate 1 it always does.
    pub fn happens(&self, rng: &mut rand::rngs::StdRng) -> (hit: bool)
        ensures
            self.numer() == 0 ==> !hit,
            self.numer() == self.denom() ==> hit,
    {
        proof {
            use_type_invariant(self);
        }
        random_event(rng, self.numer, self.denom)
    }
}

/// The fixed parameters of a search.
#[derive(Debug, Clone, Copy)]
pub struct Parameters {
    /// The number of candidate groupings in every generation.
    pub population_size: usize,
    /// The number of groups; group ids run from 0 up to it.
    pub ngroups: usize,
    /// How often a child is crossed from two parents.
    pub crossover_rate: Rate,
    /// How often a child is mutated.
    pub mutation_rate: Rate,
    /// The share of a generation that breeds the next.
    pub survival_rate: Rate,
}

impl Parameters {
    /// Parameters with a crossover rate of 85%, a mutation rate of 15% and a
    /// survival rate of 20%.
    pub fn new(population_size: usize, ngroups: usize) -> (params: Parameters)
        ensures
            params.population_size == population_size,
            params.ngroups == ngroups,
            params.crossover_rate.numer() == 85 && params.crossover_rate.denom() == 100,
            params.mutation_rate.numer() == 15 && params.mutation_rate.denom() == 100,
            params.survival_rate.numer() == 1 && params.survival_rate.denom() == 5,
    {
        Parameters {
            population_size,
            ngroups,
            crossover_rate: Rate { numer: 85, denom: 100 },
            mutation_rate: Rate { numer: 15, denom: 100 },
            survival_rate: Rate { numer: 1, denom: 5 },
        }
    }

    /// The number of candidates that survive a generation.
    pub open spec fn survivors(self) -> nat {
        self.survival_rate.of(self.population_size as nat)
    }

    /// What is wrong with these parameters for `records` records, if anything.
    pub open spec fn fault(self, records: nat) -> Option<ConfigurationError> {
        if self.ngroups <= 1 {
            Some(ConfigurationError::TooFewGroups)
        } else if self.population_size == 0 {
            Some(ConfigurationError::EmptyPopulation)
        } else if self.survivors() == 0 {
            Some(ConfigurationError::NoSurvivors)
        } else if records == 0 {
            Some(ConfigurationError::NoRecords)
        } else if records > MAX_TOTAL {
            Some(ConfigurationError::TooManyRecords)
        } else {
            None
        }
    }

    /// Checks these parameters for `records` records.
    pub fn check(&self, records: usize) -> (found: Option<ConfigurationError>)
        ensures
            found == self.fault(records as nat),
    {
        if self.ngroups <= 1 {
            Some(ConfigurationError::TooFewGroups)
        } else if self.population_size == 0 {
            Some(ConfigurationError::EmptyPopulation)
        } else if self.survival_rate.apply(self.population_size) == 0 {
            Some(ConfigurationError::NoSurvivors)
        } else if records == 0 {
            Some(ConfigurationError::NoRecords)
        } else if records > MAX_TOTAL {
            Some(ConfigurationError::TooManyRecords)
        } else {
            None
        }
    }
}

/// Why a search cannot start.
#[derive(Debug, Clone, Copy, PartialEq, Eq, Structural)]
pub enum ConfigurationError {
    /// Fewer than two groups.
    TooFewGroups,
    /// A population of no candidates.
    EmptyPopulation,
    /// The survival rate leaves no candidate to breed from.
    NoSurvivors,
    /// No records to group.
    NoRecords,
    /// More records than scores are computed for.
    TooManyRecords,
}

} // verus!
