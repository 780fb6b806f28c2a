//! One generation of candidates, and the step to the next.

use crate::breeding::{copy_of, cross_over_at, mutate_at, splice};
use crate::fitness::{fitness, fitness_of, whole_profile, FitnessStrategy, Ideal};
use crate::histogram::UNIT;
use crate::params::{ConfigurationError, Parameters};
use crate::random::random_below;
use crate::record::Badger;
use crate::selection::{chosen, is_ranking, rows};
use vstd::prelude::*;

verus! {

/// What chance decides about one child: its mother; whether it is crossed,
/// and then with which father and where; whether it is mutated, and then
/// where and to which group id.
#[derive(Debug, Clone, Copy)]
pub struct Draw {
    pub mother: usize,
    pub crossover: Option<(usize, usize)>,
    pub mutation: Option<(usize, usize)>,
}

impl Draw {
    /// Whether the draw names parents among `survivors` candidates, positions
    /// among `genes` genes and a group id below `ngroups`.
    pub open spec fn fits(self, survivors: nat, genes: nat, ngroups: nat) -> bool {
        &&& self.mother < survivors
        &&& match self.crossover {
            Some((father, split)) => father < survivors && split < genes,
            None => true,
        }
        &&& match self.mutation {
            Some((position, value)) => position < genes && value < ngroups,
            None => true,
        }
    }

    /// Whether the draw is one that the rates allow: at rate 0 a step is
    /// never taken, at rate 1 always.
    pub open spec fn allowed(self, params: Parameters) -> bool {
        &&& params.crossover_rate.numer() == 0 ==> self.crossover is None
        &&& params.crossover_rate.numer() == params.crossover_rate.denom() ==> self.crossover is Some
        &&& params.mutation_rate.numer() == 0 ==> self.mutation is None
        &&& params.mutation_rate.numer() == params.mutation_rate.denom() ==> self.mutation is Some
    }
}

/// The child that `draw` makes of `survivors`: the mother, or her crossing
/// with the father, and then the mutation of that.
pub open spec fn bred(survivors: Seq<Seq<usize>>, draw: Draw) -> Seq<usize> {
    let base = match draw.crossover {
        Some((father, split)) => splice(
            survivors[draw.mother as int],
            survivors[father as int],
            split as int,
        ),
        None => survivors[draw.mother as int],
    };
    match draw.mutation {
        Some((position, value)) => base.update(position as int, value),
        None => base,
    }
}

/// Whether `child` can be bred from `survivors` under `params`: by a draw
/// that fits them and that the rates allow.
pub open spec fn bred_from(
    survivors: Seq<Seq<usize>>,
    child: Seq<usize>,
    params: Parameters,
    genes: nat,
) -> bool {
    exists|draw: Draw|
        draw.fits(survivors.len(), genes, params.ngroups as nat) && draw.allowed(params) && child
            == #[trigger] bred(survivors, draw)
}

/// A row of `genes` group ids below `ngroups`.
pub open spec fn valid_row(row: Seq<usize>, genes: nat, ngroups: nat) -> bool {
    &&& row.len() == genes
    &&& forall|j: int| 0 <= j < row.len() ==> #[trigger] row[j] < ngroups
}

/// A child of valid rows is a valid row.
pub proof fn lemma_bred_is_valid(survivors: Seq<Seq<usize>>, draw: Draw, genes: nat, ngroups: nat)
    requires
        draw.fits(survivors.len(), genes, ngroups),
        forall|i: int| 0 <= i < survivors.len() ==> valid_row(#[trigger] survivors[i], genes, ngroups),
    ensures
        valid_row(bred(survivors, draw), genes, ngroups),
{
    let mother = survivors[draw.mother as int];
    assert(valid_row(mother, genes, ngroups));
    let base = match draw.crossover {
        Some((father, split)) => splice(mother, survivors[father as int], split as int),
        None => mother,
    };
    match draw.crossover {
        Some((father, split)) => {
            assert(valid_row(survivors[father as int], genes, ngroups));
            crate::breeding::lemma_crossover_keeps_length(
                mother,
                survivors[father as int],
                split as int,
            );
        },
        None => {},
    }
    assert(valid_row(base, genes, ngroups));
}

/// Makes the child that `draw` describes.
pub fn breed(survivors: &Vec<Vec<usize>>, draw: &Draw) -> (child: Vec<usize>)
    requires
        draw.mother < survivors.len(),
        forall|i: int|
            0 <= i < survivors@.len() ==> (#[trigger] survivors@[i])@.len()
                == survivors@[draw.mother as int]@.len(),
        match draw.crossover {
            Some((father, split)) => father < survivors.len() && split
                <= survivors@[draw.mother as int]@.len(),
            None => true,
        },
        match draw.mutation {
            Some((position, value)) => position < survivors@[draw.mother as int]@.len(),
            None => true,
        },
    ensures
        child@ == bred(rows(survivors@), *draw),
        child.len() == survivors@[draw.mother as int]@.len(),
{
    let base = match draw.crossover {
        Some((father, split)) => cross_over_at(&survivors[draw.mother], &survivors[father], split),
        None => copy_of(&survivors[draw.mother]),
    };
    match draw.mutation {
        Some((position, value)) => mutate_at(&base, position, value),
        None => base,
    }
}

fn draw_child(rng: &mut rand::rngs::StdRng, survivors: usize, genes: usize, params: &Parameters) -> (draw:
    Draw)
    requires
        survivors > 0,
        genes > 0,
        params.ngroups > 0,
    ensures
        draw.fits(survivors as nat, genes as nat, params.ngroups as nat),
        draw.allowed(*params),
{
    let mother = random_below(rng, survivors);
    let crossover = if params.crossover_rate.happens(rng) {
        let father = random_below(rng, survivors);
        let split = random_below(rng, genes);
        Some((father, split))
    } else {
        None
    };
    let mutation = if params.mutation_rate.happens(rng) {
        let position = random_below(rng, genes);
        let value = random_below(rng, params.ngroups);
        Some((position, value))
    } else {
        None
    };
    Draw { mother, crossover, mutation }
}

/// The current population of a search, with all that scores it.
pub struct Generation<'a> {
    /// The candidates: each holds one group id for every record.
    pub population: Vec<Vec<usize>>,
    pub params: Parameters,
    pub strategy: FitnessStrategy,
    pub ideal: Ideal,
    pub badgers: &'a Vec<Badger>,
}

impl<'a> Generation<'a> {
    /// The parameters are sound for the records, the reference is that of
    /// the records, and every candidate assigns every record a group id
    /// below the number of groups.
    pub open spec fn wf(&self) -> bool {
        &&& self.params.fault(self.badgers@.len()) is None
        &&& self.population@.len() == self.params.population_size
        &&& self.ideal.wf()
        &&& self.ideal@.profile == whole_profile(self.badgers@, self.badgers@.len())
        &&& self.ideal@.size == UNIT * self.badgers@.len() / (self.params.ngroups as int)
        &&& forall|i: int|
            0 <= i < self.population@.len() ==> valid_row(
                (#[trigger] self.population@[i])@,
                self.badgers@.len(),
                self.params.ngroups as nat,
            )
    }

    /// The score of every candidate.
    pub open spec fn scores(&self) -> Seq<i128> {
        Seq::new(
            self.population@.len(),
            |i: int| fitness_of(self.strategy, self.population@[i]@, self.badgers@, self.ideal@) as i128,
        )
    }

    /// Whether `best` are the survivors of this generation: its best
    /// candidates, best first, as many as the survival rate leaves.
    pub open spec fn selects(&self, best: Seq<Seq<usize>>) -> bool {
        exists|order: Seq<usize>|
            is_ranking(order, self.scores(), self.strategy.lower_first()) && best == #[trigger] chosen(
                rows(self.population@),
                order,
                self.params.survivors(),
            )
    }

    /// A first generation of candidates whose group ids are drawn uniformly
    /// from 0 up to the number of groups.
    pub fn new(
        params: Parameters,
        strategy: FitnessStrategy,
        badgers: &'a Vec<Badger>,
        rng: &mut rand::rngs::StdRng,
    ) -> (made: Result<Generation<'a>, ConfigurationError>)
        ensures
            match made {
                Ok(generation) => {
                    &&& params.fault(badgers@.len()) is None
                    &&& generation.wf()
                    &&& generation.params == params
                    &&& generation.strategy == strategy
                    &&& generation.badgers == badgers
                },
                Err(error) => params.fault(badgers@.len()) == Some(error),
            },
    {
        match params.check(badgers.len()) {
            Some(error) => {
                return Err(error);
            },
            None => {},
        }
        let genes: usize = badgers.len();
        let ideal = Ideal::new(badgers, params.ngroups);
        let mut population: Vec<Vec<usize>> = Vec::new();
        let mut i: usize = 0;
        while i < params.population_size
            invariant
                i <= params.population_size,
                genes == badgers@.len(),
                params.ngroups > 1,
                population@.len() == i,
                forall|k: int|
                    0 <= k < population@.len() ==> valid_row(
                        (#[trigger] population@[k])@,
                        genes as nat,
                        params.ngroups as nat,
                    ),
            decreases params.population_size - i,
        {
            let mut row: Vec<usize> = Vec::new();
            let mut j: usize = 0;
            while j < genes
                invariant
                    j <= genes,
                    params.ngroups > 1,
                    row@.len() == j,
                    forall|l: int| 0 <= l < row@.len() ==> #[trigger] row@[l] < params.ngroups,
                decreases genes - j,
            {
                row.push(random_below(rng, params.ngroups));
                j += 1;
            }
            population.push(row);
            i += 1;
        }
        Ok(Generation { population, params, strategy, ideal, badgers })
    }

    /// The score of every candidate, in the order of the population.
    pub fn score_all(&self) -> (scores: Vec<i128>)
        requires
            self.wf(),
        ensures
            scores@ == self.scores(),
    {
        let n: usize = self.population.len();
        let mut scores: Vec<i128> = Vec::new();
        let mut i: usize = 0;
        while i < n
            invariant
                i <= n,
                n == self.population@.len(),
                self.wf(),
                scores@.len() == i,
                forall|k: int| 0 <= k < i ==> #[trigger] scores@[k] == self.scores()[k],
            decreases n - i,
        {
            assert(valid_row(self.population@[i as int]@, self.badgers@.len(), self.params.ngroups as nat));
            let score = fitness(self.strategy, &self.population[i], self.badgers, &self.ideal);
            scores.push(score);
            i += 1;
        }
        assert(scores@ =~= self.scores());
        scores
    }

    /// The survivors: the best candidates, best first, as many as the
    /// survival rate leaves. Of two candidates with the same score the one
    /// that stands first in the population comes first.
    pub fn fittest(&self) -> (best: Vec<Vec<usize>>)
        requires
            self.wf(),
        ensures
            best.len() == self.params.survivors(),
            1 <= best.len() <= self.population.len(),
            self.selects(rows(best@)),
            forall|k: int|
                0 <= k < best@.len() ==> valid_row(
                    (#[trigger] best@[k])@,
                    self.badgers@.len(),
                    self.params.ngroups as nat,
                ),
    {
        let scores = self.score_all();
        let count = self.params.survival_rate.apply(self.population.len());
        let order = crate::selection::rank(&scores, self.strategy.lower_is_better());
        let best = crate::selection::select(&self.population, &order, count);
        proof {
            let picked = chosen(rows(self.population@), order@, count as nat);
            assert(rows(best@) == picked);
            assert(rows(best@).len() == count);
            assert forall|k: int| 0 <= k < best@.len() implies valid_row(
                (#[trigger] best@[k])@,
                self.badgers@.len(),
                self.params.ngroups as nat,
            ) by {
                assert(rows(best@)[k] == best@[k]@);
                assert(picked[k] == rows(self.population@)[order@[k] as int]);
                assert(order@[k] < scores@.len());
                assert(valid_row(
                    self.population@[order@[k] as int]@,
                    self.badgers@.len(),
                    self.params.ngroups as nat,
                ));
            }
        }
        best
    }

    /// The next generation: every one of its candidates is bred from the
    /// survivors of this one. A mother is drawn among them; at the crossover
    /// rate she is crossed with a father drawn likewise; at the mutation
    /// rate one gene of the child is then drawn anew.
    pub fn next_gen(self, rng: &mut rand::rngs::StdRng) -> (next: Generation<'a>)
        requires
            self.wf(),
        ensures
            next.wf(),
            next.params == self.params,
            next.strategy == self.strategy,
            next.ideal == self.ideal,
            next.badgers == self.badgers,
            next.population@.len() == self.population@.len(),
            exists|survivors: Seq<Seq<usize>>| #[trigger]
                self.selects(survivors) && forall|k: int|
                    0 <= k < next.population@.len() ==> bred_from(
                        survivors,
                        (#[trigger] next.population@[k])@,
                        self.params,
                        self.badgers@.len(),
                    ),
    {
        let size: usize = self.population.len();
        let genes: usize = self.badgers.len();
        let best = self.fittest();
        let ghost survivors = rows(best@);
        let mut population: Vec<Vec<usize>> = Vec::new();
        let mut i: usize = 0;
        while i < size
            invariant
                i <= size,
                self.wf(),
                genes == self.badgers@.len(),
                genes > 0,
                survivors == rows(best@),
                best@.len() >= 1,
                forall|k: int|
                    0 <= k < best@.len() ==> valid_row(
                        (#[trigger] best@[k])@,
                        genes as nat,
                        self.params.ngroups as nat,
                    ),
                population@.len() == i,
                forall|k: int|
                    0 <= k < population@.len() ==> valid_row(
                        (#[trigger] population@[k])@,
                        genes as nat,
                        self.params.ngroups as nat,
                    ),
                forall|k: int|
                    0 <= k < population@.len() ==> bred_from(
                        survivors,
                        (#[trigger] population@[k])@,
                        self.params,
                        genes as nat,
                    ),
            decreases size - i,
        {
            let draw = draw_child(rng, best.len(), genes, &self.params);
            proof {
                assert forall|k: int| 0 <= k < survivors.len() implies valid_row(
                    #[trigger] survivors[k],
                    genes as nat,
                    self.params.ngroups as nat,
                ) by {
                    assert(survivors[k] == best@[k]@);
                }
                assert(valid_row(best@[draw.mother as int]@, genes as nat, self.params.ngroups as nat));
                lemma_bred_is_valid(survivors, draw, genes as nat, self.params.ngroups as nat);
            }
            let child = breed(&best, &draw);
            assert(bred_from(survivors, child@, self.params, genes as nat));
            population.push(child);
            i += 1;
        }
        assert(self.selects(survivors));
        Generation {
            population,
            params: self.params,
            strategy: self.strategy,
            ideal: self.ideal,
            badgers: self.badgers,
        }
    }
}

} // verus!
