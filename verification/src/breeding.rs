//! Making new candidates from old ones: crossover and mutation.

use crate::random::random_below;
use vstd::prelude::*;

verus! {

/// Why two candidates cannot be bred, or one cannot be changed.
#[derive(Debug, Clone, Copy, PartialEq, Eq, Structural)]
pub enum InvalidInput {
    /// The parents differ in length.
    LengthMismatch,
    /// There is no group id to draw from.
    EmptyRange,
}

/// The mother's genes before `split`, then the father's from `split` on.
pub open spec fn splice(mother: Seq<usize>, father: Seq<usize>, split: int) -> Seq<usize> {
    mother.subrange(0, split) + father.subrange(split, father.len() as int)
}

/// A copy of `genes`.
pub fn copy_of(genes: &Vec<usize>) -> (copy: Vec<usize>)
    ensures
        copy@ == genes@,
{
    genes.clone()
}

/// The child that takes the mother's genes before `split` and the father's
/// from `split` on.
pub fn cross_over_at(mother: &Vec<usize>, father: &Vec<usize>, split: usize) -> (child: Vec<usize>)
    requires
        mother.len() == father.len(),
        split <= mother.len(),
    ensures
        child@ == splice(mother@, father@, split as int),
        child.len() == mother.len(),
{
    let n: usize = mother.len();
    let mut child: Vec<usize> = Vec::new();
    let mut i: usize = 0;
    while i < n
        invariant
            i <= n,
            n == mother.len(),
            n == father.len(),
            split <= n,
            child@.len() == i,
            forall|k: int| 0 <= k < i ==> #[trigger] child@[k] == if k < split { mother@[k] } else { father@[k] },
        decreases n - i,
    {
        if i < split {
            child.push(mother[i]);
        } else {
            child.push(father[i]);
        }
        i += 1;
    }
    assert(child@ =~= splice(mother@, father@, split as int));
    child
}

/// Crosses two parents at a split point drawn uniformly from the positions
/// of a gene. Parents without genes have the child without genes.
pub fn cross_over(mother: &Vec<usize>, father: &Vec<usize>, rng: &mut rand::rngs::StdRng) -> (child:
    Result<Vec<usize>, InvalidInput>)
    ensures
        mother.len() != father.len() ==> child == Err::<Vec<usize>, InvalidInput>(InvalidInput::LengthMismatch),
        mother.len() == father.len() ==> child is Ok && exists|split: int|
            0 <= split <= mother.len() && (split < mother.len() || mother.len() == 0)
                && child->Ok_0@ == #[trigger] splice(mother@, father@, split),
        child is Ok ==> child->Ok_0@.len() == mother.len(),
        mother@ == father@ ==> child is Ok && child->Ok_0@ == mother@,
        mother.len() == 1 && father.len() == 1 ==> child is Ok && child->Ok_0@ == father@,
{
    if mother.len() != father.len() {
        return Err(InvalidInput::LengthMismatch);
    }
    let split: usize = if mother.len() == 0 {
        0
    } else {
        random_below(rng, mother.len())
    };
    let child = cross_over_at(mother, father, split);
    proof {
        if mother@ == father@ {
            lemma_crossover_with_self(mother@, split as int);
        }
        if mother.len() == 1 {
            lemma_crossover_of_single_genes(mother@, father@, split as int);
        }
    }
    Ok(child)
}

/// A candidate crossed with itself is that candidate, wherever the split falls.
pub proof fn lemma_crossover_with_self(genes: Seq<usize>, split: int)
    requires
        0 <= split <= genes.len(),
    ensures
        splice(genes, genes, split) == genes,
{
    assert(splice(genes, genes, split) =~= genes);
}

/// A child has as many genes as its parents, each taken from the same
/// position of one of them.
pub proof fn lemma_crossover_keeps_length(mother: Seq<usize>, father: Seq<usize>, split: int)
    requires
        mother.len() == father.len(),
        0 <= split <= mother.len(),
    ensures
        splice(mother, father, split).len() == mother.len(),
        forall|i: int|
            0 <= i < mother.len() ==> #[trigger] splice(mother, father, split)[i] == if i < split {
                mother[i]
            } else {
                father[i]
            },
{
}

/// Between parents of one gene the only split point is 0, and the child is
/// the father; so it is the mother as well where the two agree.
pub proof fn lemma_crossover_of_single_genes(mother: Seq<usize>, father: Seq<usize>, split: int)
    requires
        mother.len() == 1,
        father.len() == 1,
        0 <= split < 1,
    ensures
        splice(mother, father, split) == father,
        mother[0] == father[0] ==> splice(mother, father, split) == mother,
{
    assert(splice(mother, father, split) =~= father);
    if mother[0] == father[0] {
        assert(mother =~= father);
    }
}

/// A copy of `individual` with `value` at `position`.
pub fn mutate_at(individual: &Vec<usize>, position: usize, value: usize) -> (mutant: Vec<usize>)
    requires
        position < individual.len(),
    ensures
        mutant@ == individual@.update(position as int, value),
        mutant.len() == individual.len(),
{
    let mut mutant = copy_of(individual);
    mutant[position] = value;
    mutant
}

/// Replaces the gene at a position drawn uniformly by a group id drawn
/// uniformly from 0 up to `ngroups`. A candidate without genes is copied.
pub fn mutate(individual: &Vec<usize>, ngroups: usize, rng: &mut rand::rngs::StdRng) -> (mutant:
    Result<Vec<usize>, InvalidInput>)
    ensures
        ngroups == 0 ==> mutant == Err::<Vec<usize>, InvalidInput>(InvalidInput::EmptyRange),
        mutant is Ok ==> mutant->Ok_0@.len() == individual.len(),
        ngroups > 0 && individual.len() == 0 ==> mutant is Ok && mutant->Ok_0@ == individual@,
        ngroups > 0 && individual.len() > 0 ==> mutant is Ok && exists|position: int, value: usize|
            0 <= position < individual.len() && value < ngroups && mutant->Ok_0@
                == #[trigger] individual@.update(position, value),
{
    if ngroups == 0 {
        return Err(InvalidInput::EmptyRange);
    }
    if individual.len() == 0 {
        return Ok(copy_of(individual));
    }
    let position = random_below(rng, individual.len());
    let value = random_below(rng, ngroups);
    Ok(mutate_at(individual, position, value))
}

/// A mutant has the length of the candidate it was made from and differs
/// from it at no position but the mutated one, where it holds the new value.
pub proof fn lemma_mutation_changes_one_gene(genes: Seq<usize>, position: int, value: usize)
    requires
        0 <= position < genes.len(),
    ensures
        genes.update(position, value).len() == genes.len(),
        genes.update(position, value)[position] == value,
        forall|i: int|
            0 <= i < genes.len() && i != position ==> #[trigger] genes.update(position, value)[i]
                == genes[i],
{
}

} // verus!
