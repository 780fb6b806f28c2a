//! Ranking candidates by score and keeping the best of them.

use crate::breeding::copy_of;
use vstd::prelude::*;
use vstd::set_lib::{lemma_int_range, lemma_len_subset, lemma_subset_equality, set_int_range};

verus! {

/// Whether the candidate with index `i` comes before the one with index `j`:
/// the better score first, and of two equal scores the lower index.
pub open spec fn precedes(scores: Seq<i128>, lower_first: bool, i: int, j: int) -> bool {
    if scores[i] == scores[j] {
        i < j
    } else if lower_first {
        scores[i] < scores[j]
    } else {
        scores[i] > scores[j]
    }
}

/// Whether `order` lists the indices of `scores` from the best to the worst.
/// There is exactly one such list.
pub open spec fn is_ranking(order: Seq<usize>, scores: Seq<i128>, lower_first: bool) -> bool {
    &&& order.len() == scores.len()
    &&& forall|k: int| 0 <= k < order.len() ==> #[trigger] order[k] < scores.len()
    &&& forall|k: int, l: int|
        0 <= k < l < order.len() ==> precedes(
            scores,
            lower_first,
            #[trigger] order[k] as int,
            #[trigger] order[l] as int,
        )
}

/// Every index stands somewhere in a ranking.
pub proof fn lemma_ranking_covers(order: Seq<usize>, scores: Seq<i128>, lower_first: bool, index: int)
    requires
        is_ranking(order, scores, lower_first),
        0 <= index < scores.len(),
    ensures
        exists|k: int| 0 <= k < order.len() && #[trigger] order[k] == index,
{
    let ints = Seq::new(order.len(), |k: int| order[k] as int);
    assert forall|i: int, j: int|
        0 <= i < ints.len() && 0 <= j < ints.len() && i != j implies ints[i] != ints[j] by {
        if i < j {
            assert(precedes(scores, lower_first, order[i] as int, order[j] as int));
        } else {
            assert(precedes(scores, lower_first, order[j] as int, order[i] as int));
        }
    }
    ints.unique_seq_to_set();
    let range = set_int_range(0, scores.len() as int);
    lemma_int_range(0, scores.len() as int);
    assert forall|x: int| ints.to_set().contains(x) implies range.contains(x) by {
        let k = choose|k: int| 0 <= k < ints.len() && ints[k] == x;
        assert(order[k] < scores.len());
    }
    lemma_len_subset(ints.to_set(), range);
    lemma_subset_equality(ints.to_set(), range);
    assert(range.contains(index));
    assert(ints.to_set().contains(index));
    let k = choose|k: int| 0 <= k < ints.len() && ints[k] == index;
    assert(order[k] == index);
}

proof fn lemma_rankings_agree_upto(
    a: Seq<usize>,
    b: Seq<usize>,
    scores: Seq<i128>,
    lower_first: bool,
    n: nat,
)
    requires
        is_ranking(a, scores, lower_first),
        is_ranking(b, scores, lower_first),
        n <= scores.len(),
    ensures
        forall|k: int| 0 <= k < n ==> a[k] == b[k],
    decreases n,
{
    if n > 0 {
        lemma_rankings_agree_upto(a, b, scores, lower_first, (n - 1) as nat);
        let k = n - 1;
        if a[k] != b[k] {
            lemma_ranking_covers(b, scores, lower_first, a[k] as int);
            let l = choose|l: int| 0 <= l < b.len() && #[trigger] b[l] == a[k];
            if l < k {
                assert(a[l] == b[l]);
                assert(precedes(scores, lower_first, a[l] as int, a[k] as int));
            }
            assert(precedes(scores, lower_first, b[k] as int, b[l] as int));
            lemma_ranking_covers(a, scores, lower_first, b[k] as int);
            let m = choose|m: int| 0 <= m < a.len() && #[trigger] a[m] == b[k];
            if m < k {
                assert(a[m] == b[m]);
                assert(precedes(scores, lower_first, b[m] as int, b[k] as int));
            }
            assert(precedes(scores, lower_first, a[k] as int, a[m] as int));
        }
    }
}

/// Scores have one ranking only: the order of the candidates is fixed by
/// their scores and their places.
pub proof fn lemma_ranking_is_unique(
    a: Seq<usize>,
    b: Seq<usize>,
    scores: Seq<i128>,
    lower_first: bool,
)
    requires
        is_ranking(a, scores, lower_first),
        is_ranking(b, scores, lower_first),
    ensures
        a == b,
{
    lemma_rankings_agree_upto(a, b, scores, lower_first, scores.len());
    assert(a =~= b);
}

/// Group ids as scores, so that records can be ranked by group.
pub open spec fn as_scores(ids: Seq<usize>) -> Seq<i128> {
    Seq::new(ids.len(), |i: int| ids[i] as i128)
}

/// The rows of a population, as plain sequences.
pub open spec fn rows(population: Seq<Vec<usize>>) -> Seq<Seq<usize>> {
    Seq::new(population.len(), |i: int| population[i]@)
}

/// The first `count` rows in the order `order`.
pub open spec fn chosen(population: Seq<Seq<usize>>, order: Seq<usize>, count: nat) -> Seq<
    Seq<usize>,
> {
    Seq::new(count, |k: int| population[order[k] as int])
}

fn better(scores: &Vec<i128>, lower_first: bool, i: usize, j: usize) -> (b: bool)
    requires
        i < scores.len(),
        j < scores.len(),
    ensures
        b == (if lower_first {
            scores@[i as int] < scores@[j as int]
        } else {
            scores@[i as int] > scores@[j as int]
        }),
{
    if lower_first {
        scores[i] < scores[j]
    } else {
        scores[i] > scores[j]
    }
}

/// The indices of `scores` from the best to the worst; equal scores keep
/// their order.
pub fn rank(scores: &Vec<i128>, lower_first: bool) -> (order: Vec<usize>)
    ensures
        is_ranking(order@, scores@, lower_first),
{
    let n: usize = scores.len();
    let mut order: Vec<usize> = Vec::new();
    let mut i: usize = 0;
    while i < n
        invariant
            i <= n,
            n == scores.len(),
            order@.len() == i,
            forall|k: int| 0 <= k < order@.len() ==> #[trigger] order@[k] < i,
            forall|k: int, l: int|
                0 <= k < l < order@.len() ==> precedes(
                    scores@,
                    lower_first,
                    #[trigger] order@[k] as int,
                    #[trigger] order@[l] as int,
                ),
        decreases n - i,
    {
        let mut p: usize = 0;
        while p < order.len() && !better(scores, lower_first, i, order[p])
            invariant
                p <= order@.len(),
                i < n,
                n == scores.len(),
                order@.len() == i,
                forall|k: int| 0 <= k < order@.len() ==> #[trigger] order@[k] < i,
                forall|k: int|
                    0 <= k < p ==> precedes(scores@, lower_first, #[trigger] order@[k] as int, i as int),
            decreases order@.len() - p,
        {
            p += 1;
        }
        let ghost before = order@;
        order.insert(p, i);
        proof {
            assert forall|k: int, l: int| 0 <= k < l < order@.len() implies precedes(
                scores@,
                lower_first,
                #[trigger] order@[k] as int,
                #[trigger] order@[l] as int,
            ) by {
                if l < p {
                    assert(order@[k] == before[k] && order@[l] == before[l]);
                } else if l == p {
                    assert(order@[k] == before[k]);
                } else if k < p {
                    assert(order@[k] == before[k] && order@[l] == before[l - 1]);
                } else if k == p {
                    assert(order@[l] == before[l - 1]);
                    if l - 1 > p {
                        assert(precedes(scores@, lower_first, before[p as int] as int, before[l - 1] as int));
                    }
                } else {
                    assert(order@[k] == before[k - 1] && order@[l] == before[l - 1]);
                }
            }
            assert forall|k: int| 0 <= k < order@.len() implies #[trigger] order@[k] < i + 1 by {
                if k < p {
                    assert(order@[k] == before[k]);
                } else if k > p {
                    assert(order@[k] == before[k - 1]);
                }
            }
        }
        i += 1;
    }
    order
}

/// The records in the order of their group ids; the members of one group
/// keep their order.
pub fn by_group(solution: &Vec<usize>) -> (order: Vec<usize>)
    ensures
        is_ranking(order@, as_scores(solution@), true),
{
    let n: usize = solution.len();
    let mut ids: Vec<i128> = Vec::new();
    let mut i: usize = 0;
    while i < n
        invariant
            i <= n,
            n == solution.len(),
            ids@.len() == i,
            forall|k: int| 0 <= k < i ==> #[trigger] ids@[k] == solution@[k] as i128,
        decreases n - i,
    {
        ids.push(solution[i] as i128);
        i += 1;
    }
    assert(ids@ =~= as_scores(solution@));
    rank(&ids, true)
}

/// Copies of the first `count` rows of `population` in the order `order`.
pub fn select(population: &Vec<Vec<usize>>, order: &Vec<usize>, count: usize) -> (best: Vec<
    Vec<usize>,
>)
    requires
        count <= order.len(),
        forall|k: int| 0 <= k < order@.len() ==> #[trigger] order@[k] < population.len(),
    ensures
        rows(best@) == chosen(rows(population@), order@, count as nat),
{
    let mut best: Vec<Vec<usize>> = Vec::new();
    let mut k: usize = 0;
    while k < count
        invariant
            k <= count,
            count <= order.len(),
            forall|l: int| 0 <= l < order@.len() ==> #[trigger] order@[l] < population.len(),
            best@.len() == k,
            forall|l: int| 0 <= l < k ==> (#[trigger] best@[l])@ == population@[order@[l] as int]@,
        decreases count - k,
    {
        best.push(copy_of(&population[order[k]]));
        k += 1;
    }
    assert(rows(best@) =~= chosen(rows(population@), order@, count as nat));
    best
}

/// The `count` best rows of `population`, best first, where row `i` has the
/// score `scores[i]`.
pub fn fittest(
    population: &Vec<Vec<usize>>,
    scores: &Vec<i128>,
    lower_first: bool,
    count: usize,
) -> (best: Vec<Vec<usize>>)
    requires
        scores.len() == population.len(),
        count <= population.len(),
    ensures
        best.len() == count,
        exists|order: Seq<usize>|
            is_ranking(order, scores@, lower_first) && rows(best@) == #[trigger] chosen(
                rows(population@),
                order,
                count as nat,
            ),
{
    let order = rank(scores, lower_first);
    let best = select(population, &order, count);
    assert(rows(best@).len() == count);
    best
}

} // verus!
