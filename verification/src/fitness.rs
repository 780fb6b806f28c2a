//! Scoring a grouping, by one of two strategies.

use crate::histogram::{distance, lemma_len_le_total, MAX_DISTANCE, MAX_TOTAL, UNIT};
use crate::profile::{Profile, ProfileView};
use crate::record::Badger;
use vstd::prelude::*;

verus! {

/// No group scores more than this many millionths, in either direction.
pub const GROUP_BOUND: i128 = 25_165_824_000_000;

/// How a grouping is scored.
#[derive(Debug, Clone, Copy, PartialEq, Eq, Structural)]
pub enum FitnessStrategy {
    /// Every group should resemble the whole list; a lower score is better.
    DistributionalSimilarity,
    /// Every group should be varied; a higher score is better.
    DiversityCount,
}

impl FitnessStrategy {
    /// Whether a lower score is the better one.
    pub open spec fn lower_first(self) -> bool {
        self is DistributionalSimilarity
    }

    /// Whether a lower score is the better one.
    pub fn lower_is_better(&self) -> (lower: bool)
        ensures
            lower == self.lower_first(),
    {
        match self {
            FitnessStrategy::DistributionalSimilarity => true,
            FitnessStrategy::DiversityCount => false,
        }
    }
}

/// The model of the reference that groups are held against.
pub struct IdealView {
    pub profile: ProfileView,
    pub size: int,
}

/// What groups are held against: the profile of the whole list, and the size
/// that every group would have if all were equal, in millionths.
pub struct Ideal {
    pub profile: Profile,
    pub size: i128,
}

impl View for Ideal {
    type V = IdealView;

    open spec fn view(&self) -> IdealView {
        IdealView { profile: self.profile@, size: self.size as int }
    }
}

/// The profile of the first `n` records.
pub open spec fn whole_profile(badgers: Seq<Badger>, n: nat) -> ProfileView
    decreases n,
{
    if n == 0 {
        ProfileView::empty()
    } else {
        whole_profile(badgers, (n - 1) as nat).with(badgers[n - 1])
    }
}

/// The profile of those among the first `n` records that `solution` puts into `group`.
pub open spec fn group_profile_of(
    solution: Seq<usize>,
    badgers: Seq<Badger>,
    group: usize,
    n: nat,
) -> ProfileView
    decreases n,
{
    if n == 0 {
        ProfileView::empty()
    } else if solution[n - 1] == group {
        group_profile_of(solution, badgers, group, (n - 1) as nat).with(badgers[n - 1])
    } else {
        group_profile_of(solution, badgers, group, (n - 1) as nat)
    }
}

/// How far a group of `count` records is from the ideal size, in millionths.
pub open spec fn deviation(size: int, count: nat) -> int {
    if size >= UNIT * count {
        size - UNIT * count
    } else {
        UNIT * count - size
    }
}

/// The score of one group by resemblance: ten times the deviation from the
/// ideal size, the weighted distances of the five attributes from those of
/// the whole list, and two wholes.
pub open spec fn similarity_score(ideal: IdealView, group: ProfileView) -> int {
    10 * deviation(ideal.size, group.count)
        + 6 * distance(ideal.profile.genders, group.genders)
        + 3 * distance(ideal.profile.disciplines, group.disciplines)
        + distance(ideal.profile.seniorities, group.seniorities)
        + 2 * UNIT
        + distance(ideal.profile.clients, group.clients)
        + distance(ideal.profile.teams, group.teams)
}

/// The score of one group by variety: the numbers of distinct values, in
/// wholes, less four times the deviation from the ideal size. The genders do
/// not enter: the weight 5 lies on the disciplines, which count once more
/// with weight 1.
pub open spec fn diversity_score(ideal: IdealView, group: ProfileView) -> int {
    5 * (UNIT * group.disciplines.len()) + UNIT * group.disciplines.len() + UNIT
        * group.seniorities.len() + UNIT * group.clients.len() + UNIT * group.teams.len() - 4
        * deviation(ideal.size, group.count)
}

/// The score of one group under `strategy`.
pub open spec fn group_score(strategy: FitnessStrategy, ideal: IdealView, group: ProfileView) -> int {
    match strategy {
        FitnessStrategy::DistributionalSimilarity => similarity_score(ideal, group),
        FitnessStrategy::DiversityCount => diversity_score(ideal, group),
    }
}

/// Whether record `i` is the first of its group.
pub open spec fn first_of_group(solution: Seq<usize>, i: int) -> bool {
    forall|j: int| 0 <= j < i ==> #[trigger] solution[j] != solution[i]
}

/// The sum of the scores of the groups that begin among the first `n` records.
pub open spec fn fitness_upto(
    strategy: FitnessStrategy,
    solution: Seq<usize>,
    badgers: Seq<Badger>,
    ideal: IdealView,
    n: nat,
) -> int
    decreases n,
{
    if n == 0 {
        0
    } else {
        fitness_upto(strategy, solution, badgers, ideal, (n - 1) as nat) + if first_of_group(
            solution,
            n - 1,
        ) {
            group_score(
                strategy,
                ideal,
                group_profile_of(solution, badgers, solution[n - 1], solution.len()),
            )
        } else {
            0
        }
    }
}

/// The fitness of a grouping: the sum of the scores of its groups that are
/// not empty.
pub open spec fn fitness_of(
    strategy: FitnessStrategy,
    solution: Seq<usize>,
    badgers: Seq<Badger>,
    ideal: IdealView,
) -> int {
    fitness_upto(strategy, solution, badgers, ideal, solution.len())
}

/// Two groupings that put the same records together.
pub open spec fn same_partition(first: Seq<usize>, second: Seq<usize>) -> bool {
    &&& first.len() == second.len()
    &&& forall|i: int, j: int|
        0 <= i < first.len() && 0 <= j < first.len() ==> ((#[trigger] first[i] == #[trigger] first[j])
            <==> second[i] == second[j])
}

proof fn lemma_same_group_profile(
    first: Seq<usize>,
    second: Seq<usize>,
    badgers: Seq<Badger>,
    i: int,
    n: nat,
)
    requires
        same_partition(first, second),
        0 <= i < first.len(),
        n <= first.len(),
    ensures
        group_profile_of(first, badgers, first[i], n) == group_profile_of(
            second,
            badgers,
            second[i],
            n,
        ),
    decreases n,
{
    if n > 0 {
        lemma_same_group_profile(first, second, badgers, i, (n - 1) as nat);
        assert((first[n - 1] == first[i]) <==> (second[n - 1] == second[i]));
    }
}

proof fn lemma_same_first_of_group(first: Seq<usize>, second: Seq<usize>, i: int)
    requires
        same_partition(first, second),
        0 <= i < first.len(),
    ensures
        first_of_group(first, i) == first_of_group(second, i),
{
    if first_of_group(first, i) {
        assert forall|j: int| 0 <= j < i implies #[trigger] second[j] != second[i] by {
            assert(first[j] != first[i]);
        }
    }
    if first_of_group(second, i) {
        assert forall|j: int| 0 <= j < i implies #[trigger] first[j] != first[i] by {
            assert(second[j] != second[i]);
        }
    }
}

proof fn lemma_same_fitness_upto(
    strategy: FitnessStrategy,
    first: Seq<usize>,
    second: Seq<usize>,
    badgers: Seq<Badger>,
    ideal: IdealView,
    n: nat,
)
    requires
        same_partition(first, second),
        n <= first.len(),
    ensures
        fitness_upto(strategy, first, badgers, ideal, n) == fitness_upto(
            strategy,
            second,
            badgers,
            ideal,
            n,
        ),
    decreases n,
{
    if n > 0 {
        lemma_same_fitness_upto(strategy, first, second, badgers, ideal, (n - 1) as nat);
        lemma_same_first_of_group(first, second, n - 1);
        lemma_same_group_profile(first, second, badgers, n - 1, first.len());
    }
}

/// Fitness does not depend on how the groups are numbered: two groupings that
/// put the same records together score the same, under either strategy.
pub proof fn lemma_fitness_ignores_group_ids(
    strategy: FitnessStrategy,
    first: Seq<usize>,
    second: Seq<usize>,
    badgers: Seq<Badger>,
    ideal: IdealView,
)
    requires
        same_partition(first, second),
    ensures
        fitness_of(strategy, first, badgers, ideal) == fitness_of(strategy, second, badgers, ideal),
{
    lemma_same_fitness_upto(strategy, first, second, badgers, ideal, first.len());
}

impl Ideal {
    /// The profile is valid and, like the size, within the range that scores
    /// are computed for.
    pub open spec fn wf(&self) -> bool {
        &&& self.profile.wf()
        &&& self.profile@.count <= MAX_TOTAL
        &&& 0 <= self.size <= MAX_DISTANCE
    }

    /// The reference for splitting `badgers` into `ngroups` groups.
    pub fn new(badgers: &Vec<Badger>, ngroups: usize) -> (ideal: Ideal)
        requires
            ngroups > 0,
            badgers.len() <= MAX_TOTAL,
        ensures
            ideal.wf(),
            ideal@.profile == whole_profile(badgers@, badgers@.len()),
            ideal@.size == UNIT * badgers@.len() / (ngroups as int),
    {
        let n: usize = badgers.len();
        let mut profile = Profile::new();
        let mut i: usize = 0;
        while i < n
            invariant
                i <= n,
                n == badgers@.len(),
                n <= MAX_TOTAL,
                profile.wf(),
                profile@ == whole_profile(badgers@, i as nat),
                profile@.count == i,
            decreases n - i,
        {
            profile.insert(&badgers[i]);
            i += 1;
        }
        let whole: i128 = UNIT * (n as i128);
        let size: i128 = whole / (ngroups as i128);
        proof {
            assert(0 <= whole <= 1_048_576_000_000) by (nonlinear_arith)
                requires
                    whole == UNIT * n,
                    UNIT == 1_000_000,
                    n <= 1_048_576,
            ;
            vstd::arithmetic::div_mod::lemma_div_is_ordered_by_denominator(whole as int, 1, ngroups as int);
            vstd::arithmetic::div_mod::lemma_div_pos_is_pos(whole as int, ngroups as int);
        }
        Ideal { profile, size }
    }
}

/// The profile of the records that `solution` puts into `group`.
pub fn group_profile(solution: &Vec<usize>, badgers: &Vec<Badger>, group: usize) -> (profile:
    Profile)
    requires
        solution.len() == badgers.len(),
    ensures
        profile.wf(),
        profile@ == group_profile_of(solution@, badgers@, group, solution@.len()),
        profile@.count <= solution.len(),
{
    let n: usize = solution.len();
    let mut profile = Profile::new();
    let mut i: usize = 0;
    while i < n
        invariant
            i <= n,
            n == solution@.len(),
            n == badgers@.len(),
            profile.wf(),
            profile@ == group_profile_of(solution@, badgers@, group, i as nat),
            profile@.count <= i,
        decreases n - i,
    {
        if solution[i] == group {
            profile.insert(&badgers[i]);
        }
        i += 1;
    }
    profile
}

fn size_deviation(size: i128, count: usize) -> (d: i128)
    requires
        0 <= size <= MAX_DISTANCE,
        count <= MAX_TOTAL,
    ensures
        d == deviation(size as int, count as nat),
        0 <= d <= MAX_DISTANCE,
{
    let actual: i128 = UNIT * (count as i128);
    assert(0 <= actual <= 1_048_576_000_000) by (nonlinear_arith)
        requires
            actual == UNIT * count,
            UNIT == 1_000_000,
            count <= 1_048_576,
    ;
    if size >= actual {
        size - actual
    } else {
        actual - size
    }
}

fn wholes(n: usize) -> (w: i128)
    requires
        n <= MAX_TOTAL,
    ensures
        w == UNIT * n,
        0 <= w <= MAX_DISTANCE,
{
    assert(0 <= UNIT * n <= 1_048_576_000_000) by (nonlinear_arith)
        requires
            UNIT == 1_000_000,
            n <= 1_048_576,
    ;
    UNIT * (n as i128)
}

/// Scores one group by its resemblance to the whole list.
pub fn similarity(ideal: &Ideal, group: &Profile) -> (score: i128)
    requires
        ideal.wf(),
        group.wf(),
        group@.count <= MAX_TOTAL,
    ensures
        score == similarity_score(ideal@, group@),
        0 <= score <= GROUP_BOUND,
{
    let size = size_deviation(ideal.size, group.count);
    let gender = ideal.profile.genders.diff(&group.genders);
    let discipline = ideal.profile.disciplines.diff(&group.disciplines);
    let seniority = ideal.profile.seniorities.diff(&group.seniorities);
    let client = ideal.profile.clients.diff(&group.clients);
    let team = ideal.profile.teams.diff(&group.teams);
    10 * size + 6 * gender + 3 * discipline + seniority + 2 * UNIT + client + team
}

/// Scores one group by the variety of its members.
pub fn diversity(ideal: &Ideal, group: &Profile) -> (score: i128)
    requires
        ideal.wf(),
        group.wf(),
        group@.count <= MAX_TOTAL,
    ensures
        score == diversity_score(ideal@, group@),
        -GROUP_BOUND <= score <= GROUP_BOUND,
{
    proof {
        lemma_len_le_total(group@.disciplines);
        lemma_len_le_total(group@.seniorities);
        lemma_len_le_total(group@.clients);
        lemma_len_le_total(group@.teams);
    }
    let size = size_deviation(ideal.size, group.count);
    let disciplines = wholes(group.disciplines.distinct());
    let seniorities = wholes(group.seniorities.distinct());
    let clients = wholes(group.clients.distinct());
    let teams = wholes(group.teams.distinct());
    5 * disciplines + disciplines + seniorities + clients + teams - 4 * size
}

fn begins_group(solution: &Vec<usize>, i: usize) -> (first: bool)
    requires
        i < solution.len(),
    ensures
        first == first_of_group(solution@, i as int),
{
    let mut j: usize = 0;
    while j < i
        invariant
            j <= i,
            i < solution.len(),
            forall|k: int| 0 <= k < j ==> #[trigger] solution@[k] != solution@[i as int],
        decreases i - j,
    {
        if solution[j] == solution[i] {
            return false;
        }
        j += 1;
    }
    true
}

/// The fitness of `solution` under `strategy`: the sum of the scores of its
/// groups that are not empty.
pub fn fitness(
    strategy: FitnessStrategy,
    solution: &Vec<usize>,
    badgers: &Vec<Badger>,
    ideal: &Ideal,
) -> (score: i128)
    requires
        solution.len() == badgers.len(),
        badgers.len() <= MAX_TOTAL,
        ideal.wf(),
    ensures
        score == fitness_of(strategy, solution@, badgers@, ideal@),
        -GROUP_BOUND * solution.len() <= score <= GROUP_BOUND * solution.len(),
{
    let n: usize = solution.len();
    let mut total: i128 = 0;
    let mut i: usize = 0;
    while i < n
        invariant
            i <= n,
            n == solution@.len(),
            n == badgers@.len(),
            n <= MAX_TOTAL,
            ideal.wf(),
            total == fitness_upto(strategy, solution@, badgers@, ideal@, i as nat),
            -GROUP_BOUND * i <= total <= GROUP_BOUND * i,
        decreases n - i,
    {
        proof {
            assert(GROUP_BOUND * (i + 1) == GROUP_BOUND * i + GROUP_BOUND
                && -GROUP_BOUND * (i + 1) == -GROUP_BOUND * i - GROUP_BOUND
                && 0 <= GROUP_BOUND * i <= 25_165_824_000_000 * 1_048_576
                && 0 >= -GROUP_BOUND * i >= -25_165_824_000_000 * 1_048_576) by (nonlinear_arith)
                requires
                    GROUP_BOUND == 25_165_824_000_000,
                    0 <= i < 1_048_576,
            ;
        }
        if begins_group(solution, i) {
            let group = group_profile(solution, badgers, solution[i]);
            let score = match strategy {
                FitnessStrategy::DistributionalSimilarity => similarity(ideal, &group),
                FitnessStrategy::DiversityCount => diversity(ideal, &group),
            };
            total = total + score;
        }
        i += 1;
    }
    total
}

} // verus!
