//! Frequency tables over the values of one attribute, and their distance.

use vstd::prelude::*;

verus! {

/// One whole in score units: distances and scores count millionths.
pub const UNIT: i128 = 1_000_000;

/// The largest total for which a distance is computed in 128 bits.
pub const MAX_TOTAL: usize = 1_048_576;

/// The largest distance: as many wholes as the largest total.
pub const MAX_DISTANCE: i128 = 1_048_576_000_000;

/// The model of a histogram: its distinct values in the order in which they
/// were first seen, each with the number of times it was inserted.
pub type Bins = Seq<(Seq<char>, nat)>;

/// Whether `value` has a bin.
pub open spec fn holds(bins: Bins, value: Seq<char>) -> bool {
    exists|i: int| 0 <= i < bins.len() && (#[trigger] bins[i]).0 == value
}

/// The index of the bin of `value`, where it has one.
pub open spec fn slot(bins: Bins, value: Seq<char>) -> int {
    choose|i: int| 0 <= i < bins.len() && (#[trigger] bins[i]).0 == value
}

/// How often `value` was inserted; 0 where it has no bin.
pub open spec fn count_of(bins: Bins, value: Seq<char>) -> nat {
    if holds(bins, value) {
        bins[slot(bins, value)].1
    } else {
        0
    }
}

/// No value has two bins and no bin is empty.
pub open spec fn well_formed(bins: Bins) -> bool {
    &&& forall|i: int| 0 <= i < bins.len() ==> (#[trigger] bins[i]).1 >= 1
    &&& forall|i: int, j: int|
        0 <= i < j < bins.len() ==> (#[trigger] bins[i]).0 != (#[trigger] bins[j]).0
}

/// The sum of all counts.
pub open spec fn total_of(bins: Bins) -> nat
    decreases bins.len(),
{
    if bins.len() == 0 {
        0
    } else {
        total_of(bins.drop_last()) + bins.last().1
    }
}

/// The bins after one more occurrence of `value`.
pub open spec fn inserted(bins: Bins, value: Seq<char>) -> Bins {
    if holds(bins, value) {
        let i = slot(bins, value);
        bins.update(i, (value, bins[i].1 + 1))
    } else {
        bins.push((value, 1))
    }
}

/// The square of the product of both totals: the denominator that all
/// squared gaps share.
pub open spec fn square_of_totals(a: Bins, b: Bins) -> int {
    let m = total_of(a) as int * total_of(b) as int;
    m * m
}

/// For the value of bin `i` of `a`: the difference between its share of `a`
/// and its share of `b`, multiplied by both totals.
pub open spec fn gap(a: Bins, b: Bins, i: int) -> int {
    a[i].1 * total_of(b) - count_of(b, a[i].0) * total_of(a)
}

/// The sum of the squared gaps of the first `n` bins of `a`.
pub open spec fn square_sum(a: Bins, b: Bins, n: nat) -> nat
    decreases n,
{
    if n == 0 {
        0
    } else {
        (square_sum(a, b, (n - 1) as nat) + gap(a, b, n - 1) * gap(a, b, n - 1)) as nat
    }
}

/// The distance from `a` to `b` in millionths. Where the numbers of distinct
/// values differ it is that difference. Otherwise it is the sum, over the
/// values of `a`, of the squared difference between the value's share of `a`
/// and its share of `b`, rounded down to a millionth. The values of `b`
/// that `a` lacks are not summed over, so the distance from `a` to `b` need
/// not be that from `b` to `a`.
pub open spec fn distance(a: Bins, b: Bins) -> int {
    if a.len() > b.len() {
        UNIT * (a.len() - b.len())
    } else if a.len() < b.len() {
        UNIT * (b.len() - a.len())
    } else if a.len() == 0 {
        0
    } else {
        UNIT * square_sum(a, b, a.len()) / square_of_totals(a, b)
    }
}

pub proof fn lemma_total_push(bins: Bins, bin: (Seq<char>, nat))
    ensures
        total_of(bins.push(bin)) == total_of(bins) + bin.1,
{
    assert(bins.push(bin).drop_last() =~= bins);
}

pub proof fn lemma_total_update(bins: Bins, i: int, bin: (Seq<char>, nat))
    requires
        0 <= i < bins.len(),
    ensures
        total_of(bins.update(i, bin)) == total_of(bins) - bins[i].1 + bin.1,
    decreases bins.len(),
{
    if i == bins.len() - 1 {
        assert(bins.update(i, bin).drop_last() =~= bins.drop_last());
    } else {
        lemma_total_update(bins.drop_last(), i, bin);
        assert(bins.update(i, bin).drop_last() =~= bins.drop_last().update(i, bin));
    }
}

/// No count is larger than the total.
pub proof fn lemma_count_le_total(bins: Bins, i: int)
    requires
        0 <= i < bins.len(),
    ensures
        bins[i].1 <= total_of(bins),
    decreases bins.len(),
{
    if i < bins.len() - 1 {
        lemma_count_le_total(bins.drop_last(), i);
    }
}

/// There are at most as many distinct values as insertions.
pub proof fn lemma_len_le_total(bins: Bins)
    requires
        well_formed(bins),
    ensures
        bins.len() <= total_of(bins),
    decreases bins.len(),
{
    if bins.len() > 0 {
        lemma_len_le_total(bins.drop_last());
    }
}

pub proof fn lemma_count_of_le_total(bins: Bins, value: Seq<char>)
    ensures
        count_of(bins, value) <= total_of(bins),
{
    if holds(bins, value) {
        lemma_count_le_total(bins, slot(bins, value));
    }
}

/// In well-formed bins the count of the value of bin `i` is the count of bin `i`.
pub proof fn lemma_count_of_own(bins: Bins, i: int)
    requires
        well_formed(bins),
        0 <= i < bins.len(),
    ensures
        holds(bins, bins[i].0),
        slot(bins, bins[i].0) == i,
        count_of(bins, bins[i].0) == bins[i].1,
{
    let j = slot(bins, bins[i].0);
    assert(0 <= j < bins.len() && bins[j].0 == bins[i].0);
    if j < i {
        assert(bins[j].0 != bins[i].0);
    } else if i < j {
        assert(bins[i].0 != bins[j].0);
    }
}

/// Inserting keeps bins well formed and raises the total by one.
pub proof fn lemma_inserted(bins: Bins, value: Seq<char>)
    requires
        well_formed(bins),
    ensures
        well_formed(inserted(bins, value)),
        total_of(inserted(bins, value)) == total_of(bins) + 1,
        count_of(inserted(bins, value), value) == count_of(bins, value) + 1,
        inserted(bins, value).len() == bins.len() + if holds(bins, value) { 0int } else { 1int },
{
    let after = inserted(bins, value);
    if holds(bins, value) {
        let i = slot(bins, value);
        lemma_total_update(bins, i, (value, bins[i].1 + 1));
        assert forall|k: int, l: int| 0 <= k < l < after.len() implies (#[trigger] after[k]).0
            != (#[trigger] after[l]).0 by {
            assert(after[k].0 == bins[k].0);
            assert(after[l].0 == bins[l].0);
        }
        assert forall|k: int| 0 <= k < after.len() implies (#[trigger] after[k]).1 >= 1 by {
            assert(bins[k].1 >= 1);
        }
        assert(after[i].0 == value);
        lemma_count_of_own(after, i);
    } else {
        lemma_total_push(bins, (value, 1));
        assert forall|k: int, l: int| 0 <= k < l < after.len() implies (#[trigger] after[k]).0
            != (#[trigger] after[l]).0 by {
            assert(after[k] == bins[k]);
            if l < bins.len() {
                assert(after[l] == bins[l]);
            }
        }
        assert forall|k: int| 0 <= k < after.len() implies (#[trigger] after[k]).1 >= 1 by {
            if k < bins.len() {
                assert(after[k] == bins[k]);
            }
        }
        assert(after[bins.len() as int].0 == value);
        lemma_count_of_own(after, bins.len() as int);
    }
}

/// Every squared gap is at most the square of the product of the totals.
pub proof fn lemma_gap_bound(a: Bins, b: Bins, i: int)
    requires
        0 <= i < a.len(),
    ensures
        gap(a, b, i) * gap(a, b, i) <= square_of_totals(a, b),
{
    lemma_count_le_total(a, i);
    lemma_count_of_le_total(b, a[i].0);
    let ta = total_of(a) as int;
    let tb = total_of(b) as int;
    let x = a[i].1 as int;
    let y = count_of(b, a[i].0) as int;
    assert((x * tb - y * ta) * (x * tb - y * ta) <= (ta * tb) * (ta * tb)) by (nonlinear_arith)
        requires
            0 <= x <= ta,
            0 <= y <= tb,
    ;
}

pub proof fn lemma_square_sum_bound(a: Bins, b: Bins, n: nat)
    requires
        n <= a.len(),
    ensures
        square_sum(a, b, n) <= n * square_of_totals(a, b),
    decreases n,
{
    if n > 0 {
        lemma_square_sum_bound(a, b, (n - 1) as nat);
        lemma_gap_bound(a, b, n - 1);
        let m = square_of_totals(a, b);
        let g = gap(a, b, n - 1) * gap(a, b, n - 1);
        assert(g >= 0) by (nonlinear_arith)
            requires
                g == gap(a, b, n - 1) * gap(a, b, n - 1),
        ;
        assert((n - 1) * m + m == n * m) by (nonlinear_arith);
    }
}


/// The distance of any two well-formed tables lies between 0 and as many
/// wholes as the larger table has distinct values.
pub proof fn lemma_distance_bounds(a: Bins, b: Bins)
    requires
        well_formed(a),
        well_formed(b),
    ensures
        0 <= distance(a, b),
        distance(a, b) <= UNIT * a.len() || distance(a, b) <= UNIT * b.len(),
{
    if a.len() == b.len() && a.len() > 0 {
        lemma_square_sum_bound(a, b, a.len());
        lemma_len_le_total(a);
        lemma_len_le_total(b);
        let sum = square_sum(a, b, a.len()) as int;
        let den = square_of_totals(a, b);
        let n = a.len() as int;
        let ta = total_of(a) as int;
        let tb = total_of(b) as int;
        assert(den > 0) by (nonlinear_arith)
            requires
                den == (ta * tb) * (ta * tb),
                ta > 0,
                tb > 0,
        ;
        assert(UNIT * sum <= (UNIT * n) * den) by (nonlinear_arith)
            requires
                0 <= sum <= n * den,
        ;
        assert(0 <= UNIT * sum) by (nonlinear_arith)
            requires
                0 <= sum,
        ;
        vstd::arithmetic::div_mod::lemma_div_is_ordered(UNIT * sum, (UNIT * n) * den, den);
        vstd::arithmetic::div_mod::lemma_div_multiples_vanish(UNIT * n, den);
        vstd::arithmetic::div_mod::lemma_div_pos_is_pos(UNIT * sum, den);
    }
}

/// The distance of a table to itself is 0.
pub proof fn lemma_distance_to_self(a: Bins)
    requires
        well_formed(a),
    ensures
        distance(a, a) == 0,
{
    lemma_square_sum_self(a, a.len());
    if a.len() > 0 {
        lemma_len_le_total(a);
        let t = total_of(a) as int;
        assert((t * t) * (t * t) > 0) by (nonlinear_arith)
            requires
                t > 0,
        ;
    }
}

pub proof fn lemma_square_sum_self(a: Bins, n: nat)
    requires
        well_formed(a),
        n <= a.len(),
    ensures
        square_sum(a, a, n) == 0,
    decreases n,
{
    if n > 0 {
        lemma_square_sum_self(a, (n - 1) as nat);
        lemma_count_of_own(a, n - 1);
    }
}

/// Between tables with different numbers of distinct values the distance is
/// exactly that difference, in wholes, whatever the counts are.
pub proof fn lemma_distance_of_unequal_cardinality(a: Bins, b: Bins)
    requires
        a.len() != b.len(),
    ensures
        distance(a, b) == UNIT * vstd::math::abs(a.len() - b.len()),
        distance(a, b) == distance(b, a),
{
}

struct Bin {
    value: String,
    count: usize,
}

/// A frequency table over the values of one attribute, with a running total.
pub struct Histogram {
    bins: Vec<Bin>,
    total: usize,
}

impl View for Histogram {
    type V = Bins;

    closed spec fn view(&self) -> Bins {
        Seq::new(self.bins@.len(), |i: int| (self.bins@[i].value@, self.bins@[i].count as nat))
    }
}

impl Histogram {
    /// The running total that the table keeps.
    pub closed spec fn running_total(&self) -> nat {
        self.total as nat
    }

    /// The bins are well formed and the running total is their sum.
    pub open spec fn wf(&self) -> bool {
        well_formed(self@) && self.running_total() == total_of(self@)
    }

    /// The empty table.
    pub fn new() -> (h: Histogram)
        ensures
            h.wf(),
            h@ == Seq::<(Seq<char>, nat)>::empty(),
    {
        let h = Histogram { bins: Vec::new(), total: 0 };
        assert(h@ =~= Seq::<(Seq<char>, nat)>::empty());
        h
    }

    /// The number of insertions so far.
    pub fn total(&self) -> (t: usize)
        requires
            self.wf(),
        ensures
            t == total_of(self@),
    {
        self.total
    }

    /// The number of distinct values.
    pub fn distinct(&self) -> (n: usize)
        ensures
            n == self@.len(),
    {
        self.bins.len()
    }

    fn find(&self, item: &String) -> (at: Option<usize>)
        ensures
            match at {
                Some(i) => i < self@.len() && self@[i as int].0 == item@,
                None => !holds(self@, item@),
            },
    {
        let n: usize = self.bins.len();
        let mut i: usize = 0;
        while i < n
            invariant
                i <= n,
                n == self.bins@.len(),
                n == self@.len(),
                forall|j: int| 0 <= j < i ==> (#[trigger] self@[j]).0 != item@,
            decreases n - i,
        {
            if self.bins[i].value == *item {
                return Some(i);
            }
            i += 1;
        }
        None
    }

    /// How often `item` was inserted.
    pub fn count(&self, item: &String) -> (c: usize)
        requires
            self.wf(),
        ensures
            c == count_of(self@, item@),
    {
        match self.find(item) {
            Some(i) => {
                proof {
                    lemma_count_of_own(self@, i as int);
                }
                self.bins[i].count
            },
            None => 0,
        }
    }

    /// Counts one more occurrence of `item`.
    pub fn insert(&mut self, item: &String)
        requires
            old(self).wf(),
            total_of(old(self)@) < usize::MAX,
        ensures
            final(self).wf(),
            final(self)@ == inserted(old(self)@, item@),
            total_of(final(self)@) == total_of(old(self)@) + 1,
    {
        proof {
            lemma_inserted(self@, item@);
        }
        match self.find(item) {
            Some(i) => {
                proof {
                    lemma_count_of_own(self@, i as int);
                    lemma_count_le_total(self@, i as int);
                }
                let c: usize = self.bins[i].count;
                self.bins[i].count = c + 1;
                self.total = self.total + 1;
                assert(self@ =~= old(self)@.update(i as int, (item@, (c + 1) as nat)));
            },
            None => {
                self.bins.push(Bin { value: item.clone(), count: 1 });
                self.total = self.total + 1;
                assert(self@ =~= old(self)@.push((item@, 1nat)));
            },
        }
    }

    /// The distance from this table to `other`, in millionths.
    pub fn diff(&self, other: &Histogram) -> (d: i128)
        requires
            self.wf(),
            other.wf(),
            total_of(self@) <= MAX_TOTAL,
            total_of(other@) <= MAX_TOTAL,
        ensures
            d == distance(self@, other@),
            0 <= d <= MAX_DISTANCE,
    {
        let n: usize = self.bins.len();
        let m: usize = other.bins.len();
        proof {
            lemma_len_le_total(self@);
            lemma_len_le_total(other@);
            lemma_distance_bounds(self@, other@);
            assert(UNIT * n <= 1_048_576_000_000 && UNIT * m <= 1_048_576_000_000) by (nonlinear_arith)
                requires
                    UNIT == 1_000_000,
                    n <= 1_048_576,
                    m <= 1_048_576,
            ;
        }
        if n > m {
            return UNIT * ((n - m) as i128);
        }
        if n < m {
            return UNIT * ((m - n) as i128);
        }
        if n == 0 {
            return 0;
        }
        let own: i128 = self.total as i128;
        let others: i128 = other.total as i128;
        let ghost den = square_of_totals(self@, other@);
        assert(0 < den <= 0x100000000000000000000) by (nonlinear_arith)
            requires
                den == (own * others) * (own * others),
                0 < own <= 0x100000,
                0 < others <= 0x100000,
        ;
        let mut sum: i128 = 0;
        let mut i: usize = 0;
        while i < n
            invariant
                i <= n,
                n == self.bins@.len(),
                n == self@.len(),
                n <= 0x100000,
                self.wf(),
                other.wf(),
                own == total_of(self@),
                others == total_of(other@),
                0 < own <= 0x100000,
                0 < others <= 0x100000,
                den == square_of_totals(self@, other@),
                0 < den <= 0x100000000000000000000,
                sum == square_sum(self@, other@, i as nat),
                0 <= sum <= i * den,
            decreases n - i,
        {
            let mine: i128 = self.bins[i].count as i128;
            let theirs: i128 = other.count(&self.bins[i].value) as i128;
            proof {
                lemma_count_le_total(self@, i as int);
                lemma_count_of_le_total(other@, self@[i as int].0);
                lemma_gap_bound(self@, other@, i as int);
                assert(0 <= mine * others <= 0x10000000000) by (nonlinear_arith)
                    requires
                        0 <= mine <= 0x100000,
                        0 < others <= 0x100000,
                ;
                assert(0 <= theirs * own <= 0x10000000000) by (nonlinear_arith)
                    requires
                        0 <= theirs <= 0x100000,
                        0 < own <= 0x100000,
                ;
            }
            let g: i128 = mine * others - theirs * own;
            assert(g == gap(self@, other@, i as int));
            assert(0 <= g * g) by (nonlinear_arith);
            assert(i * den + den == (i + 1) * den) by (nonlinear_arith);
            assert((i + 1) * den <= 0x100000 * 0x100000000000000000000) by (nonlinear_arith)
                requires
                    0 <= i + 1 <= 0x100000,
                    0 < den <= 0x100000000000000000000,
            ;
            sum = sum + g * g;
            i += 1;
        }
        assert(UNIT * sum <= 1_000_000 * (0x100000 * 0x100000000000000000000)) by (nonlinear_arith)
            requires
                0 <= sum <= n * den,
                0 < den <= 0x100000000000000000000,
                0 <= n <= 0x100000,
        ;
        assert(0 < own * others <= 0x10000000000) by (nonlinear_arith)
            requires
                0 < own <= 0x100000,
                0 < others <= 0x100000,
        ;
        assert(0 <= UNIT * sum) by (nonlinear_arith)
            requires
                0 <= sum,
        ;
        UNIT * sum / ((own * others) * (own * others))
    }
}

} // verus!
