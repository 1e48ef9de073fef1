//! Fixed-capacity, zero-based histograms over non-negative integer values.
//!
//! A histogram is modelled as the sequence of its bin counts. Means and ratios
//! are exact fractions: nothing here rounds.

use vstd::prelude::*;

verus! {

/// Sum of all counts of `counts`.
pub open spec fn count_sum(counts: Seq<usize>) -> nat
    decreases counts.len(),
{
    if counts.len() == 0 {
        0
    } else {
        count_sum(counts.drop_last()) + counts.last() as nat
    }
}

/// Sum over all bins of the bin index times the bin's count.
pub open spec fn weighted_sum(counts: Seq<usize>) -> nat
    decreases counts.len(),
{
    if counts.len() == 0 {
        0
    } else {
        weighted_sum(counts.drop_last()) + (counts.len() - 1) as nat * counts.last() as nat
    }
}

/// The counts after one observation of `value`: the bin at `value` grows by
/// one when `value` names a bin, and nothing changes otherwise.
pub open spec fn tally(counts: Seq<usize>, value: usize) -> Seq<usize> {
    if value < counts.len() {
        counts.update(value as int, (counts[value as int] + 1) as usize)
    } else {
        counts
    }
}

/// The counts after observing every value of `values`, first to last.
pub open spec fn tally_all(counts: Seq<usize>, values: Seq<usize>) -> Seq<usize>
    decreases values.len(),
{
    if values.len() == 0 {
        counts
    } else {
        tally(tally_all(counts, values.drop_last()), values.last())
    }
}

/// How many of `values` name a bin of a histogram with `capacity` bins.
pub open spec fn accepted(capacity: nat, values: Seq<usize>) -> nat
    decreases values.len(),
{
    if values.len() == 0 {
        0
    } else {
        accepted(capacity, values.drop_last()) + if (values.last() as nat) < capacity {
            1nat
        } else {
            0nat
        }
    }
}

/// `bin` is the lower median of the observations counted in `counts`: the
/// least bin up to and including which at least half of all observations lie.
/// For an even number of observations this is the lower of the two middle ones.
pub open spec fn is_lower_median(counts: Seq<usize>, bin: int) -> bool {
    &&& 0 <= bin < counts.len()
    &&& 2 * count_sum(counts.take(bin)) < count_sum(counts)
    &&& 2 * count_sum(counts.take(bin + 1)) >= count_sum(counts)
}

/// `bin` is the lowest bin with a non-zero count.
pub open spec fn is_lowest_touched(counts: Seq<usize>, bin: int) -> bool {
    &&& 0 <= bin < counts.len()
    &&& counts[bin] > 0
    &&& forall|j: int| 0 <= j < bin ==> counts[j] == 0
}

/// `bin` is the highest bin with a non-zero count.
pub open spec fn is_highest_touched(counts: Seq<usize>, bin: int) -> bool {
    &&& 0 <= bin < counts.len()
    &&& counts[bin] > 0
    &&& forall|j: int| bin < j < counts.len() ==> counts[j] == 0
}

/// No bin of `counts` has been touched.
pub open spec fn untouched(counts: Seq<usize>) -> bool {
    forall|j: int| 0 <= j < counts.len() ==> counts[j] == 0
}

/// The mean of the observations as numerator and denominator, or `None` when
/// there is no observation.
pub open spec fn mean_of(counts: Seq<usize>) -> Option<(nat, nat)> {
    if count_sum(counts) == 0 {
        None
    } else {
        Some((weighted_sum(counts), count_sum(counts)))
    }
}

/// The lower median of the observations, or `None` when there is none.
pub open spec fn median_of(counts: Seq<usize>) -> Option<int> {
    if count_sum(counts) == 0 {
        None
    } else {
        Some(choose|bin: int| is_lower_median(counts, bin))
    }
}

/// The lower median divided by the mean, as numerator and denominator. It is
/// `None` when there is no observation and when the mean is zero.
pub open spec fn median_over_mean_of(counts: Seq<usize>) -> Option<(nat, nat)> {
    match median_of(counts) {
        Some(median) if weighted_sum(counts) > 0 => Some(
            ((median * count_sum(counts)) as nat, weighted_sum(counts)),
        ),
        _ => None,
    }
}

/// Numerator and denominator of a fraction that may be absent.
pub open spec fn fraction(ratio: Option<Ratio>) -> Option<(nat, nat)> {
    match ratio {
        Some(r) => Some((r.numerator as nat, r.denominator as nat)),
        None => None,
    }
}

/// An exact non-negative fraction with a positive denominator.
#[derive(Clone, Copy, Debug, PartialEq, Eq, Structural)]
pub struct Ratio {
    pub numerator: u128,
    pub denominator: u128,
}

/// Why an observation was not counted.
#[derive(Clone, Copy, Debug, PartialEq, Eq, Structural)]
pub enum HistogramError {
    /// The value is at or beyond the capacity.
    BinOutOfRange,
    /// The histogram already holds `usize::MAX` observations.
    CountOverflow,
}

/// A histogram with a fixed number of bins, indexed from zero.
#[derive(Debug)]
pub struct Histogram {
    bins: Vec<usize>,
    total: usize,
    touched: Option<(usize, usize)>,
}

/// Counts that are all zero add up to zero.
pub proof fn lemma_count_sum_zero(counts: Seq<usize>)
    requires
        untouched(counts),
    ensures
        count_sum(counts) == 0,
        weighted_sum(counts) == 0,
    decreases counts.len(),
{
    if counts.len() > 0 {
        lemma_count_sum_zero(counts.drop_last());
    }
}

/// Raising one bin by one raises the sum by one and the weighted sum by the
/// bin's index.
pub proof fn lemma_tally_sums(counts: Seq<usize>, value: usize)
    requires
        value < counts.len(),
        counts[value as int] < usize::MAX,
    ensures
        count_sum(tally(counts, value)) == count_sum(counts) + 1,
        weighted_sum(tally(counts, value)) == weighted_sum(counts) + value,
    decreases counts.len(),
{
    let after = tally(counts, value);
    if value == counts.len() - 1 {
        assert(after.drop_last() =~= counts.drop_last());
        let c = counts.last() as int;
        assert(value * (c + 1) == value * c + value) by (nonlinear_arith);
    } else {
        lemma_tally_sums(counts.drop_last(), value);
        assert(after.drop_last() =~= tally(counts.drop_last(), value));
    }
}

/// Every bin holds at most the sum of all bins.
pub proof fn lemma_bin_le_sum(counts: Seq<usize>, bin: int)
    requires
        0 <= bin < counts.len(),
    ensures
        counts[bin] <= count_sum(counts),
    decreases counts.len(),
{
    if bin < counts.len() - 1 {
        lemma_bin_le_sum(counts.drop_last(), bin);
    }
}

/// The sum over a prefix grows with the prefix.
pub proof fn lemma_prefix_sum_monotone(counts: Seq<usize>, i: int, j: int)
    requires
        0 <= i <= j <= counts.len(),
    ensures
        count_sum(counts.take(i)) <= count_sum(counts.take(j)),
    decreases j - i,
{
    if i < j {
        lemma_prefix_sum_monotone(counts, i, j - 1);
        assert(counts.take(j).drop_last() =~= counts.take(j - 1));
    }
}

/// One more bin in the prefix adds that bin's count.
pub proof fn lemma_prefix_sum_step(counts: Seq<usize>, i: int)
    requires
        0 <= i < counts.len(),
    ensures
        count_sum(counts.take(i + 1)) == count_sum(counts.take(i)) + counts[i],
        weighted_sum(counts.take(i + 1)) == weighted_sum(counts.take(i)) + i * counts[i],
{
    assert(counts.take(i + 1).drop_last() =~= counts.take(i));
}

/// The weighted sum is at most the highest index times the sum.
pub proof fn lemma_weighted_sum_bound(counts: Seq<usize>)
    ensures
        weighted_sum(counts) <= counts.len() * count_sum(counts),
    decreases counts.len(),
{
    if counts.len() > 0 {
        let rest = counts.drop_last();
        lemma_weighted_sum_bound(rest);
        let n = counts.len() as int;
        let c = counts.last() as int;
        let s = count_sum(rest) as int;
        assert((n - 1) * s + (n - 1) * c <= n * (s + c)) by (nonlinear_arith)
            requires
                n >= 1,
                s >= 0,
                c >= 0,
        ;
    }
}

/// Bins that are all zero from `from` on add nothing to either sum.
pub proof fn lemma_zero_suffix(counts: Seq<usize>, from: int)
    requires
        0 <= from <= counts.len(),
        forall|j: int| from <= j < counts.len() ==> counts[j] == 0,
    ensures
        count_sum(counts) == count_sum(counts.take(from)),
        weighted_sum(counts) == weighted_sum(counts.take(from)),
    decreases counts.len() - from,
{
    if from == counts.len() {
        assert(counts.take(from) =~= counts);
    } else {
        lemma_zero_suffix(counts, from + 1);
        lemma_prefix_sum_step(counts, from);
    }
}

/// At most one bin is the lower median.
pub proof fn lemma_lower_median_unique(counts: Seq<usize>, a: int, b: int)
    requires
        is_lower_median(counts, a),
        is_lower_median(counts, b),
    ensures
        a == b,
{
    if a < b {
        lemma_prefix_sum_monotone(counts, a + 1, b);
    } else if b < a {
        lemma_prefix_sum_monotone(counts, b + 1, a);
    }
}

/// After any run of observations on an empty histogram, the counts add up to
/// the number of observations that named a bin.
pub proof fn lemma_sum_counts_accepted(capacity: nat, values: Seq<usize>)
    requires
        accepted(capacity, values) <= usize::MAX,
    ensures
        count_sum(tally_all(Seq::new(capacity, |i: int| 0usize), values)) == accepted(
            capacity,
            values,
        ),
        tally_all(Seq::new(capacity, |i: int| 0usize), values).len() == capacity,
    decreases values.len(),
{
    let empty = Seq::new(capacity, |i: int| 0usize);
    if values.len() == 0 {
        lemma_count_sum_zero(empty);
    } else {
        lemma_sum_counts_accepted(capacity, values.drop_last());
        let before = tally_all(empty, values.drop_last());
        if values.last() < capacity {
            lemma_bin_le_sum(before, values.last() as int);
            lemma_tally_sums(before, values.last());
        }
    }
}

/// With every observation in one bin above zero, the lower median over the
/// mean is exactly one.
pub proof fn lemma_single_bin_ratio_is_one(counts: Seq<usize>, bin: int)
    requires
        0 < bin < counts.len(),
        counts[bin] > 0,
        forall|j: int| 0 <= j < counts.len() && j != bin ==> counts[j] == 0,
    ensures
        median_of(counts) == Some(bin),
        median_over_mean_of(counts) matches Some((n, d)) && n == d && d > 0,
{
    lemma_count_sum_zero(counts.take(bin));
    lemma_prefix_sum_step(counts, bin);
    lemma_zero_suffix(counts, bin + 1);
    assert(is_lower_median(counts, bin));
    let chosen = choose|m: int| is_lower_median(counts, m);
    lemma_lower_median_unique(counts, chosen, bin);
    let c = counts[bin] as int;
    assert(bin * c > 0) by (nonlinear_arith)
        requires
            bin > 0,
            c > 0,
    ;
}

/// Writes one bin together with the fields derived from the bins.
fn store(
    bins: &mut Vec<usize>,
    total: &mut usize,
    touched: &mut Option<(usize, usize)>,
    bin: usize,
    count: usize,
    span: (usize, usize),
)
    requires
        bin < old(bins)@.len(),
        *old(total) < usize::MAX,
    ensures
        final(bins)@ == old(bins)@.update(bin as int, count),
        *final(total) == *old(total) + 1,
        *final(touched) == Some(span),
    no_unwind
{
    bins[bin] = count;
    *total = *total + 1;
    *touched = Some(span);
}

impl View for Histogram {
    type V = Seq<usize>;

    /// The count of every bin, lowest bin first.
    closed spec fn view(&self) -> Seq<usize> {
        self.bins@
    }
}

impl Histogram {
    #[verifier::type_invariant]
    spec fn inv(&self) -> bool {
        &&& self.total == count_sum(self.bins@)
        &&& match self.touched {
            Some((low, high)) => is_lowest_touched(self.bins@, low as int) && is_highest_touched(
                self.bins@,
                high as int,
            ),
            None => untouched(self.bins@),
        }
    }

    /// A histogram with `capacity` bins, all zero.
    pub fn zero_based_with_capacity(capacity: usize) -> (h: Self)
        ensures
            h@.len() == capacity,
            untouched(h@),
            count_sum(h@) == 0,
    {
        let mut bins: Vec<usize> = Vec::new();
        let mut i: usize = 0;
        while i < capacity
            invariant
                i <= capacity,
                bins@.len() == i,
                untouched(bins@),
            decreases capacity - i,
        {
            bins.push(0);
            i += 1;
        }
        proof {
            lemma_count_sum_zero(bins@);
        }
        Histogram { bins, total: 0, touched: None }
    }

    /// The number of bins.
    pub fn capacity(&self) -> (n: usize)
        ensures
            n == self@.len(),
    {
        self.bins.len()
    }

    /// The number of observations counted so far.
    pub fn total(&self) -> (n: usize)
        ensures
            n == count_sum(self@),
    {
        proof {
            use_type_invariant(self);
        }
        self.total
    }

    /// Counts one observation of `value`.
    ///
    /// A value at or beyond the capacity is refused as out of range, and a
    /// histogram that already holds `usize::MAX` observations refuses any
    /// further one; a refusal changes nothing.
    pub fn increment(&mut self, value: usize) -> (r: Result<(), HistogramError>)
        ensures
            r == (if value >= old(self)@.len() {
                Err::<(), HistogramError>(HistogramError::BinOutOfRange)
            } else if count_sum(old(self)@) >= usize::MAX {
                Err(HistogramError::CountOverflow)
            } else {
                Ok(())
            }),
            r is Ok ==> final(self)@ == tally(old(self)@, value),
            r is Ok ==> count_sum(final(self)@) == count_sum(old(self)@) + 1,
            r is Err ==> final(self)@ == old(self)@,
            count_sum(final(self)@) <= usize::MAX,
    {
        proof {
            use_type_invariant(&*self);
        }
        if value >= self.bins.len() {
            return Err(HistogramError::BinOutOfRange);
        }
        if self.total == usize::MAX {
            return Err(HistogramError::CountOverflow);
        }
        let ghost before = self.bins@;
        proof {
            lemma_bin_le_sum(before, value as int);
            lemma_tally_sums(before, value);
        }
        let count = self.bins[value];
        let touched = match self.touched {
            Some((low, high)) => (
                if value < low {
                    value
                } else {
                    low
                },
                if value > high {
                    value
                } else {
                    high
                },
            ),
            None => (value, value),
        };
        store(&mut self.bins, &mut self.total, &mut self.touched, value, count + 1, touched);
        Ok(())
    }

    /// The count of `bin`; zero for a bin that was never touched, also for
    /// one at or beyond the capacity.
    pub fn get(&self, bin: usize) -> (count: usize)
        ensures
            count == (if bin < self@.len() {
                self@[bin as int]
            } else {
                0
            }),
    {
        if bin < self.bins.len() {
            self.bins[bin]
        } else {
            0
        }
    }

    /// The lowest bin ever touched, or `None` before the first observation.
    pub fn range_start(&self) -> (r: Option<usize>)
        ensures
            match r {
                Some(bin) => is_lowest_touched(self@, bin as int),
                None => untouched(self@),
            },
    {
        proof {
            use_type_invariant(self);
        }
        match self.touched {
            Some((low, _)) => Some(low),
            None => None,
        }
    }

    /// The highest bin ever touched, or `None` before the first observation.
    pub fn range_stop(&self) -> (r: Option<usize>)
        ensures
            match r {
                Some(bin) => is_highest_touched(self@, bin as int),
                None => untouched(self@),
            },
    {
        proof {
            use_type_invariant(self);
        }
        match self.touched {
            Some((_, high)) => Some(high),
            None => None,
        }
    }

    /// The sum of bin index times count over all bins.
    fn weighted_total(&self) -> (sum: u128)
        ensures
            sum == weighted_sum(self@),
    {
        proof {
            use_type_invariant(self);
        }
        let (low, high) = match self.touched {
            Some(span) => span,
            None => {
                proof {
                    lemma_count_sum_zero(self.bins@);
                }
                return 0;
            },
        };
        proof {
            lemma_count_sum_zero(self.bins@.take(low as int));
            lemma_zero_suffix(self.bins@, high + 1);
        }
        let mut sum: u128 = 0;
        let mut i: usize = low;
        while i <= high
            invariant
                low <= i <= high + 1,
                high < self.bins.len(),
                sum == weighted_sum(self.bins@.take(i as int)),
                self.total == count_sum(self.bins@),
            decreases high + 1 - i,
        {
            proof {
                lemma_prefix_sum_step(self.bins@, i as int);
                lemma_weighted_sum_bound(self.bins@.take(i + 1));
                lemma_prefix_sum_monotone(self.bins@, i + 1, self.bins@.len() as int);
                assert(self.bins@.take(self.bins@.len() as int) =~= self.bins@);
                lemma_bin_le_sum(self.bins@, i as int);
                let n = (i + 1) as int;
                let s = count_sum(self.bins@.take(i + 1)) as int;
                assert(n * s <= usize::MAX * usize::MAX) by (nonlinear_arith)
                    requires
                        0 <= n <= usize::MAX,
                        0 <= s <= usize::MAX,
                ;
                let c = self.bins@[i as int] as int;
                assert(0 <= i * c <= usize::MAX * usize::MAX) by (nonlinear_arith)
                    requires
                        0 <= i <= usize::MAX,
                        0 <= c <= usize::MAX,
                ;
            }
            sum = sum + i as u128 * self.bins[i] as u128;
            i += 1;
        }
        sum
    }

    /// The mean of the observations as an exact fraction: the weighted sum
    /// over the number of observations. `None` stands for the undefined mean
    /// of no observations.
    pub fn mean(&self) -> (r: Option<Ratio>)
        ensures
            fraction(r) == mean_of(self@),
    {
        proof {
            use_type_invariant(self);
        }
        if self.total == 0 {
            None
        } else {
            Some(Ratio { numerator: self.weighted_total(), denominator: self.total as u128 })
        }
    }

    /// The lower median of the observations: the least bin up to and
    /// including which at least half of them lie, so for an even number the
    /// lower of the two middle ones. `None` stands for the undefined median
    /// of no observations.
    pub fn median(&self) -> (r: Option<usize>)
        ensures
            match r {
                Some(bin) => median_of(self@) == Some(bin as int),
                None => median_of(self@).is_none(),
            },
    {
        proof {
            use_type_invariant(self);
        }
        let (low, high) = match self.touched {
            Some(span) => span,
            None => {
                proof {
                    lemma_count_sum_zero(self.bins@);
                }
                return None;
            },
        };
        proof {
            lemma_count_sum_zero(self.bins@.take(low as int));
            lemma_zero_suffix(self.bins@, high + 1);
            lemma_bin_le_sum(self.bins@, low as int);
        }
        let mut seen: usize = 0;
        let mut i: usize = low;
        loop
            invariant
                low <= i <= high,
                high < self.bins.len(),
                seen == count_sum(self.bins@.take(i as int)),
                2 * seen < self.total,
                self.total == count_sum(self.bins@),
                self.total == count_sum(self.bins@.take(high + 1)),
            decreases high - i,
        {
            proof {
                lemma_prefix_sum_step(self.bins@, i as int);
                lemma_prefix_sum_monotone(self.bins@, i + 1, high + 1);
            }
            seen = seen + self.bins[i];
            if seen >= self.total - seen {
                proof {
                    assert(is_lower_median(self.bins@, i as int));
                    lemma_lower_median_unique(
                        self.bins@,
                        choose|bin: int| is_lower_median(self.bins@, bin),
                        i as int,
                    );
                }
                return Some(i);
            }
            i += 1;
        }
    }

    /// The lower median divided by the mean, as an exact fraction. `None`
    /// stands for the undefined quotient: there is no observation, or the
    /// mean is zero.
    pub fn median_over_mean(&self) -> (r: Option<Ratio>)
        ensures
            fraction(r) == median_over_mean_of(self@),
    {
        proof {
            use_type_invariant(self);
        }
        match self.median() {
            Some(median) => {
                let weighted = self.weighted_total();
                if weighted == 0 {
                    None
                } else {
                    proof {
                        let m = median as int;
                        let t = self.total as int;
                        assert(0 <= m * t <= usize::MAX * usize::MAX) by (nonlinear_arith)
                            requires
                                0 <= m <= usize::MAX,
                                0 <= t <= usize::MAX,
                        ;
                    }
                    Some(Ratio { numerator: median as u128 * self.total as u128, denominator: weighted })
                }
            },
            None => None,
        }
    }
}

impl Clone for Histogram {
    fn clone(&self) -> (copy: Self)
        ensures
            copy@ == self@,
    {
        proof {
            use_type_invariant(self);
        }
        let bins = self.bins.clone();
        assert(bins@ =~= self.bins@);
        Histogram { bins, total: self.total, touched: self.touched }
    }
}

} // verus!
