//! The coverage facet: per reference sequence, how deeply each position is
//! covered, the distribution of those depths, and the mean depth in windows
//! of a fixed size.
//!
//! Depths are tallied in one histogram per sequence, with a bin for each
//! position; the bin of the one-based position `p` is `p - 1`. The histogram
//! is made when the first record of the sequence arrives and is dropped when
//! the sequence is torn down.

use crate::genome::name_views;
use crate::histogram::accepted;
use crate::histogram::count_sum;
use crate::histogram::fraction;
use crate::histogram::lemma_count_sum_zero;
use crate::histogram::mean_of;
use crate::histogram::median_of;
use crate::histogram::median_over_mean_of;
use crate::histogram::tally_all;
use crate::histogram::Histogram;
use crate::histogram::Ratio;
use crate::qc::facet::ComputationalLoad;
use crate::qc::facet::FacetError;
use crate::qc::facet::ReferenceSequence;
use crate::qc::facet::SequenceBasedFacet;
use crate::qc::results::Results;
use crate::qc::results::Section;
use crate::record::AlignmentRecord;
use vstd::arithmetic::div_mod::lemma_fundamental_div_mod_converse;
use vstd::prelude::*;

verus! {

/// The number of bins of a depth distribution: depths from zero up to one
/// less than this are counted, deeper positions are not.
pub const DEPTH_CAPACITY: usize = 1024;

/// What the facet left out.
#[derive(Debug)]
pub struct IgnoredMetrics {
    /// Positions that records span outside their sequence, over all
    /// sequences.
    pub nonsensical_records: usize,
    /// For each sequence torn down, the number of its positions that are
    /// covered too deeply for the depth distribution.
    pub pileup_too_large_positions: Vec<(String, usize)>,
}

/// The coverage of one sequence.
#[derive(Debug)]
pub struct SequenceCoverage {
    pub name: String,
    /// Mean depth over the counted positions; `None` when none was counted.
    pub mean_coverage: Option<Ratio>,
    /// Lower median depth over the counted positions; `None` when none was
    /// counted.
    pub median_coverage: Option<usize>,
    /// Median over mean; `None` when no position was counted or the mean is
    /// zero.
    pub median_over_mean_coverage: Option<Ratio>,
    /// Mean depth of each window, first window first.
    pub mean_coverage_per_bin: Vec<Ratio>,
    /// How many positions have each depth.
    pub coverage_distribution: Histogram,
}

/// What the facet reports: an entry for each sequence torn down, in the
/// order of the teardowns, and what was left out.
#[derive(Debug)]
pub struct CoverageMetrics {
    pub sequences: Vec<SequenceCoverage>,
    pub ignored: IgnoredMetrics,
}

/// The coverage of one sequence as plain values.
pub struct SequenceCoverageView {
    pub name: Seq<char>,
    pub mean_coverage: Option<(nat, nat)>,
    pub median_coverage: Option<int>,
    pub median_over_mean_coverage: Option<(nat, nat)>,
    pub mean_coverage_per_bin: Seq<(nat, nat)>,
    pub coverage_distribution: Seq<usize>,
}

/// The coverage metrics as plain values.
pub struct CoverageMetricsView {
    pub sequences: Seq<SequenceCoverageView>,
    pub nonsensical_records: usize,
    pub pileup_too_large_positions: Seq<(Seq<char>, usize)>,
}

/// Numerators and denominators of `ratios`.
pub open spec fn fractions(ratios: Seq<Ratio>) -> Seq<(nat, nat)> {
    Seq::new(ratios.len(), |i: int| (ratios[i].numerator as nat, ratios[i].denominator as nat))
}

impl View for SequenceCoverage {
    type V = SequenceCoverageView;

    open spec fn view(&self) -> SequenceCoverageView {
        SequenceCoverageView {
            name: self.name@,
            mean_coverage: fraction(self.mean_coverage),
            median_coverage: match self.median_coverage {
                Some(bin) => Some(bin as int),
                None => None,
            },
            median_over_mean_coverage: fraction(self.median_over_mean_coverage),
            mean_coverage_per_bin: fractions(self.mean_coverage_per_bin@),
            coverage_distribution: self.coverage_distribution@,
        }
    }
}

impl View for CoverageMetrics {
    type V = CoverageMetricsView;

    open spec fn view(&self) -> CoverageMetricsView {
        CoverageMetricsView {
            sequences: Seq::new(self.sequences@.len(), |i: int| self.sequences@[i]@),
            nonsensical_records: self.ignored.nonsensical_records,
            pileup_too_large_positions: Seq::new(
                self.ignored.pileup_too_large_positions@.len(),
                |i: int|
                    (
                        self.ignored.pileup_too_large_positions@[i].0@,
                        self.ignored.pileup_too_large_positions@[i].1,
                    ),
            ),
        }
    }
}

impl Clone for SequenceCoverage {
    fn clone(&self) -> (copy: Self)
        ensures
            copy@ == self@,
    {
        let mut windows: Vec<Ratio> = Vec::new();
        let mut i: usize = 0;
        while i < self.mean_coverage_per_bin.len()
            invariant
                i <= self.mean_coverage_per_bin.len(),
                windows@ == self.mean_coverage_per_bin@.take(i as int),
            decreases self.mean_coverage_per_bin.len() - i,
        {
            windows.push(self.mean_coverage_per_bin[i]);
            assert(windows@ =~= self.mean_coverage_per_bin@.take(i + 1));
            i += 1;
        }
        assert(windows@ =~= self.mean_coverage_per_bin@);
        SequenceCoverage {
            name: self.name.clone(),
            mean_coverage: self.mean_coverage,
            median_coverage: self.median_coverage,
            median_over_mean_coverage: self.median_over_mean_coverage,
            mean_coverage_per_bin: windows,
            coverage_distribution: self.coverage_distribution.clone(),
        }
    }
}

impl Clone for CoverageMetrics {
    fn clone(&self) -> (copy: Self)
        ensures
            copy@ == self@,
    {
        let mut sequences: Vec<SequenceCoverage> = Vec::new();
        let mut i: usize = 0;
        while i < self.sequences.len()
            invariant
                i <= self.sequences.len(),
                sequences@.len() == i,
                forall|k: int| 0 <= k < i ==> (#[trigger] sequences@[k])@ == self.sequences@[k]@,
            decreases self.sequences.len() - i,
        {
            sequences.push(self.sequences[i].clone());
            i += 1;
        }
        let mut too_large: Vec<(String, usize)> = Vec::new();
        let mut j: usize = 0;
        while j < self.ignored.pileup_too_large_positions.len()
            invariant
                j <= self.ignored.pileup_too_large_positions.len(),
                too_large@.len() == j,
                forall|k: int|
                    0 <= k < j ==> (#[trigger] too_large@[k]).0@
                        == self.ignored.pileup_too_large_positions@[k].0@ && too_large@[k].1
                        == self.ignored.pileup_too_large_positions@[k].1,
            decreases self.ignored.pileup_too_large_positions.len() - j,
        {
            let entry = &self.ignored.pileup_too_large_positions[j];
            too_large.push((entry.0.clone(), entry.1));
            j += 1;
        }
        let copy = CoverageMetrics {
            sequences,
            ignored: IgnoredMetrics {
                nonsensical_records: self.ignored.nonsensical_records,
                pileup_too_large_positions: too_large,
            },
        };
        proof {
            assert(copy@.sequences =~= self@.sequences);
            assert(copy@.pileup_too_large_positions =~= self@.pileup_too_large_positions);
        }
        copy
    }
}

/// `n` depths of zero.
pub open spec fn zeros(n: nat) -> Seq<usize> {
    Seq::new(n, |i: int| 0usize)
}

/// `record` spans the one-based position `position`.
pub open spec fn spans(record: AlignmentRecord, position: int) -> bool {
    &&& record.alignment_start matches Some(start)
    &&& record.alignment_end matches Some(end)
    &&& start <= position <= end
}

/// The depths once `record` has been laid over `depths`: one more at every
/// position of the sequence that the record spans.
pub open spec fn covered(depths: Seq<usize>, record: AlignmentRecord) -> Seq<usize> {
    Seq::new(
        depths.len(),
        |i: int|
            if spans(record, i + 1) {
                (depths[i] + 1) as usize
            } else {
                depths[i]
            },
    )
}

/// The number of positions that `record` spans.
pub open spec fn span_length(record: AlignmentRecord) -> nat {
    match (record.alignment_start, record.alignment_end) {
        (Some(start), Some(end)) if start <= end => (end - start + 1) as nat,
        _ => 0,
    }
}

/// The number of positions that `record` spans within a sequence of
/// `length` positions.
pub open spec fn span_within(length: nat, record: AlignmentRecord) -> nat {
    match (record.alignment_start, record.alignment_end) {
        (Some(start), Some(end)) => {
            let low = if start < 1 {
                1
            } else {
                start as int
            };
            let high = if end > length {
                length as int
            } else {
                end as int
            };
            if low <= high {
                (high - low + 1) as nat
            } else {
                0
            }
        },
        _ => 0,
    }
}

/// The number of positions that `record` spans outside a sequence of
/// `length` positions.
pub open spec fn span_outside(length: nat, record: AlignmentRecord) -> nat {
    (span_length(record) - span_within(length, record)) as nat
}

/// How many positions have each depth below `DEPTH_CAPACITY`.
pub open spec fn depth_distribution(depths: Seq<usize>) -> Seq<usize> {
    tally_all(zeros(DEPTH_CAPACITY as nat), depths)
}

/// How many positions have a depth of `DEPTH_CAPACITY` or more.
pub open spec fn too_deep(depths: Seq<usize>) -> nat {
    (depths.len() - accepted(DEPTH_CAPACITY as nat, depths)) as nat
}

/// The number of windows of `size` positions that a sequence of `length`
/// positions falls into, the last of which may be shorter.
pub open spec fn window_count(length: nat, size: nat) -> nat {
    if length % size == 0 {
        length / size
    } else {
        length / size + 1
    }
}

/// The mean depth in window `w` as the sum of the depths in it over the
/// number of positions that it holds.
pub open spec fn window_mean(depths: Seq<usize>, size: nat, w: int) -> (nat, nat) {
    let low = w * size;
    let high = if low + size <= depths.len() {
        low + size
    } else {
        depths.len() as int
    };
    (count_sum(depths.subrange(low, high)), (high - low) as nat)
}

/// The mean depth of every window, first window first.
pub open spec fn window_means(depths: Seq<usize>, size: nat) -> Seq<(nat, nat)> {
    Seq::new(window_count(depths.len(), size), |w: int| window_mean(depths, size, w))
}

/// The coverage of the sequence `name` with the depths `depths`, in windows
/// of `size` positions.
pub open spec fn coverage_of(
    name: Seq<char>,
    depths: Seq<usize>,
    size: nat,
) -> SequenceCoverageView {
    SequenceCoverageView {
        name,
        mean_coverage: mean_of(depth_distribution(depths)),
        median_coverage: median_of(depth_distribution(depths)),
        median_over_mean_coverage: median_over_mean_of(depth_distribution(depths)),
        mean_coverage_per_bin: window_means(depths, size),
        coverage_distribution: depth_distribution(depths),
    }
}

/// No more observations are accepted than there are.
pub proof fn lemma_accepted_bound(capacity: nat, values: Seq<usize>)
    ensures
        accepted(capacity, values) <= values.len(),
        tally_all(zeros(capacity), values).len() == capacity,
    decreases values.len(),
{
    if values.len() > 0 {
        lemma_accepted_bound(capacity, values.drop_last());
    }
}

/// The sum of counts is at most their number times the highest count.
pub proof fn lemma_count_sum_bound(counts: Seq<usize>)
    ensures
        count_sum(counts) <= counts.len() * usize::MAX,
    decreases counts.len(),
{
    if counts.len() > 0 {
        lemma_count_sum_bound(counts.drop_last());
        let n = counts.len() as int;
        assert((n - 1) * usize::MAX + usize::MAX == n * usize::MAX) by (nonlinear_arith);
    }
}

/// A sequence without any position has an empty depth distribution, so its
/// mean, its median and their quotient are all the undefined `None`, and it
/// has no window.
pub proof fn lemma_coverage_of_nothing(name: Seq<char>, size: nat)
    requires
        size > 0,
    ensures
        coverage_of(name, Seq::empty(), size).mean_coverage.is_none(),
        coverage_of(name, Seq::empty(), size).median_coverage.is_none(),
        coverage_of(name, Seq::empty(), size).median_over_mean_coverage.is_none(),
        coverage_of(name, Seq::empty(), size).mean_coverage_per_bin.len() == 0,
        coverage_of(name, Seq::empty(), size).coverage_distribution == zeros(DEPTH_CAPACITY as nat),
        too_deep(Seq::empty()) == 0,
{
    lemma_count_sum_zero(zeros(DEPTH_CAPACITY as nat));
    assert(0nat % size == 0) by (nonlinear_arith)
        requires
            size > 0,
    ;
    assert(0nat / size == 0) by (nonlinear_arith)
        requires
            size > 0,
    ;
}

/// Positions that all have the depth `depth`, below `DEPTH_CAPACITY`, are
/// all counted in the bin of that depth, and in no other.
pub proof fn lemma_uniform_distribution(depths: Seq<usize>, depth: usize)
    requires
        depths.len() <= usize::MAX,
        depth < DEPTH_CAPACITY,
        forall|i: int| 0 <= i < depths.len() ==> depths[i] == depth,
    ensures
        depth_distribution(depths) == zeros(DEPTH_CAPACITY as nat).update(
            depth as int,
            depths.len() as usize,
        ),
        accepted(DEPTH_CAPACITY as nat, depths) == depths.len(),
    decreases depths.len(),
{
    let empty = zeros(DEPTH_CAPACITY as nat);
    if depths.len() == 0 {
        assert(depth_distribution(depths) =~= empty.update(depth as int, 0usize));
    } else {
        lemma_uniform_distribution(depths.drop_last(), depth);
        assert(depth_distribution(depths) =~= empty.update(depth as int, depths.len() as usize));
    }
}

/// A sequence whose positions all have the same depth, above zero and
/// below `DEPTH_CAPACITY`, has that depth as its median and as its mean,
/// and a median over mean of exactly one: numerator and denominator are
/// the same number. No position is too deep.
pub proof fn lemma_uniform_depth(name: Seq<char>, depths: Seq<usize>, depth: usize, size: nat)
    requires
        0 < depths.len() <= usize::MAX,
        0 < depth < DEPTH_CAPACITY,
        forall|i: int| 0 <= i < depths.len() ==> depths[i] == depth,
    ensures
        coverage_of(name, depths, size).median_coverage == Some(depth as int),
        coverage_of(name, depths, size).mean_coverage == Some(
            ((depth * depths.len()) as nat, depths.len() as nat),
        ),
        coverage_of(name, depths, size).median_over_mean_coverage matches Some((n, d)) && n == d
            && d > 0,
        too_deep(depths) == 0,
{
    lemma_uniform_distribution(depths, depth);
    let counts = depth_distribution(depths);
    crate::histogram::lemma_single_bin_ratio_is_one(counts, depth as int);
    lemma_count_sum_zero(counts.take(depth as int));
    crate::histogram::lemma_prefix_sum_step(counts, depth as int);
    crate::histogram::lemma_zero_suffix(counts, depth + 1);
}

/// The windows hold every position once: there are as many as the length
/// divided by the size, rounded up; each but the last holds `size`
/// positions, and the last holds what is left.
pub proof fn lemma_windows_partition(depths: Seq<usize>, size: nat, w: int)
    requires
        size > 0,
        0 <= w < window_count(depths.len(), size),
    ensures
        window_count(depths.len(), size) * size >= depths.len(),
        (window_count(depths.len(), size) - 1) * size < depths.len(),
        w < window_count(depths.len(), size) - 1 ==> window_mean(depths, size, w).1 == size,
        w == window_count(depths.len(), size) - 1 ==> window_mean(depths, size, w).1
            == depths.len() - w * size,
        0 < window_mean(depths, size, w).1 <= size,
{
    let length = depths.len() as int;
    let s = size as int;
    let count = window_count(depths.len(), size) as int;
    vstd::arithmetic::div_mod::lemma_fundamental_div_mod(length, s);
    vstd::arithmetic::div_mod::lemma_mod_bound(length, s);
    let q = length / s;
    let r = length % s;
    assert(s * q == q * s) by (nonlinear_arith);
    assert((q + 1) * s == q * s + s) by (nonlinear_arith);
    assert((q - 1) * s == q * s - s) by (nonlinear_arith);
    if w < count - 1 {
        assert((w + 1) * s <= (count - 1) * s) by (nonlinear_arith)
            requires
                w + 1 <= count - 1,
                s > 0,
        ;
        assert((w + 1) * s == w * s + s) by (nonlinear_arith);
    } else {
        assert(w * s + s >= length);
    }
}

/// The depths of one sequence while it is scanned.
#[derive(Debug)]
struct PositionTally {
    name: String,
    depths: Histogram,
}

/// No two of `tallies` are of the same sequence.
spec fn distinct(tallies: Seq<PositionTally>) -> bool {
    forall|i: int, j: int|
        0 <= i < tallies.len() && 0 <= j < tallies.len() && tallies[i].name@ == tallies[j].name@
            ==> i == j
}

/// One of `tallies` is of the sequence `name`.
spec fn tallied(tallies: Seq<PositionTally>, name: Seq<char>) -> bool {
    exists|i: int| 0 <= i < tallies.len() && #[trigger] tallies[i].name@ == name
}

/// The depths in `tallies` by the name of their sequence.
spec fn tally_map(tallies: Seq<PositionTally>) -> Map<Seq<char>, Seq<usize>> {
    Map::new(
        |name: Seq<char>| tallied(tallies, name),
        |name: Seq<char>|
            tallies[choose|i: int| 0 <= i < tallies.len() && #[trigger] tallies[i].name@ == name].depths@,
    )
}

proof fn lemma_tally_lookup(tallies: Seq<PositionTally>, i: int)
    requires
        distinct(tallies),
        0 <= i < tallies.len(),
    ensures
        tally_map(tallies).contains_key(tallies[i].name@),
        tally_map(tallies)[tallies[i].name@] == tallies[i].depths@,
{
}

proof fn lemma_tally_push(tallies: Seq<PositionTally>, tally: PositionTally)
    requires
        distinct(tallies),
        !tallied(tallies, tally.name@),
    ensures
        distinct(tallies.push(tally)),
        tally_map(tallies.push(tally)) == tally_map(tallies).insert(tally.name@, tally.depths@),
{
    let after = tallies.push(tally);
    assert forall|name: Seq<char>| tallied(after, name) <==> (tallied(tallies, name) || name
        == tally.name@) by {
        if tallied(after, name) {
            let i = choose|i: int| 0 <= i < after.len() && #[trigger] after[i].name@ == name;
            if i < tallies.len() {
                assert(tallies[i].name@ == name);
            }
        }
        if tallied(tallies, name) {
            let i = choose|i: int| 0 <= i < tallies.len() && #[trigger] tallies[i].name@ == name;
            assert(after[i].name@ == name);
        }
        if name == tally.name@ {
            assert(after[tallies.len() as int].name@ == name);
        }
    }
    assert forall|name: Seq<char>| tallied(after, name) implies tally_map(after)[name]
        == tally_map(tallies).insert(tally.name@, tally.depths@)[name] by {
        let i = choose|i: int| 0 <= i < after.len() && #[trigger] after[i].name@ == name;
        if i < tallies.len() {
            assert(tallies[i].name@ == name);
            lemma_tally_lookup(tallies, i);
        }
    }
    assert(tally_map(after) =~= tally_map(tallies).insert(tally.name@, tally.depths@));
}

proof fn lemma_tally_update(before: Seq<PositionTally>, after: Seq<PositionTally>, at: int)
    requires
        distinct(before),
        0 <= at < before.len(),
        after.len() == before.len(),
        forall|i: int| 0 <= i < before.len() ==> #[trigger] after[i].name@ == before[i].name@,
        forall|i: int|
            0 <= i < before.len() && i != at ==> #[trigger] after[i].depths@ == before[i].depths@,
    ensures
        distinct(after),
        tally_map(after) == tally_map(before).insert(before[at].name@, after[at].depths@),
{
    assert forall|name: Seq<char>| tallied(after, name) <==> tallied(before, name) by {
        if tallied(after, name) {
            let i = choose|i: int| 0 <= i < after.len() && #[trigger] after[i].name@ == name;
            assert(before[i].name@ == name);
        }
        if tallied(before, name) {
            let i = choose|i: int| 0 <= i < before.len() && #[trigger] before[i].name@ == name;
            assert(after[i].name@ == name);
        }
    }
    assert(before[at].name@ == after[at].name@);
    assert forall|name: Seq<char>| tallied(after, name) implies tally_map(after)[name]
        == tally_map(before).insert(before[at].name@, after[at].depths@)[name] by {
        let i = choose|i: int| 0 <= i < after.len() && #[trigger] after[i].name@ == name;
        assert(before[i].name@ == name);
        lemma_tally_lookup(before, i);
    }
    assert(tally_map(after) =~= tally_map(before).insert(before[at].name@, after[at].depths@));
}

proof fn lemma_tally_remove(tallies: Seq<PositionTally>, at: int)
    requires
        distinct(tallies),
        0 <= at < tallies.len(),
    ensures
        distinct(tallies.remove(at)),
        tally_map(tallies.remove(at)) == tally_map(tallies).remove(tallies[at].name@),
{
    let after = tallies.remove(at);
    assert forall|i: int| 0 <= i < after.len() implies #[trigger] after[i] == tallies[if i < at {
        i
    } else {
        i + 1
    }] by {}
    assert forall|name: Seq<char>| tallied(after, name) <==> (tallied(tallies, name) && name
        != tallies[at].name@) by {
        if tallied(after, name) {
            let i = choose|i: int| 0 <= i < after.len() && #[trigger] after[i].name@ == name;
            let k = if i < at {
                i
            } else {
                i + 1
            };
            assert(tallies[k].name@ == name);
        }
        if tallied(tallies, name) && name != tallies[at].name@ {
            let k = choose|k: int| 0 <= k < tallies.len() && #[trigger] tallies[k].name@ == name;
            let i = if k < at {
                k
            } else {
                k - 1
            };
            assert(after[i].name@ == name);
        }
    }
    assert forall|name: Seq<char>| tallied(after, name) implies tally_map(after)[name]
        == tally_map(tallies)[name] by {
        let i = choose|i: int| 0 <= i < after.len() && #[trigger] after[i].name@ == name;
        let k = if i < at {
            i
        } else {
            i + 1
        };
        assert(tallies[k].name@ == name);
        lemma_tally_lookup(tallies, k);
    }
    assert(tally_map(after) =~= tally_map(tallies).remove(tallies[at].name@));
}

/// Where in `tallies` the tally of the sequence `name` stands.
fn find_tally(tallies: &Vec<PositionTally>, name: &String) -> (found: Option<usize>)
    ensures
        match found {
            Some(i) => i < tallies.len() && tallies[i as int].name@ == name@,
            None => !tallied(tallies@, name@),
        },
{
    let mut i: usize = 0;
    while i < tallies.len()
        invariant
            i <= tallies.len(),
            forall|j: int| 0 <= j < i ==> tallies@[j].name@ != name@,
        decreases tallies.len() - i,
    {
        if tallies[i].name == *name {
            return Some(i);
        }
        i += 1;
    }
    None
}

/// Raises the depth of the bins from `low` up to and including `high`.
fn cover(depths: &mut Histogram, low: usize, high: usize)
    requires
        low <= high < old(depths)@.len(),
        count_sum(old(depths)@) + (high - low + 1) <= usize::MAX,
    ensures
        final(depths)@ == Seq::new(
            old(depths)@.len(),
            |i: int|
                if low <= i <= high {
                    (old(depths)@[i] + 1) as usize
                } else {
                    old(depths)@[i]
                },
        ),
{
    let capacity = depths.capacity();
    let mut bin: usize = low;
    while bin <= high
        invariant
            low <= bin <= high + 1,
            high < capacity,
            high < old(depths)@.len(),
            depths@.len() == old(depths)@.len(),
            count_sum(depths@) == count_sum(old(depths)@) + (bin - low),
            count_sum(old(depths)@) + (high - low + 1) <= usize::MAX,
            depths@ == Seq::new(
                old(depths)@.len(),
                |i: int|
                    if low <= i < bin {
                        (old(depths)@[i] + 1) as usize
                    } else {
                        old(depths)@[i]
                    },
            ),
        decreases high + 1 - bin,
    {
        let ghost before = depths@;
        let raised = depths.increment(bin);
        assert(raised is Ok);
        assert(depths@ =~= Seq::new(
            old(depths)@.len(),
            |i: int|
                if low <= i < bin + 1 {
                    (old(depths)@[i] + 1) as usize
                } else {
                    old(depths)@[i]
                },
        ));
        bin += 1;
    }
}

/// The depths of `record` laid over `depths`, bin by bin.
spec fn raised(depths: Seq<usize>, low: int, high: int) -> Seq<usize> {
    Seq::new(
        depths.len(),
        |i: int|
            if low <= i <= high {
                (depths[i] + 1) as usize
            } else {
                depths[i]
            },
    )
}

/// The tallies of the sequences that are being scanned, by name.
#[derive(Debug)]
struct TallyBook {
    tallies: Vec<PositionTally>,
}

impl View for TallyBook {
    type V = Map<Seq<char>, Seq<usize>>;

    closed spec fn view(&self) -> Map<Seq<char>, Seq<usize>> {
        tally_map(self.tallies@)
    }
}

/// The depths of the sequence `name` in `tallies`, or `length` depths of
/// zero when the sequence has no tally yet.
pub open spec fn depths_of(
    tallies: Map<Seq<char>, Seq<usize>>,
    name: Seq<char>,
    length: nat,
) -> Seq<usize> {
    if tallies.contains_key(name) {
        tallies[name]
    } else {
        zeros(length)
    }
}

impl TallyBook {
    #[verifier::type_invariant]
    spec fn inv(&self) -> bool {
        distinct(self.tallies@)
    }

    fn new() -> (book: Self)
        ensures
            book@ == Map::<Seq<char>, Seq<usize>>::empty(),
    {
        let book = TallyBook { tallies: Vec::new() };
        assert(book@ =~= Map::<Seq<char>, Seq<usize>>::empty());
        book
    }

    /// The number of positions and the sum of the depths of the tally of
    /// `sequence`, as it is or as it would be made.
    fn extent(&self, sequence: &ReferenceSequence) -> (r: (usize, usize))
        ensures
            r.0 == depths_of(self@, sequence.name@, sequence.length as nat).len(),
            r.1 == count_sum(depths_of(self@, sequence.name@, sequence.length as nat)),
    {
        proof {
            use_type_invariant(self);
        }
        match find_tally(&self.tallies, &sequence.name) {
            Some(at) => {
                proof {
                    lemma_tally_lookup(self.tallies@, at as int);
                }
                (self.tallies[at].depths.capacity(), self.tallies[at].depths.total())
            },
            None => {
                proof {
                    lemma_count_sum_zero(zeros(sequence.length as nat));
                }
                (sequence.length, 0)
            },
        }
    }

    /// Makes the tally of `sequence` if there is none, and raises its bins
    /// from `span.0` up to and including `span.1`.
    fn lay(&mut self, sequence: &ReferenceSequence, span: Option<(usize, usize)>)
        requires
            span matches Some((low, high)) ==> {
                let depths = depths_of(old(self)@, sequence.name@, sequence.length as nat);
                low <= high < depths.len() && count_sum(depths) + (high - low + 1) <= usize::MAX
            },
        ensures
            final(self)@ == old(self)@.insert(
                sequence.name@,
                match span {
                    Some((low, high)) => raised(
                        depths_of(old(self)@, sequence.name@, sequence.length as nat),
                        low as int,
                        high as int,
                    ),
                    None => depths_of(old(self)@, sequence.name@, sequence.length as nat),
                },
            ),
    {
        proof {
            use_type_invariant(&*self);
        }
        let mut tallies: Vec<PositionTally> = Vec::new();
        std::mem::swap(&mut tallies, &mut self.tallies);
        let ghost before = tallies@;
        let at = match find_tally(&tallies, &sequence.name) {
            Some(at) => at,
            None => {
                let fresh = PositionTally {
                    name: sequence.name.clone(),
                    depths: Histogram::zero_based_with_capacity(sequence.length),
                };
                proof {
                    assert(fresh.depths@ =~= zeros(sequence.length as nat));
                    lemma_tally_push(tallies@, fresh);
                }
                tallies.push(fresh);
                tallies.len() - 1
            },
        };
        let ghost opened = tallies@;
        proof {
            lemma_tally_lookup(opened, at as int);
        }
        match span {
            Some((low, high)) => {
                cover(&mut tallies[at].depths, low, high);
            },
            None => {},
        }
        proof {
            lemma_tally_update(opened, tallies@, at as int);
            assert(tally_map(tallies@) =~= tally_map(before).insert(
                sequence.name@,
                tallies@[at as int].depths@,
            ));
        }
        std::mem::swap(&mut tallies, &mut self.tallies);
    }

    /// Takes the tally of the sequence `name` out.
    fn close(&mut self, name: &String) -> (depths: Option<Histogram>)
        ensures
            final(self)@ == old(self)@.remove(name@),
            match depths {
                Some(histogram) => old(self)@.contains_key(name@) && histogram@ == old(self)@[name@],
                None => !old(self)@.contains_key(name@),
            },
    {
        proof {
            use_type_invariant(&*self);
        }
        match find_tally(&self.tallies, name) {
            Some(at) => {
                let mut tallies: Vec<PositionTally> = Vec::new();
                std::mem::swap(&mut tallies, &mut self.tallies);
                proof {
                    lemma_tally_lookup(tallies@, at as int);
                    lemma_tally_remove(tallies@, at as int);
                }
                let tally = tallies.remove(at);
                std::mem::swap(&mut tallies, &mut self.tallies);
                Some(tally.depths)
            },
            None => {
                assert(self@.remove(name@) =~= self@);
                None
            },
        }
    }
}

/// The coverage of the sequence `name` whose depths are tallied in
/// `depths`, in windows of `window` positions, and the number of its
/// positions that are too deep for the distribution.
pub fn summarize_coverage(name: String, depths: &Histogram, window: WindowSize) -> (r: (
    SequenceCoverage,
    usize,
))
    ensures
        r.0@ == coverage_of(name@, depths@, window@),
        r.1 == too_deep(depths@),
{
    let bin_size = window.get();
    let length = depths.capacity();
    let mut distribution = Histogram::zero_based_with_capacity(DEPTH_CAPACITY);
    let mut ignored: usize = 0;
    let mut windows: Vec<Ratio> = Vec::new();
    let mut sum: u128 = 0;
    let mut start: usize = 0;
    let mut i: usize = 0;
    proof {
        assert(distribution@ =~= zeros(DEPTH_CAPACITY as nat));
        assert(depths@.take(0) =~= Seq::<usize>::empty());
        assert(depths@.subrange(0, 0) =~= Seq::<usize>::empty());
        assert(0 * bin_size == 0) by (nonlinear_arith);
        lemma_count_sum_zero(distribution@);
    }
    while i < length
        invariant
            length == depths@.len(),
            bin_size > 0,
            start <= i <= length,
            i - start < bin_size,
            start == windows@.len() * bin_size,
            distribution@ == depth_distribution(depths@.take(i as int)),
            count_sum(distribution@) == accepted(DEPTH_CAPACITY as nat, depths@.take(i as int)),
            ignored == too_deep(depths@.take(i as int)),
            sum == count_sum(depths@.subrange(start as int, i as int)),
            forall|w: int|
                0 <= w < windows@.len() ==> (
                #[trigger] windows@[w].numerator as nat,
                windows@[w].denominator as nat,
            ) == window_mean(depths@, bin_size as nat, w),
        decreases length - i,
    {
        let depth = depths.get(i);
        proof {
            assert(depths@.take(i + 1).drop_last() =~= depths@.take(i as int));
            assert(depths@.subrange(start as int, i + 1).drop_last() =~= depths@.subrange(
                start as int,
                i as int,
            ));
            lemma_accepted_bound(DEPTH_CAPACITY as nat, depths@.take(i as int));
            lemma_count_sum_bound(depths@.subrange(start as int, i as int));
            assert((i - start) * usize::MAX + usize::MAX <= usize::MAX * usize::MAX)
                by (nonlinear_arith)
                requires
                    0 <= i - start < usize::MAX,
            ;
        }
        match distribution.increment(depth) {
            Ok(()) => {},
            Err(_) => {
                ignored = ignored + 1;
            },
        }
        sum = sum + depth as u128;
        i = i + 1;
        if i - start == bin_size {
            proof {
                let w = windows@.len() as int;
                assert((w + 1) * bin_size == w * bin_size + bin_size) by (nonlinear_arith);
            }
            windows.push(Ratio { numerator: sum, denominator: bin_size as u128 });
            sum = 0;
            start = i;
            proof {
                assert(depths@.subrange(start as int, i as int) =~= Seq::<usize>::empty());
            }
        }
    }
    proof {
        assert(depths@.take(length as int) =~= depths@);
        lemma_fundamental_div_mod_converse(
            length as int,
            bin_size as int,
            windows@.len() as int,
            (length - start) as int,
        );
    }
    if i > start {
        windows.push(Ratio { numerator: sum, denominator: (i - start) as u128 });
    }
    let mean = distribution.mean();
    let median = distribution.median();
    let ratio = distribution.median_over_mean();
    let entry = SequenceCoverage {
        name,
        mean_coverage: mean,
        median_coverage: median,
        median_over_mean_coverage: ratio,
        mean_coverage_per_bin: windows,
        coverage_distribution: distribution,
    };
    proof {
        assert(entry@.mean_coverage_per_bin =~= window_means(depths@, bin_size as nat));
    }
    (entry, ignored)
}

/// The number of positions in a window: an integer that is not zero.
#[derive(Clone, Copy, Debug)]
pub struct WindowSize {
    positions: usize,
}

impl View for WindowSize {
    type V = nat;

    closed spec fn view(&self) -> nat {
        self.positions as nat
    }
}

impl WindowSize {
    #[verifier::type_invariant]
    spec fn inv(&self) -> bool {
        self.positions > 0
    }

    /// A window of `positions` positions, or `None` for a window of none.
    pub fn new(positions: usize) -> (size: Option<Self>)
        ensures
            match size {
                Some(size) => size@ == positions && positions > 0,
                None => positions == 0,
            },
    {
        if positions == 0 {
            None
        } else {
            Some(WindowSize { positions })
        }
    }

    /// The number of positions.
    pub fn get(&self) -> (positions: usize)
        ensures
            positions == self@,
            positions > 0,
    {
        proof {
            use_type_invariant(self);
        }
        self.positions
    }
}

/// The coverage facet.
#[derive(Debug)]
pub struct CoverageFacet {
    coverage_per_position: TallyBook,
    metrics: CoverageMetrics,
    primary_assembly: Vec<String>,
    bin_size: WindowSize,
}

/// The coverage facet as plain values.
pub struct CoverageFacetView {
    /// The depths of the sequences that are being scanned, by name.
    pub tallies: Map<Seq<char>, Seq<usize>>,
    pub metrics: CoverageMetricsView,
    /// The names of the sequences that the facet supports.
    pub primary_assembly: Seq<Seq<char>>,
    /// The number of positions in a window.
    pub bin_size: nat,
}

impl View for CoverageFacet {
    type V = CoverageFacetView;

    closed spec fn view(&self) -> CoverageFacetView {
        CoverageFacetView {
            tallies: self.coverage_per_position@,
            metrics: self.metrics@,
            primary_assembly: name_views(self.primary_assembly@),
            bin_size: self.bin_size@,
        }
    }
}

/// Whether `name` is among `names`.
fn contains_name(names: &Vec<String>, name: &String) -> (found: bool)
    ensures
        found == name_views(names@).contains(name@),
{
    let mut i: usize = 0;
    while i < names.len()
        invariant
            i <= names.len(),
            forall|j: int| 0 <= j < i ==> name_views(names@)[j] != name@,
        decreases names.len() - i,
    {
        if names[i] == *name {
            assert(name_views(names@)[i as int] == name@);
            return true;
        }
        i += 1;
    }
    false
}

impl CoverageFacet {
    /// A facet for the sequences called `primary_assembly`, with windows of
    /// `bin_size` positions.
    pub fn new(primary_assembly: Vec<String>, bin_size: WindowSize) -> (facet: Self)
        ensures
            facet@.tallies == Map::<Seq<char>, Seq<usize>>::empty(),
            facet@.metrics == (CoverageMetricsView {
                sequences: Seq::empty(),
                nonsensical_records: 0,
                pileup_too_large_positions: Seq::empty(),
            }),
            facet@.primary_assembly == name_views(primary_assembly@),
            facet@.bin_size == bin_size@,
    {
        let facet = CoverageFacet {
            coverage_per_position: TallyBook::new(),
            metrics: CoverageMetrics {
                sequences: Vec::new(),
                ignored: IgnoredMetrics {
                    nonsensical_records: 0,
                    pileup_too_large_positions: Vec::new(),
                },
            },
            primary_assembly,
            bin_size,
        };
        proof {
            assert(facet@.metrics.sequences =~= Seq::empty());
            assert(facet@.metrics.pileup_too_large_positions =~= Seq::empty());
        }
        facet
    }

    /// The metrics gathered so far.
    pub fn metrics(&self) -> (metrics: &CoverageMetrics)
        ensures
            metrics@ == self@.metrics,
    {
        &self.metrics
    }
}

impl SequenceBasedFacet for CoverageFacet {
    type State = CoverageFacetView;

    open spec fn state(&self) -> CoverageFacetView {
        self@
    }

    /// The facet supports the sequences of the primary assembly.
    open spec fn supports(state: CoverageFacetView, name: Seq<char>) -> bool {
        state.primary_assembly.contains(name)
    }

    /// Nothing is prepared ahead of the first record.
    open spec fn set_up(state: CoverageFacetView, sequence: ReferenceSequence) -> (
        CoverageFacetView,
        Result<(), FacetError>,
    ) {
        (state, Ok(()))
    }

    /// The record is laid over the depths of its sequence, which start at
    /// zero for every position of the sequence when this is its first record.
    /// The positions that the record spans outside the sequence are added to
    /// the count of ignored positions. Where a count would pass `usize::MAX`
    /// the facet refuses and is left as it was.
    open spec fn processed(
        state: CoverageFacetView,
        sequence: ReferenceSequence,
        record: AlignmentRecord,
    ) -> (CoverageFacetView, Result<(), FacetError>) {
        let depths = depths_of(state.tallies, sequence.name@, sequence.length as nat);
        let within = span_within(depths.len(), record);
        let outside = span_outside(depths.len(), record);
        if count_sum(depths) + within > usize::MAX || state.metrics.nonsensical_records + outside
            > usize::MAX {
            (state, Err(FacetError::CounterOverflow))
        } else {
            (
                CoverageFacetView {
                    tallies: state.tallies.insert(sequence.name@, covered(depths, record)),
                    metrics: CoverageMetricsView {
                        nonsensical_records: (state.metrics.nonsensical_records
                            + outside) as usize,
                        ..state.metrics
                    },
                    ..state
                },
                Ok(()),
            )
        }
    }

    /// The depths of the sequence are dropped, and its coverage is added to
    /// the metrics. A sequence that had no record is reported as one
    /// without positions: with an empty distribution, an undefined mean,
    /// median and quotient, and no window.
    open spec fn torn_down(state: CoverageFacetView, sequence: ReferenceSequence) -> (
        CoverageFacetView,
        Result<(), FacetError>,
    ) {
        let depths = depths_of(state.tallies, sequence.name@, 0);
        (
            CoverageFacetView {
                tallies: state.tallies.remove(sequence.name@),
                metrics: CoverageMetricsView {
                    sequences: state.metrics.sequences.push(
                        coverage_of(sequence.name@, depths, state.bin_size),
                    ),
                    nonsensical_records: state.metrics.nonsensical_records,
                    pileup_too_large_positions: state.metrics.pileup_too_large_positions.push(
                        (sequence.name@, too_deep(depths) as usize),
                    ),
                },
                ..state
            },
            Ok(()),
        )
    }

    open spec fn section(state: CoverageFacetView) -> Section {
        Section::Coverage
    }

    open spec fn deposited(state: CoverageFacetView, results: &Results) -> bool {
        results.coverage matches Some(metrics) && metrics@ == state.metrics
    }

    proof fn lemma_deposit_stays(state: Self::State, before: &Results, after: &Results) {
    }

    fn name(&self) -> (name: &'static str)
        ensures
            name@ == "Coverage"@,
    {
        "Coverage"
    }

    fn computational_load(&self) -> (load: ComputationalLoad)
        ensures
            load == ComputationalLoad::Moderate,
    {
        ComputationalLoad::Moderate
    }

    fn supports_sequence_name(&self, name: &String) -> (yes: bool) {
        contains_name(&self.primary_assembly, name)
    }

    fn setup_sequence(&mut self, sequence: &ReferenceSequence) -> (outcome: Result<
        (),
        FacetError,
    >) {
        Ok(())
    }

    fn process_record(&mut self, sequence: &ReferenceSequence, record: &AlignmentRecord) -> (outcome:
        Result<(), FacetError>) {
        let (length, total) = self.coverage_per_position.extent(sequence);
        let ghost depths = depths_of(self@.tallies, sequence.name@, sequence.length as nat);
        let mut span: Option<(usize, usize)> = None;
        let mut within: u128 = 0;
        let mut outside: u128 = 0;
        match (record.alignment_start, record.alignment_end) {
            (Some(start), Some(end)) => {
                if start <= end {
                    let low = if start < 1 {
                        1
                    } else {
                        start
                    };
                    let high = if end > length {
                        length
                    } else {
                        end
                    };
                    if low <= high {
                        span = Some((low - 1, high - 1));
                        within = (high - low) as u128 + 1;
                    }
                    outside = (end - start) as u128 + 1 - within;
                }
            },
            _ => {},
        }
        assert(within == span_within(depths.len(), *record));
        assert(outside == span_outside(depths.len(), *record));
        let ignored = self.metrics.ignored.nonsensical_records;
        if total as u128 + within > usize::MAX as u128 || ignored as u128 + outside
            > usize::MAX as u128 {
            return Err(FacetError::CounterOverflow);
        }
        self.coverage_per_position.lay(sequence, span);
        self.metrics.ignored.nonsensical_records = (ignored as u128 + outside) as usize;
        proof {
            match span {
                Some((low, high)) => {
                    assert(raised(depths, low as int, high as int) =~= covered(depths, *record));
                },
                None => {
                    assert(depths =~= covered(depths, *record));
                },
            }
            assert(self@.metrics.sequences =~= old(self)@.metrics.sequences);
            assert(self@.metrics.pileup_too_large_positions =~= old(
                self,
            )@.metrics.pileup_too_large_positions);
        }
        Ok(())
    }

    fn teardown_sequence(&mut self, sequence: &ReferenceSequence) -> (outcome: Result<
        (),
        FacetError,
    >) {
        let ghost depths = depths_of(self@.tallies, sequence.name@, 0);
        let closed = match self.coverage_per_position.close(&sequence.name) {
            Some(histogram) => histogram,
            None => Histogram::zero_based_with_capacity(0),
        };
        assert(closed@ =~= depths);
        let (entry, ignored) = summarize_coverage(sequence.name.clone(), &closed, self.bin_size);
        let ghost before = self.metrics@;
        self.metrics.sequences.push(entry);
        self.metrics.ignored.pileup_too_large_positions.push((sequence.name.clone(), ignored));
        proof {
            assert(self.metrics@.sequences =~= before.sequences.push(
                coverage_of(sequence.name@, depths, self@.bin_size),
            ));
            assert(self.metrics@.pileup_too_large_positions
                =~= before.pileup_too_large_positions.push(
                (sequence.name@, too_deep(depths) as usize),
            ));
        }
        Ok(())
    }

    fn aggregate(&mut self, results: &mut Results)
        ensures
            final(self)@ == old(self)@,
    {
        results.coverage = Some(self.metrics.clone());
    }
}

} // verus!
