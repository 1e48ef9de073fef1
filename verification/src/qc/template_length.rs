//! The template length facet: the distribution of template lengths up to a
//! threshold, and how many records lie beyond it.

use crate::histogram::count_sum;
use crate::histogram::tally;
use crate::histogram::untouched;
use crate::histogram::Histogram;
use crate::histogram::HistogramError;
use crate::histogram::Ratio;
use crate::qc::facet::ComputationalLoad;
use crate::qc::facet::FacetError;
use crate::qc::facet::RecordBasedFacet;
use crate::qc::general::percentage;
use crate::qc::pipeline::processed_all;
use crate::qc::general::percentage_of;
use crate::qc::results::Results;
use crate::qc::results::Section;
use crate::record::AlignmentRecord;
use vstd::prelude::*;

verus! {

/// Percentages over all records seen, each an exact fraction whose
/// denominator is the number of records. They are `None` when no record was
/// seen.
#[derive(Clone, Copy, Debug)]
pub struct SummaryMetrics {
    /// Records with a template length of zero.
    pub template_length_unknown_pct: Option<Ratio>,
    /// Records with a template length outside the histogram.
    pub template_length_out_of_range_pct: Option<Ratio>,
}

/// How many records were counted in the histogram, and how many were not.
#[derive(Clone, Copy, Debug, PartialEq, Eq, Structural)]
pub struct RecordMetrics {
    /// Records whose template length lies within the histogram.
    pub processed: usize,
    /// Records whose template length is negative or beyond the histogram.
    pub ignored: usize,
}

/// What the facet reports.
#[derive(Debug)]
pub struct TemplateLengthMetrics {
    pub histogram: Histogram,
    pub records: RecordMetrics,
    pub summary: Option<SummaryMetrics>,
}

/// The metrics as plain values.
pub struct TemplateLengthView {
    pub counts: Seq<usize>,
    pub records: RecordMetrics,
    pub summary: Option<SummaryMetrics>,
}

impl View for TemplateLengthMetrics {
    type V = TemplateLengthView;

    open spec fn view(&self) -> TemplateLengthView {
        TemplateLengthView {
            counts: self.histogram@,
            records: self.records,
            summary: self.summary,
        }
    }
}

/// The template length facet.
#[derive(Debug)]
pub struct TemplateLengthFacet {
    histogram: Histogram,
    ignored: usize,
    summary: Option<SummaryMetrics>,
}

/// The template length of `record` names a bin of `counts`.
pub open spec fn in_range(counts: Seq<usize>, record: AlignmentRecord) -> bool {
    0 <= record.template_length < counts.len()
}

/// The summary of the histogram `counts` with `records`.
pub open spec fn summary_of(counts: Seq<usize>, records: RecordMetrics) -> SummaryMetrics {
    let unknown = if counts.len() > 0 {
        counts[0]
    } else {
        0
    };
    let seen = (records.processed + records.ignored) as u128;
    SummaryMetrics {
        template_length_unknown_pct: percentage_of(unknown, seen),
        template_length_out_of_range_pct: percentage_of(records.ignored, seen),
    }
}

impl View for TemplateLengthFacet {
    type V = TemplateLengthView;

    /// The metrics gathered so far. The processed records are those that
    /// the histogram counts.
    closed spec fn view(&self) -> TemplateLengthView {
        TemplateLengthView {
            counts: self.histogram@,
            records: RecordMetrics {
                processed: count_sum(self.histogram@) as usize,
                ignored: self.ignored,
            },
            summary: self.summary,
        }
    }
}

impl TemplateLengthFacet {
    /// A facet whose histogram has `capacity` bins and that has seen no
    /// record.
    pub fn with_capacity(capacity: usize) -> (facet: Self)
        ensures
            facet@.counts.len() == capacity,
            untouched(facet@.counts),
            facet@.records == (RecordMetrics { processed: 0, ignored: 0 }),
            facet@.summary.is_none(),
            facet@ == fresh(capacity as nat),
    {
        let histogram = Histogram::zero_based_with_capacity(capacity);
        proof {
            crate::histogram::lemma_count_sum_zero(histogram@);
            assert(histogram@ =~= fresh(capacity as nat).counts);
        }
        TemplateLengthFacet { histogram, ignored: 0, summary: None }
    }

    /// The number of records with the template length `bin`; zero for a
    /// length beyond the histogram.
    pub fn get(&self, bin: usize) -> (count: usize)
        ensures
            count == (if bin < self@.counts.len() {
                self@.counts[bin as int]
            } else {
                0
            }),
    {
        self.histogram.get(bin)
    }

    /// The number of records counted in the histogram.
    pub fn get_processed_count(&self) -> (n: usize)
        ensures
            n == self@.records.processed,
            n == count_sum(self@.counts),
    {
        self.histogram.total()
    }

    /// The number of records left out of the histogram.
    pub fn get_ignored_count(&self) -> (n: usize)
        ensures
            n == self@.records.ignored,
    {
        self.ignored
    }

    /// The summary, once it has been taken.
    pub fn summary(&self) -> (summary: Option<SummaryMetrics>)
        ensures
            summary == self@.summary,
    {
        self.summary
    }
}

impl RecordBasedFacet for TemplateLengthFacet {
    type State = TemplateLengthView;

    open spec fn state(&self) -> TemplateLengthView {
        self@
    }

    /// A record whose template length names a bin is counted there; any
    /// other is counted as ignored. A facet whose counter for the record is
    /// at `usize::MAX` refuses, and is then left as it was.
    open spec fn processed(state: TemplateLengthView, record: AlignmentRecord) -> (
        TemplateLengthView,
        Result<(), FacetError>,
    ) {
        if in_range(state.counts, record) {
            if state.records.processed == usize::MAX {
                (state, Err(FacetError::CounterOverflow))
            } else {
                (
                    TemplateLengthView {
                        counts: tally(state.counts, record.template_length as usize),
                        records: RecordMetrics {
                            processed: (state.records.processed + 1) as usize,
                            ignored: state.records.ignored,
                        },
                        summary: state.summary,
                    },
                    Ok(()),
                )
            }
        } else {
            if state.records.ignored == usize::MAX {
                (state, Err(FacetError::CounterOverflow))
            } else {
                (
                    TemplateLengthView {
                        counts: state.counts,
                        records: RecordMetrics {
                            processed: state.records.processed,
                            ignored: (state.records.ignored + 1) as usize,
                        },
                        summary: state.summary,
                    },
                    Ok(()),
                )
            }
        }
    }

    /// The summary is taken of the counts as they are, which stay.
    open spec fn summarized(state: TemplateLengthView) -> (
        TemplateLengthView,
        Result<(), FacetError>,
    ) {
        (
            TemplateLengthView {
                summary: Some(summary_of(state.counts, state.records)),
                ..state
            },
            Ok(()),
        )
    }

    open spec fn section(state: TemplateLengthView) -> Section {
        Section::TemplateLength
    }

    open spec fn deposited(state: TemplateLengthView, results: &Results) -> bool {
        results.template_length matches Some(metrics) && metrics@ == state
    }

    proof fn lemma_deposit_stays(state: Self::State, before: &Results, after: &Results) {
    }

    fn name(&self) -> (name: &'static str)
        ensures
            name@ == "Template Length Metrics"@,
    {
        "Template Length Metrics"
    }

    fn computational_load(&self) -> (load: ComputationalLoad)
        ensures
            load == ComputationalLoad::Light,
    {
        ComputationalLoad::Light
    }

    fn process(&mut self, record: &AlignmentRecord) -> (outcome: Result<(), FacetError>) {
        if record.template_length >= 0 {
            let length = record.template_length as usize;
            match self.histogram.increment(length) {
                Ok(()) => {
                    return Ok(());
                },
                Err(HistogramError::CountOverflow) => {
                    return Err(FacetError::CounterOverflow);
                },
                Err(HistogramError::BinOutOfRange) => {},
            }
        }
        if self.ignored == usize::MAX {
            return Err(FacetError::CounterOverflow);
        }
        self.ignored = self.ignored + 1;
        Ok(())
    }

    fn summarize(&mut self) -> (outcome: Result<(), FacetError>) {
        let seen = self.histogram.total() as u128 + self.ignored as u128;
        self.summary = Some(
            SummaryMetrics {
                template_length_unknown_pct: percentage(self.histogram.get(0), seen),
                template_length_out_of_range_pct: percentage(self.ignored, seen),
            },
        );
        Ok(())
    }

    fn aggregate(&self, results: &mut Results) {
        results.template_length = Some(
            TemplateLengthMetrics {
                histogram: self.histogram.clone(),
                records: RecordMetrics {
                    processed: self.histogram.total(),
                    ignored: self.ignored,
                },
                summary: self.summary,
            },
        );
    }
}

/// How many of `records` have a template length that names a bin of a
/// histogram with `capacity` bins.
pub open spec fn in_range_count(capacity: nat, records: Seq<AlignmentRecord>) -> nat
    decreases records.len(),
{
    if records.len() == 0 {
        0
    } else {
        in_range_count(capacity, records.drop_last()) + if 0 <= records.last().template_length
            < capacity {
            1nat
        } else {
            0nat
        }
    }
}

/// The state of a facet with `capacity` bins that has seen no record.
pub open spec fn fresh(capacity: nat) -> TemplateLengthView {
    TemplateLengthView {
        counts: Seq::new(capacity, |i: int| 0usize),
        records: RecordMetrics { processed: 0, ignored: 0 },
        summary: None,
    }
}

/// A record whose template length names no bin is counted as ignored and
/// changes nothing else: every bin and the count of processed records stay.
/// The facet refuses it only when the count of ignored records is full.
pub proof fn lemma_out_of_range_is_ignored(state: TemplateLengthView, record: AlignmentRecord)
    requires
        !in_range(state.counts, record),
    ensures
        TemplateLengthFacet::processed(state, record).0.counts == state.counts,
        TemplateLengthFacet::processed(state, record).0.records.processed
            == state.records.processed,
        TemplateLengthFacet::processed(state, record).0.summary == state.summary,
        state.records.ignored < usize::MAX ==> TemplateLengthFacet::processed(state, record).1
            is Ok && TemplateLengthFacet::processed(state, record).0.records.ignored
            == state.records.ignored + 1,
        state.records.ignored == usize::MAX ==> TemplateLengthFacet::processed(state, record)
            == (state, Err::<(), FacetError>(FacetError::CounterOverflow)),
{
}

/// A facet that starts without records and takes a run of them refuses
/// none, as long as their number fits the counters. Its bins then add up
/// to the count of processed records, which is the number of records whose
/// template length names a bin, and processed and ignored records together
/// are all the records.
pub proof fn lemma_every_record_is_counted(capacity: nat, records: Seq<AlignmentRecord>)
    requires
        records.len() <= usize::MAX,
    ensures
        ({
            let after = processed_all::<TemplateLengthFacet>(fresh(capacity), records);
            &&& after.counts.len() == capacity
            &&& count_sum(after.counts) == after.records.processed
            &&& after.records.processed == in_range_count(capacity, records)
            &&& after.records.processed + after.records.ignored == records.len()
        }),
        forall|k: int|
            #![trigger records.take(k)]
            0 <= k < records.len() ==> TemplateLengthFacet::processed(
                processed_all::<TemplateLengthFacet>(fresh(capacity), records.take(k)),
                records[k],
            ).1 is Ok,
    decreases records.len(),
{
    if records.len() == 0 {
        crate::histogram::lemma_count_sum_zero(fresh(capacity).counts);
    } else {
        let shorter = records.drop_last();
        let last = records.last();
        lemma_every_record_is_counted(capacity, shorter);
        let before = processed_all::<TemplateLengthFacet>(fresh(capacity), shorter);
        if in_range(before.counts, last) {
            crate::histogram::lemma_bin_le_sum(before.counts, last.template_length as int);
            crate::histogram::lemma_tally_sums(before.counts, last.template_length as usize);
        }
        assert forall|k: int|
            #![trigger records.take(k)]
            0 <= k < records.len() implies TemplateLengthFacet::processed(
            processed_all::<TemplateLengthFacet>(fresh(capacity), records.take(k)),
            records[k],
        ).1 is Ok by {
            if k < records.len() - 1 {
                assert(records.take(k) =~= shorter.take(k));
                assert(records[k] == shorter[k]);
            } else {
                assert(records.take(k) =~= shorter);
            }
        }
    }
}

} // verus!
