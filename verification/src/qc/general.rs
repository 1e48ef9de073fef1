//! The general metrics facet: how many records there are, and how many of
//! them are duplicates, unmapped, primary, secondary or supplementary.

use crate::histogram::fraction;
use crate::histogram::Ratio;
use crate::qc::facet::ComputationalLoad;
use crate::qc::facet::FacetError;
use crate::qc::facet::RecordBasedFacet;
use crate::qc::results::Results;
use crate::qc::results::Section;
use crate::record::has_flag;
use crate::record::AlignmentRecord;
use crate::record::FLAG_DUPLICATE;
use crate::record::FLAG_SECONDARY;
use crate::record::FLAG_SUPPLEMENTARY;
use crate::record::FLAG_UNMAPPED;
use vstd::prelude::*;

verus! {

/// Records by the kind of alignment they are.
#[derive(Clone, Copy, Debug, PartialEq, Eq, Structural)]
pub struct ReadDesignationMetrics {
    pub primary: usize,
    pub secondary: usize,
    pub supplementary: usize,
}

/// Counts of the records seen.
#[derive(Clone, Copy, Debug, PartialEq, Eq, Structural)]
pub struct RecordMetrics {
    pub total: usize,
    pub unmapped: usize,
    pub duplicate: usize,
    pub designation: ReadDesignationMetrics,
}

/// Percentages over all records seen, each an exact fraction whose
/// denominator is the number of records. They are `None` when no record was
/// seen.
#[derive(Clone, Copy, Debug)]
pub struct SummaryMetrics {
    pub duplication_pct: Option<Ratio>,
    pub unmapped_pct: Option<Ratio>,
}

/// What the facet reports.
#[derive(Clone, Copy, Debug)]
pub struct GeneralMetrics {
    pub records: RecordMetrics,
    pub summary: Option<SummaryMetrics>,
}

/// The general metrics facet.
#[derive(Debug)]
pub struct GeneralMetricsFacet {
    metrics: GeneralMetrics,
}

/// `part` as a percentage of `whole`: one hundred times `part` over `whole`,
/// undefined for a `whole` of zero.
pub open spec fn percent_of(part: nat, whole: nat) -> Option<(nat, nat)> {
    if whole == 0 {
        None
    } else {
        Some((100 * part, whole))
    }
}

/// `n` and one more if `hit`.
pub open spec fn bump(n: usize, hit: bool) -> usize {
    if hit {
        (n + 1) as usize
    } else {
        n
    }
}

/// The counts once `record` has been added to `counts`.
pub open spec fn counted(counts: RecordMetrics, record: AlignmentRecord) -> RecordMetrics {
    let secondary = has_flag(record.flags, FLAG_SECONDARY);
    let supplementary = !secondary && has_flag(record.flags, FLAG_SUPPLEMENTARY);
    RecordMetrics {
        total: (counts.total + 1) as usize,
        unmapped: bump(counts.unmapped, has_flag(record.flags, FLAG_UNMAPPED)),
        duplicate: bump(counts.duplicate, has_flag(record.flags, FLAG_DUPLICATE)),
        designation: ReadDesignationMetrics {
            primary: bump(counts.designation.primary, !secondary && !supplementary),
            secondary: bump(counts.designation.secondary, secondary),
            supplementary: bump(counts.designation.supplementary, supplementary),
        },
    }
}

/// The counts once every record of `records` has been added, first to last.
pub open spec fn counted_all(counts: RecordMetrics, records: Seq<AlignmentRecord>) -> RecordMetrics
    decreases records.len(),
{
    if records.len() == 0 {
        counts
    } else {
        counted(counted_all(counts, records.drop_last()), records.last())
    }
}

/// `part` as a percentage of `whole`, as a fraction in machine integers.
pub open spec fn percentage_of(part: usize, whole: u128) -> Option<Ratio> {
    if whole == 0 {
        None
    } else {
        Some(Ratio { numerator: (100 * part) as u128, denominator: whole })
    }
}

/// The summary of `counts`.
pub open spec fn summary_of(counts: RecordMetrics) -> SummaryMetrics {
    SummaryMetrics {
        duplication_pct: percentage_of(counts.duplicate, counts.total as u128),
        unmapped_pct: percentage_of(counts.unmapped, counts.total as u128),
    }
}

/// No count is larger than the total, and the designations add up to it.
pub open spec fn consistent(counts: RecordMetrics) -> bool {
    &&& counts.unmapped <= counts.total
    &&& counts.duplicate <= counts.total
    &&& counts.designation.primary + counts.designation.secondary
        + counts.designation.supplementary == counts.total
}

/// `part` as a percentage of `whole`.
pub fn percentage(part: usize, whole: u128) -> (r: Option<Ratio>)
    ensures
        r == percentage_of(part, whole),
        fraction(r) == percent_of(part as nat, whole as nat),
{
    if whole == 0 {
        None
    } else {
        Some(Ratio { numerator: 100 * (part as u128), denominator: whole })
    }
}

impl View for GeneralMetricsFacet {
    type V = GeneralMetrics;

    /// The metrics gathered so far.
    closed spec fn view(&self) -> GeneralMetrics {
        self.metrics
    }
}

impl GeneralMetricsFacet {
    #[verifier::type_invariant]
    spec fn inv(&self) -> bool {
        consistent(self.metrics.records)
    }

    /// A facet that has seen no record.
    pub fn new() -> (facet: Self)
        ensures
            facet@.records == (RecordMetrics {
                total: 0,
                unmapped: 0,
                duplicate: 0,
                designation: ReadDesignationMetrics { primary: 0, secondary: 0, supplementary: 0 },
            }),
            facet@.summary.is_none(),
    {
        GeneralMetricsFacet {
            metrics: GeneralMetrics {
                records: RecordMetrics {
                    total: 0,
                    unmapped: 0,
                    duplicate: 0,
                    designation: ReadDesignationMetrics {
                        primary: 0,
                        secondary: 0,
                        supplementary: 0,
                    },
                },
                summary: None,
            },
        }
    }

    /// The metrics gathered so far.
    pub fn metrics(&self) -> (metrics: GeneralMetrics)
        ensures
            metrics == self@,
            consistent(metrics.records),
    {
        proof {
            use_type_invariant(self);
        }
        self.metrics
    }
}

impl RecordBasedFacet for GeneralMetricsFacet {
    type State = GeneralMetrics;

    open spec fn state(&self) -> GeneralMetrics {
        self@
    }

    /// Every record is counted; only a facet whose total is at `usize::MAX`
    /// refuses, and is then left as it was.
    open spec fn processed(state: GeneralMetrics, record: AlignmentRecord) -> (
        GeneralMetrics,
        Result<(), FacetError>,
    ) {
        if state.records.total == usize::MAX {
            (state, Err(FacetError::CounterOverflow))
        } else {
            (GeneralMetrics { records: counted(state.records, record), ..state }, Ok(()))
        }
    }

    /// The summary is taken of the counts as they are, which stay.
    open spec fn summarized(state: GeneralMetrics) -> (GeneralMetrics, Result<(), FacetError>) {
        (GeneralMetrics { summary: Some(summary_of(state.records)), ..state }, Ok(()))
    }

    open spec fn section(state: GeneralMetrics) -> Section {
        Section::General
    }

    open spec fn deposited(state: GeneralMetrics, results: &Results) -> bool {
        results.general == Some(state)
    }

    proof fn lemma_deposit_stays(state: Self::State, before: &Results, after: &Results) {
    }

    fn name(&self) -> (name: &'static str)
        ensures
            name@ == "General Metrics"@,
    {
        "General Metrics"
    }

    fn computational_load(&self) -> (load: ComputationalLoad)
        ensures
            load == ComputationalLoad::Light,
    {
        ComputationalLoad::Light
    }

    fn process(&mut self, record: &AlignmentRecord) -> (outcome: Result<(), FacetError>) {
        proof {
            use_type_invariant(&*self);
        }
        let counts = self.metrics.records;
        if counts.total == usize::MAX {
            return Err(FacetError::CounterOverflow);
        }
        let mut designation = counts.designation;
        if record.is_secondary() {
            designation.secondary = designation.secondary + 1;
        } else if record.is_supplementary() {
            designation.supplementary = designation.supplementary + 1;
        } else {
            designation.primary = designation.primary + 1;
        }
        let records = RecordMetrics {
            total: counts.total + 1,
            unmapped: if record.is_unmapped() {
                counts.unmapped + 1
            } else {
                counts.unmapped
            },
            duplicate: if record.is_duplicate() {
                counts.duplicate + 1
            } else {
                counts.duplicate
            },
            designation,
        };
        self.metrics = GeneralMetrics { records, summary: self.metrics.summary };
        Ok(())
    }

    fn summarize(&mut self) -> (outcome: Result<(), FacetError>) {
        proof {
            use_type_invariant(&*self);
        }
        let counts = self.metrics.records;
        let summary = SummaryMetrics {
            duplication_pct: percentage(counts.duplicate, counts.total as u128),
            unmapped_pct: percentage(counts.unmapped, counts.total as u128),
        };
        self.metrics = GeneralMetrics { records: counts, summary: Some(summary) };
        Ok(())
    }

    fn aggregate(&self, results: &mut Results) {
        results.general = Some(self.metrics);
    }
}

/// After a run of records the total has grown by the number of records, so
/// a summary taken then has that many records as its denominators.
pub proof fn lemma_total_counts_records(counts: RecordMetrics, records: Seq<AlignmentRecord>)
    requires
        counts.total + records.len() <= usize::MAX,
    ensures
        counted_all(counts, records).total == counts.total + records.len(),
        counts.total + records.len() > 0 ==> {
            let summary = summary_of(counted_all(counts, records));
            &&& summary.duplication_pct matches Some(ratio) && ratio.denominator == counts.total
                + records.len()
            &&& summary.unmapped_pct matches Some(ratio) && ratio.denominator == counts.total
                + records.len()
        },
    decreases records.len(),
{
    if records.len() > 0 {
        lemma_total_counts_records(counts, records.drop_last());
    }
}

} // verus!
