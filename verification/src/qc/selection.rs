//! The facets that a run registers, and their order.

use crate::histogram::untouched;
use crate::qc::coverage::CoverageFacet;
use crate::qc::coverage::CoverageFacetView;
use crate::qc::coverage::CoverageMetricsView;
use crate::qc::coverage::WindowSize;
use crate::qc::facet::ComputationalLoad;
use crate::qc::facet::FacetError;
use crate::qc::facet::RecordBasedFacet;
use crate::qc::facet::ReferenceSequence;
use crate::qc::facet::SequenceBasedFacet;
use crate::qc::general::counted_all;
use crate::qc::general::lemma_total_counts_records;
use crate::qc::general::GeneralMetrics;
use crate::qc::general::GeneralMetricsFacet;
use crate::qc::general::ReadDesignationMetrics;
use crate::qc::general::RecordMetrics;
use crate::qc::pipeline::lemma_each_facet_takes_every_record;
use crate::qc::pipeline::lemma_record_cap;
use crate::qc::pipeline::offered_all;
use crate::qc::pipeline::processed_all;
use crate::qc::pipeline::PassView;
use crate::qc::results::Results;
use crate::qc::results::Section;
use crate::qc::template_length::TemplateLengthFacet;
use crate::qc::template_length::TemplateLengthView;
use crate::record::AlignmentRecord;
use vstd::prelude::*;

verus! {

/// The number of bins of the template length histogram of a run.
pub const TEMPLATE_LENGTH_CAPACITY: usize = 1024;

/// A record-based facet of this library.
#[derive(Debug)]
pub enum RecordFacet {
    General(GeneralMetricsFacet),
    TemplateLength(TemplateLengthFacet),
}

/// The state of a record-based facet of this library.
pub enum RecordFacetState {
    General(GeneralMetrics),
    TemplateLength(TemplateLengthView),
}

/// A sequence-based facet of this library.
#[derive(Debug)]
pub enum SequenceFacet {
    Coverage(CoverageFacet),
}

/// The state of a sequence-based facet of this library.
pub enum SequenceFacetState {
    Coverage(CoverageFacetView),
}

impl RecordBasedFacet for RecordFacet {
    type State = RecordFacetState;

    open spec fn state(&self) -> RecordFacetState {
        match self {
            RecordFacet::General(facet) => RecordFacetState::General(facet.state()),
            RecordFacet::TemplateLength(facet) => RecordFacetState::TemplateLength(facet.state()),
        }
    }

    open spec fn processed(state: RecordFacetState, record: AlignmentRecord) -> (
        RecordFacetState,
        Result<(), FacetError>,
    ) {
        match state {
            RecordFacetState::General(inner) => {
                let next = GeneralMetricsFacet::processed(inner, record);
                (RecordFacetState::General(next.0), next.1)
            },
            RecordFacetState::TemplateLength(inner) => {
                let next = TemplateLengthFacet::processed(inner, record);
                (RecordFacetState::TemplateLength(next.0), next.1)
            },
        }
    }

    open spec fn summarized(state: RecordFacetState) -> (RecordFacetState, Result<(), FacetError>) {
        match state {
            RecordFacetState::General(inner) => {
                let next = GeneralMetricsFacet::summarized(inner);
                (RecordFacetState::General(next.0), next.1)
            },
            RecordFacetState::TemplateLength(inner) => {
                let next = TemplateLengthFacet::summarized(inner);
                (RecordFacetState::TemplateLength(next.0), next.1)
            },
        }
    }

    open spec fn section(state: RecordFacetState) -> Section {
        match state {
            RecordFacetState::General(inner) => GeneralMetricsFacet::section(inner),
            RecordFacetState::TemplateLength(inner) => TemplateLengthFacet::section(inner),
        }
    }

    open spec fn deposited(state: RecordFacetState, results: &Results) -> bool {
        match state {
            RecordFacetState::General(inner) => GeneralMetricsFacet::deposited(inner, results),
            RecordFacetState::TemplateLength(inner) => TemplateLengthFacet::deposited(
                inner,
                results,
            ),
        }
    }

    proof fn lemma_deposit_stays(state: Self::State, before: &Results, after: &Results) {
        match state {
            RecordFacetState::General(inner) => GeneralMetricsFacet::lemma_deposit_stays(
                inner,
                before,
                after,
            ),
            RecordFacetState::TemplateLength(inner) => TemplateLengthFacet::lemma_deposit_stays(
                inner,
                before,
                after,
            ),
        }
    }

    fn name(&self) -> (name: &'static str)
        ensures
            name@ == (match self {
                RecordFacet::General(_) => "General Metrics"@,
                RecordFacet::TemplateLength(_) => "Template Length Metrics"@,
            }),
    {
        match self {
            RecordFacet::General(facet) => facet.name(),
            RecordFacet::TemplateLength(facet) => facet.name(),
        }
    }

    fn computational_load(&self) -> (load: ComputationalLoad)
        ensures
            load == ComputationalLoad::Light,
    {
        match self {
            RecordFacet::General(facet) => facet.computational_load(),
            RecordFacet::TemplateLength(facet) => facet.computational_load(),
        }
    }

    fn process(&mut self, record: &AlignmentRecord) -> (outcome: Result<(), FacetError>) {
        match self {
            RecordFacet::General(facet) => facet.process(record),
            RecordFacet::TemplateLength(facet) => facet.process(record),
        }
    }

    fn summarize(&mut self) -> (outcome: Result<(), FacetError>) {
        match self {
            RecordFacet::General(facet) => facet.summarize(),
            RecordFacet::TemplateLength(facet) => facet.summarize(),
        }
    }

    fn aggregate(&self, results: &mut Results) {
        match self {
            RecordFacet::General(facet) => facet.aggregate(results),
            RecordFacet::TemplateLength(facet) => facet.aggregate(results),
        }
    }
}

impl SequenceBasedFacet for SequenceFacet {
    type State = SequenceFacetState;

    open spec fn state(&self) -> SequenceFacetState {
        match self {
            SequenceFacet::Coverage(facet) => SequenceFacetState::Coverage(facet.state()),
        }
    }

    open spec fn supports(state: SequenceFacetState, name: Seq<char>) -> bool {
        match state {
            SequenceFacetState::Coverage(inner) => CoverageFacet::supports(inner, name),
        }
    }

    open spec fn set_up(state: SequenceFacetState, sequence: ReferenceSequence) -> (
        SequenceFacetState,
        Result<(), FacetError>,
    ) {
        match state {
            SequenceFacetState::Coverage(inner) => {
                let next = CoverageFacet::set_up(inner, sequence);
                (SequenceFacetState::Coverage(next.0), next.1)
            },
        }
    }

    open spec fn processed(
        state: SequenceFacetState,
        sequence: ReferenceSequence,
        record: AlignmentRecord,
    ) -> (SequenceFacetState, Result<(), FacetError>) {
        match state {
            SequenceFacetState::Coverage(inner) => {
                let next = CoverageFacet::processed(inner, sequence, record);
                (SequenceFacetState::Coverage(next.0), next.1)
            },
        }
    }

    open spec fn torn_down(state: SequenceFacetState, sequence: ReferenceSequence) -> (
        SequenceFacetState,
        Result<(), FacetError>,
    ) {
        match state {
            SequenceFacetState::Coverage(inner) => {
                let next = CoverageFacet::torn_down(inner, sequence);
                (SequenceFacetState::Coverage(next.0), next.1)
            },
        }
    }

    open spec fn section(state: SequenceFacetState) -> Section {
        match state {
            SequenceFacetState::Coverage(inner) => CoverageFacet::section(inner),
        }
    }

    open spec fn deposited(state: SequenceFacetState, results: &Results) -> bool {
        match state {
            SequenceFacetState::Coverage(inner) => CoverageFacet::deposited(inner, results),
        }
    }

    proof fn lemma_deposit_stays(state: Self::State, before: &Results, after: &Results) {
        match state {
            SequenceFacetState::Coverage(inner) => CoverageFacet::lemma_deposit_stays(
                inner,
                before,
                after,
            ),
        }
    }

    fn name(&self) -> (name: &'static str)
        ensures
            name@ == "Coverage"@,
    {
        match self {
            SequenceFacet::Coverage(facet) => facet.name(),
        }
    }

    fn computational_load(&self) -> (load: ComputationalLoad)
        ensures
            load == ComputationalLoad::Moderate,
    {
        match self {
            SequenceFacet::Coverage(facet) => facet.computational_load(),
        }
    }

    fn supports_sequence_name(&self, name: &String) -> (yes: bool) {
        match self {
            SequenceFacet::Coverage(facet) => facet.supports_sequence_name(name),
        }
    }

    fn setup_sequence(&mut self, sequence: &ReferenceSequence) -> (outcome: Result<
        (),
        FacetError,
    >) {
        match self {
            SequenceFacet::Coverage(facet) => facet.setup_sequence(sequence),
        }
    }

    fn process_record(&mut self, sequence: &ReferenceSequence, record: &AlignmentRecord) -> (outcome:
        Result<(), FacetError>) {
        match self {
            SequenceFacet::Coverage(facet) => facet.process_record(sequence, record),
        }
    }

    fn teardown_sequence(&mut self, sequence: &ReferenceSequence) -> (outcome: Result<
        (),
        FacetError,
    >) {
        match self {
            SequenceFacet::Coverage(facet) => facet.teardown_sequence(sequence),
        }
    }

    fn aggregate(&mut self, results: &mut Results) {
        match self {
            SequenceFacet::Coverage(facet) => facet.aggregate(results),
        }
    }
}

/// The record-based facets of a run, in the order of their registration:
/// general metrics first, then template length.
pub fn get_record_based_qc_facets() -> (facets: Vec<RecordFacet>)
    ensures
        facets@.len() == 2,
        facets@[0].state() matches RecordFacetState::General(state) && state.summary.is_none()
            && state.records == (RecordMetrics {
            total: 0,
            unmapped: 0,
            duplicate: 0,
            designation: ReadDesignationMetrics { primary: 0, secondary: 0, supplementary: 0 },
        }),
        facets@[1].state() matches RecordFacetState::TemplateLength(state)
            && state.summary.is_none() && state.counts.len() == TEMPLATE_LENGTH_CAPACITY
            && untouched(state.counts) && state.records.processed == 0 && state.records.ignored
            == 0,
{
    let mut facets: Vec<RecordFacet> = Vec::new();
    facets.push(RecordFacet::General(GeneralMetricsFacet::new()));
    facets.push(
        RecordFacet::TemplateLength(TemplateLengthFacet::with_capacity(TEMPLATE_LENGTH_CAPACITY)),
    );
    facets
}

/// The sequence-based facets of a run, in the order of their registration:
/// the coverage facet, for the sequences called `primary_assembly` and with
/// windows of `bin_size` positions.
pub fn get_sequence_based_qc_facets(primary_assembly: Vec<String>, bin_size: WindowSize) -> (facets:
    Vec<SequenceFacet>)
    ensures
        facets@.len() == 1,
        facets@[0].state() matches SequenceFacetState::Coverage(state) && state == (
        CoverageFacetView {
            tallies: Map::<Seq<char>, Seq<usize>>::empty(),
            metrics: CoverageMetricsView {
                sequences: Seq::empty(),
                nonsensical_records: 0,
                pileup_too_large_positions: Seq::empty(),
            },
            primary_assembly: crate::genome::name_views(primary_assembly@),
            bin_size: bin_size@,
        }),
{
    let mut facets: Vec<SequenceFacet> = Vec::new();
    facets.push(SequenceFacet::Coverage(CoverageFacet::new(primary_assembly, bin_size)));
    facets
}

/// A general metrics facet that takes a run of records counts each of them.
pub proof fn lemma_general_counts_every_record(
    state: GeneralMetrics,
    records: Seq<AlignmentRecord>,
)
    requires
        state.records.total + records.len() <= usize::MAX,
    ensures
        processed_all::<RecordFacet>(RecordFacetState::General(state), records)
            == RecordFacetState::General(
            GeneralMetrics { records: counted_all(state.records, records), ..state },
        ),
    decreases records.len(),
{
    if records.len() > 0 {
        lemma_general_counts_every_record(state, records.drop_last());
        lemma_total_counts_records(state.records, records.drop_last());
    }
}

/// The summary in `state` gives its percentages as fractions over `n`
/// records.
pub open spec fn summary_over(state: GeneralMetrics, n: usize) -> bool {
    match state.summary {
        Some(summary) => match (summary.duplication_pct, summary.unmapped_pct) {
            (Some(duplication), Some(unmapped)) => duplication.denominator == n
                && unmapped.denominator == n,
            _ => false,
        },
        None => false,
    }
}

/// With a record cap, the percentages of the general metrics have the cap
/// as their denominator. When a fresh pass with the cap `cap` is offered at
/// least that many records and no facet fails, its count of records is
/// `cap`, and the summary that a fresh general metrics facet then takes
/// succeeds and gives fractions over `cap` records.
pub proof fn lemma_cap_is_the_denominator(
    pass: PassView<RecordFacetState>,
    records: Seq<AlignmentRecord>,
    cap: usize,
    i: int,
)
    requires
        pass.record_cap == Some(cap),
        pass.records == 0,
        pass.failure is None,
        records.len() >= cap,
        0 <= i < pass.states.len() <= usize::MAX,
        pass.states[i] matches RecordFacetState::General(state) && state.records.total == 0,
        offered_all::<RecordFacet>(pass, records).failure is None,
    ensures
        offered_all::<RecordFacet>(pass, records).records == cap,
        RecordFacet::summarized(offered_all::<RecordFacet>(pass, records).states[i]).1 is Ok,
        match RecordFacet::summarized(offered_all::<RecordFacet>(pass, records).states[i]).0 {
            RecordFacetState::General(state) => state.records.total == cap && (cap > 0
                ==> summary_over(state, cap)),
            _ => false,
        },
{
    let taken = records.take(cap as int);
    lemma_record_cap::<RecordFacet>(pass, records, cap);
    lemma_each_facet_takes_every_record::<RecordFacet>(pass, taken, i);
    let state = pass.states[i]->General_0;
    lemma_general_counts_every_record(state, taken);
    lemma_total_counts_records(state.records, taken);
}

} // verus!
