//! The two capability sets that a quality-control facet implements.
//!
//! A facet's behaviour is stated over its state, a plain value: each
//! operation is a function from the state before to the state after and the
//! outcome.

use crate::qc::results::Results;
use crate::qc::results::Section;
use crate::record::AlignmentRecord;
use vstd::prelude::*;

verus! {

/// How much work a facet does per record. It is reported to the operator and
/// decides nothing.
#[derive(Clone, Copy, Debug, PartialEq, Eq, Structural)]
pub enum ComputationalLoad {
    Light,
    Moderate,
    Heavy,
}

/// Why a facet gave up.
#[derive(Clone, Copy, Debug, PartialEq, Eq, Structural)]
pub enum FacetError {
    /// One of the facet's counters is at its highest value.
    CounterOverflow,
}

/// A reference sequence as the header of the file declares it.
#[derive(Debug)]
pub struct ReferenceSequence {
    pub name: String,
    pub length: usize,
}

/// A facet that sees every record of the file once, in file order.
pub trait RecordBasedFacet {
    /// The facet as a plain value.
    type State;

    /// The facet's state.
    spec fn state(&self) -> Self::State;

    /// The state after `record` was offered in `state`, and the outcome.
    spec fn processed(state: Self::State, record: AlignmentRecord) -> (
        Self::State,
        Result<(), FacetError>,
    );

    /// The state after the summary was taken in `state`, and the outcome.
    spec fn summarized(state: Self::State) -> (Self::State, Result<(), FacetError>);

    /// The section of the results that this facet fills.
    spec fn section(state: Self::State) -> Section;

    /// `results` holds in that section the metrics of a facet in `state`.
    spec fn deposited(state: Self::State, results: &Results) -> bool;

    /// Whether `results` holds a facet's metrics is a matter of the facet's
    /// own section: what is deposited stays so while that section stays.
    proof fn lemma_deposit_stays(state: Self::State, before: &Results, after: &Results)
        requires
            Self::deposited(state, before),
            after.same_in(before, Self::section(state)),
        ensures
            Self::deposited(state, after),
    ;

    /// The facet's name, for the operator.
    fn name(&self) -> &'static str;

    /// The facet's load class, for the operator.
    fn computational_load(&self) -> ComputationalLoad;

    /// Takes one record.
    fn process(&mut self, record: &AlignmentRecord) -> (outcome: Result<(), FacetError>)
        ensures
            (final(self).state(), outcome) == Self::processed(old(self).state(), *record),
    ;

    /// Called once, after the last record.
    fn summarize(&mut self) -> (outcome: Result<(), FacetError>)
        ensures
            (final(self).state(), outcome) == Self::summarized(old(self).state()),
    ;

    /// Puts the facet's metrics into its own section of `results` and leaves
    /// every other section as it was.
    fn aggregate(&self, results: &mut Results)
        ensures
            Self::deposited(self.state(), final(results)),
            final(results).same_except(old(results), Self::section(self.state())),
    ;
}

/// A facet that sees, sequence by sequence, the records aligned to each
/// reference sequence that it supports.
pub trait SequenceBasedFacet {
    /// The facet as a plain value.
    type State;

    /// The facet's state.
    spec fn state(&self) -> Self::State;

    /// A facet in `state` takes part in the scan of the sequence `name`.
    spec fn supports(state: Self::State, name: Seq<char>) -> bool;

    /// The state after the set-up for `sequence` in `state`, and the outcome.
    spec fn set_up(state: Self::State, sequence: ReferenceSequence) -> (
        Self::State,
        Result<(), FacetError>,
    );

    /// The state after `record`, aligned to `sequence`, was offered in
    /// `state`, and the outcome.
    spec fn processed(
        state: Self::State,
        sequence: ReferenceSequence,
        record: AlignmentRecord,
    ) -> (Self::State, Result<(), FacetError>);

    /// The state after the teardown of `sequence` in `state`, and the
    /// outcome.
    spec fn torn_down(state: Self::State, sequence: ReferenceSequence) -> (
        Self::State,
        Result<(), FacetError>,
    );

    /// The section of the results that this facet fills.
    spec fn section(state: Self::State) -> Section;

    /// `results` holds in that section the metrics of a facet in `state`.
    spec fn deposited(state: Self::State, results: &Results) -> bool;

    /// Whether `results` holds a facet's metrics is a matter of the facet's
    /// own section: what is deposited stays so while that section stays.
    proof fn lemma_deposit_stays(state: Self::State, before: &Results, after: &Results)
        requires
            Self::deposited(state, before),
            after.same_in(before, Self::section(state)),
        ensures
            Self::deposited(state, after),
    ;

    /// The facet's name, for the operator.
    fn name(&self) -> &'static str;

    /// The facet's load class, for the operator.
    fn computational_load(&self) -> ComputationalLoad;

    /// Whether the facet takes part in the scan of the sequence `name`.
    fn supports_sequence_name(&self, name: &String) -> (yes: bool)
        ensures
            yes == Self::supports(self.state(), name@),
    ;

    /// Called before the first record of `sequence`.
    fn setup_sequence(&mut self, sequence: &ReferenceSequence) -> (outcome: Result<(), FacetError>)
        ensures
            (final(self).state(), outcome) == Self::set_up(old(self).state(), *sequence),
    ;

    /// Takes one record aligned to `sequence`.
    fn process_record(&mut self, sequence: &ReferenceSequence, record: &AlignmentRecord) -> (outcome:
        Result<(), FacetError>)
        ensures
            (final(self).state(), outcome) == Self::processed(
                old(self).state(),
                *sequence,
                *record,
            ),
    ;

    /// Called after the last record of `sequence`, also when there was none.
    fn teardown_sequence(&mut self, sequence: &ReferenceSequence) -> (outcome: Result<
        (),
        FacetError,
    >)
        ensures
            (final(self).state(), outcome) == Self::torn_down(old(self).state(), *sequence),
    ;

    /// Puts a copy of the facet's metrics into its own section of `results`
    /// and leaves every other section, and the facet itself, as they were.
    fn aggregate(&mut self, results: &mut Results)
        ensures
            final(self).state() == old(self).state(),
            Self::deposited(old(self).state(), final(results)),
            final(results).same_except(old(results), Self::section(old(self).state())),
    ;
}

} // verus!
