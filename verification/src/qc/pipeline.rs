//! The pipeline that drives the facets: a first pass over every record of
//! the file, and a second pass over the records of each reference sequence.
//!
//! Reading records is left to the caller. The pipeline takes one record at a
//! time, hands it to the facets in the order of their registration, and
//! tells the caller whether to go on. The first facet that fails ends the
//! run: the facets after it are not offered the record.

use crate::qc::facet::FacetError;
use crate::qc::facet::RecordBasedFacet;
use crate::qc::facet::ReferenceSequence;
use crate::qc::facet::SequenceBasedFacet;
use crate::qc::results::Results;
use crate::qc::results::Section;
use crate::record::AlignmentRecord;
use vstd::prelude::*;

verus! {

/// A facet's failure: which facet, by its place in the registration, and
/// why.
#[derive(Clone, Copy, Debug, PartialEq, Eq, Structural)]
pub struct FacetFailure {
    pub facet: usize,
    pub error: FacetError,
}

/// What the caller of a pass does next.
#[derive(Clone, Copy, Debug, PartialEq, Eq, Structural)]
pub enum Scan {
    /// Read the next record and offer it.
    Continue,
    /// Stop reading: the record cap is reached.
    Halt,
}

/// The states after `step` was applied to the states from `from` on, in
/// order, up to and including the first for which it failed, and that
/// failure if there was one.
pub open spec fn run_in_order<S>(
    states: Seq<S>,
    step: spec_fn(S) -> (S, Result<(), FacetError>),
    from: int,
) -> (Seq<S>, Option<FacetFailure>)
    decreases states.len() - from,
{
    if from < 0 || from >= states.len() {
        (states, None)
    } else {
        match step(states[from]).1 {
            Ok(()) => run_in_order(states.update(from, step(states[from]).0), step, from + 1),
            Err(error) => (
                states.update(from, step(states[from]).0),
                Some(FacetFailure { facet: from as usize, error }),
            ),
        }
    }
}

/// `step` fails for none of the states from `from` up to `to`.
pub open spec fn all_pass<S>(
    states: Seq<S>,
    step: spec_fn(S) -> (S, Result<(), FacetError>),
    from: int,
    to: int,
) -> bool {
    forall|i: int| from <= i < to && 0 <= i < states.len() ==> (#[trigger] step(states[i])).1 is Ok
}

/// What running in order comes to. The states before `from` stay. If `step`
/// fails for none of the others, each of them has taken the step. If it
/// fails, it does so for the state at `failure.facet` and for none between
/// `from` and that one: those have taken the step, the failing one is left
/// as its failed step leaves it, and the ones after it stay as they were,
/// since they were not reached.
pub proof fn lemma_run_in_order<S>(
    states: Seq<S>,
    step: spec_fn(S) -> (S, Result<(), FacetError>),
    from: int,
)
    requires
        0 <= from <= states.len() <= usize::MAX,
    ensures
        run_in_order(states, step, from).0.len() == states.len(),
        forall|i: int| 0 <= i < from ==> run_in_order(states, step, from).0[i] == states[i],
        match run_in_order(states, step, from).1 {
            None => {
                &&& all_pass(states, step, from, states.len() as int)
                &&& forall|i: int|
                    from <= i < states.len() ==> run_in_order(states, step, from).0[i] == step(
                        states[i],
                    ).0
            },
            Some(failure) => {
                &&& from <= failure.facet < states.len()
                &&& step(states[failure.facet as int]).1 == Err::<(), FacetError>(failure.error)
                &&& all_pass(states, step, from, failure.facet as int)
                &&& forall|i: int|
                    from <= i <= failure.facet ==> run_in_order(states, step, from).0[i] == step(
                        states[i],
                    ).0
                &&& forall|i: int|
                    failure.facet < i < states.len() ==> run_in_order(states, step, from).0[i]
                        == states[i]
            },
        },
    decreases states.len() - from,
{
    let run = run_in_order(states, step, from);
    if from < states.len() {
        let next = states.update(from, step(states[from]).0);
        if step(states[from]).1 is Ok {
            lemma_run_in_order(next, step, from + 1);
            assert(run == run_in_order(next, step, from + 1));
            assert forall|i: int| 0 <= i < states.len() && i != from implies next[i]
                == states[i] by {}
            assert forall|i: int| 0 <= i < from implies run.0[i] == states[i] by {
                assert(run.0[i] == next[i]);
            }
            match run.1 {
                None => {
                    assert forall|i: int| from <= i < states.len() implies (#[trigger] step(
                        states[i],
                    )).1 is Ok && run.0[i] == step(states[i]).0 by {
                        if i > from {
                            assert(step(next[i]).1 is Ok);
                        } else {
                            assert(run.0[i] == next[i]);
                        }
                    }
                },
                Some(failure) => {
                    let at = failure.facet as int;
                    assert forall|i: int| from <= i < at implies (#[trigger] step(
                        states[i],
                    )).1 is Ok by {
                        if i > from {
                            assert(step(next[i]).1 is Ok);
                        }
                    }
                    assert forall|i: int| from <= i <= at implies run.0[i] == step(
                        states[i],
                    ).0 by {
                        if i == from {
                            assert(run.0[i] == next[i]);
                        }
                    }
                },
            }
        }
    }
}

/// Of two facets the one registered first goes first: when `step` fails for
/// the state at `first`, and for none before it, the state at `second` is
/// left as it was.
pub proof fn lemma_registration_order<S>(
    states: Seq<S>,
    step: spec_fn(S) -> (S, Result<(), FacetError>),
    first: int,
    second: int,
)
    requires
        0 <= first < second < states.len() <= usize::MAX,
        all_pass(states, step, 0, first),
        step(states[first]).1 is Err,
    ensures
        run_in_order(states, step, 0).0[second] == states[second],
        run_in_order(states, step, 0).0[first] == step(states[first]).0,
        run_in_order(states, step, 0).1 matches Some(failure) && failure.facet == first,
{
    lemma_run_in_order(states, step, 0);
    let failure = run_in_order(states, step, 0).1;
    if failure is None {
        assert(step(states[first]).1 is Ok);
    } else {
        let at = failure.unwrap().facet as int;
        if at < first {
            assert(step(states[at]).1 is Ok);
        } else if at > first {
            assert(step(states[first]).1 is Ok);
        }
    }
}

/// The states of `facets`.
pub open spec fn record_states<F: RecordBasedFacet>(facets: Seq<F>) -> Seq<F::State> {
    Seq::new(facets.len(), |i: int| facets[i].state())
}

/// What offering `record` does to one facet.
pub open spec fn process_step<F: RecordBasedFacet>(record: AlignmentRecord) -> spec_fn(
    F::State,
) -> (F::State, Result<(), FacetError>) {
    |state: F::State| F::processed(state, record)
}

/// What taking the summary does to one facet.
pub open spec fn summarize_step<F: RecordBasedFacet>() -> spec_fn(F::State) -> (
    F::State,
    Result<(), FacetError>,
) {
    |state: F::State| F::summarized(state)
}

/// The failure that `outcome` carries.
pub open spec fn failure_of(outcome: Result<(), FacetFailure>) -> Option<FacetFailure> {
    match outcome {
        Ok(()) => None,
        Err(failure) => Some(failure),
    }
}

/// Offers `record` to every facet in the order of registration, and stops
/// at the first that fails.
pub fn process_all<F: RecordBasedFacet>(facets: &mut Vec<F>, record: &AlignmentRecord) -> (outcome:
    Result<(), FacetFailure>)
    ensures
        (record_states(final(facets)@), failure_of(outcome)) == run_in_order(
            record_states(old(facets)@),
            process_step::<F>(*record),
            0,
        ),
{
    let ghost step = process_step::<F>(*record);
    let ghost start = record_states(facets@);
    let mut i: usize = 0;
    while i < facets.len()
        invariant
            i <= facets.len(),
            step == process_step::<F>(*record),
            start == record_states(old(facets)@),
            run_in_order(start, step, 0) == run_in_order(record_states(facets@), step, i as int),
        decreases facets.len() - i,
    {
        let ghost before = record_states(facets@);
        let outcome = facets[i].process(record);
        proof {
            assert(record_states(facets@) =~= before.update(i as int, step(before[i as int]).0));
            assert(step(before[i as int]).1 == outcome);
            assert(run_in_order(before, step, i as int) == match outcome {
                Ok(()) => run_in_order(record_states(facets@), step, i + 1),
                Err(error) => (record_states(facets@), Some(FacetFailure { facet: i, error })),
            });
        }
        match outcome {
            Ok(()) => {},
            Err(error) => {
                return Err(FacetFailure { facet: i, error });
            },
        }
        i += 1;
    }
    Ok(())
}

/// Takes the summary of every facet in the order of registration, and stops
/// at the first that fails.
pub fn summarize_all<F: RecordBasedFacet>(facets: &mut Vec<F>) -> (outcome: Result<
    (),
    FacetFailure,
>)
    ensures
        (record_states(final(facets)@), failure_of(outcome)) == run_in_order(
            record_states(old(facets)@),
            summarize_step::<F>(),
            0,
        ),
{
    let ghost step = summarize_step::<F>();
    let ghost start = record_states(facets@);
    let mut i: usize = 0;
    while i < facets.len()
        invariant
            i <= facets.len(),
            step == summarize_step::<F>(),
            start == record_states(old(facets)@),
            run_in_order(start, step, 0) == run_in_order(record_states(facets@), step, i as int),
        decreases facets.len() - i,
    {
        let ghost before = record_states(facets@);
        let outcome = facets[i].summarize();
        proof {
            assert(record_states(facets@) =~= before.update(i as int, step(before[i as int]).0));
            assert(step(before[i as int]).1 == outcome);
            assert(run_in_order(before, step, i as int) == match outcome {
                Ok(()) => run_in_order(record_states(facets@), step, i + 1),
                Err(error) => (record_states(facets@), Some(FacetFailure { facet: i, error })),
            });
        }
        match outcome {
            Ok(()) => {},
            Err(error) => {
                return Err(FacetFailure { facet: i, error });
            },
        }
        i += 1;
    }
    Ok(())
}

/// The first pass as plain values.
pub struct PassView<S> {
    /// The states of the facets, in the order of registration.
    pub states: Seq<S>,
    /// The number of records after which the pass halts, if any.
    pub record_cap: Option<usize>,
    /// The number of records that every facet has taken.
    pub records: usize,
    /// The failure that ended the pass, if any.
    pub failure: Option<FacetFailure>,
}

/// The first pass: every record of the file, once, in file order.
pub struct FirstPass<F: RecordBasedFacet> {
    facets: Vec<F>,
    record_cap: Option<usize>,
    records: usize,
    failure: Option<FacetFailure>,
}

/// The pass takes another record: no facet has failed, the cap is not
/// reached, and the count of records can still grow.
pub open spec fn wants_record<S>(pass: PassView<S>) -> bool {
    &&& pass.failure is None
    &&& pass.records < usize::MAX
    &&& pass.record_cap matches Some(cap) ==> pass.records < cap
}

/// The pass after `record` was offered. A pass that takes no more records
/// stays as it is: no facet sees the record.
pub open spec fn offered<F: RecordBasedFacet>(
    pass: PassView<F::State>,
    record: AlignmentRecord,
) -> PassView<F::State> {
    if !wants_record(pass) {
        pass
    } else {
        let run = run_in_order(pass.states, process_step::<F>(record), 0);
        PassView {
            states: run.0,
            record_cap: pass.record_cap,
            records: if run.1 is None {
                (pass.records + 1) as usize
            } else {
                pass.records
            },
            failure: run.1,
        }
    }
}

/// The pass after every record of `records` was offered, first to last.
pub open spec fn offered_all<F: RecordBasedFacet>(
    pass: PassView<F::State>,
    records: Seq<AlignmentRecord>,
) -> PassView<F::State>
    decreases records.len(),
{
    if records.len() == 0 {
        pass
    } else {
        offered::<F>(offered_all::<F>(pass, records.drop_last()), records.last())
    }
}

/// What the caller does after an offer: it gives up when a facet has
/// failed, and else reads on or halts.
pub open spec fn next_action<S>(pass: PassView<S>) -> Result<Scan, FacetFailure> {
    match pass.failure {
        Some(failure) => Err(failure),
        None => Ok(
            if wants_record(pass) {
                Scan::Continue
            } else {
                Scan::Halt
            },
        ),
    }
}

/// The state of one facet after it has taken every record of `records`,
/// first to last.
pub open spec fn processed_all<F: RecordBasedFacet>(
    state: F::State,
    records: Seq<AlignmentRecord>,
) -> F::State
    decreases records.len(),
{
    if records.len() == 0 {
        state
    } else {
        F::processed(processed_all::<F>(state, records.drop_last()), records.last()).0
    }
}

impl<F: RecordBasedFacet> View for FirstPass<F> {
    type V = PassView<F::State>;

    closed spec fn view(&self) -> PassView<F::State> {
        PassView {
            states: record_states(self.facets@),
            record_cap: self.record_cap,
            records: self.records,
            failure: self.failure,
        }
    }
}

impl<F: RecordBasedFacet> FirstPass<F> {
    /// A pass over `facets`, registered in that order, that halts after
    /// `record_cap` records if a cap is given.
    pub fn new(facets: Vec<F>, record_cap: Option<usize>) -> (pass: Self)
        ensures
            pass@ == (PassView {
                states: record_states(facets@),
                record_cap,
                records: 0,
                failure: None,
            }),
    {
        FirstPass { facets, record_cap, records: 0, failure: None }
    }

    /// Whether the pass takes another record.
    pub fn wants_record(&self) -> (yes: bool)
        ensures
            yes == wants_record(self@),
    {
        self.failure.is_none() && self.records < usize::MAX && match self.record_cap {
            Some(cap) => self.records < cap,
            None => true,
        }
    }

    /// The number of records that every facet has taken.
    pub fn record_count(&self) -> (n: usize)
        ensures
            n == self@.records,
    {
        self.records
    }

    /// Offers one record. While the pass takes records, every facet is
    /// handed the record in the order of registration; the first failure
    /// ends the pass. A pass that takes no more records leaves the record
    /// unseen.
    pub fn offer(&mut self, record: &AlignmentRecord) -> (action: Result<Scan, FacetFailure>)
        ensures
            final(self)@ == offered::<F>(old(self)@, *record),
            action == next_action(final(self)@),
    {
        if self.wants_record() {
            match process_all(&mut self.facets, record) {
                Ok(()) => {
                    self.records = self.records + 1;
                },
                Err(failure) => {
                    self.failure = Some(failure);
                },
            }
        }
        match self.failure {
            Some(failure) => Err(failure),
            None => Ok(
                if self.wants_record() {
                    Scan::Continue
                } else {
                    Scan::Halt
                },
            ),
        }
    }

    /// Ends the pass: takes the summary of every facet in the order of
    /// registration and hands the facets back. A pass that a facet's
    /// failure has ended gives that failure and takes no summary.
    pub fn finish(self) -> (r: Result<Vec<F>, FacetFailure>)
        ensures
            match self@.failure {
                Some(failure) => r matches Err(e) && e == failure,
                None => {
                    let run = run_in_order(self@.states, summarize_step::<F>(), 0);
                    match r {
                        Ok(facets) => run.1 is None && record_states(facets@) == run.0,
                        Err(failure) => run.1 == Some(failure),
                    }
                },
            },
    {
        match self.failure {
            Some(failure) => Err(failure),
            None => {
                let mut facets = self.facets;
                match summarize_all(&mut facets) {
                    Ok(()) => Ok(facets),
                    Err(failure) => Err(failure),
                }
            },
        }
    }
}

/// A failure stays: once a facet has failed, further offers change nothing.
pub proof fn lemma_failure_stays<F: RecordBasedFacet>(
    pass: PassView<F::State>,
    records: Seq<AlignmentRecord>,
)
    requires
        pass.failure is Some,
    ensures
        offered_all::<F>(pass, records) == pass,
    decreases records.len(),
{
    if records.len() > 0 {
        lemma_failure_stays::<F>(pass, records.drop_last());
    }
}

/// A pass with a record cap halts after exactly that many records. As long
/// as no facet fails, the pass has taken the records up to the cap and no
/// other: it is what it would be had the records after the cap never been
/// offered, its count is the number of records taken, and it asks for more
/// exactly while the cap is not reached.
pub proof fn lemma_record_cap<F: RecordBasedFacet>(
    pass: PassView<F::State>,
    records: Seq<AlignmentRecord>,
    cap: usize,
)
    requires
        pass.record_cap == Some(cap),
        pass.records <= cap,
        pass.failure is None,
        offered_all::<F>(pass, records).failure is None,
    ensures
        ({
            let room = cap - pass.records;
            let taken = if records.len() <= room {
                records.len() as int
            } else {
                room
            };
            let after = offered_all::<F>(pass, records);
            &&& after.records == pass.records + taken
            &&& after.record_cap == Some(cap)
            &&& after == offered_all::<F>(pass, records.take(taken))
            &&& wants_record(after) <==> after.records < cap
        }),
    decreases records.len(),
{
    let room = cap - pass.records;
    if records.len() == 0 {
        assert(records.take(0) =~= records);
    } else {
        let before = offered_all::<F>(pass, records.drop_last());
        if before.failure is Some {
            assert(offered::<F>(before, records.last()) == before);
        }
        lemma_record_cap::<F>(pass, records.drop_last(), cap);
        if records.len() - 1 < room {
            assert(records.take(records.len() as int) =~= records);
        } else {
            assert(records.take(room) =~= records.drop_last().take(room));
        }
    }
}

/// While every record is taken and no facet fails, each facet is after the
/// pass what it is after taking those records, first to last, by itself: it
/// has seen each record once, in file order, and nothing else.
pub proof fn lemma_each_facet_takes_every_record<F: RecordBasedFacet>(
    pass: PassView<F::State>,
    records: Seq<AlignmentRecord>,
    i: int,
)
    requires
        0 <= i < pass.states.len() <= usize::MAX,
        offered_all::<F>(pass, records).failure is None,
        offered_all::<F>(pass, records).records == pass.records + records.len(),
    ensures
        offered_all::<F>(pass, records).states.len() == pass.states.len(),
        offered_all::<F>(pass, records).states[i] == processed_all::<F>(pass.states[i], records),
    decreases records.len(),
{
    if records.len() > 0 {
        let before = offered_all::<F>(pass, records.drop_last());
        lemma_count_grows::<F>(pass, records.drop_last());
        if before.failure is Some {
            assert(offered::<F>(before, records.last()) == before);
        }
        assert(wants_record(before));
        lemma_each_facet_takes_every_record::<F>(pass, records.drop_last(), i);
        lemma_run_in_order(before.states, process_step::<F>(records.last()), 0);
    }
}

/// A fresh pass with a record cap hands exactly the first records to every
/// facet, up to the cap, in file order, and no others. As long as no facet
/// fails, each facet is after the pass what it is after taking those
/// records by itself, the count is their number, and the pass has not
/// failed: reaching the cap is an ordinary end, after which the summaries
/// are taken.
pub proof fn lemma_capped_pass_takes_the_first_records<F: RecordBasedFacet>(
    pass: PassView<F::State>,
    records: Seq<AlignmentRecord>,
    cap: usize,
    i: int,
)
    requires
        pass.record_cap == Some(cap),
        pass.records == 0,
        pass.failure is None,
        0 <= i < pass.states.len() <= usize::MAX,
        offered_all::<F>(pass, records).failure is None,
    ensures
        ({
            let taken = if records.len() <= cap {
                records.len() as int
            } else {
                cap as int
            };
            let after = offered_all::<F>(pass, records);
            &&& after.records == taken
            &&& after.states.len() == pass.states.len()
            &&& after.states[i] == processed_all::<F>(pass.states[i], records.take(taken))
            &&& next_action(after) is Ok
            &&& next_action(after) == Ok::<Scan, FacetFailure>(Scan::Halt) <==> (taken == cap
                || taken == usize::MAX)
        }),
{
    let taken = if records.len() <= cap {
        records.len() as int
    } else {
        cap as int
    };
    lemma_record_cap::<F>(pass, records, cap);
    lemma_each_facet_takes_every_record::<F>(pass, records.take(taken), i);
}

/// The count of records grows by at most one with each record offered.
pub proof fn lemma_count_grows<F: RecordBasedFacet>(
    pass: PassView<F::State>,
    records: Seq<AlignmentRecord>,
)
    ensures
        pass.records <= offered_all::<F>(pass, records).records <= pass.records + records.len(),
    decreases records.len(),
{
    if records.len() > 0 {
        lemma_count_grows::<F>(pass, records.drop_last());
    }
}

/// The states of `facets`.
pub open spec fn sequence_states<F: SequenceBasedFacet>(facets: Seq<F>) -> Seq<F::State> {
    Seq::new(facets.len(), |i: int| facets[i].state())
}

/// What the set-up for `sequence` does to one facet: nothing, unless the
/// facet supports the sequence.
pub open spec fn set_up_step<F: SequenceBasedFacet>(sequence: ReferenceSequence) -> spec_fn(
    F::State,
) -> (F::State, Result<(), FacetError>) {
    |state: F::State|
        if F::supports(state, sequence.name@) {
            F::set_up(state, sequence)
        } else {
            (state, Ok(()))
        }
}

/// What offering `record`, aligned to `sequence`, does to one facet:
/// nothing, unless the facet supports the sequence.
pub open spec fn process_record_step<F: SequenceBasedFacet>(
    sequence: ReferenceSequence,
    record: AlignmentRecord,
) -> spec_fn(F::State) -> (F::State, Result<(), FacetError>) {
    |state: F::State|
        if F::supports(state, sequence.name@) {
            F::processed(state, sequence, record)
        } else {
            (state, Ok(()))
        }
}

/// What the teardown of `sequence` does to one facet: nothing, unless the
/// facet supports the sequence.
pub open spec fn tear_down_step<F: SequenceBasedFacet>(sequence: ReferenceSequence) -> spec_fn(
    F::State,
) -> (F::State, Result<(), FacetError>) {
    |state: F::State|
        if F::supports(state, sequence.name@) {
            F::torn_down(state, sequence)
        } else {
            (state, Ok(()))
        }
}

/// Sets up, in the order of registration, every facet that supports
/// `sequence`, and stops at the first that fails.
pub fn setup_sequence_all<F: SequenceBasedFacet>(
    facets: &mut Vec<F>,
    sequence: &ReferenceSequence,
) -> (outcome: Result<(), FacetFailure>)
    ensures
        (sequence_states(final(facets)@), failure_of(outcome)) == run_in_order(
            sequence_states(old(facets)@),
            set_up_step::<F>(*sequence),
            0,
        ),
{
    let ghost step = set_up_step::<F>(*sequence);
    let ghost start = sequence_states(facets@);
    let mut i: usize = 0;
    while i < facets.len()
        invariant
            i <= facets.len(),
            step == set_up_step::<F>(*sequence),
            start == sequence_states(old(facets)@),
            run_in_order(start, step, 0) == run_in_order(sequence_states(facets@), step, i as int),
        decreases facets.len() - i,
    {
        let ghost before = sequence_states(facets@);
        let outcome = if facets[i].supports_sequence_name(&sequence.name) {
            facets[i].setup_sequence(sequence)
        } else {
            Ok(())
        };
        proof {
            assert(sequence_states(facets@) =~= before.update(i as int, step(before[i as int]).0));
            assert(step(before[i as int]).1 == outcome);
            assert(run_in_order(before, step, i as int) == match outcome {
                Ok(()) => run_in_order(sequence_states(facets@), step, i + 1),
                Err(error) => (sequence_states(facets@), Some(FacetFailure { facet: i, error })),
            });
        }
        match outcome {
            Ok(()) => {},
            Err(error) => {
                return Err(FacetFailure { facet: i, error });
            },
        }
        i += 1;
    }
    Ok(())
}

/// Offers `record`, aligned to `sequence`, in the order of registration to
/// every facet that supports `sequence`, and stops at the first that fails.
pub fn process_record_all<F: SequenceBasedFacet>(
    facets: &mut Vec<F>,
    sequence: &ReferenceSequence,
    record: &AlignmentRecord,
) -> (outcome: Result<(), FacetFailure>)
    ensures
        (sequence_states(final(facets)@), failure_of(outcome)) == run_in_order(
            sequence_states(old(facets)@),
            process_record_step::<F>(*sequence, *record),
            0,
        ),
{
    let ghost step = process_record_step::<F>(*sequence, *record);
    let ghost start = sequence_states(facets@);
    let mut i: usize = 0;
    while i < facets.len()
        invariant
            i <= facets.len(),
            step == process_record_step::<F>(*sequence, *record),
            start == sequence_states(old(facets)@),
            run_in_order(start, step, 0) == run_in_order(sequence_states(facets@), step, i as int),
        decreases facets.len() - i,
    {
        let ghost before = sequence_states(facets@);
        let outcome = if facets[i].supports_sequence_name(&sequence.name) {
            facets[i].process_record(sequence, record)
        } else {
            Ok(())
        };
        proof {
            assert(sequence_states(facets@) =~= before.update(i as int, step(before[i as int]).0));
            assert(step(before[i as int]).1 == outcome);
            assert(run_in_order(before, step, i as int) == match outcome {
                Ok(()) => run_in_order(sequence_states(facets@), step, i + 1),
                Err(error) => (sequence_states(facets@), Some(FacetFailure { facet: i, error })),
            });
        }
        match outcome {
            Ok(()) => {},
            Err(error) => {
                return Err(FacetFailure { facet: i, error });
            },
        }
        i += 1;
    }
    Ok(())
}

/// Tears down, in the order of registration, every facet that supports
/// `sequence`, and stops at the first that fails.
pub fn teardown_sequence_all<F: SequenceBasedFacet>(
    facets: &mut Vec<F>,
    sequence: &ReferenceSequence,
) -> (outcome: Result<(), FacetFailure>)
    ensures
        (sequence_states(final(facets)@), failure_of(outcome)) == run_in_order(
            sequence_states(old(facets)@),
            tear_down_step::<F>(*sequence),
            0,
        ),
{
    let ghost step = tear_down_step::<F>(*sequence);
    let ghost start = sequence_states(facets@);
    let mut i: usize = 0;
    while i < facets.len()
        invariant
            i <= facets.len(),
            step == tear_down_step::<F>(*sequence),
            start == sequence_states(old(facets)@),
            run_in_order(start, step, 0) == run_in_order(sequence_states(facets@), step, i as int),
        decreases facets.len() - i,
    {
        let ghost before = sequence_states(facets@);
        let outcome = if facets[i].supports_sequence_name(&sequence.name) {
            facets[i].teardown_sequence(sequence)
        } else {
            Ok(())
        };
        proof {
            assert(sequence_states(facets@) =~= before.update(i as int, step(before[i as int]).0));
            assert(step(before[i as int]).1 == outcome);
            assert(run_in_order(before, step, i as int) == match outcome {
                Ok(()) => run_in_order(sequence_states(facets@), step, i + 1),
                Err(error) => (sequence_states(facets@), Some(FacetFailure { facet: i, error })),
            });
        }
        match outcome {
            Ok(()) => {},
            Err(error) => {
                return Err(FacetFailure { facet: i, error });
            },
        }
        i += 1;
    }
    Ok(())
}

/// The part of a reference sequence that one query asks for. Positions are
/// one-based and inclusive.
#[derive(Debug)]
pub struct Region {
    pub name: String,
    pub start: usize,
    pub end: usize,
}

/// The region that spans all of `sequence`: from the first position to the
/// declared length. For a sequence of length zero it holds no position.
pub fn sequence_region(sequence: &ReferenceSequence) -> (region: Region)
    ensures
        region.name@ == sequence.name@,
        region.start == 1,
        region.end == sequence.length,
{
    Region { name: sequence.name.clone(), start: 1, end: sequence.length }
}

/// The second pass as plain values.
pub struct SequencePassView<S> {
    /// The states of the facets, in the order of registration.
    pub states: Seq<S>,
    /// The reference sequences, in the order of the header.
    pub sequences: Seq<ReferenceSequence>,
    /// The number of sequences whose scan has begun.
    pub begun: usize,
    /// The scan of the last of them is still going on.
    pub open: bool,
    /// The failure that ended the pass, if any.
    pub failure: Option<FacetFailure>,
}

/// The second pass: for each reference sequence in the order of the header,
/// the records aligned to it, between set-up and teardown.
pub struct SecondPass<F: SequenceBasedFacet> {
    facets: Vec<F>,
    sequences: Vec<ReferenceSequence>,
    begun: usize,
    open: bool,
    failure: Option<FacetFailure>,
}

/// The pass is where a run of steps can bring it.
pub open spec fn in_step<S>(pass: SequencePassView<S>) -> bool {
    &&& pass.begun <= pass.sequences.len()
    &&& pass.open ==> pass.begun >= 1
}

/// The pass after the step to the next sequence. The sequence that is open
/// is torn down; then, if the header has another sequence, that one is set
/// up and is open. The first failure ends the pass.
pub open spec fn advanced<F: SequenceBasedFacet>(
    pass: SequencePassView<F::State>,
) -> SequencePassView<F::State> {
    if pass.failure is Some {
        pass
    } else {
        let closed = if pass.open {
            run_in_order(pass.states, tear_down_step::<F>(pass.sequences[pass.begun - 1]), 0)
        } else {
            (pass.states, None)
        };
        if closed.1 is Some {
            SequencePassView { states: closed.0, failure: closed.1, ..pass }
        } else if pass.begun >= pass.sequences.len() {
            SequencePassView { states: closed.0, open: false, ..pass }
        } else {
            let opened = run_in_order(
                closed.0,
                set_up_step::<F>(pass.sequences[pass.begun as int]),
                0,
            );
            if opened.1 is Some {
                SequencePassView { states: opened.0, open: false, failure: opened.1, ..pass }
            } else {
                SequencePassView {
                    states: opened.0,
                    open: true,
                    begun: (pass.begun + 1) as usize,
                    ..pass
                }
            }
        }
    }
}

/// The pass after `record` was offered: the facets that support the open
/// sequence have taken it. Without an open sequence, and after a failure,
/// the pass stays as it is.
pub open spec fn record_offered<F: SequenceBasedFacet>(
    pass: SequencePassView<F::State>,
    record: AlignmentRecord,
) -> SequencePassView<F::State> {
    if pass.failure is Some || !pass.open {
        pass
    } else {
        let run = run_in_order(
            pass.states,
            process_record_step::<F>(pass.sequences[pass.begun - 1], record),
            0,
        );
        SequencePassView { states: run.0, failure: run.1, ..pass }
    }
}

/// The pass after `steps` steps to the next sequence, with no record in
/// between.
pub open spec fn advanced_by<F: SequenceBasedFacet>(
    pass: SequencePassView<F::State>,
    steps: nat,
) -> SequencePassView<F::State>
    decreases steps,
{
    if steps == 0 {
        pass
    } else {
        advanced::<F>(advanced_by::<F>(pass, (steps - 1) as nat))
    }
}

impl<F: SequenceBasedFacet> View for SecondPass<F> {
    type V = SequencePassView<F::State>;

    closed spec fn view(&self) -> SequencePassView<F::State> {
        SequencePassView {
            states: sequence_states(self.facets@),
            sequences: self.sequences@,
            begun: self.begun,
            open: self.open,
            failure: self.failure,
        }
    }
}

impl<F: SequenceBasedFacet> SecondPass<F> {
    #[verifier::type_invariant]
    spec fn inv(&self) -> bool {
        &&& self.begun <= self.sequences@.len()
        &&& self.open ==> self.begun >= 1
    }

    /// A pass over `facets`, registered in that order, through `sequences`
    /// in that order. No sequence is open yet.
    pub fn new(facets: Vec<F>, sequences: Vec<ReferenceSequence>) -> (pass: Self)
        ensures
            pass@ == (SequencePassView {
                states: sequence_states(facets@),
                sequences: sequences@,
                begun: 0,
                open: false,
                failure: None,
            }),
            in_step(pass@),
    {
        SecondPass { facets, sequences, begun: 0, open: false, failure: None }
    }

    /// Steps to the next sequence and gives the region to query for its
    /// records, or `None` once the last sequence is torn down.
    pub fn advance(&mut self) -> (r: Result<Option<Region>, FacetFailure>)
        ensures
            final(self)@ == advanced::<F>(old(self)@),
            in_step(final(self)@),
            match r {
                Err(failure) => final(self)@.failure == Some(failure),
                Ok(Some(region)) => {
                    &&& final(self)@.failure is None
                    &&& final(self)@.open
                    &&& region.name@ == final(self)@.sequences[final(self)@.begun - 1].name@
                    &&& region.start == 1
                    &&& region.end == final(self)@.sequences[final(self)@.begun - 1].length
                },
                Ok(None) => final(self)@.failure is None && !final(self)@.open,
            },
    {
        proof {
            use_type_invariant(&*self);
        }
        match self.failure {
            Some(failure) => {
                return Err(failure);
            },
            None => {},
        }
        let mut facets: Vec<F> = Vec::new();
        std::mem::swap(&mut facets, &mut self.facets);
        if self.open {
            match teardown_sequence_all(&mut facets, &self.sequences[self.begun - 1]) {
                Ok(()) => {},
                Err(failure) => {
                    std::mem::swap(&mut facets, &mut self.facets);
                    self.failure = Some(failure);
                    return Err(failure);
                },
            }
        }
        if self.begun >= self.sequences.len() {
            std::mem::swap(&mut facets, &mut self.facets);
            self.open = false;
            return Ok(None);
        }
        match setup_sequence_all(&mut facets, &self.sequences[self.begun]) {
            Ok(()) => {},
            Err(failure) => {
                std::mem::swap(&mut facets, &mut self.facets);
                self.open = false;
                self.failure = Some(failure);
                return Err(failure);
            },
        }
        std::mem::swap(&mut facets, &mut self.facets);
        let region = sequence_region(&self.sequences[self.begun]);
        self.begun = self.begun + 1;
        self.open = true;
        Ok(Some(region))
    }

    /// Offers one record of the open sequence to the facets that support
    /// the sequence, in the order of registration. Without an open
    /// sequence the record is left unseen.
    pub fn offer(&mut self, record: &AlignmentRecord) -> (r: Result<(), FacetFailure>)
        ensures
            final(self)@ == record_offered::<F>(old(self)@, *record),
            failure_of(r) == final(self)@.failure,
    {
        proof {
            use_type_invariant(&*self);
        }
        match self.failure {
            Some(failure) => {
                return Err(failure);
            },
            None => {},
        }
        if !self.open {
            return Ok(());
        }
        let mut facets: Vec<F> = Vec::new();
        std::mem::swap(&mut facets, &mut self.facets);
        let outcome = process_record_all(&mut facets, &self.sequences[self.begun - 1], record);
        std::mem::swap(&mut facets, &mut self.facets);
        match outcome {
            Ok(()) => Ok(()),
            Err(failure) => {
                self.failure = Some(failure);
                Err(failure)
            },
        }
    }

    /// Ends the pass and hands the facets back.
    pub fn into_facets(self) -> (facets: Vec<F>)
        ensures
            sequence_states(facets@) == self@.states,
    {
        self.facets
    }
}

/// The sequences are visited in the order of the header, each once: as long
/// as no facet fails, after `steps` steps from the start that many
/// sequences have begun, the last of them is open while the header has
/// that many, and one step more than the header has sequences ends the
/// pass with none open.
pub proof fn lemma_header_order<F: SequenceBasedFacet>(
    pass: SequencePassView<F::State>,
    steps: nat,
)
    requires
        pass.begun == 0,
        !pass.open,
        pass.sequences.len() < usize::MAX,
        advanced_by::<F>(pass, steps).failure is None,
    ensures
        advanced_by::<F>(pass, steps).sequences == pass.sequences,
        steps <= pass.sequences.len() ==> advanced_by::<F>(pass, steps).begun == steps && (
        advanced_by::<F>(pass, steps).open <==> steps > 0),
        steps > pass.sequences.len() ==> advanced_by::<F>(pass, steps).begun
            == pass.sequences.len() && !advanced_by::<F>(pass, steps).open,
    decreases steps,
{
    if steps > 0 {
        let before = advanced_by::<F>(pass, (steps - 1) as nat);
        if before.failure is Some {
            assert(advanced::<F>(before) == before);
        }
        lemma_header_order::<F>(pass, (steps - 1) as nat);
    }
}

/// The sections from `from` on all differ from `section`.
pub open spec fn unclaimed_from(sections: Seq<Section>, section: Section, from: int) -> bool {
    forall|j: int| from <= j < sections.len() ==> sections[j] != section
}

/// The sections of record-based facets in `states`.
pub open spec fn record_sections<F: RecordBasedFacet>(states: Seq<F::State>) -> Seq<Section> {
    Seq::new(states.len(), |i: int| F::section(states[i]))
}

/// The sections of sequence-based facets in `states`.
pub open spec fn sequence_sections<F: SequenceBasedFacet>(states: Seq<F::State>) -> Seq<Section> {
    Seq::new(states.len(), |i: int| F::section(states[i]))
}

/// Lets every facet put its metrics into `results`, in the order of
/// registration. Each facet's metrics are then in its section, unless a
/// facet registered after it fills the same section; a section that no
/// facet fills is left as it was.
pub fn aggregate_results<F: RecordBasedFacet>(facets: &Vec<F>, results: &mut Results)
    ensures
        forall|i: int|
            0 <= i < facets@.len() && unclaimed_from(
                record_sections::<F>(record_states(facets@)),
                F::section(facets@[i].state()),
                i + 1,
            ) ==> F::deposited(#[trigger] facets@[i].state(), final(results)),
        forall|section: Section|
            unclaimed_from(record_sections::<F>(record_states(facets@)), section, 0)
                ==> final(results).same_in(old(results), section),
{
    let ghost sections = record_sections::<F>(record_states(facets@));
    let mut i: usize = 0;
    while i < facets.len()
        invariant
            i <= facets.len(),
            sections == record_sections::<F>(record_states(facets@)),
            forall|k: int|
                0 <= k < i && (forall|j: int| k < j < i ==> sections[j] != sections[k])
                    ==> F::deposited(#[trigger] facets@[k].state(), results),
            forall|section: Section|
                (forall|j: int| 0 <= j < i ==> sections[j] != section) ==> results.same_in(
                    old(results),
                    section,
                ),
        decreases facets.len() - i,
    {
        let ghost before = *results;
        facets[i].aggregate(results);
        proof {
            assert forall|k: int|
                0 <= k < i + 1 && (forall|j: int|
                    k < j < i + 1 ==> sections[j] != sections[k]) implies F::deposited(
                #[trigger] facets@[k].state(),
                results,
            ) by {
                if k < i {
                    assert(sections[i as int] != sections[k]);
                    assert(results.same_in(&before, sections[k]));
                    F::lemma_deposit_stays(facets@[k].state(), &before, results);
                }
            }
            assert forall|section: Section|
                (forall|j: int| 0 <= j < i + 1 ==> sections[j] != section) implies results.same_in(
                old(results),
                section,
            ) by {
                assert(sections[i as int] != section);
                assert(results.same_in(&before, section));
                assert(before.same_in(old(results), section));
            }
        }
        i += 1;
    }
}

/// Lets every facet put its metrics into `results`, in the order of
/// registration, and leaves the facets as they were. Each facet's metrics
/// are then in its section, unless a facet registered after it fills the
/// same section; a section that no facet fills is left as it was.
pub fn aggregate_sequence_results<F: SequenceBasedFacet>(facets: &mut Vec<F>, results: &mut Results)
    ensures
        sequence_states(final(facets)@) == sequence_states(old(facets)@),
        forall|i: int|
            0 <= i < old(facets)@.len() && unclaimed_from(
                sequence_sections::<F>(sequence_states(old(facets)@)),
                F::section(old(facets)@[i].state()),
                i + 1,
            ) ==> F::deposited(#[trigger] old(facets)@[i].state(), final(results)),
        forall|section: Section|
            unclaimed_from(sequence_sections::<F>(sequence_states(old(facets)@)), section, 0)
                ==> final(results).same_in(old(results), section),
{
    let ghost sections = sequence_sections::<F>(sequence_states(facets@));
    let mut i: usize = 0;
    while i < facets.len()
        invariant
            i <= facets.len(),
            facets@.len() == old(facets)@.len(),
            sections == sequence_sections::<F>(sequence_states(old(facets)@)),
            sequence_states(facets@) == sequence_states(old(facets)@),
            forall|k: int| i <= k < facets@.len() ==> facets@[k] == old(facets)@[k],
            forall|k: int|
                0 <= k < i && (forall|j: int| k < j < i ==> sections[j] != sections[k])
                    ==> F::deposited(#[trigger] old(facets)@[k].state(), results),
            forall|section: Section|
                (forall|j: int| 0 <= j < i ==> sections[j] != section) ==> results.same_in(
                    old(results),
                    section,
                ),
        decreases facets.len() - i,
    {
        let ghost before = *results;
        let ghost states = sequence_states(facets@);
        facets[i].aggregate(results);
        assert(sequence_states(facets@) =~= states);
        proof {
            assert forall|k: int|
                0 <= k < i + 1 && (forall|j: int|
                    k < j < i + 1 ==> sections[j] != sections[k]) implies F::deposited(
                #[trigger] old(facets)@[k].state(),
                results,
            ) by {
                if k < i {
                    assert(sections[i as int] != sections[k]);
                    assert(results.same_in(&before, sections[k]));
                    F::lemma_deposit_stays(old(facets)@[k].state(), &before, results);
                }
            }
            assert forall|section: Section|
                (forall|j: int| 0 <= j < i + 1 ==> sections[j] != section) implies results.same_in(
                old(results),
                section,
            ) by {
                assert(sections[i as int] != section);
                assert(results.same_in(&before, section));
                assert(before.same_in(old(results), section));
            }
        }
        i += 1;
    }
}

} // verus!
