use ngs::qc::coverage::WindowSize;
use ngs::qc::facet::ComputationalLoad;
use ngs::qc::facet::FacetError;
use ngs::qc::facet::RecordBasedFacet;
use ngs::qc::facet::ReferenceSequence;
use ngs::qc::facet::SequenceBasedFacet;
use ngs::qc::pipeline::aggregate_results;
use ngs::qc::pipeline::aggregate_sequence_results;
use ngs::qc::pipeline::process_all;
use ngs::qc::pipeline::process_record_all;
use ngs::qc::pipeline::sequence_region;
use ngs::qc::pipeline::setup_sequence_all;
use ngs::qc::pipeline::summarize_all;
use ngs::qc::pipeline::teardown_sequence_all;
use ngs::qc::pipeline::FacetFailure;
use ngs::qc::pipeline::FirstPass;
use ngs::qc::pipeline::Scan;
use ngs::qc::pipeline::SecondPass;
use ngs::qc::results::Results;
use ngs::qc::results::Section;
use ngs::qc::selection::get_record_based_qc_facets;
use ngs::qc::selection::get_sequence_based_qc_facets;
use ngs::qc::selection::RecordFacet;
use ngs::qc::selection::SequenceFacet;
use ngs::qc::selection::TEMPLATE_LENGTH_CAPACITY;
use ngs::record::AlignmentRecord;
use std::cell::RefCell;
use std::rc::Rc;

fn numbered(template_length: i32) -> AlignmentRecord {
    AlignmentRecord {
        flags: 0x0400,
        alignment_start: None,
        alignment_end: None,
        template_length,
    }
}

fn spanning(start: usize, end: usize) -> AlignmentRecord {
    AlignmentRecord {
        flags: 0,
        alignment_start: Some(start),
        alignment_end: Some(end),
        template_length: 0,
    }
}

fn declared(name: &str, length: usize) -> ReferenceSequence {
    ReferenceSequence {
        name: name.to_string(),
        length,
    }
}

/// A facet that writes down what it is offered, and fails on one record.
struct Witness {
    label: char,
    fails_on: Option<i32>,
    seen: Rc<RefCell<Vec<(char, i32)>>>,
}

impl RecordBasedFacet for Witness {
    type State = ();

    // The items that only proofs read are never called at run time.
    fn state(&self) {}

    fn processed(_state: (), _record: AlignmentRecord) -> ((), Result<(), FacetError>) {
        unreachable!()
    }

    fn summarized(_state: ()) -> ((), Result<(), FacetError>) {
        unreachable!()
    }

    fn section(_state: ()) -> Section {
        unreachable!()
    }

    fn deposited(_state: (), _results: &Results) -> bool {
        unreachable!()
    }

    fn lemma_deposit_stays(_state: (), _before: &Results, _after: &Results) {}

    fn name(&self) -> &'static str {
        "Witness"
    }

    fn computational_load(&self) -> ComputationalLoad {
        ComputationalLoad::Light
    }

    fn process(&mut self, record: &AlignmentRecord) -> Result<(), FacetError> {
        self.seen
            .borrow_mut()
            .push((self.label, record.template_length));
        if self.fails_on == Some(record.template_length) {
            Err(FacetError::CounterOverflow)
        } else {
            Ok(())
        }
    }

    fn summarize(&mut self) -> Result<(), FacetError> {
        self.seen.borrow_mut().push((self.label, -1));
        Ok(())
    }

    fn aggregate(&self, _results: &mut Results) {}
}

fn witnesses(fails: [Option<i32>; 2]) -> (Vec<Witness>, Rc<RefCell<Vec<(char, i32)>>>) {
    let seen = Rc::new(RefCell::new(Vec::new()));
    let facets = vec![
        Witness {
            label: 'A',
            fails_on: fails[0],
            seen: Rc::clone(&seen),
        },
        Witness {
            label: 'B',
            fails_on: fails[1],
            seen: Rc::clone(&seen),
        },
    ];
    (facets, seen)
}

#[test]
fn test_registered_facets_are_the_default_set_in_order() {
    let facets = get_record_based_qc_facets();
    assert_eq!(facets.len(), 2);
    assert!(matches!(facets[0], RecordFacet::General(_)));
    assert!(matches!(facets[1], RecordFacet::TemplateLength(_)));
    assert_eq!(facets[0].name(), "General Metrics");
    assert_eq!(facets[1].name(), "Template Length Metrics");
    assert_eq!(TEMPLATE_LENGTH_CAPACITY, 1024);

    let sequence_facets =
        get_sequence_based_qc_facets(vec!["chr1".to_string()], WindowSize::new(10).unwrap());
    assert_eq!(sequence_facets.len(), 1);
    assert!(matches!(sequence_facets[0], SequenceFacet::Coverage(_)));
    assert_eq!(sequence_facets[0].name(), "Coverage");
    assert_eq!(
        sequence_facets[0].computational_load(),
        ComputationalLoad::Moderate
    );
}

#[test]
fn test_first_facet_runs_before_the_second_for_each_record() {
    let (mut facets, seen) = witnesses([None, None]);
    for length in [10, 20, 30] {
        assert_eq!(process_all(&mut facets, &numbered(length)), Ok(()));
    }
    assert_eq!(
        *seen.borrow(),
        vec![('A', 10), ('B', 10), ('A', 20), ('B', 20), ('A', 30), ('B', 30)]
    );
}

#[test]
fn test_facets_after_a_failing_one_do_not_see_the_record() {
    let (mut facets, seen) = witnesses([Some(20), None]);
    assert_eq!(process_all(&mut facets, &numbered(10)), Ok(()));
    assert_eq!(
        process_all(&mut facets, &numbered(20)),
        Err(FacetFailure {
            facet: 0,
            error: FacetError::CounterOverflow
        })
    );
    assert_eq!(*seen.borrow(), vec![('A', 10), ('B', 10), ('A', 20)]);
}

#[test]
fn test_failure_of_the_second_facet_comes_after_the_first_ran() {
    let (mut facets, seen) = witnesses([None, Some(10)]);
    assert_eq!(
        process_all(&mut facets, &numbered(10)),
        Err(FacetFailure {
            facet: 1,
            error: FacetError::CounterOverflow
        })
    );
    assert_eq!(*seen.borrow(), vec![('A', 10), ('B', 10)]);
}

#[test]
fn test_summaries_are_taken_in_order() {
    let (mut facets, seen) = witnesses([None, None]);
    assert_eq!(summarize_all(&mut facets), Ok(()));
    assert_eq!(*seen.borrow(), vec![('A', -1), ('B', -1)]);
}

#[test]
fn test_pass_with_a_cap_halts_after_that_many_records() {
    let (facets, seen) = witnesses([None, None]);
    let mut pass = FirstPass::new(facets, Some(3));
    assert!(pass.wants_record());
    assert_eq!(pass.offer(&numbered(1)), Ok(Scan::Continue));
    assert_eq!(pass.offer(&numbered(2)), Ok(Scan::Continue));
    assert_eq!(pass.offer(&numbered(3)), Ok(Scan::Halt));
    assert!(!pass.wants_record());
    assert_eq!(pass.record_count(), 3);
    // Offered all the same, further records are left unseen.
    assert_eq!(pass.offer(&numbered(4)), Ok(Scan::Halt));
    assert_eq!(pass.record_count(), 3);
    assert_eq!(
        *seen.borrow(),
        vec![('A', 1), ('B', 1), ('A', 2), ('B', 2), ('A', 3), ('B', 3)]
    );
    assert!(pass.finish().is_ok());
    assert_eq!(seen.borrow().len(), 8);
}

#[test]
fn test_pass_with_a_cap_of_zero_takes_no_record() {
    let (facets, seen) = witnesses([None, None]);
    let mut pass = FirstPass::new(facets, Some(0));
    assert!(!pass.wants_record());
    assert_eq!(pass.offer(&numbered(1)), Ok(Scan::Halt));
    assert_eq!(pass.record_count(), 0);
    assert!(seen.borrow().is_empty());
}

#[test]
fn test_pass_without_a_cap_takes_every_record() {
    let (facets, _seen) = witnesses([None, None]);
    let mut pass = FirstPass::new(facets, None);
    for length in 0..50 {
        assert_eq!(pass.offer(&numbered(length)), Ok(Scan::Continue));
    }
    assert_eq!(pass.record_count(), 50);
}

#[test]
fn test_pass_ends_with_the_first_failure() {
    let (facets, seen) = witnesses([None, Some(2)]);
    let mut pass = FirstPass::new(facets, None);
    let failure = FacetFailure {
        facet: 1,
        error: FacetError::CounterOverflow,
    };
    assert_eq!(pass.offer(&numbered(1)), Ok(Scan::Continue));
    assert_eq!(pass.offer(&numbered(2)), Err(failure));
    assert_eq!(pass.record_count(), 1);
    assert!(!pass.wants_record());
    assert_eq!(pass.offer(&numbered(3)), Err(failure));
    assert_eq!(seen.borrow().len(), 4);
    assert_eq!(pass.finish().err(), Some(failure));
    assert_eq!(seen.borrow().len(), 4);
}

#[test]
fn test_percentages_after_a_capped_pass_are_over_the_cap() {
    let mut pass = FirstPass::new(get_record_based_qc_facets(), Some(4));
    let mut offered = 0;
    for length in [0, 5, 0, 2000, 7, 0, 9] {
        if !pass.wants_record() {
            break;
        }
        pass.offer(&numbered(length)).unwrap();
        offered += 1;
    }
    assert_eq!(offered, 4);
    assert_eq!(pass.record_count(), 4);
    let facets = pass.finish().unwrap();
    let mut results = Results::new();
    aggregate_results(&facets, &mut results);

    let general = results.general.unwrap();
    assert_eq!(general.records.total, 4);
    let summary = general.summary.unwrap();
    assert_eq!(summary.duplication_pct.unwrap().numerator, 400);
    assert_eq!(summary.duplication_pct.unwrap().denominator, 4);
    assert_eq!(summary.unmapped_pct.unwrap().numerator, 0);
    assert_eq!(summary.unmapped_pct.unwrap().denominator, 4);

    let template = results.template_length.as_ref().unwrap();
    assert_eq!(template.records.processed, 3);
    assert_eq!(template.records.ignored, 1);
    let summary = template.summary.unwrap();
    assert_eq!(summary.template_length_unknown_pct.unwrap().numerator, 200);
    assert_eq!(summary.template_length_unknown_pct.unwrap().denominator, 4);
    assert_eq!(
        summary.template_length_out_of_range_pct.unwrap().numerator,
        100
    );
}

#[test]
fn test_region_spans_the_whole_sequence() {
    let region = sequence_region(&declared("chr7", 159));
    assert_eq!(region.name, "chr7");
    assert_eq!(region.start, 1);
    assert_eq!(region.end, 159);
    let empty = sequence_region(&declared("none", 0));
    assert_eq!(empty.start, 1);
    assert_eq!(empty.end, 0);
}

#[test]
fn test_only_supporting_facets_take_part_in_a_sequence() {
    let mut facets =
        get_sequence_based_qc_facets(vec!["chr1".to_string()], WindowSize::new(2).unwrap());
    let chr1 = declared("chr1", 4);
    let decoy = declared("decoy", 4);
    assert_eq!(setup_sequence_all(&mut facets, &chr1), Ok(()));
    assert_eq!(
        process_record_all(&mut facets, &chr1, &spanning(1, 2)),
        Ok(())
    );
    assert_eq!(teardown_sequence_all(&mut facets, &chr1), Ok(()));
    assert_eq!(setup_sequence_all(&mut facets, &decoy), Ok(()));
    assert_eq!(
        process_record_all(&mut facets, &decoy, &spanning(1, 9)),
        Ok(())
    );
    assert_eq!(teardown_sequence_all(&mut facets, &decoy), Ok(()));

    let mut results = Results::new();
    aggregate_sequence_results(&mut facets, &mut results);
    let coverage = results.coverage.as_ref().unwrap();
    assert_eq!(coverage.sequences.len(), 1);
    assert_eq!(coverage.sequences[0].name, "chr1");
    assert_eq!(coverage.ignored.nonsensical_records, 0);
}

#[test]
fn test_second_pass_visits_the_sequences_in_header_order() {
    let facets = get_sequence_based_qc_facets(
        vec!["chr1".to_string(), "chr2".to_string()],
        WindowSize::new(2).unwrap(),
    );
    let sequences = vec![declared("chr2", 3), declared("decoy", 8), declared("chr1", 5)];
    let mut pass = SecondPass::new(facets, sequences);

    // Before the first step no sequence is open: the record is left unseen.
    assert_eq!(pass.offer(&spanning(1, 1)), Ok(()));

    let first = pass.advance().unwrap().unwrap();
    assert_eq!((first.name.as_str(), first.start, first.end), ("chr2", 1, 3));
    assert_eq!(pass.offer(&spanning(2, 3)), Ok(()));

    let second = pass.advance().unwrap().unwrap();
    assert_eq!(
        (second.name.as_str(), second.start, second.end),
        ("decoy", 1, 8)
    );
    assert_eq!(pass.offer(&spanning(1, 8)), Ok(()));

    let third = pass.advance().unwrap().unwrap();
    assert_eq!((third.name.as_str(), third.start, third.end), ("chr1", 1, 5));

    assert!(pass.advance().unwrap().is_none());
    assert!(pass.advance().unwrap().is_none());
    assert_eq!(pass.offer(&spanning(1, 1)), Ok(()));

    let mut facets = pass.into_facets();
    let mut results = Results::new();
    aggregate_sequence_results(&mut facets, &mut results);
    let coverage = results.coverage.as_ref().unwrap();
    assert_eq!(coverage.sequences.len(), 2);
    assert_eq!(coverage.sequences[0].name, "chr2");
    assert_eq!(coverage.sequences[0].coverage_distribution.get(0), 1);
    assert_eq!(coverage.sequences[0].coverage_distribution.get(1), 2);
    // The sequence without records is torn down all the same.
    assert_eq!(coverage.sequences[1].name, "chr1");
    assert_eq!(coverage.sequences[1].mean_coverage, None);
    assert_eq!(coverage.sequences[1].median_coverage, None);
}

#[test]
fn test_second_pass_without_sequences_is_over_at_once() {
    let facets = get_sequence_based_qc_facets(vec![], WindowSize::new(2).unwrap());
    let mut pass = SecondPass::new(facets, vec![]);
    assert!(pass.advance().unwrap().is_none());
}

#[test]
fn test_results_hold_every_section_after_both_passes() {
    let mut record_facets = get_record_based_qc_facets();
    process_all(&mut record_facets, &numbered(3)).unwrap();
    summarize_all(&mut record_facets).unwrap();
    let mut sequence_facets =
        get_sequence_based_qc_facets(vec!["chr1".to_string()], WindowSize::new(2).unwrap());
    teardown_sequence_all(&mut sequence_facets, &declared("chr1", 2)).unwrap();

    let mut results = Results::new();
    aggregate_results(&record_facets, &mut results);
    assert!(results.general.is_some());
    assert!(results.template_length.is_some());
    assert!(results.coverage.is_none());
    aggregate_sequence_results(&mut sequence_facets, &mut results);
    assert_eq!(results.general.unwrap().records.total, 1);
    assert_eq!(
        results.template_length.as_ref().unwrap().histogram.get(3),
        1
    );
    assert_eq!(results.coverage.as_ref().unwrap().sequences.len(), 1);
}

#[test]
fn test_second_pass_ends_with_the_first_failure() {
    let facets =
        get_sequence_based_qc_facets(vec!["chr1".to_string()], WindowSize::new(2).unwrap());
    let mut pass = SecondPass::new(facets, vec![declared("chr1", 2), declared("chr2", 2)]);
    let failure = FacetFailure {
        facet: 0,
        error: FacetError::CounterOverflow,
    };
    assert!(pass.advance().unwrap().is_some());
    assert_eq!(pass.offer(&spanning(1, usize::MAX)), Ok(()));
    assert_eq!(pass.offer(&spanning(1, 5)), Err(failure));
    assert_eq!(pass.offer(&spanning(1, 1)), Err(failure));
    assert_eq!(pass.advance().err(), Some(failure));

    let mut facets = pass.into_facets();
    let mut results = Results::new();
    aggregate_sequence_results(&mut facets, &mut results);
    let coverage = results.coverage.as_ref().unwrap();
    assert!(coverage.sequences.is_empty());
    assert_eq!(coverage.ignored.nonsensical_records, usize::MAX - 2);
}
