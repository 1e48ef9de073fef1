use ngs::histogram::Ratio;
use ngs::qc::coverage::summarize_coverage;
use ngs::qc::coverage::CoverageFacet;
use ngs::qc::coverage::WindowSize;
use ngs::qc::coverage::DEPTH_CAPACITY;
use ngs::qc::facet::ComputationalLoad;
use ngs::qc::facet::FacetError;
use ngs::qc::facet::RecordBasedFacet;
use ngs::qc::facet::ReferenceSequence;
use ngs::qc::facet::SequenceBasedFacet;
use ngs::qc::general::GeneralMetricsFacet;
use ngs::qc::results::Results;
use ngs::qc::template_length::TemplateLengthFacet;
use ngs::histogram::Histogram;
use ngs::record::AlignmentRecord;

fn record(flags: u16, template_length: i32) -> AlignmentRecord {
    AlignmentRecord {
        flags,
        alignment_start: None,
        alignment_end: None,
        template_length,
    }
}

fn aligned(start: usize, end: usize) -> AlignmentRecord {
    AlignmentRecord {
        flags: 0,
        alignment_start: Some(start),
        alignment_end: Some(end),
        template_length: 0,
    }
}

fn sequence(name: &str, length: usize) -> ReferenceSequence {
    ReferenceSequence {
        name: name.to_string(),
        length,
    }
}

fn ratio(numerator: u128, denominator: u128) -> Ratio {
    Ratio {
        numerator,
        denominator,
    }
}

fn coverage_facet(window: usize) -> CoverageFacet {
    CoverageFacet::new(
        vec!["chr1".to_string(), "chr2".to_string()],
        WindowSize::new(window).unwrap(),
    )
}

#[test]
fn test_general_metrics_count_by_flag() {
    let mut facet = GeneralMetricsFacet::new();
    assert_eq!(facet.name(), "General Metrics");
    assert_eq!(facet.computational_load(), ComputationalLoad::Light);
    for flags in [0u16, 0x0400, 0x0004, 0x0100, 0x0800, 0x0900, 0x0404] {
        assert_eq!(facet.process(&record(flags, 0)), Ok(()));
    }
    let metrics = facet.metrics();
    assert_eq!(metrics.records.total, 7);
    assert_eq!(metrics.records.duplicate, 2);
    assert_eq!(metrics.records.unmapped, 2);
    assert_eq!(metrics.records.designation.secondary, 2);
    assert_eq!(metrics.records.designation.supplementary, 1);
    assert_eq!(metrics.records.designation.primary, 4);
    assert!(metrics.summary.is_none());
}

#[test]
fn test_general_metrics_summary_is_over_all_records() {
    let mut facet = GeneralMetricsFacet::new();
    for flags in [0u16, 0x0400, 0x0004, 0x0400] {
        facet.process(&record(flags, 0)).unwrap();
    }
    assert_eq!(facet.summarize(), Ok(()));
    let summary = facet.metrics().summary.unwrap();
    assert_eq!(summary.duplication_pct, Some(ratio(200, 4)));
    assert_eq!(summary.unmapped_pct, Some(ratio(100, 4)));
}

#[test]
fn test_general_metrics_summary_of_nothing_is_undefined() {
    let mut facet = GeneralMetricsFacet::new();
    assert_eq!(facet.summarize(), Ok(()));
    let summary = facet.metrics().summary.unwrap();
    assert_eq!(summary.duplication_pct, None);
    assert_eq!(summary.unmapped_pct, None);
}

#[test]
fn test_template_length_counts_and_ignores() {
    let mut facet = TemplateLengthFacet::with_capacity(3);
    assert_eq!(facet.name(), "Template Length Metrics");
    assert_eq!(facet.computational_load(), ComputationalLoad::Light);
    for length in [0, 2, 3, -5, 2, 1_000_000, i32::MIN] {
        assert_eq!(facet.process(&record(0, length)), Ok(()));
    }
    assert_eq!(facet.get(0), 1);
    assert_eq!(facet.get(1), 0);
    assert_eq!(facet.get(2), 2);
    assert_eq!(facet.get(3), 0);
    assert_eq!(facet.get_processed_count(), 3);
    assert_eq!(facet.get_ignored_count(), 4);
    assert!(facet.summary().is_none());

    assert_eq!(facet.summarize(), Ok(()));
    let summary = facet.summary().unwrap();
    assert_eq!(summary.template_length_unknown_pct, Some(ratio(100, 7)));
    assert_eq!(summary.template_length_out_of_range_pct, Some(ratio(400, 7)));
}

#[test]
fn test_template_length_summary_of_nothing_is_undefined() {
    let mut facet = TemplateLengthFacet::with_capacity(0);
    assert_eq!(facet.summarize(), Ok(()));
    let summary = facet.summary().unwrap();
    assert_eq!(summary.template_length_unknown_pct, None);
    assert_eq!(summary.template_length_out_of_range_pct, None);
}

#[test]
fn test_record_facets_fill_their_own_sections() {
    let mut general = GeneralMetricsFacet::new();
    let mut template = TemplateLengthFacet::with_capacity(4);
    general.process(&record(0x0400, 1)).unwrap();
    template.process(&record(0x0400, 1)).unwrap();
    let mut results = Results::new();
    assert!(results.general.is_none());
    assert!(results.template_length.is_none());
    assert!(results.coverage.is_none());

    general.aggregate(&mut results);
    assert_eq!(results.general.unwrap().records.duplicate, 1);
    assert!(results.template_length.is_none());

    template.aggregate(&mut results);
    assert_eq!(results.general.unwrap().records.total, 1);
    let metrics = results.template_length.as_ref().unwrap();
    assert_eq!(metrics.histogram.get(1), 1);
    assert_eq!(metrics.records.processed, 1);
    assert_eq!(metrics.records.ignored, 0);
    assert!(results.coverage.is_none());
}

#[test]
fn test_window_size_is_not_zero() {
    assert!(WindowSize::new(0).is_none());
    assert_eq!(WindowSize::new(1).unwrap().get(), 1);
    assert_eq!(WindowSize::new(usize::MAX).unwrap().get(), usize::MAX);
}

#[test]
fn test_coverage_supports_the_primary_assembly() {
    let facet = coverage_facet(3);
    assert_eq!(facet.name(), "Coverage");
    assert_eq!(facet.computational_load(), ComputationalLoad::Moderate);
    assert!(facet.supports_sequence_name(&"chr1".to_string()));
    assert!(facet.supports_sequence_name(&"chr2".to_string()));
    assert!(!facet.supports_sequence_name(&"chr3".to_string()));
    assert!(!facet.supports_sequence_name(&"chr".to_string()));
}

#[test]
fn test_coverage_of_ten_positions_in_windows_of_three() {
    let mut facet = coverage_facet(3);
    let chr1 = sequence("chr1", 10);
    assert_eq!(facet.setup_sequence(&chr1), Ok(()));
    assert_eq!(facet.process_record(&chr1, &aligned(1, 10)), Ok(()));
    assert_eq!(facet.process_record(&chr1, &aligned(1, 4)), Ok(()));
    assert_eq!(facet.teardown_sequence(&chr1), Ok(()));

    let metrics = facet.metrics();
    assert_eq!(metrics.sequences.len(), 1);
    let coverage = &metrics.sequences[0];
    assert_eq!(coverage.name, "chr1");
    assert_eq!(
        coverage.mean_coverage_per_bin,
        vec![ratio(6, 3), ratio(4, 3), ratio(3, 3), ratio(1, 1)]
    );
    assert_eq!(coverage.coverage_distribution.capacity(), DEPTH_CAPACITY);
    assert_eq!(coverage.coverage_distribution.get(0), 0);
    assert_eq!(coverage.coverage_distribution.get(1), 6);
    assert_eq!(coverage.coverage_distribution.get(2), 4);
    assert_eq!(coverage.coverage_distribution.total(), 10);
    assert_eq!(coverage.mean_coverage, Some(ratio(14, 10)));
    assert_eq!(coverage.median_coverage, Some(1));
    assert_eq!(coverage.median_over_mean_coverage, Some(ratio(10, 14)));
    assert_eq!(metrics.ignored.nonsensical_records, 0);
    assert_eq!(
        metrics.ignored.pileup_too_large_positions,
        vec![("chr1".to_string(), 0)]
    );
}

#[test]
fn test_last_window_is_averaged_over_what_it_holds() {
    let mut depths = Histogram::zero_based_with_capacity(10);
    for _ in 0..5 {
        depths.increment(9).unwrap();
    }
    depths.increment(0).unwrap();
    let (coverage, too_deep) =
        summarize_coverage("chr1".to_string(), &depths, WindowSize::new(3).unwrap());
    assert_eq!(
        coverage.mean_coverage_per_bin,
        vec![ratio(1, 3), ratio(0, 3), ratio(0, 3), ratio(5, 1)]
    );
    assert_eq!(too_deep, 0);
}

#[test]
fn test_windows_that_divide_the_length_are_all_full() {
    let mut depths = Histogram::zero_based_with_capacity(6);
    depths.increment(2).unwrap();
    depths.increment(3).unwrap();
    depths.increment(3).unwrap();
    let (coverage, _) = summarize_coverage("chr1".to_string(), &depths, WindowSize::new(3).unwrap());
    assert_eq!(
        coverage.mean_coverage_per_bin,
        vec![ratio(1, 3), ratio(2, 3)]
    );
    let (wide, _) = summarize_coverage("chr1".to_string(), &depths, WindowSize::new(100).unwrap());
    assert_eq!(wide.mean_coverage_per_bin, vec![ratio(3, 6)]);
    let (narrow, _) = summarize_coverage("chr1".to_string(), &depths, WindowSize::new(1).unwrap());
    assert_eq!(narrow.mean_coverage_per_bin.len(), 6);
    assert_eq!(narrow.mean_coverage_per_bin[3], ratio(2, 1));
}

#[test]
fn test_teardown_without_records_reports_an_empty_distribution() {
    let mut facet = coverage_facet(3);
    let chr1 = sequence("chr1", 10);
    assert_eq!(facet.setup_sequence(&chr1), Ok(()));
    assert_eq!(facet.teardown_sequence(&chr1), Ok(()));

    let metrics = facet.metrics();
    assert_eq!(metrics.sequences.len(), 1);
    let coverage = &metrics.sequences[0];
    assert_eq!(coverage.name, "chr1");
    assert_eq!(coverage.mean_coverage, None);
    assert_eq!(coverage.median_coverage, None);
    assert_eq!(coverage.median_over_mean_coverage, None);
    assert!(coverage.mean_coverage_per_bin.is_empty());
    assert_eq!(coverage.coverage_distribution.total(), 0);
    assert_eq!(coverage.coverage_distribution.capacity(), DEPTH_CAPACITY);
    assert_eq!(
        metrics.ignored.pileup_too_large_positions,
        vec![("chr1".to_string(), 0)]
    );
}

#[test]
fn test_positions_outside_the_sequence_are_counted_as_ignored() {
    let mut facet = coverage_facet(5);
    let chr1 = sequence("chr1", 10);
    assert_eq!(facet.process_record(&chr1, &aligned(8, 15)), Ok(()));
    assert_eq!(facet.metrics().ignored.nonsensical_records, 5);
    assert_eq!(facet.process_record(&chr1, &aligned(0, 2)), Ok(()));
    assert_eq!(facet.metrics().ignored.nonsensical_records, 6);
    assert_eq!(facet.process_record(&chr1, &aligned(11, 12)), Ok(()));
    assert_eq!(facet.metrics().ignored.nonsensical_records, 8);
    assert_eq!(facet.teardown_sequence(&chr1), Ok(()));

    let coverage = &facet.metrics().sequences[0];
    // Depths: 1 1 0 0 0 0 0 1 1 1.
    assert_eq!(
        coverage.mean_coverage_per_bin,
        vec![ratio(2, 5), ratio(3, 5)]
    );
    assert_eq!(coverage.coverage_distribution.get(0), 5);
    assert_eq!(coverage.coverage_distribution.get(1), 5);
}

#[test]
fn test_records_without_a_span_cover_nothing() {
    let mut facet = coverage_facet(5);
    let chr1 = sequence("chr1", 4);
    assert_eq!(facet.process_record(&chr1, &record(0, 0)), Ok(()));
    assert_eq!(facet.process_record(&chr1, &aligned(3, 2)), Ok(()));
    let half = AlignmentRecord {
        flags: 0,
        alignment_start: Some(2),
        alignment_end: None,
        template_length: 0,
    };
    assert_eq!(facet.process_record(&chr1, &half), Ok(()));
    assert_eq!(facet.metrics().ignored.nonsensical_records, 0);
    assert_eq!(facet.teardown_sequence(&chr1), Ok(()));
    let coverage = &facet.metrics().sequences[0];
    assert_eq!(coverage.coverage_distribution.get(0), 4);
    assert_eq!(coverage.mean_coverage, Some(ratio(0, 4)));
    assert_eq!(coverage.median_coverage, Some(0));
    assert_eq!(coverage.median_over_mean_coverage, None);
    assert_eq!(coverage.mean_coverage_per_bin, vec![ratio(0, 4)]);
}

#[test]
fn test_positions_too_deep_for_the_distribution_are_counted() {
    let mut facet = coverage_facet(2);
    let chr1 = sequence("chr1", 3);
    for _ in 0..DEPTH_CAPACITY {
        facet.process_record(&chr1, &aligned(1, 1)).unwrap();
    }
    for _ in 0..(DEPTH_CAPACITY - 1) {
        facet.process_record(&chr1, &aligned(2, 2)).unwrap();
    }
    facet.teardown_sequence(&chr1).unwrap();
    let metrics = facet.metrics();
    assert_eq!(
        metrics.ignored.pileup_too_large_positions,
        vec![("chr1".to_string(), 1)]
    );
    let coverage = &metrics.sequences[0];
    assert_eq!(coverage.coverage_distribution.total(), 2);
    assert_eq!(coverage.coverage_distribution.get(0), 1);
    assert_eq!(coverage.coverage_distribution.get(DEPTH_CAPACITY - 1), 1);
    assert_eq!(
        coverage.mean_coverage_per_bin,
        vec![ratio(2047, 2), ratio(0, 1)]
    );
    assert_eq!(coverage.median_coverage, Some(0));
}

#[test]
fn test_sequences_are_tallied_apart() {
    let mut facet = coverage_facet(4);
    let chr1 = sequence("chr1", 4);
    let chr2 = sequence("chr2", 2);
    facet.process_record(&chr1, &aligned(1, 2)).unwrap();
    facet.process_record(&chr2, &aligned(2, 2)).unwrap();
    facet.process_record(&chr1, &aligned(2, 3)).unwrap();
    facet.teardown_sequence(&chr2).unwrap();
    facet.teardown_sequence(&chr1).unwrap();
    let metrics = facet.metrics();
    assert_eq!(metrics.sequences[0].name, "chr2");
    assert_eq!(metrics.sequences[0].mean_coverage_per_bin, vec![ratio(1, 2)]);
    assert_eq!(metrics.sequences[1].name, "chr1");
    assert_eq!(metrics.sequences[1].mean_coverage_per_bin, vec![ratio(4, 4)]);
    assert_eq!(metrics.sequences[1].coverage_distribution.get(2), 1);
    // Torn down once more, the sequence has no depths left.
    facet.teardown_sequence(&chr1).unwrap();
    assert_eq!(facet.metrics().sequences[2].mean_coverage, None);
}

#[test]
fn test_coverage_puts_a_copy_of_its_metrics_into_the_results() {
    let mut facet = coverage_facet(4);
    let chr1 = sequence("chr1", 4);
    facet.process_record(&chr1, &aligned(1, 9)).unwrap();
    facet.teardown_sequence(&chr1).unwrap();
    let mut results = Results::new();
    facet.aggregate(&mut results);
    let metrics = results.coverage.as_ref().unwrap();
    assert_eq!(metrics.sequences.len(), 1);
    assert_eq!(metrics.ignored.nonsensical_records, 5);
    assert!(results.general.is_none());
    assert!(results.template_length.is_none());
    assert_eq!(metrics.sequences[0].name, "chr1");
    assert_eq!(metrics.sequences[0].mean_coverage, Some(ratio(4, 4)));
    assert_eq!(
        metrics.ignored.pileup_too_large_positions,
        vec![("chr1".to_string(), 0)]
    );
    // The facet keeps what it gathered, and can deposit it again.
    assert_eq!(facet.metrics().sequences.len(), 1);
    assert_eq!(facet.metrics().sequences[0].name, "chr1");
    assert_eq!(
        facet.metrics().sequences[0].mean_coverage_per_bin,
        vec![ratio(4, 4)]
    );
    assert_eq!(facet.metrics().ignored.nonsensical_records, 5);
    let mut again = Results::new();
    facet.aggregate(&mut again);
    assert_eq!(again.coverage.as_ref().unwrap().sequences.len(), 1);
}

#[test]
fn test_coverage_refuses_when_a_count_would_overflow() {
    let mut facet = coverage_facet(2);
    let chr1 = sequence("chr1", 2);
    assert_eq!(facet.process_record(&chr1, &aligned(1, usize::MAX)), Ok(()));
    assert_eq!(facet.metrics().ignored.nonsensical_records, usize::MAX - 2);
    assert_eq!(
        facet.process_record(&chr1, &aligned(1, 5)),
        Err(FacetError::CounterOverflow)
    );
    // The refused record has left no trace.
    assert_eq!(facet.metrics().ignored.nonsensical_records, usize::MAX - 2);
    assert_eq!(facet.process_record(&chr1, &aligned(1, 4)), Ok(()));
    assert_eq!(facet.metrics().ignored.nonsensical_records, usize::MAX);
    facet.teardown_sequence(&chr1).unwrap();
    let coverage = &facet.metrics().sequences[0];
    assert_eq!(coverage.mean_coverage_per_bin, vec![ratio(4, 2)]);
    assert_eq!(coverage.coverage_distribution.get(2), 2);
}

#[test]
fn test_uniform_depth_has_a_ratio_of_one() {
    let mut facet = coverage_facet(4);
    let chr1 = sequence("chr1", 6);
    for _ in 0..3 {
        facet.process_record(&chr1, &aligned(1, 6)).unwrap();
    }
    facet.teardown_sequence(&chr1).unwrap();
    let coverage = &facet.metrics().sequences[0];
    assert_eq!(coverage.median_coverage, Some(3));
    assert_eq!(coverage.mean_coverage, Some(ratio(18, 6)));
    assert_eq!(coverage.median_over_mean_coverage, Some(ratio(18, 18)));
    assert_eq!(
        coverage.mean_coverage_per_bin,
        vec![ratio(12, 4), ratio(6, 2)]
    );
}

#[test]
fn test_template_length_counts_every_record_once() {
    let mut facet = TemplateLengthFacet::with_capacity(4);
    let lengths = [0, 3, 4, -1, 2, 2, 9, 0];
    for length in lengths {
        facet.process(&record(0, length)).unwrap();
    }
    let in_bins: usize = (0..4).map(|bin| facet.get(bin)).sum();
    assert_eq!(in_bins, 5);
    assert_eq!(facet.get_processed_count(), 5);
    assert_eq!(facet.get_ignored_count(), 3);
    assert_eq!(
        facet.get_processed_count() + facet.get_ignored_count(),
        lengths.len()
    );
}
