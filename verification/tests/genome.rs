use ngs::genome::contains_sequence;
use ngs::genome::get_primary_assembly;
use ngs::genome::validate_sequences;
use ngs::genome::Sequence;
use ngs::qc::facet::ReferenceSequence;

fn registry(names: &[(&str, bool)]) -> Vec<Sequence> {
    names
        .iter()
        .map(|(name, primary)| Sequence {
            name: name.to_string(),
            length: 100,
            primary_assembly: *primary,
        })
        .collect()
}

fn declared(names: &[&str]) -> Vec<ReferenceSequence> {
    names
        .iter()
        .map(|name| ReferenceSequence {
            name: name.to_string(),
            length: 100,
        })
        .collect()
}

#[test]
fn test_validation_passes_when_every_sequence_is_known() {
    let supported = registry(&[("chr1", true), ("chr2", true), ("chr3", true)]);
    let result = validate_sequences(&declared(&["chr1", "chr2"]), &supported);
    assert!(result.is_ok());
}

#[test]
fn test_validation_names_the_missing_sequence() {
    let supported = registry(&[("chr1", true)]);
    let missing = validate_sequences(&declared(&["chr1", "chr2"]), &supported).unwrap_err();
    assert_eq!(missing.name, "chr2");
    assert_eq!(missing.index, 1);
}

#[test]
fn test_validation_names_the_first_missing_sequence() {
    let supported = registry(&[("chr2", true)]);
    let missing =
        validate_sequences(&declared(&["chr2", "chrX", "chr2", "chrY"]), &supported).unwrap_err();
    assert_eq!(missing.name, "chrX");
    assert_eq!(missing.index, 1);
}

#[test]
fn test_validation_of_no_sequences_passes() {
    assert!(validate_sequences(&declared(&[]), &registry(&[])).is_ok());
    assert!(validate_sequences(&declared(&["chr1"]), &registry(&[])).is_err());
}

#[test]
fn test_contains_sequence_compares_whole_names() {
    let supported = registry(&[("chr1", true), ("chr10", false)]);
    assert!(contains_sequence(&supported, &"chr1".to_string()));
    assert!(contains_sequence(&supported, &"chr10".to_string()));
    assert!(!contains_sequence(&supported, &"chr".to_string()));
    assert!(!contains_sequence(&supported, &"CHR1".to_string()));
}

#[test]
fn test_primary_assembly_keeps_order_and_drops_the_rest() {
    let supported = registry(&[
        ("chr2", true),
        ("chrUn_1", false),
        ("chr1", true),
        ("decoy", false),
    ]);
    assert_eq!(
        get_primary_assembly(&supported),
        vec!["chr2".to_string(), "chr1".to_string()]
    );
    assert!(get_primary_assembly(&registry(&[("decoy", false)])).is_empty());
}
