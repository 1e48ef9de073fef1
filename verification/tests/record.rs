use ngs::record::AlignmentRecord;
use ngs::utils::display::PercentageFormat;
use ngs::histogram::Ratio;

fn flagged(flags: u16) -> AlignmentRecord {
    AlignmentRecord {
        flags,
        alignment_start: None,
        alignment_end: None,
        template_length: 0,
    }
}

#[test]
fn test_flags_are_read_bit_by_bit() {
    let none = flagged(0);
    assert!(!none.is_duplicate());
    assert!(!none.is_unmapped());
    assert!(!none.is_secondary());
    assert!(!none.is_supplementary());

    assert!(flagged(0x0400).is_duplicate());
    assert!(!flagged(0x0400).is_unmapped());
    assert!(flagged(0x0004).is_unmapped());
    assert!(!flagged(0x0004).is_secondary());
    assert!(flagged(0x0100).is_secondary());
    assert!(!flagged(0x0100).is_supplementary());
    assert!(flagged(0x0800).is_supplementary());
    assert!(!flagged(0x0800).is_duplicate());
}

#[test]
fn test_flags_ignore_the_other_bits() {
    let others = flagged(!(0x0400 | 0x0004 | 0x0100 | 0x0800));
    assert!(!others.is_duplicate());
    assert!(!others.is_unmapped());
    assert!(!others.is_secondary());
    assert!(!others.is_supplementary());
    let all = flagged(0xffff);
    assert!(all.is_duplicate());
    assert!(all.is_unmapped());
    assert!(all.is_secondary());
    assert!(all.is_supplementary());
}

#[test]
fn test_percentage_of_nothing_does_not_apply() {
    assert_eq!(PercentageFormat(0, 0).percentage(), None);
    assert_eq!(PercentageFormat(7, 0).percentage(), None);
}

#[test]
fn test_percentage_is_a_hundred_times_the_share() {
    assert_eq!(
        PercentageFormat(1, 4).percentage(),
        Some(Ratio {
            numerator: 100,
            denominator: 4
        })
    );
    assert_eq!(
        PercentageFormat(u64::MAX, 1).percentage(),
        Some(Ratio {
            numerator: 100 * (u64::MAX as u128),
            denominator: 1
        })
    );
}
