//! The alignment record as the facets read it.

use vstd::prelude::*;

verus! {

/// Bit of the flag word that marks an unmapped read.
pub const FLAG_UNMAPPED: u16 = 0x0004;

/// Bit of the flag word that marks a secondary alignment.
pub const FLAG_SECONDARY: u16 = 0x0100;

/// Bit of the flag word that marks a PCR or optical duplicate.
pub const FLAG_DUPLICATE: u16 = 0x0400;

/// Bit of the flag word that marks a supplementary alignment.
pub const FLAG_SUPPLEMENTARY: u16 = 0x0800;

/// `bits` has the bit `mask` set.
pub open spec fn has_flag(bits: u16, mask: u16) -> bool {
    bits & mask != 0
}

/// What the facets read of one alignment record. Positions are one-based
/// and inclusive, as in the alignment format; a read without a position has
/// `None`.
#[derive(Clone, Copy, Debug, PartialEq, Eq, Structural)]
pub struct AlignmentRecord {
    pub flags: u16,
    pub alignment_start: Option<usize>,
    pub alignment_end: Option<usize>,
    pub template_length: i32,
}

/// `noodles_sam::alignment::record::Flags::is_duplicate` on the flags made
/// from `bits`: whether the duplicate bit, `0x0400`, is set.
#[verifier::external_body]
fn flags_is_duplicate(bits: u16) -> (r: bool)
    ensures
        r == has_flag(bits, FLAG_DUPLICATE),
{
    noodles_sam::alignment::record::Flags::from(bits).is_duplicate()
}

/// `noodles_sam::alignment::record::Flags::is_unmapped` on the flags made
/// from `bits`: whether the unmapped bit, `0x0004`, is set.
#[verifier::external_body]
fn flags_is_unmapped(bits: u16) -> (r: bool)
    ensures
        r == has_flag(bits, FLAG_UNMAPPED),
{
    noodles_sam::alignment::record::Flags::from(bits).is_unmapped()
}

/// `noodles_sam::alignment::record::Flags::is_secondary` on the flags made
/// from `bits`: whether the secondary bit, `0x0100`, is set.
#[verifier::external_body]
fn flags_is_secondary(bits: u16) -> (r: bool)
    ensures
        r == has_flag(bits, FLAG_SECONDARY),
{
    noodles_sam::alignment::record::Flags::from(bits).is_secondary()
}

/// `noodles_sam::alignment::record::Flags::is_supplementary` on the flags
/// made from `bits`: whether the supplementary bit, `0x0800`, is set.
#[verifier::external_body]
fn flags_is_supplementary(bits: u16) -> (r: bool)
    ensures
        r == has_flag(bits, FLAG_SUPPLEMENTARY),
{
    noodles_sam::alignment::record::Flags::from(bits).is_supplementary()
}

impl AlignmentRecord {
    /// The read is a PCR or optical duplicate.
    pub fn is_duplicate(&self) -> (r: bool)
        ensures
            r == has_flag(self.flags, FLAG_DUPLICATE),
    {
        flags_is_duplicate(self.flags)
    }

    /// The read is unmapped.
    pub fn is_unmapped(&self) -> (r: bool)
        ensures
            r == has_flag(self.flags, FLAG_UNMAPPED),
    {
        flags_is_unmapped(self.flags)
    }

    /// The alignment is a secondary one.
    pub fn is_secondary(&self) -> (r: bool)
        ensures
            r == has_flag(self.flags, FLAG_SECONDARY),
    {
        flags_is_secondary(self.flags)
    }

    /// The alignment is a supplementary one.
    pub fn is_supplementary(&self) -> (r: bool)
        ensures
            r == has_flag(self.flags, FLAG_SUPPLEMENTARY),
    {
        flags_is_supplementary(self.flags)
    }
}

} // verus!
