//! Values prepared for display.

use crate::histogram::fraction;
use crate::histogram::Ratio;
use vstd::prelude::*;

verus! {

/// A share to be shown as a percentage: the numerator first, then the
/// denominator.
#[derive(Clone, Copy, Debug, PartialEq, Eq, Structural)]
pub struct PercentageFormat(pub u64, pub u64);

impl PercentageFormat {
    /// The percentage as an exact fraction, one hundred times the numerator
    /// over the denominator, or `None` where the denominator is zero and
    /// there is nothing to show but that the percentage does not apply.
    pub fn percentage(&self) -> (r: Option<Ratio>)
        ensures
            fraction(r) == (if self.1 == 0 {
                None
            } else {
                Some(((100 * self.0) as nat, self.1 as nat))
            }),
    {
        if self.1 == 0 {
            None
        } else {
            Some(Ratio { numerator: 100 * (self.0 as u128), denominator: self.1 as u128 })
        }
    }
}

} // verus!
