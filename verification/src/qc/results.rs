//! The one place where every facet leaves its metrics once both passes are
//! over.

use crate::qc::coverage::CoverageMetrics;
use crate::qc::general::GeneralMetrics;
use crate::qc::template_length::TemplateLengthMetrics;
use vstd::prelude::*;

verus! {

/// The sections of the results, one for each facet.
#[derive(Clone, Copy, Debug, PartialEq, Eq, Structural)]
pub enum Section {
    General,
    TemplateLength,
    Coverage,
}

/// The metrics of one run, a section for each facet. A section is `None`
/// until its facet has filled it.
#[derive(Debug)]
pub struct Results {
    pub general: Option<GeneralMetrics>,
    pub template_length: Option<TemplateLengthMetrics>,
    pub coverage: Option<CoverageMetrics>,
}

impl Results {
    /// The section `section` is in `self` what it is in `before`.
    pub open spec fn same_in(&self, before: &Results, section: Section) -> bool {
        match section {
            Section::General => self.general == before.general,
            Section::TemplateLength => self.template_length == before.template_length,
            Section::Coverage => self.coverage == before.coverage,
        }
    }

    /// Every section but `section` is in `self` what it is in `before`.
    pub open spec fn same_except(&self, before: &Results, section: Section) -> bool {
        forall|other: Section| other != section ==> self.same_in(before, other)
    }

    /// Results with every section still empty.
    pub fn new() -> (results: Self)
        ensures
            results.general.is_none(),
            results.template_length.is_none(),
            results.coverage.is_none(),
    {
        Results { general: None, template_length: None, coverage: None }
    }
}

} // verus!
