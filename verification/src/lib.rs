//! Quality-control analysis of sequencing alignment records: histograms,
//! record-based and sequence-based facets, the two-pass pipeline that drives
//! them, and instrument detection from read names.

pub mod derive;
pub mod genome;
pub mod histogram;
pub mod qc;
pub mod record;
pub mod utils;
