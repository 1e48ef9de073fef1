//! Which sequencing instrument wrote a file, derived from the instrument
//! and flowcell names in its read names.

pub mod compute;
pub mod flowcells;
pub mod instruments;
pub mod names;
pub mod reads;
