//! What can be derived about a file's origin from the records in it.

pub mod instrument;
