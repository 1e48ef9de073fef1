//! Quality-control facets, their contracts, and the pipeline that runs them.

pub mod coverage;
pub mod facet;
pub mod general;
pub mod pipeline;
pub mod results;
pub mod selection;
pub mod template_length;
