//! Assembly of a pipeline topology from configuration fragments: merging
//! fragments into one builder and expanding pipeline macros into scoped
//! transforms, with every naming or wiring mistake collected in one pass.

pub mod builder;
pub mod config;
pub mod entity;
pub mod expansion;
pub mod global;
pub mod id;
pub mod index;
pub mod laws;
pub mod merge;
pub mod ordered;
pub mod pipeline;
