//! Verified core of a GTFOBins lookup tool: a document model for parsed
//! HTML pages, a section locator, extractors for description paragraphs and
//! ordered command examples, and the configuration rules that guard a run.

pub mod config;
pub mod dom;
pub mod extract;
pub mod laws;
pub mod run;
pub mod text;
