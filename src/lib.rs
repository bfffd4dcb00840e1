//! Statistics behind a generated profile README: repository classification,
//! language byte totals, rankings, recency and the retry and pagination
//! decisions of the query pipeline.

pub mod calendar;
pub mod languages;
pub mod ranking;
pub mod stats;
pub mod pipeline;
