//! Tail-of-stream selection for command-line text utilities.
//!
//! The core pieces mirror the classic `tail` pipeline: a quantity parser
//! turning `10` / `+10` / `-0` into a directive, a stream counter, an offset
//! resolver turning a directive and a total into a skip index, and an emitter
//! producing the selected suffix of a source, with per-file headers when
//! several sources are given.  A few free-standing helpers for sibling
//! utilities (column layout and position-list parsing) live here as well.

pub mod calendar;
pub mod digits;
pub mod quantity;
pub mod ranges;
pub mod resolve;
pub mod sources;
pub mod tail;
