//! Core aggregation logic of a fitness-tracking service: exercise history
//! reshaping, personal-record (top-3) computation, and administrative merging
//! of duplicate exercise names, with machine-checked contracts.

use vstd::prelude::*;

pub mod exercise;
pub mod format;
pub mod graphs;
pub mod group;
pub mod history;
pub mod merge;
pub mod order;
pub mod pr;
pub mod strings;
pub mod user;

verus! {

/// The errors that the core operations surface to their callers.
#[derive(Debug, Clone, Copy, PartialEq, Eq, Structural)]
pub enum AppError {
    /// A looked-up resource (an exercise name) does not exist.
    ResourceNotFound,
    /// A request failed a validity check (mismatched exercise kinds,
    /// or a rejected signup form).
    ValidationError,
    /// A joined row's populated fields do not match its kind tag:
    /// the named required field is absent.
    MalformedRow(MissingField),
}

/// The field whose absence made a joined row malformed.
#[derive(Debug, Clone, Copy, PartialEq, Eq, Structural)]
pub enum MissingField {
    Reps,
    Weight,
}

} // verus!
