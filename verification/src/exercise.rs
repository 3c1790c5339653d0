//! The exercise data model: kind-tagged set records, joined query rows, the
//! fallible conversions from a joined row to its kind-specific shape, and the
//! personal-record result types.
//!
//! Floating-point load values never enter this crate. A weight travels as its
//! total-order key: an unsigned integer whose `<` agrees with the IEEE total
//! order of the underlying floating-point value, computed at the boundary by
//! the caller. Equal keys mean bit-identical loads, so grouping and
//! de-duplication are deterministic. Timestamps travel as seconds since the
//! epoch.

use vstd::prelude::*;

use crate::AppError;
use crate::MissingField;

verus! {

/// What an exercise measures: an external load plus repetitions, or
/// repetitions of one's own body weight alone.
#[derive(Debug, Clone, Copy, PartialEq, Eq, Structural)]
pub enum ExerciseKind {
    Weighted,
    Bodyweight,
}

/// A named exercise and its kind.
#[derive(Debug, Clone)]
pub struct ExerciseName {
    pub name: String,
    pub kind: ExerciseKind,
}

/// A named exercise together with the load most recently logged for it, if
/// any, as the exercise list shows it.
#[derive(Debug, Clone)]
pub struct ExerciseNameQuery {
    pub name: String,
    pub kind: ExerciseKind,
    pub last_weight: Option<u64>,
}

/// A request to delete one set entry.
#[derive(Debug, Clone)]
pub struct ExerciseSetDelete {
    pub id: i32,
}

/// A request to merge the history of one exercise name into another.
#[derive(Debug, Clone)]
pub struct MergeNames {
    pub to_delete: String,
    pub to_expand: String,
}

/// One row of the join of set entries with exercise names, as the persistence
/// layer hands it over: the measurement fields are optional because the join
/// cannot promise them, and the row is malformed when a field its kind
/// requires is absent.
#[derive(Debug)]
pub struct ExerciseSetJoinQuery {
    pub id: i32,
    pub user_id: i32,
    pub name_id: i32,
    pub name: String,
    pub kind: ExerciseKind,
    pub reps: Option<i32>,
    pub weight: Option<u64>,
    pub created_at: i64,
}

/// A validated weighted set row: both measurements are present.
#[derive(Debug)]
pub struct ExerciseSetWeightedQuery {
    pub id: i32,
    pub user_id: i32,
    pub name_id: i32,
    pub name: String,
    pub reps: i32,
    pub weight: u64,
    pub created_at: i64,
}

/// A validated bodyweight set row: the repetition count is present.
#[derive(Debug)]
pub struct ExerciseSetBodyweightQuery {
    pub id: i32,
    pub user_id: i32,
    pub name_id: i32,
    pub name: String,
    pub reps: i32,
    pub created_at: i64,
}

/// A validated set row, tagged by its kind.
#[derive(Debug)]
pub enum ExerciseSetQuery {
    Weighted(ExerciseSetWeightedQuery),
    Bodyweight(ExerciseSetBodyweightQuery),
}

/// The top personal records of one weighted exercise: up to three distinct
/// (weight key, reps) pairs, best first.
#[derive(Debug)]
pub struct PRWeightedQuery {
    pub name: String,
    pub pr: Vec<(u64, i32)>,
}

/// The top personal records of one bodyweight exercise: up to three distinct
/// repetition counts, best first.
#[derive(Debug)]
pub struct PRBodyweightQuery {
    pub name: String,
    pub pr: Vec<i32>,
}

/// The personal-record response: one entry per exercise name the user has
/// logged, split by kind.
#[derive(Debug)]
pub struct PRQuery {
    pub weighted: Vec<PRWeightedQuery>,
    pub bodyweight: Vec<PRBodyweightQuery>,
}

/// The kind-specific shape a weighted joined row must reduce to, or the error
/// naming the first absent required field: repetitions are checked first,
/// then the weight.
pub open spec fn spec_weighted_from_join(v: ExerciseSetJoinQuery) -> Result<
    ExerciseSetWeightedQuery,
    AppError,
> {
    match v.reps {
        Option::None => Result::Err(AppError::MalformedRow(MissingField::Reps)),
        Option::Some(reps) => match v.weight {
            Option::None => Result::Err(AppError::MalformedRow(MissingField::Weight)),
            Option::Some(weight) => Result::Ok(
                ExerciseSetWeightedQuery {
                    id: v.id,
                    user_id: v.user_id,
                    name_id: v.name_id,
                    name: v.name,
                    reps,
                    weight,
                    created_at: v.created_at,
                },
            ),
        },
    }
}

/// The kind-specific shape a bodyweight joined row must reduce to, or the
/// error naming the absent repetition count.
pub open spec fn spec_bodyweight_from_join(v: ExerciseSetJoinQuery) -> Result<
    ExerciseSetBodyweightQuery,
    AppError,
> {
    match v.reps {
        Option::None => Result::Err(AppError::MalformedRow(MissingField::Reps)),
        Option::Some(reps) => Result::Ok(
            ExerciseSetBodyweightQuery {
                id: v.id,
                user_id: v.user_id,
                name_id: v.name_id,
                name: v.name,
                reps,
                created_at: v.created_at,
            },
        ),
    }
}

impl ExerciseSetWeightedQuery {
    /// Validate a joined row as a weighted set; fails, never defaults, on an
    /// absent measurement.
    pub fn try_from_join(value: ExerciseSetJoinQuery) -> (r: Result<Self, AppError>)
        ensures
            r == spec_weighted_from_join(value),
    {
        match value.reps {
            Option::None => Result::Err(AppError::MalformedRow(MissingField::Reps)),
            Option::Some(reps) => match value.weight {
                Option::None => Result::Err(AppError::MalformedRow(MissingField::Weight)),
                Option::Some(weight) => Result::Ok(
                    ExerciseSetWeightedQuery {
                        id: value.id,
                        user_id: value.user_id,
                        name_id: value.name_id,
                        name: value.name,
                        reps,
                        weight,
                        created_at: value.created_at,
                    },
                ),
            },
        }
    }
}

impl ExerciseSetBodyweightQuery {
    /// Validate a joined row as a bodyweight set; fails on an absent
    /// repetition count.
    pub fn try_from_join(value: ExerciseSetJoinQuery) -> (r: Result<Self, AppError>)
        ensures
            r == spec_bodyweight_from_join(value),
    {
        match value.reps {
            Option::None => Result::Err(AppError::MalformedRow(MissingField::Reps)),
            Option::Some(reps) => Result::Ok(
                ExerciseSetBodyweightQuery {
                    id: value.id,
                    user_id: value.user_id,
                    name_id: value.name_id,
                    name: value.name,
                    reps,
                    created_at: value.created_at,
                },
            ),
        }
    }
}

impl ExerciseSetQuery {
    /// The exercise name of the underlying row.
    pub open spec fn spec_name(&self) -> Seq<char> {
        match self {
            ExerciseSetQuery::Weighted(exs) => exs.name@,
            ExerciseSetQuery::Bodyweight(exs) => exs.name@,
        }
    }

    /// The identifier of the underlying row.
    pub open spec fn spec_id(&self) -> i32 {
        match self {
            ExerciseSetQuery::Weighted(exs) => exs.id,
            ExerciseSetQuery::Bodyweight(exs) => exs.id,
        }
    }

    /// The timestamp of the underlying row.
    pub open spec fn spec_created_at(&self) -> i64 {
        match self {
            ExerciseSetQuery::Weighted(exs) => exs.created_at,
            ExerciseSetQuery::Bodyweight(exs) => exs.created_at,
        }
    }

    pub fn name(&self) -> (r: &str)
        ensures
            r@ == self.spec_name(),
    {
        match self {
            ExerciseSetQuery::Weighted(exs) => exs.name.as_str(),
            ExerciseSetQuery::Bodyweight(exs) => exs.name.as_str(),
        }
    }

    pub fn id(&self) -> (r: i32)
        ensures
            r == self.spec_id(),
    {
        match self {
            ExerciseSetQuery::Weighted(exs) => exs.id,
            ExerciseSetQuery::Bodyweight(exs) => exs.id,
        }
    }
}

/// A set entry as entered in or displayed by a client: the timestamp is still
/// the text the form produced, in "year-month-dayThour:minute" shape.
#[derive(Debug, Clone)]
pub struct ExerciseSetWeighted {
    pub name: String,
    pub reps: i32,
    pub weight: u64,
    pub created_at: String,
}

/// The bodyweight counterpart of [`ExerciseSetWeighted`].
#[derive(Debug, Clone)]
pub struct ExerciseSetBodyweight {
    pub name: String,
    pub reps: i32,
    pub created_at: String,
}

/// A client-side set entry, tagged by its kind.
#[derive(Debug, Clone)]
pub enum ExerciseSet {
    Weighted(ExerciseSetWeighted),
    Bodyweight(ExerciseSetBodyweight),
}

/// The timestamp that a client-side entry's text denotes under the fixed
/// "%Y-%m-%dT%H:%M" format, if it parses; a function of the text alone.
pub uninterp spec fn parsed_minute_ts(s: Seq<char>) -> Option<i64>;

/// Relies on chrono's `NaiveDateTime::parse_from_str` (with the fixed format
/// above) and `DateTime::timestamp`: both are pure functions of the input
/// text, so the result only names their composition.
#[verifier::external_body]
fn parse_minute_timestamp(s: &str) -> (r: Option<i64>)
    ensures
        r == parsed_minute_ts(s@),
{
    chrono::NaiveDateTime::parse_from_str(s, "%Y-%m-%dT%H:%M").ok().map(
        |t| t.and_utc().timestamp(),
    )
}

/// Relies on chrono's `Utc::now`: the value depends on the wall clock, so
/// nothing is promised of it.
#[verifier::external_body]
fn now_timestamp() -> i64 {
    chrono::Utc::now().timestamp()
}

impl ExerciseSet {
    pub open spec fn spec_name(&self) -> Seq<char> {
        match self {
            ExerciseSet::Weighted(exs) => exs.name@,
            ExerciseSet::Bodyweight(exs) => exs.name@,
        }
    }

    pub open spec fn spec_kind(&self) -> ExerciseKind {
        match self {
            ExerciseSet::Weighted(_) => ExerciseKind::Weighted,
            ExerciseSet::Bodyweight(_) => ExerciseKind::Bodyweight,
        }
    }

    /// The raw timestamp text of the entry.
    pub open spec fn spec_created_at_text(&self) -> Seq<char> {
        match self {
            ExerciseSet::Weighted(exs) => exs.created_at@,
            ExerciseSet::Bodyweight(exs) => exs.created_at@,
        }
    }

    pub fn name(&self) -> (r: &str)
        ensures
            r@ == self.spec_name(),
    {
        match self {
            ExerciseSet::Weighted(exs) => exs.name.as_str(),
            ExerciseSet::Bodyweight(exs) => exs.name.as_str(),
        }
    }

    pub fn kind(&self) -> (r: ExerciseKind)
        ensures
            r == self.spec_kind(),
    {
        match self {
            ExerciseSet::Weighted(_) => ExerciseKind::Weighted,
            ExerciseSet::Bodyweight(_) => ExerciseKind::Bodyweight,
        }
    }

    /// The entry's timestamp: the parsed form text where it parses, the
    /// current time (about which nothing is promised) where it does not.
    pub fn created_at(&self) -> (r: i64)
        ensures
            parsed_minute_ts(self.spec_created_at_text()) is Some ==> r == parsed_minute_ts(
                self.spec_created_at_text(),
            )->Some_0,
    {
        let text = match self {
            ExerciseSet::Weighted(exs) => &exs.created_at,
            ExerciseSet::Bodyweight(exs) => &exs.created_at,
        };
        match parse_minute_timestamp(text.as_str()) {
            Option::Some(t) => t,
            Option::None => now_timestamp(),
        }
    }
}

} // verus!
