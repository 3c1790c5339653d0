use gt_core::exercise::ExerciseKind;
use gt_core::exercise::ExerciseSet;
use gt_core::exercise::ExerciseSetBodyweight;
use gt_core::exercise::ExerciseSetBodyweightQuery;
use gt_core::exercise::ExerciseSetJoinQuery;
use gt_core::exercise::ExerciseSetWeighted;
use gt_core::exercise::ExerciseSetWeightedQuery;
use gt_core::AppError;
use gt_core::MissingField;

fn key(w: f64) -> u64 {
    let b = w.to_bits();
    if b & (1u64 << 63) != 0 {
        !b
    } else {
        b | (1u64 << 63)
    }
}

fn join_row(
    kind: ExerciseKind,
    reps: Option<i32>,
    weight: Option<f64>,
) -> ExerciseSetJoinQuery {
    ExerciseSetJoinQuery {
        id: 3,
        user_id: 1,
        name_id: 9,
        name: "Bench Press".to_string(),
        kind,
        reps,
        weight: weight.map(key),
        created_at: 77,
    }
}

#[test]
fn weighted_conversion_keeps_fields() {
    let row = join_row(ExerciseKind::Weighted, Some(5), Some(80.0));
    let w = ExerciseSetWeightedQuery::try_from_join(row).unwrap();
    assert_eq!(w.id, 3);
    assert_eq!(w.user_id, 1);
    assert_eq!(w.name_id, 9);
    assert_eq!(w.name, "Bench Press");
    assert_eq!(w.reps, 5);
    assert_eq!(w.weight, key(80.0));
    assert_eq!(w.created_at, 77);
}

#[test]
fn weighted_conversion_requires_both_measurements() {
    let row = join_row(ExerciseKind::Weighted, None, Some(80.0));
    assert_eq!(
        ExerciseSetWeightedQuery::try_from_join(row).unwrap_err(),
        AppError::MalformedRow(MissingField::Reps)
    );
    let row = join_row(ExerciseKind::Weighted, Some(5), None);
    assert_eq!(
        ExerciseSetWeightedQuery::try_from_join(row).unwrap_err(),
        AppError::MalformedRow(MissingField::Weight)
    );
}

#[test]
fn bodyweight_conversion_requires_reps() {
    let row = join_row(ExerciseKind::Bodyweight, None, None);
    assert_eq!(
        ExerciseSetBodyweightQuery::try_from_join(row).unwrap_err(),
        AppError::MalformedRow(MissingField::Reps)
    );
    let row = join_row(ExerciseKind::Bodyweight, Some(12), None);
    let b = ExerciseSetBodyweightQuery::try_from_join(row).unwrap();
    assert_eq!(b.reps, 12);
}

#[test]
fn client_entry_reports_name_and_kind() {
    let entry = ExerciseSet::Weighted(ExerciseSetWeighted {
        name: "Bench Press".to_string(),
        reps: 5,
        weight: key(80.0),
        created_at: "2023-01-15T10:30".to_string(),
    });
    assert_eq!(entry.name(), "Bench Press");
    assert_eq!(entry.kind(), ExerciseKind::Weighted);
    let entry = ExerciseSet::Bodyweight(ExerciseSetBodyweight {
        name: "Pull-up".to_string(),
        reps: 12,
        created_at: "2023-01-15T10:30".to_string(),
    });
    assert_eq!(entry.kind(), ExerciseKind::Bodyweight);
}

#[test]
fn client_entry_timestamp_parses_form_text() {
    let entry = ExerciseSet::Bodyweight(ExerciseSetBodyweight {
        name: "Pull-up".to_string(),
        reps: 12,
        created_at: "2023-01-15T10:30".to_string(),
    });
    let expected = chrono::NaiveDateTime::parse_from_str("2023-01-15T10:30", "%Y-%m-%dT%H:%M")
        .unwrap()
        .and_utc()
        .timestamp();
    assert_eq!(entry.created_at(), expected);
}
