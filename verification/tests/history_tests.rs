use gt_core::exercise::ExerciseKind;
use gt_core::exercise::ExerciseSetJoinQuery;
use gt_core::exercise::ExerciseSetQuery;
use gt_core::history::get_exercise_sets;
use gt_core::AppError;
use gt_core::MissingField;

fn key(w: f64) -> u64 {
    let b = w.to_bits();
    if b & (1u64 << 63) != 0 {
        !b
    } else {
        b | (1u64 << 63)
    }
}

fn join_row(
    id: i32,
    name: &str,
    kind: ExerciseKind,
    reps: Option<i32>,
    weight: Option<f64>,
    created_at: i64,
) -> ExerciseSetJoinQuery {
    ExerciseSetJoinQuery {
        id,
        user_id: 1,
        name_id: 0,
        name: name.to_string(),
        kind,
        reps,
        weight: weight.map(key),
        created_at,
    }
}

#[test]
fn history_is_most_recent_first() {
    let rows = vec![
        join_row(1, "Bench Press", ExerciseKind::Weighted, Some(5), Some(80.0), 100),
        join_row(2, "Pull-up", ExerciseKind::Bodyweight, Some(10), None, 300),
        join_row(3, "Squat", ExerciseKind::Weighted, Some(3), Some(120.0), 200),
    ];
    let hist = get_exercise_sets(rows, None).unwrap();
    let ids: Vec<i32> = hist.iter().map(|h| h.id()).collect();
    assert_eq!(ids, vec![2, 3, 1]);
    assert!(matches!(hist[0], ExerciseSetQuery::Bodyweight(_)));
    assert!(matches!(hist[1], ExerciseSetQuery::Weighted(_)));
}

#[test]
fn history_variant_carries_kind_fields() {
    let rows = vec![join_row(
        7,
        "Bench Press",
        ExerciseKind::Weighted,
        Some(5),
        Some(80.0),
        42,
    )];
    let hist = get_exercise_sets(rows, None).unwrap();
    match &hist[0] {
        ExerciseSetQuery::Weighted(w) => {
            assert_eq!(w.id, 7);
            assert_eq!(w.name, "Bench Press");
            assert_eq!(w.reps, 5);
            assert_eq!(w.weight, key(80.0));
            assert_eq!(w.created_at, 42);
        }
        ExerciseSetQuery::Bodyweight(_) => panic!("weighted row produced a bodyweight variant"),
    }
}

#[test]
fn history_limit_caps_rows() {
    let rows = vec![
        join_row(1, "A", ExerciseKind::Bodyweight, Some(1), None, 10),
        join_row(2, "B", ExerciseKind::Bodyweight, Some(2), None, 30),
        join_row(3, "C", ExerciseKind::Bodyweight, Some(3), None, 20),
    ];
    let hist = get_exercise_sets(rows, Some(2)).unwrap();
    let ids: Vec<i32> = hist.iter().map(|h| h.id()).collect();
    assert_eq!(ids, vec![2, 3]);
}

#[test]
fn history_equal_times_keep_incoming_order() {
    let rows = vec![
        join_row(1, "A", ExerciseKind::Bodyweight, Some(1), None, 50),
        join_row(2, "B", ExerciseKind::Bodyweight, Some(2), None, 50),
        join_row(3, "C", ExerciseKind::Bodyweight, Some(3), None, 50),
    ];
    let hist = get_exercise_sets(rows, None).unwrap();
    let ids: Vec<i32> = hist.iter().map(|h| h.id()).collect();
    assert_eq!(ids, vec![1, 2, 3]);
}

#[test]
fn weighted_row_without_weight_is_malformed() {
    let rows = vec![join_row(1, "Bench Press", ExerciseKind::Weighted, Some(5), None, 10)];
    let err = get_exercise_sets(rows, None).unwrap_err();
    assert_eq!(err, AppError::MalformedRow(MissingField::Weight));
}

#[test]
fn weighted_row_without_reps_is_malformed() {
    let rows = vec![join_row(1, "Bench Press", ExerciseKind::Weighted, None, Some(80.0), 10)];
    let err = get_exercise_sets(rows, None).unwrap_err();
    assert_eq!(err, AppError::MalformedRow(MissingField::Reps));
}

#[test]
fn bodyweight_row_without_reps_is_malformed() {
    let rows = vec![join_row(1, "Pull-up", ExerciseKind::Bodyweight, None, None, 10)];
    let err = get_exercise_sets(rows, None).unwrap_err();
    assert_eq!(err, AppError::MalformedRow(MissingField::Reps));
}

#[test]
fn limit_excludes_malformed_rows_beyond_cap() {
    let rows = vec![
        join_row(1, "A", ExerciseKind::Bodyweight, Some(1), None, 100),
        join_row(2, "B", ExerciseKind::Weighted, Some(2), None, 10),
    ];
    // the malformed row is older, so a cap of 1 never reaches it
    let hist = get_exercise_sets(rows, Some(1)).unwrap();
    assert_eq!(hist.len(), 1);
    assert_eq!(hist[0].id(), 1);
}
