use gt_core::exercise::ExerciseKind;
use gt_core::exercise::MergeNames;
use gt_core::merge::get_or_create_name;
use gt_core::merge::merge_names;
use gt_core::merge::ExerciseNameRow;
use gt_core::merge::ExerciseSetRow;
use gt_core::AppError;

fn name_row(id: i32, name: &str, kind: ExerciseKind) -> ExerciseNameRow {
    ExerciseNameRow { id, name: name.to_string(), kind }
}

fn set_row(id: i32, name_id: i32) -> ExerciseSetRow {
    ExerciseSetRow { id, name_id }
}

fn payload(to_delete: &str, to_expand: &str) -> MergeNames {
    MergeNames { to_delete: to_delete.to_string(), to_expand: to_expand.to_string() }
}

#[test]
fn merge_with_kind_mismatch_is_rejected() {
    let names = vec![
        name_row(1, "Bench", ExerciseKind::Weighted),
        name_row(2, "Pull-up", ExerciseKind::Bodyweight),
    ];
    let sets = vec![set_row(1, 1), set_row(2, 2)];
    let err = merge_names(names, sets, &payload("Bench", "Pull-up")).unwrap_err();
    assert_eq!(err, AppError::ValidationError);
}

#[test]
fn merge_creating_target() {
    let names = vec![name_row(1, "Bench", ExerciseKind::Weighted)];
    let sets = vec![set_row(1, 1), set_row(2, 1), set_row(3, 1), set_row(4, 1), set_row(5, 1)];
    let out = merge_names(names, sets, &payload("Bench", "Bench Press")).unwrap();
    assert_eq!(out.rows_affected, 5);
    assert_eq!(out.names.len(), 1);
    assert_eq!(out.names[0].name, "Bench Press");
    assert_eq!(out.names[0].kind, ExerciseKind::Weighted);
    let new_id = out.names[0].id;
    assert_eq!(new_id, 2);
    assert_eq!(out.sets.len(), 5);
    for s in &out.sets {
        assert_eq!(s.name_id, new_id);
    }
}

#[test]
fn merge_of_missing_source_is_not_found() {
    let names = vec![name_row(1, "Bench", ExerciseKind::Weighted)];
    let sets = vec![set_row(1, 1)];
    let err = merge_names(names, sets, &payload("Squat", "Bench")).unwrap_err();
    assert_eq!(err, AppError::ResourceNotFound);
}

#[test]
fn merge_into_existing_name_repoints_only_its_rows() {
    let names = vec![
        name_row(1, "Benchpress", ExerciseKind::Weighted),
        name_row(2, "Bench Press", ExerciseKind::Weighted),
        name_row(3, "Squat", ExerciseKind::Weighted),
    ];
    let sets = vec![set_row(10, 1), set_row(11, 2), set_row(12, 3), set_row(13, 1)];
    let out = merge_names(names, sets, &payload("Benchpress", "Bench Press")).unwrap();
    assert_eq!(out.rows_affected, 2);
    let names_left: Vec<&str> = out.names.iter().map(|n| n.name.as_str()).collect();
    assert_eq!(names_left, vec!["Bench Press", "Squat"]);
    assert_eq!(out.sets[0], set_row(10, 2));
    assert_eq!(out.sets[1], set_row(11, 2));
    assert_eq!(out.sets[2], set_row(12, 3));
    assert_eq!(out.sets[3], set_row(13, 2));
}

#[test]
fn merge_counts_zero_when_no_rows_reference_source() {
    let names = vec![
        name_row(1, "Bench", ExerciseKind::Weighted),
        name_row(2, "Bench Press", ExerciseKind::Weighted),
    ];
    let sets = vec![set_row(1, 2)];
    let out = merge_names(names, sets, &payload("Bench", "Bench Press")).unwrap();
    assert_eq!(out.rows_affected, 0);
    assert_eq!(out.sets, vec![set_row(1, 2)]);
}

#[test]
fn resolving_an_existing_name_reuses_it() {
    let names = vec![name_row(4, "Bench Press", ExerciseKind::Weighted)];
    let out = get_or_create_name(names, "Bench Press", ExerciseKind::Weighted).unwrap();
    assert_eq!(out.name_id, 4);
    assert_eq!(out.names.len(), 1);
}

#[test]
fn resolving_a_name_of_the_other_kind_is_rejected() {
    let names = vec![name_row(4, "Bench Press", ExerciseKind::Weighted)];
    let err = get_or_create_name(names, "Bench Press", ExerciseKind::Bodyweight).unwrap_err();
    assert_eq!(err, AppError::ValidationError);
}

#[test]
fn resolving_a_new_name_creates_it() {
    let names = vec![name_row(4, "Bench Press", ExerciseKind::Weighted)];
    let out = get_or_create_name(names, "Pull-up", ExerciseKind::Bodyweight).unwrap();
    assert_eq!(out.name_id, 5);
    assert_eq!(out.names.len(), 2);
    assert_eq!(out.names[1].name, "Pull-up");
    assert_eq!(out.names[1].kind, ExerciseKind::Bodyweight);
}
