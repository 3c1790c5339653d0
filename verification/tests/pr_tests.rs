use gt_core::exercise::ExerciseSetBodyweightQuery;
use gt_core::exercise::ExerciseSetWeightedQuery;
use gt_core::pr::get_bodyweight_exercise_set_prs_for_user;
use gt_core::pr::get_exercise_set_prs_for_user;
use gt_core::pr::get_weighted_exercise_set_prs_for_user;

/// The total-order key of a floating-point load: an unsigned integer whose
/// `<` agrees with `f64::total_cmp`.
fn key(w: f64) -> u64 {
    let b = w.to_bits();
    if b & (1u64 << 63) != 0 {
        !b
    } else {
        b | (1u64 << 63)
    }
}

fn wrow(name: &str, weight: f64, reps: i32) -> ExerciseSetWeightedQuery {
    ExerciseSetWeightedQuery {
        id: 0,
        user_id: 1,
        name_id: 0,
        name: name.to_string(),
        reps,
        weight: key(weight),
        created_at: 0,
    }
}

fn brow(name: &str, reps: i32) -> ExerciseSetBodyweightQuery {
    ExerciseSetBodyweightQuery {
        id: 0,
        user_id: 1,
        name_id: 0,
        name: name.to_string(),
        reps,
        created_at: 0,
    }
}

#[test]
fn pr_dedupe_bench_press() {
    let rows = vec![
        wrow("Bench Press", 80.0, 5),
        wrow("Bench Press", 80.0, 5),
        wrow("Bench Press", 80.0, 3),
        wrow("Bench Press", 75.0, 8),
        wrow("Bench Press", 85.0, 1),
    ];
    let prs = get_weighted_exercise_set_prs_for_user(rows);
    assert_eq!(prs.len(), 1);
    assert_eq!(prs[0].name, "Bench Press");
    assert_eq!(prs[0].pr, vec![(key(85.0), 1), (key(80.0), 5), (key(80.0), 3)]);
}

#[test]
fn bodyweight_pr_pullups() {
    let rows = vec![
        brow("Pull-up", 12),
        brow("Pull-up", 12),
        brow("Pull-up", 10),
        brow("Pull-up", 15),
        brow("Pull-up", 8),
    ];
    let prs = get_bodyweight_exercise_set_prs_for_user(rows);
    assert_eq!(prs.len(), 1);
    assert_eq!(prs[0].name, "Pull-up");
    assert_eq!(prs[0].pr, vec![15, 12, 10]);
}

#[test]
fn weighted_groups_are_alphabetical_and_complete() {
    let rows = vec![
        wrow("Squat", 100.0, 5),
        wrow("Bench Press", 80.0, 5),
        wrow("Deadlift", 120.0, 3),
        wrow("Bench Press", 82.5, 4),
        wrow("Squat", 90.0, 8),
    ];
    let prs = get_weighted_exercise_set_prs_for_user(rows);
    let names: Vec<&str> = prs.iter().map(|p| p.name.as_str()).collect();
    assert_eq!(names, vec!["Bench Press", "Deadlift", "Squat"]);
}

#[test]
fn weighted_group_names_sort_by_code_point() {
    let rows = vec![wrow("ベンチプレス", 60.0, 5), wrow("Bench Press", 80.0, 5)];
    let prs = get_weighted_exercise_set_prs_for_user(rows);
    let names: Vec<&str> = prs.iter().map(|p| p.name.as_str()).collect();
    assert_eq!(names, vec!["Bench Press", "ベンチプレス"]);
}

#[test]
fn fewer_than_three_distinct_pairs_no_padding() {
    let rows = vec![
        wrow("Row", 50.0, 10),
        wrow("Row", 50.0, 10),
        wrow("Row", 60.0, 6),
    ];
    let prs = get_weighted_exercise_set_prs_for_user(rows);
    assert_eq!(prs[0].pr, vec![(key(60.0), 6), (key(50.0), 10)]);
}

#[test]
fn equal_weight_ranks_by_reps() {
    let rows = vec![
        wrow("Press", 60.0, 3),
        wrow("Press", 60.0, 8),
        wrow("Press", 60.0, 5),
        wrow("Press", 55.0, 12),
    ];
    let prs = get_weighted_exercise_set_prs_for_user(rows);
    assert_eq!(prs[0].pr, vec![(key(60.0), 8), (key(60.0), 5), (key(60.0), 3)]);
}

#[test]
fn no_rows_no_records() {
    let prs = get_weighted_exercise_set_prs_for_user(Vec::new());
    assert!(prs.is_empty());
    let prs = get_bodyweight_exercise_set_prs_for_user(Vec::new());
    assert!(prs.is_empty());
}

#[test]
fn aggregation_is_deterministic() {
    let build = || {
        vec![
            wrow("Squat", 100.0, 5),
            wrow("Squat", 100.0, 5),
            wrow("Bench Press", 80.0, 3),
            wrow("Squat", 102.5, 2),
        ]
    };
    let a = get_weighted_exercise_set_prs_for_user(build());
    let b = get_weighted_exercise_set_prs_for_user(build());
    assert_eq!(a.len(), b.len());
    for (x, y) in a.iter().zip(b.iter()) {
        assert_eq!(x.name, y.name);
        assert_eq!(x.pr, y.pr);
    }
}

#[test]
fn combined_response_holds_both_kinds() {
    let w = vec![wrow("Bench Press", 80.0, 5)];
    let b = vec![brow("Pull-up", 12)];
    let q = get_exercise_set_prs_for_user(w, b);
    assert_eq!(q.weighted.len(), 1);
    assert_eq!(q.weighted[0].name, "Bench Press");
    assert_eq!(q.bodyweight.len(), 1);
    assert_eq!(q.bodyweight[0].pr, vec![12]);
}
