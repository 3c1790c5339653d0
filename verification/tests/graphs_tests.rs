use gt_core::graphs::day_of;
use gt_core::graphs::get_exercise_graphs;
use gt_core::graphs::ExerciseGraphJoinQuery;

fn key(w: f64) -> u64 {
    let b = w.to_bits();
    if b & (1u64 << 63) != 0 {
        !b
    } else {
        b | (1u64 << 63)
    }
}

fn grow(name: &str, weight: f64, reps: i32, created_at: i64) -> ExerciseGraphJoinQuery {
    ExerciseGraphJoinQuery { name: name.to_string(), reps, weight: key(weight), created_at }
}

const DAY: i64 = 86400;

#[test]
fn day_of_floors_the_timestamp() {
    assert_eq!(day_of(0), 0);
    assert_eq!(day_of(DAY - 1), 0);
    assert_eq!(day_of(DAY), 1);
    assert_eq!(day_of(3 * DAY + 5), 3);
    assert_eq!(day_of(-1), -1);
    assert_eq!(day_of(-DAY), -1);
    assert_eq!(day_of(-DAY - 1), -2);
}

#[test]
fn graphs_group_by_name_then_day() {
    let rows = vec![
        grow("Squat", 100.0, 5, 2 * DAY + 10),
        grow("Bench Press", 80.0, 5, DAY + 50),
        grow("Squat", 95.0, 8, 2 * DAY + 900),
        grow("Squat", 105.0, 3, 5 * DAY),
        grow("Bench Press", 82.5, 3, 3 * DAY),
    ];
    let graphs = get_exercise_graphs(rows);
    let names: Vec<&str> = graphs.iter().map(|g| g.name.as_str()).collect();
    assert_eq!(names, vec!["Bench Press", "Squat"]);

    let bench = &graphs[0];
    assert_eq!(bench.per_date.len(), 2);
    assert_eq!(bench.per_date[0].date, 1);
    assert_eq!(bench.per_date[0].weights, vec![(key(80.0), 5)]);
    assert_eq!(bench.per_date[1].date, 3);

    let squat = &graphs[1];
    assert_eq!(squat.per_date.len(), 2);
    assert_eq!(squat.per_date[0].date, 2);
    assert_eq!(squat.per_date[0].weights, vec![(key(100.0), 5), (key(95.0), 8)]);
    assert_eq!(squat.per_date[1].date, 5);
    assert_eq!(squat.per_date[1].weights, vec![(key(105.0), 3)]);
}

#[test]
fn graphs_of_no_rows_are_empty() {
    assert!(get_exercise_graphs(Vec::new()).is_empty());
}
