use gt_core::format::format_bodyweight_reps;

#[test]
fn renders_a_bodyweight_set() {
    assert_eq!(format_bodyweight_reps(12), "12 × 身");
}

#[test]
fn renders_zero_reps() {
    assert_eq!(format_bodyweight_reps(0), "0 × 身");
}

#[test]
fn renders_single_digit() {
    assert_eq!(format_bodyweight_reps(7), "7 × 身");
}

#[test]
fn renders_negative_counts() {
    assert_eq!(format_bodyweight_reps(-5), "-5 × 身");
}

#[test]
fn renders_extreme_counts() {
    assert_eq!(format_bodyweight_reps(i32::MAX), "2147483647 × 身");
    assert_eq!(format_bodyweight_reps(i32::MIN), "-2147483648 × 身");
}
