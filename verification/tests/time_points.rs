//! Time points and durations: subtraction with the nanosecond borrow.

use rtps_core::time::{Duration, Time};

#[test]
fn time_subtraction() {
    let duration = Time::new(2, 0).sub_time(Time::new(1, 900_000_000));
    assert_eq!(duration, Duration::new(0, 100_000_000));
}

#[test]
fn time_subtraction_nanosec_bigger_one_second() {
    let duration = Time::new(4, 700_000_000).sub_time(Time::new(1, 2_900_000_000));
    assert_eq!(duration, Duration::new(0, 800_000_000));
}

#[test]
fn time_subtraction_nanosec_bigger_one_second_lhs_and_rhs() {
    let duration = Time::new(0, 3_700_000_000).sub_time(Time::new(0, 2_900_000_000));
    assert_eq!(duration, Duration::new(0, 800_000_000));
}

#[test]
fn duration_new_folds_whole_seconds() {
    let d = Duration::new(1, 2_500_000_000);
    assert_eq!(d.sec(), 3);
    assert_eq!(d.nanosec(), 500_000_000);
}

#[test]
fn negative_span_carries_sign_in_seconds() {
    let duration = Time::new(1, 0).sub_time(Time::new(2, 500_000_000));
    assert_eq!(duration.sec(), -2);
    assert_eq!(duration.nanosec(), 500_000_000);
}
