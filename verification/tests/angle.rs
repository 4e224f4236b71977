use rust3d::angle::{next_angle, wrap, FULL_TURN, START, STEP};

#[test]
fn angle_constants() {
    assert_eq!(FULL_TURN, 360);
    assert_eq!(STEP, 3);
    assert_eq!(START, 220);
}

#[test]
fn next_angle_adds_the_step() {
    assert_eq!(next_angle(220), 223);
    assert_eq!(next_angle(0), 3);
}

#[test]
fn next_angle_wraps_at_a_full_turn() {
    assert_eq!(next_angle(357), 0);
    assert_eq!(next_angle(358), 1);
    assert_eq!(next_angle(359), 2);
}

#[test]
fn next_angle_returns_after_a_full_turn() {
    let mut angle = START;
    for _ in 0..120 {
        angle = next_angle(angle);
        assert!(0 <= angle && angle < 360);
    }
    assert_eq!(angle, START);
}

#[test]
fn wrap_brings_any_angle_into_a_turn() {
    assert_eq!(wrap(0), 0);
    assert_eq!(wrap(359), 359);
    assert_eq!(wrap(360), 0);
    assert_eq!(wrap(725), 5);
    assert_eq!(wrap(-1), 359);
    assert_eq!(wrap(-360), 0);
    assert_eq!(wrap(-361), 359);
    assert_eq!(wrap(i32::MAX), 2147483647 % 360);
    assert_eq!(wrap(i32::MIN), 232);
}

#[test]
fn next_angle_of_the_largest_integer() {
    assert_eq!(next_angle(i32::MAX), (2147483647 % 360 + 3) % 360);
    assert_eq!(next_angle(-3), 0);
}
