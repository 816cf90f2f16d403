use demo_cheat_detect::angle::{isqrt, pitch_delta, yaw_delta};
use demo_cheat_detect::sample::{angle_delta, AngleSample};

fn sample(tick: u32, pitch: i32, yaw: i32) -> AngleSample {
    AngleSample { tick, pitch, yaw, roll: 0, position: None }
}

#[test]
fn yaw_delta_wraps_backwards() {
    assert_eq!(yaw_delta(35000, 1000), -2000);
}

#[test]
fn yaw_delta_wraps_forwards() {
    assert_eq!(yaw_delta(1000, 35000), 2000);
}

#[test]
fn yaw_delta_half_turn_is_positive() {
    assert_eq!(yaw_delta(18000, 0), 18000);
    assert_eq!(yaw_delta(0, 18000), 18000);
    assert_eq!(yaw_delta(18001, 0), -17999);
}

#[test]
fn yaw_delta_stays_in_half_open_range() {
    let mut current = 0;
    while current < 36000 {
        let mut previous = 0;
        while previous < 36000 {
            let d = yaw_delta(current, previous);
            assert!(d > -18000 && d <= 18000);
            assert_eq!((current - previous - d).rem_euclid(36000), 0);
            previous += 173;
        }
        current += 211;
    }
}

#[test]
fn yaw_delta_extreme_inputs() {
    assert_eq!(yaw_delta(i32::MAX, i32::MIN), ((i32::MAX as i64 - i32::MIN as i64) % 36000) as i32 - 36000);
    assert_eq!(yaw_delta(72000, 0), 0);
    assert_eq!(yaw_delta(-100, 100), -200);
}

#[test]
fn pitch_delta_is_plain_difference() {
    assert_eq!(pitch_delta(8000, -8000), 16000);
    assert_eq!(pitch_delta(i32::MIN, i32::MAX), i32::MIN as i64 - i32::MAX as i64);
}

#[test]
fn angle_delta_of_two_samples() {
    let d = angle_delta(&sample(1, 500, 35900), &sample(2, -250, 100));
    assert_eq!(d.yaw, 200);
    assert_eq!(d.pitch, -750);
}

#[test]
fn isqrt_values() {
    assert_eq!(isqrt(0), 0);
    assert_eq!(isqrt(1), 1);
    assert_eq!(isqrt(24), 4);
    assert_eq!(isqrt(25), 5);
    assert_eq!(isqrt(16_000_000), 4000);
    assert_eq!(isqrt(u128::MAX), u64::MAX);
}
