use ballsim::ball::{launch_speeds, scaled_exec, Movable};
use ballsim::intmath::isqrt;

#[test]
fn isqrt_small_values() {
    assert_eq!(isqrt(0), 0);
    assert_eq!(isqrt(1), 1);
    assert_eq!(isqrt(2), 1);
    assert_eq!(isqrt(3), 1);
    assert_eq!(isqrt(4), 2);
    assert_eq!(isqrt(24), 4);
    assert_eq!(isqrt(25), 5);
    assert_eq!(isqrt(26), 5);
}

#[test]
fn isqrt_large_values() {
    assert_eq!(isqrt(160_000_000_000), 400_000);
    assert_eq!(isqrt(160_000_000_001), 400_000);
    assert_eq!(isqrt(159_999_999_999), 399_999);
    assert_eq!(isqrt(4_000_000_000_000_000_000), 2_000_000_000);
    assert_eq!(isqrt(3_999_999_999_999_999_999), 1_999_999_999);
}

#[test]
fn scaled_exec_exact() {
    // 100 units/s for 0.1 s covers 10 units.
    assert_eq!(scaled_exec(100_000, 100), 10_000);
    assert_eq!(scaled_exec(-100_000, 100), -10_000);
    // Truncation toward zero on both signs.
    assert_eq!(scaled_exec(1, 999), 0);
    assert_eq!(scaled_exec(-1, 999), 0);
    assert_eq!(scaled_exec(1_000_000, 0), 0);
    assert_eq!(scaled_exec(1_000_000, 1_000_000), 1_000_000_000);
}

#[test]
fn launch_speeds_axis() {
    // Straight up: local vector (0, 400 units).
    assert_eq!(launch_speeds(0, 400_000), (0, 1_000_000));
    // Straight down.
    assert_eq!(launch_speeds(0, -400_000), (0, -1_000_000));
    // Straight right.
    assert_eq!(launch_speeds(250_000, 0), (1_000_000, 0));
}

#[test]
fn launch_speeds_diagonal() {
    // A 3-4-5 triangle: the direction is exact.
    assert_eq!(launch_speeds(300, 400), (600_000, 800_000));
    assert_eq!(launch_speeds(-300, 400), (-600_000, 800_000));
    assert_eq!(launch_speeds(300, -400), (600_000, -800_000));
    assert_eq!(launch_speeds(-300, -400), (-600_000, -800_000));
}

#[test]
fn launch_speeds_center_default() {
    // A zero-length launch vector takes the default direction, straight up.
    assert_eq!(launch_speeds(0, 0), (0, 1_000_000));
}

#[test]
fn movable_starts_idle() {
    let m = Movable::new();
    assert_eq!(m.speed_x, 0);
    assert_eq!(m.speed_y, 0);
}
