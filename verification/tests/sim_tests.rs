use ballsim::ball::{Ball, Color, CHANNEL_MAX, LAUNCH_SPEED};
use ballsim::sim::Sim;

const W: i64 = 500_000;
const H: i64 = 800_000;

fn gray() -> Color {
    Color { red: 500, green: 500, blue: 500 }
}

fn ball(s: &Sim, id: usize) -> Ball {
    s.balls[id].expect("slot should hold a ball")
}

#[test]
fn new_sim_has_one_idle_ball() {
    let s = Sim::new(W, H);
    assert_eq!(s.balls.len(), 1);
    let b = ball(&s, 0);
    assert_eq!((b.x, b.y), (0, 0));
    assert_eq!((b.movable.speed_x, b.movable.speed_y), (0, 0));
    assert_eq!(s.count_idle(), 1);
}

#[test]
fn spawn_color_channels_in_range() {
    let mut s = Sim::new(W, H);
    for _ in 0..20 {
        s.spawn_ball();
    }
    for slot in &s.balls {
        let b = slot.expect("all slots live");
        assert!(b.color.red < CHANNEL_MAX);
        assert!(b.color.green < CHANNEL_MAX);
        assert!(b.color.blue < CHANNEL_MAX);
    }
}

#[test]
fn integration_step_exact() {
    // A ball at the origin with velocity (100, 0) units/s, after 0.1 s,
    // stands at (10, 0) units.
    let mut s = Sim::new(W, H);
    s.insert_ball(0, 0, 100_000, 0, gray());
    s.move_balls(100);
    let b = ball(&s, 1);
    assert_eq!((b.x, b.y), (10_000, 0));
    assert_eq!((b.movable.speed_x, b.movable.speed_y), (100_000, 0));
}

#[test]
fn idle_ball_does_not_move() {
    let mut s = Sim::new(W, H);
    s.move_balls(1_000);
    let b = ball(&s, 0);
    assert_eq!((b.x, b.y), (0, 0));
    assert_eq!(s.count_idle(), 1);
    assert_eq!(s.balls.len(), 1);
}

#[test]
fn boundary_retires_and_respawns() {
    // A ball at y = 390 units with the playfield 800 units tall sits at the
    // threshold H/2 - 10: one tick retires it, and the pending-launch slot
    // stays filled by exactly one idle ball at the origin.
    let mut s = Sim::new(W, H);
    s.insert_ball(0, 390_000, 0, 500_000, gray());
    s.move_balls(16);
    assert!(s.balls[1].is_none());
    assert_eq!(s.count_idle(), 1);
    let b = ball(&s, 0);
    assert_eq!((b.x, b.y), (0, 0));
}

#[test]
fn boundary_respawn_when_no_idle_left() {
    let mut s = Sim::new(W, H);
    s.remove_ball(0);
    s.insert_ball(0, 390_000, 0, 500_000, gray());
    assert_eq!(s.count_idle(), 0);
    s.move_balls(16);
    // The exiting ball was retired and one replacement spawned.
    assert!(s.balls[1].is_none());
    assert_eq!(s.balls.len(), 3);
    assert_eq!(s.count_idle(), 1);
    let b = ball(&s, 2);
    assert_eq!((b.x, b.y), (0, 0));
    assert_eq!((b.movable.speed_x, b.movable.speed_y), (0, 0));
}

#[test]
fn corner_hit_spawns_exactly_once() {
    // Both axes exceeded at once still means one retirement and one
    // replacement, not two.
    let mut s = Sim::new(W, H);
    s.remove_ball(0);
    s.insert_ball(245_000, 390_000, 1_000, 1_000, gray());
    s.move_balls(16);
    assert!(s.balls[1].is_none());
    assert_eq!(s.balls.len(), 3);
    assert_eq!(s.count_idle(), 1);
}

#[test]
fn retire_twice_spawns_once() {
    let mut s = Sim::new(W, H);
    s.remove_ball(0);
    s.insert_ball(0, 390_000, 0, 500_000, gray());
    s.retire(1);
    assert!(s.balls[1].is_none());
    assert_eq!(s.balls.len(), 3);
    assert_eq!(s.count_idle(), 1);
    // The second report of the same boundary event finds the slot empty.
    s.retire(1);
    assert_eq!(s.balls.len(), 3);
    assert_eq!(s.count_idle(), 1);
}

#[test]
fn retire_with_idle_present_does_not_spawn() {
    let mut s = Sim::new(W, H);
    s.insert_ball(0, 390_000, 0, 500_000, gray());
    s.retire(1);
    assert!(s.balls[1].is_none());
    assert_eq!(s.balls.len(), 2);
    assert_eq!(s.count_idle(), 1);
}

#[test]
fn launch_direction_from_pointer() {
    // Pointer at (250, 0) on a 500 x 800 window: local vector (0, 400),
    // direction (0, 1), velocity (0, LAUNCH_SPEED).
    let mut s = Sim::new(W, H);
    s.shoot_ball(250_000, 0);
    let b = ball(&s, 0);
    assert_eq!((b.movable.speed_x, b.movable.speed_y), (0, LAUNCH_SPEED));
    assert_eq!((b.x, b.y), (0, 0));
    assert_eq!(s.count_idle(), 0);
}

#[test]
fn launch_flips_screen_y() {
    // Pointer at the bottom edge of the window launches straight down.
    let mut s = Sim::new(W, H);
    s.shoot_ball(250_000, 800_000);
    let b = ball(&s, 0);
    assert_eq!((b.movable.speed_x, b.movable.speed_y), (0, -LAUNCH_SPEED));
}

#[test]
fn launch_at_center_uses_default_direction() {
    let mut s = Sim::new(W, H);
    s.shoot_ball(250_000, 400_000);
    let b = ball(&s, 0);
    assert_eq!((b.movable.speed_x, b.movable.speed_y), (0, LAUNCH_SPEED));
}

#[test]
fn launch_without_idle_ball_changes_nothing() {
    // The idle ball is removed externally: the launch input must not panic
    // and must leave the state unchanged.
    let mut s = Sim::new(W, H);
    s.remove_ball(0);
    let before = s.balls.clone();
    s.shoot_ball(250_000, 0);
    assert_eq!(s.balls, before);
    assert_eq!(s.count_idle(), 0);
}

#[test]
fn launch_skips_moving_balls() {
    let mut s = Sim::new(W, H);
    s.insert_ball(10_000, 20_000, 50_000, 0, gray());
    s.shoot_ball(250_000, 0);
    let moving = ball(&s, 1);
    assert_eq!((moving.movable.speed_x, moving.movable.speed_y), (50_000, 0));
    let launched = ball(&s, 0);
    assert_eq!((launched.movable.speed_x, launched.movable.speed_y), (0, LAUNCH_SPEED));
}

#[test]
fn tick_keeps_exactly_one_idle_ball() {
    // The lifecycle invariant: after every tick, exactly one ball sits idle
    // at the spawn origin, through a whole launch-fly-retire round.
    let mut s = Sim::new(W, H);
    for _ in 0..3 {
        s.move_balls(16);
        assert_eq!(s.count_idle(), 1);
    }
    s.shoot_ball(250_000, 0);
    // The launched ball flies up at 1000 units/s; each 0.1 s tick covers 100
    // units, and after the tick a fresh idle ball is present again.
    for _ in 0..10 {
        s.move_balls(100);
        assert_eq!(s.count_idle(), 1);
    }
    // By now the first ball passed y = 390 units and was retired.
    assert!(s.balls[0].is_none());
}

#[test]
fn full_round_trip() {
    let mut s = Sim::new(W, H);
    s.shoot_ball(250_000 + 300, 400_000 - 400);
    let b = ball(&s, 0);
    assert_eq!((b.movable.speed_x, b.movable.speed_y), (600_000, 800_000));
    s.move_balls(100);
    let b = ball(&s, 0);
    assert_eq!((b.x, b.y), (60_000, 80_000));
    // A second click has no idle ball yet; the tick then tops the arena up.
    assert_eq!(s.count_idle(), 1);
}
