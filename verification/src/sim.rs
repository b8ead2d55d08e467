use vstd::prelude::*;

use crate::ball::{
    idle_count, launch_speeds, launch_vx, launch_vy, lemma_idle_count_push,
    lemma_idle_count_take_step, lemma_idle_count_update, lemma_idle_count_zero, scaled_exec,
    slot_idle, slot_launched, slot_live, slot_ok, slot_stepped, spawned_slot, Ball, Color, Movable,
    CHANNEL_MAX, LAUNCH_SPEED, MARGIN_X, MARGIN_Y, MAX_DT_MS, MAX_EXTENT, MAX_POS,
};

verus! {

/// Relies on rand::random_range: a uniform sample from the given range, here
/// `0..CHANNEL_MAX`, so the result is below CHANNEL_MAX.
#[verifier::external_body]
fn random_channel() -> (r: u32)
    ensures
        r < CHANNEL_MAX,
{
    rand::random_range(0..CHANNEL_MAX)
}

/// The playfield and its arena of balls. The playfield is an axis-aligned
/// rectangle of the given width and height, centered at the origin; the
/// arena keeps one slot per ball ever spawned, indexed by a stable id, with
/// retired balls leaving an empty slot behind.
pub struct Sim {
    pub width: i64,
    pub height: i64,
    pub half_w: i64,
    pub half_h: i64,
    pub balls: Vec<Option<Ball>>,
}

/// The playfield geometry is unchanged between two states.
pub open spec fn same_field(a: Sim, b: Sim) -> bool {
    a.width == b.width && a.height == b.height && a.half_w == b.half_w && a.half_h == b.half_h
}

impl Sim {
    /// Well-formedness: geometry within machine limits, the half extents
    /// derived from it, and every live ball within the coordinate and speed
    /// bounds that keep one integration step free of overflow.
    pub open spec fn wf(self) -> bool {
        &&& 0 < self.width <= MAX_EXTENT
        &&& 0 < self.height <= MAX_EXTENT
        &&& self.half_w == self.width as int / 2
        &&& self.half_h == self.height as int / 2
        &&& forall|i: int| 0 <= i < self.balls@.len() ==> slot_ok(#[trigger] self.balls@[i])
    }

    /// A fresh simulation over a playfield of the given size, holding the one
    /// idle ball that awaits the first launch.
    pub fn new(width: i64, height: i64) -> (s: Sim)
        requires
            0 < width <= MAX_EXTENT,
            0 < height <= MAX_EXTENT,
        ensures
            s.wf(),
            s.width == width,
            s.height == height,
            s.balls@.len() == 1,
            spawned_slot(s.balls@[0]),
            idle_count(s.balls@) == 1,
    {
        let half_w: i64 = ((width as u64) / 2) as i64;
        let half_h: i64 = ((height as u64) / 2) as i64;
        let mut s = Sim {
            width: width,
            height: height,
            half_w: half_w,
            half_h: half_h,
            balls: Vec::new(),
        };
        s.spawn_ball();
        s
    }

    /// Creates one idle ball at the spawn origin with a freshly sampled
    /// color, in a new slot at the end of the arena. Always succeeds.
    pub fn spawn_ball(&mut self)
        requires
            old(self).wf(),
        ensures
            final(self).wf(),
            same_field(*old(self), *final(self)),
            final(self).balls@.len() == old(self).balls@.len() + 1,
            forall|i: int| 0 <= i < old(self).balls@.len() ==> final(self).balls@[i] == old(
                self,
            ).balls@[i],
            spawned_slot(final(self).balls@.last()),
            idle_count(final(self).balls@) == idle_count(old(self).balls@) + 1,
    {
        let red = random_channel();
        let green = random_channel();
        let blue = random_channel();
        let b = Ball {
            x: 0,
            y: 0,
            movable: Movable::new(),
            color: Color { red: red, green: green, blue: blue },
        };
        proof {
            lemma_idle_count_push(self.balls@, Some(b));
        }
        self.balls.push(Some(b));
    }

    /// How many balls sit idle at the spawn origin.
    pub fn count_idle(&self) -> (n: usize)
        ensures
            n == idle_count(self.balls@),
    {
        let len = self.balls.len();
        let mut n: usize = 0;
        let mut i: usize = 0;
        proof {
            assert(self.balls@.take(0) =~= Seq::<Option<Ball>>::empty());
        }
        while i < len
            invariant
                i <= len,
                len == self.balls@.len(),
                n <= i,
                n == idle_count(self.balls@.take(i as int)),
            decreases len - i,
        {
            proof {
                lemma_idle_count_take_step(self.balls@, i as int);
            }
            if slot_is_idle(&self.balls[i]) {
                n = n + 1;
            }
            i = i + 1;
        }
        proof {
            assert(self.balls@.take(len as int) =~= self.balls@);
        }
        n
    }

    /// Places a ball directly into a new arena slot: the hook a driver or a
    /// test harness uses to set up a scene.
    pub fn insert_ball(&mut self, x: i64, y: i64, speed_x: i64, speed_y: i64, color: Color)
        requires
            old(self).wf(),
            -MAX_POS <= x <= MAX_POS,
            -MAX_POS <= y <= MAX_POS,
            -LAUNCH_SPEED <= speed_x <= LAUNCH_SPEED,
            -LAUNCH_SPEED <= speed_y <= LAUNCH_SPEED,
        ensures
            final(self).wf(),
            same_field(*old(self), *final(self)),
            final(self).balls@ == old(self).balls@.push(
                Some(
                    (Ball {
                        x: x,
                        y: y,
                        movable: (Movable { speed_x: speed_x, speed_y: speed_y }),
                        color: color,
                    }),
                ),
            ),
            idle_count(final(self).balls@) == idle_count(old(self).balls@) + (if slot_idle(
                final(self).balls@.last(),
            ) {
                1int
            } else {
                0int
            }),
    {
        let b = Ball {
            x: x,
            y: y,
            movable: Movable { speed_x: speed_x, speed_y: speed_y },
            color: color,
        };
        proof {
            lemma_idle_count_push(self.balls@, Some(b));
        }
        self.balls.push(Some(b));
    }

    /// Takes the ball in slot `id` out of the arena with no replacement:
    /// external removal, outside the lifecycle rules.
    pub fn remove_ball(&mut self, id: usize)
        requires
            old(self).wf(),
            id < old(self).balls@.len(),
        ensures
            final(self).wf(),
            same_field(*old(self), *final(self)),
            final(self).balls@ == old(self).balls@.update(id as int, None),
            idle_count(final(self).balls@) == idle_count(old(self).balls@) - (if slot_idle(
                old(self).balls@[id as int],
            ) {
                1int
            } else {
                0int
            }),
    {
        proof {
            lemma_idle_count_update(self.balls@, id as int, None);
        }
        self.balls.set(id, None);
        proof {
            assert(self.balls@ =~= old(self).balls@.update(id as int, None));
        }
    }

    /// Retires the ball in slot `id`: removes it from the arena and, when no
    /// idle ball is left, immediately spawns the replacement, so that the
    /// pending-launch slot is refilled. A call for a slot already empty, or
    /// out of range, changes nothing: one boundary event can spawn only one
    /// replacement, however often it is reported.
    pub fn retire(&mut self, id: usize)
        requires
            old(self).wf(),
        ensures
            final(self).wf(),
            same_field(*old(self), *final(self)),
            !slot_live(old(self).balls@, id as int) ==> final(self).balls@ == old(self).balls@,
            slot_live(old(self).balls@, id as int) ==> ({
                let removed = old(self).balls@.update(id as int, None);
                if idle_count(removed) == 0 {
                    &&& final(self).balls@.len() == removed.len() + 1
                    &&& forall|i: int|
                        0 <= i < removed.len() ==> final(self).balls@[i] == removed[i]
                    &&& spawned_slot(final(self).balls@.last())
                    &&& idle_count(final(self).balls@) == 1
                } else {
                    &&& final(self).balls@ == removed
                    &&& idle_count(final(self).balls@) == idle_count(removed)
                }
            }),
    {
        if id < self.balls.len() {
            let live = self.balls[id].is_some();
            if live {
                self.remove_ball(id);
                if self.count_idle() == 0 {
                    self.spawn_ball();
                }
            }
        }
    }

    /// Launches every idle ball toward the pointer, given in window
    /// coordinates (origin at the top-left corner, y growing downward): the
    /// position is taken to playfield-local coordinates with the y axis
    /// flipped, normalized, and scaled to LAUNCH_SPEED. A pointer at the
    /// exact center launches straight up. With no idle ball present nothing
    /// changes.
    pub fn shoot_ball(&mut self, pointer_x: i64, pointer_y: i64)
        requires
            old(self).wf(),
            0 <= pointer_x <= old(self).width,
            0 <= pointer_y <= old(self).height,
        ensures
            final(self).wf(),
            same_field(*old(self), *final(self)),
            final(self).balls@.len() == old(self).balls@.len(),
            forall|i: int|
                0 <= i < old(self).balls@.len() ==> slot_launched(
                    old(self).balls@[i],
                    final(self).balls@[i],
                    pointer_x - old(self).half_w as int,
                    old(self).half_h as int - pointer_y,
                ),
            idle_count(old(self).balls@) == 0 ==> final(self).balls@ == old(self).balls@,
            idle_count(final(self).balls@) == 0,
    {
        let dx: i64 = pointer_x - self.half_w;
        let dy: i64 = self.half_h - pointer_y;
        let speeds = launch_speeds(dx, dy);
        let len = self.balls.len();
        let mut i: usize = 0;
        while i < len
            invariant
                i <= len,
                len == self.balls@.len(),
                len == old(self).balls@.len(),
                self.wf(),
                same_field(*old(self), *self),
                -LAUNCH_SPEED <= speeds.0 <= LAUNCH_SPEED,
                -LAUNCH_SPEED <= speeds.1 <= LAUNCH_SPEED,
                speeds.0 == launch_vx(dx as int, dy as int),
                speeds.1 == launch_vy(dx as int, dy as int),
                dx == pointer_x - old(self).half_w as int,
                dy == old(self).half_h as int - pointer_y,
                forall|j: int|
                    0 <= j < i ==> slot_launched(
                        old(self).balls@[j],
                        #[trigger] self.balls@[j],
                        dx as int,
                        dy as int,
                    ),
                forall|j: int| i <= j < len ==> self.balls@[j] == old(self).balls@[j],
            decreases len - i,
        {
            let slot = self.balls[i];
            match slot {
                Some(b) => {
                    if b.x == 0 && b.y == 0 && b.movable.speed_x == 0 && b.movable.speed_y == 0 {
                        let nb = Ball {
                            x: b.x,
                            y: b.y,
                            movable: Movable { speed_x: speeds.0, speed_y: speeds.1 },
                            color: b.color,
                        };
                        self.balls.set(i, Some(nb));
                    }
                },
                None => {},
            }
            i = i + 1;
        }
        proof {
            if idle_count(old(self).balls@) == 0 {
                lemma_idle_count_zero(old(self).balls@);
                assert(self.balls@ =~= old(self).balls@);
            }
            crate::ball::lemma_launch_nonzero(dx as int, dy as int);
            assert forall|j: int| 0 <= j < self.balls@.len() implies !slot_idle(
                self.balls@[j],
            ) by {
                assert(slot_launched(old(self).balls@[j], self.balls@[j], dx as int, dy as int));
            }
            lemma_idle_count_zero(self.balls@);
        }
    }

    /// One frame of the motion integrator, `dt_ms` milliseconds after the
    /// previous one. Every moving ball at or past the collision threshold is
    /// retired; every other moving ball advances by velocity * dt; idle
    /// balls and empty slots are untouched. When no idle ball is left
    /// afterwards, one replacement is spawned, so that after a tick that
    /// started with at most one idle ball exactly one ball sits idle at the
    /// spawn origin.
    pub fn move_balls(&mut self, dt_ms: i64)
        requires
            old(self).wf(),
            0 <= dt_ms <= MAX_DT_MS,
        ensures
            final(self).wf(),
            same_field(*old(self), *final(self)),
            forall|i: int|
                0 <= i < old(self).balls@.len() ==> slot_stepped(
                    old(self).balls@[i],
                    final(self).balls@[i],
                    dt_ms as int,
                    old(self).half_w as int - MARGIN_X,
                    old(self).half_h as int - MARGIN_Y,
                ),
            final(self).balls@.len() == old(self).balls@.len() + (if idle_count(
                old(self).balls@,
            ) == 0 {
                1int
            } else {
                0int
            }),
            idle_count(old(self).balls@) == 0 ==> spawned_slot(final(self).balls@.last()),
            idle_count(final(self).balls@) == (if idle_count(old(self).balls@) == 0 {
                1nat
            } else {
                idle_count(old(self).balls@)
            }),
            idle_count(old(self).balls@) <= 1 ==> idle_count(final(self).balls@) == 1,
    {
        let bound_x: i64 = self.half_w - MARGIN_X;
        let bound_y: i64 = self.half_h - MARGIN_Y;
        let len = self.balls.len();
        let mut i: usize = 0;
        while i < len
            invariant
                i <= len,
                len == self.balls@.len(),
                len == old(self).balls@.len(),
                self.wf(),
                same_field(*old(self), *self),
                0 <= dt_ms <= MAX_DT_MS,
                bound_x == old(self).half_w as int - MARGIN_X,
                bound_y == old(self).half_h as int - MARGIN_Y,
                forall|j: int|
                    0 <= j < i ==> slot_stepped(
                        old(self).balls@[j],
                        #[trigger] self.balls@[j],
                        dt_ms as int,
                        bound_x as int,
                        bound_y as int,
                    ),
                forall|j: int| i <= j < len ==> self.balls@[j] == old(self).balls@[j],
                idle_count(self.balls@) == idle_count(old(self).balls@),
            decreases len - i,
        {
            let ghost prev = self.balls@;
            let slot = self.balls[i];
            match slot {
                Some(b) => {
                    if b.movable.speed_x != 0 || b.movable.speed_y != 0 {
                        let ax: i64 = if b.x >= 0 {
                            b.x
                        } else {
                            -b.x
                        };
                        let ay: i64 = if b.y >= 0 {
                            b.y
                        } else {
                            -b.y
                        };
                        if ay >= bound_y || ax >= bound_x {
                            self.balls.set(i, None);
                            proof {
                                lemma_idle_count_update(prev, i as int, None);
                            }
                        } else {
                            let step_x = scaled_exec(b.movable.speed_x, dt_ms);
                            let step_y = scaled_exec(b.movable.speed_y, dt_ms);
                            let nb = Ball {
                                x: b.x + step_x,
                                y: b.y + step_y,
                                movable: b.movable,
                                color: b.color,
                            };
                            self.balls.set(i, Some(nb));
                            proof {
                                lemma_idle_count_update(prev, i as int, Some(nb));
                            }
                        }
                    }
                },
                None => {},
            }
            i = i + 1;
        }
        if self.count_idle() == 0 {
            self.spawn_ball();
        }
    }
}

/// Whether a slot holds a ball sitting idle at the spawn origin.
fn slot_is_idle(s: &Option<Ball>) -> (r: bool)
    ensures
        r == slot_idle(*s),
{
    match s {
        Some(b) => b.x == 0 && b.y == 0 && b.movable.speed_x == 0 && b.movable.speed_y == 0,
        None => false,
    }
}

} // verus!
