//! The viewer: owns the ray fan, recomputes it each tick, and performs
//! grid-aware movement.

use vstd::prelude::*;

use crate::board::Board;
use crate::fixed::{
    div_trunc, div_trunc_spec, wrap32, wrap_add32, wrap_add_wide, HALF_TURN, QUARTER_TURN, SCALE,
};
use crate::point::Point;
use crate::ray::{pos_ok, ray_resolved, Ray, MAX_POS};
use crate::trig::{cos_fixed, cos_fp, sin_fixed, sin_fp};

verus! {

/// Largest supported move step: sixteen tiles in fixed-point units.
pub const MAX_MOVE_STEP: i64 = 0x10_0000;

/// The total angular spread of the ray fan: a quarter turn.
pub const FIELD_OF_VIEW: u32 = 0x4000_0000;

/// The binary angle of the `i`-th ray of an `n`-ray fan cast from
/// `facing`: the fan starts half the field of view behind the facing
/// angle and advances by `FIELD_OF_VIEW / (n - 1)` per ray; a single-ray
/// fan uses the facing angle directly, with no spread.
pub open spec fn fan_angle(facing: u32, n: int, i: int) -> int {
    if n <= 1 {
        facing as int
    } else {
        wrap32(facing - 0x2000_0000 + i * (0x4000_0000int / (n - 1)))
    }
}

/// The viewer: position and facing angle, the per-input turn increment,
/// the ray fan, and the distance covered by one movement command.
pub struct Player {
    pub position: Point,
    pub angle: u32,
    pub angle_tick: u32,
    pub rays: Vec<Ray>,
    pub move_step: i64,
}

/// The candidate position one move step from `p` along binary angle `a`.
pub open spec fn move_candidate(p: Point, a: u32, step: int) -> Point {
    Point {
        x: (p.x + div_trunc_spec(cos_fp(a as int) * step, SCALE as int)) as i64,
        y: (p.y + div_trunc_spec(sin_fp(a as int) * step, SCALE as int)) as i64,
    }
}

/// Whether a candidate position may be committed: it lies inside the
/// board and its tile is open.
pub open spec fn move_allowed(b: &Board, cand: Point) -> bool {
    &&& b.point_in_bounds(cand.x as int, cand.y as int)
    &&& b.code_at(
        crate::fixed::tile_of(cand.x as int),
        crate::fixed::tile_of(cand.y as int),
    ) == 0
}

/// How one movement command changes the viewer: the candidate position
/// along `a` is committed only if its tile is open and inside the board;
/// a rejected move leaves the position unchanged. Nothing else moves.
pub open spec fn moved(pre: Player, post: Player, b: &Board, a: u32) -> bool {
    &&& post.position == (if move_allowed(b, move_candidate(pre.position, a, pre.move_step as int)) {
        move_candidate(pre.position, a, pre.move_step as int)
    } else {
        pre.position
    })
    &&& post.angle == pre.angle
    &&& post.angle_tick == pre.angle_tick
    &&& post.rays == pre.rays
    &&& post.move_step == pre.move_step
}

impl Player {
    /// Well-formedness: the position and move step are within the
    /// supported ranges, and the fan is not unreasonably wide.
    pub open spec fn wf(&self) -> bool {
        &&& pos_ok(self.position)
        &&& 0 <= self.move_step <= MAX_MOVE_STEP
        &&& self.rays@.len() <= 4096
    }

    /// A viewer with `num_rays` fresh rays, after validating the ranges.
    pub fn new(position: Point, angle: u32, angle_tick: u32, num_rays: usize, move_step: i64) -> (r:
        Option<Player>)
        ensures
            match r {
                Some(p) => {
                    &&& p.wf()
                    &&& p.position == position
                    &&& p.angle == angle
                    &&& p.angle_tick == angle_tick
                    &&& p.rays@.len() == num_rays
                    &&& p.move_step == move_step
                    &&& forall|i: int|
                        0 <= i < num_rays ==> (#[trigger] p.rays@[i]).wall_intersection is None
                            && p.rays@[i].wall_distance == 0 && p.rays@[i].wall_height == 0
                            && p.rays@[i].angle == 0
                },
                None => !(pos_ok(position) && 0 <= move_step <= MAX_MOVE_STEP && num_rays <= 4096),
            },
    {
        if position.x < -MAX_POS || position.x > MAX_POS || position.y < -MAX_POS || position.y
            > MAX_POS {
            return None;
        }
        if move_step < 0 || move_step > MAX_MOVE_STEP {
            return None;
        }
        if num_rays > 4096 {
            return None;
        }
        let mut rays: Vec<Ray> = Vec::new();
        let mut i: usize = 0;
        while i < num_rays
            invariant
                i <= num_rays,
                rays@.len() == i,
                forall|j: int|
                    0 <= j < i ==> (#[trigger] rays@[j]).wall_intersection is None
                        && rays@[j].wall_distance == 0 && rays@[j].wall_height == 0
                        && rays@[j].angle == 0,
            decreases num_rays - i,
        {
            rays.push(Ray::new());
            i = i + 1;
        }
        Some(Player { position, angle, angle_tick, rays, move_step })
    }

    /// Recomputes the whole fan: each ray's angle is spread around the
    /// facing angle by the field of view, and each ray is resolved
    /// against the board from the current position.
    pub fn update(&mut self, board: &Board)
        requires
            board.wf(),
            old(self).wf(),
        ensures
            final(self).position == old(self).position,
            final(self).angle == old(self).angle,
            final(self).angle_tick == old(self).angle_tick,
            final(self).move_step == old(self).move_step,
            final(self).wf(),
            final(self).rays@.len() == old(self).rays@.len(),
            forall|i: int|
                0 <= i < final(self).rays@.len() ==> ray_resolved(
                    #[trigger] final(self).rays@[i],
                    board,
                    final(self).position,
                    fan_angle(final(self).angle, final(self).rays@.len() as int, i) as u32,
                ),
    {
        let ghost n = self.rays@.len() as int;
        let num_rays = self.rays.len();
        let ray_angle_tick: u32 = if num_rays > 1 {
            0x4000_0000u32 / ((num_rays - 1) as u32)
        } else {
            0u32
        };
        proof {
            if num_rays > 1 {
                vstd::arithmetic::div_mod::lemma_div_nonincreasing(
                    0x4000_0000int,
                    (num_rays - 1) as int,
                );
                vstd::arithmetic::div_mod::lemma_div_pos_is_pos(
                    0x4000_0000int,
                    (num_rays - 1) as int,
                );
            }
        }
        let start_rotation: u32 = if num_rays > 1 {
            wrap_add32(self.angle, 0xE000_0000)
        } else {
            self.angle
        };
        proof {
            if num_rays > 1 {
                crate::fixed::lemma_wrap32_shift(self.angle as int, 0xE000_0000int, -0x2000_0000);
            }
        }
        let position = self.position;
        let mut i: usize = 0;
        while i < num_rays
            invariant
                board.wf(),
                pos_ok(position),
                position == self.position,
                num_rays == self.rays@.len(),
                n == num_rays as int,
                num_rays <= 4096,
                i <= num_rays,
                self.angle == old(self).angle,
                self.angle_tick == old(self).angle_tick,
                self.move_step == old(self).move_step,
                self.position == old(self).position,
                num_rays == old(self).rays@.len(),
                num_rays > 1 ==> ray_angle_tick == 0x4000_0000int / (n - 1),
                ray_angle_tick <= 0x4000_0000,
                num_rays > 1 ==> start_rotation == wrap32(self.angle - 0x2000_0000),
                num_rays <= 1 ==> start_rotation == self.angle,
                forall|j: int|
                    0 <= j < i ==> ray_resolved(
                        #[trigger] self.rays@[j],
                        board,
                        position,
                        fan_angle(self.angle, n, j) as u32,
                    ),
            decreases num_rays - i,
        {
            proof {
                assert((i as u64) * (ray_angle_tick as u64) <= 0x400_0000_0000) by (nonlinear_arith)
                    requires
                        i <= 4096,
                        ray_angle_tick <= 0x4000_0000,
                ;
            }
            let ray_angle: u32 = if num_rays > 1 {
                wrap_add_wide(start_rotation, (i as u64) * (ray_angle_tick as u64))
            } else {
                self.angle
            };
            proof {
                if num_rays > 1 {
                    crate::fixed::lemma_wrap32_add(
                        self.angle - 0x2000_0000,
                        i * (0x4000_0000int / (n - 1)),
                    );
                    assert(ray_angle == fan_angle(self.angle, n, i as int));
                } else {
                    assert(ray_angle == fan_angle(self.angle, n, i as int));
                }
            }
            let slot = &mut self.rays[i];
            slot.update(position, ray_angle, board);
            i = i + 1;
        }
    }

    /// Moves one step along the facing angle.
    pub fn move_forward(&mut self, board: &Board)
        requires
            board.wf(),
            old(self).wf(),
        ensures
            moved(*old(self), *final(self), board, old(self).angle),
            final(self).wf(),
    {
        let angle = self.angle;
        self.move_angle(angle, board);
    }

    /// Moves one step away from the facing angle.
    pub fn move_backward(&mut self, board: &Board)
        requires
            board.wf(),
            old(self).wf(),
        ensures
            moved(*old(self), *final(self), board, wrap32(old(self).angle + HALF_TURN) as u32),
            final(self).wf(),
    {
        let angle = wrap_add32(self.angle, HALF_TURN);
        self.move_angle(angle, board);
    }

    /// Moves one step a quarter turn behind the facing angle.
    pub fn strafe_left(&mut self, board: &Board)
        requires
            board.wf(),
            old(self).wf(),
        ensures
            moved(*old(self), *final(self), board, wrap32(old(self).angle + 0xC000_0000) as u32),
            final(self).wf(),
    {
        let angle = wrap_add32(self.angle, 0xC000_0000);
        self.move_angle(angle, board);
    }

    /// Moves one step a quarter turn ahead of the facing angle.
    pub fn strafe_right(&mut self, board: &Board)
        requires
            board.wf(),
            old(self).wf(),
        ensures
            moved(*old(self), *final(self), board, wrap32(old(self).angle + QUARTER_TURN) as u32),
            final(self).wf(),
    {
        let angle = wrap_add32(self.angle, QUARTER_TURN);
        self.move_angle(angle, board);
    }

    /// Turns the viewer by a signed binary-angle increment.
    pub fn turn(&mut self, delta: i32)
        ensures
            final(self).angle == wrap32(old(self).angle + delta),
            final(self).position == old(self).position,
            final(self).angle_tick == old(self).angle_tick,
            final(self).rays == old(self).rays,
            final(self).move_step == old(self).move_step,
    {
        if delta >= 0 {
            let new_angle = wrap_add32(self.angle, delta as u32);
            self.angle = new_angle;
        } else {
            let back: u32 = (0x1_0000_0000u64 - ((-(delta as i64)) as u64)) as u32;
            let new_angle = wrap_add32(self.angle, back);
            proof {
                crate::fixed::lemma_wrap32_shift(
                    old(self).angle as int,
                    back as int,
                    delta as int,
                );
            }
            self.angle = new_angle;
        }
    }

    /// Attempts one move step along binary angle `a`: the candidate
    /// position is committed only if it lies inside the board on an open
    /// tile; otherwise the position is left unchanged.
    fn move_angle(&mut self, a: u32, board: &Board)
        requires
            board.wf(),
            old(self).wf(),
        ensures
            moved(*old(self), *final(self), board, a),
            final(self).wf(),
    {
        let sin = sin_fixed(a);
        let cos = cos_fixed(a);
        proof {
            assert(crate::fixed::abs_i(cos * self.move_step) <= 0x100_0000_0000int)
                by (nonlinear_arith)
                requires
                    -65536 <= cos <= 65536,
                    0 <= self.move_step <= 0x10_0000,
            ;
            assert(crate::fixed::abs_i(sin * self.move_step) <= 0x100_0000_0000int)
                by (nonlinear_arith)
                requires
                    -65536 <= sin <= 65536,
                    0 <= self.move_step <= 0x10_0000,
            ;
        }
        let dx = div_trunc(cos * self.move_step, SCALE);
        let dy = div_trunc(sin * self.move_step, SCALE);
        let new_point = Point { x: self.position.x + dx, y: self.position.y + dy };
        if new_point.x < 0 || new_point.y < 0 {
            return ;
        }
        if new_point.x >= (board.tiles_x as i64) * SCALE {
            return ;
        }
        if new_point.y >= (board.tiles_y as i64) * SCALE {
            return ;
        }
        if board.is_wall_at(new_point) {
            return ;
        }
        self.position = new_point;
    }
}

} // verus!
