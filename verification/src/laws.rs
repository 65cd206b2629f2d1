//! General laws of the intersection engine, proved once for all boards,
//! origins and angles.

use vstd::prelude::*;

use crate::board::Board;
use crate::fixed::{ceil_tile_spec, is_sqrt, lemma_sqrt_unique, on_line, sqrt_of, tile_of};
use crate::point::{dist2, InterceptType, Point, RayPoint};
use crate::ray::{
    cot_fp, resolved_distance, resolved_hit, tan_fp, x_col, x_cross_x, x_cross_y, x_flat,
    x_has_hit, x_hit_point, x_hit_step, x_in_grid, x_march_len, x_row, x_row0, x_start_x,
    x_step_dx, x_step_dy, x_stop, x_stop_from, x_wall, y_col, y_col0, y_cross_x, y_cross_y,
    y_flat, y_has_hit, y_hit_point, y_hit_step, y_in_grid, y_march_len, y_row, y_start_y,
    y_step_dx, y_step_dy, y_stop, y_stop_from, y_wall, lemma_x_stop_from_props,
    lemma_y_stop_from_props,
};
use crate::trig::{cos_fp, lemma_axis_values, sin_fp};

verus! {

/// On a board with no wall tile anywhere, no ray resolves a hit: both
/// marches stop only by leaving the board or by exhausting their step
/// bound (one full board span per family), and the merged result is
/// empty.
pub proof fn lemma_open_grid_unresolved(b: &Board, o: Point, a: u32)
    requires
        b.wf(),
        0 <= a < 0x1_0000_0000,
        forall|i: int| 0 <= i < b.tiles@.len() ==> b.tiles@[i] == 0,
    ensures
        resolved_hit(b, o, sin_fp(a as int), cos_fp(a as int)) is None,
        resolved_distance(b, o, sin_fp(a as int), cos_fp(a as int)) == 0,
        x_march_len(b, o.x as int, o.y as int, sin_fp(a as int), cos_fp(a as int)) <= b.tiles_y
            + 1,
        y_march_len(b, o.x as int, o.y as int, sin_fp(a as int), cos_fp(a as int)) <= b.tiles_x
            + 1,
{
    let ox = o.x as int;
    let oy = o.y as int;
    let s = sin_fp(a as int);
    let c = cos_fp(a as int);
    lemma_x_stop_from_props(b, ox, oy, s, c, 0);
    lemma_y_stop_from_props(b, ox, oy, s, c, 0);
    if x_has_hit(b, ox, oy, s, c) {
        let k0 = crate::ray::x_hit_step(b, ox, oy, s, c);
        assert(crate::ray::x_wall(b, ox, oy, s, c, k0));
        let xk = crate::ray::x_cross_x(ox, oy, s, c, k0);
        let yk = crate::ray::x_cross_y(oy, s, k0);
        let col = x_col(xk, c);
        let row = x_row(yk, s);
        assert(0 <= row * b.tiles_x + col < b.tiles_x * b.tiles_y) by (nonlinear_arith)
            requires
                0 <= col < b.tiles_x,
                0 <= row < b.tiles_y,
        ;
        assert(b.tiles@[crate::ray::x_flat(b, xk, yk, s, c)] == 0);
        assert(false);
    }
    if y_has_hit(b, ox, oy, s, c) {
        let k0 = y_hit_step(b, ox, oy, s, c);
        assert(y_wall(b, ox, oy, s, c, k0));
        let xk = y_cross_x(ox, c, k0);
        let yk = y_cross_y(ox, oy, s, c, k0);
        let col = y_col(xk, c);
        let row = y_row(yk, s);
        assert(0 <= row * b.tiles_x + col < b.tiles_x * b.tiles_y) by (nonlinear_arith)
            requires
                0 <= col < b.tiles_x,
                0 <= row < b.tiles_y,
        ;
        assert(b.tiles@[y_flat(b, xk, yk, s, c)] == 0);
        assert(false);
    }
}

/// The first stop of the vertical march is the step where the first
/// stopping crossing lies, when no earlier crossing stops the march.
proof fn lemma_y_first_stop(b: &Board, ox: int, oy: int, s: int, c: int, k: int, t: int)
    requires
        0 <= k <= t <= b.tiles_x,
        y_stop(b, ox, oy, s, c, t),
        forall|j: int| k <= j < t ==> !y_stop(b, ox, oy, s, c, j),
    ensures
        y_stop_from(b, ox, oy, s, c, k) == t,
    decreases t - k,
{
    if k < t {
        lemma_y_first_stop(b, ox, oy, s, c, k + 1, t);
    }
}

/// A ray cast along the positive x axis (binary angle zero) from inside
/// the board, with a wall in its row at column `cw` and only open tiles
/// between, resolves exactly that wall's near face: the hit lies on the
/// column-`cw` grid line at the origin's height, carries that tile's
/// row-major index, and its distance is the exact fixed-point gap
/// between the origin and the wall face.
pub proof fn lemma_axis_ray_hit(b: &Board, o: Point, cw: int)
    requires
        b.wf(),
        b.point_in_bounds(o.x as int, o.y as int),
        tile_of(o.x as int) < cw < b.tiles_x,
        b.code_at(cw, tile_of(o.y as int)) != 0,
        forall|j: int| tile_of(o.x as int) < j < cw ==> b.code_at(j, tile_of(o.y as int)) == 0,
    ensures
        resolved_hit(b, o, sin_fp(0), cos_fp(0)) == Some(
            RayPoint {
                x: (cw * 65536) as i64,
                y: o.y,
                board_index: Some((tile_of(o.y as int) * b.tiles_x + cw) as usize),
                has_wall_intersection: true,
                intercept_type: InterceptType::YIntercept,
            },
        ),
        resolved_distance(b, o, sin_fp(0), cos_fp(0)) == cw * 65536 - o.x,
{
    lemma_axis_values();
    let ox = o.x as int;
    let oy = o.y as int;
    let s = sin_fp(0);
    let c = cos_fp(0);
    assert(s == 0 && c == 65536);
    let row = tile_of(oy);
    let col_first = tile_of(ox) + 1;
    assert(y_col0(ox, c) == col_first);
    assert(tan_fp(s, c) == 0) by {
        assert(0int * 65536 == 0) by (nonlinear_arith);
    }
    assert(y_start_y(ox, oy, s, c) == oy) by {
        assert(tan_fp(s, c) * (ox - y_col0(ox, c) * 65536) == 0) by (nonlinear_arith)
            requires
                tan_fp(s, c) == 0,
        ;
    }
    assert(y_step_dx(c) == 65536 && y_step_dy(s, c) == 0);
    let kw = cw - col_first;
    assert(0 <= kw <= b.tiles_x);
    assert forall|k: int| 0 <= k <= kw implies y_cross_x(ox, c, k) == (col_first + k) * 65536
        && y_cross_y(ox, oy, s, c, k) == oy by {
        assert(col_first * 65536 + k * 65536 == (col_first + k) * 65536 && k * 0 == 0)
            by (nonlinear_arith);
    }
    assert forall|k: int| 0 <= k <= kw implies y_col(y_cross_x(ox, c, k), c) == col_first + k
        && on_line(y_cross_x(ox, c, k)) by {
        vstd::arithmetic::div_mod::lemma_div_multiples_vanish(col_first + k, 65536);
        vstd::arithmetic::div_mod::lemma_mod_multiples_basic(col_first + k, 65536);
        assert((col_first + k) * 65536 == 65536 * (col_first + k)) by (nonlinear_arith);
    }
    assert(!(s < 0));
    assert(y_row(oy, s) == row);
    assert(0 <= row < b.tiles_y) by {
        vstd::arithmetic::div_mod::lemma_div_pos_is_pos(oy, 65536);
        assert(65536 * (b.tiles_y as int) == (b.tiles_y as int) * 65536) by (nonlinear_arith);
        vstd::arithmetic::div_mod::lemma_multiply_divide_lt(oy, 65536, b.tiles_y as int);
    }
    assert(0 <= tile_of(ox)) by {
        vstd::arithmetic::div_mod::lemma_div_pos_is_pos(ox, 65536);
    }
    assert forall|k: int| 0 <= k <= kw implies y_in_grid(b, ox, oy, s, c, k) by {
        assert(0 <= col_first + k < b.tiles_x);
    }
    assert forall|k: int| 0 <= k <= kw implies b.tiles@[y_flat(
        b,
        y_cross_x(ox, c, k),
        y_cross_y(ox, oy, s, c, k),
        s,
        c,
    )] == b.code_at(col_first + k, row) by {
        assert(y_flat(b, y_cross_x(ox, c, k), y_cross_y(ox, oy, s, c, k), s, c) == row
            * b.tiles_x + (col_first + k));
    }
    assert forall|j: int| 0 <= j < kw implies !y_stop(b, ox, oy, s, c, j) by {
        assert(b.code_at(col_first + j, row) == 0);
    }
    assert(y_wall(b, ox, oy, s, c, kw));
    lemma_y_first_stop(b, ox, oy, s, c, 0, kw);
    assert(y_hit_step(b, ox, oy, s, c) == kw);
    assert(y_has_hit(b, ox, oy, s, c));
    assert(!x_has_hit(b, ox, oy, s, c));
    let p = y_hit_point(b, ox, oy, s, c);
    assert(p.x == cw * 65536 && p.y == oy);
    assert(p.board_index == Some((row * b.tiles_x + cw) as usize));
    assert(resolved_hit(b, o, s, c) == Some(p));
    let d = cw * 65536 - ox;
    assert(0 <= d) by {
        vstd::arithmetic::div_mod::lemma_fundamental_div_mod(ox, 65536);
        vstd::arithmetic::div_mod::lemma_mod_bound(ox, 65536);
        assert((tile_of(ox) + 1) * 65536 <= cw * 65536) by (nonlinear_arith)
            requires
                tile_of(ox) + 1 <= cw,
        ;
    }
    assert(dist2(ox, oy, p.x as int, p.y as int) == d * d) by (nonlinear_arith)
        requires
            p.x == cw * 65536,
            p.y == oy,
            d == cw * 65536 - ox,
    ;
    assert(is_sqrt(d * d, d)) by (nonlinear_arith)
        requires
            0 <= d,
    ;
    assert(is_sqrt(d * d, sqrt_of(d * d)));
    lemma_sqrt_unique(d * d, d, sqrt_of(d * d));
}

/// The first stop of the horizontal march is the step where the first
/// stopping crossing lies, when no earlier crossing stops the march.
proof fn lemma_x_first_stop(b: &Board, ox: int, oy: int, s: int, c: int, k: int, t: int)
    requires
        0 <= k <= t <= b.tiles_y,
        x_stop(b, ox, oy, s, c, t),
        forall|j: int| k <= j < t ==> !x_stop(b, ox, oy, s, c, j),
    ensures
        x_stop_from(b, ox, oy, s, c, k) == t,
    decreases t - k,
{
    if k < t {
        lemma_x_first_stop(b, ox, oy, s, c, k + 1, t);
    }
}

/// A ray cast along the positive y axis (a quarter turn) from inside
/// the board, with a wall in its column at row `rw` and only open tiles
/// between, resolves exactly that wall's near face, at the exact
/// fixed-point gap between the origin and the wall face.
pub proof fn lemma_axis_ray_hit_down(b: &Board, o: Point, rw: int)
    requires
        b.wf(),
        b.point_in_bounds(o.x as int, o.y as int),
        tile_of(o.y as int) < rw < b.tiles_y,
        b.code_at(tile_of(o.x as int), rw) != 0,
        forall|j: int| tile_of(o.y as int) < j < rw ==> b.code_at(tile_of(o.x as int), j) == 0,
    ensures
        resolved_hit(b, o, sin_fp(0x4000_0000), cos_fp(0x4000_0000)) == Some(
            RayPoint {
                x: o.x,
                y: (rw * 65536) as i64,
                board_index: Some((rw * b.tiles_x + tile_of(o.x as int)) as usize),
                has_wall_intersection: true,
                intercept_type: InterceptType::XIntercept,
            },
        ),
        resolved_distance(b, o, sin_fp(0x4000_0000), cos_fp(0x4000_0000)) == rw * 65536 - o.y,
{
    lemma_axis_values();
    let ox = o.x as int;
    let oy = o.y as int;
    let s = sin_fp(0x4000_0000);
    let c = cos_fp(0x4000_0000);
    assert(s == 65536 && c == 0);
    let col = tile_of(ox);
    let row_first = tile_of(oy) + 1;
    assert(x_row0(oy, s) == row_first);
    assert(cot_fp(s, c) == 0) by {
        assert(0int * 65536 == 0) by (nonlinear_arith);
    }
    assert(x_start_x(ox, oy, s, c) == ox) by {
        assert(cot_fp(s, c) * (oy - x_row0(oy, s) * 65536) == 0) by (nonlinear_arith)
            requires
                cot_fp(s, c) == 0,
        ;
    }
    assert(x_step_dy(s) == 65536 && x_step_dx(s, c) == 0);
    let kw = rw - row_first;
    assert(0 <= kw <= b.tiles_y);
    assert forall|k: int| 0 <= k <= kw implies x_cross_y(oy, s, k) == (row_first + k) * 65536
        && x_cross_x(ox, oy, s, c, k) == ox by {
        assert(row_first * 65536 + k * 65536 == (row_first + k) * 65536 && k * 0 == 0)
            by (nonlinear_arith);
    }
    assert forall|k: int| 0 <= k <= kw implies x_row(x_cross_y(oy, s, k), s) == row_first + k by {
        vstd::arithmetic::div_mod::lemma_div_multiples_vanish(row_first + k, 65536);
        assert((row_first + k) * 65536 == 65536 * (row_first + k)) by (nonlinear_arith);
    }
    assert(x_col(ox, c) == col);
    assert(0 <= col < b.tiles_x) by {
        vstd::arithmetic::div_mod::lemma_div_pos_is_pos(ox, 65536);
        assert(65536 * (b.tiles_x as int) == (b.tiles_x as int) * 65536) by (nonlinear_arith);
        vstd::arithmetic::div_mod::lemma_multiply_divide_lt(ox, 65536, b.tiles_x as int);
    }
    assert(0 <= tile_of(oy)) by {
        vstd::arithmetic::div_mod::lemma_div_pos_is_pos(oy, 65536);
    }
    assert forall|k: int| 0 <= k <= kw implies x_in_grid(b, ox, oy, s, c, k) by {
        assert(0 <= row_first + k < b.tiles_y);
    }
    assert forall|k: int| 0 <= k <= kw implies b.tiles@[x_flat(
        b,
        x_cross_x(ox, oy, s, c, k),
        x_cross_y(oy, s, k),
        s,
        c,
    )] == b.code_at(col, row_first + k) by {
        assert(x_flat(b, x_cross_x(ox, oy, s, c, k), x_cross_y(oy, s, k), s, c) == (row_first + k)
            * b.tiles_x + col);
    }
    assert forall|j: int| 0 <= j < kw implies !x_stop(b, ox, oy, s, c, j) by {
        assert(b.code_at(col, row_first + j) == 0);
    }
    assert(x_wall(b, ox, oy, s, c, kw));
    lemma_x_first_stop(b, ox, oy, s, c, 0, kw);
    assert(x_hit_step(b, ox, oy, s, c) == kw);
    assert(x_has_hit(b, ox, oy, s, c));
    assert(!y_has_hit(b, ox, oy, s, c));
    let p = x_hit_point(b, ox, oy, s, c);
    assert(p.y == rw * 65536 && p.x == ox);
    assert(p.board_index == Some((rw * b.tiles_x + col) as usize));
    assert(resolved_hit(b, o, s, c) == Some(p));
    let d = rw * 65536 - oy;
    assert(0 <= d) by {
        vstd::arithmetic::div_mod::lemma_fundamental_div_mod(oy, 65536);
        vstd::arithmetic::div_mod::lemma_mod_bound(oy, 65536);
        assert((tile_of(oy) + 1) * 65536 <= rw * 65536) by (nonlinear_arith)
            requires
                tile_of(oy) + 1 <= rw,
        ;
    }
    assert(dist2(ox, oy, p.x as int, p.y as int) == d * d) by (nonlinear_arith)
        requires
            p.y == rw * 65536,
            p.x == ox,
            d == rw * 65536 - oy,
    ;
    assert(is_sqrt(d * d, d)) by (nonlinear_arith)
        requires
            0 <= d,
    ;
    assert(is_sqrt(d * d, sqrt_of(d * d)));
    lemma_sqrt_unique(d * d, d, sqrt_of(d * d));
}

/// A ray cast along the negative x axis (a half turn) from inside the
/// board, with a wall in its row at column `cw` and only open tiles
/// between, resolves exactly that wall's near face, at the exact
/// fixed-point gap between the origin and the wall face at `cw + 1`.
pub proof fn lemma_axis_ray_hit_left(b: &Board, o: Point, cw: int)
    requires
        b.wf(),
        b.point_in_bounds(o.x as int, o.y as int),
        0 <= cw < ceil_tile_spec(o.x as int) - 1,
        b.code_at(cw, tile_of(o.y as int)) != 0,
        forall|j: int| cw < j < ceil_tile_spec(o.x as int) - 1 ==> b.code_at(
            j,
            tile_of(o.y as int),
        ) == 0,
    ensures
        resolved_hit(b, o, sin_fp(0x8000_0000), cos_fp(0x8000_0000)) == Some(
            RayPoint {
                x: ((cw + 1) * 65536) as i64,
                y: o.y,
                board_index: Some((tile_of(o.y as int) * b.tiles_x + cw) as usize),
                has_wall_intersection: true,
                intercept_type: InterceptType::YIntercept,
            },
        ),
        resolved_distance(b, o, sin_fp(0x8000_0000), cos_fp(0x8000_0000)) == o.x - (cw + 1)
            * 65536,
{
    lemma_axis_values();
    let ox = o.x as int;
    let oy = o.y as int;
    let s = sin_fp(0x8000_0000);
    let c = cos_fp(0x8000_0000);
    assert(s == 0 && c == -65536);
    let row = tile_of(oy);
    let line_first = ceil_tile_spec(ox) - 1;
    assert(y_col0(ox, c) == line_first);
    assert(tan_fp(s, c) == 0) by {
        assert(0int * 65536 == 0) by (nonlinear_arith);
    }
    assert(y_start_y(ox, oy, s, c) == oy) by {
        assert(tan_fp(s, c) * (ox - y_col0(ox, c) * 65536) == 0) by (nonlinear_arith)
            requires
                tan_fp(s, c) == 0,
        ;
    }
    assert(y_step_dx(c) == -65536 && y_step_dy(s, c) == 0);
    let kw = line_first - 1 - cw;
    assert(ceil_tile_spec(ox) <= b.tiles_x) by {
        vstd::arithmetic::div_mod::lemma_fundamental_div_mod(ox, 65536);
        vstd::arithmetic::div_mod::lemma_mod_bound(ox, 65536);
        assert(65536 * (b.tiles_x as int) == (b.tiles_x as int) * 65536) by (nonlinear_arith);
        vstd::arithmetic::div_mod::lemma_multiply_divide_lt(ox, 65536, b.tiles_x as int);
    }
    assert(0 <= kw <= b.tiles_x);
    assert forall|k: int| 0 <= k <= kw implies y_cross_x(ox, c, k) == (line_first - k) * 65536
        && y_cross_y(ox, oy, s, c, k) == oy by {
        assert(line_first * 65536 + k * (-65536) == (line_first - k) * 65536 && k * 0 == 0)
            by (nonlinear_arith);
    }
    assert forall|k: int| 0 <= k <= kw implies y_col(y_cross_x(ox, c, k), c) == line_first - k
        - 1 by {
        vstd::arithmetic::div_mod::lemma_div_multiples_vanish(line_first - k, 65536);
        assert((line_first - k) * 65536 == 65536 * (line_first - k)) by (nonlinear_arith);
    }
    assert(!(s < 0));
    assert(y_row(oy, s) == row);
    assert(0 <= row < b.tiles_y) by {
        vstd::arithmetic::div_mod::lemma_div_pos_is_pos(oy, 65536);
        assert(65536 * (b.tiles_y as int) == (b.tiles_y as int) * 65536) by (nonlinear_arith);
        vstd::arithmetic::div_mod::lemma_multiply_divide_lt(oy, 65536, b.tiles_y as int);
    }
    assert forall|k: int| 0 <= k <= kw implies y_in_grid(b, ox, oy, s, c, k) by {
        assert(0 <= line_first - k - 1 < b.tiles_x);
        assert(0 <= (line_first - k) * 65536 && (line_first - k) * 65536 < b.tiles_x * 65536)
            by (nonlinear_arith)
            requires
                1 <= line_first - k < b.tiles_x,
        ;
    }
    assert forall|k: int| 0 <= k <= kw implies b.tiles@[y_flat(
        b,
        y_cross_x(ox, c, k),
        y_cross_y(ox, oy, s, c, k),
        s,
        c,
    )] == b.code_at(line_first - k - 1, row) by {
        assert(y_flat(b, y_cross_x(ox, c, k), y_cross_y(ox, oy, s, c, k), s, c) == row
            * b.tiles_x + (line_first - k - 1));
    }
    assert forall|j: int| 0 <= j < kw implies !y_stop(b, ox, oy, s, c, j) by {
        assert(b.code_at(line_first - j - 1, row) == 0);
    }
    assert(y_wall(b, ox, oy, s, c, kw));
    lemma_y_first_stop(b, ox, oy, s, c, 0, kw);
    assert(y_hit_step(b, ox, oy, s, c) == kw);
    assert(y_has_hit(b, ox, oy, s, c));
    assert(!x_has_hit(b, ox, oy, s, c));
    let p = y_hit_point(b, ox, oy, s, c);
    assert(p.x == (cw + 1) * 65536 && p.y == oy);
    assert(p.board_index == Some((row * b.tiles_x + cw) as usize));
    assert(resolved_hit(b, o, s, c) == Some(p));
    let d = ox - (cw + 1) * 65536;
    assert(0 <= d) by {
        vstd::arithmetic::div_mod::lemma_fundamental_div_mod(ox, 65536);
        vstd::arithmetic::div_mod::lemma_mod_bound(ox, 65536);
        assert((cw + 1) * 65536 <= (ceil_tile_spec(ox) - 1) * 65536 && (ceil_tile_spec(ox) - 1)
            * 65536 <= tile_of(ox) * 65536) by (nonlinear_arith)
            requires
                cw + 1 <= ceil_tile_spec(ox) - 1,
                ceil_tile_spec(ox) <= tile_of(ox) + 1,
        ;
        assert(tile_of(ox) * 65536 == 65536 * tile_of(ox)) by (nonlinear_arith);
    }
    assert(dist2(ox, oy, p.x as int, p.y as int) == d * d) by (nonlinear_arith)
        requires
            p.x == (cw + 1) * 65536,
            p.y == oy,
            d == ox - (cw + 1) * 65536,
    ;
    assert(is_sqrt(d * d, d)) by (nonlinear_arith)
        requires
            0 <= d,
    ;
    assert(is_sqrt(d * d, sqrt_of(d * d)));
    lemma_sqrt_unique(d * d, d, sqrt_of(d * d));
}

/// A ray cast along the negative y axis (three quarter turns) from
/// inside the board, with a wall in its column at row `rw` and only open
/// tiles between, resolves exactly that wall's near face, at the exact
/// fixed-point gap between the origin and the wall face at `rw + 1`.
pub proof fn lemma_axis_ray_hit_up(b: &Board, o: Point, rw: int)
    requires
        b.wf(),
        b.point_in_bounds(o.x as int, o.y as int),
        0 <= rw < ceil_tile_spec(o.y as int) - 1,
        b.code_at(tile_of(o.x as int), rw) != 0,
        forall|j: int| rw < j < ceil_tile_spec(o.y as int) - 1 ==> b.code_at(
            tile_of(o.x as int),
            j,
        ) == 0,
    ensures
        resolved_hit(b, o, sin_fp(0xC000_0000), cos_fp(0xC000_0000)) == Some(
            RayPoint {
                x: o.x,
                y: ((rw + 1) * 65536) as i64,
                board_index: Some((rw * b.tiles_x + tile_of(o.x as int)) as usize),
                has_wall_intersection: true,
                intercept_type: InterceptType::XIntercept,
            },
        ),
        resolved_distance(b, o, sin_fp(0xC000_0000), cos_fp(0xC000_0000)) == o.y - (rw + 1)
            * 65536,
{
    lemma_axis_values();
    let ox = o.x as int;
    let oy = o.y as int;
    let s = sin_fp(0xC000_0000);
    let c = cos_fp(0xC000_0000);
    assert(s == -65536 && c == 0);
    let col = tile_of(ox);
    let line_first = ceil_tile_spec(oy) - 1;
    assert(x_row0(oy, s) == line_first);
    assert(cot_fp(s, c) == 0) by {
        assert(0int * 65536 == 0) by (nonlinear_arith);
    }
    assert(x_start_x(ox, oy, s, c) == ox) by {
        assert(cot_fp(s, c) * (oy - x_row0(oy, s) * 65536) == 0) by (nonlinear_arith)
            requires
                cot_fp(s, c) == 0,
        ;
    }
    assert(x_step_dy(s) == -65536 && x_step_dx(s, c) == 0);
    let kw = line_first - 1 - rw;
    assert(ceil_tile_spec(oy) <= b.tiles_y) by {
        vstd::arithmetic::div_mod::lemma_fundamental_div_mod(oy, 65536);
        vstd::arithmetic::div_mod::lemma_mod_bound(oy, 65536);
        assert(65536 * (b.tiles_y as int) == (b.tiles_y as int) * 65536) by (nonlinear_arith);
        vstd::arithmetic::div_mod::lemma_multiply_divide_lt(oy, 65536, b.tiles_y as int);
    }
    assert(0 <= kw <= b.tiles_y);
    assert forall|k: int| 0 <= k <= kw implies x_cross_y(oy, s, k) == (line_first - k) * 65536
        && x_cross_x(ox, oy, s, c, k) == ox by {
        assert(line_first * 65536 + k * (-65536) == (line_first - k) * 65536 && k * 0 == 0)
            by (nonlinear_arith);
    }
    assert forall|k: int| 0 <= k <= kw implies x_row(x_cross_y(oy, s, k), s) == line_first - k
        - 1 by {
        vstd::arithmetic::div_mod::lemma_div_multiples_vanish(line_first - k, 65536);
        assert((line_first - k) * 65536 == 65536 * (line_first - k)) by (nonlinear_arith);
    }
    assert(!(c < 0));
    assert(x_col(ox, c) == col);
    assert(0 <= col < b.tiles_x) by {
        vstd::arithmetic::div_mod::lemma_div_pos_is_pos(ox, 65536);
        assert(65536 * (b.tiles_x as int) == (b.tiles_x as int) * 65536) by (nonlinear_arith);
        vstd::arithmetic::div_mod::lemma_multiply_divide_lt(ox, 65536, b.tiles_x as int);
    }
    assert forall|k: int| 0 <= k <= kw implies x_in_grid(b, ox, oy, s, c, k) by {
        assert(0 <= line_first - k - 1 < b.tiles_y);
    }
    assert forall|k: int| 0 <= k <= kw implies b.tiles@[x_flat(
        b,
        x_cross_x(ox, oy, s, c, k),
        x_cross_y(oy, s, k),
        s,
        c,
    )] == b.code_at(col, line_first - k - 1) by {
        assert(x_flat(b, x_cross_x(ox, oy, s, c, k), x_cross_y(oy, s, k), s, c) == (line_first
            - k - 1) * b.tiles_x + col);
    }
    assert forall|j: int| 0 <= j < kw implies !x_stop(b, ox, oy, s, c, j) by {
        assert(b.code_at(col, line_first - j - 1) == 0);
    }
    assert(x_wall(b, ox, oy, s, c, kw));
    lemma_x_first_stop(b, ox, oy, s, c, 0, kw);
    assert(x_hit_step(b, ox, oy, s, c) == kw);
    assert(x_has_hit(b, ox, oy, s, c));
    assert(!y_has_hit(b, ox, oy, s, c));
    let p = x_hit_point(b, ox, oy, s, c);
    assert(p.y == (rw + 1) * 65536 && p.x == ox);
    assert(p.board_index == Some((rw * b.tiles_x + col) as usize));
    assert(resolved_hit(b, o, s, c) == Some(p));
    let d = oy - (rw + 1) * 65536;
    assert(0 <= d) by {
        vstd::arithmetic::div_mod::lemma_fundamental_div_mod(oy, 65536);
        vstd::arithmetic::div_mod::lemma_mod_bound(oy, 65536);
        assert((rw + 1) * 65536 <= (ceil_tile_spec(oy) - 1) * 65536 && (ceil_tile_spec(oy) - 1)
            * 65536 <= tile_of(oy) * 65536) by (nonlinear_arith)
            requires
                rw + 1 <= ceil_tile_spec(oy) - 1,
                ceil_tile_spec(oy) <= tile_of(oy) + 1,
        ;
        assert(tile_of(oy) * 65536 == 65536 * tile_of(oy)) by (nonlinear_arith);
    }
    assert(dist2(ox, oy, p.x as int, p.y as int) == d * d) by (nonlinear_arith)
        requires
            p.y == (rw + 1) * 65536,
            p.x == ox,
            d == oy - (rw + 1) * 65536,
    ;
    assert(is_sqrt(d * d, d)) by (nonlinear_arith)
        requires
            0 <= d,
    ;
    assert(is_sqrt(d * d, sqrt_of(d * d)));
    lemma_sqrt_unique(d * d, d, sqrt_of(d * d));
}

/// A crossing that lands exactly on a grid-line boundary resolves to
/// exactly one tile, the one entered in the direction of travel: within
/// the horizontal family a boundary x belongs to the left column when
/// moving in -x and to the right column otherwise, and the two choices
/// name adjacent, distinct columns (no tile is counted twice, none is
/// skipped). The vertical family treats a boundary y the same way.
pub proof fn lemma_boundary_tile_direction(v: int, c_neg: int, c_pos: int)
    requires
        on_line(v),
        c_neg < 0,
        c_pos >= 0,
    ensures
        x_col(v, c_neg) == tile_of(v) - 1,
        x_col(v, c_pos) == tile_of(v),
        x_col(v, c_neg) != x_col(v, c_pos),
        x_col(v, c_neg) + 1 == x_col(v, c_pos),
        y_row(v, c_neg) == tile_of(v) - 1,
        y_row(v, c_pos) == tile_of(v),
{
}

/// Within one march the crossings enter consecutive tiles: each
/// horizontal crossing's row is one past the previous crossing's row in
/// the direction of travel, so no row is visited twice and none is
/// skipped.
pub proof fn lemma_x_rows_consecutive(b: &Board, oy: int, s: int, k: int)
    requires
        s != 0,
    ensures
        x_row(crate::ray::x_cross_y(oy, s, k + 1), s) == x_row(crate::ray::x_cross_y(oy, s, k), s)
            + (if s > 0 { 1int } else { -1int }),
{
    let y0 = crate::ray::x_row0(oy, s);
    let yk = crate::ray::x_cross_y(oy, s, k);
    let yk1 = crate::ray::x_cross_y(oy, s, k + 1);
    let line = y0 + (if s > 0 { k } else { -k });
    let line1 = y0 + (if s > 0 { k + 1 } else { -(k + 1) });
    assert(yk == line * 65536 && yk1 == line1 * 65536) by (nonlinear_arith)
        requires
            yk == y0 * 65536 + k * (if s > 0 { 65536int } else { -65536int }),
            yk1 == y0 * 65536 + (k + 1) * (if s > 0 { 65536int } else { -65536int }),
            line == y0 + (if s > 0 { k } else { -k }),
            line1 == y0 + (if s > 0 { k + 1 } else { -(k + 1) }),
    ;
    vstd::arithmetic::div_mod::lemma_div_multiples_vanish(line, 65536);
    vstd::arithmetic::div_mod::lemma_div_multiples_vanish(line1, 65536);
    assert(line * 65536 == 65536 * line && line1 * 65536 == 65536 * line1) by (nonlinear_arith);
}

/// Within one march the crossings enter consecutive tiles: each
/// vertical crossing's column is one past the previous crossing's
/// column in the direction of travel.
pub proof fn lemma_y_cols_consecutive(b: &Board, ox: int, c: int, k: int)
    requires
        c != 0,
    ensures
        y_col(crate::ray::y_cross_x(ox, c, k + 1), c) == y_col(crate::ray::y_cross_x(ox, c, k), c)
            + (if c > 0 { 1int } else { -1int }),
{
    let x0 = crate::ray::y_col0(ox, c);
    let xk = crate::ray::y_cross_x(ox, c, k);
    let xk1 = crate::ray::y_cross_x(ox, c, k + 1);
    let line = x0 + (if c > 0 { k } else { -k });
    let line1 = x0 + (if c > 0 { k + 1 } else { -(k + 1) });
    assert(xk == line * 65536 && xk1 == line1 * 65536) by (nonlinear_arith)
        requires
            xk == x0 * 65536 + k * (if c > 0 { 65536int } else { -65536int }),
            xk1 == x0 * 65536 + (k + 1) * (if c > 0 { 65536int } else { -65536int }),
            line == x0 + (if c > 0 { k } else { -k }),
            line1 == x0 + (if c > 0 { k + 1 } else { -(k + 1) }),
    ;
    vstd::arithmetic::div_mod::lemma_div_multiples_vanish(line, 65536);
    vstd::arithmetic::div_mod::lemma_div_multiples_vanish(line1, 65536);
    assert(line * 65536 == 65536 * line && line1 * 65536 == 65536 * line1) by (nonlinear_arith);
}

} // verus!
