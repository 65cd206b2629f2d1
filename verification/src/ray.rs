//! The intersection engine: resolving one ray against the board.
//!
//! Two independent marching sequences walk the two grid-line families.
//! The horizontal-crossing sequence (`XIntercept`) steps from one
//! integer-y grid line to the next in the direction of the sine's sign,
//! drifting in x by the cotangent per step; the vertical-crossing
//! sequence (`YIntercept`) is its mirror image. Each crossing resolves
//! to the tile on the forward side of the crossed line; marching stops
//! at the first wall tile, at the first crossing outside the board, or
//! after one full board span of steps. The two candidate hits are merged
//! by distance from the origin, preferring the horizontal crossing on an
//! exact tie.

use vstd::prelude::*;

use crate::board::Board;
use crate::display_vec::DisplayVec;
use crate::fixed::{
    abs_i, ceil_tile, ceil_tile_spec, div_trunc, div_trunc_spec, floor_tile, is_on_line, is_sqrt,
    on_line, sqrt_of, tile_of, SCALE,
};
use crate::point::{coord_ok, dist2, distance_squared, InterceptType, Point, RayPoint};
use crate::trig::{cos_fixed, cos_fp, sin_fixed, sin_fp};

verus! {

/// Largest viewer coordinate magnitude the traversal accepts.
pub const MAX_POS: i64 = 0x100_0000_0000;

/// Projection constant: `projected height = PROJECTION_K / distance`
/// in render units.
pub const PROJECTION_K: u64 = 10000;

/// The projection numerator in fixed-point units, `PROJECTION_K` scaled
/// twice: dividing it by a scaled render distance yields the scaled
/// projected height. It is also the clamped height reported for a
/// zero-distance hit, instead of dividing by zero.
pub const MAX_WALL_HEIGHT: u64 = PROJECTION_K * 65536 * 65536;

/// Whether a viewer position is within the accepted range.
pub open spec fn pos_ok(p: Point) -> bool {
    -MAX_POS <= p.x <= MAX_POS && -MAX_POS <= p.y <= MAX_POS
}

// ---------------------------------------------------------------------
// Horizontal-crossing family (XIntercept): steps along integer-y lines.
// ---------------------------------------------------------------------

/// The fixed-point cotangent, `cos / sin` scaled by `SCALE`: the x drift
/// per one-tile step in y.
pub open spec fn cot_fp(s: int, c: int) -> int {
    div_trunc_spec(c * (SCALE as int), s)
}

/// The first horizontal grid line the ray crosses (a tile row number):
/// the next line strictly ahead of the origin in the marching direction.
pub open spec fn x_row0(oy: int, s: int) -> int {
    if s > 0 {
        tile_of(oy) + 1
    } else {
        ceil_tile_spec(oy) - 1
    }
}

/// The x coordinate of the first horizontal crossing.
pub open spec fn x_start_x(ox: int, oy: int, s: int, c: int) -> int {
    ox - div_trunc_spec(cot_fp(s, c) * (oy - x_row0(oy, s) * (SCALE as int)), SCALE as int)
}

/// Signed per-step x drift of the horizontal-crossing sequence.
pub open spec fn x_step_dx(s: int, c: int) -> int {
    if s > 0 {
        cot_fp(s, c)
    } else {
        -cot_fp(s, c)
    }
}

/// Signed per-step y advance of the horizontal-crossing sequence.
pub open spec fn x_step_dy(s: int) -> int {
    if s > 0 {
        SCALE as int
    } else {
        -(SCALE as int)
    }
}

/// The x coordinate of the `k`-th horizontal crossing.
pub open spec fn x_cross_x(ox: int, oy: int, s: int, c: int, k: int) -> int {
    x_start_x(ox, oy, s, c) + k * x_step_dx(s, c)
}

/// The y coordinate of the `k`-th horizontal crossing.
pub open spec fn x_cross_y(oy: int, s: int, k: int) -> int {
    x_row0(oy, s) * (SCALE as int) + k * x_step_dy(s)
}

/// The tile column entered at a horizontal crossing with x coordinate
/// `x`: the column under `x`, except that a crossing exactly on a
/// vertical grid line while moving in -x belongs to the column on the
/// left.
pub open spec fn x_col(x: int, c: int) -> int {
    if on_line(x) && c < 0 {
        tile_of(x) - 1
    } else {
        tile_of(x)
    }
}

/// The tile row entered at a horizontal crossing with y coordinate `y`:
/// the row below the crossed line when moving in +y, the row above when
/// moving in -y.
pub open spec fn x_row(y: int, s: int) -> int {
    if s < 0 {
        tile_of(y) - 1
    } else {
        tile_of(y)
    }
}

/// Whether a horizontal crossing at `(x, y)` resolves to a tile of the
/// board. A crossing whose x coordinate has left the board area, or
/// whose entered tile does not exist, is out.
pub open spec fn x_ok(b: &Board, x: int, y: int, s: int, c: int) -> bool {
    &&& 0 <= x < b.tiles_x * (SCALE as int)
    &&& b.tile_in_range(x_col(x, c), x_row(y, s))
}

/// The row-major index of the tile a horizontal crossing resolves to
/// (meaningful only when `x_ok` holds).
pub open spec fn x_flat(b: &Board, x: int, y: int, s: int, c: int) -> int {
    x_row(y, s) * b.tiles_x + x_col(x, c)
}

/// Whether the `k`-th horizontal crossing resolves to a tile.
pub open spec fn x_in_grid(b: &Board, ox: int, oy: int, s: int, c: int, k: int) -> bool {
    x_ok(b, x_cross_x(ox, oy, s, c, k), x_cross_y(oy, s, k), s, c)
}

/// Whether the `k`-th horizontal crossing resolves to a wall tile.
pub open spec fn x_wall(b: &Board, ox: int, oy: int, s: int, c: int, k: int) -> bool {
    &&& x_in_grid(b, ox, oy, s, c, k)
    &&& b.tiles@[x_flat(b, x_cross_x(ox, oy, s, c, k), x_cross_y(oy, s, k), s, c)] != 0
}

/// Whether the horizontal march stops at crossing `k`: the crossing is
/// out of the board or confirms a wall.
pub open spec fn x_stop(b: &Board, ox: int, oy: int, s: int, c: int, k: int) -> bool {
    !x_in_grid(b, ox, oy, s, c, k) || x_wall(b, ox, oy, s, c, k)
}

/// The first stopping step at or after `k`, capped one past the step
/// bound `tiles_y` (the cap value means the march ran its full bound).
pub open spec fn x_stop_from(b: &Board, ox: int, oy: int, s: int, c: int, k: int) -> int
    decreases b.tiles_y + 1 - k,
{
    if k < 0 || k > b.tiles_y {
        b.tiles_y + 1
    } else if x_stop(b, ox, oy, s, c, k) {
        k
    } else {
        x_stop_from(b, ox, oy, s, c, k + 1)
    }
}

/// The step at which the horizontal march stops, from the beginning.
pub open spec fn x_hit_step(b: &Board, ox: int, oy: int, s: int, c: int) -> int {
    x_stop_from(b, ox, oy, s, c, 0)
}

/// Whether the horizontal march confirms a wall hit.
pub open spec fn x_has_hit(b: &Board, ox: int, oy: int, s: int, c: int) -> bool {
    &&& s != 0
    &&& x_hit_step(b, ox, oy, s, c) <= b.tiles_y
    &&& x_in_grid(b, ox, oy, s, c, x_hit_step(b, ox, oy, s, c))
}

/// Number of crossings the horizontal march records: the open in-grid
/// prefix, plus the confirmed wall crossing if there is one. A ray
/// parallel to the horizontal lines records none.
pub open spec fn x_march_len(b: &Board, ox: int, oy: int, s: int, c: int) -> int {
    if s == 0 {
        0
    } else {
        let k0 = x_hit_step(b, ox, oy, s, c);
        if k0 > b.tiles_y {
            b.tiles_y + 1
        } else if x_in_grid(b, ox, oy, s, c, k0) {
            k0 + 1
        } else {
            k0
        }
    }
}

/// What the `i`-th recorded horizontal crossing holds: the exact crossing
/// coordinates, its resolved tile index, and whether that tile is a wall.
pub open spec fn x_march_elem(
    b: &Board,
    ox: int,
    oy: int,
    s: int,
    c: int,
    p: RayPoint,
    i: int,
) -> bool {
    &&& p.x == x_cross_x(ox, oy, s, c, i)
    &&& p.y == x_cross_y(oy, s, i)
    &&& p.intercept_type == InterceptType::XIntercept
    &&& x_in_grid(b, ox, oy, s, c, i)
    &&& p.board_index == Some(
        x_flat(b, x_cross_x(ox, oy, s, c, i), x_cross_y(oy, s, i), s, c) as usize,
    )
    &&& p.has_wall_intersection == x_wall(b, ox, oy, s, c, i)
}

/// Basic shape of `x_stop_from`: it never runs past the cap, it stops
/// where it says, and it skips no earlier stop.
pub proof fn lemma_x_stop_from_props(b: &Board, ox: int, oy: int, s: int, c: int, k: int)
    requires
        0 <= k <= b.tiles_y + 1,
    ensures
        k <= x_stop_from(b, ox, oy, s, c, k) <= b.tiles_y + 1,
        x_stop_from(b, ox, oy, s, c, k) <= b.tiles_y ==> x_stop(
            b,
            ox,
            oy,
            s,
            c,
            x_stop_from(b, ox, oy, s, c, k),
        ),
        forall|j: int|
            k <= j < x_stop_from(b, ox, oy, s, c, k) ==> !x_stop(b, ox, oy, s, c, j),
    decreases b.tiles_y + 1 - k,
{
    if k > b.tiles_y {
    } else if x_stop(b, ox, oy, s, c, k) {
    } else {
        lemma_x_stop_from_props(b, ox, oy, s, c, k + 1);
    }
}

// ---------------------------------------------------------------------
// Vertical-crossing family (YIntercept): steps along integer-x lines.
// ---------------------------------------------------------------------

/// The fixed-point tangent, `sin / cos` scaled by `SCALE`: the y drift
/// per one-tile step in x.
pub open spec fn tan_fp(s: int, c: int) -> int {
    div_trunc_spec(s * (SCALE as int), c)
}

/// The first vertical grid line the ray crosses (a tile column number).
pub open spec fn y_col0(ox: int, c: int) -> int {
    if c > 0 {
        tile_of(ox) + 1
    } else {
        ceil_tile_spec(ox) - 1
    }
}

/// The y coordinate of the first vertical crossing.
pub open spec fn y_start_y(ox: int, oy: int, s: int, c: int) -> int {
    oy - div_trunc_spec(tan_fp(s, c) * (ox - y_col0(ox, c) * (SCALE as int)), SCALE as int)
}

/// Signed per-step x advance of the vertical-crossing sequence.
pub open spec fn y_step_dx(c: int) -> int {
    if c > 0 {
        SCALE as int
    } else {
        -(SCALE as int)
    }
}

/// Signed per-step y drift of the vertical-crossing sequence.
pub open spec fn y_step_dy(s: int, c: int) -> int {
    if c > 0 {
        tan_fp(s, c)
    } else {
        -tan_fp(s, c)
    }
}

/// The x coordinate of the `k`-th vertical crossing.
pub open spec fn y_cross_x(ox: int, c: int, k: int) -> int {
    y_col0(ox, c) * (SCALE as int) + k * y_step_dx(c)
}

/// The y coordinate of the `k`-th vertical crossing.
pub open spec fn y_cross_y(ox: int, oy: int, s: int, c: int, k: int) -> int {
    y_start_y(ox, oy, s, c) + k * y_step_dy(s, c)
}

/// The tile column entered at a vertical crossing with x coordinate `x`
/// (always on a vertical grid line): the column on the forward side of
/// the crossed line.
pub open spec fn y_col(x: int, c: int) -> int {
    if c < 0 {
        tile_of(x) - 1
    } else {
        tile_of(x)
    }
}

/// The tile row entered at a vertical crossing with y coordinate `y`:
/// the row under `y`, except that a crossing exactly on a horizontal
/// grid line while moving in -y belongs to the row above.
pub open spec fn y_row(y: int, s: int) -> int {
    if on_line(y) && s < 0 {
        tile_of(y) - 1
    } else {
        tile_of(y)
    }
}

/// Whether a vertical crossing at `(x, y)` resolves to a tile of the
/// board.
pub open spec fn y_ok(b: &Board, x: int, y: int, s: int, c: int) -> bool {
    &&& 0 <= y < b.tiles_y * (SCALE as int)
    &&& b.tile_in_range(y_col(x, c), y_row(y, s))
}

/// The row-major index of the tile a vertical crossing resolves to
/// (meaningful only when `y_ok` holds).
pub open spec fn y_flat(b: &Board, x: int, y: int, s: int, c: int) -> int {
    y_row(y, s) * b.tiles_x + y_col(x, c)
}

/// Whether the `k`-th vertical crossing resolves to a tile.
pub open spec fn y_in_grid(b: &Board, ox: int, oy: int, s: int, c: int, k: int) -> bool {
    y_ok(b, y_cross_x(ox, c, k), y_cross_y(ox, oy, s, c, k), s, c)
}

/// Whether the `k`-th vertical crossing resolves to a wall tile.
pub open spec fn y_wall(b: &Board, ox: int, oy: int, s: int, c: int, k: int) -> bool {
    &&& y_in_grid(b, ox, oy, s, c, k)
    &&& b.tiles@[y_flat(b, y_cross_x(ox, c, k), y_cross_y(ox, oy, s, c, k), s, c)] != 0
}

/// Whether the vertical march stops at crossing `k`.
pub open spec fn y_stop(b: &Board, ox: int, oy: int, s: int, c: int, k: int) -> bool {
    !y_in_grid(b, ox, oy, s, c, k) || y_wall(b, ox, oy, s, c, k)
}

/// The first stopping step at or after `k`, capped one past the step
/// bound `tiles_x`.
pub open spec fn y_stop_from(b: &Board, ox: int, oy: int, s: int, c: int, k: int) -> int
    decreases b.tiles_x + 1 - k,
{
    if k < 0 || k > b.tiles_x {
        b.tiles_x + 1
    } else if y_stop(b, ox, oy, s, c, k) {
        k
    } else {
        y_stop_from(b, ox, oy, s, c, k + 1)
    }
}

/// The step at which the vertical march stops, from the beginning.
pub open spec fn y_hit_step(b: &Board, ox: int, oy: int, s: int, c: int) -> int {
    y_stop_from(b, ox, oy, s, c, 0)
}

/// Whether the vertical march confirms a wall hit.
pub open spec fn y_has_hit(b: &Board, ox: int, oy: int, s: int, c: int) -> bool {
    &&& c != 0
    &&& y_hit_step(b, ox, oy, s, c) <= b.tiles_x
    &&& y_in_grid(b, ox, oy, s, c, y_hit_step(b, ox, oy, s, c))
}

/// Number of crossings the vertical march records. A ray parallel to
/// the vertical lines records none.
pub open spec fn y_march_len(b: &Board, ox: int, oy: int, s: int, c: int) -> int {
    if c == 0 {
        0
    } else {
        let k0 = y_hit_step(b, ox, oy, s, c);
        if k0 > b.tiles_x {
            b.tiles_x + 1
        } else if y_in_grid(b, ox, oy, s, c, k0) {
            k0 + 1
        } else {
            k0
        }
    }
}

/// What the `i`-th recorded vertical crossing holds.
pub open spec fn y_march_elem(
    b: &Board,
    ox: int,
    oy: int,
    s: int,
    c: int,
    p: RayPoint,
    i: int,
) -> bool {
    &&& p.x == y_cross_x(ox, c, i)
    &&& p.y == y_cross_y(ox, oy, s, c, i)
    &&& p.intercept_type == InterceptType::YIntercept
    &&& y_in_grid(b, ox, oy, s, c, i)
    &&& p.board_index == Some(
        y_flat(b, y_cross_x(ox, c, i), y_cross_y(ox, oy, s, c, i), s, c) as usize,
    )
    &&& p.has_wall_intersection == y_wall(b, ox, oy, s, c, i)
}

/// Basic shape of `y_stop_from`: it never runs past the cap, it stops
/// where it says, and it skips no earlier stop.
pub proof fn lemma_y_stop_from_props(b: &Board, ox: int, oy: int, s: int, c: int, k: int)
    requires
        0 <= k <= b.tiles_x + 1,
    ensures
        k <= y_stop_from(b, ox, oy, s, c, k) <= b.tiles_x + 1,
        y_stop_from(b, ox, oy, s, c, k) <= b.tiles_x ==> y_stop(
            b,
            ox,
            oy,
            s,
            c,
            y_stop_from(b, ox, oy, s, c, k),
        ),
        forall|j: int|
            k <= j < y_stop_from(b, ox, oy, s, c, k) ==> !y_stop(b, ox, oy, s, c, j),
    decreases b.tiles_x + 1 - k,
{
    if k > b.tiles_x {
    } else if y_stop(b, ox, oy, s, c, k) {
    } else {
        lemma_y_stop_from_props(b, ox, oy, s, c, k + 1);
    }
}

// ---------------------------------------------------------------------
// Merging the two families into one resolved hit.
// ---------------------------------------------------------------------

/// The last recorded crossing that confirmed a wall, if any.
pub open spec fn last_hit(s: Seq<RayPoint>) -> Option<RayPoint>
    decreases s.len(),
{
    if s.len() == 0 {
        None
    } else if s.last().has_wall_intersection {
        Some(s.last())
    } else {
        last_hit(s.drop_last())
    }
}

/// Every recorded crossing's coordinates are small enough for distance
/// arithmetic.
pub open spec fn crossings_ok(s: Seq<RayPoint>) -> bool {
    forall|i: int|
        0 <= i < s.len() ==> coord_ok((#[trigger] s[i]).x as int) && coord_ok(s[i].y as int)
}

/// The last confirmed hit of a coordinate-bounded sequence is itself
/// coordinate-bounded.
proof fn lemma_last_hit_in(s: Seq<RayPoint>)
    requires
        crossings_ok(s),
    ensures
        last_hit(s) matches Some(p) ==> coord_ok(p.x as int) && coord_ok(p.y as int),
    decreases s.len(),
{
    if s.len() > 0 && !s.last().has_wall_intersection {
        assert(crossings_ok(s.drop_last()));
        lemma_last_hit_in(s.drop_last());
    }
}

/// The merge of the two families' candidate hits: the only one, or the
/// nearer of the two by squared distance from the origin, preferring
/// the horizontal crossing on an exact tie.
pub open spec fn merge_hits(o: Point, xh: Option<RayPoint>, yh: Option<RayPoint>) -> Option<
    RayPoint,
> {
    match (xh, yh) {
        (None, None) => None,
        (Some(p), None) => Some(p),
        (None, Some(p)) => Some(p),
        (Some(px), Some(py)) => if dist2(o.x as int, o.y as int, px.x as int, px.y as int) <= dist2(
            o.x as int,
            o.y as int,
            py.x as int,
            py.y as int,
        ) {
            Some(px)
        } else {
            Some(py)
        },
    }
}

/// The crossing the horizontal march confirms (meaningful only when
/// `x_has_hit` holds).
pub open spec fn x_hit_point(b: &Board, ox: int, oy: int, s: int, c: int) -> RayPoint {
    let k = x_hit_step(b, ox, oy, s, c);
    RayPoint {
        x: x_cross_x(ox, oy, s, c, k) as i64,
        y: x_cross_y(oy, s, k) as i64,
        board_index: Some(x_flat(b, x_cross_x(ox, oy, s, c, k), x_cross_y(oy, s, k), s, c) as usize),
        has_wall_intersection: true,
        intercept_type: InterceptType::XIntercept,
    }
}

/// The crossing the vertical march confirms (meaningful only when
/// `y_has_hit` holds).
pub open spec fn y_hit_point(b: &Board, ox: int, oy: int, s: int, c: int) -> RayPoint {
    let k = y_hit_step(b, ox, oy, s, c);
    RayPoint {
        x: y_cross_x(ox, c, k) as i64,
        y: y_cross_y(ox, oy, s, c, k) as i64,
        board_index: Some(
            y_flat(b, y_cross_x(ox, c, k), y_cross_y(ox, oy, s, c, k), s, c) as usize,
        ),
        has_wall_intersection: true,
        intercept_type: InterceptType::YIntercept,
    }
}

/// The horizontal march's candidate hit.
pub open spec fn x_hit_opt(b: &Board, ox: int, oy: int, s: int, c: int) -> Option<RayPoint> {
    if x_has_hit(b, ox, oy, s, c) {
        Some(x_hit_point(b, ox, oy, s, c))
    } else {
        None
    }
}

/// The vertical march's candidate hit.
pub open spec fn y_hit_opt(b: &Board, ox: int, oy: int, s: int, c: int) -> Option<RayPoint> {
    if y_has_hit(b, ox, oy, s, c) {
        Some(y_hit_point(b, ox, oy, s, c))
    } else {
        None
    }
}

/// The resolved intersection of a ray cast from `o` with sine `s` and
/// cosine `c`: the merged nearest confirmed wall crossing, or `None`
/// when neither family confirms one within its step bound.
pub open spec fn resolved_hit(b: &Board, o: Point, s: int, c: int) -> Option<RayPoint> {
    merge_hits(o, x_hit_opt(b, o.x as int, o.y as int, s, c), y_hit_opt(b, o.x as int, o.y as int, s, c))
}

/// The distance from the origin to the resolved hit in scaled tile
/// units, or zero when the ray resolved nothing.
pub open spec fn resolved_distance(b: &Board, o: Point, s: int, c: int) -> int {
    match resolved_hit(b, o, s, c) {
        None => 0,
        Some(p) => sqrt_of(dist2(o.x as int, o.y as int, p.x as int, p.y as int)),
    }
}

/// The projected wall height for a hit at scaled render distance `d`:
/// inversely proportional to the distance, clamped at
/// `MAX_WALL_HEIGHT` for a zero-distance hit instead of dividing.
pub open spec fn projected_height(d: int) -> int {
    if d == 0 {
        MAX_WALL_HEIGHT as int
    } else {
        (MAX_WALL_HEIGHT as int) / d
    }
}

/// Both families' recorded crossing lists match the march of the given
/// heading exactly.
pub open spec fn intercepts_recorded(
    b: &Board,
    o: Point,
    s: int,
    c: int,
    xs: Seq<RayPoint>,
    ys: Seq<RayPoint>,
) -> bool {
    &&& xs.len() == x_march_len(b, o.x as int, o.y as int, s, c)
    &&& forall|i: int|
        0 <= i < xs.len() ==> x_march_elem(b, o.x as int, o.y as int, s, c, #[trigger] xs[i], i)
    &&& ys.len() == y_march_len(b, o.x as int, o.y as int, s, c)
    &&& forall|i: int|
        0 <= i < ys.len() ==> y_march_elem(b, o.x as int, o.y as int, s, c, #[trigger] ys[i], i)
}

/// A sequence with no confirmed-wall crossing has no last hit.
proof fn lemma_last_hit_none(s: Seq<RayPoint>)
    requires
        forall|i: int| 0 <= i < s.len() ==> !(#[trigger] s[i]).has_wall_intersection,
    ensures
        last_hit(s) is None,
    decreases s.len(),
{
    if s.len() > 0 {
        lemma_last_hit_none(s.drop_last());
    }
}

/// What the horizontal march records determines its candidate hit: the
/// last recorded crossing is the confirmed wall exactly when the march
/// stops on a wall.
proof fn lemma_last_hit_x(b: &Board, ox: int, oy: int, s: int, c: int, v: Seq<RayPoint>)
    requires
        b.wf(),
        v.len() == x_march_len(b, ox, oy, s, c),
        forall|i: int| 0 <= i < v.len() ==> x_march_elem(b, ox, oy, s, c, #[trigger] v[i], i),
    ensures
        last_hit(v) == x_hit_opt(b, ox, oy, s, c),
{
    if s == 0 {
        assert(v.len() == 0);
    } else {
        lemma_x_stop_from_props(b, ox, oy, s, c, 0);
        let k0 = x_hit_step(b, ox, oy, s, c);
        if k0 <= b.tiles_y && x_in_grid(b, ox, oy, s, c, k0) {
            assert(x_wall(b, ox, oy, s, c, k0));
            assert(v.len() == k0 + 1);
            assert(x_march_elem(b, ox, oy, s, c, v[k0], k0));
            assert(v.last().has_wall_intersection);
            assert(last_hit(v) == Some(v[k0]));
            assert(v[k0] == x_hit_point(b, ox, oy, s, c));
        } else {
            assert forall|i: int| 0 <= i < v.len() implies !(#[trigger] v[i]).has_wall_intersection by {
                assert(x_march_elem(b, ox, oy, s, c, v[i], i));
                assert(!x_stop(b, ox, oy, s, c, i));
            }
            lemma_last_hit_none(v);
        }
    }
}

/// What the vertical march records determines its candidate hit.
proof fn lemma_last_hit_y(b: &Board, ox: int, oy: int, s: int, c: int, v: Seq<RayPoint>)
    requires
        b.wf(),
        v.len() == y_march_len(b, ox, oy, s, c),
        forall|i: int| 0 <= i < v.len() ==> y_march_elem(b, ox, oy, s, c, #[trigger] v[i], i),
    ensures
        last_hit(v) == y_hit_opt(b, ox, oy, s, c),
{
    if c == 0 {
        assert(v.len() == 0);
    } else {
        lemma_y_stop_from_props(b, ox, oy, s, c, 0);
        let k0 = y_hit_step(b, ox, oy, s, c);
        if k0 <= b.tiles_x && y_in_grid(b, ox, oy, s, c, k0) {
            assert(y_wall(b, ox, oy, s, c, k0));
            assert(v.len() == k0 + 1);
            assert(y_march_elem(b, ox, oy, s, c, v[k0], k0));
            assert(v.last().has_wall_intersection);
            assert(last_hit(v) == Some(v[k0]));
            assert(v[k0] == y_hit_point(b, ox, oy, s, c));
        } else {
            assert forall|i: int| 0 <= i < v.len() implies !(#[trigger] v[i]).has_wall_intersection by {
                assert(y_march_elem(b, ox, oy, s, c, v[i], i));
                assert(!y_stop(b, ox, oy, s, c, i));
            }
            lemma_last_hit_none(v);
        }
    }
}

/// Every crossing the horizontal march records lies inside the board
/// area (x strictly, y up to the far edge line).
proof fn lemma_x_elem_bounds(b: &Board, ox: int, oy: int, s: int, c: int, p: RayPoint, i: int)
    requires
        b.wf(),
        x_march_elem(b, ox, oy, s, c, p, i),
    ensures
        0 <= p.x < b.tiles_x * 65536,
        0 <= p.y <= b.tiles_y * 65536,
{
    let line = x_row0(oy, s) + (if s > 0 { i } else { -i });
    assert(p.y == line * 65536) by (nonlinear_arith)
        requires
            p.y == x_cross_y(oy, s, i),
            x_cross_y(oy, s, i) == x_row0(oy, s) * 65536 + i * x_step_dy(s),
            x_step_dy(s) == if s > 0 { 65536int } else { -65536int },
            line == x_row0(oy, s) + (if s > 0 { i } else { -i }),
    ;
    vstd::arithmetic::div_mod::lemma_div_multiples_vanish(line, 65536);
    assert(tile_of(p.y as int) == line);
    assert(0 <= x_row(p.y as int, s) < b.tiles_y);
    assert(0 <= line <= b.tiles_y);
    assert(line * 65536 <= b.tiles_y * 65536) by (nonlinear_arith)
        requires
            line <= b.tiles_y,
    ;
    assert(line * 65536 >= 0) by (nonlinear_arith)
        requires
            line >= 0,
    ;
}

/// Every crossing the vertical march records lies inside the board
/// area (y strictly, x up to the far edge line).
proof fn lemma_y_elem_bounds(b: &Board, ox: int, oy: int, s: int, c: int, p: RayPoint, i: int)
    requires
        b.wf(),
        y_march_elem(b, ox, oy, s, c, p, i),
    ensures
        0 <= p.y < b.tiles_y * 65536,
        0 <= p.x <= b.tiles_x * 65536,
{
    let line = y_col0(ox, c) + (if c > 0 { i } else { -i });
    assert(p.x == line * 65536) by (nonlinear_arith)
        requires
            p.x == y_cross_x(ox, c, i),
            y_cross_x(ox, c, i) == y_col0(ox, c) * 65536 + i * y_step_dx(c),
            y_step_dx(c) == if c > 0 { 65536int } else { -65536int },
            line == y_col0(ox, c) + (if c > 0 { i } else { -i }),
    ;
    vstd::arithmetic::div_mod::lemma_div_multiples_vanish(line, 65536);
    assert(tile_of(p.x as int) == line);
    assert(0 <= y_col(p.x as int, c) < b.tiles_x);
    assert(0 <= line <= b.tiles_x);
    assert(line * 65536 <= b.tiles_x * 65536) by (nonlinear_arith)
        requires
            line <= b.tiles_x,
    ;
    assert(line * 65536 >= 0) by (nonlinear_arith)
        requires
            line >= 0,
    ;
}

// ---------------------------------------------------------------------
// The ray itself.
// ---------------------------------------------------------------------

/// One cast ray: its angle, origin, the crossings each family recorded,
/// and the resolved hit with its distance and projected height.
/// `wall_distance` and `wall_height` are scaled by `SCALE` like all
/// fixed-point values.
#[derive(Clone, Debug)]
pub struct Ray {
    pub angle: u32,
    pub start_position: Point,
    pub x_intercepts: DisplayVec<RayPoint>,
    pub y_intercepts: DisplayVec<RayPoint>,
    pub wall_intersection: Option<RayPoint>,
    pub wall_distance: u64,
    pub wall_height: u64,
}

/// Everything `update` establishes about a ray resolved against board
/// `b` from origin `o` at binary angle `a`: both families' crossings are
/// recorded exactly, the intersection is the merged nearest hit, and the
/// distance (scaled render units) and projected height follow from it.
pub open spec fn ray_resolved(r: Ray, b: &Board, o: Point, a: u32) -> bool {
    &&& r.angle == a
    &&& r.start_position == o
    &&& intercepts_recorded(
        b,
        o,
        sin_fp(a as int),
        cos_fp(a as int),
        r.x_intercepts@,
        r.y_intercepts@,
    )
    &&& r.wall_intersection == resolved_hit(b, o, sin_fp(a as int), cos_fp(a as int))
    &&& r.wall_distance == resolved_distance(b, o, sin_fp(a as int), cos_fp(a as int))
        * b.block_size
    &&& r.wall_height == projected_height(r.wall_distance as int)
}

impl Ray {
    /// A ray at rest: angle zero, origin zero, nothing resolved.
    pub fn new() -> (r: Ray)
        ensures
            r.angle == 0,
            r.start_position == (Point { x: 0i64, y: 0i64 }),
            r.x_intercepts@ == Seq::<RayPoint>::empty(),
            r.y_intercepts@ == Seq::<RayPoint>::empty(),
            r.wall_intersection is None,
            r.wall_distance == 0,
            r.wall_height == 0,
    {
        Ray {
            angle: 0,
            start_position: Point::new(),
            x_intercepts: DisplayVec::<RayPoint>::new(),
            y_intercepts: DisplayVec::<RayPoint>::new(),
            wall_intersection: None,
            wall_distance: 0,
            wall_height: 0,
        }
    }

    /// Resolves the tile a horizontal crossing enters, or `None` when
    /// the crossing is outside the board.
    fn get_board_index_x(board: &Board, x_intercept: RayPoint, sin: i64, cos: i64) -> (r: Option<
        usize,
    >)
        requires
            board.wf(),
            abs_i(x_intercept.x as int) <= 0x40_0000_0000_0000,
            abs_i(x_intercept.y as int) <= 0x40_0000_0000_0000,
        ensures
            r is Some <==> x_ok(board, x_intercept.x as int, x_intercept.y as int, sin as int, cos as int),
            r matches Some(i) ==> i == x_flat(
                board,
                x_intercept.x as int,
                x_intercept.y as int,
                sin as int,
                cos as int,
            ) && i < board.tiles@.len(),
    {
        if x_intercept.x < 0 {
            return None;
        }
        if x_intercept.x >= (board.tiles_x as i64) * SCALE {
            return None;
        }
        proof {
            assert(tile_of(x_intercept.x as int) < board.tiles_x) by {
                assert((SCALE as int) * (board.tiles_x as int) == (board.tiles_x as int) * (
                SCALE as int)) by (nonlinear_arith);
                vstd::arithmetic::div_mod::lemma_multiply_divide_lt(
                    x_intercept.x as int,
                    SCALE as int,
                    board.tiles_x as int,
                );
            }
            vstd::arithmetic::div_mod::lemma_div_pos_is_pos(x_intercept.x as int, SCALE as int);
        }
        let mut x_tile: i64 = floor_tile(x_intercept.x);
        if is_on_line(x_intercept.x) && cos < 0 {
            if x_tile == 0 {
                return None;
            }
            x_tile = x_tile - 1;
        }
        let mut y_tile: i64 = floor_tile(x_intercept.y);
        proof {
            vstd::arithmetic::div_mod::lemma_div_is_ordered(
                -0x40_0000_0000_0000,
                x_intercept.y as int,
                SCALE as int,
            );
            vstd::arithmetic::div_mod::lemma_div_is_ordered(
                x_intercept.y as int,
                0x40_0000_0000_0000,
                SCALE as int,
            );
        }
        if sin < 0 {
            y_tile = y_tile - 1;
        }
        if y_tile < 0 || y_tile >= board.tiles_y as i64 {
            return None;
        }
        Some(board.get_index_from_tile(x_tile as usize, y_tile as usize))
    }

    /// The first horizontal crossing: the next integer-y line strictly
    /// ahead of the origin, with the x offset implied by the cotangent.
    fn get_initial_x_intercept(&self, sin: i64, x_tan: i64) -> (r: RayPoint)
        requires
            sin != 0,
            pos_ok(self.start_position),
            abs_i(x_tan as int) <= 0x1_0000_0000,
        ensures
            r.x == self.start_position.x as int - div_trunc_spec(
                x_tan * (self.start_position.y - x_row0(self.start_position.y as int, sin as int)
                    * (SCALE as int)),
                SCALE as int,
            ),
            r.y == x_row0(self.start_position.y as int, sin as int) * (SCALE as int),
            r.intercept_type == InterceptType::XIntercept,
            r.board_index is None,
            !r.has_wall_intersection,
            abs_i(r.x as int) <= MAX_POS + 0x1_0000_0000,
            abs_i(r.y as int) <= MAX_POS + 0x2_0000,
    {
        proof {
            let oy = self.start_position.y as int;
            vstd::arithmetic::div_mod::lemma_fundamental_div_mod(oy, SCALE as int);
            vstd::arithmetic::div_mod::lemma_mod_bound(oy, SCALE as int);
            assert(65536 * tile_of(oy) <= oy < 65536 * (tile_of(oy) + 1));
        }
        let board_y: i64 = if sin > 0 {
            floor_tile(self.start_position.y) + 1
        } else {
            ceil_tile(self.start_position.y) - 1
        };
        let point_y: i64 = board_y * SCALE;
        let delta_next_y: i64 = self.start_position.y - point_y;
        proof {
            assert(-65536 <= delta_next_y <= 65536);
            assert(abs_i(x_tan * delta_next_y) <= 0x1_0000_0000_0000) by (nonlinear_arith)
                requires
                    abs_i(x_tan as int) <= 0x1_0000_0000,
                    abs_i(delta_next_y as int) <= 65536,
            ;
        }
        let delta_next_x: i64 = div_trunc(x_tan * delta_next_y, SCALE);
        proof {
            vstd::arithmetic::div_mod::lemma_div_is_ordered(
                abs_i((x_tan * delta_next_y) as int),
                0x1_0000_0000_0000,
                SCALE as int,
            );
            assert(abs_i(delta_next_x as int) <= 0x1_0000_0000);
        }
        let point_x: i64 = self.start_position.x - delta_next_x;
        RayPoint::new(point_x, point_y, InterceptType::XIntercept)
    }

    /// Marches the horizontal-crossing family: records each crossing
    /// that resolves to an open tile and stops at the first wall, at the
    /// first crossing outside the board, or after `tiles_y` steps past
    /// the initial crossing. A ray parallel to the horizontal lines
    /// records nothing.
    pub fn get_x_intercepts(&self, board: &Board, sin: i64, cos: i64) -> (r: DisplayVec<RayPoint>)
        requires
            board.wf(),
            pos_ok(self.start_position),
            abs_i(sin as int) <= 65536,
            abs_i(cos as int) <= 65536,
        ensures
            r@.len() == x_march_len(
                board,
                self.start_position.x as int,
                self.start_position.y as int,
                sin as int,
                cos as int,
            ),
            forall|i: int|
                0 <= i < r@.len() ==> x_march_elem(
                    board,
                    self.start_position.x as int,
                    self.start_position.y as int,
                    sin as int,
                    cos as int,
                    #[trigger] r@[i],
                    i,
                ),
    {
        let ghost ox = self.start_position.x as int;
        let ghost oy = self.start_position.y as int;
        let ghost s = sin as int;
        let ghost c = cos as int;
        let mut x_intercepts = DisplayVec::<RayPoint>::new();
        if sin == 0 {
            return x_intercepts;
        }
        let x_tan = div_trunc(cos * SCALE, sin);
        proof {
            assert(x_tan == cot_fp(s, c));
            assert(abs_i(x_tan as int) <= 0x1_0000_0000);
        }
        let mut x_intercept = self.get_initial_x_intercept(sin, x_tan);
        proof {
            assert(x_intercept.x == x_cross_x(ox, oy, s, c, 0)) by {
                assert(0 * x_step_dx(s, c) == 0) by (nonlinear_arith);
            }
            assert(x_intercept.y == x_cross_y(oy, s, 0)) by {
                assert(0 * x_step_dy(s) == 0) by (nonlinear_arith);
            }
        }
        match Self::get_board_index_x(board, x_intercept, sin, cos) {
            None => {
                proof {
                    assert(x_stop(board, ox, oy, s, c, 0));
                    assert(x_stop_from(board, ox, oy, s, c, 0) == 0);
                }
                return x_intercepts;
            },
            Some(board_index) => {
                x_intercept.board_index = Some(board_index);
                if board.tiles[board_index] != 0 {
                    x_intercept.has_wall_intersection = true;
                    x_intercepts.push(x_intercept);
                    proof {
                        assert(x_wall(board, ox, oy, s, c, 0));
                        assert(x_stop_from(board, ox, oy, s, c, 0) == 0);
                        assert(x_march_len(board, ox, oy, s, c) == 1);
                        assert(x_march_elem(board, ox, oy, s, c, x_intercepts@[0], 0));
                    }
                    return x_intercepts;
                }
                x_intercepts.push(x_intercept);
                proof {
                    assert(!x_stop(board, ox, oy, s, c, 0));
                    assert(x_stop_from(board, ox, oy, s, c, 0) == x_stop_from(
                        board,
                        ox,
                        oy,
                        s,
                        c,
                        1,
                    ));
                    assert(x_march_elem(board, ox, oy, s, c, x_intercepts@[0], 0));
                }
            },
        }
        let mut k: usize = 0;
        while k < board.tiles_y
            invariant
                board.wf(),
                pos_ok(self.start_position),
                ox == self.start_position.x as int,
                oy == self.start_position.y as int,
                s == sin as int,
                c == cos as int,
                sin != 0,
                abs_i(sin as int) <= 65536,
                abs_i(cos as int) <= 65536,
                x_tan == cot_fp(s, c),
                abs_i(x_tan as int) <= 0x1_0000_0000,
                k < board.tiles_y || k == board.tiles_y,
                x_intercepts@.len() == k + 1,
                forall|i: int|
                    0 <= i <= k ==> x_march_elem(board, ox, oy, s, c, #[trigger] x_intercepts@[i], i),
                x_intercept.x == x_cross_x(ox, oy, s, c, k as int),
                x_intercept.y == x_cross_y(oy, s, k as int),
                abs_i(x_intercept.x as int) <= MAX_POS + 0x1_0000_0000 * (k + 2),
                abs_i(x_intercept.y as int) <= MAX_POS + 65536 * (k + 2),
                x_stop_from(board, ox, oy, s, c, 0) == x_stop_from(board, ox, oy, s, c, k + 1),
            decreases board.tiles_y - k,
        {
            proof {
                assert(abs_i(x_intercept.x as int) <= 0x20_0000_0000_0000);
                assert(abs_i(x_intercept.y as int) <= 0x20_0000_0000_0000);
            }
            x_intercept = self.get_x_intercept(x_intercept, sin, x_tan);
            proof {
                assert((k + 1) * x_step_dx(s, c) == k * x_step_dx(s, c) + x_step_dx(s, c))
                    by (nonlinear_arith);
                assert((k + 1) * x_step_dy(s) == k * x_step_dy(s) + x_step_dy(s))
                    by (nonlinear_arith);
                assert(x_intercept.x == x_cross_x(ox, oy, s, c, k + 1));
                assert(x_intercept.y == x_cross_y(oy, s, k + 1));
            }
            match Self::get_board_index_x(board, x_intercept, sin, cos) {
                None => {
                    proof {
                        assert(x_stop(board, ox, oy, s, c, k + 1));
                        assert(x_stop_from(board, ox, oy, s, c, k + 1) == k + 1);
                        assert(x_march_len(board, ox, oy, s, c) == k + 1);
                    }
                    return x_intercepts;
                },
                Some(board_index) => {
                    x_intercept.board_index = Some(board_index);
                    if board.tiles[board_index] != 0 {
                        x_intercept.has_wall_intersection = true;
                        x_intercepts.push(x_intercept);
                        proof {
                            assert(x_wall(board, ox, oy, s, c, k + 1));
                            assert(x_stop_from(board, ox, oy, s, c, k + 1) == k + 1);
                            assert(x_march_len(board, ox, oy, s, c) == k + 2);
                            assert(x_march_elem(
                                board,
                                ox,
                                oy,
                                s,
                                c,
                                x_intercepts@[k + 1],
                                k + 1,
                            ));
                        }
                        return x_intercepts;
                    }
                    x_intercepts.push(x_intercept);
                    proof {
                        assert(!x_stop(board, ox, oy, s, c, k + 1));
                        assert(x_stop_from(board, ox, oy, s, c, k + 1) == x_stop_from(
                            board,
                            ox,
                            oy,
                            s,
                            c,
                            k + 2,
                        ));
                        assert(x_march_elem(board, ox, oy, s, c, x_intercepts@[k + 1], k + 1));
                    }
                },
            }
            k = k + 1;
        }
        proof {
            assert(x_stop_from(board, ox, oy, s, c, k + 1) == board.tiles_y + 1);
            assert(x_march_len(board, ox, oy, s, c) == board.tiles_y + 1);
        }
        x_intercepts
    }

    /// The horizontal crossing one step past `last_point`.
    fn get_x_intercept(&self, last_point: RayPoint, sin: i64, x_tan: i64) -> (r: RayPoint)
        requires
            sin != 0,
            abs_i(x_tan as int) <= 0x1_0000_0000,
            abs_i(last_point.x as int) <= 0x20_0000_0000_0000,
            abs_i(last_point.y as int) <= 0x20_0000_0000_0000,
        ensures
            r.x == last_point.x + (if sin > 0 { x_tan as int } else { -(x_tan as int) }),
            r.y == last_point.y + (if sin > 0 { SCALE as int } else { -(SCALE as int) }),
            r.intercept_type == InterceptType::XIntercept,
            r.board_index is None,
            !r.has_wall_intersection,
    {
        let x_value: i64 = if sin > 0 {
            last_point.x + x_tan
        } else {
            last_point.x - x_tan
        };
        let y_value: i64 = if sin > 0 {
            last_point.y + SCALE
        } else {
            last_point.y - SCALE
        };
        RayPoint::new(x_value, y_value, InterceptType::XIntercept)
    }

    /// Resolves the tile a vertical crossing enters, or `None` when the
    /// crossing is outside the board.
    fn get_board_index_y(board: &Board, y_intercept: RayPoint, sin: i64, cos: i64) -> (r: Option<
        usize,
    >)
        requires
            board.wf(),
            abs_i(y_intercept.x as int) <= 0x40_0000_0000_0000,
            abs_i(y_intercept.y as int) <= 0x40_0000_0000_0000,
        ensures
            r is Some <==> y_ok(board, y_intercept.x as int, y_intercept.y as int, sin as int, cos as int),
            r matches Some(i) ==> i == y_flat(
                board,
                y_intercept.x as int,
                y_intercept.y as int,
                sin as int,
                cos as int,
            ) && i < board.tiles@.len(),
    {
        if y_intercept.y < 0 {
            return None;
        }
        if y_intercept.y >= (board.tiles_y as i64) * SCALE {
            return None;
        }
        proof {
            assert(tile_of(y_intercept.y as int) < board.tiles_y) by {
                assert((SCALE as int) * (board.tiles_y as int) == (board.tiles_y as int) * (
                SCALE as int)) by (nonlinear_arith);
                vstd::arithmetic::div_mod::lemma_multiply_divide_lt(
                    y_intercept.y as int,
                    SCALE as int,
                    board.tiles_y as int,
                );
            }
            vstd::arithmetic::div_mod::lemma_div_pos_is_pos(y_intercept.y as int, SCALE as int);
        }
        let mut y_tile: i64 = floor_tile(y_intercept.y);
        if is_on_line(y_intercept.y) && sin < 0 {
            if y_tile == 0 {
                return None;
            }
            y_tile = y_tile - 1;
        }
        let mut x_tile: i64 = floor_tile(y_intercept.x);
        proof {
            vstd::arithmetic::div_mod::lemma_div_is_ordered(
                -0x40_0000_0000_0000,
                y_intercept.x as int,
                SCALE as int,
            );
            vstd::arithmetic::div_mod::lemma_div_is_ordered(
                y_intercept.x as int,
                0x40_0000_0000_0000,
                SCALE as int,
            );
        }
        if cos < 0 {
            x_tile = x_tile - 1;
        }
        if x_tile < 0 || x_tile >= board.tiles_x as i64 {
            return None;
        }
        Some(board.get_index_from_tile(x_tile as usize, y_tile as usize))
    }

    /// The first vertical crossing: the next integer-x line strictly
    /// ahead of the origin, with the y offset implied by the tangent.
    fn get_initial_y_intercept(&self, cos: i64, y_tan: i64) -> (r: RayPoint)
        requires
            cos != 0,
            pos_ok(self.start_position),
            abs_i(y_tan as int) <= 0x1_0000_0000,
        ensures
            r.y == self.start_position.y as int - div_trunc_spec(
                y_tan * (self.start_position.x - y_col0(self.start_position.x as int, cos as int)
                    * (SCALE as int)),
                SCALE as int,
            ),
            r.x == y_col0(self.start_position.x as int, cos as int) * (SCALE as int),
            r.intercept_type == InterceptType::YIntercept,
            r.board_index is None,
            !r.has_wall_intersection,
            abs_i(r.y as int) <= MAX_POS + 0x1_0000_0000,
            abs_i(r.x as int) <= MAX_POS + 0x2_0000,
    {
        proof {
            let ox = self.start_position.x as int;
            vstd::arithmetic::div_mod::lemma_fundamental_div_mod(ox, SCALE as int);
            vstd::arithmetic::div_mod::lemma_mod_bound(ox, SCALE as int);
            assert(65536 * tile_of(ox) <= ox < 65536 * (tile_of(ox) + 1));
        }
        let board_x: i64 = if cos > 0 {
            floor_tile(self.start_position.x) + 1
        } else {
            ceil_tile(self.start_position.x) - 1
        };
        let point_x: i64 = board_x * SCALE;
        let delta_next_x: i64 = self.start_position.x - point_x;
        proof {
            assert(-65536 <= delta_next_x <= 65536);
            assert(abs_i(y_tan * delta_next_x) <= 0x1_0000_0000_0000) by (nonlinear_arith)
                requires
                    abs_i(y_tan as int) <= 0x1_0000_0000,
                    abs_i(delta_next_x as int) <= 65536,
            ;
        }
        let delta_next_y: i64 = div_trunc(y_tan * delta_next_x, SCALE);
        proof {
            vstd::arithmetic::div_mod::lemma_div_is_ordered(
                abs_i((y_tan * delta_next_x) as int),
                0x1_0000_0000_0000,
                SCALE as int,
            );
            assert(abs_i(delta_next_y as int) <= 0x1_0000_0000);
        }
        let point_y: i64 = self.start_position.y - delta_next_y;
        RayPoint::new(point_x, point_y, InterceptType::YIntercept)
    }

    /// The vertical crossing one step past `last_point`.
    fn get_y_intercept(&self, last_point: RayPoint, cos: i64, y_tan: i64) -> (r: RayPoint)
        requires
            cos != 0,
            abs_i(y_tan as int) <= 0x1_0000_0000,
            abs_i(last_point.x as int) <= 0x20_0000_0000_0000,
            abs_i(last_point.y as int) <= 0x20_0000_0000_0000,
        ensures
            r.x == last_point.x + (if cos > 0 { SCALE as int } else { -(SCALE as int) }),
            r.y == last_point.y + (if cos > 0 { y_tan as int } else { -(y_tan as int) }),
            r.intercept_type == InterceptType::YIntercept,
            r.board_index is None,
            !r.has_wall_intersection,
    {
        let x_value: i64 = if cos > 0 {
            last_point.x + SCALE
        } else {
            last_point.x - SCALE
        };
        let y_value: i64 = if cos > 0 {
            last_point.y + y_tan
        } else {
            last_point.y - y_tan
        };
        RayPoint::new(x_value, y_value, InterceptType::YIntercept)
    }

    /// The last recorded crossing of `v` that confirmed a wall.
    fn last_flagged(v: &DisplayVec<RayPoint>) -> (r: Option<RayPoint>)
        ensures
            r == last_hit(v@),
    {
        let mut i: usize = v.len();
        proof {
            assert(v@.take(v@.len() as int) =~= v@);
        }
        while i > 0
            invariant
                i <= v@.len(),
                last_hit(v@) == last_hit(v@.take(i as int)),
            decreases i,
        {
            let p = *v.get(i - 1);
            if p.has_wall_intersection {
                proof {
                    assert(v@.take(i as int).last() == p);
                    assert(last_hit(v@.take(i as int)) == Some(p));
                }
                return Some(p);
            }
            proof {
                assert(v@.take(i as int).drop_last() =~= v@.take(i - 1));
                assert(last_hit(v@.take(i as int)) == last_hit(v@.take(i - 1)));
            }
            i = i - 1;
        }
        proof {
            assert(v@.take(0).len() == 0);
        }
        None
    }

    /// Merges the two recorded families into the resolved intersection
    /// and its distance from the origin in scaled tile units: the only
    /// confirmed hit, or the nearer of the two, preferring the
    /// horizontal crossing on an exact tie. An unresolved ray reports
    /// distance zero.
    pub fn get_wall_intersection(&self) -> (r: (Option<RayPoint>, u64))
        requires
            crossings_ok(self.x_intercepts@),
            crossings_ok(self.y_intercepts@),
            coord_ok(self.start_position.x as int),
            coord_ok(self.start_position.y as int),
        ensures
            r.0 == merge_hits(
                self.start_position,
                last_hit(self.x_intercepts@),
                last_hit(self.y_intercepts@),
            ),
            match r.0 {
                None => r.1 == 0,
                Some(p) => r.1 == sqrt_of(
                    dist2(
                        self.start_position.x as int,
                        self.start_position.y as int,
                        p.x as int,
                        p.y as int,
                    ),
                ) && is_sqrt(
                    dist2(
                        self.start_position.x as int,
                        self.start_position.y as int,
                        p.x as int,
                        p.y as int,
                    ),
                    r.1 as int,
                ),
            },
    {
        let x_hit = Self::last_flagged(&self.x_intercepts);
        let y_hit = Self::last_flagged(&self.y_intercepts);
        proof {
            lemma_last_hit_in(self.x_intercepts@);
            lemma_last_hit_in(self.y_intercepts@);
        }
        let player_point = self.start_position;
        match (x_hit, y_hit) {
            (None, None) => (None, 0),
            (Some(point), None) => {
                let d = player_point.get_distance(point);
                (Some(point), d)
            },
            (None, Some(point)) => {
                let d = player_point.get_distance(point);
                (Some(point), d)
            },
            (Some(x_intercept), Some(y_intercept)) => {
                let x_d2 = distance_squared(
                    player_point.x,
                    player_point.y,
                    x_intercept.x,
                    x_intercept.y,
                );
                let y_d2 = distance_squared(
                    player_point.x,
                    player_point.y,
                    y_intercept.x,
                    y_intercept.y,
                );
                if x_d2 <= y_d2 {
                    let d = player_point.get_distance(x_intercept);
                    (Some(x_intercept), d)
                } else {
                    let d = player_point.get_distance(y_intercept);
                    (Some(y_intercept), d)
                }
            },
        }
    }

    /// Recomputes this ray from scratch for a new origin and binary
    /// angle: records both families' crossings, resolves the nearest
    /// confirmed wall hit (preferring the horizontal crossing on an
    /// exact tie), and derives the hit distance in scaled render units
    /// and the projected wall height. An unresolved ray stores no
    /// intersection, distance zero, and the clamped maximum height.
    pub fn update(&mut self, start_position: Point, angle: u32, board: &Board)
        requires
            board.wf(),
            pos_ok(start_position),
        ensures
            final(self).angle == angle,
            final(self).start_position == start_position,
            intercepts_recorded(
                board,
                start_position,
                sin_fp(angle as int),
                cos_fp(angle as int),
                final(self).x_intercepts@,
                final(self).y_intercepts@,
            ),
            final(self).wall_intersection == resolved_hit(
                board,
                start_position,
                sin_fp(angle as int),
                cos_fp(angle as int),
            ),
            final(self).wall_distance == resolved_distance(
                board,
                start_position,
                sin_fp(angle as int),
                cos_fp(angle as int),
            ) * board.block_size,
            final(self).wall_height == projected_height(final(self).wall_distance as int),
    {
        let ghost ox = start_position.x as int;
        let ghost oy = start_position.y as int;
        let ghost s = sin_fp(angle as int);
        let ghost c = cos_fp(angle as int);
        self.start_position = start_position;
        self.angle = angle;
        let sin = sin_fixed(angle);
        let cos = cos_fixed(angle);
        let xs = self.get_x_intercepts(board, sin, cos);
        let ys = self.get_y_intercepts(board, sin, cos);
        self.x_intercepts = xs;
        self.y_intercepts = ys;
        proof {
            assert forall|i: int| 0 <= i < self.x_intercepts@.len() implies coord_ok(
                (#[trigger] self.x_intercepts@[i]).x as int,
            ) && coord_ok(self.x_intercepts@[i].y as int) by {
                lemma_x_elem_bounds(board, ox, oy, s, c, self.x_intercepts@[i], i);
            }
            assert forall|i: int| 0 <= i < self.y_intercepts@.len() implies coord_ok(
                (#[trigger] self.y_intercepts@[i]).x as int,
            ) && coord_ok(self.y_intercepts@[i].y as int) by {
                lemma_y_elem_bounds(board, ox, oy, s, c, self.y_intercepts@[i], i);
            }
            lemma_last_hit_x(board, ox, oy, s, c, self.x_intercepts@);
            lemma_last_hit_y(board, ox, oy, s, c, self.y_intercepts@);
        }
        let (wall_intersection, wall_distance) = self.get_wall_intersection();
        self.wall_intersection = wall_intersection;
        proof {
            assert(self.wall_intersection == resolved_hit(board, start_position, s, c));
            match self.wall_intersection {
                None => {
                    assert(wall_distance == 0);
                },
                Some(p) => {
                    if p == x_hit_point(board, ox, oy, s, c) && x_has_hit(board, ox, oy, s, c) {
                        lemma_x_stop_from_props(board, ox, oy, s, c, 0);
                        let k0 = x_hit_step(board, ox, oy, s, c);
                        assert(x_wall(board, ox, oy, s, c, k0));
                        assert(x_march_elem(board, ox, oy, s, c, self.x_intercepts@[k0], k0));
                        lemma_x_elem_bounds(board, ox, oy, s, c, self.x_intercepts@[k0], k0);
                        assert(self.x_intercepts@[k0] == p);
                    } else {
                        lemma_y_stop_from_props(board, ox, oy, s, c, 0);
                        let k0 = y_hit_step(board, ox, oy, s, c);
                        assert(y_has_hit(board, ox, oy, s, c));
                        assert(y_wall(board, ox, oy, s, c, k0));
                        assert(y_march_elem(board, ox, oy, s, c, self.y_intercepts@[k0], k0));
                        lemma_y_elem_bounds(board, ox, oy, s, c, self.y_intercepts@[k0], k0);
                        assert(self.y_intercepts@[k0] == p);
                    }
                    assert(board.tiles_x * 65536 <= 0x1000_0000 && board.tiles_y * 65536
                        <= 0x1000_0000) by (nonlinear_arith)
                        requires
                            board.tiles_x <= 4096,
                            board.tiles_y <= 4096,
                    ;
                    assert(0 <= p.x <= 0x1000_0000 && 0 <= p.y <= 0x1000_0000);
                    let n = dist2(ox, oy, p.x as int, p.y as int);
                    assert(n < 0x100_0000_0000_0000_0000_0000int) by (nonlinear_arith)
                        requires
                            n == dist2(ox, oy, p.x as int, p.y as int),
                            abs_i(ox) <= 0x100_0000_0000,
                            abs_i(oy) <= 0x100_0000_0000,
                            0 <= p.x <= 0x1000_0000,
                            0 <= p.y <= 0x1000_0000,
                    ;
                    assert(wall_distance <= 0x1000_0000_0000) by (nonlinear_arith)
                        requires
                            is_sqrt(n, wall_distance as int),
                            n < 0x100_0000_0000_0000_0000_0000int,
                    ;
                },
            }
            assert(wall_distance <= 0x1000_0000_0000);
            assert(wall_distance * board.block_size <= 0x1000_0000_0000 * 65536int)
                by (nonlinear_arith)
                requires
                    0 <= wall_distance <= 0x1000_0000_0000,
                    0 <= board.block_size <= 65536,
            ;
        }
        self.wall_distance = wall_distance * board.block_size;
        if self.wall_distance == 0 {
            self.wall_height = MAX_WALL_HEIGHT;
        } else {
            self.wall_height = MAX_WALL_HEIGHT / self.wall_distance;
        }
    }

    /// Marches the vertical-crossing family: records each crossing that
    /// resolves to an open tile and stops at the first wall, at the
    /// first crossing outside the board, or after `tiles_x` steps past
    /// the initial crossing. A ray parallel to the vertical lines
    /// records nothing.
    pub fn get_y_intercepts(&self, board: &Board, sin: i64, cos: i64) -> (r: DisplayVec<RayPoint>)
        requires
            board.wf(),
            pos_ok(self.start_position),
            abs_i(sin as int) <= 65536,
            abs_i(cos as int) <= 65536,
        ensures
            r@.len() == y_march_len(
                board,
                self.start_position.x as int,
                self.start_position.y as int,
                sin as int,
                cos as int,
            ),
            forall|i: int|
                0 <= i < r@.len() ==> y_march_elem(
                    board,
                    self.start_position.x as int,
                    self.start_position.y as int,
                    sin as int,
                    cos as int,
                    #[trigger] r@[i],
                    i,
                ),
    {
        let ghost ox = self.start_position.x as int;
        let ghost oy = self.start_position.y as int;
        let ghost s = sin as int;
        let ghost c = cos as int;
        let mut y_intercepts = DisplayVec::<RayPoint>::new();
        if cos == 0 {
            return y_intercepts;
        }
        let y_tan = div_trunc(sin * SCALE, cos);
        proof {
            assert(y_tan == tan_fp(s, c));
            assert(abs_i(y_tan as int) <= 0x1_0000_0000);
        }
        let mut y_intercept = self.get_initial_y_intercept(cos, y_tan);
        proof {
            assert(y_intercept.x == y_cross_x(ox, c, 0)) by {
                assert(0 * y_step_dx(c) == 0) by (nonlinear_arith);
            }
            assert(y_intercept.y == y_cross_y(ox, oy, s, c, 0)) by {
                assert(0 * y_step_dy(s, c) == 0) by (nonlinear_arith);
            }
        }
        match Self::get_board_index_y(board, y_intercept, sin, cos) {
            None => {
                proof {
                    assert(y_stop(board, ox, oy, s, c, 0));
                    assert(y_stop_from(board, ox, oy, s, c, 0) == 0);
                }
                return y_intercepts;
            },
            Some(board_index) => {
                y_intercept.board_index = Some(board_index);
                if board.tiles[board_index] != 0 {
                    y_intercept.has_wall_intersection = true;
                    y_intercepts.push(y_intercept);
                    proof {
                        assert(y_wall(board, ox, oy, s, c, 0));
                        assert(y_stop_from(board, ox, oy, s, c, 0) == 0);
                        assert(y_march_len(board, ox, oy, s, c) == 1);
                        assert(y_march_elem(board, ox, oy, s, c, y_intercepts@[0], 0));
                    }
                    return y_intercepts;
                }
                y_intercepts.push(y_intercept);
                proof {
                    assert(!y_stop(board, ox, oy, s, c, 0));
                    assert(y_stop_from(board, ox, oy, s, c, 0) == y_stop_from(
                        board,
                        ox,
                        oy,
                        s,
                        c,
                        1,
                    ));
                    assert(y_march_elem(board, ox, oy, s, c, y_intercepts@[0], 0));
                }
            },
        }
        let mut k: usize = 0;
        while k < board.tiles_x
            invariant
                board.wf(),
                pos_ok(self.start_position),
                ox == self.start_position.x as int,
                oy == self.start_position.y as int,
                s == sin as int,
                c == cos as int,
                cos != 0,
                abs_i(sin as int) <= 65536,
                abs_i(cos as int) <= 65536,
                y_tan == tan_fp(s, c),
                abs_i(y_tan as int) <= 0x1_0000_0000,
                k < board.tiles_x || k == board.tiles_x,
                y_intercepts@.len() == k + 1,
                forall|i: int|
                    0 <= i <= k ==> y_march_elem(board, ox, oy, s, c, #[trigger] y_intercepts@[i], i),
                y_intercept.x == y_cross_x(ox, c, k as int),
                y_intercept.y == y_cross_y(ox, oy, s, c, k as int),
                abs_i(y_intercept.x as int) <= MAX_POS + 65536 * (k + 2),
                abs_i(y_intercept.y as int) <= MAX_POS + 0x1_0000_0000 * (k + 2),
                y_stop_from(board, ox, oy, s, c, 0) == y_stop_from(board, ox, oy, s, c, k + 1),
            decreases board.tiles_x - k,
        {
            proof {
                assert(abs_i(y_intercept.x as int) <= 0x20_0000_0000_0000);
                assert(abs_i(y_intercept.y as int) <= 0x20_0000_0000_0000);
            }
            y_intercept = self.get_y_intercept(y_intercept, cos, y_tan);
            proof {
                assert((k + 1) * y_step_dx(c) == k * y_step_dx(c) + y_step_dx(c))
                    by (nonlinear_arith);
                assert((k + 1) * y_step_dy(s, c) == k * y_step_dy(s, c) + y_step_dy(s, c))
                    by (nonlinear_arith);
                assert(y_intercept.x == y_cross_x(ox, c, k + 1));
                assert(y_intercept.y == y_cross_y(ox, oy, s, c, k + 1));
            }
            match Self::get_board_index_y(board, y_intercept, sin, cos) {
                None => {
                    proof {
                        assert(y_stop(board, ox, oy, s, c, k + 1));
                        assert(y_stop_from(board, ox, oy, s, c, k + 1) == k + 1);
                        assert(y_march_len(board, ox, oy, s, c) == k + 1);
                    }
                    return y_intercepts;
                },
                Some(board_index) => {
                    y_intercept.board_index = Some(board_index);
                    if board.tiles[board_index] != 0 {
                        y_intercept.has_wall_intersection = true;
                        y_intercepts.push(y_intercept);
                        proof {
                            assert(y_wall(board, ox, oy, s, c, k + 1));
                            assert(y_stop_from(board, ox, oy, s, c, k + 1) == k + 1);
                            assert(y_march_len(board, ox, oy, s, c) == k + 2);
                            assert(y_march_elem(
                                board,
                                ox,
                                oy,
                                s,
                                c,
                                y_intercepts@[k + 1],
                                k + 1,
                            ));
                        }
                        return y_intercepts;
                    }
                    y_intercepts.push(y_intercept);
                    proof {
                        assert(!y_stop(board, ox, oy, s, c, k + 1));
                        assert(y_stop_from(board, ox, oy, s, c, k + 1) == y_stop_from(
                            board,
                            ox,
                            oy,
                            s,
                            c,
                            k + 2,
                        ));
                        assert(y_march_elem(board, ox, oy, s, c, y_intercepts@[k + 1], k + 1));
                    }
                },
            }
            k = k + 1;
        }
        proof {
            assert(y_stop_from(board, ox, oy, s, c, k + 1) == board.tiles_x + 1);
            assert(y_march_len(board, ox, oy, s, c) == board.tiles_x + 1);
        }
        y_intercepts
    }
}

} // verus!
