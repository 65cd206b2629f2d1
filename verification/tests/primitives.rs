use ray_casting::board::{Board, GridError};
use ray_casting::display_vec::DisplayVec;
use ray_casting::fixed::{
    ceil_tile, div_trunc, floor_tile, is_on_line, isqrt, wrap_add32, QUARTER_TURN, SCALE,
};
use ray_casting::maths::div_mod;
use ray_casting::point::{InterceptType, Point, RayPoint, ScreenPoint};
use ray_casting::trig::{cos_fixed, sin_fixed};

#[test]
fn div_mod_splits_quotient_and_remainder() {
    assert_eq!(div_mod(47, 10), (4, 7));
    assert_eq!(div_mod(40, 10), (4, 0));
    assert_eq!(div_mod(3, 10), (0, 3));
}

#[test]
fn div_trunc_rounds_toward_zero() {
    assert_eq!(div_trunc(7, 2), 3);
    assert_eq!(div_trunc(-7, 2), -3);
    assert_eq!(div_trunc(7, -2), -3);
    assert_eq!(div_trunc(-7, -2), 3);
    assert_eq!(div_trunc(0, 5), 0);
}

#[test]
fn floor_and_ceil_tile_handle_negatives() {
    assert_eq!(floor_tile(0), 0);
    assert_eq!(floor_tile(65535), 0);
    assert_eq!(floor_tile(65536), 1);
    assert_eq!(floor_tile(-1), -1);
    assert_eq!(floor_tile(-65536), -1);
    assert_eq!(floor_tile(-65537), -2);
    assert_eq!(ceil_tile(0), 0);
    assert_eq!(ceil_tile(1), 1);
    assert_eq!(ceil_tile(65536), 1);
    assert_eq!(ceil_tile(-1), 0);
    assert_eq!(ceil_tile(-65536), -1);
    assert!(is_on_line(3 * 65536));
    assert!(is_on_line(-2 * 65536));
    assert!(!is_on_line(3 * 65536 + 1));
}

#[test]
fn isqrt_is_exact_on_squares_and_floors_otherwise() {
    assert_eq!(isqrt(0), 0);
    assert_eq!(isqrt(1), 1);
    assert_eq!(isqrt(2), 1);
    assert_eq!(isqrt(9), 3);
    assert_eq!(isqrt(10), 3);
    assert_eq!(isqrt((3u128 * 65536) * (3u128 * 65536)), 3 * 65536);
    let big = (1u128 << 63) - 1;
    assert_eq!(isqrt(big * big), 9223372036854775807);
    assert_eq!(isqrt(big * big - 1), 9223372036854775806);
}

#[test]
fn wrap_add_wraps_a_full_turn() {
    assert_eq!(wrap_add32(0xFFFF_FFFF, 1), 0);
    assert_eq!(wrap_add32(0xC000_0000, QUARTER_TURN), 0);
    assert_eq!(wrap_add32(5, 7), 12);
}

#[test]
fn trig_is_exact_on_the_axes() {
    assert_eq!(sin_fixed(0), 0);
    assert_eq!(cos_fixed(0), 65536);
    assert_eq!(sin_fixed(0x4000_0000), 65536);
    assert_eq!(cos_fixed(0x4000_0000), 0);
    assert_eq!(sin_fixed(0x8000_0000), 0);
    assert_eq!(cos_fixed(0x8000_0000), -65536);
    assert_eq!(sin_fixed(0xC000_0000), -65536);
    assert_eq!(cos_fixed(0xC000_0000), 0);
}

#[test]
fn trig_is_balanced_on_the_diagonal() {
    // At an eighth of a turn the sine and cosine agree exactly, so the
    // traversal's tangent step is exactly one tile per tile.
    let a = 0x2000_0000u32;
    assert_eq!(sin_fixed(a), cos_fixed(a));
    assert!(sin_fixed(a) > 0);
}

#[test]
fn trig_tracks_the_real_sine_closely() {
    // The rational approximation stays within a fraction of a percent of
    // the real sine over the whole circle.
    for k in 0..256u64 {
        let a = (k << 24) as u32;
        let radians = (a as f64) / 4294967296.0 * std::f64::consts::TAU;
        let approx = sin_fixed(a) as f64 / 65536.0;
        assert!(
            (approx - radians.sin()).abs() < 0.002,
            "angle {a}: {approx} vs {}",
            radians.sin()
        );
    }
}

#[test]
fn display_vec_records_in_order() {
    let mut v: DisplayVec<u32> = DisplayVec::new();
    assert_eq!(v.len(), 0);
    v.push(4);
    v.push(9);
    assert_eq!(v.len(), 2);
    assert_eq!(*v.get(0), 4);
    assert_eq!(*v.get(1), 9);
}

#[test]
fn point_distances_are_euclidean_in_fixed_units() {
    // A 3-4-5 triangle in whole tiles: the distance is exactly five
    // tiles of fixed-point units, measured from either end.
    let a = Point { x: 0, y: 0 };
    let b = RayPoint::new(3 * SCALE, 4 * SCALE, InterceptType::XIntercept);
    assert_eq!(a.get_distance(b), 5 * SCALE as u64);
    assert_eq!(b.get_distance(a), 5 * SCALE as u64);
    // A non-square distance floors: (1, 1) tiles is sqrt(2) ~ 1.41 tiles.
    let c = RayPoint::new(SCALE, SCALE, InterceptType::YIntercept);
    assert_eq!(a.get_distance(c), 92681);
}

fn open_board(w: usize, h: usize) -> Board {
    Board::new(vec![0; w * h], w, h, 50).unwrap()
}

#[test]
fn board_new_validates_its_data() {
    assert!(Board::new(vec![0; 100], 10, 10, 50).is_ok());
    assert_eq!(
        Board::new(vec![0; 99], 10, 10, 50).unwrap_err(),
        GridError::OutOfBounds
    );
    assert_eq!(
        Board::new(vec![0; 100], 0, 10, 50).unwrap_err(),
        GridError::OutOfBounds
    );
    assert_eq!(
        Board::new(vec![0; 100], 10, 10, 0).unwrap_err(),
        GridError::OutOfBounds
    );
    let mut bad = vec![0; 100];
    bad[31] = 5;
    assert_eq!(
        Board::new(bad, 10, 10, 50).unwrap_err(),
        GridError::InvalidTileCode
    );
}

#[test]
fn board_indexing_round_trips() {
    let board = open_board(10, 10);
    assert_eq!(board.get_index_from_tile(7, 4), 47);
    let p = Point {
        x: 7 * SCALE + 123,
        y: 4 * SCALE + 456,
    };
    assert_eq!(board.get_index(p), 47);
    let corner = board.get_tile(47);
    assert_eq!(corner.x, 7 * SCALE);
    assert_eq!(corner.y, 4 * SCALE);
}

#[test]
fn board_tile_code_reports_out_of_bounds() {
    let mut tiles = vec![0; 100];
    tiles[5] = 3;
    let board = Board::new(tiles, 10, 10, 50).unwrap();
    assert_eq!(board.tile_code(5), Ok(3));
    assert_eq!(board.tile_code(99), Ok(0));
    assert_eq!(board.tile_code(100), Err(GridError::OutOfBounds));
}

#[test]
fn board_wall_query_reads_the_tile() {
    let mut tiles = vec![0; 100];
    tiles[55] = 2;
    let board = Board::new(tiles, 10, 10, 50).unwrap();
    assert!(board.is_wall_at(Point {
        x: 5 * SCALE + 30000,
        y: 5 * SCALE + 30000,
    }));
    assert!(!board.is_wall_at(Point {
        x: 4 * SCALE,
        y: 5 * SCALE,
    }));
}

#[test]
fn screen_points_convert_to_grid_points() {
    let board = open_board(10, 10);
    let p = board.point_from(ScreenPoint { x: 100, y: 175 });
    assert_eq!(p.x, 2 * SCALE);
    assert_eq!(p.y, 3 * SCALE + SCALE / 2);
}

#[test]
fn the_static_board_loads() {
    let tiles = ray_casting::board::load_board();
    assert_eq!(tiles.len(), 190);
    let board = Board::new(tiles, 10, 19, 50).unwrap();
    // The arena has wall material along its inner border.
    assert_eq!(board.tile_code(11), Ok(2));
    assert_eq!(board.tile_code(17), Ok(4));
    assert_eq!(board.tile_code(0), Ok(0));
}
