use ray_casting::board::Board;
use ray_casting::fixed::SCALE;
use ray_casting::point::{InterceptType, Point, RayPoint};
use ray_casting::ray::{Ray, MAX_WALL_HEIGHT};
use ray_casting::player::Player;

/// A 10x10 board, fully open except for what `walls` marks.
fn board_with_walls(walls: &[(usize, usize)]) -> Board {
    let mut tiles = vec![0u32; 100];
    for &(x, y) in walls {
        tiles[y * 10 + x] = 1;
    }
    Board::new(tiles, 10, 10, 50).unwrap()
}

/// A 10x10 board with a full wall column at tile-x 7.
fn wall_column_board() -> Board {
    let mut tiles = vec![0u32; 100];
    for row in 0..10 {
        tiles[row * 10 + 7] = 1;
    }
    Board::new(tiles, 10, 10, 50).unwrap()
}

/// A 10x10 board whose border tiles are all walls.
fn bordered_board() -> Board {
    let mut tiles = vec![0u32; 100];
    for i in 0..10 {
        tiles[i] = 1;
        tiles[90 + i] = 1;
        tiles[i * 10] = 1;
        tiles[i * 10 + 9] = 1;
    }
    Board::new(tiles, 10, 10, 50).unwrap()
}

fn grid_point(x_tiles: i64, y_tiles: i64) -> Point {
    Point {
        x: x_tiles * SCALE,
        y: y_tiles * SCALE,
    }
}

#[test]
fn end_to_end_single_ray_hits_the_wall_column() {
    // 10x10 board, open interior, wall column at tile-x 7; viewer at
    // (4.0, 4.0) facing +x with a single ray and 50-unit tiles: the ray
    // must hit tile 47 at distance 3 tiles = 150 render units.
    let board = wall_column_board();
    let mut ray = Ray::new();
    ray.update(grid_point(4, 4), 0, &board);
    let hit = ray.wall_intersection.expect("the ray must resolve a hit");
    assert_eq!(hit.board_index, Some(47));
    assert_eq!(hit.x, 7 * SCALE);
    assert_eq!(hit.y, 4 * SCALE);
    assert_eq!(hit.intercept_type, InterceptType::YIntercept);
    assert!(hit.has_wall_intersection);
    assert_eq!(ray.wall_distance as i64, 150 * SCALE);
    assert_eq!(ray.wall_height, MAX_WALL_HEIGHT / (150 * SCALE as u64));
    // A ray parallel to the horizontal grid lines records no horizontal
    // crossing; the vertical family records the three crossings up to
    // and including the wall face.
    assert_eq!(ray.x_intercepts.len(), 0);
    assert_eq!(ray.y_intercepts.len(), 3);
    for (i, col) in [5i64, 6, 7].iter().enumerate() {
        let p = *ray.y_intercepts.get(i);
        assert_eq!(p.x, col * SCALE);
        assert_eq!(p.y, 4 * SCALE);
        assert_eq!(p.intercept_type, InterceptType::YIntercept);
        assert_eq!(p.board_index, Some((40 + col) as usize));
        assert_eq!(p.has_wall_intersection, *col == 7);
    }
}

#[test]
fn axis_rays_measure_exact_tile_distances() {
    // From (4.0, 4.0) inside a walled border, each axis-aligned ray hits
    // the border wall face at an exact whole-tile distance.
    let board = bordered_board();
    let origin = grid_point(4, 4);
    let mut ray = Ray::new();

    // +x: wall column 9, face at x = 9, five tiles away.
    ray.update(origin, 0, &board);
    assert_eq!(ray.wall_intersection.unwrap().board_index, Some(49));
    assert_eq!(ray.wall_distance as i64, 5 * 50 * SCALE);

    // +y: wall row 9, face at y = 9, five tiles away.
    ray.update(origin, 0x4000_0000, &board);
    assert_eq!(ray.wall_intersection.unwrap().board_index, Some(94));
    assert_eq!(ray.wall_distance as i64, 5 * 50 * SCALE);

    // -x: wall column 0, face at x = 1, three tiles away.
    ray.update(origin, 0x8000_0000, &board);
    assert_eq!(ray.wall_intersection.unwrap().board_index, Some(40));
    assert_eq!(ray.wall_distance as i64, 3 * 50 * SCALE);

    // -y: wall row 0, face at y = 1, three tiles away.
    ray.update(origin, 0xC000_0000, &board);
    assert_eq!(ray.wall_intersection.unwrap().board_index, Some(4));
    assert_eq!(ray.wall_distance as i64, 3 * 50 * SCALE);
}

#[test]
fn axis_rays_terminate_on_any_bounded_grid() {
    // The four degenerate angles complete on boards with and without
    // walls, never dividing by zero and never looping.
    let open = board_with_walls(&[]);
    let walled = bordered_board();
    let mut ray = Ray::new();
    for &angle in &[0u32, 0x4000_0000, 0x8000_0000, 0xC000_0000] {
        for board in [&open, &walled] {
            ray.update(grid_point(4, 4), angle, board);
            assert!(ray.x_intercepts.len() <= 11);
            assert!(ray.y_intercepts.len() <= 11);
        }
        assert!(ray.wall_intersection.is_some());
    }
}

#[test]
fn open_grid_resolves_nothing() {
    // An entirely open grid leaves every ray unresolved, with both
    // families bounded by one board span, distance zero, and the
    // clamped maximum projected height.
    let board = board_with_walls(&[]);
    let mut ray = Ray::new();
    for &angle in &[0u32, 0x1234_5678, 0x4000_0000, 0x9876_5432, 0xC000_0000, 0xDEAD_BEEF] {
        ray.update(grid_point(4, 4), angle, &board);
        assert!(ray.wall_intersection.is_none());
        assert!(ray.x_intercepts.len() <= 11);
        assert!(ray.y_intercepts.len() <= 11);
        assert_eq!(ray.wall_distance, 0);
        assert_eq!(ray.wall_height, MAX_WALL_HEIGHT);
    }
}

#[test]
fn origin_outside_the_grid_resolves_nothing() {
    let board = bordered_board();
    let mut ray = Ray::new();
    ray.update(grid_point(-5, -7), 0xA000_0000, &board);
    assert!(ray.wall_intersection.is_none());
    ray.update(grid_point(20, 4), 0, &board);
    assert!(ray.wall_intersection.is_none());
}

#[test]
fn diagonal_ray_walks_exact_corners_and_prefers_the_horizontal_family() {
    // At an eighth of a turn the tangent is exactly one, so every
    // crossing lands exactly on a tile corner. Both families confirm the
    // same wall corner at the same distance; the tie must go to the
    // horizontal crossing.
    let board = wall_column_board();
    let mut ray = Ray::new();
    ray.update(grid_point(4, 4), 0x2000_0000, &board);
    let hit = ray.wall_intersection.expect("the diagonal must hit");
    assert_eq!(hit.x, 7 * SCALE);
    assert_eq!(hit.y, 7 * SCALE);
    assert_eq!(hit.board_index, Some(77));
    assert_eq!(hit.intercept_type, InterceptType::XIntercept);
}

#[test]
fn sweeping_across_boundaries_keeps_tile_indices_continuous() {
    // Sweeping the angle across boundary-aligned directions: every ray
    // hits the wall column in exactly one tile, and the hit row moves by
    // at most one tile between neighbouring angles (no tile skipped, no
    // tile double-resolved into a gap).
    let board = wall_column_board();
    let mut ray = Ray::new();
    let mut last_row: Option<i64> = None;
    for k in -2048i64..=2048 {
        let angle = (k * 0x2_0000) as u32;
        ray.update(grid_point(4, 4), angle, &board);
        let hit = ray.wall_intersection.expect("sweep ray must hit the column");
        let index = hit.board_index.unwrap() as i64;
        assert_eq!(index % 10, 7, "angle {angle} hit off-column tile {index}");
        let row = index / 10;
        if let Some(prev) = last_row {
            assert!(
                (row - prev).abs() <= 1,
                "angle {angle} jumped from row {prev} to {row}"
            );
        }
        last_row = Some(row);
    }
}

#[test]
fn tie_break_prefers_the_horizontal_crossing() {
    // Hand the merge two confirmed hits at exactly equal distance: the
    // horizontal-family crossing must win, and the distance is exact.
    let mut ray = Ray::new();
    let mut xp = RayPoint::new(300, 400, InterceptType::XIntercept);
    xp.has_wall_intersection = true;
    xp.board_index = Some(1);
    let mut yp = RayPoint::new(400, 300, InterceptType::YIntercept);
    yp.has_wall_intersection = true;
    yp.board_index = Some(2);
    ray.x_intercepts.push(xp);
    ray.y_intercepts.push(yp);
    let (hit, distance) = ray.get_wall_intersection();
    let hit = hit.unwrap();
    assert_eq!(hit.intercept_type, InterceptType::XIntercept);
    assert_eq!(hit.board_index, Some(1));
    assert_eq!(distance, 500);
}

#[test]
fn nearer_family_wins_the_merge() {
    let mut ray = Ray::new();
    ray.start_position = Point { x: 0, y: 0 };
    let mut xp = RayPoint::new(0, 1000, InterceptType::XIntercept);
    xp.has_wall_intersection = true;
    let mut yp = RayPoint::new(600, 0, InterceptType::YIntercept);
    yp.has_wall_intersection = true;
    ray.x_intercepts.push(xp);
    ray.y_intercepts.push(yp);
    let (hit, distance) = ray.get_wall_intersection();
    assert_eq!(hit.unwrap().intercept_type, InterceptType::YIntercept);
    assert_eq!(distance, 600);
}

#[test]
fn movement_into_a_wall_is_rejected() {
    // 10x10 grid with a wall tile at (5, 5); a viewer at (4, 5) facing
    // angle zero moving forward one full tile must stay at (4, 5).
    let board = board_with_walls(&[(5, 5)]);
    let mut player = Player::new(grid_point(4, 5), 0, 0, 1, SCALE).unwrap();
    player.move_forward(&board);
    assert_eq!(player.position, grid_point(4, 5));
}

#[test]
fn movement_into_open_space_is_committed() {
    let board = board_with_walls(&[(5, 5)]);
    let mut player = Player::new(grid_point(4, 4), 0, 0, 1, SCALE).unwrap();
    player.move_forward(&board);
    assert_eq!(player.position, grid_point(5, 4));
    player.move_backward(&board);
    assert_eq!(player.position, grid_point(4, 4));
    // Strafing right at facing angle zero moves one tile in +y.
    player.strafe_right(&board);
    assert_eq!(player.position, grid_point(4, 5));
    player.strafe_left(&board);
    assert_eq!(player.position, grid_point(4, 4));
}

#[test]
fn movement_off_the_board_is_rejected() {
    let board = board_with_walls(&[]);
    let mut player = Player::new(grid_point(0, 0), 0x8000_0000, 0, 1, SCALE).unwrap();
    player.move_forward(&board);
    assert_eq!(player.position, grid_point(0, 0));
}

#[test]
fn turning_wraps_the_binary_angle() {
    let board_angle = 0xF000_0000u32;
    let mut player = Player::new(grid_point(4, 4), board_angle, 0, 1, SCALE).unwrap();
    player.turn(0x2000_0000);
    assert_eq!(player.angle, 0x1000_0000);
    player.turn(-0x2000_0000);
    assert_eq!(player.angle, 0xF000_0000);
    player.turn(-1);
    assert_eq!(player.angle, 0xEFFF_FFFF);
}

#[test]
fn player_validation_rejects_bad_ranges() {
    assert!(Player::new(grid_point(4, 4), 0, 0, 1, -1).is_none());
    assert!(Player::new(grid_point(4, 4), 0, 0, 5000, SCALE).is_none());
    assert!(Player::new(Point { x: i64::MAX, y: 0 }, 0, 0, 1, SCALE).is_none());
}

#[test]
fn the_fan_spreads_around_the_facing_angle() {
    // Three rays facing +x: the middle ray is the facing direction and
    // hits the wall column straight ahead; the outer rays are an eighth
    // of a turn to each side and hit the exact corner tiles.
    let board = wall_column_board();
    let mut player = Player::new(grid_point(4, 4), 0, 0, 3, SCALE).unwrap();
    player.update(&board);
    assert_eq!(player.rays.len(), 3);
    let up = player.rays[0].wall_intersection.unwrap();
    let mid = player.rays[1].wall_intersection.unwrap();
    let down = player.rays[2].wall_intersection.unwrap();
    assert_eq!(player.rays[0].angle, 0xE000_0000);
    assert_eq!(player.rays[1].angle, 0);
    assert_eq!(player.rays[2].angle, 0x2000_0000);
    assert_eq!(up.board_index, Some(7));
    assert_eq!(mid.board_index, Some(47));
    assert_eq!(down.board_index, Some(77));
    assert_eq!(player.rays[1].wall_distance as i64, 150 * SCALE);
}

#[test]
fn a_single_ray_fan_uses_the_facing_angle() {
    let board = wall_column_board();
    let mut player = Player::new(grid_point(4, 4), 0, 0, 1, SCALE).unwrap();
    player.update(&board);
    assert_eq!(player.rays[0].angle, 0);
    assert_eq!(player.rays[0].wall_intersection.unwrap().board_index, Some(47));
}

#[test]
fn standing_on_a_wall_face_looks_past_it() {
    // A viewer standing exactly on a wall's face line, looking away from
    // the wall it bounds, never reports a zero-distance hit: the line
    // underfoot is not a crossing.
    let board = bordered_board();
    let mut ray = Ray::new();
    // At (1.5, 4) facing -x the wall face at x = 1 is half a tile away.
    ray.update(Point { x: SCALE + SCALE / 2, y: 4 * SCALE }, 0x8000_0000, &board);
    assert_eq!(ray.wall_distance as i64, 25 * SCALE);
    // At (1.0, 4) exactly on that face, facing -x, the next line ahead
    // is x = 0, whose far side is off the board: no hit, no zero division.
    ray.update(grid_point(1, 4), 0x8000_0000, &board);
    assert!(ray.wall_intersection.is_none());
    assert_eq!(ray.wall_height, MAX_WALL_HEIGHT);
}

#[test]
fn the_demo_scene_resolves_like_the_small_one() {
    // The shipped board is a 10x19 arena with a wall column at tile-x 7;
    // from (4.0, 4.0) facing +x the single ray hits tile 47 three tiles
    // ahead, exactly as on the small open board.
    let board = Board::new(ray_casting::board::load_board(), 10, 19, 50).unwrap();
    let mut player = Player::new(grid_point(4, 4), 0, 0, 1, SCALE / 10).unwrap();
    player.update(&board);
    let hit = player.rays[0].wall_intersection.unwrap();
    assert_eq!(hit.board_index, Some(47));
    assert_eq!(player.rays[0].wall_distance as i64, 150 * SCALE);
}

#[test]
fn a_wide_fan_resolves_every_ray() {
    // Twenty-one rays over a quarter-turn fan inside the walled arena:
    // every ray resolves some wall, and every reported tile index names a
    // wall tile of the board.
    let board = Board::new(ray_casting::board::load_board(), 10, 19, 50).unwrap();
    let mut player = Player::new(
        Point { x: 4 * SCALE + SCALE / 2, y: 4 * SCALE + SCALE / 3 },
        0x0600_0000,
        0,
        21,
        SCALE / 10,
    )
    .unwrap();
    player.update(&board);
    assert_eq!(player.rays.len(), 21);
    for ray in &player.rays {
        let hit = ray.wall_intersection.expect("arena rays always end on a wall");
        let index = hit.board_index.unwrap();
        assert!(matches!(board.tile_code(index), Ok(code) if code != 0));
        assert!(ray.wall_distance > 0);
        assert!(ray.wall_height > 0);
    }
}
