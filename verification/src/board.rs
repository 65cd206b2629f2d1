//! The tile board: storage of tile codes and coordinate queries.

use vstd::prelude::*;

use crate::fixed::{floor_tile, tile_of, SCALE};
use crate::maths::div_mod;
use crate::point::{Point, ScreenPoint};

verus! {

/// Largest supported tile count along either axis.
pub const MAX_DIM: usize = 4096;

/// Largest supported render size of one tile.
pub const MAX_BLOCK: u64 = 65536;

/// Largest tile code with a defined material; greater codes mark
/// corrupted board data.
pub const MAX_TILE_CODE: u32 = 4;

/// Failure conditions of board queries and construction.
#[derive(Clone, Copy, Debug, PartialEq, Eq, Structural)]
pub enum GridError {
    /// A coordinate or index resolves outside the stored tiles.
    OutOfBounds,
    /// A tile code has no defined material: corrupted board data.
    InvalidTileCode,
}

/// The rectangular lattice of tiles: row-major codes, tile counts per
/// axis, and the render size of one tile.
#[derive(Debug)]
pub struct Board {
    pub tiles: Vec<u32>,
    pub tiles_x: usize,
    pub tiles_y: usize,
    pub block_size: u64,
}

impl Board {
    /// Well-formedness: the code array matches the dimensions, the
    /// dimensions and block size are positive and within the supported
    /// range, and every code names a defined material.
    pub open spec fn wf(&self) -> bool {
        &&& self.tiles@.len() == self.tiles_x * self.tiles_y
        &&& 0 < self.tiles_x <= MAX_DIM
        &&& 0 < self.tiles_y <= MAX_DIM
        &&& 0 < self.block_size <= MAX_BLOCK
        &&& forall|i: int| 0 <= i < self.tiles@.len() ==> self.tiles@[i] <= MAX_TILE_CODE
    }

    /// The code stored for tile `(col, row)`.
    pub open spec fn code_at(&self, col: int, row: int) -> u32 {
        self.tiles@[row * self.tiles_x + col]
    }

    /// Whether tile `(col, row)` exists on this board.
    pub open spec fn tile_in_range(&self, col: int, row: int) -> bool {
        0 <= col < self.tiles_x && 0 <= row < self.tiles_y
    }

    /// Whether a fixed-point grid point lies inside the board area.
    pub open spec fn point_in_bounds(&self, x: int, y: int) -> bool {
        0 <= x < self.tiles_x * (SCALE as int) && 0 <= y < self.tiles_y * (SCALE as int)
    }

    /// Builds a board after validating the data: the code array length
    /// must match the dimensions, the dimensions and block size must be
    /// positive and within the supported range, and every code must name
    /// a defined material. Corrupted data is rejected, never stored.
    pub fn new(tiles: Vec<u32>, tiles_x: usize, tiles_y: usize, block_size: u64) -> (r: Result<
        Board,
        GridError,
    >)
        ensures
            match r {
                Ok(board) => {
                    &&& board.wf()
                    &&& board.tiles@ == tiles@
                    &&& board.tiles_x == tiles_x
                    &&& board.tiles_y == tiles_y
                    &&& board.block_size == block_size
                },
                Err(GridError::OutOfBounds) => !(tiles@.len() == tiles_x * tiles_y && 0 < tiles_x
                    <= MAX_DIM && 0 < tiles_y <= MAX_DIM && 0 < block_size <= MAX_BLOCK),
                Err(GridError::InvalidTileCode) => {
                    &&& tiles@.len() == tiles_x * tiles_y
                    &&& 0 < tiles_x <= MAX_DIM
                    &&& 0 < tiles_y <= MAX_DIM
                    &&& 0 < block_size <= MAX_BLOCK
                    &&& exists|i: int| 0 <= i < tiles@.len() && tiles@[i] > MAX_TILE_CODE
                },
            },
    {
        if tiles_x == 0 || tiles_x > MAX_DIM || tiles_y == 0 || tiles_y > MAX_DIM {
            return Err(GridError::OutOfBounds);
        }
        if block_size == 0 || block_size > MAX_BLOCK {
            return Err(GridError::OutOfBounds);
        }
        proof {
            assert(tiles_x * tiles_y <= MAX_DIM * MAX_DIM) by (nonlinear_arith)
                requires
                    0 < tiles_x <= MAX_DIM,
                    0 < tiles_y <= MAX_DIM,
            ;
        }
        if tiles.len() != tiles_x * tiles_y {
            return Err(GridError::OutOfBounds);
        }
        let mut i: usize = 0;
        while i < tiles.len()
            invariant
                i <= tiles@.len(),
                forall|j: int| 0 <= j < i ==> tiles@[j] <= MAX_TILE_CODE,
                tiles@.len() == tiles_x * tiles_y,
                0 < tiles_x <= MAX_DIM,
                0 < tiles_y <= MAX_DIM,
                0 < block_size <= MAX_BLOCK,
            decreases tiles@.len() - i,
        {
            if tiles[i] > MAX_TILE_CODE {
                proof {
                    assert(exists|j: int| 0 <= j < tiles@.len() && tiles@[j] > MAX_TILE_CODE) by {
                        assert(0 <= i < tiles@.len() && tiles@[i as int] > MAX_TILE_CODE);
                    }
                }
                return Err(GridError::InvalidTileCode);
            }
            i = i + 1;
        }
        Ok(Board { tiles, tiles_x, tiles_y, block_size })
    }

    /// Converts a render-space point to a fractional grid point by
    /// dividing by the block size.
    pub fn point_from(&self, screen_point: ScreenPoint) -> (r: Point)
        requires
            self.wf(),
            -0x1_0000_0000 <= screen_point.x <= 0x1_0000_0000,
            -0x1_0000_0000 <= screen_point.y <= 0x1_0000_0000,
        ensures
            r.x == crate::fixed::div_trunc_spec(screen_point.x * SCALE, self.block_size as int),
            r.y == crate::fixed::div_trunc_spec(screen_point.y * SCALE, self.block_size as int),
    {
        let x = crate::fixed::div_trunc(screen_point.x * SCALE, self.block_size as i64);
        let y = crate::fixed::div_trunc(screen_point.y * SCALE, self.block_size as i64);
        Point { x, y }
    }

    /// Flattens tile coordinates row-major.
    pub fn get_index_from_tile(&self, x_tile: usize, y_tile: usize) -> (r: usize)
        requires
            self.wf(),
            x_tile < self.tiles_x,
            y_tile < self.tiles_y,
        ensures
            r == y_tile * self.tiles_x + x_tile,
            r < self.tiles@.len(),
    {
        proof {
            assert(y_tile * self.tiles_x + x_tile < self.tiles_x * self.tiles_y
                && self.tiles_x * self.tiles_y <= 16777216) by (nonlinear_arith)
                requires
                    x_tile < self.tiles_x,
                    y_tile < self.tiles_y,
                    self.tiles_x <= MAX_DIM,
                    self.tiles_y <= MAX_DIM,
            ;
        }
        y_tile * self.tiles_x + x_tile
    }

    /// The row-major index of the tile containing a grid point. The
    /// caller must keep the point inside the board: an out-of-range
    /// point is a usage error, not a wrapped lookup.
    pub fn get_index(&self, point: Point) -> (r: usize)
        requires
            self.wf(),
            self.point_in_bounds(point.x as int, point.y as int),
        ensures
            r == tile_of(point.y as int) * self.tiles_x + tile_of(point.x as int),
            r < self.tiles@.len(),
    {
        proof {
            vstd::arithmetic::div_mod::lemma_div_pos_is_pos(point.x as int, SCALE as int);
            vstd::arithmetic::div_mod::lemma_div_pos_is_pos(point.y as int, SCALE as int);
            assert(tile_of(point.x as int) < self.tiles_x) by {
                assert((SCALE as int) * (self.tiles_x as int) == (self.tiles_x as int) * (
                SCALE as int)) by (nonlinear_arith);
                vstd::arithmetic::div_mod::lemma_multiply_divide_lt(
                    point.x as int,
                    SCALE as int,
                    self.tiles_x as int,
                );
            }
            assert(tile_of(point.y as int) < self.tiles_y) by {
                assert((SCALE as int) * (self.tiles_y as int) == (self.tiles_y as int) * (
                SCALE as int)) by (nonlinear_arith);
                vstd::arithmetic::div_mod::lemma_multiply_divide_lt(
                    point.y as int,
                    SCALE as int,
                    self.tiles_y as int,
                );
            }
        }
        let x_tile = floor_tile(point.x) as usize;
        let y_tile = floor_tile(point.y) as usize;
        self.get_index_from_tile(x_tile, y_tile)
    }

    /// The top-left corner of the tile at a row-major index, as a grid
    /// point.
    pub fn get_tile(&self, board_index: usize) -> (r: Point)
        requires
            self.wf(),
            board_index < self.tiles@.len(),
        ensures
            r.x == (board_index as int % self.tiles_x as int) * SCALE,
            r.y == (board_index as int / self.tiles_x as int) * SCALE,
    {
        let (y, x) = div_mod(board_index, self.tiles_x);
        proof {
            vstd::arithmetic::div_mod::lemma_mod_bound(board_index as int, self.tiles_x as int);
            vstd::arithmetic::div_mod::lemma_multiply_divide_lt(
                board_index as int,
                self.tiles_x as int,
                self.tiles_y as int,
            );
        }
        Point { x: (x as i64) * SCALE, y: (y as i64) * SCALE }
    }

    /// The code stored at a row-major index, or `OutOfBounds` for an
    /// index past the stored tiles.
    pub fn tile_code(&self, board_index: usize) -> (r: Result<u32, GridError>)
        requires
            self.wf(),
        ensures
            board_index < self.tiles@.len() ==> r == Ok::<u32, GridError>(
                self.tiles@[board_index as int],
            ),
            board_index >= self.tiles@.len() ==> r == Err::<u32, GridError>(GridError::OutOfBounds),
    {
        if board_index < self.tiles.len() {
            Ok(self.tiles[board_index])
        } else {
            Err(GridError::OutOfBounds)
        }
    }

    /// Whether the tile containing a grid point is a wall. The caller
    /// must keep the point inside the board.
    pub fn is_wall_at(&self, point: Point) -> (r: bool)
        requires
            self.wf(),
            self.point_in_bounds(point.x as int, point.y as int),
        ensures
            r == (self.code_at(tile_of(point.x as int), tile_of(point.y as int)) != 0),
    {
        let board_index = self.get_index(point);
        self.tiles[board_index] != 0
    }
}


/// The static demo board content: a bordered arena of 10 by 19 tiles,
/// row-major, with material codes along the edges.
pub fn load_board() -> (r: Vec<u32>)
    ensures
        r@.len() == 190,
        r@[0] == 0,
        r@[11] == 2,
        r@[17] == 4,
        r@[172] == 3,
        forall|i: int| 0 <= i < 190 ==> r@[i] <= 4,
{
    let v: Vec<u32> = vec![
        0, 0, 0, 0, 0, 0, 0, 0, 0, 0,
        0, 2, 1, 1, 1, 1, 1, 4, 0, 0,
        0, 2, 0, 0, 0, 0, 0, 4, 0, 0,
        0, 2, 0, 0, 0, 0, 0, 4, 0, 0,
        0, 2, 0, 0, 0, 0, 0, 4, 0, 0,
        0, 2, 0, 0, 0, 0, 0, 4, 0, 0,
        0, 2, 0, 0, 0, 0, 0, 4, 0, 0,
        0, 2, 0, 0, 0, 0, 0, 4, 0, 0,
        0, 2, 0, 0, 0, 0, 0, 4, 0, 0,
        0, 2, 0, 0, 0, 0, 0, 4, 0, 0,
        0, 2, 0, 0, 0, 0, 0, 4, 0, 0,
        0, 2, 0, 0, 0, 0, 0, 4, 0, 0,
        0, 2, 0, 0, 0, 0, 0, 4, 0, 0,
        0, 2, 0, 0, 0, 0, 0, 4, 0, 0,
        0, 2, 0, 0, 0, 0, 0, 4, 0, 0,
        0, 2, 0, 0, 0, 0, 0, 4, 0, 0,
        0, 2, 0, 0, 0, 0, 0, 4, 0, 0,
        0, 2, 3, 3, 3, 3, 3, 4, 0, 0,
        0, 0, 0, 0, 0, 0, 0, 0, 0, 0,
    ];
    v
}

} // verus!
