//! Where things stand on the display: the pixels of a cell of the board, of
//! a block of the piece to come, and of the frame around the board.
use vstd::prelude::*;

verus! {

/// The column of pixels at which the board begins.
pub const BOARD_OFFSET_X: i16 = 8;

/// The row of pixels at which the board begins.
pub const BOARD_OFFSET_Y: i16 = 26;

/// The column of pixels at which the piece to come is shown.
pub const NEXT_PIECE_OFFSET_X: i16 = 42;

/// The row of pixels at which the piece to come is shown.
pub const NEXT_PIECE_OFFSET_Y: i16 = 10;

/// A rectangle of pixels: its top left corner and its size.
#[derive(Debug, Clone, Copy, PartialEq, Eq, Structural)]
pub struct Area {
    pub x: i32,
    pub y: i32,
    pub width: u32,
    pub height: u32,
}

/// Whether `area` is the square of `size` pixels a side for the cell at
/// column `dx`, row `dy` of a grid that begins at the pixel (`left`, `top`).
pub open spec fn is_square(area: Area, dx: int, dy: int, size: int, left: int, top: int) -> bool {
    &&& area.x == dx * size + left
    &&& area.y == dy * size + top
    &&& area.width == size
    &&& area.height == size
}

fn square_at(dx: i16, dy: i16, size_mul: i16, left: i16, top: i16) -> (area: Area)
    requires
        size_mul >= 0,
    ensures
        is_square(area, dx as int, dy as int, size_mul as int, left as int, top as int),
{
    assert(-0x8000 * 0x8000 <= dx * size_mul <= 0x8000 * 0x8000) by (nonlinear_arith)
        requires
            -0x8000 <= dx <= 0x7fff,
            0 <= size_mul <= 0x7fff,
    ;
    assert(-0x8000 * 0x8000 <= dy * size_mul <= 0x8000 * 0x8000) by (nonlinear_arith)
        requires
            -0x8000 <= dy <= 0x7fff,
            0 <= size_mul <= 0x7fff,
    ;
    Area {
        x: dx as i32 * size_mul as i32 + left as i32,
        y: dy as i32 * size_mul as i32 + top as i32,
        width: size_mul as u32,
        height: size_mul as u32,
    }
}

/// The pixels of the cell at column `dx`, row `dy` of the board, where a
/// cell is `size_mul` pixels wide and high.
pub fn board_cell(dx: i16, dy: i16, size_mul: i16) -> (area: Area)
    requires
        size_mul >= 0,
    ensures
        is_square(
            area,
            dx as int,
            dy as int,
            size_mul as int,
            BOARD_OFFSET_X as int,
            BOARD_OFFSET_Y as int,
        ),
{
    square_at(dx, dy, size_mul, BOARD_OFFSET_X, BOARD_OFFSET_Y)
}

/// The pixels of the block at column `dx`, row `dy` of the piece to come.
pub fn preview_cell(dx: i16, dy: i16, size_mul: i16) -> (area: Area)
    requires
        size_mul >= 0,
    ensures
        is_square(
            area,
            dx as int,
            dy as int,
            size_mul as int,
            NEXT_PIECE_OFFSET_X as int,
            NEXT_PIECE_OFFSET_Y as int,
        ),
{
    square_at(dx, dy, size_mul, NEXT_PIECE_OFFSET_X, NEXT_PIECE_OFFSET_Y)
}

/// The pixels of the frame around a board of `width` columns and `height`
/// rows: one pixel wider than the board on every side.
pub fn board_frame(width: i16, height: i16, size_mul: i16) -> (area: Area)
    requires
        width >= 0,
        height >= 0,
        size_mul >= 0,
    ensures
        area.x == BOARD_OFFSET_X - 1,
        area.y == BOARD_OFFSET_Y - 1,
        area.width == width * size_mul + 2,
        area.height == height * size_mul + 2,
{
    assert(0 <= width * size_mul <= 0x7fff * 0x7fff) by (nonlinear_arith)
        requires
            0 <= width <= 0x7fff,
            0 <= size_mul <= 0x7fff,
    ;
    assert(0 <= height * size_mul <= 0x7fff * 0x7fff) by (nonlinear_arith)
        requires
            0 <= height <= 0x7fff,
            0 <= size_mul <= 0x7fff,
    ;
    Area {
        x: BOARD_OFFSET_X as i32 - 1,
        y: BOARD_OFFSET_Y as i32 - 1,
        width: width as u32 * size_mul as u32 + 2,
        height: height as u32 * size_mul as u32 + 2,
    }
}

} // verus!
