//! The seven pieces, their four rotations, and the shape table.
use vstd::prelude::*;

verus! {

/// A position on the board, or an offset relative to a piece's anchor.
/// Row 0 is the top row; negative `y` lies above the visible board.
#[derive(Debug, Clone, Copy, PartialEq, Eq, Structural)]
pub struct Coordination {
    pub x: i16,
    pub y: i16,
}

impl Default for Coordination {
    fn default() -> (c: Self)
        ensures
            c == (Coordination { x: 0, y: 0 }),
    {
        Coordination { x: 0, y: 0 }
    }
}

/// The shape of a piece: its four blocks relative to the anchor.
pub type TetrominoBlocks = [Coordination; 4];

/// The seven kinds of pieces, named after the letters they look like.
#[derive(Debug, Clone, Copy, PartialEq, Eq, Structural)]
pub enum Tetromino {
    L,
    J,
    T,
    O,
    Z,
    S,
    I,
}

/// The four ways a piece can be turned.
#[derive(Debug, Clone, Copy, PartialEq, Eq, Structural)]
pub enum Rotation {
    Default,
    Left,
    Flipped,
    Right,
}

/// The state of a cell of the board.
#[derive(Debug, Clone, Copy, PartialEq, Eq, Structural)]
pub enum Cell {
    Occured,
    Empty,
}

impl Default for Rotation {
    fn default() -> (r: Self)
        ensures
            r == Rotation::Default,
    {
        Rotation::Default
    }
}

impl Default for Cell {
    fn default() -> (c: Self)
        ensures
            c == Cell::Empty,
    {
        Cell::Empty
    }
}

impl Rotation {
    /// The rotation that follows `self` in the cycle
    /// Default, Left, Flipped, Right, Default.
    pub open spec fn turned(self) -> Rotation {
        match self {
            Rotation::Default => Rotation::Left,
            Rotation::Left => Rotation::Flipped,
            Rotation::Flipped => Rotation::Right,
            Rotation::Right => Rotation::Default,
        }
    }

    /// Advances the rotation by one step of the cycle.
    pub fn next(self) -> (r: Rotation)
        ensures
            r == self.turned(),
    {
        match self {
            Rotation::Default => Rotation::Left,
            Rotation::Left => Rotation::Flipped,
            Rotation::Flipped => Rotation::Right,
            Rotation::Right => Rotation::Default,
        }
    }
}

/// The block at column `x`, row `y` of a piece's own frame.
pub open spec fn at(x: i16, y: i16) -> Coordination {
    Coordination { x, y }
}

/// The four blocks of `piece` in `rotation`, relative to the anchor, in the
/// order in which they are listed for that shape.
pub open spec fn shape(piece: Tetromino, rotation: Rotation) -> Seq<Coordination> {
    match piece {
        Tetromino::O => seq![at(0, 0), at(1, 0), at(0, 1), at(1, 1)],
        Tetromino::I => match rotation {
            Rotation::Left | Rotation::Right => seq![at(0, 1), at(1, 1), at(2, 1), at(3, 1)],
            _ => seq![at(1, 0), at(1, 1), at(1, 2), at(1, 3)],
        },
        Tetromino::S => match rotation {
            Rotation::Default => seq![at(0, 0), at(1, 0), at(1, 1), at(2, 1)],
            Rotation::Left => seq![at(2, 0), at(2, 1), at(1, 1), at(1, 2)],
            Rotation::Flipped => seq![at(2, 2), at(1, 2), at(1, 1), at(0, 1)],
            Rotation::Right => seq![at(0, 2), at(0, 1), at(1, 1), at(1, 0)],
        },
        Tetromino::Z => match rotation {
            Rotation::Default => seq![at(1, 0), at(2, 0), at(0, 1), at(1, 1)],
            Rotation::Left => seq![at(2, 1), at(2, 2), at(1, 0), at(1, 1)],
            Rotation::Flipped => seq![at(1, 2), at(0, 2), at(2, 1), at(1, 1)],
            Rotation::Right => seq![at(0, 1), at(0, 0), at(1, 2), at(1, 1)],
        },
        Tetromino::L => match rotation {
            Rotation::Default => seq![at(0, 2), at(1, 2), at(1, 1), at(1, 0)],
            Rotation::Left => seq![at(0, 0), at(0, 1), at(1, 1), at(2, 1)],
            Rotation::Flipped => seq![at(2, 0), at(1, 0), at(1, 1), at(1, 2)],
            Rotation::Right => seq![at(2, 2), at(2, 1), at(1, 1), at(0, 1)],
        },
        Tetromino::T => match rotation {
            Rotation::Default => seq![at(1, 0), at(0, 1), at(1, 1), at(2, 1)],
            Rotation::Left => seq![at(2, 1), at(1, 0), at(1, 1), at(1, 2)],
            Rotation::Flipped => seq![at(1, 2), at(2, 1), at(1, 1), at(0, 1)],
            Rotation::Right => seq![at(0, 1), at(1, 2), at(1, 1), at(1, 0)],
        },
        Tetromino::J => match rotation {
            Rotation::Default => seq![at(0, 0), at(1, 2), at(1, 1), at(1, 0)],
            Rotation::Left => seq![at(2, 0), at(0, 1), at(1, 1), at(2, 1)],
            Rotation::Flipped => seq![at(2, 2), at(1, 0), at(1, 1), at(1, 2)],
            Rotation::Right => seq![at(0, 2), at(2, 1), at(1, 1), at(0, 1)],
        },
    }
}

/// No two of the blocks stand on the same position.
pub open spec fn distinct(blocks: Seq<Coordination>) -> bool {
    forall|i: int, j: int| 0 <= i < j < blocks.len() ==> blocks[i] != blocks[j]
}

/// Every block lies in the 4 by 4 frame whose corner is the anchor.
pub open spec fn in_frame(blocks: Seq<Coordination>) -> bool {
    forall|i: int|
        0 <= i < blocks.len() ==> 0 <= (#[trigger] blocks[i]).x <= 3 && 0 <= blocks[i].y <= 3
}

fn block(x: i16, y: i16) -> (c: Coordination)
    ensures
        c == (Coordination { x, y }),
{
    Coordination { x, y }
}

/// Looks up the four blocks of `piece` in `rotation`.
pub fn get_tetromino_blocks(piece: Tetromino, rotation: Rotation) -> (blocks: TetrominoBlocks)
    ensures
        blocks@ == shape(piece, rotation),
        distinct(blocks@),
        in_frame(blocks@),
{
    let blocks = match piece {
        Tetromino::O => [block(0, 0), block(1, 0), block(0, 1), block(1, 1)],
        Tetromino::I => match rotation {
            Rotation::Left | Rotation::Right => [
                block(0, 1),
                block(1, 1),
                block(2, 1),
                block(3, 1),
            ],
            _ => [block(1, 0), block(1, 1), block(1, 2), block(1, 3)],
        },
        Tetromino::S => match rotation {
            Rotation::Default => [block(0, 0), block(1, 0), block(1, 1), block(2, 1)],
            Rotation::Left => [block(2, 0), block(2, 1), block(1, 1), block(1, 2)],
            Rotation::Flipped => [block(2, 2), block(1, 2), block(1, 1), block(0, 1)],
            Rotation::Right => [block(0, 2), block(0, 1), block(1, 1), block(1, 0)],
        },
        Tetromino::Z => match rotation {
            Rotation::Default => [block(1, 0), block(2, 0), block(0, 1), block(1, 1)],
            Rotation::Left => [block(2, 1), block(2, 2), block(1, 0), block(1, 1)],
            Rotation::Flipped => [block(1, 2), block(0, 2), block(2, 1), block(1, 1)],
            Rotation::Right => [block(0, 1), block(0, 0), block(1, 2), block(1, 1)],
        },
        Tetromino::L => match rotation {
            Rotation::Default => [block(0, 2), block(1, 2), block(1, 1), block(1, 0)],
            Rotation::Left => [block(0, 0), block(0, 1), block(1, 1), block(2, 1)],
            Rotation::Flipped => [block(2, 0), block(1, 0), block(1, 1), block(1, 2)],
            Rotation::Right => [block(2, 2), block(2, 1), block(1, 1), block(0, 1)],
        },
        Tetromino::T => match rotation {
            Rotation::Default => [block(1, 0), block(0, 1), block(1, 1), block(2, 1)],
            Rotation::Left => [block(2, 1), block(1, 0), block(1, 1), block(1, 2)],
            Rotation::Flipped => [block(1, 2), block(2, 1), block(1, 1), block(0, 1)],
            Rotation::Right => [block(0, 1), block(1, 2), block(1, 1), block(1, 0)],
        },
        Tetromino::J => match rotation {
            Rotation::Default => [block(0, 0), block(1, 2), block(1, 1), block(1, 0)],
            Rotation::Left => [block(2, 0), block(0, 1), block(1, 1), block(2, 1)],
            Rotation::Flipped => [block(2, 2), block(1, 0), block(1, 1), block(1, 2)],
            Rotation::Right => [block(0, 2), block(2, 1), block(1, 1), block(0, 1)],
        },
    };
    proof {
        assert(blocks@ =~= shape(piece, rotation));
        lemma_shape_is_four_distinct_blocks(piece, rotation);
    }
    blocks
}

/// Every piece in every rotation has exactly four blocks, no two of them on
/// the same position, all within the 4 by 4 frame.
pub proof fn lemma_shape_is_four_distinct_blocks(piece: Tetromino, rotation: Rotation)
    ensures
        shape(piece, rotation).len() == 4,
        distinct(shape(piece, rotation)),
        in_frame(shape(piece, rotation)),
{
    let s = shape(piece, rotation);
    assert(s.len() == 4);
    assert(s[0] != s[1] && s[0] != s[2] && s[0] != s[3]);
    assert(s[1] != s[2] && s[1] != s[3] && s[2] != s[3]);
    assert(0 <= s[0].x <= 3 && 0 <= s[0].y <= 3);
    assert(0 <= s[1].x <= 3 && 0 <= s[1].y <= 3);
    assert(0 <= s[2].x <= 3 && 0 <= s[2].y <= 3);
    assert(0 <= s[3].x <= 3 && 0 <= s[3].y <= 3);
}

} // verus!
