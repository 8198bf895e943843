//! The playing grid: collision tests, wall-kick offsets, placing a piece and
//! clearing full lines.
use vstd::prelude::*;
use crate::piece::{in_frame, Cell, Coordination, TetrominoBlocks};

verus! {

/// Whether `g` has `rows` rows of `cols` cells each.
pub open spec fn well_shaped(g: Seq<Seq<Cell>>, cols: nat, rows: nat) -> bool {
    g.len() == rows && forall|y: int| 0 <= y < rows ==> (#[trigger] g[y]).len() == cols
}

/// A row in which every cell is occupied.
pub open spec fn row_full(row: Seq<Cell>) -> bool {
    forall|x: int| 0 <= x < row.len() ==> row[x] == Cell::Occured
}

/// A row of `cols` empty cells.
pub open spec fn empty_row(cols: nat) -> Seq<Cell> {
    Seq::new(cols, |x: int| Cell::Empty)
}

/// `rows` rows of `cols` empty cells each.
pub open spec fn empty_rows(cols: nat, rows: nat) -> Seq<Seq<Cell>> {
    Seq::new(rows, |y: int| empty_row(cols))
}

/// The test that a row must pass to survive line clearing.
pub open spec fn survives() -> spec_fn(Seq<Cell>) -> bool {
    |row: Seq<Cell>| !row_full(row)
}

/// The rows of `g` that are not full, in their order from top to bottom.
pub open spec fn kept_rows(g: Seq<Seq<Cell>>) -> Seq<Seq<Cell>> {
    g.filter(survives())
}

/// The number of full rows of `g`.
pub open spec fn full_rows(g: Seq<Seq<Cell>>) -> nat {
    (g.len() - kept_rows(g).len()) as nat
}

/// `g` after line clearing: the full rows are gone, the others have moved down
/// in their order, and as many empty rows as were removed stand on top.
pub open spec fn compacted(g: Seq<Seq<Cell>>, cols: nat) -> Seq<Seq<Cell>> {
    empty_rows(cols, full_rows(g)) + kept_rows(g)
}

/// Whether a block may stand at column `x`, row `y`: above the board anything
/// goes; otherwise the cell must exist and be empty.
pub open spec fn block_free(g: Seq<Seq<Cell>>, x: int, y: int) -> bool {
    y < 0 || (y < g.len() && 0 <= x < g[y].len() && g[y][x] != Cell::Occured)
}

/// Whether a block at column `x`, row `y` has a cell of the grid to land on,
/// or lies above the board.
pub open spec fn block_on_grid(g: Seq<Seq<Cell>>, x: int, y: int) -> bool {
    y < 0 || (y < g.len() && 0 <= x < g[y].len())
}

/// Whether all of `blocks`, shifted by `offset`, may stand on `g`.
pub open spec fn fits(g: Seq<Seq<Cell>>, blocks: Seq<Coordination>, offset: Coordination) -> bool {
    forall|i: int|
        0 <= i < blocks.len() ==> block_free(
            g,
            (#[trigger] blocks[i]).x + offset.x,
            blocks[i].y + offset.y,
        )
}

/// Whether all of `blocks`, shifted by `offset`, lie on `g` or above it.
pub open spec fn on_grid(
    g: Seq<Seq<Cell>>,
    blocks: Seq<Coordination>,
    offset: Coordination,
) -> bool {
    forall|i: int|
        0 <= i < blocks.len() ==> block_on_grid(
            g,
            (#[trigger] blocks[i]).x + offset.x,
            blocks[i].y + offset.y,
        )
}

/// Whether one of `blocks`, shifted by `offset`, stands at column `x`, row `y`.
pub open spec fn covers(blocks: Seq<Coordination>, offset: Coordination, x: int, y: int) -> bool {
    exists|i: int|
        0 <= i < blocks.len() && (#[trigger] blocks[i]).x + offset.x == x && blocks[i].y + offset.y
            == y
}

/// `g` with every cell occupied on which one of `blocks`, shifted by `offset`,
/// stands. Blocks above the board leave no mark.
pub open spec fn placed(g: Seq<Seq<Cell>>, blocks: Seq<Coordination>, offset: Coordination) -> Seq<
    Seq<Cell>,
> {
    Seq::new(
        g.len(),
        |y: int|
            Seq::new(
                g[y].len(),
                |x: int|
                    if covers(blocks, offset, x, y) {
                        Cell::Occured
                    } else {
                        g[y][x]
                    },
            ),
    )
}

/// The wall-kick shift after looking at one more block whose column is `x`:
/// a block left of the board raises the shift to what brings it to column 0,
/// a block right of the board lowers it to what brings it to the last column.
pub open spec fn kick_step(shift: int, x: int, cols: int) -> int {
    if x < 0 {
        if shift >= -x {
            shift
        } else {
            -x
        }
    } else if x >= cols {
        if shift <= cols - x - 1 {
            shift
        } else {
            cols - x - 1
        }
    } else {
        shift
    }
}

/// The wall-kick shift for `blocks` whose anchor stands in column `ox`, the
/// blocks taken in their order.
pub open spec fn kick(blocks: Seq<Coordination>, ox: int, cols: int) -> int
    decreases blocks.len(),
{
    if blocks.len() == 0 {
        0
    } else {
        kick_step(kick(blocks.drop_last(), ox, cols), blocks.last().x + ox, cols)
    }
}

/// Whether all of `blocks`, their anchor in column `ox`, stand in the columns
/// of a board of `cols` columns.
pub open spec fn between_walls(blocks: Seq<Coordination>, ox: int, cols: int) -> bool {
    forall|i: int| 0 <= i < blocks.len() ==> 0 <= (#[trigger] blocks[i]).x + ox < cols
}

/// Whether `blocks` span fewer than `cols` columns, so that they can stand
/// between the walls at all.
pub open spec fn narrower_than(blocks: Seq<Coordination>, cols: int) -> bool {
    forall|i: int, j: int|
        0 <= i < blocks.len() && 0 <= j < blocks.len() ==> (#[trigger] blocks[i]).x - (
        #[trigger] blocks[j]).x < cols
}

/// Whether the wall-kick shift for `blocks` anchored at `offset` can be told
/// in 16 bits: no block stands further left of the board, or further right of
/// it, than such a shift can bring back.
pub open spec fn kick_in_range(blocks: Seq<Coordination>, offset: Coordination, cols: int) -> bool {
    forall|i: int|
        0 <= i < blocks.len() ==> -0x7fff <= (#[trigger] blocks[i]).x + offset.x <= cols + 0x7fff
}

/// A grid of `C` columns and `R` rows of cells. Row 0 is the top row.
pub struct Board<const C: usize, const R: usize> {
    inner: [[Cell; C]; R],
}

impl<const C: usize, const R: usize> View for Board<C, R> {
    type V = Seq<Seq<Cell>>;

    closed spec fn view(&self) -> Seq<Seq<Cell>> {
        Seq::new(R as nat, |y: int| self.inner@[y]@)
    }
}

fn row_is_full<const C: usize>(row: &[Cell; C]) -> (full: bool)
    ensures
        full == row_full(row@),
{
    let mut x: usize = 0;
    while x < C
        invariant
            x <= C,
            forall|k: int| 0 <= k < x ==> row@[k] == Cell::Occured,
        decreases C - x,
    {
        if row[x] != Cell::Occured {
            return false;
        }
        x += 1;
    }
    true
}

impl<const C: usize, const R: usize> Board<C, R> {
    /// The sizes a board can have: at least one column and one row, and no
    /// more of either than a 16-bit coordinate can count.
    pub open spec fn dims_ok() -> bool {
        1 <= C <= 0x7fff && 1 <= R <= 0x7fff
    }

    /// A board as the game keeps it: of a size that coordinates can address,
    /// and without a full row.
    pub open spec fn wf(&self) -> bool {
        &&& Self::dims_ok()
        &&& full_rows(self@) == 0
    }

    /// The view of a board always has `R` rows of `C` cells.
    pub proof fn lemma_view_shape(&self)
        ensures
            well_shaped(self@, C as nat, R as nat),
    {
    }

    /// An empty board.
    pub fn new() -> (board: Self)
        ensures
            board@ == empty_rows(C as nat, R as nat),
            Self::dims_ok() ==> board.wf(),
    {
        let board = Board { inner: [[Cell::Empty; C]; R] };
        proof {
            assert(board@ =~~= empty_rows(C as nat, R as nat));
            if Self::dims_ok() {
                lemma_empty_rows_survive(C as nat, R as nat);
            }
        }
        board
    }

    /// Whether a piece of shape `blocks` anchored at `offset` may stand on the
    /// board: each block is above the board, or on an empty cell of it.
    pub fn can_move_in(&self, blocks: TetrominoBlocks, offset: Coordination) -> (ok: bool)
        ensures
            ok == fits(self@, blocks@, offset),
    {
        let mut i: usize = 0;
        while i < 4
            invariant
                i <= 4,
                forall|k: int|
                    0 <= k < i ==> block_free(
                        self@,
                        (#[trigger] blocks@[k]).x + offset.x,
                        blocks@[k].y + offset.y,
                    ),
            decreases 4 - i,
        {
            let x: i32 = blocks[i].x as i32 + offset.x as i32;
            let y: i32 = blocks[i].y as i32 + offset.y as i32;
            if y >= 0 {
                if x < 0 || x as usize >= C || y as usize >= R {
                    return false;
                }
                if self.inner[y as usize][x as usize] == Cell::Occured {
                    return false;
                }
            }
            i += 1;
        }
        true
    }

    /// The horizontal shift that brings a piece of shape `blocks` anchored at
    /// `offset` back between the walls.
    pub fn wall_bounce_offset_modifier(
        &self,
        blocks: TetrominoBlocks,
        offset: Coordination,
    ) -> (shift: i16)
        requires
            kick_in_range(blocks@, offset, C as int),
        ensures
            shift == kick(blocks@, offset.x as int, C as int),
    {
        let mut modifier: i32 = 0;
        let mut i: usize = 0;
        while i < 4
            invariant
                i <= 4,
                kick_in_range(blocks@, offset, C as int),
                modifier == kick(blocks@.take(i as int), offset.x as int, C as int),
                -0x8000 <= modifier <= 0x7fff,
            decreases 4 - i,
        {
            let x: i32 = blocks[i].x as i32 + offset.x as i32;
            proof {
                assert(blocks@.take(i + 1).drop_last() =~= blocks@.take(i as int));
                assert(blocks@.take(i + 1).last() == blocks@[i as int]);
            }
            if x < 0 {
                if modifier < -x {
                    modifier = -x;
                }
            } else if x as usize >= C {
                let back: i32 = C as i32 - x - 1;
                if modifier > back {
                    modifier = back;
                }
            }
            i += 1;
        }
        proof {
            assert(blocks@.take(4) =~= blocks@);
        }
        modifier as i16
    }

    /// Marks the cells under a piece of shape `blocks` anchored at `offset`
    /// as occupied, then clears the full lines and returns how many there
    /// were.
    pub fn place(&mut self, blocks: TetrominoBlocks, offset: Coordination) -> (cleared: u8)
        requires
            old(self).wf(),
            on_grid(old(self)@, blocks@, offset),
        ensures
            final(self)@ == compacted(placed(old(self)@, blocks@, offset), C as nat),
            cleared == full_rows(placed(old(self)@, blocks@, offset)),
            cleared <= 4,
            final(self).wf(),
    {
        let ghost before = self@;
        let mut i: usize = 0;
        proof {
            assert(before =~~= placed(before, blocks@.take(0), offset));
        }
        while i < 4
            invariant
                i <= 4,
                well_shaped(before, C as nat, R as nat),
                on_grid(before, blocks@, offset),
                self@ == placed(before, blocks@.take(i as int), offset),
                full_rows(self@) <= full_rows(before) + i,
            decreases 4 - i,
        {
            let x: i32 = blocks[i].x as i32 + offset.x as i32;
            let y: i32 = blocks[i].y as i32 + offset.y as i32;
            let ghost step = self@;
            if y >= 0 {
                assert(block_on_grid(
                    before,
                    blocks@[i as int].x + offset.x,
                    blocks@[i as int].y + offset.y,
                ));
                self.inner[y as usize][x as usize] = Cell::Occured;
                proof {
                    let row = step[y as int].update(x as int, Cell::Occured);
                    assert(self@ =~= step.update(y as int, row));
                    lemma_update_adds_at_most_one_full_row(step, y as int, row);
                }
            }
            proof {
                lemma_placed_one_more(before, blocks@, offset, i as int);
                assert(self@ =~~= placed(before, blocks@.take(i + 1), offset));
            }
            i += 1;
        }
        proof {
            assert(blocks@.take(4) =~= blocks@);
        }
        let n = self.clear_full_lines();
        proof {
            lemma_compacted_has_no_full_row(placed(before, blocks@, offset), C as nat);
        }
        n
    }

    /// Removes every full row, moves the rows above it down, and puts empty
    /// rows on top. Returns the number of rows removed.
    pub fn clear_full_lines(&mut self) -> (removed: u8)
        requires
            full_rows(old(self)@) <= u8::MAX,
        ensures
            final(self)@ == compacted(old(self)@, C as nat),
            removed == full_rows(old(self)@),
    {
        let ghost before = self@;
        let mut fresh: [[Cell; C]; R] = [[Cell::Empty; C]; R];
        let mut src: usize = R;
        let mut dst: usize = R;
        proof {
            assert(before.subrange(R as int, R as int) =~= Seq::<Seq<Cell>>::empty());
            reveal(Seq::filter);
        }
        while src > 0
            invariant
                src <= dst <= R,
                before == self@,
                before.len() == R,
                kept_rows(before.subrange(src as int, R as int)).len() == R - dst,
                forall|y: int|
                    dst <= y < R ==> (#[trigger] fresh@[y])@ == kept_rows(
                        before.subrange(src as int, R as int),
                    )[y - dst],
                forall|y: int| 0 <= y < dst ==> (#[trigger] fresh@[y])@ == empty_row(C as nat),
            decreases src,
        {
            src -= 1;
            let full = row_is_full(&self.inner[src]);
            proof {
                let tail = before.subrange(src + 1, R as int);
                assert(before.subrange(src as int, R as int) =~= seq![before[src as int]] + tail);
                Seq::filter_distributes_over_add(seq![before[src as int]], tail, survives());
                lemma_filter_one(before[src as int]);
            }
            if !full {
                dst -= 1;
                fresh[dst] = self.inner[src];
            }
        }
        self.inner = fresh;
        proof {
            assert(before.subrange(0, R as int) =~= before);
            assert(self@ =~~= compacted(before, C as nat));
        }
        dst as u8
    }
}

/// Whether the cell at column `x`, row `y` exists and is occupied.
pub open spec fn occupied(g: Seq<Seq<Cell>>, x: int, y: int) -> bool {
    0 <= y < g.len() && 0 <= x < g[y].len() && g[y][x] == Cell::Occured
}

/// Whether position `a` comes before position `b` when the board is read row
/// by row from the top, each row from the left.
pub open spec fn scans_before(a: Coordination, b: Coordination) -> bool {
    a.y < b.y || (a.y == b.y && a.x < b.x)
}

/// The position that is read after `c` on a board of `cols` columns.
pub open spec fn scan_successor(c: Coordination, cols: int) -> Coordination {
    if c.x + 1 < cols {
        Coordination { x: (c.x + 1) as i16, y: c.y }
    } else {
        Coordination { x: 0, y: (c.y + 1) as i16 }
    }
}

/// Whether no cell from `from` up to, but without, `to` is occupied.
pub open spec fn none_occupied_between(
    g: Seq<Seq<Cell>>,
    from: Coordination,
    to: Coordination,
) -> bool {
    forall|x: int, y: int|
        #[trigger] occupied(g, x, y) ==> y < from.y || (y == from.y && x < from.x) || y > to.y || (y
            == to.y && x >= to.x)
}

/// A cursor over the occupied cells of a board, row by row from the top, each
/// row from the left.
pub struct BoardIter<'a, const C: usize, const R: usize> {
    board: &'a Board<C, R>,
    current_coor: Coordination,
}

impl<'a, const C: usize, const R: usize> BoardIter<'a, C, R> {
    /// The grid that the cursor walks.
    pub closed spec fn grid(&self) -> Seq<Seq<Cell>> {
        self.board@
    }

    /// The position that is read next; column 0 of the row below the last
    /// one when nothing is left.
    pub closed spec fn cursor(&self) -> Coordination {
        self.current_coor
    }

    /// The cursor stands on a cell of the board or just behind the last one.
    pub open spec fn wf(&self) -> bool {
        &&& Board::<C, R>::dims_ok()
        &&& 0 <= self.cursor().y <= R
        &&& 0 <= self.cursor().x < C
        &&& self.cursor().y == R ==> self.cursor().x == 0
    }

    /// The next occupied cell at or after the cursor, if there is one. The
    /// cursor moves behind the cell returned, or to the end.
    pub fn next(&mut self) -> (found: Option<Coordination>)
        requires
            old(self).wf(),
        ensures
            final(self).wf(),
            final(self).grid() == old(self).grid(),
            match found {
                Some(c) => {
                    &&& occupied(old(self).grid(), c.x as int, c.y as int)
                    &&& !scans_before(c, old(self).cursor())
                    &&& none_occupied_between(old(self).grid(), old(self).cursor(), c)
                    &&& final(self).cursor() == scan_successor(c, C as int)
                },
                None => {
                    &&& none_occupied_between(
                        old(self).grid(),
                        old(self).cursor(),
                        Coordination { x: 0, y: R as i16 },
                    )
                    &&& final(self).cursor() == (Coordination { x: 0, y: R as i16 })
                },
            },
    {
        let ghost start = self.current_coor;
        let mut coor = self.current_coor;
        while (coor.x as usize) < C && (coor.y as usize) < R
            invariant
                self.wf(),
                self.board == old(self).board,
                start == old(self).current_coor,
                coor == self.current_coor,
                !scans_before(coor, start),
                none_occupied_between(self.board@, start, coor),
            decreases R - coor.y, C - coor.x,
        {
            self.current_coor.x += 1;
            if self.current_coor.x as usize >= C {
                self.current_coor.x = 0;
                self.current_coor.y += 1;
            }
            if self.board.inner[coor.y as usize][coor.x as usize] == Cell::Occured {
                proof {
                    assert(self.board@[coor.y as int][coor.x as int] == Cell::Occured);
                    assert(self.board@[coor.y as int].len() == C);
                    assert(occupied(self.board@, coor.x as int, coor.y as int));
                    assert(self.current_coor == scan_successor(coor, C as int));
                }
                return Some(coor);
            }
            coor = self.current_coor;
        }
        None
    }
}

impl<const C: usize, const R: usize> Board<C, R> {
    /// A cursor that stands on the top left cell.
    pub fn iter(&self) -> (it: BoardIter<'_, C, R>)
        requires
            Self::dims_ok(),
        ensures
            it.wf(),
            it.grid() == self@,
            it.cursor() == (Coordination { x: 0, y: 0 }),
    {
        BoardIter { board: self, current_coor: Coordination { x: 0, y: 0 } }
    }
}

/// The wall-kick shift brings a piece that is narrower than the board between
/// the walls, and it brings one of its blocks to the wall that the piece had
/// crossed.
pub proof fn lemma_kick_brings_piece_between_walls(blocks: Seq<Coordination>, ox: int, cols: int)
    requires
        narrower_than(blocks, cols),
    ensures
        between_walls(blocks, ox + kick(blocks, ox, cols), cols),
        kick(blocks, ox, cols) > 0 ==> exists|j: int|
            0 <= j < blocks.len() && (#[trigger] blocks[j]).x + ox + kick(blocks, ox, cols) == 0,
        kick(blocks, ox, cols) < 0 ==> exists|j: int|
            0 <= j < blocks.len() && (#[trigger] blocks[j]).x + ox + kick(blocks, ox, cols) == cols
                - 1,
    decreases blocks.len(),
{
    if blocks.len() > 0 {
        let rest = blocks.drop_last();
        let n = blocks.len() - 1;
        let x = blocks[n].x + ox;
        let before = kick(rest, ox, cols);
        let after = kick(blocks, ox, cols);
        assert forall|i: int, j: int| 0 <= i < rest.len() && 0 <= j < rest.len() implies (
        #[trigger] rest[i]).x - (#[trigger] rest[j]).x < cols by {
            assert(blocks[i].x - blocks[j].x < cols);
        }
        lemma_kick_brings_piece_between_walls(rest, ox, cols);
        assert(blocks[n].x - blocks[n].x < cols);
        if before > 0 {
            let j = choose|j: int| 0 <= j < rest.len() && (#[trigger] rest[j]).x + ox + before == 0;
            assert(blocks[j].x - blocks[n].x < cols);
            assert(blocks[n].x - blocks[j].x < cols);
            if after == before {
                assert(blocks[j].x + ox + after == 0);
            }
        }
        if before < 0 {
            let j = choose|j: int|
                0 <= j < rest.len() && (#[trigger] rest[j]).x + ox + before == cols - 1;
            assert(blocks[j].x - blocks[n].x < cols);
            assert(blocks[n].x - blocks[j].x < cols);
            if after == before {
                assert(blocks[j].x + ox + after == cols - 1);
            }
        }
        if after != before {
            assert(blocks[n].x + ox + after == 0 || blocks[n].x + ox + after == cols - 1);
        }
        assert forall|i: int| 0 <= i < blocks.len() implies 0 <= (#[trigger] blocks[i]).x + ox
            + after < cols by {
            if i < n {
                assert(0 <= rest[i].x + ox + before < cols);
                assert(blocks[i].x - blocks[n].x < cols);
                assert(blocks[n].x - blocks[i].x < cols);
            }
        }
    }
}

/// No smaller shift than the wall-kick shift brings a piece between the walls:
/// every shift that does goes at least as far to the same side.
pub proof fn lemma_kick_is_the_least_shift(
    blocks: Seq<Coordination>,
    ox: int,
    cols: int,
    shift: int,
)
    requires
        narrower_than(blocks, cols),
        between_walls(blocks, ox + shift, cols),
    ensures
        kick(blocks, ox, cols) > 0 ==> shift >= kick(blocks, ox, cols),
        kick(blocks, ox, cols) < 0 ==> shift <= kick(blocks, ox, cols),
{
    lemma_kick_brings_piece_between_walls(blocks, ox, cols);
    let least = kick(blocks, ox, cols);
    if least > 0 {
        let j = choose|j: int| 0 <= j < blocks.len() && (#[trigger] blocks[j]).x + ox + least == 0;
        assert(0 <= blocks[j].x + (ox + shift));
    }
    if least < 0 {
        let j = choose|j: int|
            0 <= j < blocks.len() && (#[trigger] blocks[j]).x + ox + least == cols - 1;
        assert(blocks[j].x + (ox + shift) < cols);
    }
}

/// The wall-kick shift of a piece whose anchor stands no further left than
/// three columns before the board, and no further right than its last column,
/// is at most three columns either way, and is to the right only where the
/// anchor stands left of the board.
pub proof fn lemma_kick_is_small(blocks: Seq<Coordination>, ox: int, cols: int)
    requires
        in_frame(blocks),
        cols >= 1,
        -3 <= ox < cols,
    ensures
        -3 <= kick(blocks, ox, cols) <= 3,
        ox >= 0 ==> kick(blocks, ox, cols) <= 0,
        ox + kick(blocks, ox, cols) >= -3,
    decreases blocks.len(),
{
    if blocks.len() > 0 {
        let rest = blocks.drop_last();
        assert forall|i: int| 0 <= i < rest.len() implies 0 <= (#[trigger] rest[i]).x <= 3 && 0
            <= rest[i].y <= 3 by {
            assert(rest[i] == blocks[i]);
        }
        lemma_kick_is_small(rest, ox, cols);
        assert(0 <= blocks[blocks.len() - 1].x <= 3);
    }
}

/// Filtering a single row keeps it exactly when it is not full.
proof fn lemma_filter_one(row: Seq<Cell>)
    ensures
        kept_rows(seq![row]) == if row_full(row) {
            Seq::<Seq<Cell>>::empty()
        } else {
            seq![row]
        },
{
    reveal_with_fuel(Seq::filter, 2);
    assert(seq![row].drop_last() =~= Seq::<Seq<Cell>>::empty());
    assert(seq![row].last() == row);
    assert(Seq::<Seq<Cell>>::empty().push(row) =~= seq![row]);
}

/// An empty board of at least one column has no full row.
proof fn lemma_empty_rows_survive(cols: nat, rows: nat)
    requires
        cols >= 1,
    ensures
        full_rows(empty_rows(cols, rows)) == 0,
    decreases rows,
{
    reveal(Seq::filter);
    if rows > 0 {
        lemma_empty_rows_survive(cols, (rows - 1) as nat);
        assert(empty_rows(cols, rows).drop_last() =~= empty_rows(cols, (rows - 1) as nat));
        assert(empty_rows(cols, rows).last() == empty_row(cols));
        assert(empty_row(cols)[0] == Cell::Empty);
        assert(!row_full(empty_row(cols)));
    }
}

/// Replacing one row makes at most one more row full.
proof fn lemma_update_adds_at_most_one_full_row(g: Seq<Seq<Cell>>, y: int, row: Seq<Cell>)
    requires
        0 <= y < g.len(),
    ensures
        full_rows(g.update(y, row)) <= full_rows(g) + 1,
{
    let head = g.subrange(0, y);
    let tail = g.subrange(y + 1, g.len() as int);
    assert(g =~= head + seq![g[y]] + tail);
    assert(g.update(y, row) =~= head + seq![row] + tail);
    Seq::filter_distributes_over_add(head, seq![g[y]], survives());
    Seq::filter_distributes_over_add(head + seq![g[y]], tail, survives());
    Seq::filter_distributes_over_add(head, seq![row], survives());
    Seq::filter_distributes_over_add(head + seq![row], tail, survives());
    lemma_filter_one(g[y]);
    lemma_filter_one(row);
}

/// Placing the first `i + 1` blocks is placing the first `i` and then marking
/// the cell under block `i`.
proof fn lemma_placed_one_more(
    g: Seq<Seq<Cell>>,
    blocks: Seq<Coordination>,
    offset: Coordination,
    i: int,
)
    requires
        0 <= i < blocks.len(),
    ensures
        forall|x: int, y: int|
            covers(blocks.take(i + 1), offset, x, y) <==> covers(blocks.take(i), offset, x, y) || (
            blocks[i].x + offset.x == x && blocks[i].y + offset.y == y),
{
    assert forall|x: int, y: int|
        covers(blocks.take(i + 1), offset, x, y) <==> covers(blocks.take(i), offset, x, y) || (
        blocks[i].x + offset.x == x && blocks[i].y + offset.y == y) by {
        let more = blocks.take(i + 1);
        let fewer = blocks.take(i);
        if covers(more, offset, x, y) {
            let k = choose|k: int|
                0 <= k < more.len() && (#[trigger] more[k]).x + offset.x == x && more[k].y
                    + offset.y == y;
            if k < i {
                assert(fewer[k] == more[k]);
            }
        }
        if covers(fewer, offset, x, y) {
            let k = choose|k: int|
                0 <= k < fewer.len() && (#[trigger] fewer[k]).x + offset.x == x && fewer[k].y
                    + offset.y == y;
            assert(more[k] == fewer[k]);
        }
        if blocks[i].x + offset.x == x && blocks[i].y + offset.y == y {
            assert(more[i] == blocks[i]);
        }
    }
}

/// After line clearing no row is full, provided a row has at least one cell.
pub proof fn lemma_compacted_has_no_full_row(g: Seq<Seq<Cell>>, cols: nat)
    requires
        cols >= 1,
    ensures
        full_rows(compacted(g, cols)) == 0,
        compacted(g, cols).len() == g.len(),
{
    let top = empty_rows(cols, full_rows(g));
    let kept = kept_rows(g);
    g.lemma_filter_len(survives());
    lemma_empty_rows_survive(cols, full_rows(g));
    Seq::filter_distributes_over_add(top, kept, survives());
    lemma_filter_twice(g);
}

/// Where no row is full, line clearing leaves the rows as they are.
proof fn lemma_all_rows_kept(g: Seq<Seq<Cell>>)
    requires
        full_rows(g) == 0,
    ensures
        kept_rows(g) == g,
    decreases g.len(),
{
    reveal(Seq::filter);
    if g.len() > 0 {
        g.drop_last().lemma_filter_len(survives());
        lemma_all_rows_kept(g.drop_last());
        assert(g.drop_last().push(g.last()) =~= g);
    }
}

/// On a board without a full row, clearing lines removes nothing and changes
/// nothing.
pub proof fn lemma_clearing_a_compact_board_changes_nothing(g: Seq<Seq<Cell>>, cols: nat)
    requires
        full_rows(g) == 0,
    ensures
        compacted(g, cols) == g,
{
    lemma_all_rows_kept(g);
    assert(empty_rows(cols, 0) + g =~= g);
}

/// Clearing lines a second time removes nothing and changes nothing.
pub proof fn lemma_clearing_twice_is_clearing_once(g: Seq<Seq<Cell>>, cols: nat)
    requires
        cols >= 1,
    ensures
        full_rows(compacted(g, cols)) == 0,
        compacted(compacted(g, cols), cols) == compacted(g, cols),
{
    lemma_compacted_has_no_full_row(g, cols);
    lemma_clearing_a_compact_board_changes_nothing(compacted(g, cols), cols);
}

/// Rows that survived line clearing survive it again.
proof fn lemma_filter_twice(g: Seq<Seq<Cell>>)
    ensures
        kept_rows(kept_rows(g)) == kept_rows(g),
    decreases g.len(),
{
    reveal(Seq::filter);
    if g.len() > 0 {
        lemma_filter_twice(g.drop_last());
        if !row_full(g.last()) {
            let k = kept_rows(g.drop_last());
            assert(k.push(g.last()).drop_last() =~= k);
        }
    }
}

} // verus!
