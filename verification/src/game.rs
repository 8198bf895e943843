//! The game: an active piece that the player moves over the board until it
//! lands, after which lines are cleared, the score grows and the next piece
//! enters.
use vstd::prelude::*;
use crate::board::{
    compacted,
    empty_rows,
    fits,
    full_rows,
    kick,
    kick_in_range,
    lemma_kick_is_small,
    on_grid,
    placed,
    well_shaped,
    Board,
};
use crate::piece::{
    distinct,
    get_tetromino_blocks,
    lemma_shape_is_four_distinct_blocks,
    shape,
    Cell,
    Coordination,
    Rotation,
    Tetromino,
    TetrominoBlocks,
};
use crate::queue::{full_bag, lemma_full_bag_holds_each_kind_once, TetrominoQueue};
use crate::update::{moved, BoardUpdate, UpdateView};

verus! {

/// What the player can ask for.
#[derive(Debug, Clone, Copy, PartialEq, Eq, Structural)]
pub enum Action {
    MoveLeft,
    MoveRight,
    SoftDrop,
    HardDrop,
    Rotate,
}

/// Where a game stands.
pub enum State {
    /// No game has been started yet.
    New,
    /// A piece is falling.
    Playing {
        piece: Tetromino,
        rotation: Rotation,
        offset: Coordination,
        queue: TetrominoQueue,
        score: u64,
    },
    /// The board was too full for the piece that came next.
    GameOver { score: u64 },
}

/// A state as the contracts see it: the bag is a sequence of pieces.
pub enum StateView {
    New,
    Playing {
        piece: Tetromino,
        rotation: Rotation,
        offset: Coordination,
        queue: Seq<Tetromino>,
        score: u64,
    },
    GameOver { score: u64 },
}

impl View for State {
    type V = StateView;

    open spec fn view(&self) -> StateView {
        match self {
            State::New => StateView::New,
            State::Playing { piece, rotation, offset, queue, score } => StateView::Playing {
                piece: *piece,
                rotation: *rotation,
                offset: *offset,
                queue: queue@,
                score: *score,
            },
            State::GameOver { score } => StateView::GameOver { score: *score },
        }
    }
}

/// A game as the contracts see it: the rows of the board and the state.
pub struct GameView {
    pub grid: Seq<Seq<Cell>>,
    pub state: StateView,
}

/// The position of `block` when its piece is anchored at `offset`.
pub open spec fn shifted(block: Coordination, offset: Coordination) -> Coordination {
    Coordination { x: (block.x + offset.x) as i16, y: (block.y + offset.y) as i16 }
}

/// The positions of `blocks` when their piece is anchored at `offset`.
pub open spec fn anchored(blocks: Seq<Coordination>, offset: Coordination) -> Seq<Coordination> {
    Seq::new(blocks.len(), |i: int| shifted(blocks[i], offset))
}

/// Where a piece enters a board of `cols` columns: in the middle of the top
/// row.
pub open spec fn spawn_offset(cols: nat) -> Coordination {
    Coordination { x: (cols / 2) as i16, y: 0 }
}

/// `offset` moved by `dx` columns and `dy` rows.
pub open spec fn nudged(offset: Coordination, dx: int, dy: int) -> Coordination {
    Coordination { x: (offset.x + dx) as i16, y: (offset.y + dy) as i16 }
}

impl StateView {
    /// The four cells of the active piece; four times the origin where no
    /// piece is active.
    pub open spec fn piece_blocks(self) -> Seq<Coordination> {
        match self {
            StateView::Playing { piece, rotation, offset, .. } => anchored(
                shape(piece, rotation),
                offset,
            ),
            _ => Seq::new(4, |i: int| Coordination { x: 0, y: 0 }),
        }
    }

    /// The score: lines cleared since the game was started; zero before the
    /// first start.
    pub open spec fn score(self) -> u64 {
        match self {
            StateView::Playing { score, .. } => score,
            StateView::GameOver { score } => score,
            StateView::New => 0,
        }
    }

    /// The pieces in the bag; none where no game is running.
    pub open spec fn upcoming(self) -> Seq<Tetromino> {
        match self {
            StateView::Playing { queue, .. } => queue,
            _ => Seq::empty(),
        }
    }
}

/// The state after `piece` has entered the board `grid`: it is active at the
/// spawn position if it fits there, and the game is over if it does not.
pub open spec fn spawned(
    grid: Seq<Seq<Cell>>,
    cols: nat,
    piece: Tetromino,
    queue: Seq<Tetromino>,
    score: u64,
) -> StateView {
    if fits(grid, shape(piece, Rotation::Default), spawn_offset(cols)) {
        StateView::Playing {
            piece,
            rotation: Rotation::Default,
            offset: spawn_offset(cols),
            queue,
            score,
        }
    } else {
        StateView::GameOver { score }
    }
}

/// The bag after a draw: one piece shorter, or `refill` when the draw took
/// the last piece.
pub open spec fn bag_after_draw(bag: Seq<Tetromino>, refill: Seq<Tetromino>) -> Seq<Tetromino> {
    if bag.len() > 1 {
        bag.drop_last()
    } else {
        refill
    }
}

/// The game after the next piece was drawn from the bag and has entered.
pub open spec fn respawned(game: GameView, refill: Seq<Tetromino>, cols: nat) -> GameView {
    match game.state {
        StateView::Playing { queue, score, .. } => GameView {
            grid: game.grid,
            state: spawned(game.grid, cols, queue.last(), bag_after_draw(queue, refill), score),
        },
        _ => game,
    }
}

/// The game and the notification after an attempt to bring the active piece
/// to `rotation` and `offset`: where the piece fits there it moves, and the
/// notification lists the cells it left and entered; where it does not, all
/// stays as it is.
pub open spec fn moved_to(game: GameView, rotation: Rotation, offset: Coordination) -> (
    GameView,
    UpdateView,
) {
    match game.state {
        StateView::Playing { piece, queue, score, .. } => {
            if fits(game.grid, shape(piece, rotation), offset) {
                let state = StateView::Playing { piece, rotation, offset, queue, score };
                (
                    GameView { grid: game.grid, state },
                    UpdateView::Partial(moved(game.state.piece_blocks(), state.piece_blocks())),
                )
            } else {
                (game, UpdateView::Nothing)
            }
        },
        _ => (game, UpdateView::Nothing),
    }
}

/// The game after the active piece has landed where it stands: its cells are
/// occupied, full lines are cleared and counted into the score, and the next
/// piece has entered.
pub open spec fn landed(game: GameView, refill: Seq<Tetromino>, cols: nat) -> GameView {
    match game.state {
        StateView::Playing { piece, rotation, offset, queue, score } => {
            let marked = placed(game.grid, shape(piece, rotation), offset);
            respawned(
                GameView {
                    grid: compacted(marked, cols),
                    state: StateView::Playing {
                        piece,
                        rotation,
                        offset,
                        queue,
                        score: (score + full_rows(marked)) as u64,
                    },
                },
                refill,
                cols,
            )
        },
        _ => game,
    }
}

/// The row in which a piece of shape `blocks` comes to rest when it falls
/// from `offset`: the first row from which it cannot move one row down.
pub open spec fn resting_row(
    grid: Seq<Seq<Cell>>,
    blocks: Seq<Coordination>,
    offset: Coordination,
) -> int
    decreases grid.len() - offset.y,
{
    if offset.y < grid.len() && offset.y < 0x7fff && fits(grid, blocks, nudged(offset, 0, 1)) {
        resting_row(grid, blocks, nudged(offset, 0, 1))
    } else {
        offset.y as int
    }
}

/// Whether `after` is what a request to start makes of the game `before`.
/// While a piece is falling, and without a source of randomness, nothing
/// happens. Otherwise the board is empty, the score is zero, and the first
/// piece of some fresh bag has entered: the game is on if that piece fits at
/// the spawn position, and over if it does not.
pub open spec fn started(
    before: GameView,
    had_rng: bool,
    after: GameView,
    cols: nat,
    rows: nat,
) -> bool {
    if before.state is Playing || !had_rng {
        after == before
    } else {
        &&& after.grid == empty_rows(cols, rows)
        &&& exists|bag: Seq<Tetromino>|
            #[trigger] full_bag(bag) && after.state == spawned(
                empty_rows(cols, rows),
                cols,
                bag.last(),
                bag.drop_last(),
                0,
            )
    }
}

/// The game and the notification after `action`. `refill` is the content of
/// the bag after it was filled again, for the case that the action draws the
/// last piece.
pub open spec fn acted(game: GameView, action: Action, refill: Seq<Tetromino>, cols: nat) -> (
    GameView,
    UpdateView,
) {
    match game.state {
        StateView::Playing { piece, rotation, offset, queue, score } => match action {
            Action::MoveLeft => moved_to(game, rotation, nudged(offset, -1, 0)),
            Action::MoveRight => moved_to(game, rotation, nudged(offset, 1, 0)),
            Action::SoftDrop => {
                if fits(game.grid, shape(piece, rotation), nudged(offset, 0, 1)) {
                    moved_to(game, rotation, nudged(offset, 0, 1))
                } else {
                    (landed(game, refill, cols), UpdateView::Full)
                }
            },
            Action::HardDrop => {
                let rest = Coordination {
                    x: offset.x,
                    y: resting_row(game.grid, shape(piece, rotation), offset) as i16,
                };
                let fallen = GameView {
                    grid: game.grid,
                    state: StateView::Playing { piece, rotation, offset: rest, queue, score },
                };
                (landed(fallen, refill, cols), UpdateView::Full)
            },
            Action::Rotate => {
                let blocks = shape(piece, rotation.turned());
                moved_to(
                    game,
                    rotation.turned(),
                    nudged(offset, kick(blocks, offset.x as int, cols as int), 0),
                )
            },
        },
        _ => (game, UpdateView::Nothing),
    }
}

/// A game: the board, the state, and the source of randomness that fills
/// the bag.
pub struct Tetris<const C: usize, const R: usize> {
    pub board: Board<C, R>,
    pub state: State,
    rng: Option<rand::rngs::SmallRng>,
}

impl<const C: usize, const R: usize> View for Tetris<C, R> {
    type V = GameView;

    closed spec fn view(&self) -> GameView {
        GameView { grid: self.board@, state: self.state@ }
    }
}

impl<const C: usize, const R: usize> Tetris<C, R> {
    /// Whether a source of randomness has been supplied.
    pub closed spec fn has_rng(&self) -> bool {
        self.rng is Some
    }

    /// A game that can go on: the board has no full row, and while a piece
    /// is falling it stands on free cells at or below the top row, the bag
    /// holds the piece to come, and there is randomness to fill it again.
    pub open spec fn wf(&self) -> bool {
        &&& Board::<C, R>::dims_ok()
        &&& full_rows(self@.grid) == 0
        &&& self@.state matches StateView::Playing { piece, rotation, offset, queue, score } ==> {
            &&& self.has_rng()
            &&& queue.len() >= 1
            &&& queue.no_duplicates()
            &&& offset.y >= 0
            &&& fits(self@.grid, shape(piece, rotation), offset)
        }
    }

    /// Whether the score can take the lines of one more landing.
    pub open spec fn score_has_room(&self) -> bool {
        self@.state matches StateView::Playing { score, .. } ==> score <= u64::MAX - 4
    }

    /// A game that has not been started, on an empty board and without a
    /// source of randomness.
    pub fn new() -> (game: Self)
        ensures
            game@.grid == empty_rows(C as nat, R as nat),
            game@.state == StateView::New,
            !game.has_rng(),
            Board::<C, R>::dims_ok() ==> game.wf(),
    {
        Tetris { board: Board::new(), state: State::New, rng: None }
    }

    /// Supplies the source of randomness.
    pub fn set_rng(&mut self, rng: rand::rngs::SmallRng)
        ensures
            final(self).has_rng(),
            final(self)@ == old(self)@,
            old(self).wf() ==> final(self).wf(),
    {
        self.rng = Some(rng);
    }

    /// Whether a piece is falling.
    pub fn is_playing(&self) -> (playing: bool)
        ensures
            playing == (self@.state is Playing),
    {
        match &self.state {
            State::Playing { .. } => true,
            _ => false,
        }
    }

    /// The time in milliseconds after which the piece falls by one row.
    #[inline]
    pub fn drop_speed(&self) -> (millis: u64)
        ensures
            millis == 1000,
    {
        1000
    }
}

fn shift(block: Coordination, offset: Coordination) -> (at: Coordination)
    requires
        -0x8000 <= block.x + offset.x <= 0x7fff,
        -0x8000 <= block.y + offset.y <= 0x7fff,
    ensures
        at == shifted(block, offset),
{
    Coordination { x: block.x + offset.x, y: block.y + offset.y }
}

/// A piece that fits with its anchor at or below the top row stands on the
/// board with all four blocks.
pub proof fn lemma_standing_piece_is_on_board(
    grid: Seq<Seq<Cell>>,
    cols: nat,
    rows: nat,
    piece: Tetromino,
    rotation: Rotation,
    offset: Coordination,
)
    requires
        well_shaped(grid, cols, rows),
        offset.y >= 0,
        fits(grid, shape(piece, rotation), offset),
    ensures
        forall|i: int|
            0 <= i < 4 ==> 0 <= (#[trigger] shape(piece, rotation)[i]).x + offset.x < cols && 0
                <= shape(piece, rotation)[i].y + offset.y < rows,
        on_grid(grid, shape(piece, rotation), offset),
        -3 <= offset.x < cols,
        0 <= offset.y < rows,
{
    lemma_shape_is_four_distinct_blocks(piece, rotation);
    let blocks = shape(piece, rotation);
    assert(0 <= blocks[0].x <= 3 && 0 <= blocks[0].y <= 3);
    assert forall|i: int| 0 <= i < 4 implies 0 <= (#[trigger] blocks[i]).x + offset.x < cols && 0
        <= blocks[i].y + offset.y < rows by {
        assert(0 <= blocks[i].y <= 3);
    }
}

/// The four cells of a piece that stands on the board are four different
/// cells.
pub proof fn lemma_piece_blocks_are_distinct(game: GameView, cols: nat, rows: nat)
    requires
        cols <= 0x7fff,
        rows <= 0x7fff,
        well_shaped(game.grid, cols, rows),
        game.state matches StateView::Playing { piece, rotation, offset, .. } && offset.y >= 0
            && fits(game.grid, shape(piece, rotation), offset),
    ensures
        game.state.piece_blocks().len() == 4,
        distinct(game.state.piece_blocks()),
{
    let piece = game.state->Playing_piece;
    let rotation = game.state->Playing_rotation;
    let offset = game.state->Playing_offset;
    let blocks = shape(piece, rotation);
    lemma_shape_is_four_distinct_blocks(piece, rotation);
    lemma_standing_piece_is_on_board(game.grid, cols, rows, piece, rotation, offset);
    let cells = game.state.piece_blocks();
    assert forall|i: int, j: int| 0 <= i < j < cells.len() implies cells[i] != cells[j] by {
        assert(blocks[i] != blocks[j]);
        assert(0 <= blocks[i].x + offset.x < cols);
        assert(0 <= blocks[j].x + offset.x < cols);
    }
}

/// A rotation brings the piece to the next rotation, at an offset where it
/// fits and all of it stands between the walls, or leaves the game as it is.
/// Either way no block of the piece is left outside the walls.
pub proof fn lemma_rotation_keeps_piece_between_walls(
    game: GameView,
    refill: Seq<Tetromino>,
    cols: nat,
    rows: nat,
)
    requires
        1 <= cols <= 0x7fff,
        1 <= rows <= 0x7fff,
        well_shaped(game.grid, cols, rows),
        game.state matches StateView::Playing { piece, rotation, offset, .. } && offset.y >= 0
            && fits(game.grid, shape(piece, rotation), offset),
    ensures
        ({
            let (after, update) = acted(game, Action::Rotate, refill, cols);
            &&& after.grid == game.grid
            &&& (after == game && update == UpdateView::Nothing) || ({
                &&& after.state matches StateView::Playing { piece, rotation, offset, .. }
                &&& piece == game.state->Playing_piece
                &&& rotation == game.state->Playing_rotation.turned()
                &&& offset.y == game.state->Playing_offset.y
                &&& fits(after.grid, shape(piece, rotation), offset)
            })
            &&& forall|i: int|
                0 <= i < 4 ==> 0 <= (#[trigger] after.state.piece_blocks()[i]).x < cols
        }),
{
    let piece = game.state->Playing_piece;
    let rotation = game.state->Playing_rotation;
    let offset = game.state->Playing_offset;
    let (after, update) = acted(game, Action::Rotate, refill, cols);
    lemma_standing_piece_is_on_board(game.grid, cols, rows, piece, rotation, offset);
    lemma_shape_is_four_distinct_blocks(piece, rotation);
    lemma_shape_is_four_distinct_blocks(piece, rotation.turned());
    lemma_kick_is_small(shape(piece, rotation.turned()), offset.x as int, cols as int);
    let turned_offset = nudged(
        offset,
        kick(shape(piece, rotation.turned()), offset.x as int, cols as int),
        0,
    );
    if fits(game.grid, shape(piece, rotation.turned()), turned_offset) {
        lemma_standing_piece_is_on_board(
            game.grid,
            cols,
            rows,
            piece,
            rotation.turned(),
            turned_offset,
        );
    }
}

/// On an empty board of at least five columns and four rows every piece fits
/// at the spawn position, so that a start there puts a piece into play.
pub proof fn lemma_every_piece_enters_an_empty_board(cols: nat, rows: nat, piece: Tetromino)
    requires
        5 <= cols <= 0x7fff,
        4 <= rows,
    ensures
        fits(empty_rows(cols, rows), shape(piece, Rotation::Default), spawn_offset(cols)),
{
    let blocks = shape(piece, Rotation::Default);
    lemma_shape_is_four_distinct_blocks(piece, Rotation::Default);
    assert forall|i: int| 0 <= i < blocks.len() implies 0 <= (#[trigger] blocks[i]).x <= 2 by {
        assert(blocks[0].x <= 2 && blocks[1].x <= 2 && blocks[2].x <= 2 && blocks[3].x <= 2);
    }
}

/// A piece that has fallen to its resting row stands there and cannot move
/// further down.
pub proof fn lemma_piece_rests_on_its_resting_row(
    grid: Seq<Seq<Cell>>,
    cols: nat,
    rows: nat,
    piece: Tetromino,
    rotation: Rotation,
    offset: Coordination,
)
    requires
        rows <= 0x7fff,
        well_shaped(grid, cols, rows),
        offset.y >= 0,
        fits(grid, shape(piece, rotation), offset),
    ensures
        ({
            let row = resting_row(grid, shape(piece, rotation), offset);
            &&& offset.y <= row < rows
            &&& fits(grid, shape(piece, rotation), Coordination { x: offset.x, y: row as i16 })
            &&& !fits(
                grid,
                shape(piece, rotation),
                nudged(Coordination { x: offset.x, y: row as i16 }, 0, 1),
            )
        }),
    decreases rows - offset.y,
{
    lemma_standing_piece_is_on_board(grid, cols, rows, piece, rotation, offset);
    let below = nudged(offset, 0, 1);
    if fits(grid, shape(piece, rotation), below) {
        lemma_standing_piece_is_on_board(grid, cols, rows, piece, rotation, below);
        lemma_piece_rests_on_its_resting_row(grid, cols, rows, piece, rotation, below);
    }
}

/// A hard drop does what a soft drop does to the piece at its resting row.
pub proof fn lemma_hard_drop_is_soft_drop_at_rest(
    game: GameView,
    refill: Seq<Tetromino>,
    cols: nat,
    rows: nat,
)
    requires
        rows <= 0x7fff,
        well_shaped(game.grid, cols, rows),
        game.state matches StateView::Playing { piece, rotation, offset, .. } && offset.y >= 0
            && fits(game.grid, shape(piece, rotation), offset),
    ensures
        ({
            let fallen = GameView {
                grid: game.grid,
                state: StateView::Playing {
                    piece: game.state->Playing_piece,
                    rotation: game.state->Playing_rotation,
                    offset: Coordination {
                        x: game.state->Playing_offset.x,
                        y: resting_row(
                            game.grid,
                            shape(game.state->Playing_piece, game.state->Playing_rotation),
                            game.state->Playing_offset,
                        ) as i16,
                    },
                    queue: game.state->Playing_queue,
                    score: game.state->Playing_score,
                },
            };
            acted(game, Action::HardDrop, refill, cols) == acted(
                fallen,
                Action::SoftDrop,
                refill,
                cols,
            )
        }),
{
    lemma_piece_rests_on_its_resting_row(
        game.grid,
        cols,
        rows,
        game.state->Playing_piece,
        game.state->Playing_rotation,
        game.state->Playing_offset,
    );
}

impl<const C: usize, const R: usize> Tetris<C, R> {
    /// Starts a game where none is running and a source of randomness has
    /// been supplied: the board is emptied, the bag is filled and shuffled,
    /// and the first piece enters.
    pub fn start(&mut self)
        requires
            old(self).wf(),
        ensures
            final(self).wf(),
            final(self).has_rng() == old(self).has_rng(),
            started(old(self)@, old(self).has_rng(), final(self)@, C as nat, R as nat),
    {
        if self.is_playing() {
            return ;
        }
        let mut queue = TetrominoQueue::new();
        match &mut self.rng {
            Some(rng) => {
                queue.init(rng);
            },
            None => {
                return ;
            },
        }
        self.board = Board::new();
        let ghost bag = queue@;
        self.state =
        State::Playing {
            piece: Tetromino::J,
            rotation: Rotation::Default,
            score: 0,
            offset: Coordination { x: 5, y: 0 },
            queue,
        };
        self.spawn_new_piece();
        proof {
            lemma_full_bag_holds_each_kind_once(bag);
            assert(full_bag(bag));
        }
    }

    /// The four cells on which the active piece stands; four times the
    /// origin where no piece is active.
    pub fn get_current_tetromino_position(&self) -> (blocks: TetrominoBlocks)
        requires
            self.wf(),
        ensures
            blocks@ == self@.state.piece_blocks(),
    {
        match &self.state {
            State::Playing { piece, rotation, offset, .. } => {
                let blocks = get_tetromino_blocks(*piece, *rotation);
                proof {
                    self.board.lemma_view_shape();
                    lemma_standing_piece_is_on_board(
                        self@.grid,
                        C as nat,
                        R as nat,
                        *piece,
                        *rotation,
                        *offset,
                    );
                    assert(blocks@[0] == shape(*piece, *rotation)[0]);
                    assert(blocks@[1] == shape(*piece, *rotation)[1]);
                    assert(blocks@[2] == shape(*piece, *rotation)[2]);
                    assert(blocks@[3] == shape(*piece, *rotation)[3]);
                }
                let at = [
                    shift(blocks[0], *offset),
                    shift(blocks[1], *offset),
                    shift(blocks[2], *offset),
                    shift(blocks[3], *offset),
                ];
                proof {
                    assert(at@ =~= anchored(shape(*piece, *rotation), *offset));
                }
                at
            },
            _ => {
                let origin = [
                    Coordination { x: 0, y: 0 },
                    Coordination { x: 0, y: 0 },
                    Coordination { x: 0, y: 0 },
                    Coordination { x: 0, y: 0 },
                ];
                proof {
                    assert(origin@ =~= self@.state.piece_blocks());
                }
                origin
            },
        }
    }

    /// Draws the next piece and lets it enter at the spawn position; the game
    /// is over where it does not fit there.
    fn spawn_new_piece(&mut self)
        requires
            Board::<C, R>::dims_ok(),
            full_rows(old(self)@.grid) == 0,
            old(self)@.state matches StateView::Playing { queue, .. } ==> old(self).has_rng()
                && queue.len() >= 1 && queue.no_duplicates(),
        ensures
            final(self)@ == respawned(old(self)@, final(self)@.state.upcoming(), C as nat),
            final(self).has_rng() == old(self).has_rng(),
            final(self).wf(),
    {
        let mut lost: Option<u64> = None;
        match (&mut self.state, &mut self.rng) {
            (State::Playing { piece, rotation, offset, queue, score }, Some(rng)) => {
                *rotation = Rotation::Default;
                *offset = Coordination { x: (C / 2) as i16, y: 0 };
                *piece = queue.next(rng);
                if !self.board.can_move_in(get_tetromino_blocks(*piece, *rotation), *offset) {
                    lost = Some(*score);
                }
            },
            _ => {},
        }
        if let Some(score) = lost {
            self.state = State::GameOver { score };
        }
    }

    /// Moves the active piece to `rotation` and `offset`, where it fits.
    fn commit(&mut self, rotation: Rotation, offset: Coordination) -> (update: BoardUpdate)
        requires
            old(self).wf(),
            offset.y >= 0,
            old(self)@.state matches StateView::Playing { piece, .. } && fits(
                old(self)@.grid,
                shape(piece, rotation),
                offset,
            ),
        ensures
            (final(self)@, update@) == moved_to(old(self)@, rotation, offset),
            final(self).wf(),
            final(self).has_rng() == old(self).has_rng(),
            update.wf(),
    {
        proof {
            self.board.lemma_view_shape();
            lemma_piece_blocks_are_distinct(self@, C as nat, R as nat);
        }
        let previous_blocks = self.get_current_tetromino_position();
        match &mut self.state {
            State::Playing { rotation: active_rotation, offset: active_offset, .. } => {
                *active_rotation = rotation;
                *active_offset = offset;
            },
            _ => {},
        }
        proof {
            self.board.lemma_view_shape();
            lemma_piece_blocks_are_distinct(self@, C as nat, R as nat);
        }
        BoardUpdate::get_partial_update(previous_blocks, self.get_current_tetromino_position())
    }

    /// Lands the active piece where it stands: places it, counts the cleared
    /// lines into the score, and lets the next piece enter.
    fn land(&mut self)
        requires
            old(self).wf(),
            old(self).score_has_room(),
            old(self)@.state is Playing,
        ensures
            final(self)@ == landed(old(self)@, final(self)@.state.upcoming(), C as nat),
            final(self).wf(),
            final(self).has_rng() == old(self).has_rng(),
            old(self)@.state.score() <= final(self)@.state.score() <= old(self)@.state.score() + 4,
    {
        match &mut self.state {
            State::Playing { piece, rotation, offset, score, .. } => {
                let blocks = get_tetromino_blocks(*piece, *rotation);
                proof {
                    self.board.lemma_view_shape();
                    lemma_standing_piece_is_on_board(
                        self.board@,
                        C as nat,
                        R as nat,
                        *piece,
                        *rotation,
                        *offset,
                    );
                }
                let cleared_lines = self.board.place(blocks, *offset);
                if cleared_lines > 0 {
                    *score += cleared_lines as u64;
                }
            },
            _ => {},
        }
        self.spawn_new_piece();
    }

    /// Carries out `action` on the active piece and says what has to be
    /// redrawn. Without an active piece nothing happens.
    pub fn act(&mut self, action: Action) -> (update: BoardUpdate)
        requires
            old(self).wf(),
            old(self).score_has_room(),
        ensures
            (final(self)@, update@) == acted(
                old(self)@,
                action,
                final(self)@.state.upcoming(),
                C as nat,
            ),
            final(self).wf(),
            final(self).has_rng() == old(self).has_rng(),
            update.wf(),
            old(self)@.state.score() <= final(self)@.state.score() <= old(self)@.state.score() + 4,
    {
        let (piece, rotation, offset) = match &self.state {
            State::Playing { piece, rotation, offset, .. } => (*piece, *rotation, *offset),
            _ => {
                return BoardUpdate::Nothing;
            },
        };
        proof {
            self.board.lemma_view_shape();
            lemma_standing_piece_is_on_board(
                self@.grid,
                C as nat,
                R as nat,
                piece,
                rotation,
                offset,
            );
        }
        match action {
            Action::MoveLeft => {
                let blocks = get_tetromino_blocks(piece, rotation);
                let new_offset = Coordination { x: offset.x - 1, y: offset.y };
                if self.board.can_move_in(blocks, new_offset) {
                    self.commit(rotation, new_offset)
                } else {
                    BoardUpdate::Nothing
                }
            },
            Action::MoveRight => {
                let blocks = get_tetromino_blocks(piece, rotation);
                let new_offset = Coordination { x: offset.x + 1, y: offset.y };
                if self.board.can_move_in(blocks, new_offset) {
                    self.commit(rotation, new_offset)
                } else {
                    BoardUpdate::Nothing
                }
            },
            Action::SoftDrop => {
                let blocks = get_tetromino_blocks(piece, rotation);
                let new_offset = Coordination { x: offset.x, y: offset.y + 1 };
                if self.board.can_move_in(blocks, new_offset) {
                    self.commit(rotation, new_offset)
                } else {
                    self.land();
                    BoardUpdate::Full
                }
            },
            Action::HardDrop => {
                let blocks = get_tetromino_blocks(piece, rotation);
                let mut rest = offset;
                let mut below = Coordination { x: offset.x, y: offset.y + 1 };
                while self.board.can_move_in(blocks, below)
                    invariant
                        well_shaped(self.board@, C as nat, R as nat),
                        Board::<C, R>::dims_ok(),
                        blocks@ == shape(piece, rotation),
                        0 <= rest.y < R,
                        rest.x == offset.x,
                        below == nudged(rest, 0, 1),
                        fits(self.board@, blocks@, rest),
                        resting_row(self.board@, blocks@, rest) == resting_row(
                            self.board@,
                            blocks@,
                            offset,
                        ),
                    decreases R - rest.y,
                {
                    rest = below;
                    proof {
                        lemma_standing_piece_is_on_board(
                            self.board@,
                            C as nat,
                            R as nat,
                            piece,
                            rotation,
                            rest,
                        );
                    }
                    below = Coordination { x: rest.x, y: rest.y + 1 };
                }
                match &mut self.state {
                    State::Playing { offset: active_offset, .. } => {
                        *active_offset = rest;
                    },
                    _ => {},
                }
                self.land();
                BoardUpdate::Full
            },
            Action::Rotate => {
                let new_rotation = rotation.next();
                let blocks = get_tetromino_blocks(piece, new_rotation);
                proof {
                    lemma_kick_is_small(blocks@, offset.x as int, C as int);
                    assert(kick_in_range(blocks@, offset, C as int)) by {
                        assert forall|i: int| 0 <= i < blocks@.len() implies 0 <= (
                        #[trigger] blocks@[i]).x <= 3 by {}
                    }
                }
                let shift = self.board.wall_bounce_offset_modifier(blocks, offset);
                let new_offset = Coordination { x: offset.x + shift, y: offset.y };
                if self.board.can_move_in(blocks, new_offset) {
                    self.commit(new_rotation, new_offset)
                } else {
                    BoardUpdate::Nothing
                }
            },
        }
    }
}

} // verus!
