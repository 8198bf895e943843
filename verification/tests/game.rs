use rand::rngs::SmallRng;
use rand::SeedableRng;
use tetris::game::{Action, State, Tetris};
use tetris::piece::{get_tetromino_blocks, Cell, Coordination, Rotation, Tetromino};
use tetris::queue::TetrominoQueue;
use tetris::update::BoardUpdate;

type Game = Tetris<10, 20>;

fn at(x: i16, y: i16) -> Coordination {
    Coordination { x, y }
}

fn one(x: i16, y: i16) -> [Coordination; 4] {
    [at(x, y), at(x, y), at(x, y), at(x, y)]
}

fn list(entries: &[((i16, i16), Cell)]) -> BoardUpdate {
    let mut cells = heapless::Vec::new();
    for ((x, y), state) in entries {
        cells.push((at(*x, *y), *state)).unwrap();
    }
    BoardUpdate::Partial(cells)
}

fn fresh_bag(seed: u64) -> TetrominoQueue {
    let mut rng = SmallRng::seed_from_u64(seed);
    let mut queue = TetrominoQueue::new();
    queue.init(&mut rng);
    queue
}

/// A game in which `piece` is falling at `offset`.
fn game_with(piece: Tetromino, rotation: Rotation, offset: Coordination) -> Game {
    let mut game = Game::new();
    game.set_rng(SmallRng::seed_from_u64(11));
    game.state = State::Playing { piece, rotation, offset, queue: fresh_bag(5), score: 0 };
    game
}

fn active(game: &Game) -> (Tetromino, Rotation, Coordination, u64) {
    match &game.state {
        State::Playing { piece, rotation, offset, score, .. } => {
            (*piece, *rotation, *offset, *score)
        },
        _ => panic!("no piece is falling"),
    }
}

fn occupied(game: &Game) -> Vec<(i16, i16)> {
    let mut cells = Vec::new();
    let mut cursor = game.board.iter();
    while let Some(cell) = cursor.next() {
        cells.push((cell.x, cell.y));
    }
    cells
}

fn positions(game: &Game) -> [(i16, i16); 4] {
    let blocks = game.get_current_tetromino_position();
    [
        (blocks[0].x, blocks[0].y),
        (blocks[1].x, blocks[1].y),
        (blocks[2].x, blocks[2].y),
        (blocks[3].x, blocks[3].y),
    ]
}

#[test]
fn new_game_is_not_playing() {
    let game = Game::new();
    assert!(!game.is_playing());
    assert!(matches!(game.state, State::New));
    assert_eq!(occupied(&game), vec![]);
    assert_eq!(positions(&game), [(0, 0); 4]);
    assert_eq!(game.drop_speed(), 1000);
}

#[test]
fn start_without_randomness_does_nothing() {
    let mut game = Game::new();
    game.start();
    assert!(!game.is_playing());
    assert!(matches!(game.state, State::New));
}

#[test]
fn start_lets_the_first_piece_enter() {
    for seed in 0..30 {
        let mut game = Game::new();
        game.set_rng(SmallRng::seed_from_u64(seed));
        game.start();
        assert!(game.is_playing());
        let (piece, rotation, offset, score) = active(&game);
        assert_eq!(rotation, Rotation::Default);
        assert_eq!(offset, at(5, 0));
        assert_eq!(score, 0);
        assert_eq!(occupied(&game), vec![]);
        let shape = get_tetromino_blocks(piece, Rotation::Default);
        let blocks = game.get_current_tetromino_position();
        for i in 0..4 {
            assert_eq!(blocks[i], at(shape[i].x + 5, shape[i].y));
        }
    }
}

#[test]
fn start_draws_the_first_piece_of_a_fresh_bag() {
    let mut game = Game::new();
    game.set_rng(SmallRng::seed_from_u64(1));
    game.start();
    let mut rng = SmallRng::seed_from_u64(2);
    let mut kinds = vec![];
    match &mut game.state {
        State::Playing { piece, queue, .. } => {
            kinds.push(*piece);
            for _ in 0..6 {
                kinds.push(queue.next(&mut rng));
            }
        },
        _ => panic!("no piece is falling"),
    }
    for kind in [
        Tetromino::L,
        Tetromino::J,
        Tetromino::T,
        Tetromino::O,
        Tetromino::Z,
        Tetromino::S,
        Tetromino::I,
    ] {
        assert_eq!(kinds.iter().filter(|k| **k == kind).count(), 1);
    }
}

#[test]
fn start_while_playing_does_nothing() {
    let mut game = game_with(Tetromino::T, Rotation::Left, at(3, 7));
    assert_eq!(game.board.place(one(0, 19), at(0, 0)), 0);
    game.start();
    assert_eq!(active(&game), (Tetromino::T, Rotation::Left, at(3, 7), 0));
    assert_eq!(occupied(&game), vec![(0, 19)]);
}

#[test]
fn start_after_the_end_clears_board_and_score() {
    let mut game = Game::new();
    game.set_rng(SmallRng::seed_from_u64(4));
    assert_eq!(game.board.place(one(3, 19), at(0, 0)), 0);
    game.state = State::GameOver { score: 12 };
    game.start();
    assert!(game.is_playing());
    assert_eq!(active(&game).3, 0);
    assert_eq!(occupied(&game), vec![]);
}

#[test]
fn actions_without_a_falling_piece_do_nothing() {
    for action in [
        Action::MoveLeft,
        Action::MoveRight,
        Action::SoftDrop,
        Action::HardDrop,
        Action::Rotate,
    ] {
        let mut game = Game::new();
        game.set_rng(SmallRng::seed_from_u64(4));
        assert_eq!(game.act(action), BoardUpdate::Nothing);
        assert!(matches!(game.state, State::New));
        game.state = State::GameOver { score: 3 };
        assert_eq!(game.act(action), BoardUpdate::Nothing);
        assert!(matches!(game.state, State::GameOver { score: 3 }));
    }
}

#[test]
fn move_left_at_the_wall_changes_nothing() {
    let mut game = game_with(Tetromino::O, Rotation::Default, at(0, 4));
    let mut pending = BoardUpdate::Nothing;
    let update = game.act(Action::MoveLeft);
    assert_eq!(update, BoardUpdate::Nothing);
    pending.merge(update);
    assert_eq!(pending, BoardUpdate::Nothing);
    assert_eq!(active(&game), (Tetromino::O, Rotation::Default, at(0, 4), 0));
    assert_eq!(positions(&game), [(0, 4), (1, 4), (0, 5), (1, 5)]);
}

#[test]
fn move_left_after_start_stops_at_the_wall() {
    let mut game = Game::new();
    game.set_rng(SmallRng::seed_from_u64(8));
    game.start();
    let mut moves = 0;
    while game.act(Action::MoveLeft) != BoardUpdate::Nothing {
        moves += 1;
        assert!(moves <= 10);
    }
    let before = positions(&game);
    assert_eq!(before.iter().map(|p| p.0).min(), Some(0));
    let mut pending = BoardUpdate::Nothing;
    pending.merge(game.act(Action::MoveLeft));
    assert_eq!(pending, BoardUpdate::Nothing);
    assert_eq!(positions(&game), before);
}

#[test]
fn move_right_stops_at_the_wall() {
    let mut game = game_with(Tetromino::O, Rotation::Default, at(7, 0));
    assert_eq!(
        game.act(Action::MoveRight),
        list(&[
            ((7, 0), Cell::Empty),
            ((7, 1), Cell::Empty),
            ((9, 0), Cell::Occured),
            ((9, 1), Cell::Occured),
        ])
    );
    assert_eq!(active(&game).2, at(8, 0));
    assert_eq!(game.act(Action::MoveRight), BoardUpdate::Nothing);
    assert_eq!(active(&game).2, at(8, 0));
}

#[test]
fn move_left_lists_the_cells_left_and_entered() {
    let mut game = game_with(Tetromino::O, Rotation::Default, at(5, 0));
    assert_eq!(
        game.act(Action::MoveLeft),
        list(&[
            ((6, 0), Cell::Empty),
            ((6, 1), Cell::Empty),
            ((4, 0), Cell::Occured),
            ((4, 1), Cell::Occured),
        ])
    );
    assert_eq!(active(&game), (Tetromino::O, Rotation::Default, at(4, 0), 0));
}

#[test]
fn move_into_an_occupied_cell_changes_nothing() {
    let mut game = game_with(Tetromino::O, Rotation::Default, at(5, 10));
    assert_eq!(game.board.place(one(4, 11), at(0, 0)), 0);
    assert_eq!(game.act(Action::MoveLeft), BoardUpdate::Nothing);
    assert_eq!(active(&game).2, at(5, 10));
}

#[test]
fn soft_drop_moves_one_row_down() {
    let mut game = game_with(Tetromino::O, Rotation::Default, at(5, 0));
    assert_eq!(
        game.act(Action::SoftDrop),
        list(&[
            ((5, 0), Cell::Empty),
            ((6, 0), Cell::Empty),
            ((5, 2), Cell::Occured),
            ((6, 2), Cell::Occured),
        ])
    );
    assert_eq!(active(&game), (Tetromino::O, Rotation::Default, at(5, 1), 0));
    assert_eq!(occupied(&game), vec![]);
}

#[test]
fn soft_drop_on_the_floor_lands_the_piece() {
    let mut game = game_with(Tetromino::T, Rotation::Default, at(2, 18));
    let next = match &game.state {
        State::Playing { queue, .. } => queue.peek(),
        _ => panic!("no piece is falling"),
    };
    assert_eq!(game.act(Action::SoftDrop), BoardUpdate::Full);
    assert_eq!(occupied(&game), vec![(3, 18), (2, 19), (3, 19), (4, 19)]);
    assert_eq!(active(&game), (next, Rotation::Default, at(5, 0), 0));
}

#[test]
fn hard_drop_of_a_square_lands_in_the_bottom_rows() {
    let mut game = game_with(Tetromino::O, Rotation::Default, at(5, 0));
    let next = match &game.state {
        State::Playing { queue, .. } => queue.peek(),
        _ => panic!("no piece is falling"),
    };
    assert_eq!(game.act(Action::HardDrop), BoardUpdate::Full);
    assert_eq!(occupied(&game), vec![(5, 18), (6, 18), (5, 19), (6, 19)]);
    let (piece, rotation, offset, score) = active(&game);
    assert_eq!(piece, next);
    assert_eq!(rotation, Rotation::Default);
    assert_eq!(offset, at(5, 0));
    assert_eq!(score, 0);
}

#[test]
fn hard_drop_lands_on_what_lies_below() {
    let mut game = game_with(Tetromino::O, Rotation::Default, at(5, 0));
    assert_eq!(game.board.place(one(6, 12), at(0, 0)), 0);
    assert_eq!(game.act(Action::HardDrop), BoardUpdate::Full);
    assert_eq!(occupied(&game), vec![(5, 10), (6, 10), (5, 11), (6, 11), (6, 12)]);
}

#[test]
fn hard_drop_of_a_resting_piece_lands_it_where_it_is() {
    let mut game = game_with(Tetromino::O, Rotation::Default, at(0, 18));
    assert_eq!(game.act(Action::HardDrop), BoardUpdate::Full);
    assert_eq!(occupied(&game), vec![(0, 18), (1, 18), (0, 19), (1, 19)]);
}

#[test]
fn filling_the_last_cell_of_the_bottom_row_scores_one() {
    let mut game = game_with(Tetromino::I, Rotation::Default, at(8, 0));
    for x in 0..9 {
        assert_eq!(game.board.place(one(x, 19), at(0, 0)), 0);
    }
    assert_eq!(game.act(Action::HardDrop), BoardUpdate::Full);
    let (_, rotation, offset, score) = active(&game);
    assert_eq!(score, 1);
    assert_eq!(rotation, Rotation::Default);
    assert_eq!(offset, at(5, 0));
    // the rest of the bar has moved down by one row
    assert_eq!(occupied(&game), vec![(9, 17), (9, 18), (9, 19)]);
}

#[test]
fn four_rows_at_once_score_four() {
    let mut game = game_with(Tetromino::I, Rotation::Default, at(8, 3));
    if let State::Playing { score, .. } = &mut game.state {
        *score = 10;
    }
    for y in 16..20 {
        for x in 0..9 {
            assert_eq!(game.board.place(one(x, y), at(0, 0)), 0);
        }
    }
    assert_eq!(game.act(Action::SoftDrop), game_move(8, 3));
    assert_eq!(game.act(Action::HardDrop), BoardUpdate::Full);
    assert_eq!(active(&game).3, 14);
    assert_eq!(occupied(&game), vec![]);
}

fn game_move(x: i16, y: i16) -> BoardUpdate {
    // a standing bar that goes down by one row leaves its top cell and
    // enters the cell below its foot
    list(&[((x + 1, y), Cell::Empty), ((x + 1, y + 4), Cell::Occured)])
}

#[test]
fn landing_without_a_full_row_leaves_the_score() {
    let mut game = game_with(Tetromino::L, Rotation::Default, at(0, 0));
    if let State::Playing { score, .. } = &mut game.state {
        *score = 7;
    }
    assert_eq!(game.act(Action::HardDrop), BoardUpdate::Full);
    assert_eq!(active(&game).3, 7);
    assert_eq!(occupied(&game), vec![(1, 17), (1, 18), (0, 19), (1, 19)]);
}

#[test]
fn rotation_goes_through_the_four_rotations() {
    let mut game = game_with(Tetromino::T, Rotation::Default, at(4, 4));
    for expected in [Rotation::Left, Rotation::Flipped, Rotation::Right, Rotation::Default] {
        let update = game.act(Action::Rotate);
        assert!(matches!(update, BoardUpdate::Partial(_)));
        assert_eq!(active(&game), (Tetromino::T, expected, at(4, 4), 0));
    }
}

#[test]
fn rotation_lists_the_cells_left_and_entered() {
    let mut game = game_with(Tetromino::T, Rotation::Default, at(4, 4));
    // from (5,4) (4,5) (5,5) (6,5) to (6,5) (5,4) (5,5) (5,6)
    assert_eq!(
        game.act(Action::Rotate),
        list(&[((4, 5), Cell::Empty), ((5, 6), Cell::Occured)])
    );
}

#[test]
fn rotation_at_the_left_wall_is_kicked_back_inside() {
    // a standing bar in column 0
    let mut game = game_with(Tetromino::I, Rotation::Default, at(-1, 5));
    assert_eq!(positions(&game), [(0, 5), (0, 6), (0, 7), (0, 8)]);
    let update = game.act(Action::Rotate);
    assert_eq!(active(&game), (Tetromino::I, Rotation::Left, at(0, 5), 0));
    assert_eq!(positions(&game), [(0, 6), (1, 6), (2, 6), (3, 6)]);
    assert_eq!(
        update,
        list(&[
            ((0, 5), Cell::Empty),
            ((0, 7), Cell::Empty),
            ((0, 8), Cell::Empty),
            ((1, 6), Cell::Occured),
            ((2, 6), Cell::Occured),
            ((3, 6), Cell::Occured),
        ])
    );
}

#[test]
fn rotation_at_the_right_wall_is_kicked_back_inside() {
    // a standing bar in column 9
    let mut game = game_with(Tetromino::I, Rotation::Default, at(8, 5));
    assert!(matches!(game.act(Action::Rotate), BoardUpdate::Partial(_)));
    assert_eq!(active(&game), (Tetromino::I, Rotation::Left, at(6, 5), 0));
    assert_eq!(positions(&game), [(6, 6), (7, 6), (8, 6), (9, 6)]);
}

#[test]
fn rotation_that_does_not_fit_after_the_kick_changes_nothing() {
    let mut game = game_with(Tetromino::I, Rotation::Default, at(-1, 5));
    assert_eq!(game.board.place(one(2, 6), at(0, 0)), 0);
    assert_eq!(game.act(Action::Rotate), BoardUpdate::Nothing);
    assert_eq!(active(&game), (Tetromino::I, Rotation::Default, at(-1, 5), 0));
    assert_eq!(positions(&game), [(0, 5), (0, 6), (0, 7), (0, 8)]);
}

#[test]
fn rotation_is_not_kicked_up_from_the_floor() {
    // a lying bar in the bottom row cannot stand up
    let mut game = game_with(Tetromino::I, Rotation::Left, at(3, 18));
    assert_eq!(game.act(Action::Rotate), BoardUpdate::Nothing);
    assert_eq!(active(&game), (Tetromino::I, Rotation::Left, at(3, 18), 0));
}

#[test]
fn piece_never_stands_outside_the_walls_after_a_rotation() {
    for piece in [
        Tetromino::L,
        Tetromino::J,
        Tetromino::T,
        Tetromino::O,
        Tetromino::Z,
        Tetromino::S,
        Tetromino::I,
    ] {
        for rotation in [Rotation::Default, Rotation::Left, Rotation::Flipped, Rotation::Right] {
            for x in -3..10 {
                let mut game = game_with(piece, rotation, at(x, 8));
                let shape = get_tetromino_blocks(piece, rotation);
                if !game.board.can_move_in(shape, at(x, 8)) {
                    continue;
                }
                let before = active(&game);
                let update = game.act(Action::Rotate);
                if update == BoardUpdate::Nothing {
                    assert_eq!(active(&game), before);
                } else {
                    assert_eq!(active(&game).1, rotation.next());
                }
                for (column, _) in positions(&game) {
                    assert!((0..10).contains(&column));
                }
            }
        }
    }
}

#[test]
fn game_is_over_when_the_next_piece_does_not_fit() {
    let mut game = game_with(Tetromino::O, Rotation::Default, at(0, 18));
    if let State::Playing { score, .. } = &mut game.state {
        *score = 9;
    }
    let square = get_tetromino_blocks(Tetromino::O, Rotation::Default);
    assert_eq!(game.board.place(square, at(5, 0)), 0);
    assert_eq!(game.act(Action::SoftDrop), BoardUpdate::Full);
    assert!(!game.is_playing());
    assert!(matches!(game.state, State::GameOver { score: 9 }));
    assert_eq!(game.act(Action::MoveLeft), BoardUpdate::Nothing);
    assert_eq!(positions(&game), [(0, 0); 4]);
}

#[test]
fn pieces_keep_coming_until_the_board_is_full() {
    let mut game = Game::new();
    game.set_rng(SmallRng::seed_from_u64(21));
    game.start();
    let mut landings = 0;
    while game.is_playing() {
        assert_eq!(game.act(Action::HardDrop), BoardUpdate::Full);
        landings += 1;
        assert!(landings <= 200);
    }
    assert!(landings >= 5);
    assert!(matches!(game.state, State::GameOver { .. }));
}

#[test]
fn narrow_board_ends_the_game_at_once() {
    let mut game = Tetris::<1, 20>::new();
    game.set_rng(SmallRng::seed_from_u64(0));
    game.start();
    assert!(matches!(game.state, State::GameOver { score: 0 }));
}
