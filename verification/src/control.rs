//! What the loop around the game decides: which action an input asks for,
//! what an action does to the game and to the notification that waits for the
//! renderer, when the piece falls by itself, and how the next piece is shown.
use vstd::prelude::*;
use crate::game::{acted, started, Action, Tetris};
use crate::input::{Input, JoystickState};
use crate::piece::{get_tetromino_blocks, shape, Rotation, Tetromino, TetrominoBlocks};
use crate::update::{merged, BoardUpdate, UpdateView, CAPACITY};

verus! {

/// The action that `input` asks for: the button drops the piece, the stick
/// moves it to the side it points to, pulls it down, or turns it when it
/// points to one of the top corners. A stick at rest asks for nothing.
pub open spec fn asked(input: Input) -> Option<Action> {
    match input {
        Input::JoystickButton => Some(Action::HardDrop),
        Input::Joystick(JoystickState::Center) => None,
        Input::Joystick(JoystickState::Down) => Some(Action::SoftDrop),
        Input::Joystick(JoystickState::Left) => Some(Action::MoveLeft),
        Input::Joystick(JoystickState::Right) => Some(Action::MoveRight),
        Input::Joystick(JoystickState::TopLeft) => Some(Action::Rotate),
        Input::Joystick(JoystickState::TopRight) => Some(Action::Rotate),
    }
}

/// The action that `input` asks for.
pub fn action_for(input: Input) -> (action: Option<Action>)
    ensures
        action == asked(input),
{
    match input {
        Input::JoystickButton => Some(Action::HardDrop),
        Input::Joystick(JoystickState::Center) => None,
        Input::Joystick(JoystickState::Down) => Some(Action::SoftDrop),
        Input::Joystick(JoystickState::Left) => Some(Action::MoveLeft),
        Input::Joystick(JoystickState::Right) => Some(Action::MoveRight),
        Input::Joystick(JoystickState::TopLeft) => Some(Action::Rotate),
        Input::Joystick(JoystickState::TopRight) => Some(Action::Rotate),
    }
}

/// Whether `action` starts a game: a hard drop does while no piece is
/// falling.
pub open spec fn starts_game(playing: bool, action: Action) -> bool {
    !playing && action == Action::HardDrop
}

/// Lets `action` work on the game and takes what has to be redrawn into
/// `pending`. A hard drop while no piece is falling starts a game and asks
/// for a full redraw. Returns whether the time until the piece falls by
/// itself starts anew: after a start and after a soft drop.
pub fn apply<const C: usize, const R: usize>(
    game: &mut Tetris<C, R>,
    pending: &mut BoardUpdate,
    action: Action,
) -> (restart_fall: bool)
    requires
        old(game).wf(),
        old(game).score_has_room(),
    ensures
        final(game).wf(),
        final(game).has_rng() == old(game).has_rng(),
        restart_fall == (starts_game(old(game)@.state is Playing, action) || action
            == Action::SoftDrop),
        starts_game(old(game)@.state is Playing, action) ==> {
            &&& started(old(game)@, old(game).has_rng(), final(game)@, C as nat, R as nat)
            &&& final(pending)@ == UpdateView::Full
        },
        !starts_game(old(game)@.state is Playing, action) ==> {
            let (after, update) = acted(
                old(game)@,
                action,
                final(game)@.state.upcoming(),
                C as nat,
            );
            &&& final(game)@ == after
            &&& final(pending)@ == merged(old(pending)@, update, CAPACITY as nat)
        },
        old(pending).wf() ==> final(pending).wf(),
{
    if !game.is_playing() && action == Action::HardDrop {
        game.start();
        *pending = BoardUpdate::Full;
        true
    } else {
        let board_update = game.act(action);
        pending.merge(board_update);
        action == Action::SoftDrop
    }
}

/// Whether the piece falls by itself `elapsed_millis` after it last went
/// down: while a piece is falling, once the drop time has passed.
pub open spec fn fall_due(playing: bool, elapsed_millis: Option<u64>) -> bool {
    playing && (elapsed_millis matches Some(millis) && millis >= 1000)
}

/// Lets the piece fall by one row where that is due, and takes what has to
/// be redrawn into `pending`. Returns whether the piece fell.
pub fn fall<const C: usize, const R: usize>(
    game: &mut Tetris<C, R>,
    pending: &mut BoardUpdate,
    elapsed_millis: Option<u64>,
) -> (fell: bool)
    requires
        old(game).wf(),
        old(game).score_has_room(),
    ensures
        final(game).wf(),
        final(game).has_rng() == old(game).has_rng(),
        fell == fall_due(old(game)@.state is Playing, elapsed_millis),
        fell ==> {
            let (after, update) = acted(
                old(game)@,
                Action::SoftDrop,
                final(game)@.state.upcoming(),
                C as nat,
            );
            &&& final(game)@ == after
            &&& final(pending)@ == merged(old(pending)@, update, CAPACITY as nat)
        },
        !fell ==> final(game)@ == old(game)@ && final(pending)@ == old(pending)@,
        old(pending).wf() ==> final(pending).wf(),
{
    if game.is_playing() {
        if let Some(millis) = elapsed_millis {
            if millis >= game.drop_speed() {
                let board_update = game.act(Action::SoftDrop);
                pending.merge(board_update);
                return true;
            }
        }
    }
    false
}

/// The rotation in which the piece to come is shown: the long pieces lie
/// on their side, the others stand as they enter.
pub open spec fn preview_rotation(piece: Tetromino) -> Rotation {
    match piece {
        Tetromino::I | Tetromino::L | Tetromino::J => Rotation::Left,
        _ => Rotation::Default,
    }
}

/// The blocks with which the piece to come is shown.
pub fn preview_blocks(piece: Tetromino) -> (blocks: TetrominoBlocks)
    ensures
        blocks@ == shape(piece, preview_rotation(piece)),
{
    let rotation = match piece {
        Tetromino::I | Tetromino::L | Tetromino::J => Rotation::Left,
        _ => Rotation::default(),
    };
    get_tetromino_blocks(piece, rotation)
}

} // verus!
