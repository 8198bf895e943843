//! Rules engine of a falling-block puzzle game for small fixed-size displays:
//! the playing grid, the seven pieces and their rotations, collision and
//! wall-kick resolution, line clearing, the piece bag, score keeping, and the
//! change notifications that tell a renderer what to redraw. Beside it stand
//! the small decisions of the console around the game: reading the joystick,
//! the theme tune, and where things are drawn.
//!
//! Every function carries a contract over mathematical models of the data
//! (sequences of rows, sequences of pieces), and Verus proves the contracts.
//! What is taken on trust from outside crates stands in [`trusted`].
pub mod bgm;
pub mod board;
pub mod control;
pub mod game;
pub mod input;
pub mod layout;
pub mod piece;
pub mod queue;
pub mod trusted;
pub mod update;

pub use board::{Board, BoardIter};
pub use game::{Action, State, Tetris};
pub use input::{Input, Joystick, JoystickState};
pub use piece::{get_tetromino_blocks, Cell, Coordination, Rotation, Tetromino, TetrominoBlocks};
pub use queue::TetrominoQueue;
pub use update::BoardUpdate;
