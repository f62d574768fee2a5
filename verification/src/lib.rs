//! A falling-block puzzle engine: the board, the pieces with their rotation
//! system, the placement rules, line clearing and the tick state machine.
//!
//! - [`color`]: the colours that cells carry.
//! - [`piece`]: the seven kinds of piece, their orientations and cells.
//! - [`grid`]: the board as a mathematical value, which the contracts of
//!   the executable board speak of.
//! - [`gamefield`]: the executable board.
//! - [`clearing`]: taking out full rows once a piece has locked.
//! - [`placement`]: what holds of a piece that is put on a board.
//! - [`manager`]: the game, which moves, locks and replaces the piece.
//! - [`rng`]: the generator that pieces are drawn from.
//!
//! Drawing, the window and the keyboard are not part of the engine.

pub mod clearing;
pub mod color;
pub mod gamefield;
pub mod grid;
pub mod manager;
pub mod piece;
pub mod placement;
pub mod rng;
