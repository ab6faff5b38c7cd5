//! Rules engine and game-state model for Connect Four: the board with
//! gravity drops and four-in-a-row detection, whose turn it is, the move
//! history, the snapshot that is saved and loaded, and the decisions of the
//! main menu.

pub mod disk;
pub mod board;
pub mod session;
pub mod menu;
