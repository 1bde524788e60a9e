//! A crossword player's core: a decoder for `.puz` puzzle files, the grid
//! with its derived clue numbers, the cursor and mode state machine, and the
//! progress counts that decide when a puzzle is solved.

pub mod charset;
pub mod clock;
pub mod encode;
pub mod game;
pub mod grid;
pub mod keys;
pub mod puzfile;
pub mod render;
pub mod wire;
