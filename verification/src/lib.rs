//! Geometry, coverage solving and move planning for a ring-shaped puzzle board.
//!
//! The board consists of four concentric rings cut into twelve slots. Rings can be
//! rotated and spokes can be pushed through the centre. The library decides whether
//! all enemies on a board can be eliminated by a limited number of attack areas and
//! searches for short move sequences which lead to such a board.
//!
//! * [`position`] holds the axes, the cells and the moves, [`num`] the raw values from which
//!   coordinates are made and [`notation`] the text form of moves.
//! * [`arena`] holds what stands on the board.
//! * [`solving`] searches the attack areas which cover all enemies of a board.
//! * [`planning`] searches the moves which lead to a board with such a coverage.
//! * [`soundness`] proves what both searches guarantee.
//! * [`command`] reads and carries out the commands of a command line, and [`drawing`] draws
//!   the board in characters. [`text`] holds what both need of characters, words and numbers.
//! * [`app_state`] and [`canvas`] hold plain data of an application which shows a board.

pub mod app_state;
pub mod arena;
pub mod canvas;
pub mod command;
pub mod drawing;
pub mod notation;
pub mod num;
pub mod planning;
pub mod position;
pub mod solving;
pub mod soundness;
pub mod text;
