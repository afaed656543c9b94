//! The state of an application which shows a board and the moves which solve it.

use crate::arena::{all_moved, first_index_at, lemma_first_index_at, Arena, Positioned};
use crate::position::{Move, Num, Position};
use crate::solving::SolvableArena;
use vstd::prelude::*;

verus! {

/// The colour of a tile of the ground.
#[derive(Debug, Copy, Clone, PartialEq, Eq, Structural, Hash)]
pub enum TileColor {
    Light,
    Dark,
}

/// A tile of the ground on which the enemies stand. The tiles move with the rings and the
/// spokes.
#[derive(Debug, Copy, Clone, PartialEq, Eq, Structural, Hash)]
pub struct Tile {
    pub position: Position,
    pub color: TileColor,
}

impl Positioned for Tile {
    open spec fn spec_position(&self) -> Position {
        self.position
    }

    open spec fn spec_with_position(&self, position: Position) -> Self {
        Tile { position, color: self.color }
    }

    fn position(&self) -> (res: Position) {
        self.position
    }

    fn set_position(&mut self, position: Position) {
        self.position = position;
    }

    proof fn lemma_with_position(&self, position: Position) {
    }
}

/// Moves which solve a board, and how many of them have been made already.
#[derive(Debug)]
pub struct Solution {
    pub moves: Vec<Move>,
    pub executed_moves: usize,
}

/// What happens to an application from outside.
#[derive(Debug)]
pub enum AppEvent {
    /// Is sent every 50ms (20 tps).
    AnimationTick,
}

/// Holds the current data of the app which should outlive different render and animation
/// states.
#[derive(Debug)]
pub struct AppState {
    pub arena: SolvableArena,
    pub arena_ground: Arena<Tile>,
    pub number_of_turns: Num,
    pub current_solution: Option<Solution>,
    pub height: i32,
}

/// The colour of the tile which lies on the cell at first: the colours alternate along the
/// rings and along the spokes.
pub open spec fn spec_tile_color(position: Position) -> TileColor {
    if (position.column % 2 == 0) != (position.row % 2 == 0) {
        TileColor::Light
    } else {
        TileColor::Dark
    }
}

/// The tile which lies on the cell at first.
pub open spec fn spec_tile(position: Position) -> Tile {
    Tile { position, color: spec_tile_color(position) }
}

/// The tiles of the ground at first: slot by slot, in each slot from the innermost ring to
/// the outermost.
pub open spec fn spec_ground() -> Seq<Tile> {
    Seq::new(48, |index: int| spec_tile(Position { row: (index % 4) as Num, column: (index / 4) as Num }))
}

/// The ground at first.
fn ground() -> (res: Arena<Tile>)
    ensures
        res.enemies@ == spec_ground(),
        res.wf(),
{
    let mut arena_ground: Arena<Tile> = Arena::default();
    let mut column: Num = 0;
    while column < 12
        invariant
            column <= 12,
            arena_ground.enemies@.len() == column * 4,
            forall|i: int| 0 <= i < column * 4 ==> arena_ground.enemies@[i] == spec_ground()[i],
        decreases 12 - column,
    {
        let mut row: Num = 0;
        while row < 4
            invariant
                column < 12,
                row <= 4,
                arena_ground.enemies@.len() == column * 4 + row,
                forall|i: int|
                    0 <= i < column * 4 + row ==> arena_ground.enemies@[i] == spec_ground()[i],
            decreases 4 - row,
        {
            let position = Position { row, column };
            let ghost before = arena_ground.enemies@;
            proof {
                lemma_first_index_at(before, position, 0);
                let index = first_index_at(before, position, 0);
                if index < before.len() {
                    assert(before[index] == spec_ground()[index]);
                }
            }
            arena_ground.add(
                Tile {
                    position,
                    color: if (column % 2 == 0) ^ (row % 2 == 0) {
                        TileColor::Light
                    } else {
                        TileColor::Dark
                    },
                },
            );
            row += 1;
        }
        column += 1;
    }
    assert(arena_ground.enemies@ =~= spec_ground());
    arena_ground
}

impl Default for AppState {
    /// An empty board on its ground, with two turns to solve it.
    fn default() -> (res: Self)
        ensures
            res.arena@ == (SolvableArena::default_view()),
            res.arena_ground.enemies@ == spec_ground(),
            res.arena_ground.wf(),
            res.number_of_turns == 2,
            res.current_solution is None,
            res.height == 0,
    {
        Self {
            arena: SolvableArena::default(),
            arena_ground: ground(),
            number_of_turns: 2,
            current_solution: None,
            height: 0,
        }
    }
}

impl AppState {
    /// Moves the enemies and the tiles of the ground as the move tells.
    pub fn apply_move(&mut self, move_: Move)
        ensures
            final(self).arena@ == old(self).arena@.moved(move_),
            final(self).arena_ground.enemies@ == all_moved(old(self).arena_ground.enemies@, move_),
            final(self).number_of_turns == old(self).number_of_turns,
            final(self).current_solution == old(self).current_solution,
            final(self).height == old(self).height,
            old(self).arena.inner.wf() && move_.wf() ==> final(self).arena.inner.wf(),
            old(self).arena_ground.wf() && move_.wf() ==> final(self).arena_ground.wf(),
    {
        self.arena.apply_move(move_);
        self.arena_ground.apply_move(move_);
    }
}

} // verus!
