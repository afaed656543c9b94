//! A small collection of things which stand on the board, at most one per cell.

use crate::position::{lemma_moved_injective, lemma_moved_stays_on_board, Move, Position};
use vstd::prelude::*;

verus! {

/// Something which stands on a cell of the board and can be put on another one.
pub trait Positioned: Sized {
    /// The cell on which this stands.
    spec fn spec_position(&self) -> Position;

    /// The same thing on another cell.
    spec fn spec_with_position(&self, position: Position) -> Self;

    /// The cell on which this stands.
    fn position(&self) -> (res: Position)
        ensures
            res == self.spec_position(),
    ;

    /// Puts this on another cell.
    fn set_position(&mut self, position: Position)
        ensures
            *final(self) == old(self).spec_with_position(position),
    ;

    /// What has been put on a cell stands on that cell.
    proof fn lemma_with_position(&self, position: Position)
        ensures
            self.spec_with_position(position).spec_position() == position,
    ;
}

/// Gives the character which stands for something in a drawing of the board.
pub trait ToArenaSymbol {
    /// The character which stands for this.
    spec fn spec_arena_symbol(&self) -> char;

    /// The character which stands for this.
    fn to_arena_symbol(&self) -> (res: char)
        ensures
            res == self.spec_arena_symbol(),
    ;
}

/// The index of the first of the entities from `from` on which stands on the given cell, or
/// the number of entities if none does.
pub open spec fn first_index_at<E: Positioned>(entities: Seq<E>, at: Position, from: int) -> int
    decreases entities.len() - from,
{
    if from >= entities.len() {
        entities.len() as int
    } else if entities[from].spec_position() == at {
        from
    } else {
        first_index_at(entities, at, from + 1)
    }
}

/// [`first_index_at`] gives the first entity on the cell.
pub proof fn lemma_first_index_at<E: Positioned>(entities: Seq<E>, at: Position, from: int)
    requires
        0 <= from <= entities.len(),
    ensures
        from <= first_index_at(entities, at, from) <= entities.len(),
        first_index_at(entities, at, from) < entities.len() ==> entities[first_index_at(
            entities,
            at,
            from,
        )].spec_position() == at,
        forall|i: int|
            from <= i < first_index_at(entities, at, from) ==> (
            #[trigger] entities[i]).spec_position() != at,
    decreases entities.len() - from,
{
    if from < entities.len() && entities[from].spec_position() != at {
        lemma_first_index_at(entities, at, from + 1);
    }
}

/// Every entity stands on a cell of the board, and no two stand on the same cell.
pub open spec fn well_placed<E: Positioned>(entities: Seq<E>) -> bool {
    &&& forall|i: int|
        0 <= i < entities.len() ==> (#[trigger] entities[i]).spec_position().wf()
    &&& forall|i: int, j: int|
        0 <= i < j < entities.len() ==> (#[trigger] entities[i]).spec_position() != (
        #[trigger] entities[j]).spec_position()
}

/// The entities which do not stand on the given cell.
pub open spec fn without<E: Positioned>(entities: Seq<E>, at: Position) -> Seq<E> {
    entities.filter(|entity: E| entity.spec_position() != at)
}

/// The entities, each moved as the move tells.
pub open spec fn all_moved<E: Positioned>(entities: Seq<E>, move_: Move) -> Seq<E> {
    Seq::new(
        entities.len(),
        |i: int| entities[i].spec_with_position(entities[i].spec_position().moved(move_)),
    )
}

/// An arena where something can stand.
#[derive(Debug, PartialEq, Eq, Hash)]
pub struct Arena<E> {
    pub enemies: Vec<E>,
}

impl<E> Default for Arena<E> {
    /// An arena on which nothing stands.
    fn default() -> (res: Self)
        ensures
            res.enemies@ == Seq::<E>::empty(),
    {
        Self { enemies: Vec::with_capacity(16) }
    }
}

impl<E: Copy> Clone for Arena<E> {
    fn clone(&self) -> (res: Self)
        ensures
            res.enemies@ == self.enemies@,
    {
        let mut enemies: Vec<E> = Vec::with_capacity(self.enemies.len());
        let mut i: usize = 0;
        while i < self.enemies.len()
            invariant
                i <= self.enemies@.len(),
                enemies@ == self.enemies@.take(i as int),
            decreases self.enemies@.len() - i,
        {
            enemies.push(self.enemies[i]);
            assert(enemies@ =~= self.enemies@.take(i + 1));
            i += 1;
        }
        assert(self.enemies@.take(self.enemies@.len() as int) =~= self.enemies@);
        Self { enemies }
    }
}

impl<E: Positioned> Arena<E> {
    /// Every entity stands on a cell of the board, and no two stand on the same cell.
    pub open spec fn wf(&self) -> bool {
        well_placed(self.enemies@)
    }

    /// The index of the entity on the given cell, or the number of entities if there is none.
    pub open spec fn spec_index_at(&self, at: Position) -> int {
        first_index_at(self.enemies@, at, 0)
    }

    /// Whether something stands on the given cell.
    pub open spec fn occupied(&self, at: Position) -> bool {
        self.spec_index_at(at) < self.enemies@.len()
    }

    /// The entity on the given cell.
    pub open spec fn spec_get_at(&self, at: Position) -> Option<E> {
        if self.occupied(at) {
            Some(self.enemies@[self.spec_index_at(at)])
        } else {
            None
        }
    }

    /// Finds the index of the entity on the given cell.
    fn index_at(&self, at: &Position) -> (res: usize)
        ensures
            res == self.spec_index_at(*at),
            res <= self.enemies@.len(),
    {
        let mut i: usize = 0;
        while i < self.enemies.len()
            invariant
                i <= self.enemies@.len(),
                first_index_at(self.enemies@, *at, 0) == first_index_at(self.enemies@, *at, i as int),
            decreases self.enemies@.len() - i,
        {
            let position = self.enemies[i].position();
            if position == *at {
                return i;
            }
            i += 1;
        }
        i
    }

    /// Puts the entity on its cell. What stood there before is replaced.
    pub fn add(&mut self, enemy: E)
        ensures
            final(self).enemies@ == if old(self).occupied(enemy.spec_position()) {
                old(self).enemies@.update(old(self).spec_index_at(enemy.spec_position()), enemy)
            } else {
                old(self).enemies@.push(enemy)
            },
            old(self).wf() && enemy.spec_position().wf() ==> final(self).wf(),
    {
        let at = enemy.position();
        let index = self.index_at(&at);
        proof {
            lemma_first_index_at(self.enemies@, at, 0);
        }
        if index < self.enemies.len() {
            self.enemies[index] = enemy;
        } else {
            self.enemies.push(enemy);
        }
    }

    /// Takes away what stands on the given cell.
    pub fn remove(&mut self, at: &Position)
        ensures
            final(self).enemies@ == without(old(self).enemies@, *at),
            old(self).wf() ==> final(self).wf(),
            !final(self).occupied(*at),
    {
        let ghost before = self.enemies@;
        let mut i: usize = 0;
        let ghost mut seen: int = 0;
        proof {
            reveal(Seq::filter);
            assert(before.take(0) =~= Seq::<E>::empty());
            assert(before.skip(0) =~= before);
        }
        while i < self.enemies.len()
            invariant
                0 <= seen <= before.len(),
                i == without(before.take(seen), *at).len(),
                self.enemies@ == without(before.take(seen), *at) + before.skip(seen),
                well_placed(before) ==> well_placed(self.enemies@),
                forall|j: int| 0 <= j < i ==> (#[trigger] self.enemies@[j]).spec_position() != *at,
            decreases before.len() - seen,
        {
            proof {
                reveal(Seq::filter);
                assert(before.take(seen + 1).drop_last() =~= before.take(seen));
                assert(before.take(seen + 1).last() == before[seen]);
                assert(self.enemies@[i as int] == before[seen]);
            }
            let position = self.enemies[i].position();
            if position == *at {
                self.enemies.remove(i);
                proof {
                    assert(self.enemies@ =~= without(before.take(seen + 1), *at) + before.skip(
                        seen + 1,
                    ));
                }
            } else {
                i += 1;
                proof {
                    assert(self.enemies@ =~= without(before.take(seen + 1), *at) + before.skip(
                        seen + 1,
                    ));
                }
            }
            proof {
                seen = seen + 1;
            }
        }
        proof {
            assert(before.take(seen) =~= before);
            assert(self.enemies@ =~= without(before, *at));
            lemma_first_index_at(self.enemies@, *at, 0);
        }
    }

    /// The entity on the given cell.
    pub fn get_at(&self, at: &Position) -> (res: Option<&E>)
        ensures
            res.is_some() == self.occupied(*at),
            res matches Some(enemy) ==> Some(*enemy) == self.spec_get_at(*at),
    {
        let index = self.index_at(at);
        if index < self.enemies.len() {
            Some(&self.enemies[index])
        } else {
            None
        }
    }

    /// The entity on the given cell, for changing it. The caller decides where the entity
    /// stands afterwards.
    pub fn get_at_mut(&mut self, at: &Position) -> (res: Option<&mut E>)
        ensures
            res.is_some() == old(self).occupied(*at),
            match res {
                Some(enemy) => {
                    &&& Some(*enemy) == old(self).spec_get_at(*at)
                    &&& final(self).enemies@ == old(self).enemies@.update(
                        old(self).spec_index_at(*at),
                        *final(enemy),
                    )
                },
                None => final(self).enemies@ == old(self).enemies@,
            },
    {
        let index = self.index_at(at);
        if index < self.enemies.len() {
            Some(&mut self.enemies[index])
        } else {
            None
        }
    }

    /// Moves every entity as the move tells.
    pub fn apply_move(&mut self, move_: Move)
        ensures
            final(self).enemies@ == all_moved(old(self).enemies@, move_),
            old(self).wf() && move_.wf() ==> final(self).wf(),
    {
        let ghost before = self.enemies@;
        let mut i: usize = 0;
        while i < self.enemies.len()
            invariant
                i <= before.len(),
                self.enemies@.len() == before.len(),
                forall|j: int| 0 <= j < i ==> #[trigger] self.enemies@[j] == all_moved(before, move_)[j],
                forall|j: int| i <= j < before.len() ==> #[trigger] self.enemies@[j] == before[j],
            decreases before.len() - i,
        {
            let mut position = self.enemies[i].position();
            position.apply_move(move_);
            self.enemies[i].set_position(position);
            i += 1;
        }
        proof {
            assert(self.enemies@ =~= all_moved(before, move_));
            if well_placed(before) && move_.wf() {
                lemma_all_moved_well_placed(before, move_);
            }
        }
    }
}

/// Moved entities stand on their own cells of the board again.
pub proof fn lemma_all_moved_well_placed<E: Positioned>(entities: Seq<E>, move_: Move)
    requires
        well_placed(entities),
        move_.wf(),
    ensures
        well_placed(all_moved(entities, move_)),
{
    let moved = all_moved(entities, move_);
    assert forall|i: int| 0 <= i < moved.len() implies (#[trigger] moved[i]).spec_position().wf() by {
        entities[i].lemma_with_position(entities[i].spec_position().moved(move_));
        lemma_moved_stays_on_board(entities[i].spec_position(), move_);
    }
    assert forall|i: int, j: int| 0 <= i < j < moved.len() implies (
    #[trigger] moved[i]).spec_position() != (#[trigger] moved[j]).spec_position() by {
        entities[i].lemma_with_position(entities[i].spec_position().moved(move_));
        entities[j].lemma_with_position(entities[j].spec_position().moved(move_));
        if entities[i].spec_position().moved(move_) == entities[j].spec_position().moved(move_) {
            lemma_moved_injective(entities[i].spec_position(), entities[j].spec_position(), move_);
        }
    }
}

} // verus!
