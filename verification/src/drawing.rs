//! A drawing of the board in characters. The spokes of the slots twelve, one, six and seven
//! stand upright, those of the slots three, four, nine and ten lie flat, and the other four
//! run diagonally.

use crate::arena::{Arena, Positioned, ToArenaSymbol};
use crate::position::{Num, Position};
use crate::text::{push_decimal, push_text, spec_decimal, text_of};
use vstd::prelude::*;

verus! {

/// The given number of blanks.
pub open spec fn spec_spaces(count: nat) -> Seq<char> {
    Seq::new(count, |i: int| ' ')
}

/// Appends blanks.
fn push_spaces(chars: &mut Vec<char>, count: usize)
    ensures
        final(chars)@ == old(chars)@ + spec_spaces(count as nat),
{
    let mut index: usize = 0;
    assert(chars@ =~= old(chars)@ + spec_spaces(0));
    while index < count
        invariant
            index <= count,
            chars@ == old(chars)@ + spec_spaces(index as nat),
        decreases count - index,
    {
        chars.push(' ');
        assert(chars@ =~= old(chars)@ + spec_spaces((index + 1) as nat));
        index += 1;
    }
}

/// The character which is drawn for a cell: that of what stands on the cell, or a dot.
pub open spec fn spec_symbol_at<E: Positioned + ToArenaSymbol>(
    arena: Arena<E>,
    row: Num,
    column: Num,
) -> char {
    match arena.spec_get_at(Position { row, column }) {
        Some(entity) => entity.spec_arena_symbol(),
        None => '.',
    }
}

/// A line with the cells of one ring in four upright and diagonal spokes: the two outer ones
/// stand the wider apart the further out the ring lies.
pub open spec fn spec_spoke_line<E: Positioned + ToArenaSymbol>(
    arena: Arena<E>,
    row: Num,
    columns: (Num, Num, Num, Num),
) -> Seq<char> {
    spec_spaces((8 - 2 * row) as nat) + seq![spec_symbol_at(arena, row, columns.0)] + spec_spaces(
        (1 + 2 * row) as nat,
    ) + seq![spec_symbol_at(arena, row, columns.1), ' ', spec_symbol_at(arena, row, columns.2)]
        + spec_spaces((1 + 2 * row) as nat) + seq![spec_symbol_at(arena, row, columns.3)]
        + spec_spaces((6 - 2 * row) as nat)
}

/// A line with the cells of two flat spokes, the left one from its outer end to the centre
/// and the right one from the centre to its outer end.
pub open spec fn spec_flat_line<E: Positioned + ToArenaSymbol>(
    arena: Arena<E>,
    left: Num,
    right: Num,
) -> Seq<char> {
    seq![
        spec_symbol_at(arena, 3, left),
        ' ',
        spec_symbol_at(arena, 2, left),
        ' ',
        spec_symbol_at(arena, 1, left),
        ' ',
        spec_symbol_at(arena, 0, left),
    ] + spec_spaces(9) + seq![
        spec_symbol_at(arena, 0, right),
        ' ',
        spec_symbol_at(arena, 1, right),
        ' ',
        spec_symbol_at(arena, 2, right),
        ' ',
        spec_symbol_at(arena, 3, right),
    ]
}

/// The drawing of the board: ten lines, of which the first one also tells how many things
/// stand on the board.
pub open spec fn spec_drawing<E: Positioned + ToArenaSymbol>(arena: Arena<E>) -> Seq<char> {
    let upper = (10u8, 11u8, 0u8, 1u8);
    let lower = (7u8, 6u8, 5u8, 4u8);
    spec_spoke_line(arena, 3, upper) + "  ("@ + spec_decimal(arena.enemies@.len()) + " enemies)\n"@
        + spec_spoke_line(arena, 2, upper) + "\n"@ + spec_spoke_line(arena, 1, upper) + "\n"@
        + spec_spoke_line(arena, 0, upper) + "\n"@ + spec_flat_line(arena, 9, 2) + "\n"@
        + spec_flat_line(arena, 8, 3) + "\n"@ + spec_spoke_line(arena, 0, lower) + "\n"@
        + spec_spoke_line(arena, 1, lower) + "\n"@ + spec_spoke_line(arena, 2, lower) + "\n"@
        + spec_spoke_line(arena, 3, lower)
}

impl<E: Positioned + ToArenaSymbol> Arena<E> {
    /// The character which is drawn for a cell.
    fn symbol_at(&self, row: Num, column: Num) -> (res: char)
        ensures
            res == spec_symbol_at(*self, row, column),
    {
        match self.get_at(&Position { row, column }) {
            Some(entity) => entity.to_arena_symbol(),
            None => '.',
        }
    }

    /// Appends a line with the cells of one ring in four upright and diagonal spokes.
    fn push_spoke_line(&self, chars: &mut Vec<char>, row: Num, columns: (Num, Num, Num, Num))
        requires
            row < 4,
        ensures
            final(chars)@ == old(chars)@ + spec_spoke_line(*self, row, columns),
    {
        let gap: usize = 1 + 2 * row as usize;
        push_spaces(chars, 8 - 2 * row as usize);
        chars.push(self.symbol_at(row, columns.0));
        push_spaces(chars, gap);
        chars.push(self.symbol_at(row, columns.1));
        chars.push(' ');
        chars.push(self.symbol_at(row, columns.2));
        push_spaces(chars, gap);
        chars.push(self.symbol_at(row, columns.3));
        push_spaces(chars, 6 - 2 * row as usize);
        assert(chars@ =~= old(chars)@ + spec_spoke_line(*self, row, columns));
    }

    /// Appends a line with the cells of two flat spokes.
    fn push_flat_line(&self, chars: &mut Vec<char>, left: Num, right: Num)
        ensures
            final(chars)@ == old(chars)@ + spec_flat_line(*self, left, right),
    {
        chars.push(self.symbol_at(3, left));
        chars.push(' ');
        chars.push(self.symbol_at(2, left));
        chars.push(' ');
        chars.push(self.symbol_at(1, left));
        chars.push(' ');
        chars.push(self.symbol_at(0, left));
        push_spaces(chars, 9);
        chars.push(self.symbol_at(0, right));
        chars.push(' ');
        chars.push(self.symbol_at(1, right));
        chars.push(' ');
        chars.push(self.symbol_at(2, right));
        chars.push(' ');
        chars.push(self.symbol_at(3, right));
        assert(chars@ =~= old(chars)@ + spec_flat_line(*self, left, right));
    }

    /// Draws the board in characters.
    pub fn to_string(&self) -> (res: String)
        ensures
            res@ == spec_drawing(*self),
    {
        let upper: (Num, Num, Num, Num) = (10, 11, 0, 1);
        let lower: (Num, Num, Num, Num) = (7, 6, 5, 4);
        let mut chars: Vec<char> = Vec::new();
        self.push_spoke_line(&mut chars, 3, upper);
        push_text(&mut chars, "  (");
        push_decimal(&mut chars, self.enemies.len() as u64);
        push_text(&mut chars, " enemies)\n");
        self.push_spoke_line(&mut chars, 2, upper);
        push_text(&mut chars, "\n");
        self.push_spoke_line(&mut chars, 1, upper);
        push_text(&mut chars, "\n");
        self.push_spoke_line(&mut chars, 0, upper);
        push_text(&mut chars, "\n");
        self.push_flat_line(&mut chars, 9, 2);
        push_text(&mut chars, "\n");
        self.push_flat_line(&mut chars, 8, 3);
        push_text(&mut chars, "\n");
        self.push_spoke_line(&mut chars, 0, lower);
        push_text(&mut chars, "\n");
        self.push_spoke_line(&mut chars, 1, lower);
        push_text(&mut chars, "\n");
        self.push_spoke_line(&mut chars, 2, lower);
        push_text(&mut chars, "\n");
        self.push_spoke_line(&mut chars, 3, lower);
        assert(chars@ =~= spec_drawing(*self));
        text_of(&chars)
    }
}

} // verus!
