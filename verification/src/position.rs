//! The two axes of the board, validated coordinates and moves.

use vstd::arithmetic::div_mod::lemma_add_mod_noop_right;
use vstd::prelude::*;

pub use crate::notation::{MoveParseError, MoveParseErrorDetails};

verus! {

/// A coordinate value on one of the two axes.
pub type Num = u8;

/// The error of [`Dimension::adapt`] for a raw value of type `N`.
pub type NumErr<N> = OutOfBoundsError<N, <N as ToNum>::Error>;

/// Raw values which can be narrowed to a [`Num`].
pub trait ToNum: Copy {
    /// Tells why a value does not fit into a [`Num`].
    type Error;

    /// The value as a [`Num`], if it fits.
    spec fn spec_to_num(self) -> Result<Num, Self::Error>;

    /// Narrows the value to a [`Num`].
    fn to_num(self) -> (res: Result<Num, Self::Error>)
        ensures
            res == self.spec_to_num(),
    ;
}

/// The two axes of the board.
#[derive(Debug, Copy, Clone, PartialEq, Eq, Structural, Hash, PartialOrd, Ord)]
pub enum Dimension {
    /// The ring axis: four rings, counted from the innermost one.
    Row,
    /// The slot axis: twelve angular positions.
    Column,
}

/// A raw value which is not a coordinate of the given axis.
#[derive(Debug)]
pub struct OutOfBoundsError<N, E> {
    pub dimension: Dimension,
    pub value: N,
    /// Present if the value did not even fit into a [`Num`].
    pub conversion_error: Option<E>,
}

impl Default for Dimension {
    /// The ring axis.
    fn default() -> (res: Self)
        ensures
            res == Dimension::Row,
    {
        Dimension::Row
    }
}

impl Dimension {
    /// Number of valid coordinates on this axis.
    pub open spec fn spec_size(self) -> Num {
        match self {
            Dimension::Row => 4u8,
            Dimension::Column => 12u8,
        }
    }

    /// Number of valid coordinates on this axis.
    #[verifier::when_used_as_spec(spec_size)]
    pub fn size(self) -> (res: Num)
        ensures
            res == self.spec_size(),
    {
        match self {
            Dimension::Row => 4,
            Dimension::Column => 12,
        }
    }

    /// The name of the axis.
    pub open spec fn spec_name(self) -> Seq<char> {
        match self {
            Dimension::Row => "Row"@,
            Dimension::Column => "Column"@,
        }
    }

    /// The name of the axis.
    pub fn name(&self) -> (res: &'static str)
        ensures
            res@ == self.spec_name(),
    {
        match self {
            Dimension::Row => "Row",
            Dimension::Column => "Column",
        }
    }

    /// The name of the axis.
    pub fn to_string(&self) -> (res: String)
        ensures
            res@ == self.spec_name(),
    {
        self.name().to_string()
    }

    /// The axis in whose units a move along this axis is measured.
    pub open spec fn spec_changes(self) -> Dimension {
        match self {
            Dimension::Row => Dimension::Column,
            Dimension::Column => Dimension::Row,
        }
    }

    /// The axis in whose units a move along this axis is measured: rotating a ring changes
    /// slots, pushing a spoke changes rings.
    #[verifier::when_used_as_spec(spec_changes)]
    pub fn changes(self) -> (res: Dimension)
        ensures
            res == self.spec_changes(),
    {
        match self {
            Dimension::Row => Dimension::Column,
            Dimension::Column => Dimension::Row,
        }
    }

    /// What [`Dimension::adapt`] returns for a raw value which narrows to `converted`.
    pub open spec fn spec_adapt<N, E>(self, value: N, converted: Result<Num, E>) -> Result<
        Num,
        OutOfBoundsError<N, E>,
    > {
        match converted {
            Ok(num) => if num < self.spec_size() {
                Ok(num)
            } else {
                Err(OutOfBoundsError { dimension: self, value, conversion_error: None })
            },
            Err(e) => Err(OutOfBoundsError { dimension: self, value, conversion_error: Some(e) }),
        }
    }

    /// Narrows a raw value to a coordinate of this axis. Fails if the value does not fit into
    /// a [`Num`] or is not smaller than the size of the axis.
    pub fn adapt<N: ToNum>(self, value: N) -> (res: Result<Num, NumErr<N>>)
        ensures
            res == self.spec_adapt(value, value.spec_to_num()),
            res matches Ok(num) ==> num < self.spec_size(),
    {
        match value.to_num() {
            Ok(num) => {
                if num >= self.size() {
                    Err(OutOfBoundsError { dimension: self, value, conversion_error: None })
                } else {
                    Ok(num)
                }
            },
            Err(e) => Err(OutOfBoundsError { dimension: self, value, conversion_error: Some(e) }),
        }
    }

    /// The coordinate which follows `coordinate` in the positive direction.
    pub open spec fn spec_next(self, coordinate: Num) -> Num {
        ((coordinate + 1) % (self.spec_size() as int)) as Num
    }

    /// Gets the next coordinate in the positive direction, wrapping around at the end of the
    /// axis.
    #[verifier::when_used_as_spec(spec_next)]
    pub fn next(self, coordinate: Num) -> (res: Num)
        ensures
            res == self.spec_next(coordinate),
            res < self.spec_size(),
    {
        let wide: u16 = (coordinate as u16 + 1) % (self.size() as u16);
        wide as Num
    }
}

/// A cell of the board.
#[derive(Debug, Copy, Clone, PartialEq, Eq, Structural, Hash)]
pub struct Position {
    /// The ring, counted from the innermost one.
    pub row: Num,
    /// The slot.
    pub column: Num,
}

impl Position {
    /// Both coordinates lie on their axis.
    pub open spec fn wf(self) -> bool {
        self.row < Dimension::Row.spec_size() && self.column < Dimension::Column.spec_size()
    }

    /// What [`Position::at`] returns: the position with the given coordinates, or the error of
    /// the first coordinate which is not valid.
    pub open spec fn spec_at<N: ToNum>(row: N, column: N) -> Result<Position, NumErr<N>> {
        match Dimension::Row.spec_adapt(row, row.spec_to_num()) {
            Err(e) => Err(e),
            Ok(r) => match Dimension::Column.spec_adapt(column, column.spec_to_num()) {
                Err(e) => Err(e),
                Ok(c) => Ok(Position { row: r, column: c }),
            },
        }
    }

    /// Validates both raw coordinates and builds the position.
    pub fn at<N: ToNum>(row: N, column: N) -> (res: Result<Self, NumErr<N>>)
        ensures
            res == Self::spec_at(row, column),
            res matches Ok(p) ==> p.wf(),
    {
        let row = match Dimension::Row.adapt(row) {
            Ok(r) => r,
            Err(e) => {
                return Err(e);
            },
        };
        let column = match Dimension::Column.adapt(column) {
            Ok(c) => c,
            Err(e) => {
                return Err(e);
            },
        };
        Ok(Self { row, column })
    }

    /// The slot on the far side of the centre.
    pub open spec fn opposite_column(column: Num) -> Num {
        ((column + 6) % 12) as Num
    }

    /// The cell which lies `offset` slots further in the positive direction on the same ring.
    pub open spec fn rotated(self, offset: int) -> Position {
        Position { row: self.row, column: ((self.column + offset) % 12) as Num }
    }

    /// The cell which lies `offset` cells further outwards on the line through the centre
    /// which the spoke of this cell and the opposite spoke form. On this line of eight cells
    /// a cell which leaves the spoke at its outer end enters the opposite spoke at its outer
    /// end.
    pub open spec fn pushed(self, offset: int) -> Position {
        let mirror_row = (self.row + offset) % 8;
        if mirror_row < 4 {
            Position { row: mirror_row as Num, column: self.column }
        } else {
            Position {
                row: (7 - mirror_row) as Num,
                column: Self::opposite_column(self.column),
            }
        }
    }

    /// Where an occupant of this cell stands after the move.
    ///
    /// Rotating a ring shifts the cells on that ring. Pushing a spoke shifts the cells on it,
    /// and the cells on the opposite spoke in the opposite direction.
    pub open spec fn moved(self, move_: Move) -> Position {
        match move_.dimension {
            Dimension::Row => if self.row != move_.coordinate {
                self
            } else {
                self.rotated(move_.column_offset())
            },
            Dimension::Column => {
                let opposite = self.column == Self::opposite_column(move_.coordinate);
                if !opposite && self.column != move_.coordinate {
                    self
                } else {
                    self.pushed(move_.row_offset(opposite))
                }
            },
        }
    }

    /// Moves the position as the move tells. Cells which are neither on the rotated ring nor
    /// on the pushed spoke or its opposite stay where they are.
    pub fn apply_move(&mut self, move_: Move)
        ensures
            *final(self) == old(self).moved(move_),
            old(self).wf() ==> final(self).wf(),
    {
        match move_.dimension {
            Dimension::Row => {
                if self.row != move_.coordinate {
                    return ;
                }
                let d_size: u16 = 12;
                let offset: u16 = if move_.in_positive_direction {
                    move_.amount as u16
                } else {
                    d_size - move_.amount as u16 % d_size
                };
                self.column = ((self.column as u16 + offset) % d_size) as Num;
            },
            Dimension::Column => {
                let mut in_positive_direction = move_.in_positive_direction;
                if self.column as u16 == (move_.coordinate as u16 + 6) % 12 {
                    in_positive_direction = !in_positive_direction;
                } else if self.column != move_.coordinate {
                    return ;
                }
                let d_size: u16 = 4;
                let dd_size: u16 = 2 * d_size;
                let offset: u16 = if in_positive_direction {
                    move_.amount as u16
                } else {
                    dd_size - move_.amount as u16 % dd_size
                };
                let mirror_row: u16 = (self.row as u16 + offset) % dd_size;
                if mirror_row < d_size {
                    self.row = mirror_row as Num;
                } else {
                    self.row = (dd_size - 1 - mirror_row) as Num;
                    self.column = ((self.column as u16 + 6) % 12) as Num;
                }
            },
        }
    }

    /// The ring of the cell.
    pub fn row(&self) -> (res: Num)
        ensures
            res == self.row,
    {
        self.row
    }

    /// The slot of the cell.
    pub fn column(&self) -> (res: Num)
        ensures
            res == self.column,
    {
        self.column
    }

    /// Replaces the ring, if the raw value is one.
    pub fn set_row<N: ToNum>(&mut self, row: N) -> (res: Result<(), NumErr<N>>)
        ensures
            match Dimension::Row.spec_adapt(row, row.spec_to_num()) {
                Ok(r) => res is Ok && *final(self) == (Position { row: r, column: old(self).column }),
                Err(e) => res == Err::<(), NumErr<N>>(e) && *final(self) == *old(self),
            },
    {
        match Dimension::Row.adapt(row) {
            Ok(r) => {
                self.row = r;
                Ok(())
            },
            Err(e) => Err(e),
        }
    }

    /// Replaces the slot, if the raw value is one.
    pub fn set_column<N: ToNum>(&mut self, column: N) -> (res: Result<(), NumErr<N>>)
        ensures
            match Dimension::Column.spec_adapt(column, column.spec_to_num()) {
                Ok(c) => res is Ok && *final(self) == (Position { row: old(self).row, column: c }),
                Err(e) => res == Err::<(), NumErr<N>>(e) && *final(self) == *old(self),
            },
    {
        match Dimension::Column.adapt(column) {
            Ok(c) => {
                self.column = c;
                Ok(())
            },
            Err(e) => Err(e),
        }
    }
}

/// Why a move could not be built.
#[derive(Debug)]
pub enum MoveCreationError<C, E, A> {
    /// The coordinate does not lie on the axis of the move.
    Coordinate(OutOfBoundsError<C, E>),
    /// The amount does not fit into a [`Num`].
    Amount(A),
}

/// A rotation of one ring or a push of one spoke.
#[derive(Debug, Copy, Clone, PartialEq, Eq, Structural, Hash)]
#[non_exhaustive]
pub struct Move {
    /// `Row` rotates a ring, `Column` pushes a spoke.
    pub dimension: Dimension,
    /// The ring which is rotated or the spoke which is pushed.
    pub coordinate: Num,
    /// By how many cells the ring is rotated or the spoke is pushed.
    pub amount: Num,
    /// Clockwise or outwards, depending on the axis.
    pub in_positive_direction: bool,
}

impl Move {
    /// The coordinate lies on the axis of the move.
    pub open spec fn wf(self) -> bool {
        self.coordinate < self.dimension.spec_size()
    }

    /// After how many cells a move along the axis of this move has come round.
    pub open spec fn period(self) -> Num {
        match self.dimension {
            Dimension::Row => 12u8,
            Dimension::Column => 8u8,
        }
    }

    /// The move in the other direction which leads to the same board, for an amount of at
    /// most one period.
    pub open spec fn complement(self) -> Move {
        Move {
            dimension: self.dimension,
            coordinate: self.coordinate,
            amount: (self.period() - self.amount) as Num,
            in_positive_direction: !self.in_positive_direction,
        }
    }

    /// By how many slots a rotation shifts the cells of its ring in the positive direction.
    pub open spec fn column_offset(self) -> int {
        if self.in_positive_direction {
            self.amount as int
        } else {
            12 - self.amount % 12
        }
    }

    /// By how many cells a push shifts the cells of its spoke (or of the opposite spoke if
    /// `opposite` is set) along the line through the centre.
    pub open spec fn row_offset(self, opposite: bool) -> int {
        if self.in_positive_direction != opposite {
            self.amount as int
        } else {
            8 - self.amount % 8
        }
    }

    /// What [`Move::new`] returns.
    pub open spec fn spec_new<C: ToNum, A: ToNum>(
        dimension: Dimension,
        coordinate: C,
        amount: A,
        in_positive_direction: bool,
    ) -> Result<Move, MoveCreationError<C, C::Error, A::Error>> {
        match dimension.spec_adapt(coordinate, coordinate.spec_to_num()) {
            Err(e) => Err(MoveCreationError::Coordinate(e)),
            Ok(c) => match amount.spec_to_num() {
                Err(e) => Err(MoveCreationError::Amount(e)),
                Ok(a) => Ok(Move { dimension, coordinate: c, amount: a, in_positive_direction }),
            },
        }
    }

    /// Builds a move. The coordinate has to lie on the axis, the amount has to fit into a
    /// [`Num`].
    pub fn new<C: ToNum, A: ToNum>(
        dimension: Dimension,
        coordinate: C,
        amount: A,
        in_positive_direction: bool,
    ) -> (res: Result<Self, MoveCreationError<C, C::Error, A::Error>>)
        ensures
            res == Self::spec_new(dimension, coordinate, amount, in_positive_direction),
            res matches Ok(m) ==> m.wf(),
    {
        let coordinate = match dimension.adapt(coordinate) {
            Ok(c) => c,
            Err(e) => {
                return Err(MoveCreationError::Coordinate(e));
            },
        };
        let amount = match amount.to_num() {
            Ok(a) => a,
            Err(e) => {
                return Err(MoveCreationError::Amount(e));
            },
        };
        Ok(Self { dimension, coordinate, amount, in_positive_direction })
    }

    /// The move with the same effect whose amount is at most half a period.
    pub open spec fn shortest(self) -> Move {
        let amount = match self.dimension {
            Dimension::Row => self.amount % 12,
            Dimension::Column => self.amount % 8,
        };
        if amount > self.period() / 2 {
            Move {
                amount: (self.period() - amount) as Num,
                in_positive_direction: !self.in_positive_direction,
                ..self
            }
        } else {
            Move { amount, ..self }
        }
    }

    /// The canonical move among those with the same effect: the smallest amount, for a push
    /// the spoke of the lower half, and the positive direction where both directions lead to
    /// the same board.
    pub open spec fn spec_normalized(self) -> Move {
        match self.dimension {
            Dimension::Row => self.shortest(),
            Dimension::Column => {
                let lower = if self.coordinate > 6 {
                    Move {
                        coordinate: (self.coordinate - 6) as Num,
                        in_positive_direction: !self.in_positive_direction,
                        ..self
                    }
                } else {
                    self
                };
                if lower.shortest().amount == 4 {
                    Move { in_positive_direction: true, ..lower.shortest() }
                } else {
                    lower.shortest()
                }
            },
        }
    }

    /// Brings the move into its canonical form.
    #[verifier::when_used_as_spec(spec_normalized)]
    pub fn normalized(self) -> (res: Move)
        ensures
            res == self.spec_normalized(),
    {
        let mut res = self;
        match self.dimension {
            Dimension::Row => {
                //turn by lowest amount possible
                res.amount = res.amount % 12;
                if res.amount > 6 {
                    res.amount = 12 - res.amount;
                    res.in_positive_direction = !res.in_positive_direction;
                }
            },
            Dimension::Column => {
                //prefer lower coordinates
                if res.coordinate > 6 {
                    res.coordinate = res.coordinate - 6;
                    res.in_positive_direction = !res.in_positive_direction;
                }
                //prefer absolute smaller amount, then positive amount

                res.amount = res.amount % 8;
                if res.amount > 4 {
                    res.amount = 8 - res.amount;
                    res.in_positive_direction = !res.in_positive_direction;
                }
                if res.amount == 4 {
                    res.in_positive_direction = true;
                }
            },
        }
        res
    }
}

/// A raw value is a coordinate of the axis if it fits into a [`Num`] and is smaller than the
/// size of the axis.
pub open spec fn is_coordinate<N: ToNum>(dimension: Dimension, value: N) -> bool {
    value.spec_to_num() is Ok && value.spec_to_num()->Ok_0 < dimension.spec_size()
}

/// Every pair of raw values which are coordinates of their axes gives the position with
/// exactly these coordinates, and every other pair is rejected: with the error of the ring if
/// the ring is not valid, else with that of the slot.
pub proof fn lemma_at_accepts_exactly_coordinates<N: ToNum>(row: N, column: N)
    ensures
        is_coordinate(Dimension::Row, row) && is_coordinate(Dimension::Column, column)
            ==> Position::spec_at(row, column) == Ok::<Position, NumErr<N>>(
            Position { row: row.spec_to_num()->Ok_0, column: column.spec_to_num()->Ok_0 },
        ),
        !is_coordinate(Dimension::Row, row) ==> Position::spec_at(row, column) is Err && {
            let e = Position::spec_at(row, column)->Err_0;
            &&& e.dimension == Dimension::Row
            &&& e.value == row
            &&& e.conversion_error is Some <==> row.spec_to_num() is Err
        },
        is_coordinate(Dimension::Row, row) && !is_coordinate(Dimension::Column, column)
            ==> Position::spec_at(row, column) is Err && {
            let e = Position::spec_at(row, column)->Err_0;
            &&& e.dimension == Dimension::Column
            &&& e.value == column
            &&& e.conversion_error is Some <==> column.spec_to_num() is Err
        },
{
}

/// Normalizing a move a second time changes nothing.
pub proof fn lemma_normalized_idempotent(move_: Move)
    requires
        move_.wf(),
    ensures
        move_.normalized().normalized() == move_.normalized(),
        move_.normalized().wf(),
{
}

/// Only the remainder of the offset of a rotation counts.
proof fn lemma_rotated_by_remainder(position: Position, offset: int)
    ensures
        position.rotated(offset) == position.rotated(offset % 12),
        0 <= offset % 12 < 12,
{
    lemma_add_mod_noop_right(position.column as int, offset, 12);
}

/// Only the remainder of the offset of a push counts.
proof fn lemma_pushed_by_remainder(position: Position, offset: int)
    ensures
        position.pushed(offset) == position.pushed(offset % 8),
        0 <= offset % 8 < 8,
{
    lemma_add_mod_noop_right(position.row as int, offset, 8);
}

/// The offsets of a move and of its canonical form differ by whole periods. The canonical
/// form of a push changes to the opposite spoke where the spoke lies in the upper half.
proof fn lemma_normalized_offsets(move_: Move)
    requires
        move_.wf(),
    ensures
        move_.dimension == Dimension::Row ==> move_.normalized().column_offset() % 12
            == move_.column_offset() % 12,
        move_.dimension == Dimension::Column ==> forall|opposite: bool|
            #![trigger move_.row_offset(opposite)]
            move_.normalized().row_offset(opposite == (move_.coordinate <= 6)) % 8
                == move_.row_offset(opposite) % 8,
{
}

/// The canonical form of a move has the effect of the move on every cell.
pub proof fn lemma_normalized_same_effect(position: Position, move_: Move)
    requires
        position.wf(),
        move_.wf(),
    ensures
        position.moved(move_.normalized()) == position.moved(move_),
{
    let canonical = move_.normalized();
    lemma_normalized_offsets(move_);
    match move_.dimension {
        Dimension::Row => {
            lemma_rotated_by_remainder(position, move_.column_offset());
            lemma_rotated_by_remainder(position, canonical.column_offset());
        },
        Dimension::Column => {
            let opposite = position.column == Position::opposite_column(move_.coordinate);
            let canonical_opposite = position.column == Position::opposite_column(
                canonical.coordinate,
            );
            if opposite || position.column == move_.coordinate {
                assert(canonical_opposite == (opposite == (move_.coordinate <= 6)));
                assert(canonical_opposite || position.column == canonical.coordinate);
                lemma_pushed_by_remainder(position, move_.row_offset(opposite));
                lemma_pushed_by_remainder(position, canonical.row_offset(canonical_opposite));
            } else {
                assert(!canonical_opposite && position.column != canonical.coordinate);
            }
        },
    }
}

/// A move never leads out of the board.
pub proof fn lemma_moved_stays_on_board(position: Position, move_: Move)
    requires
        position.wf(),
    ensures
        position.moved(move_).wf(),
{
}

/// The offsets of a move against the positive direction and of its complement differ by a
/// whole period.
proof fn lemma_complement_offsets(move_: Move)
    requires
        !move_.in_positive_direction,
        1 <= move_.amount <= move_.period(),
    ensures
        move_.dimension == Dimension::Row ==> move_.complement().column_offset() % 12
            == move_.column_offset() % 12,
        move_.dimension == Dimension::Column ==> forall|opposite: bool|
            #![trigger move_.row_offset(opposite)]
            move_.complement().row_offset(opposite) % 8 == move_.row_offset(opposite) % 8,
{
}

/// A move against the positive direction has the effect of the move in the positive direction
/// which completes it to a full turn of the ring or a full pass through both spokes.
pub proof fn lemma_negative_is_complementary_positive(position: Position, move_: Move)
    requires
        position.wf(),
        !move_.in_positive_direction,
        1 <= move_.amount <= move_.period(),
    ensures
        position.moved(move_) == position.moved(move_.complement()),
{
    let other = move_.complement();
    lemma_complement_offsets(move_);
    match move_.dimension {
        Dimension::Row => {
            lemma_rotated_by_remainder(position, move_.column_offset());
            lemma_rotated_by_remainder(position, other.column_offset());
        },
        Dimension::Column => {
            let opposite = position.column == Position::opposite_column(move_.coordinate);
            lemma_pushed_by_remainder(position, move_.row_offset(opposite));
            lemma_pushed_by_remainder(position, other.row_offset(opposite));
        },
    }
}

/// On one ring no rotation brings two cells into one.
proof fn lemma_rotated_injective(first: Position, second: Position, offset: int)
    requires
        first.wf(),
        second.wf(),
        0 <= offset < 12,
        first.rotated(offset) == second.rotated(offset),
    ensures
        first == second,
{
}

/// What a push shifts outwards on its spoke it shifts inwards on the opposite spoke.
proof fn lemma_opposite_offsets(move_: Move)
    ensures
        (move_.row_offset(true) % 8 + move_.row_offset(false) % 8) % 8 == 0,
{
}

/// No rotation brings the occupants of two cells into one cell.
proof fn lemma_rotation_injective(first: Position, second: Position, move_: Move)
    requires
        first.wf(),
        second.wf(),
        move_.dimension == Dimension::Row,
        first.moved(move_) == second.moved(move_),
    ensures
        first == second,
{
    let offset = move_.column_offset();
    lemma_rotated_by_remainder(first, offset);
    lemma_rotated_by_remainder(second, offset);
    let first_image = first.rotated(offset % 12);
    let second_image = second.rotated(offset % 12);
    assert(first_image.row == first.row);
    assert(second_image.row == second.row);
    if first.row == move_.coordinate && second.row == move_.coordinate {
        lemma_rotated_injective(first, second, offset % 12);
    }
}

/// The opposite slot, for a slot on the board.
spec fn across(column: Num) -> Num {
    if column < 6 {
        (column + 6) as Num
    } else {
        (column - 6) as Num
    }
}

/// [`Position::pushed`] for a cell on the board and an offset below eight.
spec fn shifted_on_line(position: Position, offset: int) -> Position {
    let target = if position.row + offset < 8 {
        position.row + offset
    } else {
        position.row + offset - 8
    };
    if target < 4 {
        Position { row: target as Num, column: position.column }
    } else {
        Position { row: (7 - target) as Num, column: across(position.column) }
    }
}

proof fn lemma_across(column: Num)
    requires
        column < 12,
    ensures
        Position::opposite_column(column) == across(column),
{
}

proof fn lemma_pushed_on_line(position: Position, offset: int)
    requires
        position.wf(),
    ensures
        position.pushed(offset) == shifted_on_line(position, offset % 8),
        0 <= offset % 8 < 8,
{
    lemma_pushed_by_remainder(position, offset);
    lemma_across(position.column);
}

/// Where a cell comes to lie if the given spoke is shifted outwards by `direct` cells and
/// the opposite spoke by `back` cells.
spec fn line_shifted(position: Position, spoke: Num, direct: int, back: int) -> Position {
    if position.column == spoke {
        shifted_on_line(position, direct)
    } else if position.column == across(spoke) {
        shifted_on_line(position, back)
    } else {
        position
    }
}

/// Shifting two opposite spokes against each other brings no two cells into one.
proof fn lemma_line_shifted_injective(
    first: Position,
    second: Position,
    spoke: Num,
    direct: int,
    back: int,
)
    requires
        first.wf(),
        second.wf(),
        spoke < 12,
        0 <= direct < 8,
        0 <= back < 8,
        direct + back == 0 || direct + back == 8,
        line_shifted(first, spoke, direct, back) == line_shifted(second, spoke, direct, back),
    ensures
        first == second,
{
}

/// A push shifts the cells of its spoke and of the opposite spoke along the line through
/// the centre, and what it shifts outwards on the one it shifts inwards on the other.
proof fn lemma_push_shifts_line(position: Position, move_: Move)
    requires
        position.wf(),
        move_.wf(),
        move_.dimension == Dimension::Column,
    ensures
        position.moved(move_) == line_shifted(
            position,
            move_.coordinate,
            move_.row_offset(false) % 8,
            move_.row_offset(true) % 8,
        ),
        0 <= move_.row_offset(false) % 8 < 8,
        0 <= move_.row_offset(true) % 8 < 8,
        move_.row_offset(false) % 8 + move_.row_offset(true) % 8 == 0 || move_.row_offset(false) % 8
            + move_.row_offset(true) % 8 == 8,
{
    lemma_opposite_offsets(move_);
    lemma_across(move_.coordinate);
    if position.column == Position::opposite_column(move_.coordinate) {
        lemma_pushed_on_line(position, move_.row_offset(true));
    } else if position.column == move_.coordinate {
        lemma_pushed_on_line(position, move_.row_offset(false));
    }
}

/// No push brings the occupants of two cells into one cell.
proof fn lemma_push_injective(first: Position, second: Position, move_: Move)
    requires
        first.wf(),
        second.wf(),
        move_.wf(),
        move_.dimension == Dimension::Column,
        first.moved(move_) == second.moved(move_),
    ensures
        first == second,
{
    lemma_push_shifts_line(first, move_);
    lemma_push_shifts_line(second, move_);
    lemma_line_shifted_injective(
        first,
        second,
        move_.coordinate,
        move_.row_offset(false) % 8,
        move_.row_offset(true) % 8,
    );
}

/// No move brings the occupants of two cells into one cell.
pub proof fn lemma_moved_injective(first: Position, second: Position, move_: Move)
    requires
        first.wf(),
        second.wf(),
        move_.wf(),
        first.moved(move_) == second.moved(move_),
    ensures
        first == second,
{
    match move_.dimension {
        Dimension::Row => lemma_rotation_injective(first, second, move_),
        Dimension::Column => lemma_push_injective(first, second, move_),
    }
}

} // verus!
