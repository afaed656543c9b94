//! Occupants of the board, attack areas and the search for a coverage of all occupants.

use crate::arena::{all_moved, first_index_at, without, Arena, Positioned, ToArenaSymbol};
use crate::position::{Dimension, Move, Num, Position};
use crate::soundness::{all_live, covered_once, disjoint, lemma_found_coverage_is_sound};
use crate::text::{push_decimal, push_text, spec_decimal, text_of};
use std::collections::HashSet;
use vstd::prelude::*;

pub use crate::planning::{solve, SolvedCache};

verus! {

/// A tool with which an occupant can be attacked.
#[derive(Debug, Copy, Clone, PartialEq, Eq, Structural, Hash)]
pub enum Attack {
    Jump,
    Hammer,
    IronBoots,
}

/// A collection of [`Attack`]s an enemy can be damaged by.
#[derive(Debug, Copy, Clone, PartialEq, Eq, Structural, Hash, PartialOrd, Ord)]
pub enum RequiredAttack {
    /// The enemy must be attacked with a hammer or iron boots.
    IronBootsOrHammer,
    /// The enemy must be attacked with a jump.
    Jump,
    /// The enemy must be attacked with a hammer.
    Hammer,
}

impl RequiredAttack {
    /// The attacks which damage an enemy with this requirement.
    pub open spec fn spec_attacks(self) -> Seq<Attack> {
        match self {
            RequiredAttack::IronBootsOrHammer => seq![Attack::IronBoots, Attack::Hammer],
            RequiredAttack::Jump => seq![Attack::Jump, Attack::IronBoots],
            RequiredAttack::Hammer => seq![Attack::Hammer],
        }
    }

    /// The attacks which damage an enemy with this requirement. There is always at least
    /// one.
    pub fn attacks(&self) -> (res: Vec<Attack>)
        ensures
            res@ == self.spec_attacks(),
            res@.len() > 0,
    {
        let mut res = Vec::new();
        match self {
            RequiredAttack::IronBootsOrHammer => {
                res.push(Attack::IronBoots);
                res.push(Attack::Hammer);
            },
            RequiredAttack::Jump => {
                res.push(Attack::Jump);
                res.push(Attack::IronBoots);
            },
            RequiredAttack::Hammer => {
                res.push(Attack::Hammer);
            },
        }
        assert(res@ =~= self.spec_attacks());
        res
    }

    /// The character which stands for an enemy with this requirement.
    pub fn symbol(&self) -> (res: char)
        ensures
            res == match *self {
                RequiredAttack::IronBootsOrHammer => 'P',
                RequiredAttack::Jump => 'J',
                RequiredAttack::Hammer => 'H',
            },
    {
        match self {
            RequiredAttack::IronBootsOrHammer => 'P',
            RequiredAttack::Jump => 'J',
            RequiredAttack::Hammer => 'H',
        }
    }
}

/// Those of the first attacks which are among the second ones, in the order of the first.
pub open spec fn spec_attack_intersection(a: Seq<Attack>, b: Seq<Attack>) -> Seq<Attack> {
    a.filter(|attack: Attack| b.contains(attack))
}

/// Something which stands for a list of attacks.
pub trait ToAttackVec: Sized {
    /// The attacks for which this stands.
    spec fn spec_attack_vec(self) -> Seq<Attack>;

    /// The attacks for which this stands.
    fn to_attack_vec(self) -> (res: Vec<Attack>)
        ensures
            res@ == self.spec_attack_vec(),
    ;
}

impl ToAttackVec for RequiredAttack {
    open spec fn spec_attack_vec(self) -> Seq<Attack> {
        self.spec_attacks()
    }

    fn to_attack_vec(self) -> (res: Vec<Attack>) {
        self.attacks()
    }
}

impl ToAttackVec for &RequiredAttack {
    open spec fn spec_attack_vec(self) -> Seq<Attack> {
        self.spec_attacks()
    }

    fn to_attack_vec(self) -> (res: Vec<Attack>) {
        self.attacks()
    }
}

impl ToAttackVec for Attack {
    open spec fn spec_attack_vec(self) -> Seq<Attack> {
        seq![self]
    }

    fn to_attack_vec(self) -> (res: Vec<Attack>) {
        let mut res = Vec::new();
        res.push(self);
        assert(res@ =~= seq![self]);
        res
    }
}

impl ToAttackVec for Vec<Attack> {
    open spec fn spec_attack_vec(self) -> Seq<Attack> {
        self@
    }

    fn to_attack_vec(self) -> (res: Vec<Attack>) {
        self
    }
}

impl ToAttackVec for &Vec<Attack> {
    open spec fn spec_attack_vec(self) -> Seq<Attack> {
        self@
    }

    fn to_attack_vec(self) -> (res: Vec<Attack>) {
        copy_attacks(self)
    }
}

/// A copy of the attacks.
fn copy_attacks(attacks: &Vec<Attack>) -> (res: Vec<Attack>)
    ensures
        res@ == attacks@,
{
    let mut res = Vec::new();
    let mut i: usize = 0;
    while i < attacks.len()
        invariant
            i <= attacks@.len(),
            res@ == attacks@.take(i as int),
        decreases attacks@.len() - i,
    {
        res.push(attacks[i]);
        assert(res@ =~= attacks@.take(i + 1));
        i += 1;
    }
    assert(attacks@.take(attacks@.len() as int) =~= attacks@);
    res
}

/// Whether the attack is among the attacks.
fn contains_attack(attacks: &Vec<Attack>, attack: Attack) -> (res: bool)
    ensures
        res == attacks@.contains(attack),
{
    let mut i: usize = 0;
    while i < attacks.len()
        invariant
            i <= attacks@.len(),
            forall|j: int| 0 <= j < i ==> attacks@[j] != attack,
        decreases attacks@.len() - i,
    {
        if attacks[i] == attack {
            return true;
        }
        i += 1;
    }
    false
}

/// The attacks which both lists have in common, in the order of the first list.
pub fn attack_intersection<A: ToAttackVec, B: ToAttackVec>(a: A, b: B) -> (res: Vec<Attack>)
    ensures
        res@ == spec_attack_intersection(a.spec_attack_vec(), b.spec_attack_vec()),
{
    let b = b.to_attack_vec();
    let a = a.to_attack_vec();
    let ghost in_b = |attack: Attack| b@.contains(attack);
    let mut res = Vec::new();
    let mut i: usize = 0;
    proof {
        reveal(Seq::filter);
        assert(a@.take(0) =~= Seq::<Attack>::empty());
    }
    while i < a.len()
        invariant
            i <= a@.len(),
            res@ == a@.take(i as int).filter(in_b),
            in_b == |attack: Attack| b@.contains(attack),
        decreases a@.len() - i,
    {
        proof {
            reveal(Seq::filter);
            assert(a@.take(i + 1).drop_last() =~= a@.take(i as int));
        }
        if contains_attack(&b, a[i]) {
            res.push(a[i]);
        }
        i += 1;
    }
    assert(a@.take(a@.len() as int) =~= a@);
    res
}

/// An occupant of the board which has to be eliminated.
#[derive(Debug, Copy, Clone, PartialEq, Eq, Hash)]
pub struct Enemy {
    pub position: Position,
    /// The attacks to which the enemy is restricted, if it is restricted at all.
    pub required_attack: Option<RequiredAttack>,
}

impl Positioned for Enemy {
    open spec fn spec_position(&self) -> Position {
        self.position
    }

    open spec fn spec_with_position(&self, position: Position) -> Self {
        Enemy { position, required_attack: self.required_attack }
    }

    fn position(&self) -> (res: Position) {
        self.position
    }

    fn set_position(&mut self, position: Position) {
        self.position = position;
    }

    proof fn lemma_with_position(&self, position: Position) {
    }
}

impl ToArenaSymbol for Enemy {
    open spec fn spec_arena_symbol(&self) -> char {
        match self.required_attack {
            Some(RequiredAttack::IronBootsOrHammer) => 'P',
            Some(RequiredAttack::Jump) => 'J',
            Some(RequiredAttack::Hammer) => 'H',
            None => 'E',
        }
    }

    fn to_arena_symbol(&self) -> (res: char) {
        match &self.required_attack {
            Some(weakness) => weakness.symbol(),
            None => 'E',
        }
    }
}

/// The equipment which is at hand for attacks.
#[derive(Debug, Copy, Clone, PartialEq, Eq, Structural, Hash)]
pub struct AvailableEquipment {
    pub throwing_hammer: bool,
    pub iron_boots: bool,
}

impl Default for AvailableEquipment {
    /// Everything is at hand.
    fn default() -> (res: Self)
        ensures
            res == (AvailableEquipment { throwing_hammer: true, iron_boots: true }),
    {
        Self { throwing_hammer: true, iron_boots: true }
    }
}

impl AvailableEquipment {
    /// Whether an enemy on the outer rings with the given requirement can be attacked at
    /// all: there only thrown tools reach it.
    pub open spec fn spec_reaches_outer(self, required_attack: Option<RequiredAttack>) -> bool {
        match required_attack {
            Some(RequiredAttack::IronBootsOrHammer) => self.iron_boots || self.throwing_hammer,
            Some(RequiredAttack::Hammer) => self.throwing_hammer,
            Some(RequiredAttack::Jump) => true,
            None => true,
        }
    }

    /// Whether an enemy on the outer rings with the given requirement can be attacked at all.
    fn reaches_outer(&self, required_attack: &Option<RequiredAttack>) -> (res: bool)
        ensures
            res == self.spec_reaches_outer(*required_attack),
    {
        match required_attack {
            Some(RequiredAttack::IronBootsOrHammer) => self.iron_boots || self.throwing_hammer,
            Some(RequiredAttack::Hammer) => self.throwing_hammer,
            Some(RequiredAttack::Jump) => true,
            None => true,
        }
    }
}

/// The two halves of the board: the outer rings are reached by long areas only.
#[derive(Debug, Copy, Clone, PartialEq, Eq, Structural, Hash)]
enum RingPosition {
    Outer,
    Inner,
}

impl RingPosition {
    /// The half in which the cell lies.
    fn of(position: &Position) -> (res: Self)
        ensures
            res == if position.spec_is_outer() {
                RingPosition::Outer
            } else {
                RingPosition::Inner
            },
    {
        if position.row >= 2 {
            RingPosition::Outer
        } else {
            RingPosition::Inner
        }
    }
}

impl Position {
    /// Whether the cell lies on one of the two outer rings.
    pub open spec fn spec_is_outer(self) -> bool {
        self.row >= 2
    }
}

/// The shape of an attack.
#[derive(Debug, Copy, Clone, PartialEq, Eq, Structural, Hash)]
pub enum TargetArea {
    /// All rings of one slot.
    Long { column: Num },
    /// The two inner rings of two neighbouring slots.
    Wide { left_column: Num },
}

impl TargetArea {
    /// The long area through the cell.
    pub fn long(position: &Position) -> (res: Self)
        ensures
            res == (TargetArea::Long { column: position.column }),
    {
        Self::Long { column: position.column }
    }

    /// The slot before the given one.
    pub open spec fn spec_left_of(column: Num) -> Num {
        ((column + 11) % 12) as Num
    }

    /// The wide area for which the slot of the cell is the right one (`left_bound`) or the
    /// left one.
    pub open spec fn spec_wide(position: Position, left_bound: bool) -> TargetArea {
        TargetArea::Wide {
            left_column: if left_bound {
                Self::spec_left_of(position.column)
            } else {
                position.column
            },
        }
    }

    /// The wide area for which the slot of the cell is the right one (`left_bound`) or the
    /// left one.
    pub fn wide(position: &Position, left_bound: bool) -> (res: Self)
        ensures
            res == Self::spec_wide(*position, left_bound),
    {
        Self::Wide {
            left_column: if left_bound {
                ((position.column as u16 + 11) % 12) as Num
            } else {
                position.column
            },
        }
    }

    /// The right slot of the wide area with the given left slot.
    pub open spec fn spec_right_column(left_column: Num) -> Num {
        ((left_column + 1) % 12) as Num
    }

    /// The right slot of the wide area with the given left slot.
    #[verifier::when_used_as_spec(spec_right_column)]
    pub fn right_column(left_column: Num) -> (res: Num)
        ensures
            res == Self::spec_right_column(left_column),
            res < 12,
    {
        ((left_column as u16 + 1) % 12) as Num
    }

    /// Whether an attack of this shape hits the cell.
    pub open spec fn spec_covers(self, position: Position) -> bool {
        match self {
            TargetArea::Long { column } => position.column == column,
            TargetArea::Wide { left_column } => !position.spec_is_outer() && (position.column
                == left_column || position.column == Self::spec_right_column(left_column)),
        }
    }

    /// Whether an attack of this shape hits the cell.
    pub fn covers(&self, position: &Position) -> (res: bool)
        ensures
            res == self.spec_covers(*position),
    {
        match self {
            TargetArea::Long { column } => position.column == *column,
            TargetArea::Wide { left_column } => {
                position.row < 2 && (position.column == *left_column || position.column
                    == Self::right_column(*left_column))
            },
        }
    }

    /// The text form of the shape: `c` and the number of the slot for a long area, `h` and
    /// the numbers of both slots for a wide one. Slots are counted from one.
    pub open spec fn spec_text(self) -> Seq<char> {
        match self {
            TargetArea::Long { column } => "c"@ + spec_decimal((column + 1) as nat),
            TargetArea::Wide { left_column } => "h"@ + spec_decimal((left_column + 1) as nat)
                + spec_decimal((Self::spec_right_column(left_column) + 1) as nat),
        }
    }

    /// Writes the shape as a text.
    pub fn to_string(&self) -> (res: String)
        ensures
            res@ == self.spec_text(),
    {
        let mut chars: Vec<char> = Vec::new();
        match self {
            TargetArea::Long { column } => {
                push_text(&mut chars, "c");
                push_decimal(&mut chars, *column as u64 + 1);
            },
            TargetArea::Wide { left_column } => {
                push_text(&mut chars, "h");
                push_decimal(&mut chars, *left_column as u64 + 1);
                push_decimal(&mut chars, Self::right_column(*left_column) as u64 + 1);
            },
        }
        assert(chars@ =~= self.spec_text());
        text_of(&chars)
    }

    /// Whether the shape takes up the slot. No slot can be taken up by two areas.
    pub open spec fn claims(self, column: Num) -> bool {
        match self {
            TargetArea::Long { column: own } => column == own,
            TargetArea::Wide { left_column } => column == left_column || column
                == Self::spec_right_column(left_column),
        }
    }

    /// Whether the two shapes take up a common slot.
    pub open spec fn collides(self, other: TargetArea) -> bool {
        match other {
            TargetArea::Long { column } => self.claims(column),
            TargetArea::Wide { left_column } => self.claims(left_column) || self.claims(
                Self::spec_right_column(left_column),
            ),
        }
    }
}

/// What an [`EnemyArea`] is in specifications.
pub struct EnemyAreaView {
    pub target_area: TargetArea,
    pub attack_whitelist: Option<Seq<Attack>>,
}

impl EnemyAreaView {
    /// An area of the given shape which is not restricted to any attacks.
    pub open spec fn new(target_area: TargetArea) -> EnemyAreaView {
        EnemyAreaView { target_area, attack_whitelist: None }
    }

    /// The area after an enemy with the given requirement has been assigned to it: the
    /// whitelist is restricted to the attacks which damage the enemy too.
    pub open spec fn limited(self, required_attack: Option<RequiredAttack>) -> EnemyAreaView {
        match required_attack {
            None => self,
            Some(required) => EnemyAreaView {
                target_area: self.target_area,
                attack_whitelist: Some(
                    match self.attack_whitelist {
                        Some(whitelist) => spec_attack_intersection(
                            whitelist,
                            required.spec_attacks(),
                        ),
                        None => required.spec_attacks(),
                    },
                ),
            },
        }
    }

    /// Whether no attack is left for the area once an enemy with the given requirement is
    /// assigned to it.
    pub open spec fn exhausted_by(self, required_attack: Option<RequiredAttack>) -> bool {
        required_attack is Some && self.attack_whitelist is Some && self.limited(
            required_attack,
        ).attack_whitelist->Some_0.len() == 0
    }

    /// Whether at least one attack is left for the area.
    pub open spec fn live(self) -> bool {
        self.attack_whitelist matches Some(whitelist) ==> whitelist.len() > 0
    }
}

/// An attack area together with the attacks which damage every enemy assigned to it.
#[derive(Debug, PartialEq, Eq, Hash)]
pub struct EnemyArea {
    pub target_area: TargetArea,
    /// `None` as long as no enemy with a requirement has been assigned.
    pub attack_whitelist: Option<Vec<Attack>>,
}

impl View for EnemyArea {
    type V = EnemyAreaView;

    open spec fn view(&self) -> EnemyAreaView {
        EnemyAreaView {
            target_area: self.target_area,
            attack_whitelist: match self.attack_whitelist {
                Some(whitelist) => Some(whitelist@),
                None => None,
            },
        }
    }
}

impl Clone for EnemyArea {
    fn clone(&self) -> (res: Self)
        ensures
            res@ == self@,
    {
        Self {
            target_area: self.target_area,
            attack_whitelist: match &self.attack_whitelist {
                Some(whitelist) => Some(copy_attacks(whitelist)),
                None => None,
            },
        }
    }
}

impl EnemyArea {
    /// The long area through the cell of the enemy, restricted to the attacks which damage
    /// the enemy.
    pub fn long(enemy: &Enemy) -> (res: Self)
        ensures
            res@ == EnemyAreaView::new(TargetArea::Long { column: enemy.position.column }).limited(
                enemy.required_attack,
            ),
            res@.live(),
    {
        let mut res = Self::new(TargetArea::long(&enemy.position));
        let _ = res.limit_attacks(enemy);
        res
    }

    /// The wide area which has the enemy in its right slot (`left_bound`) or in its left
    /// slot, restricted to the attacks which damage the enemy.
    pub fn wide(enemy: &Enemy, left_bound: bool) -> (res: Self)
        ensures
            res@ == EnemyAreaView::new(TargetArea::spec_wide(enemy.position, left_bound)).limited(
                enemy.required_attack,
            ),
            res@.live(),
    {
        let mut res = Self::new(TargetArea::wide(&enemy.position, left_bound));
        let _ = res.limit_attacks(enemy);
        res
    }

    /// An area of the given shape which is not restricted to any attacks.
    pub fn new(target_area: TargetArea) -> (res: Self)
        ensures
            res@ == EnemyAreaView::new(target_area),
    {
        Self { target_area, attack_whitelist: None }
    }

    /// Assigns the enemy to the area: the whitelist is restricted to the attacks which damage
    /// the enemy too. Fails if no attack is left.
    pub fn limit_attacks(&mut self, enemy: &Enemy) -> (res: Result<(), String>)
        ensures
            final(self)@ == old(self)@.limited(enemy.required_attack),
            res is Err <==> old(self)@.exhausted_by(enemy.required_attack),
            res matches Err(message) ==> message@ == "Attack whitelist is now empty"@,
    {
        if let Some(required_attack) = &enemy.required_attack {
            let limited = match &self.attack_whitelist {
                Some(attack_whitelist) => attack_intersection(attack_whitelist, required_attack),
                None => required_attack.attacks(),
            };
            let exhausted = self.attack_whitelist.is_some() && limited.len() == 0;
            self.attack_whitelist = Some(limited);
            if exhausted {
                return Err("Attack whitelist is now empty".to_string());
            }
        }
        Ok(())
    }
}

/// What stands on a cell of the board.
#[derive(Debug, Copy, Clone, PartialEq, Eq, Hash)]
pub enum Cell {
    Empty,
    /// An enemy with the given requirement.
    Occupied(Option<RequiredAttack>),
}

/// The number of cells of the board.
pub const CELLS: usize = 48;

/// The cells in the order in which a coverage is searched for their enemies: first the two
/// outer rings, then the two inner rings, each ring from its innermost to its outermost and
/// slot by slot.
pub open spec fn cell_position(index: int) -> Position {
    Position {
        row: if index < 12 {
            2u8
        } else if index < 24 {
            3u8
        } else if index < 36 {
            0u8
        } else {
            1u8
        },
        column: (index % 12) as Num,
    }
}

/// The place of a cell of the board in the order of [`cell_position`].
pub open spec fn cell_index(position: Position) -> int {
    (if position.row == 2 {
        0int
    } else if position.row == 3 {
        12int
    } else if position.row == 0 {
        24int
    } else {
        36int
    }) + position.column
}

/// The cell at the given place of the search order.
fn cell_at(index: usize) -> (res: Position)
    requires
        index < CELLS,
    ensures
        res == cell_position(index as int),
        res.wf(),
        res.spec_is_outer() <==> index < 24,
{
    let row: Num = if index < 12 {
        2
    } else if index < 24 {
        3
    } else if index < 36 {
        0
    } else {
        1
    };
    Position { row, column: (index % 12) as Num }
}

/// What stands on each cell of the board, in the order of [`cell_position`]. Of several
/// enemies on one cell the first counts, and enemies outside the board do not count.
pub open spec fn spec_grid(enemies: Seq<Enemy>) -> Seq<Cell> {
    Seq::new(
        CELLS as nat,
        |index: int|
            {
                let first = first_index_at(enemies, cell_position(index), 0);
                if first < enemies.len() {
                    Cell::Occupied(enemies[first].required_attack)
                } else {
                    Cell::Empty
                }
            },
    )
}

/// Looks up what stands on each cell of the board.
pub fn grid(arena: &Arena<Enemy>) -> (res: Vec<Cell>)
    ensures
        res@ == spec_grid(arena.enemies@),
{
    let mut res: Vec<Cell> = Vec::new();
    let mut index: usize = 0;
    while index < CELLS
        invariant
            index <= CELLS,
            res@.len() == index,
            forall|i: int| 0 <= i < index ==> res@[i] == spec_grid(arena.enemies@)[i],
        decreases CELLS - index,
    {
        let position = cell_at(index);
        let cell = match arena.get_at(&position) {
            Some(enemy) => Cell::Occupied(enemy.required_attack),
            None => Cell::Empty,
        };
        res.push(cell);
        index += 1;
    }
    assert(res@ =~= spec_grid(arena.enemies@));
    res
}

/// The index of the first of the areas from `from` on which covers the cell, or the number of
/// areas if none does.
pub open spec fn first_covering(areas: Seq<EnemyAreaView>, position: Position, from: int) -> int
    decreases areas.len() - from,
{
    if from >= areas.len() {
        areas.len() as int
    } else if areas[from].target_area.spec_covers(position) {
        from
    } else {
        first_covering(areas, position, from + 1)
    }
}

/// [`first_covering`] gives the first area which covers the cell.
pub proof fn lemma_first_covering(areas: Seq<EnemyAreaView>, position: Position, from: int)
    requires
        0 <= from <= areas.len(),
    ensures
        from <= first_covering(areas, position, from) <= areas.len(),
        first_covering(areas, position, from) < areas.len() ==> areas[first_covering(
            areas,
            position,
            from,
        )].target_area.spec_covers(position),
        forall|i: int|
            from <= i < first_covering(areas, position, from) ==> !(
            #[trigger] areas[i]).target_area.spec_covers(position),
    decreases areas.len() - from,
{
    if from < areas.len() && !areas[from].target_area.spec_covers(position) {
        lemma_first_covering(areas, position, from + 1);
    }
}

/// Whether a new area of the given shape takes up no slot which one of the areas has taken
/// up already.
pub open spec fn spec_can_hold(areas: Seq<EnemyAreaView>, target_area: TargetArea) -> bool {
    forall|i: int| 0 <= i < areas.len() ==> !(#[trigger] areas[i]).target_area.collides(target_area)
}

/// An enemy which requires a hammer is hit on a long area only by a thrown hammer.
pub open spec fn spec_hammer_enemy_can_be_covered(
    required_attack: Option<RequiredAttack>,
    target_area: TargetArea,
    equipment: AvailableEquipment,
) -> bool {
    !(target_area is Long && required_attack == Some(RequiredAttack::Hammer)
        && !equipment.throwing_hammer)
}

/// The areas after the area at `index` has taken an enemy with the given requirement, or
/// `None` if no attack is left for that area.
pub open spec fn spec_assign(
    areas: Seq<EnemyAreaView>,
    index: int,
    required_attack: Option<RequiredAttack>,
) -> Option<Seq<EnemyAreaView>> {
    if areas[index].exhausted_by(required_attack) {
        None
    } else {
        Some(areas.update(index, areas[index].limited(required_attack)))
    }
}

/// The areas with a new area of the given shape for an enemy with the given requirement.
pub open spec fn spec_extend(
    areas: Seq<EnemyAreaView>,
    target_area: TargetArea,
    required_attack: Option<RequiredAttack>,
) -> Seq<EnemyAreaView> {
    areas.push(EnemyAreaView::new(target_area).limited(required_attack))
}

/// The coverage which the search finds for the enemies on the cells from `from` on, starting
/// with the given areas, or `None` if it finds none.
///
/// The cells are visited in the order of [`cell_position`]. An enemy on a cell which one of
/// the areas covers is assigned to the first such area. For an enemy on an uncovered cell a
/// new area is needed, which is possible as long as there are fewer areas than `num_groups`.
/// On the outer rings this is the long area of the slot. On the inner rings the search
/// tries the wide area to the left, then the wide area to the right, then the long area, and
/// keeps the first with which the search for the remaining cells succeeds. A wide area is
/// not tried for an enemy which requires a jump, nor where it collides with one of the
/// areas.
pub open spec fn spec_finalize(
    areas: Seq<EnemyAreaView>,
    grid: Seq<Cell>,
    from: int,
    num_groups: int,
    equipment: AvailableEquipment,
) -> Option<Seq<EnemyAreaView>>
    decreases CELLS - from,
{
    if from >= CELLS {
        Some(areas)
    } else {
        match grid[from] {
            Cell::Empty => spec_finalize(areas, grid, from + 1, num_groups, equipment),
            Cell::Occupied(required_attack) => {
                let position = cell_position(from);
                let covering = first_covering(areas, position, 0);
                let long = TargetArea::Long { column: position.column };
                if position.spec_is_outer() && !equipment.spec_reaches_outer(required_attack) {
                    None
                } else if covering < areas.len() {
                    if !position.spec_is_outer() && !spec_hammer_enemy_can_be_covered(
                        required_attack,
                        areas[covering].target_area,
                        equipment,
                    ) {
                        None
                    } else {
                        match spec_assign(areas, covering, required_attack) {
                            Some(assigned) => spec_finalize(
                                assigned,
                                grid,
                                from + 1,
                                num_groups,
                                equipment,
                            ),
                            None => None,
                        }
                    }
                } else if areas.len() >= num_groups {
                    None
                } else if position.spec_is_outer() {
                    spec_finalize(
                        spec_extend(areas, long, required_attack),
                        grid,
                        from + 1,
                        num_groups,
                        equipment,
                    )
                } else {
                    let wide_allowed = required_attack != Some(RequiredAttack::Jump);
                    let left = TargetArea::spec_wide(position, true);
                    let right = TargetArea::spec_wide(position, false);
                    let with_left = if wide_allowed && spec_can_hold(areas, left) {
                        spec_finalize(
                            spec_extend(areas, left, required_attack),
                            grid,
                            from + 1,
                            num_groups,
                            equipment,
                        )
                    } else {
                        None
                    };
                    let with_right = if wide_allowed && spec_can_hold(areas, right) {
                        spec_finalize(
                            spec_extend(areas, right, required_attack),
                            grid,
                            from + 1,
                            num_groups,
                            equipment,
                        )
                    } else {
                        None
                    };
                    if with_left is Some {
                        with_left
                    } else if with_right is Some {
                        with_right
                    } else if spec_hammer_enemy_can_be_covered(required_attack, long, equipment) {
                        spec_finalize(
                            spec_extend(areas, long, required_attack),
                            grid,
                            from + 1,
                            num_groups,
                            equipment,
                        )
                    } else {
                        None
                    }
                }
            },
        }
    }
}

/// A set of attack areas which together hit all enemies of a board.
#[derive(Debug)]
pub struct Coverage {
    pub areas: Vec<EnemyArea>,
}

impl View for Coverage {
    type V = Seq<EnemyAreaView>;

    open spec fn view(&self) -> Seq<EnemyAreaView> {
        Seq::new(self.areas@.len(), |i: int| self.areas@[i]@)
    }
}

/// The areas of the coverage, if there is one.
pub open spec fn areas_of(coverage: Option<Coverage>) -> Option<Seq<EnemyAreaView>> {
    match coverage {
        Some(coverage) => Some(coverage@),
        None => None,
    }
}

impl Clone for Coverage {
    fn clone(&self) -> (res: Self)
        ensures
            res@ == self@,
    {
        let mut areas: Vec<EnemyArea> = Vec::new();
        let mut i: usize = 0;
        while i < self.areas.len()
            invariant
                i <= self.areas@.len(),
                areas@.len() == i,
                forall|j: int| 0 <= j < i ==> (#[trigger] areas@[j])@ == self.areas@[j]@,
            decreases self.areas@.len() - i,
        {
            areas.push(self.areas[i].clone());
            i += 1;
        }
        let res = Self { areas };
        assert(res@ =~= self@);
        res
    }
}

impl Default for Coverage {
    fn default() -> (res: Self)
        ensures
            res@ == Seq::<EnemyAreaView>::empty(),
    {
        let res = Self { areas: Vec::new() };
        assert(res@ =~= Seq::<EnemyAreaView>::empty());
        res
    }
}

impl Coverage {
    /// A coverage without areas.
    pub fn new() -> (res: Self)
        ensures
            res@ == Seq::<EnemyAreaView>::empty(),
    {
        Self::default()
    }

    /// The number of areas.
    pub fn len(&self) -> (res: usize)
        ensures
            res == self@.len(),
    {
        self.areas.len()
    }

    /// Adds an area.
    pub fn push(&mut self, area: EnemyArea)
        ensures
            final(self)@ == old(self)@.push(area@),
    {
        self.areas.push(area);
        assert(self@ =~= old(self)@.push(area@));
    }

    /// The index of the first area which covers the cell, or the number of areas.
    fn covering_index(&self, position: &Position) -> (res: usize)
        ensures
            res == first_covering(self@, *position, 0),
            res <= self@.len(),
    {
        let mut i: usize = 0;
        while i < self.areas.len()
            invariant
                i <= self.areas@.len(),
                first_covering(self@, *position, 0) == first_covering(self@, *position, i as int),
            decreases self.areas@.len() - i,
        {
            if self.areas[i].target_area.covers(position) {
                return i;
            }
            i += 1;
        }
        i
    }

    /// The first area which covers the cell.
    pub fn get_covering_area(&self, position: &Position) -> (res: Option<&EnemyArea>)
        ensures
            res is Some <==> first_covering(self@, *position, 0) < self@.len(),
            res matches Some(area) ==> area@ == self@[first_covering(self@, *position, 0)],
    {
        let index = self.covering_index(position);
        if index < self.areas.len() {
            Some(&self.areas[index])
        } else {
            None
        }
    }

    /// The first area which covers the cell, for changing it.
    pub fn get_covering_area_mut(&mut self, position: &Position) -> (res: Option<&mut EnemyArea>)
        ensures
            res is Some <==> first_covering(old(self)@, *position, 0) < old(self)@.len(),
            match res {
                Some(area) => {
                    &&& area@ == old(self)@[first_covering(old(self)@, *position, 0)]
                    &&& final(self)@ == old(self)@.update(
                        first_covering(old(self)@, *position, 0),
                        final(area)@,
                    )
                },
                None => final(self)@ == old(self)@,
            },
    {
        let index = self.covering_index(position);
        if index < self.areas.len() {
            let ghost before = self@;
            let area = &mut self.areas[index];
            proof {
                assert(after_borrow(self)@ =~= before.update(index as int, final(area)@));
            }
            Some(area)
        } else {
            None
        }
    }

    /// Searches a coverage of all enemies of the board, with at most as many areas as the
    /// board has groups.
    pub fn find(arena: &SolvableArena) -> (res: Option<Self>)
        ensures
            areas_of(res) == arena@.find(),
            res matches Some(coverage) ==> {
                &&& coverage@.len() <= arena@.num_groups()
                &&& all_live(coverage@)
                &&& disjoint(coverage@)
                &&& forall|i: int|
                    0 <= i < arena@.enemies.len() && (#[trigger] arena@.enemies[i]).position.wf()
                        ==> covered_once(coverage@, arena@.enemies[i].position)
            },
    {
        proof {
            lemma_found_coverage_is_sound(arena@);
        }
        let cells = grid(&arena.inner);
        Self::default().finalize(
            &cells,
            0,
            arena.num_groups() as usize,
            &arena.available_equipment,
        )
    }

    /// Extends the areas to a coverage of the enemies on the cells from `from` on.
    fn finalize(
        self,
        cells: &Vec<Cell>,
        from: usize,
        num_groups: usize,
        equipment: &AvailableEquipment,
    ) -> (res: Option<Self>)
        requires
            cells@.len() == CELLS,
            from <= CELLS,
        ensures
            areas_of(res) == spec_finalize(self@, cells@, from as int, num_groups as int, *equipment),
        decreases CELLS - from, 0nat,
    {
        let ghost start = self@;
        let mut coverage = self;
        let ghost goal = spec_finalize(start, cells@, from as int, num_groups as int, *equipment);
        let mut index: usize = from;
        while index < CELLS
            invariant
                from <= index <= CELLS,
                cells@.len() == CELLS,
                spec_finalize(coverage@, cells@, index as int, num_groups as int, *equipment) == goal,
                goal == spec_finalize(self@, cells@, from as int, num_groups as int, *equipment),
            decreases CELLS - index,
        {
            if let Cell::Occupied(required_attack) = cells[index] {
                let enemy = Enemy { position: cell_at(index), required_attack };
                let covering = coverage.covering_index(&enemy.position);
                match RingPosition::of(&enemy.position) {
                    RingPosition::Outer => {
                        //only thrown tools reach the outer rings
                        if !equipment.reaches_outer(&enemy.required_attack) {
                            return None;
                        }
                        //check if enemy is already covered

                        if covering < coverage.areas.len() {
                            let ghost before = coverage@;
                            let limited = coverage.areas[covering].limit_attacks(&enemy);
                            if limited.is_err() {
                                return None;
                            }
                            assert(coverage@ =~= before.update(
                                covering as int,
                                before[covering as int].limited(required_attack),
                            ));
                        } else {
                            //check if another group is available
                            if coverage.len() >= num_groups {
                                return None;
                            }
                            coverage.push(EnemyArea::long(&enemy));
                        }
                    },
                    RingPosition::Inner => {
                        //check if enemy is already covered
                        if covering < coverage.areas.len() {
                            //enemies which require a hammer covered by long areas require a throwing hammer
                            if !Self::hammer_enemy_can_be_covered(
                                &enemy,
                                &coverage.areas[covering],
                                equipment,
                            ) {
                                return None;
                            }
                            let ghost before = coverage@;
                            let limited = coverage.areas[covering].limit_attacks(&enemy);
                            if limited.is_err() {
                                return None;
                            }
                            assert(coverage@ =~= before.update(
                                covering as int,
                                before[covering as int].limited(required_attack),
                            ));
                        } else {
                            //check if another group is available
                            if coverage.len() >= num_groups {
                                return None;
                            }
                            //jump enemies can't be covered by wide areas (hammer only)

                            let long_area_required = matches!(
                                enemy.required_attack,
                                Some(RequiredAttack::Jump)
                            );
                            if !long_area_required {
                                //try left-bound wide area
                                let left_area = EnemyArea::wide(&enemy, true);
                                if coverage.can_hold(&left_area.target_area) {
                                    let finalized = coverage.finalize_with(
                                        left_area,
                                        cells,
                                        index + 1,
                                        num_groups,
                                        equipment,
                                    );
                                    if finalized.is_some() {
                                        return finalized;
                                    }
                                }
                                //try right-bound wide area

                                let right_area = EnemyArea::wide(&enemy, false);
                                if coverage.can_hold(&right_area.target_area) {
                                    let finalized = coverage.finalize_with(
                                        right_area,
                                        cells,
                                        index + 1,
                                        num_groups,
                                        equipment,
                                    );
                                    if finalized.is_some() {
                                        return finalized;
                                    }
                                }
                            }
                            //try long area

                            let long_area = EnemyArea::long(&enemy);
                            if Self::hammer_enemy_can_be_covered(&enemy, &long_area, equipment) {
                                return coverage.finalize_with(
                                    long_area,
                                    cells,
                                    index + 1,
                                    num_groups,
                                    equipment,
                                );
                            }
                            return None;
                        }
                    },
                }
            }
            index += 1;
        }
        Some(coverage)
    }

    /// Tries to extend the areas and one more area to a coverage of the enemies on the cells
    /// from `from` on. The areas themselves stay as they are.
    fn finalize_with(
        &self,
        area: EnemyArea,
        cells: &Vec<Cell>,
        from: usize,
        num_groups: usize,
        equipment: &AvailableEquipment,
    ) -> (res: Option<Self>)
        requires
            cells@.len() == CELLS,
            0 < from <= CELLS,
        ensures
            areas_of(res) == spec_finalize(
                self@.push(area@),
                cells@,
                from as int,
                num_groups as int,
                *equipment,
            ),
        decreases CELLS - from, 1nat,
    {
        let mut next_coverage = self.clone();
        next_coverage.push(area);
        next_coverage.finalize(cells, from, num_groups, equipment)
    }

    /// Whether a new area of the given shape takes up no slot which one of the areas has
    /// taken up already.
    pub fn can_hold(&self, area: &TargetArea) -> (res: bool)
        ensures
            res == spec_can_hold(self@, *area),
    {
        broadcast use vstd::std_specs::hash::group_hash_axioms;

        let mut covered_columns: HashSet<Num> = HashSet::new();
        let mut i: usize = 0;
        while i < self.areas.len()
            invariant
                i <= self.areas@.len(),
                forall|column: Num| #[trigger]
                    covered_columns@.contains(column) <==> exists|j: int|
                        0 <= j < i && (#[trigger] self@[j]).target_area.claims(column),
            decreases self.areas@.len() - i,
        {
            let ghost before = covered_columns@;
            match self.areas[i].target_area {
                TargetArea::Long { column } => {
                    covered_columns.insert(column);
                },
                TargetArea::Wide { left_column } => {
                    covered_columns.insert(left_column);
                    covered_columns.insert(TargetArea::right_column(left_column));
                },
            }
            proof {
                let target_area = self@[i as int].target_area;
                assert forall|column: Num| #[trigger]
                    covered_columns@.contains(column) <==> exists|j: int|
                        0 <= j < i + 1 && (#[trigger] self@[j]).target_area.claims(column) by {
                    if covered_columns@.contains(column) {
                        if before.contains(column) {
                            let j = choose|j: int|
                                0 <= j < i && (#[trigger] self@[j]).target_area.claims(column);
                            assert(self@[j].target_area.claims(column));
                        } else {
                            assert(self@[i as int].target_area.claims(column));
                        }
                    }
                    if exists|j: int|
                        0 <= j < i + 1 && (#[trigger] self@[j]).target_area.claims(column) {
                        let j = choose|j: int|
                            0 <= j < i + 1 && (#[trigger] self@[j]).target_area.claims(column);
                        if j < i {
                            assert(before.contains(column));
                        }
                    }
                }
            }
            i += 1;
        }
        let res = !match area {
            TargetArea::Long { column } => covered_columns.contains(column),
            TargetArea::Wide { left_column } => {
                covered_columns.contains(left_column) || covered_columns.contains(
                    &Dimension::Column.next(*left_column),
                )
            },
        };
        proof {
            if spec_can_hold(self@, *area) {
                assert forall|column: Num| area.claims(column) implies !covered_columns@.contains(
                    column,
                ) by {
                    if covered_columns@.contains(column) {
                        let j = choose|j: int|
                            0 <= j < i && (#[trigger] self@[j]).target_area.claims(column);
                        assert(self@[j].target_area.collides(*area));
                    }
                }
            } else {
                let j = choose|j: int|
                    0 <= j < self@.len() && (#[trigger] self@[j]).target_area.collides(*area);
                assert(self@[j].target_area.collides(*area));
            }
        }
        res
    }

    /// An enemy which requires a hammer is hit on a long area only by a thrown hammer.
    fn hammer_enemy_can_be_covered(
        enemy: &Enemy,
        covering_area: &EnemyArea,
        equipment: &AvailableEquipment,
    ) -> (res: bool)
        ensures
            res == spec_hammer_enemy_can_be_covered(
                enemy.required_attack,
                covering_area.target_area,
                *equipment,
            ),
    {
        !(matches!(covering_area.target_area, TargetArea::Long { .. }) && matches!(
            enemy.required_attack,
            Some(RequiredAttack::Hammer)
        ) && !equipment.throwing_hammer)
    }

    /// Whether one of the areas covers the cell.
    pub fn covers(&self, position: &Position) -> (res: bool)
        ensures
            res <==> exists|i: int|
                0 <= i < self@.len() && (#[trigger] self@[i]).target_area.spec_covers(*position),
    {
        proof {
            lemma_first_covering(self@, *position, 0);
        }
        self.get_covering_area(position).is_some()
    }
}

/// What a [`SolvableArena`] is in specifications.
pub struct SolvableArenaView {
    pub enemies: Seq<Enemy>,
    pub num_groups: Option<Num>,
    pub available_equipment: AvailableEquipment,
}

impl SolvableArenaView {
    /// The number of attack areas which may be used: the number which has been set by hand,
    /// else one for every four enemies or part thereof.
    pub open spec fn num_groups(self) -> Num {
        match self.num_groups {
            Some(num_groups) => num_groups,
            None => (((self.enemies.len() + 3) / 4) % 256) as Num,
        }
    }

    /// The coverage which the search finds for the board.
    pub open spec fn find(self) -> Option<Seq<EnemyAreaView>> {
        spec_finalize(
            Seq::empty(),
            spec_grid(self.enemies),
            0,
            self.num_groups() as int,
            self.available_equipment,
        )
    }

    /// Whether the search finds a coverage for the board.
    pub open spec fn is_solved(self) -> bool {
        self.find() is Some
    }

    /// The board after the move.
    pub open spec fn moved(self, move_: Move) -> SolvableArenaView {
        SolvableArenaView {
            enemies: all_moved(self.enemies, move_),
            num_groups: self.num_groups,
            available_equipment: self.available_equipment,
        }
    }
}

/// A board with enemies, the number of groups in which they may be attacked and the
/// equipment at hand.
#[derive(Debug, PartialEq, Eq, Hash)]
pub struct SolvableArena {
    pub inner: Arena<Enemy>,
    /// The number of groups, where it has been set by hand.
    pub num_groups: Option<Num>,
    pub available_equipment: AvailableEquipment,
}

impl View for SolvableArena {
    type V = SolvableArenaView;

    open spec fn view(&self) -> SolvableArenaView {
        SolvableArenaView {
            enemies: self.inner.enemies@,
            num_groups: self.num_groups,
            available_equipment: self.available_equipment,
        }
    }
}

impl Default for SolvableArena {
    /// An empty board with all equipment.
    fn default() -> (res: Self)
        ensures
            res@ == Self::default_view(),
    {
        Self {
            inner: Arena::default(),
            num_groups: None,
            available_equipment: AvailableEquipment::default(),
        }
    }
}

impl Clone for SolvableArena {
    fn clone(&self) -> (res: Self)
        ensures
            res@ == self@,
    {
        Self {
            inner: self.inner.clone(),
            num_groups: self.num_groups,
            available_equipment: self.available_equipment,
        }
    }
}

impl SolvableArena {
    /// An empty board with all equipment.
    pub open spec fn default_view() -> SolvableArenaView {
        SolvableArenaView {
            enemies: Seq::empty(),
            num_groups: None,
            available_equipment: AvailableEquipment { throwing_hammer: true, iron_boots: true },
        }
    }

    /// The number of attack areas which may be used: the number which has been set by hand,
    /// else one for every four enemies or part thereof.
    pub fn num_groups(&self) -> (res: Num)
        ensures
            res == self@.num_groups(),
    {
        match self.num_groups {
            Some(num_groups) => num_groups,
            None => {
                let num_enemies = self.inner.enemies.len();
                let mut num_groups = num_enemies / 4;
                if num_enemies % 4 != 0 {
                    num_groups += 1;
                }
                (num_groups % 256) as Num
            },
        }
    }

    /// Whether all enemies can be eliminated with the board as it is.
    pub fn is_solved(&self) -> (res: bool)
        ensures
            res == self@.is_solved(),
    {
        Coverage::find(self).is_some()
    }

    /// Puts the enemy on its cell. An enemy which stood there before is replaced.
    pub fn add(&mut self, enemy: Enemy)
        ensures
            final(self).inner.enemies@ == if old(self).inner.occupied(enemy.position) {
                old(self).inner.enemies@.update(old(self).inner.spec_index_at(enemy.position), enemy)
            } else {
                old(self).inner.enemies@.push(enemy)
            },
            old(self).inner.wf() && enemy.position.wf() ==> final(self).inner.wf(),
            final(self).num_groups == old(self).num_groups,
            final(self).available_equipment == old(self).available_equipment,
    {
        self.inner.add(enemy);
    }

    /// Takes away the enemy on the given cell.
    pub fn remove(&mut self, at: &Position)
        ensures
            final(self).inner.enemies@ == without(old(self).inner.enemies@, *at),
            old(self).inner.wf() ==> final(self).inner.wf(),
            final(self).num_groups == old(self).num_groups,
            final(self).available_equipment == old(self).available_equipment,
    {
        self.inner.remove(at);
    }

    /// Moves every enemy as the move tells.
    pub fn apply_move(&mut self, move_: Move)
        ensures
            final(self)@ == old(self)@.moved(move_),
            old(self).inner.wf() && move_.wf() ==> final(self).inner.wf(),
    {
        self.inner.apply_move(move_);
    }
}

} // verus!
