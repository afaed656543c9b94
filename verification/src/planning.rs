//! The search for a short sequence of moves which leads to a board on which all enemies can
//! be eliminated.

use crate::position::{Dimension, Move, Num};
use crate::solving::{
    grid, spec_finalize, spec_grid, AvailableEquipment, Cell, RequiredAttack, SolvableArena,
    SolvableArenaView, CELLS,
};
use crate::soundness::{lemma_solution_solves, lemma_solve_without_turns, solves};
use std::collections::HashMap;
use vstd::prelude::*;

verus! {

/// The number of moves which are tried from a board.
pub const CANDIDATES: usize = 96;

/// The moves in the order in which they are tried: the rotations of the rings before the
/// pushes of the spokes, by rising coordinate and then by rising amount, all in the positive
/// direction. A rotation goes by one to twelve slots, a push by one to four rings.
pub open spec fn spec_candidate(index: int) -> Move {
    if index < 48 {
        Move {
            dimension: Dimension::Row,
            coordinate: (index / 12) as Num,
            amount: (index % 12 + 1) as Num,
            in_positive_direction: true,
        }
    } else {
        Move {
            dimension: Dimension::Column,
            coordinate: ((index - 48) / 4) as Num,
            amount: ((index - 48) % 4 + 1) as Num,
            in_positive_direction: true,
        }
    }
}

/// The move at the given place of the order in which moves are tried.
pub fn candidate(index: usize) -> (res: Move)
    requires
        index < CANDIDATES,
    ensures
        res == spec_candidate(index as int),
        res.wf(),
{
    if index < 48 {
        Move {
            dimension: Dimension::Row,
            coordinate: (index / 12) as Num,
            amount: (index % 12 + 1) as Num,
            in_positive_direction: true,
        }
    } else {
        Move {
            dimension: Dimension::Column,
            coordinate: ((index - 48) / 4) as Num,
            amount: ((index - 48) % 4 + 1) as Num,
            in_positive_direction: true,
        }
    }
}

/// The sum of the amounts of the canonical forms of the moves.
pub open spec fn spec_total_amount(moves: Seq<Move>) -> int
    decreases moves.len(),
{
    if moves.len() == 0 {
        0
    } else {
        spec_total_amount(moves.drop_last()) + moves.last().normalized().amount
    }
}

/// Whether the first solution is better than the second: it has fewer moves, or as many
/// moves with a smaller sum of canonical amounts.
pub open spec fn spec_is_better(solution: Seq<Move>, than: Seq<Move>) -> bool {
    solution.len() < than.len() || (solution.len() == than.len() && spec_total_amount(solution)
        < spec_total_amount(than))
}

/// The better one of the best solution so far and a further solution. The earlier one stays
/// where neither is better.
pub open spec fn spec_better(best: Option<Seq<Move>>, solution: Seq<Move>) -> Seq<Move> {
    match best {
        Some(current_best) => if spec_is_better(solution, current_best) {
            solution
        } else {
            current_best
        },
        None => solution,
    }
}

/// The moves which [`solve`] returns for the board and the number of turns.
///
/// A board on which all enemies can be eliminated needs no move. Else, if there is a turn,
/// every move is tried in the order of [`spec_candidate`] and the board after it is solved
/// with one turn less. The fast search returns the first solution which it meets. The
/// thorough search returns the best one by [`spec_is_better`], and of equally good ones the
/// first.
pub open spec fn spec_solve(board: SolvableArenaView, in_turns: nat, fast: bool) -> Option<
    Seq<Move>,
>
    decreases in_turns, CANDIDATES + 1,
{
    if board.is_solved() {
        Some(Seq::empty())
    } else if in_turns == 0 {
        None
    } else {
        spec_solve_from(board, in_turns, fast, 0, None)
    }
}

/// The result of the search once the moves before `index` have been tried with `best` as
/// the best solution.
pub open spec fn spec_solve_from(
    board: SolvableArenaView,
    in_turns: nat,
    fast: bool,
    index: int,
    best: Option<Seq<Move>>,
) -> Option<Seq<Move>>
    decreases in_turns, CANDIDATES - index,
{
    if index >= CANDIDATES || in_turns == 0 {
        best
    } else {
        let move_ = spec_candidate(index);
        match spec_solve(board.moved(move_), (in_turns - 1) as nat, fast) {
            Some(rest) => {
                let solution = seq![move_] + rest;
                if fast {
                    Some(solution)
                } else {
                    spec_solve_from(
                        board,
                        in_turns,
                        fast,
                        index + 1,
                        Some(spec_better(best, solution)),
                    )
                }
            },
            None => spec_solve_from(board, in_turns, fast, index + 1, best),
        }
    }
}

/// The board after the moves, one after the other.
pub open spec fn spec_moved_by(board: SolvableArenaView, moves: Seq<Move>) -> SolvableArenaView
    decreases moves.len(),
{
    if moves.len() == 0 {
        board
    } else {
        spec_moved_by(board.moved(moves.first()), moves.drop_first())
    }
}

/// The moves of the solution, if there is one.
pub open spec fn moves_of(solution: Option<Vec<Move>>) -> Option<Seq<Move>> {
    match solution {
        Some(moves) => Some(moves@),
        None => None,
    }
}

/// The digit which stands for what is on a cell.
pub open spec fn cell_digit(cell: Cell) -> int {
    match cell {
        Cell::Empty => 0,
        Cell::Occupied(None) => 1,
        Cell::Occupied(Some(RequiredAttack::IronBootsOrHammer)) => 2,
        Cell::Occupied(Some(RequiredAttack::Jump)) => 3,
        Cell::Occupied(Some(RequiredAttack::Hammer)) => 4,
    }
}

/// The number whose digits to the base five stand for the first `count` cells.
pub open spec fn grid_code(cells: Seq<Cell>, count: int) -> int
    decreases count,
{
    if count <= 0 {
        0
    } else {
        grid_code(cells, count - 1) * 5 + cell_digit(cells[count - 1])
    }
}

/// The number under which the cache keeps whether a board can be solved. It stands for
/// everything on which this depends: what is on the cells, the number of groups and the
/// equipment.
pub open spec fn spec_key(cells: Seq<Cell>, num_groups: Num, equipment: AvailableEquipment) -> int {
    (grid_code(cells, CELLS as int) * 256 + num_groups) * 4 + (if equipment.throwing_hammer {
        2int
    } else {
        0int
    }) + (if equipment.iron_boots {
        1int
    } else {
        0int
    })
}

/// Five to the power of `exponent`.
spec fn pow5(exponent: nat) -> int
    decreases exponent,
{
    if exponent == 0 {
        1
    } else {
        5 * pow5((exponent - 1) as nat)
    }
}

proof fn lemma_pow5_monotonic(smaller: nat, larger: nat)
    requires
        smaller <= larger,
    ensures
        0 < pow5(smaller) <= pow5(larger),
    decreases larger,
{
    if smaller < larger {
        lemma_pow5_monotonic(smaller, (larger - 1) as nat);
    } else if smaller > 0 {
        lemma_pow5_monotonic((smaller - 1) as nat, (larger - 1) as nat);
    }
}

proof fn lemma_pow5_of_cells()
    ensures
        pow5(48) == 3552713678800500929355621337890625,
{
    assert(pow5(8) == 390625) by {
        reveal_with_fuel(pow5, 9);
    }
    assert(pow5(16) == 390625 * pow5(8)) by {
        reveal_with_fuel(pow5, 9);
    }
    assert(pow5(24) == 390625 * pow5(16)) by {
        reveal_with_fuel(pow5, 9);
    }
    assert(pow5(32) == 390625 * pow5(24)) by {
        reveal_with_fuel(pow5, 9);
    }
    assert(pow5(40) == 390625 * pow5(32)) by {
        reveal_with_fuel(pow5, 9);
    }
    assert(pow5(48) == 390625 * pow5(40)) by {
        reveal_with_fuel(pow5, 9);
    }
}

proof fn lemma_grid_code_bound(cells: Seq<Cell>, count: nat)
    ensures
        0 <= grid_code(cells, count as int) < pow5(count),
    decreases count,
{
    if count > 0 {
        lemma_grid_code_bound(cells, (count - 1) as nat);
    }
}

/// Different cells have different digits, so the code tells what is on every cell.
proof fn lemma_grid_code_injective(first: Seq<Cell>, second: Seq<Cell>, count: int)
    requires
        grid_code(first, count) == grid_code(second, count),
    ensures
        forall|i: int| 0 <= i < count ==> first[i] == second[i],
    decreases count,
{
    if count > 0 {
        lemma_grid_code_injective(first, second, count - 1);
    }
}

/// Only one board stands behind a key.
pub proof fn lemma_key_injective(
    first: Seq<Cell>,
    first_groups: Num,
    first_equipment: AvailableEquipment,
    second: Seq<Cell>,
    second_groups: Num,
    second_equipment: AvailableEquipment,
)
    requires
        first.len() == CELLS,
        second.len() == CELLS,
        spec_key(first, first_groups, first_equipment) == spec_key(
            second,
            second_groups,
            second_equipment,
        ),
    ensures
        first == second,
        first_groups == second_groups,
        first_equipment == second_equipment,
{
    lemma_grid_code_injective(first, second, CELLS as int);
    assert(first =~= second);
}

/// Computes the key of a board.
fn key(cells: &Vec<Cell>, num_groups: Num, equipment: &AvailableEquipment) -> (res: u128)
    requires
        cells@.len() == CELLS,
    ensures
        res == spec_key(cells@, num_groups, *equipment),
{
    let mut code: u128 = 0;
    let mut index: usize = 0;
    proof {
        lemma_pow5_of_cells();
    }
    while index < CELLS
        invariant
            index <= CELLS,
            cells@.len() == CELLS,
            code == grid_code(cells@, index as int),
            pow5(48) == 3552713678800500929355621337890625,
        decreases CELLS - index,
    {
        proof {
            lemma_grid_code_bound(cells@, index as nat);
            lemma_pow5_monotonic(index as nat, 47);
            lemma_pow5_monotonic(48, 48);
            assert(pow5(48) == 5 * pow5(47));
        }
        let digit: u128 = match cells[index] {
            Cell::Empty => 0,
            Cell::Occupied(None) => 1,
            Cell::Occupied(Some(RequiredAttack::IronBootsOrHammer)) => 2,
            Cell::Occupied(Some(RequiredAttack::Jump)) => 3,
            Cell::Occupied(Some(RequiredAttack::Hammer)) => 4,
        };
        code = code * 5 + digit;
        index += 1;
    }
    proof {
        lemma_grid_code_bound(cells@, 48);
    }
    let hammer: u128 = if equipment.throwing_hammer {
        2
    } else {
        0
    };
    let boots: u128 = if equipment.iron_boots {
        1
    } else {
        0
    };
    (code * 256 + num_groups as u128) * 4 + hammer + boots
}

/// Whether a coverage is found for what the cells hold.
pub open spec fn spec_solvable(
    cells: Seq<Cell>,
    num_groups: Num,
    equipment: AvailableEquipment,
) -> bool {
    spec_finalize(Seq::empty(), cells, 0, num_groups as int, equipment) is Some
}

/// Remembers for boards whether all their enemies can be eliminated, so that no board has
/// to be examined twice in one search.
pub struct SolvedCache {
    solved: HashMap<u128, bool>,
}

impl SolvedCache {
    /// What is remembered of a board is true.
    #[verifier::type_invariant]
    spec fn sound(self) -> bool {
        forall|cells: Seq<Cell>, num_groups: Num, equipment: AvailableEquipment|
            cells.len() == CELLS && self.solved@.contains_key(
                #[trigger] spec_key(cells, num_groups, equipment) as u128,
            ) ==> self.solved@[spec_key(cells, num_groups, equipment) as u128] == spec_solvable(
                cells,
                num_groups,
                equipment,
            )
    }

    /// The keys of the boards which the cache remembers.
    pub closed spec fn remembered(&self) -> Set<int> {
        Set::new(|key: int| 0 <= key <= u128::MAX && self.solved@.contains_key(key as u128))
    }

    /// The number of boards which the cache remembers.
    pub closed spec fn spec_len(&self) -> nat {
        self.solved@.len()
    }

    /// A cache which remembers nothing yet.
    pub fn new() -> (res: Self)
        ensures
            res.remembered() == Set::<int>::empty(),
            res.spec_len() == 0,
    {
        broadcast use vstd::std_specs::hash::group_hash_axioms;

        let res = Self { solved: HashMap::new() };
        assert(res.remembered() =~= Set::<int>::empty());
        res
    }

    /// The number of boards which the cache remembers.
    pub fn len(&self) -> (res: usize)
        ensures
            res == self.spec_len(),
    {
        broadcast use vstd::std_specs::hash::group_hash_axioms;

        self.solved.len()
    }

    /// Whether all enemies of the board can be eliminated. The board is examined only if
    /// the cache does not remember it.
    pub fn is_solved(&mut self, arena: &SolvableArena) -> (res: bool)
        ensures
            res == arena@.is_solved(),
            final(self).remembered() == old(self).remembered().insert(
                spec_key(spec_grid(arena@.enemies), arena@.num_groups(), arena@.available_equipment),
            ),
    {
        broadcast use vstd::std_specs::hash::group_hash_axioms;

        let cells = grid(&arena.inner);
        let num_groups = arena.num_groups();
        let key = key(&cells, num_groups, &arena.available_equipment);
        proof {
            use_type_invariant(&*self);
        }
        proof {
            lemma_key_fits(cells@, num_groups, arena.available_equipment);
        }
        match self.solved.get(&key) {
            Some(solved) => {
                assert(self.remembered() =~= old(self).remembered().insert(key as int));
                *solved
            },
            None => {
                let solved = arena.is_solved();
                let ghost before = self.solved@;
                let mut remembered = Self::new();
                core::mem::swap(self, &mut remembered);
                let Self { solved: mut boards } = remembered;
                boards.insert(key, solved);
                proof {
                    assert forall|
                        other: Seq<Cell>,
                        other_groups: Num,
                        other_equipment: AvailableEquipment,
                    |
                        other.len() == CELLS && boards@.contains_key(
                            #[trigger] spec_key(other, other_groups, other_equipment) as u128,
                        ) implies boards@[spec_key(other, other_groups, other_equipment) as u128]
                        == spec_solvable(other, other_groups, other_equipment) by {
                        lemma_key_fits(other, other_groups, other_equipment);
                        lemma_key_fits(cells@, num_groups, arena.available_equipment);
                        if spec_key(other, other_groups, other_equipment) == key {
                            lemma_key_injective(
                                other,
                                other_groups,
                                other_equipment,
                                cells@,
                                num_groups,
                                arena.available_equipment,
                            );
                        } else {
                            assert(before.contains_key(
                                spec_key(other, other_groups, other_equipment) as u128,
                            ));
                        }
                    }
                }
                *self = Self { solved: boards };
                assert(self.remembered() =~= old(self).remembered().insert(key as int));
                solved
            },
        }
    }
}

/// Every key fits into the integer type of the cache.
proof fn lemma_key_fits(cells: Seq<Cell>, num_groups: Num, equipment: AvailableEquipment)
    ensures
        0 <= spec_key(cells, num_groups, equipment) <= u128::MAX,
{
    lemma_pow5_of_cells();
    lemma_grid_code_bound(cells, 48);
}

/// Adds up the amounts of the canonical forms of the moves.
fn total_amount(moves: &Vec<Move>) -> (res: u128)
    ensures
        res == spec_total_amount(moves@),
{
    let mut sum: u128 = 0;
    let mut index: usize = 0;
    while index < moves.len()
        invariant
            index <= moves@.len(),
            sum == spec_total_amount(moves@.take(index as int)),
            sum <= 6 * index,
        decreases moves@.len() - index,
    {
        assert(moves@.take(index + 1).drop_last() =~= moves@.take(index as int));
        sum += moves[index].normalized().amount as u128;
        index += 1;
    }
    assert(moves@.take(moves@.len() as int) =~= moves@);
    sum
}

/// Whether the first solution is better than the second.
fn is_better(solution: &Vec<Move>, than: &Vec<Move>) -> (res: bool)
    ensures
        res == spec_is_better(solution@, than@),
{
    if solution.len() < than.len() {
        true
    } else if solution.len() == than.len() {
        total_amount(solution) < total_amount(than)
    } else {
        false
    }
}

/// Searches moves which lead to a board on which all enemies can be eliminated, at most as
/// many as there are turns.
///
/// Every move is tried in a fixed order, and the board after it is solved with one turn
/// less. The fast search returns the first solution which it meets, the thorough search the
/// one with the fewest moves and, among those, with the smallest canonical amounts. The
/// cache is consulted before a board is examined and remembers every examined board.
pub fn solve(
    arena: &SolvableArena,
    in_turns: Num,
    fast: bool,
    arena_solved_cache: Option<&mut SolvedCache>,
) -> (res: Option<Vec<Move>>)
    ensures
        moves_of(res) == spec_solve(arena@, in_turns as nat, fast),
        res matches Some(moves) ==> solves(arena@, in_turns as nat, moves@),
        in_turns == 0 ==> (res is Some <==> arena@.is_solved()),
        in_turns == 0 ==> (res matches Some(moves) ==> moves@.len() == 0),
{
    proof {
        lemma_solution_solves(arena@, in_turns as nat, fast);
        lemma_solve_without_turns(arena@, fast);
    }
    match arena_solved_cache {
        Some(cache) => solve_with(arena, in_turns, fast, cache),
        None => {
            let mut new_cache = SolvedCache::new();
            solve_with(arena, in_turns, fast, &mut new_cache)
        },
    }
}

/// [`solve`] with a cache at hand.
fn solve_with(arena: &SolvableArena, in_turns: Num, fast: bool, cache: &mut SolvedCache) -> (res:
    Option<Vec<Move>>)
    ensures
        moves_of(res) == spec_solve(arena@, in_turns as nat, fast),
    decreases in_turns,
{
    if cache.is_solved(arena) {
        return Some(Vec::new());
    }
    if in_turns == 0 {
        return None;
    }
    let mut best_solution: Option<Vec<Move>> = None;
    let mut index: usize = 0;
    while index < CANDIDATES
        invariant
            index <= CANDIDATES,
            in_turns > 0,
            spec_solve_from(arena@, in_turns as nat, fast, index as int, moves_of(best_solution))
                == spec_solve(arena@, in_turns as nat, fast),
        decreases CANDIDATES - index,
    {
        let move_ = candidate(index);
        let mut arena_clone = arena.clone();
        arena_clone.apply_move(move_);
        if let Some(mut solution) = solve_with(&arena_clone, in_turns - 1, fast, cache) {
            let ghost rest = solution@;
            solution.insert(0, move_);
            assert(solution@ =~= seq![move_] + rest);
            if fast {
                return Some(solution);
            }
            let better = match &best_solution {
                Some(current_best) => is_better(&solution, current_best),
                None => true,
            };
            if better {
                best_solution = Some(solution);
            }
        }
        index += 1;
    }
    best_solution
}

/// The smallest number of turns from `from` to `max_turns` with which the search succeeds.
pub open spec fn spec_fewest_turns(
    board: SolvableArenaView,
    from: nat,
    max_turns: nat,
    fast: bool,
) -> Option<nat>
    decreases max_turns + 1 - from,
{
    if from > max_turns {
        None
    } else if spec_solve(board, from, fast) is Some {
        Some(from)
    } else {
        spec_fewest_turns(board, from + 1, max_turns, fast)
    }
}

/// What [`solve_within`] returns: the smallest number of turns, at least one and at most
/// `max_turns`, with which the search succeeds, and the moves which it finds with it.
pub open spec fn spec_solve_within(board: SolvableArenaView, max_turns: nat, fast: bool) -> Option<
    (Num, Seq<Move>),
> {
    match spec_fewest_turns(board, 1, max_turns, fast) {
        Some(in_turns) => Some((in_turns as Num, spec_solve(board, in_turns, fast)->Some_0)),
        None => None,
    }
}

/// Searches with one turn, then with two turns and so on up to `max_turns`, until moves are
/// found. All these searches share one cache.
pub fn solve_within(arena: &SolvableArena, max_turns: Num, fast: bool) -> (res: Option<
    (Num, Vec<Move>),
>)
    ensures
        match spec_solve_within(arena@, max_turns as nat, fast) {
            Some((in_turns, moves)) => res matches Some((found_in, found)) && found_in == in_turns
                && found@ == moves && solves(arena@, in_turns as nat, moves),
            None => res is None,
        },
{
    let mut cache = SolvedCache::new();
    let mut in_turns: Num = 1;
    while in_turns <= max_turns
        invariant
            1 <= in_turns,
            in_turns <= max_turns + 1,
            spec_fewest_turns(arena@, 1, max_turns as nat, fast) == spec_fewest_turns(
                arena@,
                in_turns as nat,
                max_turns as nat,
                fast,
            ),
        decreases max_turns + 1 - in_turns,
    {
        if let Some(solution) = solve(arena, in_turns, fast, Some(&mut cache)) {
            return Some((in_turns, solution));
        }
        if in_turns == Num::MAX {
            assert(spec_fewest_turns(arena@, in_turns as nat + 1, max_turns as nat, fast) is None);
            return None;
        }
        in_turns += 1;
    }
    None
}

} // verus!
