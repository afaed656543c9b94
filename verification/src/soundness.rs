//! What the two searches guarantee.
//!
//! A coverage which is found hits every enemy exactly once within the budget of areas. Moves
//! which are found lead within the turns to a board with a coverage; the fast and the
//! thorough search find moves for the same boards, more turns never lose them, and the
//! thorough search finds the fewest. The order in which a board holds its enemies counts for
//! neither search.

use crate::arena::{
    all_moved, first_index_at, lemma_all_moved_well_placed, lemma_first_index_at, well_placed,
    Positioned,
};
use crate::planning::{
    spec_better, spec_candidate, spec_moved_by, spec_solve, spec_solve_from, CANDIDATES,
};
use crate::position::{Move, Position};
use crate::solving::{
    cell_index, cell_position, first_covering, lemma_first_covering, spec_assign, spec_can_hold,
    spec_extend, spec_finalize, spec_grid, AvailableEquipment, Cell, Enemy, EnemyAreaView,
    SolvableArenaView, TargetArea, CELLS,
};
use vstd::prelude::*;

verus! {

/// No slot is taken up by two of the areas.
pub open spec fn disjoint(areas: Seq<EnemyAreaView>) -> bool {
    forall|i: int, j: int|
        0 <= i < j < areas.len() ==> !(#[trigger] areas[i]).target_area.collides(
            (#[trigger] areas[j]).target_area,
        )
}

/// Every area has an attack left.
pub open spec fn all_live(areas: Seq<EnemyAreaView>) -> bool {
    forall|i: int| 0 <= i < areas.len() ==> (#[trigger] areas[i]).live()
}

/// Exactly one of the areas covers the cell.
pub open spec fn covered_once(areas: Seq<EnemyAreaView>, position: Position) -> bool {
    &&& exists|i: int| 0 <= i < areas.len() && (#[trigger] areas[i]).target_area.spec_covers(position)
    &&& forall|i: int, j: int|
        0 <= i < areas.len() && 0 <= j < areas.len() && (#[trigger] areas[i]).target_area.spec_covers(
            position,
        ) && (#[trigger] areas[j]).target_area.spec_covers(position) ==> i == j
}

/// One of the areas covers the cell.
spec fn covered(areas: Seq<EnemyAreaView>, position: Position) -> bool {
    exists|i: int| 0 <= i < areas.len() && (#[trigger] areas[i]).target_area.spec_covers(position)
}

/// The enemies on the cells before `until` are covered.
spec fn covered_until(areas: Seq<EnemyAreaView>, grid: Seq<Cell>, until: int) -> bool {
    forall|index: int|
        0 <= index < until && grid[index] is Occupied ==> covered(
            areas,
            #[trigger] cell_position(index),
        )
}

/// All areas are long ones.
spec fn all_long(areas: Seq<EnemyAreaView>) -> bool {
    forall|i: int| 0 <= i < areas.len() ==> (#[trigger] areas[i]).target_area is Long
}

/// What holds of the areas while the search goes through the cells.
#[verifier::opaque]
spec fn searching(areas: Seq<EnemyAreaView>, grid: Seq<Cell>, from: int, num_groups: int) -> bool {
    &&& grid.len() == CELLS
    &&& 0 <= from <= CELLS
    &&& areas.len() <= num_groups
    &&& disjoint(areas)
    &&& all_live(areas)
    &&& covered_until(areas, grid, from)
    &&& from <= 24 ==> all_long(areas)
}

/// An area which covers a cell takes up the slot of the cell. On the inner rings, and for a
/// long area everywhere, the converse holds too.
proof fn lemma_covers_claims(target_area: TargetArea, position: Position)
    ensures
        target_area.spec_covers(position) ==> target_area.claims(position.column),
        target_area.claims(position.column) && (!position.spec_is_outer() || target_area is Long)
            ==> target_area.spec_covers(position),
{
}

/// Two areas which take up a common slot collide.
proof fn lemma_common_claim_collides(first: TargetArea, second: TargetArea, column: u8)
    requires
        first.claims(column),
        second.claims(column),
    ensures
        first.collides(second),
{
}

/// Assigning a further enemy to an area which covers its cell keeps what holds of the areas.
proof fn lemma_assign_keeps_searching(
    areas: Seq<EnemyAreaView>,
    grid: Seq<Cell>,
    from: int,
    num_groups: int,
    covering: int,
)
    requires
        searching(areas, grid, from, num_groups),
        from < CELLS,
        grid[from] is Occupied,
        0 <= covering < areas.len(),
        areas[covering].target_area.spec_covers(cell_position(from)),
        spec_assign(areas, covering, grid[from]->Occupied_0) is Some,
    ensures
        searching(
            spec_assign(areas, covering, grid[from]->Occupied_0)->Some_0,
            grid,
            from + 1,
            num_groups,
        ),
{
    reveal(searching);
    let assigned = spec_assign(areas, covering, grid[from]->Occupied_0)->Some_0;
    assert forall|i: int| 0 <= i < assigned.len() implies (#[trigger] assigned[i]).target_area
        == areas[i].target_area by {}
    assert forall|index: int|
        0 <= index < from + 1 && grid[index] is Occupied implies covered(
        assigned,
        #[trigger] cell_position(index),
    ) by {
        if index < from {
            let i = choose|i: int|
                0 <= i < areas.len() && (#[trigger] areas[i]).target_area.spec_covers(
                    cell_position(index),
                );
            assert(assigned[i].target_area.spec_covers(cell_position(index)));
        } else {
            assert(assigned[covering].target_area.spec_covers(cell_position(index)));
        }
    }
    assert forall|i: int, j: int| 0 <= i < j < assigned.len() implies !(
    #[trigger] assigned[i]).target_area.collides((#[trigger] assigned[j]).target_area) by {
        assert(!areas[i].target_area.collides(areas[j].target_area));
    }
    assert forall|i: int| 0 <= i < assigned.len() implies (#[trigger] assigned[i]).live() by {
        assert(areas[i].live());
    }
    if from + 1 <= 24 {
        assert forall|i: int| 0 <= i < assigned.len() implies (
        #[trigger] assigned[i]).target_area is Long by {
            assert(areas[i].target_area is Long);
        }
    }
}

/// A new area which covers the cell of a further enemy and collides with none of the areas
/// keeps what holds of the areas.
proof fn lemma_extend_keeps_searching(
    areas: Seq<EnemyAreaView>,
    grid: Seq<Cell>,
    from: int,
    num_groups: int,
    target_area: TargetArea,
)
    requires
        searching(areas, grid, from, num_groups),
        from < CELLS,
        grid[from] is Occupied,
        areas.len() < num_groups,
        target_area.spec_covers(cell_position(from)),
        spec_can_hold(areas, target_area),
        from < 24 ==> target_area is Long,
    ensures
        searching(
            spec_extend(areas, target_area, grid[from]->Occupied_0),
            grid,
            from + 1,
            num_groups,
        ),
{
    reveal(searching);
    let extended = spec_extend(areas, target_area, grid[from]->Occupied_0);
    let last = areas.len() as int;
    assert(extended[last].target_area == target_area);
    assert forall|index: int|
        0 <= index < from + 1 && grid[index] is Occupied implies covered(
        extended,
        #[trigger] cell_position(index),
    ) by {
        if index < from {
            let i = choose|i: int|
                0 <= i < areas.len() && (#[trigger] areas[i]).target_area.spec_covers(
                    cell_position(index),
                );
            assert(extended[i].target_area.spec_covers(cell_position(index)));
        } else {
            assert(extended[last].target_area.spec_covers(cell_position(index)));
        }
    }
    assert forall|i: int, j: int| 0 <= i < j < extended.len() implies !(
    #[trigger] extended[i]).target_area.collides((#[trigger] extended[j]).target_area) by {
        if j < last {
            assert(!areas[i].target_area.collides(areas[j].target_area));
        } else {
            assert(!areas[i].target_area.collides(target_area));
        }
    }
    assert forall|i: int| 0 <= i < extended.len() implies (#[trigger] extended[i]).live() by {
        if i < last {
            assert(areas[i].live());
        }
    }
    if from + 1 <= 24 {
        assert forall|i: int| 0 <= i < extended.len() implies (
        #[trigger] extended[i]).target_area is Long by {
            if i < last {
                assert(areas[i].target_area is Long);
            }
        }
    }
}

/// Where no area covers the cell of an enemy, the long area of its slot collides with none.
proof fn lemma_long_can_be_held(areas: Seq<EnemyAreaView>, grid: Seq<Cell>, from: int, num_groups: int)
    requires
        searching(areas, grid, from, num_groups),
        from < CELLS,
        first_covering(areas, cell_position(from), 0) >= areas.len(),
    ensures
        spec_can_hold(areas, TargetArea::Long { column: cell_position(from).column }),
{
    reveal(searching);
    let position = cell_position(from);
    lemma_first_covering(areas, position, 0);
    assert forall|i: int| 0 <= i < areas.len() implies !(#[trigger] areas[i]).target_area.collides(
        TargetArea::Long { column: position.column },
    ) by {
        lemma_covers_claims(areas[i].target_area, position);
        if from < 24 {
            assert(areas[i].target_area is Long);
        }
    }
}

/// What holds of the areas goes on to hold behind a cell without an enemy.
proof fn lemma_skip_keeps_searching(
    areas: Seq<EnemyAreaView>,
    grid: Seq<Cell>,
    from: int,
    num_groups: int,
)
    requires
        searching(areas, grid, from, num_groups),
        from < CELLS,
        grid[from] is Empty,
    ensures
        searching(areas, grid, from + 1, num_groups),
{
    reveal(searching);
}

/// The search stays within the cells, and it has not more areas than there are groups.
proof fn lemma_searching_bounds(
    areas: Seq<EnemyAreaView>,
    grid: Seq<Cell>,
    from: int,
    num_groups: int,
)
    requires
        searching(areas, grid, from, num_groups),
    ensures
        grid.len() == CELLS,
        0 <= from <= CELLS,
        areas.len() <= num_groups,
{
    reveal(searching);
}

/// The coverage which the search finds covers the enemies on all cells, and what holds of
/// the areas during the search holds of it.
proof fn lemma_finalize_searching(
    areas: Seq<EnemyAreaView>,
    grid: Seq<Cell>,
    from: int,
    num_groups: int,
    equipment: AvailableEquipment,
)
    requires
        searching(areas, grid, from, num_groups),
    ensures
        spec_finalize(areas, grid, from, num_groups, equipment) matches Some(coverage) ==> searching(
            coverage,
            grid,
            CELLS as int,
            num_groups,
        ),
    decreases CELLS - from,
{
    lemma_searching_bounds(areas, grid, from, num_groups);
    if from < CELLS {
        match grid[from] {
            Cell::Empty => {
                lemma_skip_keeps_searching(areas, grid, from, num_groups);
                lemma_finalize_searching(areas, grid, from + 1, num_groups, equipment);
            },
            Cell::Occupied(required_attack) => {
                let position = cell_position(from);
                let covering = first_covering(areas, position, 0);
                let long = TargetArea::Long { column: position.column };
                lemma_first_covering(areas, position, 0);
                if covering < areas.len() {
                    if spec_assign(areas, covering, required_attack) is Some {
                        lemma_assign_keeps_searching(areas, grid, from, num_groups, covering);
                        lemma_finalize_searching(
                            spec_assign(areas, covering, required_attack)->Some_0,
                            grid,
                            from + 1,
                            num_groups,
                            equipment,
                        );
                    }
                } else if areas.len() < num_groups {
                    lemma_long_can_be_held(areas, grid, from, num_groups);
                    lemma_extend_keeps_searching(areas, grid, from, num_groups, long);
                    lemma_finalize_searching(
                        spec_extend(areas, long, required_attack),
                        grid,
                        from + 1,
                        num_groups,
                        equipment,
                    );
                    if !position.spec_is_outer() {
                        let left = TargetArea::spec_wide(position, true);
                        let right = TargetArea::spec_wide(position, false);
                        if spec_can_hold(areas, left) {
                            lemma_extend_keeps_searching(areas, grid, from, num_groups, left);
                            lemma_finalize_searching(
                                spec_extend(areas, left, required_attack),
                                grid,
                                from + 1,
                                num_groups,
                                equipment,
                            );
                        }
                        if spec_can_hold(areas, right) {
                            lemma_extend_keeps_searching(areas, grid, from, num_groups, right);
                            lemma_finalize_searching(
                                spec_extend(areas, right, required_attack),
                                grid,
                                from + 1,
                                num_groups,
                                equipment,
                            );
                        }
                    }
                }
            },
        }
    }
}

/// A coverage which is found has at most as many areas as the board has groups, every area
/// of it has an attack left, no two of its areas take up the same slot, and every enemy on
/// the board is covered by exactly one of its areas.
pub proof fn lemma_found_coverage_is_sound(board: SolvableArenaView)
    ensures
        board.find() matches Some(coverage) ==> {
            &&& coverage.len() <= board.num_groups()
            &&& all_live(coverage)
            &&& disjoint(coverage)
            &&& forall|i: int|
                0 <= i < board.enemies.len() && (#[trigger] board.enemies[i]).position.wf()
                    ==> covered_once(coverage, board.enemies[i].position)
        },
{
    let grid = spec_grid(board.enemies);
    let num_groups = board.num_groups() as int;
    assert(searching(Seq::empty(), grid, 0, num_groups)) by {
        reveal(searching);
    }
    lemma_finalize_searching(Seq::empty(), grid, 0, num_groups, board.available_equipment);
    if board.find() is Some {
        let coverage = board.find()->Some_0;
        reveal(searching);
        assert forall|i: int|
            0 <= i < board.enemies.len() && (#[trigger] board.enemies[i]).position.wf() implies covered_once(
            coverage,
            board.enemies[i].position,
        ) by {
            let position = board.enemies[i].position;
            let index = cell_index(position);
            assert(cell_position(index) == position);
            lemma_first_index_at(board.enemies, position, 0);
            assert(grid[index] is Occupied);
            assert(covered(coverage, cell_position(index)));
            assert forall|first: int, second: int|
                0 <= first < coverage.len() && 0 <= second < coverage.len() && (
                #[trigger] coverage[first]).target_area.spec_covers(position) && (
                #[trigger] coverage[second]).target_area.spec_covers(position) implies first
                == second by {
                lemma_covers_claims(coverage[first].target_area, position);
                lemma_covers_claims(coverage[second].target_area, position);
                lemma_common_claim_collides(
                    coverage[first].target_area,
                    coverage[second].target_area,
                    position.column,
                );
                lemma_common_claim_collides(
                    coverage[second].target_area,
                    coverage[first].target_area,
                    position.column,
                );
            }
        }
    }
}

/// The moves are no more than the turns, and on the board after them all enemies can be
/// eliminated.
pub open spec fn solves(board: SolvableArenaView, in_turns: nat, moves: Seq<Move>) -> bool {
    moves.len() <= in_turns && spec_moved_by(board, moves).is_solved()
}

/// Without a turn the search succeeds, with no move, exactly on the boards on which all
/// enemies can be eliminated as they stand.
pub proof fn lemma_solve_without_turns(board: SolvableArenaView, fast: bool)
    ensures
        spec_solve(board, 0, fast) == if board.is_solved() {
            Some(Seq::<Move>::empty())
        } else {
            None
        },
{
}

/// A solution which starts with a move and goes on with a solution of the board after it.
proof fn lemma_solves_after_move(
    board: SolvableArenaView,
    in_turns: nat,
    move_: Move,
    rest: Seq<Move>,
)
    requires
        in_turns > 0,
        solves(board.moved(move_), (in_turns - 1) as nat, rest),
    ensures
        solves(board, in_turns, seq![move_] + rest),
{
    let solution = seq![move_] + rest;
    assert(solution.first() == move_);
    assert(solution.drop_first() =~= rest);
}

/// What the search returns after some moves have been tried solves the board, if the best
/// solution of the moves tried before does.
proof fn lemma_solve_from_solves(
    board: SolvableArenaView,
    in_turns: nat,
    fast: bool,
    index: int,
    best: Option<Seq<Move>>,
)
    requires
        0 <= index,
        best matches Some(moves) ==> solves(board, in_turns, moves),
    ensures
        spec_solve_from(board, in_turns, fast, index, best) matches Some(moves) ==> solves(
            board,
            in_turns,
            moves,
        ),
    decreases in_turns, CANDIDATES - index,
{
    if index < CANDIDATES && in_turns > 0 {
        let move_ = spec_candidate(index);
        let after = board.moved(move_);
        lemma_solution_solves(after, (in_turns - 1) as nat, fast);
        match spec_solve(after, (in_turns - 1) as nat, fast) {
            Some(rest) => {
                lemma_solves_after_move(board, in_turns, move_, rest);
                if !fast {
                    lemma_solve_from_solves(
                        board,
                        in_turns,
                        fast,
                        index + 1,
                        Some(spec_better(best, seq![move_] + rest)),
                    );
                }
            },
            None => {
                lemma_solve_from_solves(board, in_turns, fast, index + 1, best);
            },
        }
    }
}

/// A solution which the search returns has at most as many moves as there were turns, and
/// on the board after these moves all enemies can be eliminated.
pub proof fn lemma_solution_solves(board: SolvableArenaView, in_turns: nat, fast: bool)
    ensures
        spec_solve(board, in_turns, fast) matches Some(moves) ==> solves(board, in_turns, moves),
    decreases in_turns, CANDIDATES + 1,
{
    if !board.is_solved() && in_turns > 0 {
        lemma_solve_from_solves(board, in_turns, fast, 0, None);
    }
}

/// One of the moves from `index` on leads to a board for which the search succeeds with one
/// turn less.
pub open spec fn some_candidate_solves(
    board: SolvableArenaView,
    in_turns: nat,
    fast: bool,
    index: int,
) -> bool
    decreases CANDIDATES - index,
{
    index < CANDIDATES && in_turns > 0 && (spec_solve(
        board.moved(spec_candidate(index)),
        (in_turns - 1) as nat,
        fast,
    ) is Some || some_candidate_solves(board, in_turns, fast, index + 1))
}

/// After some moves have been tried the search succeeds if it has a solution already or one
/// of the remaining moves leads to one.
proof fn lemma_solve_from_succeeds(
    board: SolvableArenaView,
    in_turns: nat,
    fast: bool,
    index: int,
    best: Option<Seq<Move>>,
)
    ensures
        spec_solve_from(board, in_turns, fast, index, best) is Some <==> best is Some
            || some_candidate_solves(board, in_turns, fast, index),
    decreases CANDIDATES - index,
{
    if index < CANDIDATES && in_turns > 0 {
        let move_ = spec_candidate(index);
        match spec_solve(board.moved(move_), (in_turns - 1) as nat, fast) {
            Some(rest) => {
                if !fast {
                    lemma_solve_from_succeeds(
                        board,
                        in_turns,
                        fast,
                        index + 1,
                        Some(spec_better(best, seq![move_] + rest)),
                    );
                }
            },
            None => {
                lemma_solve_from_succeeds(board, in_turns, fast, index + 1, best);
            },
        }
    }
}

/// The remaining moves lead to a solution for the fast search where they do for the
/// thorough one.
proof fn lemma_candidates_found_by_both(board: SolvableArenaView, in_turns: nat, index: int)
    ensures
        some_candidate_solves(board, in_turns, true, index) == some_candidate_solves(
            board,
            in_turns,
            false,
            index,
        ),
    decreases in_turns, CANDIDATES - index,
{
    if index < CANDIDATES && in_turns > 0 {
        lemma_found_by_both(board.moved(spec_candidate(index)), (in_turns - 1) as nat);
        lemma_candidates_found_by_both(board, in_turns, index + 1);
    }
}

/// The fast search and the thorough search succeed on the same boards.
pub proof fn lemma_found_by_both(board: SolvableArenaView, in_turns: nat)
    ensures
        spec_solve(board, in_turns, true) is Some <==> spec_solve(board, in_turns, false) is Some,
    decreases in_turns, CANDIDATES + 1,
{
    if !board.is_solved() && in_turns > 0 {
        lemma_solve_from_succeeds(board, in_turns, true, 0, None);
        lemma_solve_from_succeeds(board, in_turns, false, 0, None);
        lemma_candidates_found_by_both(board, in_turns, 0);
    }
}

/// The remaining moves which lead to a solution do so with one turn more.
proof fn lemma_candidates_with_more_turns(
    board: SolvableArenaView,
    in_turns: nat,
    fast: bool,
    index: int,
)
    requires
        some_candidate_solves(board, in_turns, fast, index),
    ensures
        some_candidate_solves(board, in_turns + 1, fast, index),
    decreases in_turns, CANDIDATES - index,
{
    let after = board.moved(spec_candidate(index));
    if spec_solve(after, (in_turns - 1) as nat, fast) is Some {
        lemma_found_with_more_turns(after, (in_turns - 1) as nat, fast);
    } else {
        lemma_candidates_with_more_turns(board, in_turns, fast, index + 1);
    }
}

/// A search which succeeds within some turns succeeds with one more turn too.
pub proof fn lemma_found_with_more_turns(board: SolvableArenaView, in_turns: nat, fast: bool)
    requires
        spec_solve(board, in_turns, fast) is Some,
    ensures
        spec_solve(board, in_turns + 1, fast) is Some,
    decreases in_turns, CANDIDATES + 1,
{
    if !board.is_solved() {
        lemma_solve_from_succeeds(board, in_turns, fast, 0, None);
        lemma_candidates_with_more_turns(board, in_turns, fast, 0);
        lemma_solve_from_succeeds(board, in_turns + 1, fast, 0, None);
    }
}

/// The move is one of those which the search tries.
pub open spec fn is_candidate(move_: Move) -> bool {
    exists|index: int| 0 <= index < CANDIDATES && #[trigger] spec_candidate(index) == move_
}

/// All the moves are among those which the search tries.
pub open spec fn candidates_only(moves: Seq<Move>) -> bool {
    forall|i: int| 0 <= i < moves.len() ==> is_candidate(#[trigger] moves[i])
}

/// What the thorough search returns after some moves have been tried is no longer than the
/// solution to which the move at `through` leads, if that move is yet to be tried or the
/// best solution so far is no longer.
proof fn lemma_solve_from_shortest(
    board: SolvableArenaView,
    in_turns: nat,
    index: int,
    best: Option<Seq<Move>>,
    through: int,
)
    requires
        0 <= index,
        in_turns > 0,
        0 <= through < CANDIDATES,
        spec_solve(board.moved(spec_candidate(through)), (in_turns - 1) as nat, false) is Some,
        index <= through || (best matches Some(moves) && moves.len() <= 1 + spec_solve(
            board.moved(spec_candidate(through)),
            (in_turns - 1) as nat,
            false,
        )->Some_0.len()),
    ensures
        spec_solve_from(board, in_turns, false, index, best) matches Some(found) && found.len() <= 1
            + spec_solve(
            board.moved(spec_candidate(through)),
            (in_turns - 1) as nat,
            false,
        )->Some_0.len(),
    decreases CANDIDATES - index,
{
    if index < CANDIDATES {
        let move_ = spec_candidate(index);
        match spec_solve(board.moved(move_), (in_turns - 1) as nat, false) {
            Some(rest) => {
                lemma_solve_from_shortest(
                    board,
                    in_turns,
                    index + 1,
                    Some(spec_better(best, seq![move_] + rest)),
                    through,
                );
            },
            None => {
                lemma_solve_from_shortest(board, in_turns, index + 1, best, through);
            },
        }
    }
}

/// The thorough search finds a solution which is as short as any sequence of moves of the
/// kind which the search tries, with at most as many moves as there are turns, which leads
/// to a board on which all enemies can be eliminated.
pub proof fn lemma_thorough_is_shortest(board: SolvableArenaView, in_turns: nat, moves: Seq<Move>)
    requires
        candidates_only(moves),
        solves(board, in_turns, moves),
    ensures
        spec_solve(board, in_turns, false) matches Some(found) && found.len() <= moves.len(),
    decreases in_turns,
{
    if !board.is_solved() {
        let move_ = moves.first();
        let rest = moves.drop_first();
        assert(is_candidate(moves[0]));
        let through = choose|index: int|
            0 <= index < CANDIDATES && #[trigger] spec_candidate(index) == move_;
        assert forall|i: int| 0 <= i < rest.len() implies is_candidate(#[trigger] rest[i]) by {
            assert(rest[i] == moves[i + 1]);
        }
        lemma_thorough_is_shortest(board.moved(move_), (in_turns - 1) as nat, rest);
        lemma_solve_from_shortest(board, in_turns, 0, None, through);
    }
}

/// The two boards hold the same enemies, possibly in another order, and agree in the number
/// of groups and the equipment. On both boards the enemies stand on cells of their own.
pub open spec fn rearranged(first: SolvableArenaView, second: SolvableArenaView) -> bool {
    &&& well_placed(first.enemies)
    &&& well_placed(second.enemies)
    &&& first.enemies.to_set() == second.enemies.to_set()
    &&& first.num_groups == second.num_groups
    &&& first.available_equipment == second.available_equipment
}

/// The enemy which stands on a cell of one board stands on the same cell of a board with
/// the same enemies.
proof fn lemma_same_enemy_on_cell(first: Seq<Enemy>, second: Seq<Enemy>, position: Position)
    requires
        well_placed(first),
        well_placed(second),
        first.to_set() == second.to_set(),
        first_index_at(first, position, 0) < first.len(),
    ensures
        first_index_at(second, position, 0) < second.len(),
        second[first_index_at(second, position, 0)] == first[first_index_at(first, position, 0)],
{
    lemma_first_index_at(first, position, 0);
    lemma_first_index_at(second, position, 0);
    let enemy = first[first_index_at(first, position, 0)];
    assert(first.contains(enemy));
    assert(second.to_set().contains(enemy));
    let there = choose|j: int| 0 <= j < second.len() && second[j] == enemy;
    let found = first_index_at(second, position, 0);
    if found != there {
        assert(second[found].spec_position() == second[there].spec_position());
    }
}

/// Enemies which stand on cells of their own are all different.
proof fn lemma_well_placed_no_duplicates(enemies: Seq<Enemy>)
    requires
        well_placed(enemies),
    ensures
        enemies.no_duplicates(),
{
    assert forall|i: int, j: int|
        0 <= i < enemies.len() && 0 <= j < enemies.len() && i != j implies enemies[i]
        != enemies[j] by {
        if i < j {
            assert(enemies[i].spec_position() != enemies[j].spec_position());
        } else {
            assert(enemies[j].spec_position() != enemies[i].spec_position());
        }
    }
}

/// Moved boards hold the same enemies if the boards did.
proof fn lemma_moved_rearranged(first: SolvableArenaView, second: SolvableArenaView, move_: Move)
    requires
        rearranged(first, second),
        move_.wf(),
    ensures
        rearranged(first.moved(move_), second.moved(move_)),
{
    lemma_all_moved_well_placed(first.enemies, move_);
    lemma_all_moved_well_placed(second.enemies, move_);
    let first_moved = all_moved(first.enemies, move_);
    let second_moved = all_moved(second.enemies, move_);
    assert forall|enemy: Enemy| first_moved.contains(enemy) == second_moved.contains(enemy) by {
        if first_moved.contains(enemy) {
            let i = choose|i: int| 0 <= i < first_moved.len() && first_moved[i] == enemy;
            assert(first.enemies.contains(first.enemies[i]));
            assert(second.enemies.to_set().contains(first.enemies[i]));
            let j = choose|j: int| 0 <= j < second.enemies.len() && second.enemies[j] == first.enemies[i];
            assert(second_moved[j] == enemy);
        }
        if second_moved.contains(enemy) {
            let i = choose|i: int| 0 <= i < second_moved.len() && second_moved[i] == enemy;
            assert(second.enemies.contains(second.enemies[i]));
            assert(first.enemies.to_set().contains(second.enemies[i]));
            let j = choose|j: int| 0 <= j < first.enemies.len() && first.enemies[j] == second.enemies[i];
            assert(first_moved[j] == enemy);
        }
    }
    assert(first_moved.to_set() =~= second_moved.to_set());
}

/// The order in which a board holds its enemies does not count for the coverage which is
/// found.
pub proof fn lemma_find_of_rearranged(first: SolvableArenaView, second: SolvableArenaView)
    requires
        rearranged(first, second),
    ensures
        first.find() == second.find(),
{
    let first_grid = spec_grid(first.enemies);
    let second_grid = spec_grid(second.enemies);
    assert forall|index: int| 0 <= index < CELLS implies first_grid[index] == second_grid[index] by {
        let position = cell_position(index);
        if first_index_at(first.enemies, position, 0) < first.enemies.len() {
            lemma_same_enemy_on_cell(first.enemies, second.enemies, position);
        } else if first_index_at(second.enemies, position, 0) < second.enemies.len() {
            lemma_same_enemy_on_cell(second.enemies, first.enemies, position);
        }
    }
    assert(first_grid =~= second_grid);
    lemma_well_placed_no_duplicates(first.enemies);
    lemma_well_placed_no_duplicates(second.enemies);
    first.enemies.unique_seq_to_set();
    second.enemies.unique_seq_to_set();
}

/// The remaining moves lead to the same result on boards which hold the same enemies.
proof fn lemma_solve_from_of_rearranged(
    first: SolvableArenaView,
    second: SolvableArenaView,
    in_turns: nat,
    fast: bool,
    index: int,
    best: Option<Seq<Move>>,
)
    requires
        rearranged(first, second),
        0 <= index,
    ensures
        spec_solve_from(first, in_turns, fast, index, best) == spec_solve_from(
            second,
            in_turns,
            fast,
            index,
            best,
        ),
    decreases in_turns, CANDIDATES - index,
{
    if index < CANDIDATES && in_turns > 0 {
        let move_ = spec_candidate(index);
        lemma_moved_rearranged(first, second, move_);
        lemma_solve_of_rearranged(
            first.moved(move_),
            second.moved(move_),
            (in_turns - 1) as nat,
            fast,
        );
        match spec_solve(first.moved(move_), (in_turns - 1) as nat, fast) {
            Some(rest) => {
                if !fast {
                    lemma_solve_from_of_rearranged(
                        first,
                        second,
                        in_turns,
                        fast,
                        index + 1,
                        Some(spec_better(best, seq![move_] + rest)),
                    );
                }
            },
            None => {
                lemma_solve_from_of_rearranged(first, second, in_turns, fast, index + 1, best);
            },
        }
    }
}

/// The order in which a board holds its enemies does not count for the moves which are
/// found.
pub proof fn lemma_solve_of_rearranged(
    first: SolvableArenaView,
    second: SolvableArenaView,
    in_turns: nat,
    fast: bool,
)
    requires
        rearranged(first, second),
    ensures
        spec_solve(first, in_turns, fast) == spec_solve(second, in_turns, fast),
    decreases in_turns, CANDIDATES + 1,
{
    lemma_find_of_rearranged(first, second);
    if !first.is_solved() && in_turns > 0 {
        lemma_solve_from_of_rearranged(first, second, in_turns, fast, 0, None);
    }
}

} // verus!
