use game_logic::command::parse;
use game_logic::position::Move;
use game_logic::solving::{solve, AvailableEquipment, Coverage, SolvableArena};

fn steps(moves: &[Move]) -> String {
    moves
        .iter()
        .map(|m| m.to_string())
        .collect::<Vec<_>>()
        .join(", ")
}

#[test]
fn solving_test_solved() {
    let mut arena = SolvableArena::default();
    for cmd in ["c2 1234", "c4 12", "c5 12"] {
        parse(&mut arena, cmd).expect("parse error");
    }

    assert!(Coverage::find(&arena).is_some())
}

#[test]
fn solving_test_unsolved() {
    let mut arena = SolvableArena::default();
    for cmd in ["c2 124", "c3 3", "c4 12", "c5 12"] {
        parse(&mut arena, cmd).expect("parse error");
    }

    assert!(Coverage::find(&arena).is_none())
}

#[test]
fn solving_test_too_few_enemies() {
    let mut arena = SolvableArena::default();
    for cmd in ["c2 124", "c4 12", "c5 1"] {
        parse(&mut arena, cmd).expect("parse error");
    }

    assert!(Coverage::find(&arena).is_some())
}

#[test]
fn solving_test_ninja_covered() {
    let mut arena = SolvableArena::default();
    parse(&mut arena, "c2 1234 J").expect("parse error");

    assert!(Coverage::find(&arena).is_some());
}

#[test]
fn solving_test_ninja_uncovered() {
    let mut arena = SolvableArena::default();
    for cmd in ["c2 12 J", "c3 12 J"] {
        parse(&mut arena, cmd).expect("parse error");
    }

    assert!(Coverage::find(&arena).is_none());
}

#[test]
fn solving_test_no_hammer() {
    let mut arena = SolvableArena {
        available_equipment: AvailableEquipment {
            throwing_hammer: false,
            ..Default::default()
        },
        ..Default::default()
    };
    for cmd in ["c4 1 H", "c4 23"] {
        parse(&mut arena, cmd).expect("parse error");
    }

    Coverage::find(&arena)
        .ok_or(())
        .expect_err("no coverage should exists");
}

#[test]
fn test_iron_boots_required() {
    let mut arena = SolvableArena::default();
    for cmd in [
        "c2 12", "c3 12", "c5 12", "c5 3 P", "c5 4 J", "c8 12", "c9 12",
    ] {
        parse(&mut arena, cmd).unwrap();
    }

    Coverage::find(&arena).expect("coverage should exist");
}

#[test]
fn solving_test_simple_solve() {
    let mut arena = SolvableArena::default();
    for cmd in ["c2 124", "c3 3"] {
        parse(&mut arena, cmd).expect("parse error");
    }

    let solution = solve(&arena, 1, false, None).expect("is solvable");
    assert_eq!("r3 -1", steps(&solution));
}

#[test]
fn solving_test_two_steps() {
    let mut arena = SolvableArena::default();
    for cmd in ["c2 124", "c3 3", "c4 2", "c5 123"] {
        parse(&mut arena, cmd).expect("parse error");
    }

    let solution = solve(&arena, 2, false, None).expect("is solvable");
    assert_eq!("r3 -1, c4 -1", steps(&solution));
}

#[test]
fn test_example_1() {
    let mut arena = SolvableArena::default();
    for cmd in ["c2 23", "c6 1234", "c8 14"] {
        parse(&mut arena, cmd).unwrap();
    }

    solve(&arena, 3, true, None).expect("is solvable in 3");
}

#[test]
fn test_example_2() {
    let mut arena = SolvableArena::default();
    for cmd in [
        "c2 12", "c3 4", "c5 12", "c8 12", "c9 123", "c11 3", "c11 4",
    ] {
        parse(&mut arena, cmd).unwrap();
    }

    solve(&arena, 3, true, None).expect("is solvable in 3");
}

#[test]
fn main_test_solved() {
    let mut arena = SolvableArena::default();
    for cmd in ["c2 1234", "c4 12", "c5 12"] {
        parse(&mut arena, cmd).expect("parse error");
    }

    assert!(Coverage::find(&arena).is_some())
}

#[test]
fn main_test_unsolved() {
    let mut arena = SolvableArena::default();
    for cmd in ["c2 124", "c3 3", "c4 12", "c5 12"] {
        parse(&mut arena, cmd).expect("parse error");
    }

    assert!(Coverage::find(&arena).is_none())
}

#[test]
fn main_test_too_few_enemies() {
    let mut arena = SolvableArena::default();
    for cmd in ["c2 124", "c4 12", "c5 1"] {
        parse(&mut arena, cmd).expect("parse error");
    }

    assert!(Coverage::find(&arena).is_some())
}

#[test]
fn main_test_ninja_covered() {
    let mut arena = SolvableArena::default();
    parse(&mut arena, "c2 1234 J").expect("parse error");

    assert!(Coverage::find(&arena).is_some());
}

#[test]
fn main_test_ninja_uncovered() {
    let mut arena = SolvableArena::default();
    for cmd in ["c2 12 J", "c3 12 J"] {
        parse(&mut arena, cmd).expect("parse error");
    }

    assert!(Coverage::find(&arena).is_none());
}

#[test]
fn main_test_no_hammer() {
    let mut arena = SolvableArena::default();
    arena.available_equipment.throwing_hammer = false;
    for cmd in ["c4 1 H", "c4 23"] {
        parse(&mut arena, cmd).expect("parse error");
    }

    Coverage::find(&arena)
        .ok_or(())
        .expect_err("no coverage should exists");
}

#[test]
fn main_test_simple_solve() {
    let mut arena = SolvableArena::default();
    for cmd in ["c2 124", "c3 3"] {
        parse(&mut arena, cmd).expect("parse error");
    }

    let solution = solve(&arena, 1, false, None).expect("is solvable");
    assert_eq!("r3 -1", steps(&solution));
}

#[test]
fn main_test_two_steps() {
    let mut arena = SolvableArena::default();
    for cmd in ["c2 124", "c3 3", "c4 2", "c5 123"] {
        parse(&mut arena, cmd).expect("parse error");
    }

    let solution = solve(&arena, 2, false, None).expect("is solvable");
    assert_eq!("r3 -1, c4 -1", steps(&solution));
}
