use game_logic::app_state::{AppState, Tile, TileColor};
use game_logic::arena::Arena;
use game_logic::canvas::{BufferInfo, Pixel, Rect, Size};
use game_logic::command::{parse, parse_command, Command, ParseError, Reply};
use game_logic::notation::{MoveParseError, MoveParseErrorDetails};
use game_logic::planning::{candidate, solve_within, SolvedCache};
use game_logic::position::Dimension::{Column, Row};
use game_logic::position::{Dimension, Move, MoveCreationError, Position};
use game_logic::solving::{
    attack_intersection, solve, Attack, AvailableEquipment, Coverage, Enemy, EnemyArea,
    RequiredAttack, SolvableArena, TargetArea,
};
use game_logic::text::NumberError;

fn board(commands: &[&str]) -> SolvableArena {
    let mut arena = SolvableArena::default();
    for command in commands {
        parse(&mut arena, command).expect("a command of a test is wrong");
    }
    arena
}

fn all_positions() -> Vec<Position> {
    let mut positions = vec![];
    for row in 0u8..4 {
        for column in 0u8..12 {
            positions.push(Position::at(row, column).unwrap());
        }
    }
    positions
}

fn all_moves() -> Vec<Move> {
    let mut moves = vec![];
    for dimension in [Row, Column] {
        for coordinate in 0..dimension.size() {
            for amount in 0u8..=255 {
                for in_positive_direction in [true, false] {
                    moves.push(
                        Move::new(dimension, coordinate, amount, in_positive_direction).unwrap(),
                    );
                }
            }
        }
    }
    moves
}

#[test]
fn at_accepts_every_cell_of_the_board() {
    for row in 0..4 {
        for column in 0..12 {
            let position = Position::at(row, column).unwrap();
            assert_eq!(row, position.row() as i32);
            assert_eq!(column, position.column() as i32);
        }
    }
}

#[test]
fn at_rejects_what_lies_outside() {
    let error = Position::at(4, 0).unwrap_err();
    assert_eq!(Row, error.dimension);
    assert_eq!(4, error.value);
    assert!(error.conversion_error.is_none());

    let error = Position::at(0, 12).unwrap_err();
    assert_eq!(Column, error.dimension);
    assert_eq!(12, error.value);
    assert!(error.conversion_error.is_none());

    let error = Position::at(4, 12).unwrap_err();
    assert_eq!(Row, error.dimension);

    let error = Position::at(-1, 0).unwrap_err();
    assert_eq!(Row, error.dimension);
    assert_eq!(-1, error.value);
    assert!(error.conversion_error.is_some());

    let error = Position::at(0u64, 256u64).unwrap_err();
    assert_eq!(Column, error.dimension);
    assert_eq!(256, error.value);
    assert!(error.conversion_error.is_some());

    assert!(Position::at(3u8, 11u8).is_ok());
    assert!(Position::at(3u8, 12u8).is_err());
}

#[test]
fn setters_validate() {
    let mut position = Position::at(1, 2).unwrap();
    assert!(position.set_row(3).is_ok());
    assert!(position.set_column(11).is_ok());
    assert_eq!(Position::at(3, 11).unwrap(), position);
    assert!(position.set_row(4).is_err());
    assert!(position.set_column(12).is_err());
    assert_eq!(Position::at(3, 11).unwrap(), position);
}

#[test]
fn move_creation_errors() {
    assert!(matches!(
        Move::new(Row, 4, 1, true),
        Err(MoveCreationError::Coordinate(_))
    ));
    assert!(matches!(
        Move::new(Column, 12, 1, true),
        Err(MoveCreationError::Coordinate(_))
    ));
    assert!(matches!(
        Move::new(Row, 3, 256, true),
        Err(MoveCreationError::Amount(_))
    ));
    let move_ = Move::new(Column, 11, 255, false).unwrap();
    assert_eq!(Column, move_.dimension);
    assert_eq!(11, move_.coordinate);
    assert_eq!(255, move_.amount);
    assert!(!move_.in_positive_direction);
}

#[test]
fn axes() {
    assert_eq!(Row, Dimension::default());
    assert_eq!(4, Row.size());
    assert_eq!(12, Column.size());
    assert_eq!(Column, Row.changes());
    assert_eq!(Row, Column.changes());
    assert_eq!("Row", Row.name());
    assert_eq!("Column", Column.to_string());
    assert_eq!(Ok(3), Row.adapt(3).map_err(|_| ()));
    assert!(Row.adapt(4).is_err());
}

#[test]
fn rotation_wraps_around() {
    let mut position = Position::at(1, 11).unwrap();
    position.apply_move(Move::new(Row, 1, 3, true).unwrap());
    assert_eq!(Position::at(1, 2).unwrap(), position);
    position.apply_move(Move::new(Row, 1, 3, false).unwrap());
    assert_eq!(Position::at(1, 11).unwrap(), position);
    position.apply_move(Move::new(Row, 2, 3, true).unwrap());
    assert_eq!(Position::at(1, 11).unwrap(), position);
    position.apply_move(Move::new(Row, 1, 255, true).unwrap());
    assert_eq!(Position::at(1, 2).unwrap(), position);
}

#[test]
fn push_folds_through_the_centre() {
    let mut position = Position::at(3, 1).unwrap();
    position.apply_move(Move::new(Column, 1, 1, true).unwrap());
    assert_eq!(Position::at(3, 7).unwrap(), position);

    let mut position = Position::at(0, 1).unwrap();
    position.apply_move(Move::new(Column, 1, 5, true).unwrap());
    assert_eq!(Position::at(2, 7).unwrap(), position);

    let mut position = Position::at(2, 7).unwrap();
    position.apply_move(Move::new(Column, 1, 2, true).unwrap());
    assert_eq!(Position::at(0, 7).unwrap(), position);

    let mut position = Position::at(2, 4).unwrap();
    position.apply_move(Move::new(Column, 1, 2, true).unwrap());
    assert_eq!(Position::at(2, 4).unwrap(), position);

    let mut position = Position::at(1, 3).unwrap();
    position.apply_move(Move::new(Column, 3, 8, true).unwrap());
    assert_eq!(Position::at(1, 3).unwrap(), position);
    position.apply_move(Move::new(Column, 3, 4, false).unwrap());
    assert_eq!(Position::at(2, 9).unwrap(), position);
}

#[test]
fn normalizing_twice_changes_nothing() {
    for move_ in all_moves() {
        assert_eq!(move_.normalized(), move_.normalized().normalized());
    }
}

#[test]
fn normalized_moves_are_small() {
    for move_ in all_moves() {
        let normalized = move_.normalized();
        assert_eq!(move_.dimension, normalized.dimension);
        match normalized.dimension {
            Row => assert!(normalized.amount <= 6),
            Column => {
                assert!(normalized.amount <= 4);
                assert!(normalized.coordinate <= 6);
                if normalized.amount == 4 {
                    assert!(normalized.in_positive_direction);
                }
            }
        }
    }
    let normalized = Move::new(Column, 6, 7, true).unwrap().normalized();
    assert_eq!(Move::new(Column, 6, 1, false).unwrap(), normalized);
    let normalized = Move::new(Row, 0, 6, false).unwrap().normalized();
    assert_eq!(Move::new(Row, 0, 6, false).unwrap(), normalized);
    let normalized = Move::new(Row, 0, 19, false).unwrap().normalized();
    assert_eq!(Move::new(Row, 0, 5, true).unwrap(), normalized);
}

#[test]
fn normalized_moves_have_the_same_effect() {
    for move_ in all_moves() {
        for position in all_positions() {
            let mut by_move = position;
            by_move.apply_move(move_);
            let mut by_normalized = position;
            by_normalized.apply_move(move_.normalized());
            assert_eq!(by_move, by_normalized);
        }
    }
}

#[test]
fn moves_permute_the_cells() {
    for move_ in all_moves() {
        let mut images = vec![];
        for position in all_positions() {
            let mut image = position;
            image.apply_move(move_);
            assert!(image.row < 4 && image.column < 12);
            assert!(!images.contains(&image));
            images.push(image);
        }
    }
}

#[test]
fn negative_moves_are_complementary_positive_moves() {
    for position in all_positions() {
        for coordinate in 0u8..4 {
            for amount in 1u8..=12 {
                let mut by_negative = position;
                by_negative.apply_move(Move::new(Row, coordinate, amount, false).unwrap());
                let mut by_positive = position;
                by_positive.apply_move(Move::new(Row, coordinate, 12 - amount, true).unwrap());
                assert_eq!(by_negative, by_positive);
            }
        }
        for coordinate in 0u8..12 {
            for amount in 1u8..=8 {
                let mut by_negative = position;
                by_negative.apply_move(Move::new(Column, coordinate, amount, false).unwrap());
                let mut by_positive = position;
                by_positive.apply_move(Move::new(Column, coordinate, 8 - amount, true).unwrap());
                assert_eq!(by_negative, by_positive);
            }
        }
    }
}

#[test]
fn moves_are_written_in_canonical_form() {
    assert_eq!("r3 -1", Move::new(Row, 2, 11, true).unwrap().to_string());
    assert_eq!("r1 0", Move::new(Row, 0, 12, true).unwrap().to_string());
    assert_eq!("c5 4", Move::new(Column, 10, 4, true).unwrap().to_string());
    assert_eq!("c7 -3", Move::new(Column, 6, 5, true).unwrap().to_string());
    assert_eq!("c6 -3", Move::new(Column, 11, 3, true).unwrap().to_string());
    assert_eq!("r4 6", Move::new(Row, 3, 6, true).unwrap().to_string());
    assert_eq!("r4 -6", Move::new(Row, 3, 6, false).unwrap().to_string());
}

#[test]
fn written_moves_are_read_back() {
    for move_ in all_moves() {
        let text = move_.to_string();
        assert_eq!(move_.normalized(), Move::parse(&text).unwrap());
    }
}

#[test]
fn moves_are_read() {
    assert_eq!(Move::new(Row, 0, 5, true).unwrap(), Move::parse("r1 5").unwrap());
    assert_eq!(Move::new(Row, 3, 255, false).unwrap(), Move::parse(" r4\t-255 ").unwrap());
    assert_eq!(Move::new(Column, 11, 3, true).unwrap(), Move::parse("c12 +3").unwrap());
    assert_eq!(Move::new(Column, 0, 3, false).unwrap(), Move::parse("c0 -+3").unwrap());
    assert_eq!(Move::new(Column, 0, 7, true).unwrap(), Move::parse("c01\u{a0}007").unwrap());
}

fn details(text: &str) -> MoveParseErrorDetails {
    let error: MoveParseError = Move::parse(text).unwrap_err();
    assert_eq!(text, error.value);
    error.details
}

#[test]
fn move_parse_errors() {
    assert!(matches!(details(""), MoveParseErrorDetails::InvalidFormat));
    assert!(matches!(details("r1"), MoveParseErrorDetails::InvalidFormat));
    assert!(matches!(details("r1 2 3"), MoveParseErrorDetails::InvalidFormat));
    assert!(matches!(details("x1 2"), MoveParseErrorDetails::InvalidDimension));
    assert!(matches!(details("R1 2"), MoveParseErrorDetails::InvalidDimension));
    match details("r 2") {
        MoveParseErrorDetails::NotANumber {
            argument_name,
            conversion_error,
        } => {
            assert_eq!("coordinate", argument_name);
            assert_eq!(NumberError::Empty, conversion_error);
        }
        _ => panic!("the coordinate is missing"),
    }
    match details("rx 2") {
        MoveParseErrorDetails::NotANumber {
            argument_name,
            conversion_error,
        } => {
            assert_eq!("coordinate", argument_name);
            assert_eq!(NumberError::InvalidDigit, conversion_error);
        }
        _ => panic!("the coordinate is no number"),
    }
    match details("r256 2") {
        MoveParseErrorDetails::NotANumber {
            conversion_error, ..
        } => assert_eq!(NumberError::Overflow, conversion_error),
        _ => panic!("the coordinate is too large for a number"),
    }
    match details("r5 2") {
        MoveParseErrorDetails::InvalidCoordinate(e) => {
            assert_eq!(Row, e.dimension);
            assert_eq!(4, e.value);
            assert!(e.conversion_error.is_none());
        }
        _ => panic!("there is no fifth ring"),
    }
    match details("c13 2") {
        MoveParseErrorDetails::InvalidCoordinate(e) => {
            assert_eq!(Column, e.dimension);
            assert_eq!(12, e.value);
        }
        _ => panic!("there is no thirteenth slot"),
    }
    match details("c1 -") {
        MoveParseErrorDetails::NotANumber {
            argument_name,
            conversion_error,
        } => {
            assert_eq!("amount", argument_name);
            assert_eq!(NumberError::Empty, conversion_error);
        }
        _ => panic!("the amount is missing"),
    }
    match details("c1 --1") {
        MoveParseErrorDetails::NotANumber {
            conversion_error, ..
        } => assert_eq!(NumberError::InvalidDigit, conversion_error),
        _ => panic!("the amount is no number"),
    }
    match details("c1 +") {
        MoveParseErrorDetails::NotANumber {
            conversion_error, ..
        } => assert_eq!(NumberError::InvalidDigit, conversion_error),
        _ => panic!("the amount is no number"),
    }
    match details("c1 300") {
        MoveParseErrorDetails::NotANumber {
            conversion_error, ..
        } => assert_eq!(NumberError::Overflow, conversion_error),
        _ => panic!("the amount is too large"),
    }
    match details("c1 99x") {
        MoveParseErrorDetails::NotANumber {
            conversion_error, ..
        } => assert_eq!(NumberError::InvalidDigit, conversion_error),
        _ => panic!("the amount is no number"),
    }
    match details("c1 999x") {
        MoveParseErrorDetails::NotANumber {
            conversion_error, ..
        } => assert_eq!(NumberError::Overflow, conversion_error),
        _ => panic!("the amount is too large before it is no number"),
    }
}

#[test]
fn move_parse_error_messages() {
    assert_eq!(
        "Invalid format for 'r1': Needs to be '<r|c><coordinate> [-]<amount>'",
        Move::parse("r1").unwrap_err().to_string()
    );
    assert_eq!(
        "Invalid dimension identifier for 'x1 2':  Needs to be 'r' or 'c'",
        Move::parse("x1 2").unwrap_err().to_string()
    );
    assert_eq!(
        "coordinate is not a number for 'rx 2': invalid digit found in string",
        Move::parse("rx 2").unwrap_err().to_string()
    );
    assert_eq!(
        "amount is not a number for 'r1 300': number too large to fit in target type",
        Move::parse("r1 300").unwrap_err().to_string()
    );
    assert_eq!(
        "amount is not a number for 'r1 -': cannot parse integer from empty string",
        Move::parse("r1 -").unwrap_err().to_string()
    );
    assert_eq!(
        "Invalid coordinate for 'c13 1': 12 is too large for Column (0..12)",
        Move::parse("c13 1").unwrap_err().to_string()
    );
    assert_eq!(
        "Invalid coordinate for 'r200 1': 199 is too large for Row (0..4)",
        Move::parse("r200 1").unwrap_err().to_string()
    );
}

fn enemy(row: u8, column: u8, required_attack: Option<RequiredAttack>) -> Enemy {
    Enemy {
        position: Position::at(row, column).unwrap(),
        required_attack,
    }
}

#[test]
fn arena_holds_one_entity_per_cell() {
    let mut arena: Arena<Enemy> = Arena::default();
    arena.add(enemy(0, 1, None));
    arena.add(enemy(2, 5, Some(RequiredAttack::Jump)));
    arena.add(enemy(0, 1, Some(RequiredAttack::Hammer)));
    assert_eq!(2, arena.enemies.len());
    assert_eq!(enemy(0, 1, Some(RequiredAttack::Hammer)), arena.enemies[0]);
    assert_eq!(enemy(2, 5, Some(RequiredAttack::Jump)), arena.enemies[1]);
    assert_eq!(
        Some(&enemy(2, 5, Some(RequiredAttack::Jump))),
        arena.get_at(&Position::at(2, 5).unwrap())
    );
    assert_eq!(None, arena.get_at(&Position::at(2, 6).unwrap()));

    if let Some(found) = arena.get_at_mut(&Position::at(2, 5).unwrap()) {
        found.required_attack = None;
    }
    assert_eq!(enemy(2, 5, None), arena.enemies[1]);
    assert!(arena.get_at_mut(&Position::at(3, 5).unwrap()).is_none());

    arena.remove(&Position::at(3, 3).unwrap());
    assert_eq!(2, arena.enemies.len());
    arena.remove(&Position::at(0, 1).unwrap());
    assert_eq!(vec![enemy(2, 5, None)], arena.enemies);

    arena.add(enemy(1, 5, None));
    arena.apply_move(Move::new(Column, 5, 3, true).unwrap());
    assert_eq!(vec![enemy(2, 11, None), enemy(3, 11, None)], arena.enemies);
    let copy = arena.clone();
    assert_eq!(arena.enemies, copy.enemies);
}

#[test]
fn number_of_groups() {
    let mut arena = SolvableArena::default();
    assert_eq!(0, arena.num_groups());
    parse(&mut arena, "c1 1").unwrap();
    assert_eq!(1, arena.num_groups());
    parse(&mut arena, "c2 1234").unwrap();
    assert_eq!(2, arena.num_groups());
    parse(&mut arena, "c3 123").unwrap();
    assert_eq!(2, arena.num_groups());
    parse(&mut arena, "c4 1").unwrap();
    assert_eq!(3, arena.num_groups());
    arena.num_groups = Some(7);
    assert_eq!(7, arena.num_groups());
}

#[test]
fn attacks_of_requirements() {
    assert_eq!(
        vec![Attack::IronBoots, Attack::Hammer],
        RequiredAttack::IronBootsOrHammer.attacks()
    );
    assert_eq!(vec![Attack::Jump, Attack::IronBoots], RequiredAttack::Jump.attacks());
    assert_eq!(vec![Attack::Hammer], RequiredAttack::Hammer.attacks());
    assert_eq!('P', RequiredAttack::IronBootsOrHammer.symbol());
    assert_eq!('J', RequiredAttack::Jump.symbol());
    assert_eq!('H', RequiredAttack::Hammer.symbol());
}

#[test]
fn intersections_keep_the_order_of_the_first() {
    assert_eq!(
        vec![Attack::IronBoots],
        attack_intersection(RequiredAttack::IronBootsOrHammer, RequiredAttack::Jump)
    );
    assert_eq!(
        vec![Attack::Hammer],
        attack_intersection(&RequiredAttack::IronBootsOrHammer, Attack::Hammer)
    );
    assert_eq!(
        Vec::<Attack>::new(),
        attack_intersection(RequiredAttack::Jump, RequiredAttack::Hammer)
    );
    assert_eq!(
        vec![Attack::Hammer, Attack::Jump, Attack::Hammer],
        attack_intersection(
            vec![Attack::Hammer, Attack::Jump, Attack::IronBoots, Attack::Hammer],
            &vec![Attack::Jump, Attack::Hammer]
        )
    );
}

#[test]
fn areas() {
    let inner = Position::at(1, 0).unwrap();
    let outer = Position::at(2, 0).unwrap();
    assert_eq!(TargetArea::Long { column: 0 }, TargetArea::long(&inner));
    assert_eq!(TargetArea::Wide { left_column: 11 }, TargetArea::wide(&inner, true));
    assert_eq!(TargetArea::Wide { left_column: 0 }, TargetArea::wide(&inner, false));
    assert_eq!(0, TargetArea::right_column(11));
    assert_eq!(5, TargetArea::right_column(4));

    assert!(TargetArea::Long { column: 0 }.covers(&inner));
    assert!(TargetArea::Long { column: 0 }.covers(&outer));
    assert!(!TargetArea::Long { column: 1 }.covers(&inner));
    assert!(TargetArea::Wide { left_column: 11 }.covers(&inner));
    assert!(TargetArea::Wide { left_column: 0 }.covers(&inner));
    assert!(!TargetArea::Wide { left_column: 1 }.covers(&inner));
    assert!(!TargetArea::Wide { left_column: 10 }.covers(&inner));
    assert!(!TargetArea::Wide { left_column: 11 }.covers(&outer));
}

#[test]
fn areas_are_written() {
    assert_eq!("c1", TargetArea::Long { column: 0 }.to_string());
    assert_eq!("c12", TargetArea::Long { column: 11 }.to_string());
    assert_eq!("h45", TargetArea::Wide { left_column: 3 }.to_string());
    assert_eq!("h121", TargetArea::Wide { left_column: 11 }.to_string());
}

#[test]
fn cache_remembers_boards() {
    let solved = board(&["c2 1234"]);
    let unsolved = board(&["c2 124", "c3 3"]);
    let mut cache = SolvedCache::new();
    assert_eq!(0, cache.len());
    assert!(cache.is_solved(&solved));
    assert_eq!(1, cache.len());
    assert!(!cache.is_solved(&unsolved));
    assert_eq!(2, cache.len());
    assert!(cache.is_solved(&solved));
    assert!(!cache.is_solved(&unsolved));
    assert_eq!(2, cache.len());
    let mut rearranged = SolvableArena::default();
    for enemy in unsolved.inner.enemies.iter().rev() {
        rearranged.add(*enemy);
    }
    assert!(!cache.is_solved(&rearranged));
    assert_eq!(2, cache.len());
    let mut other_budget = unsolved.clone();
    other_budget.num_groups = Some(2);
    assert!(cache.is_solved(&other_budget));
    assert_eq!(3, cache.len());
}

#[test]
fn whitelists_shrink() {
    let mut area = EnemyArea::new(TargetArea::Long { column: 3 });
    assert_eq!(None, area.attack_whitelist);
    assert!(area.limit_attacks(&enemy(0, 3, None)).is_ok());
    assert_eq!(None, area.attack_whitelist);
    assert!(area
        .limit_attacks(&enemy(0, 3, Some(RequiredAttack::IronBootsOrHammer)))
        .is_ok());
    assert_eq!(Some(vec![Attack::IronBoots, Attack::Hammer]), area.attack_whitelist);
    assert!(area.limit_attacks(&enemy(1, 3, Some(RequiredAttack::Jump))).is_ok());
    assert_eq!(Some(vec![Attack::IronBoots]), area.attack_whitelist);
    assert_eq!(
        Err("Attack whitelist is now empty".to_string()),
        area.limit_attacks(&enemy(2, 3, Some(RequiredAttack::Hammer)))
    );
    assert_eq!(Some(vec![]), area.attack_whitelist);

    let long = EnemyArea::long(&enemy(3, 4, Some(RequiredAttack::Hammer)));
    assert_eq!(TargetArea::Long { column: 4 }, long.target_area);
    assert_eq!(Some(vec![Attack::Hammer]), long.attack_whitelist);
    let wide = EnemyArea::wide(&enemy(1, 0, None), true);
    assert_eq!(TargetArea::Wide { left_column: 11 }, wide.target_area);
    assert_eq!(None, wide.attack_whitelist);
}

#[test]
fn areas_do_not_share_slots() {
    let mut coverage = Coverage::new();
    assert!(coverage.can_hold(&TargetArea::Wide { left_column: 11 }));
    coverage.push(EnemyArea::new(TargetArea::Wide { left_column: 11 }));
    coverage.push(EnemyArea::new(TargetArea::Long { column: 5 }));
    assert_eq!(2, coverage.len());
    assert!(!coverage.can_hold(&TargetArea::Long { column: 11 }));
    assert!(!coverage.can_hold(&TargetArea::Long { column: 0 }));
    assert!(coverage.can_hold(&TargetArea::Long { column: 1 }));
    assert!(!coverage.can_hold(&TargetArea::Wide { left_column: 0 }));
    assert!(!coverage.can_hold(&TargetArea::Wide { left_column: 10 }));
    assert!(!coverage.can_hold(&TargetArea::Wide { left_column: 4 }));
    assert!(!coverage.can_hold(&TargetArea::Wide { left_column: 5 }));
    assert!(coverage.can_hold(&TargetArea::Wide { left_column: 6 }));

    assert!(coverage.covers(&Position::at(1, 0).unwrap()));
    assert!(!coverage.covers(&Position::at(2, 0).unwrap()));
    assert!(coverage.covers(&Position::at(3, 5).unwrap()));
    assert_eq!(
        Some(TargetArea::Long { column: 5 }),
        coverage
            .get_covering_area(&Position::at(3, 5).unwrap())
            .map(|area| area.target_area)
    );
    assert!(coverage.get_covering_area(&Position::at(3, 6).unwrap()).is_none());
    if let Some(area) = coverage.get_covering_area_mut(&Position::at(0, 11).unwrap()) {
        area.attack_whitelist = Some(vec![Attack::Jump]);
    }
    assert_eq!(Some(vec![Attack::Jump]), coverage.areas[0].attack_whitelist);
}

fn assert_sound(arena: &SolvableArena) {
    if let Some(coverage) = Coverage::find(arena) {
        assert!(coverage.len() <= arena.num_groups() as usize);
        for enemy in &arena.inner.enemies {
            let covering = coverage
                .areas
                .iter()
                .filter(|area| area.target_area.covers(&enemy.position))
                .count();
            assert_eq!(1, covering);
        }
        for area in &coverage.areas {
            assert!(area.attack_whitelist.as_ref().map_or(true, |attacks| !attacks.is_empty()));
        }
    }
}

#[test]
fn coverages_cover_every_enemy_once() {
    let boards: [&[&str]; 6] = [
        &["c2 1234", "c4 12", "c5 12"],
        &["c2 124", "c4 12", "c5 1"],
        &["c2 1234 J"],
        &["c2 12", "c3 12", "c5 12", "c5 3 P", "c5 4 J", "c8 12", "c9 12"],
        &["c12 1", "c1 1 P"],
        &[],
    ];
    for commands in boards {
        let arena = board(commands);
        assert!(arena.is_solved());
        assert_sound(&arena);
    }
}

#[test]
fn found_coverage_in_detail() {
    let arena = board(&["c5 3 P", "c5 4 J", "c5 12", "c8 12", "c9 12"]);
    let coverage = Coverage::find(&arena).unwrap();
    assert_eq!(2, coverage.len());
    assert_eq!(TargetArea::Long { column: 4 }, coverage.areas[0].target_area);
    assert_eq!(Some(vec![Attack::IronBoots]), coverage.areas[0].attack_whitelist);
    assert_eq!(TargetArea::Wide { left_column: 7 }, coverage.areas[1].target_area);
    assert_eq!(None, coverage.areas[1].attack_whitelist);
    let copy = coverage.clone();
    assert_eq!(coverage.areas[0].attack_whitelist, copy.areas[0].attack_whitelist);
    assert_eq!(coverage.areas[1].target_area, copy.areas[1].target_area);
}

#[test]
fn the_order_of_the_enemies_does_not_count() {
    let mut first = SolvableArena::default();
    first.add(enemy(0, 1, Some(RequiredAttack::Jump)));
    first.add(enemy(0, 2, None));
    let mut second = SolvableArena::default();
    second.add(enemy(0, 2, None));
    second.add(enemy(0, 1, Some(RequiredAttack::Jump)));
    assert!(!first.is_solved());
    assert!(!second.is_solved());

    let mut first = SolvableArena::default();
    first.add(enemy(0, 2, Some(RequiredAttack::Jump)));
    first.add(enemy(0, 1, None));
    let mut second = SolvableArena::default();
    second.add(enemy(0, 1, None));
    second.add(enemy(0, 2, Some(RequiredAttack::Jump)));
    assert!(first.is_solved());
    assert!(second.is_solved());
}

#[test]
fn budget_of_areas() {
    let mut arena = board(&["c1 3", "c2 3", "c3 3"]);
    assert!(!arena.is_solved());
    arena.num_groups = Some(3);
    assert!(arena.is_solved());
    arena.num_groups = Some(2);
    assert!(!arena.is_solved());
    arena.num_groups = Some(0);
    assert!(!arena.is_solved());
    assert!(SolvableArena {
        num_groups: Some(0),
        ..Default::default()
    }
    .is_solved());
}

#[test]
fn equipment_for_the_outer_rings() {
    let mut arena = board(&["c4 3 P"]);
    assert!(arena.is_solved());
    arena.available_equipment.throwing_hammer = false;
    assert!(arena.is_solved());
    arena.available_equipment.iron_boots = false;
    assert!(!arena.is_solved());
    arena.available_equipment.throwing_hammer = true;
    assert!(arena.is_solved());

    let mut arena = board(&["c4 1 H"]);
    arena.available_equipment.throwing_hammer = false;
    assert!(arena.is_solved());
    let coverage = Coverage::find(&arena).unwrap();
    assert!(matches!(coverage.areas[0].target_area, TargetArea::Wide { .. }));

    let mut arena = board(&["c4 1 H", "c3 1", "c5 1"]);
    arena.available_equipment.throwing_hammer = false;
    assert!(!arena.is_solved());
    arena.available_equipment.throwing_hammer = true;
    arena.num_groups = Some(3);
    assert!(arena.is_solved());
}

#[test]
fn long_area_for_all_rings_of_a_slot_with_jump() {
    let arena = board(&["c2 1234 J"]);
    assert!(arena.is_solved());
}

#[test]
fn jump_enemies_on_two_slots_need_two_long_areas() {
    let arena = board(&["c2 12 J", "c3 12 J"]);
    assert_eq!(1, arena.num_groups());
    assert!(!arena.is_solved());
}

#[test]
fn outer_hammer_enemy_without_hammer() {
    let mut arena = board(&["c4 3 H", "c4 12"]);
    assert!(arena.is_solved());
    arena.available_equipment = AvailableEquipment {
        throwing_hammer: false,
        iron_boots: true,
    };
    assert!(!arena.is_solved());
}

#[test]
fn one_rotation_brings_the_lone_enemy_home() {
    let arena = board(&["c2 124", "c3 3"]);
    assert!(!arena.is_solved());
    let solution = solve(&arena, 1, false, None).unwrap();
    assert_eq!(vec![Move::new(Row, 2, 11, true).unwrap()], solution);
    assert_eq!("r3 -1", solution[0].to_string());
    let fast = solve(&arena, 1, true, None).unwrap();
    assert_eq!(vec![Move::new(Row, 2, 11, true).unwrap()], fast);
}

#[test]
fn a_full_slot_and_a_lone_outer_enemy_are_solved_as_they_stand() {
    let arena = board(&["c2 1234", "c3 3"]);
    assert!(arena.is_solved());
    assert_eq!(Some(vec![]), solve(&arena, 1, false, None));
}

#[test]
fn without_turns_only_solved_boards_succeed() {
    let solved = board(&["c2 1234"]);
    let unsolved = board(&["c2 124", "c3 3"]);
    for fast in [true, false] {
        assert_eq!(Some(vec![]), solve(&solved, 0, fast, None));
        assert_eq!(None, solve(&unsolved, 0, fast, None));
        let mut cache = SolvedCache::new();
        assert_eq!(Some(vec![]), solve(&solved, 0, fast, Some(&mut cache)));
        assert_eq!(None, solve(&unsolved, 0, fast, Some(&mut cache)));
        assert_eq!(None, solve(&unsolved, 0, fast, Some(&mut cache)));
        assert_eq!(2, cache.len());
    }
}

#[test]
fn solutions_lead_to_solved_boards() {
    let boards: [&[&str]; 4] = [
        &["c2 124", "c3 3"],
        &["c2 124", "c3 3", "c4 2", "c5 123"],
        &["c2 23", "c6 1234", "c8 14"],
        &["c1 1 J", "c2 1 J"],
    ];
    for commands in boards {
        for fast in [true, false] {
            for turns in 0u8..=2 {
                let arena = board(commands);
                if let Some(solution) = solve(&arena, turns, fast, None) {
                    assert!(solution.len() <= turns as usize);
                    let mut after = arena.clone();
                    for move_ in &solution {
                        after.apply_move(*move_);
                    }
                    assert!(after.is_solved());
                }
            }
        }
    }
}

#[test]
fn thorough_search_prefers_few_and_small_moves() {
    let arena = board(&["c2 124", "c3 3", "c4 2", "c5 123"]);
    assert_eq!(None, solve(&arena, 1, false, None));
    let thorough = solve(&arena, 2, false, None).unwrap();
    assert_eq!(
        vec![Move::new(Row, 2, 11, true).unwrap(), Move::new(Column, 9, 1, true).unwrap()],
        thorough
    );
    let fast = solve(&arena, 2, true, None).unwrap();
    assert_eq!(2, fast.len());
    let three = solve(&arena, 3, false, None).unwrap();
    assert_eq!(2, three.len());
}

#[test]
fn fewest_turns() {
    let arena = board(&["c2 124", "c3 3", "c4 2", "c5 123"]);
    let (turns, solution) = solve_within(&arena, 3, false).unwrap();
    assert_eq!(2, turns);
    assert_eq!(2, solution.len());
    assert_eq!(None, solve_within(&arena, 1, false));
    assert_eq!(None, solve_within(&arena, 0, true));
    let solved = board(&["c2 1234"]);
    assert_eq!(Some((1, vec![])), solve_within(&solved, 100, true));
    assert_eq!(None, solve_within(&solved, 0, true));
}

#[test]
fn moves_are_tried_in_a_fixed_order() {
    assert_eq!(Move::new(Row, 0, 1, true).unwrap(), candidate(0));
    assert_eq!(Move::new(Row, 0, 12, true).unwrap(), candidate(11));
    assert_eq!(Move::new(Row, 1, 1, true).unwrap(), candidate(12));
    assert_eq!(Move::new(Row, 3, 12, true).unwrap(), candidate(47));
    assert_eq!(Move::new(Column, 0, 1, true).unwrap(), candidate(48));
    assert_eq!(Move::new(Column, 0, 4, true).unwrap(), candidate(51));
    assert_eq!(Move::new(Column, 11, 4, true).unwrap(), candidate(95));
}

fn parse_error(command: &str) -> ParseError {
    let mut arena = board(&["c1 1"]);
    let error = parse(&mut arena, command).unwrap_err();
    assert_eq!(1, arena.inner.enemies.len());
    error
}

#[test]
fn command_errors() {
    match parse_error("") {
        ParseError::MissingArgument { argument_name } => assert_eq!("command", argument_name),
        _ => panic!("there is no command"),
    }
    match parse_error("g") {
        ParseError::MissingArgument { argument_name } => {
            assert_eq!("number of groups", argument_name)
        }
        _ => panic!("the number of groups is missing"),
    }
    match parse_error("x5 12") {
        ParseError::UnknownCommand { command } => assert_eq!("x5", command),
        _ => panic!("x5 is no command"),
    }
    match parse_error("x5") {
        ParseError::MissingArgument { argument_name } => assert_eq!("rows", argument_name),
        _ => panic!("the rows are missing"),
    }
    match parse_error("c5 12 X") {
        ParseError::IllegalArgument { argument, reason } => {
            assert_eq!("X", argument);
            assert_eq!("expected H, J or P", reason);
        }
        _ => panic!("X is no requirement"),
    }
    match parse_error("solve on 3") {
        ParseError::IllegalArgument { argument, reason } => {
            assert_eq!("on", argument);
            assert_eq!("expected in", reason);
        }
        _ => panic!("on is not in"),
    }
    match parse_error("solve fast in") {
        ParseError::MissingArgument { argument_name } => {
            assert_eq!("number of turns", argument_name)
        }
        _ => panic!("the number of turns is missing"),
    }
    match parse_error("undo") {
        ParseError::MissingArgument { argument_name } => assert_eq!("column", argument_name),
        _ => panic!("the column is missing"),
    }
    match parse_error("- c1") {
        ParseError::MissingArgument { argument_name } => assert_eq!("rows", argument_name),
        _ => panic!("the rows are missing"),
    }
}

#[test]
fn command_error_messages() {
    assert_eq!("missing argument: rows", parse_error("c1").to_string());
    assert_eq!("unknown command: hello", parse_error("hello 1").to_string());
    assert_eq!(
        "Illegal argument 'x': not a number: invalid digit found in string",
        parse_error("g x").to_string()
    );
    assert_eq!(
        "Illegal argument '256': not a number: number too large to fit in target type",
        parse_error("solve in 256").to_string()
    );
    assert_eq!(
        "Illegal argument 'c': invalid column number: cannot parse integer from empty string",
        parse_error("c 1").to_string()
    );
    assert_eq!(
        "Illegal argument 'c13': out of bounds: 12 is too large for Column (0..12)",
        parse_error("c13 1").to_string()
    );
    assert_eq!(
        "Illegal argument '1x': rows have to be numbers: invalid digit found in string",
        parse_error("c1 1x").to_string()
    );
    assert_eq!(
        "Illegal argument 'c1 15': out of bounds: 4 is too large for Row (0..4)",
        parse_error("c1 1523").to_string()
    );
    assert_eq!(
        "Illegal argument 'move': invalid move: Invalid format for 'r1': Needs to be '<r|c><coordinate> [-]<amount>'",
        parse_error("e r1").to_string()
    );
    assert_eq!(
        "Illegal argument 'move': invalid move: Invalid coordinate for 'r5 1': 4 is too large for Row (0..4)",
        parse_error("run r5 1 2").to_string()
    );
    assert_eq!(
        "Illegal argument 'a': b: c",
        ParseError::error("a", "b", "c").to_string()
    );
    assert_eq!(
        "Illegal argument 'a': b",
        ParseError::illegal_argument("a", "b").to_string()
    );
    assert_eq!("missing argument: a", ParseError::missing_argument("a").to_string());
    assert_eq!("unknown command: a", ParseError::unknown_command("a").to_string());
}

#[test]
fn commands_are_read() {
    assert!(matches!(parse_command("help"), Ok(Command::Help)));
    assert!(matches!(parse_command(" ? "), Ok(Command::Help)));
    assert!(matches!(parse_command("clear"), Ok(Command::Clear)));
    assert!(matches!(parse_command("groups 4"), Ok(Command::Groups(4))));
    assert!(matches!(parse_command("+hammer"), Ok(Command::Hammer(true))));
    assert!(matches!(parse_command("-hammer"), Ok(Command::Hammer(false))));
    assert!(matches!(parse_command("+boots"), Ok(Command::Boots(true))));
    assert!(matches!(parse_command("-boots"), Ok(Command::Boots(false))));
    assert!(matches!(
        parse_command("solve"),
        Ok(Command::Solve {
            fast: false,
            in_turns: None
        })
    ));
    assert!(matches!(
        parse_command("solve fast in 3"),
        Ok(Command::Solve {
            fast: true,
            in_turns: Some(3)
        })
    ));
    match parse_command("e c3 -1 and more") {
        Ok(Command::Execute(move_)) => assert_eq!(Move::new(Column, 2, 1, false).unwrap(), move_),
        _ => panic!("a move is to be made"),
    }
    match parse_command("- c5 104") {
        Ok(Command::Remove(positions)) => assert_eq!(
            vec![
                Position::at(3, 4).unwrap(),
                Position::at(0, 4).unwrap(),
                Position::at(0, 4).unwrap()
            ],
            positions
        ),
        _ => panic!("enemies are to be taken away"),
    }
    match parse_command("c12 21 P") {
        Ok(Command::Place {
            positions,
            required_attack,
        }) => {
            assert_eq!(
                vec![Position::at(0, 11).unwrap(), Position::at(1, 11).unwrap()],
                positions
            );
            assert_eq!(Some(RequiredAttack::IronBootsOrHammer), required_attack);
        }
        _ => panic!("enemies are to be put on the board"),
    }
}

#[test]
fn commands_change_the_board() {
    let mut arena = SolvableArena::default();
    assert!(matches!(parse(&mut arena, "c2 124 H"), Ok(Reply::Show)));
    assert_eq!(
        vec![
            enemy(3, 1, Some(RequiredAttack::Hammer)),
            enemy(1, 1, Some(RequiredAttack::Hammer)),
            enemy(0, 1, Some(RequiredAttack::Hammer))
        ],
        arena.inner.enemies
    );
    assert!(matches!(parse(&mut arena, "c2 2"), Ok(Reply::Show)));
    assert_eq!(enemy(1, 1, None), arena.inner.enemies[1]);
    assert!(matches!(parse(&mut arena, "undo c2 41"), Ok(Reply::Show)));
    assert_eq!(vec![enemy(1, 1, None)], arena.inner.enemies);
    assert!(matches!(parse(&mut arena, "e r2 -3"), Ok(Reply::Show)));
    assert_eq!(vec![enemy(1, 10, None)], arena.inner.enemies);
    assert!(matches!(parse(&mut arena, "g 9"), Ok(Reply::GroupsSet(9))));
    assert_eq!(Some(9), arena.num_groups);
    assert!(matches!(parse(&mut arena, "-hammer"), Ok(Reply::Nothing)));
    assert!(!arena.available_equipment.throwing_hammer);
    assert!(matches!(parse(&mut arena, "-boots"), Ok(Reply::Nothing)));
    assert!(!arena.available_equipment.iron_boots);
    assert!(matches!(parse(&mut arena, "+hammer"), Ok(Reply::Nothing)));
    assert!(arena.available_equipment.throwing_hammer);
    assert!(matches!(parse(&mut arena, "help"), Ok(Reply::Help)));
    assert_eq!(1, arena.inner.enemies.len());
    assert!(matches!(parse(&mut arena, "clear"), Ok(Reply::Cleared)));
    assert!(arena.inner.enemies.is_empty());
    assert_eq!(None, arena.num_groups);
    assert_eq!(AvailableEquipment::default(), arena.available_equipment);
}

#[test]
fn commands_solve_the_board() {
    let mut arena = board(&["c2 124", "c3 3"]);
    match parse(&mut arena, "solve in 1") {
        Ok(Reply::Solution(Some(solution))) => assert_eq!(1, solution.len()),
        _ => panic!("one move solves the board"),
    }
    assert!(matches!(parse(&mut arena, "solve in 0"), Ok(Reply::Solution(None))));
    match parse(&mut arena, "solve fast") {
        Ok(Reply::SolutionWithin(Some((turns, solution)))) => {
            assert_eq!(1, turns);
            assert_eq!(1, solution.len());
        }
        _ => panic!("one move solves the board"),
    }
    assert_eq!(4, arena.inner.enemies.len());
}

#[test]
fn drawing_of_a_board() {
    let arena = board(&["c1 1", "c2 4 J", "c3 2 H", "c10 3 P", "c7 1234", "c12 4"]);
    let expected = [
        "  .       E .       J  (9 enemies)",
        "    .     . .     .  ",
        "      .   . .   .    ",
        "        . . E .      ",
        ". P . .         . H . .",
        ". . . .         . . . .",
        "        . E . .      ",
        "      .   E .   .    ",
        "    .     E .     .  ",
        "  .       E .       .",
    ]
    .join("\n");
    assert_eq!(expected, arena.inner.to_string());
    assert_eq!(
        "  .       . .       .  (0 enemies)",
        SolvableArena::default().inner.to_string().lines().next().unwrap()
    );
}

#[test]
fn ground_of_the_application() {
    let mut state = AppState::default();
    assert_eq!(48, state.arena_ground.enemies.len());
    assert_eq!(2, state.number_of_turns);
    assert!(state.current_solution.is_none());
    assert_eq!(0, state.height);
    assert!(state.arena.inner.enemies.is_empty());
    assert_eq!(
        Tile {
            position: Position::at(0, 0).unwrap(),
            color: TileColor::Dark
        },
        state.arena_ground.enemies[0]
    );
    assert_eq!(
        Tile {
            position: Position::at(1, 0).unwrap(),
            color: TileColor::Light
        },
        state.arena_ground.enemies[1]
    );
    assert_eq!(
        Tile {
            position: Position::at(3, 11).unwrap(),
            color: TileColor::Dark
        },
        state.arena_ground.enemies[47]
    );
    state.arena.add(enemy(2, 0, None));
    state.apply_move(Move::new(Row, 2, 1, true).unwrap());
    assert_eq!(vec![enemy(2, 1, None)], state.arena.inner.enemies);
    assert_eq!(Position::at(2, 1).unwrap(), state.arena_ground.enemies[2].position);
    assert_eq!(TileColor::Dark, state.arena_ground.enemies[2].color);
    assert_eq!(Position::at(1, 0).unwrap(), state.arena_ground.enemies[1].position);
}

#[test]
fn measures_of_a_canvas() {
    assert_eq!(Pixel { x: 0, y: 0 }, Pixel::default());
    assert_eq!("[3 40]", Pixel::new(3, 40).to_string());
    assert_eq!(
        "[0 1]->[4294967295 20]",
        Rect::new(Pixel::new(0, 1), Pixel::new(u32::MAX, 20)).to_string()
    );
    assert_eq!(
        Rect::new(Pixel::new(1, 2), Pixel::new(3, 4)),
        Rect::from_corners([Pixel::new(1, 2), Pixel::new(3, 4)])
    );
    assert_eq!("640x480", Size::new(640, 480).to_string());
    assert_eq!(None, BufferInfo::new().label);
    let labelled = BufferInfo::new().with_label("vertices");
    assert_eq!(Some("vertices".to_string()), labelled.label);
    assert_eq!(labelled.label, labelled.clone().label);
}
