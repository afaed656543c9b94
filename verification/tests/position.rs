use std::str::FromStr;

use game_logic::position::Dimension;
use game_logic::position::Dimension::{Column, Row};
use game_logic::position::{Move, Position};

#[test]
fn position_test_next() {
    assert_eq!(1, Column.next(0));
    assert_eq!(2, Column.next(1));
    assert_eq!(0, Column.next(11));

    assert_eq!(1, Row.next(0));
    assert_eq!(2, Row.next(1));
    assert_eq!(0, Row.next(3));
}

#[test]
fn main_test_next() {
    assert_eq!(1, Column.next(0));
    assert_eq!(2, Column.next(1));
    assert_eq!(0, Column.next(11));

    assert_eq!(1, Row.next(0));
    assert_eq!(2, Row.next(1));
    assert_eq!(0, Row.next(3));
}

#[test]
fn position_test_parse() {
    assert_eq!(
        Move::new(Dimension::Column, 2, 1, false).unwrap(),
        "c3 -1".parse().expect("failed to parse")
    );
}

#[test]
fn main_test_parse() {
    assert_eq!(
        Move::new(Dimension::Column, 2, 1, false).unwrap(),
        "c3 -1".parse().expect("failed to parse")
    );
}

#[test]
fn test_normalized() {
    assert_eq!(
        Move::from_str("r1 -3").unwrap(),
        Move::from_str("r1 9").unwrap().normalized()
    );
    assert_eq!(
        Move::from_str("c2 2").unwrap(),
        Move::from_str("c8 -2").unwrap().normalized()
    );
    assert_eq!(
        Move::from_str("c3 4").unwrap(),
        Move::from_str("c9 4").unwrap().normalized()
    );
}

#[test]
fn test_display() {
    assert_eq!("c1 4", Move::from_str("c1 4").unwrap().to_string());
}

#[test]
fn position_test_move_row() {
    let mut position = Position::at(2, 7).unwrap();
    let move_ = Move::new(Row, 2, 1, false).unwrap();
    position.apply_move(move_);

    assert_eq!(2, position.row);
    assert_eq!(6, position.column);
}

#[test]
fn position_test_move_column_down() {
    let mut position = Position::at(0, 1).unwrap();
    let move_ = Move::new(Column, 1, 1, false).unwrap();
    position.apply_move(move_);

    assert_eq!(0, position.row);
    assert_eq!(7, position.column);
}

#[test]
fn position_test_move_column_up() {
    let mut position = Position::at(0, 7).unwrap();
    let move_ = Move::new(Column, 1, 1, true).unwrap();
    position.apply_move(move_);

    assert_eq!(0, position.row);
    assert_eq!(1, position.column);
}

#[test]
fn main_test_move_row() {
    let mut position = Position::at(2, 7).unwrap();
    let move_ = Move::new(Row, 2, 1, false).unwrap();
    position.apply_move(move_);

    assert_eq!(2, position.row);
    assert_eq!(6, position.column);
}

#[test]
fn main_test_move_column_down() {
    let mut position = Position::at(0, 1).unwrap();
    let move_ = Move::new(Column, 1, 1, false).unwrap();
    position.apply_move(move_);

    assert_eq!(0, position.row);
    assert_eq!(7, position.column);
}

#[test]
fn main_test_move_column_up() {
    let mut position = Position::at(0, 7).unwrap();
    let move_ = Move::new(Column, 1, 1, true).unwrap();
    position.apply_move(move_);

    assert_eq!(0, position.row);
    assert_eq!(1, position.column);
}
