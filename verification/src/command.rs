//! The commands with which a board is set up, changed and solved, and their text form.

use crate::arena::{first_index_at, without};
use crate::notation::{spec_from_one, MoveParseErrorView};
use crate::planning::{moves_of, solve, solve_within, spec_solve, spec_solve_within};
use crate::position::{Dimension, Move, Num, OutOfBoundsError, Position};
use crate::solving::{AvailableEquipment, Enemy, RequiredAttack, SolvableArena, SolvableArenaView};
use core::convert::Infallible;
use crate::text::{
    chars_of, is_text, parse_number, push_chars, push_decimal, push_text, spec_decimal,
    spec_parse_number, spec_words, split_whitespace, text_of, words_view,
};
use vstd::prelude::*;

verus! {

/// Why a text is not a command.
#[derive(Debug)]
pub enum ParseError {
    MissingArgument { argument_name: String },
    UnknownCommand { command: String },
    IllegalArgument { argument: String, reason: String },
}

/// What a [`ParseError`] is in specifications.
pub enum ParseErrorView {
    MissingArgument { argument_name: Seq<char> },
    UnknownCommand { command: Seq<char> },
    IllegalArgument { argument: Seq<char>, reason: Seq<char> },
}

impl View for ParseError {
    type V = ParseErrorView;

    open spec fn view(&self) -> ParseErrorView {
        match *self {
            ParseError::MissingArgument { argument_name } => ParseErrorView::MissingArgument {
                argument_name: argument_name@,
            },
            ParseError::UnknownCommand { command } => ParseErrorView::UnknownCommand {
                command: command@,
            },
            ParseError::IllegalArgument { argument, reason } => ParseErrorView::IllegalArgument {
                argument: argument@,
                reason: reason@,
            },
        }
    }
}

impl ParseErrorView {
    /// The error for an argument which is wrong for the reason which an error tells.
    pub open spec fn error(
        argument: Seq<char>,
        detail_message: Seq<char>,
        error: Seq<char>,
    ) -> ParseErrorView {
        ParseErrorView::IllegalArgument { argument, reason: detail_message + ": "@ + error }
    }

    /// What a reader is told about the error.
    pub open spec fn message(self) -> Seq<char> {
        match self {
            ParseErrorView::MissingArgument { argument_name } => "missing argument: "@
                + argument_name,
            ParseErrorView::UnknownCommand { command } => "unknown command: "@ + command,
            ParseErrorView::IllegalArgument { argument, reason } => "Illegal argument '"@
                + argument + "': "@ + reason,
        }
    }
}

impl ParseError {
    /// The error for a command which lacks an argument.
    pub fn missing_argument(argument_name: &str) -> (res: Self)
        ensures
            res@ == (ParseErrorView::MissingArgument { argument_name: argument_name@ }),
    {
        Self::MissingArgument { argument_name: argument_name.to_string() }
    }

    /// The error for a text which starts like no command.
    pub fn unknown_command(command: &str) -> (res: Self)
        ensures
            res@ == (ParseErrorView::UnknownCommand { command: command@ }),
    {
        Self::UnknownCommand { command: command.to_string() }
    }

    /// The error for an argument which is wrong.
    pub fn illegal_argument(argument: &str, reason: &str) -> (res: Self)
        ensures
            res@ == (ParseErrorView::IllegalArgument { argument: argument@, reason: reason@ }),
    {
        Self::IllegalArgument { argument: argument.to_string(), reason: reason.to_string() }
    }

    /// The error for an argument which is wrong for the reason which an error tells.
    pub fn error(argument: &str, detail_message: &str, error: &str) -> (res: Self)
        ensures
            res@ == ParseErrorView::error(argument@, detail_message@, error@),
    {
        let mut reason: Vec<char> = Vec::new();
        push_text(&mut reason, detail_message);
        push_text(&mut reason, ": ");
        push_text(&mut reason, error);
        assert(reason@ =~= detail_message@ + ": "@ + error@);
        let reason = text_of(&reason);
        Self::illegal_argument(argument, reason.as_str())
    }

    /// What a reader is told about the error.
    pub fn to_string(&self) -> (res: String)
        ensures
            res@ == self@.message(),
    {
        let mut chars: Vec<char> = Vec::new();
        match self {
            ParseError::MissingArgument { argument_name } => {
                push_text(&mut chars, "missing argument: ");
                push_text(&mut chars, argument_name.as_str());
            },
            ParseError::UnknownCommand { command } => {
                push_text(&mut chars, "unknown command: ");
                push_text(&mut chars, command.as_str());
            },
            ParseError::IllegalArgument { argument, reason } => {
                push_text(&mut chars, "Illegal argument '");
                push_text(&mut chars, argument.as_str());
                push_text(&mut chars, "': ");
                push_text(&mut chars, reason.as_str());
            },
        }
        assert(chars@ =~= self@.message());
        text_of(&chars)
    }
}

/// The rings which the digits of a number name, from the last digit to the first. The digit
/// of a ring counts from one.
pub open spec fn spec_rows(rows_code: nat) -> Seq<Num>
    decreases rows_code,
{
    if rows_code == 0 {
        Seq::empty()
    } else {
        seq![spec_row(rows_code)] + spec_rows(rows_code / 10)
    }
}

/// The ring which the last digit of a number names.
pub open spec fn spec_row(rows_code: nat) -> Num {
    if rows_code % 10 == 0 {
        0u8
    } else {
        (rows_code % 10 - 1) as Num
    }
}

/// The first number of the rows code, going from the last digit to the first, whose last
/// digit names no ring, if there is one.
pub open spec fn spec_first_bad_rows(rows_code: nat) -> Option<nat>
    decreases rows_code,
{
    if rows_code == 0 {
        None
    } else if spec_row(rows_code) >= 4 {
        Some(rows_code)
    } else {
        spec_first_bad_rows(rows_code / 10)
    }
}

/// The cells which a slot word and a rows word name, or why they name none.
///
/// The slot word is `c` and the number of the slot, counted from one. The rows word is a
/// number whose digits are the rings, counted from one.
pub open spec fn spec_parse_positions(column_arg: Seq<char>, rows_arg: Seq<char>) -> Result<
    Seq<Position>,
    ParseErrorView,
> {
    if column_arg.len() == 0 || column_arg[0] != 'c' {
        Err(ParseErrorView::UnknownCommand { command: column_arg })
    } else {
        match spec_parse_number(column_arg.drop_first(), Num::MAX as int) {
            Err(e) => Err(
                ParseErrorView::error(column_arg, "invalid column number"@, e.spec_message()),
            ),
            Ok(number) => {
                let column = spec_from_one(number) as Num;
                if column >= 12 {
                    Err(
                        ParseErrorView::error(
                            column_arg,
                            "out of bounds"@,
                            (OutOfBoundsError::<Num, Infallible> {
                                dimension: Dimension::Column,
                                value: column,
                                conversion_error: None,
                            }).spec_message(),
                        ),
                    )
                } else {
                    match spec_parse_number(rows_arg, u16::MAX as int) {
                        Err(e) => Err(
                            ParseErrorView::error(
                                rows_arg,
                                "rows have to be numbers"@,
                                e.spec_message(),
                            ),
                        ),
                        Ok(rows_code) => match spec_first_bad_rows(rows_code as nat) {
                            Some(rest) => Err(
                                ParseErrorView::error(
                                    column_arg + " "@ + spec_decimal(rest),
                                    "out of bounds"@,
                                    (OutOfBoundsError::<Num, Infallible> {
                                        dimension: Dimension::Row,
                                        value: spec_row(rest),
                                        conversion_error: None,
                                    }).spec_message(),
                                ),
                            ),
                            None => Ok(
                                spec_rows(rows_code as nat).map_values(
                                    |row: Num| Position { row, column },
                                ),
                            ),
                        },
                    }
                }
            },
        }
    }
}

/// Reads the cells which a slot word and a rows word name.
pub fn parse_positions(column_arg: &Vec<char>, rows_arg: &Vec<char>) -> (res: Result<
    Vec<Position>,
    ParseError,
>)
    ensures
        match spec_parse_positions(column_arg@, rows_arg@) {
            Ok(positions) => res is Ok && res->Ok_0@ == positions && forall|i: int|
                0 <= i < positions.len() ==> (#[trigger] positions[i]).wf(),
            Err(e) => res is Err && res->Err_0@ == e,
        },
{
    let column_text = text_of(column_arg);
    if column_arg.len() == 0 || column_arg[0] != 'c' {
        return Err(ParseError::unknown_command(column_text.as_str()));
    }
    assert(column_arg@.skip(1) =~= column_arg@.drop_first());
    let column_number: Num = match parse_number(column_arg, 1, 255) {
        Ok(number) => if number == 0 {
            0
        } else {
            (number - 1) as Num
        },
        Err(e) => {
            return Err(ParseError::error(column_text.as_str(), "invalid column number", e.message()));
        },
    };
    let column_number = match Dimension::Column.adapt(column_number) {
        Ok(column_number) => column_number,
        Err(e) => {
            let message = e.to_string();
            return Err(ParseError::error(column_text.as_str(), "out of bounds", message.as_str()));
        },
    };
    let mut positions: Vec<Position> = Vec::new();
    assert(rows_arg@.skip(0) =~= rows_arg@);
    let code: u32 = match parse_number(rows_arg, 0, 0xffff) {
        Ok(code) => code,
        Err(e) => {
            let rows_text = text_of(rows_arg);
            return Err(
                ParseError::error(rows_text.as_str(), "rows have to be numbers", e.message()),
            );
        },
    };
    let mut rows_code: u32 = code;
    while rows_code > 0
        invariant
            column_number < 12,
            column_text@ == column_arg@,
            spec_parse_positions(column_arg@, rows_arg@) == match spec_first_bad_rows(code as nat) {
                Some(rest) => Err::<Seq<Position>, ParseErrorView>(
                    ParseErrorView::error(
                        column_arg@ + " "@ + spec_decimal(rest),
                        "out of bounds"@,
                        (OutOfBoundsError::<Num, Infallible> {
                            dimension: Dimension::Row,
                            value: spec_row(rest),
                            conversion_error: None,
                        }).spec_message(),
                    ),
                ),
                None => Ok(
                    spec_rows(code as nat).map_values(
                        |row: Num| Position { row, column: column_number },
                    ),
                ),
            },
            spec_first_bad_rows(code as nat) == spec_first_bad_rows(rows_code as nat),
            positions@ + spec_rows(rows_code as nat).map_values(
                |row: Num| Position { row, column: column_number },
            ) == spec_rows(code as nat).map_values(
                |row: Num| Position { row, column: column_number },
            ),
            forall|i: int| 0 <= i < positions@.len() ==> (#[trigger] positions@[i]).wf(),
        decreases rows_code,
    {
        let digit = rows_code % 10;
        let row_number: Num = if digit == 0 {
            0
        } else {
            (digit - 1) as Num
        };
        let position = match Position::at(row_number, column_number) {
            Ok(position) => position,
            Err(e) => {
                let mut argument: Vec<char> = Vec::new();
                push_chars(&mut argument, column_arg);
                push_text(&mut argument, " ");
                push_decimal(&mut argument, rows_code as u64);
                assert(argument@ =~= column_arg@ + " "@ + spec_decimal(rows_code as nat));
                let argument = text_of(&argument);
                let message = e.to_string();
                return Err(ParseError::error(argument.as_str(), "out of bounds", message.as_str()));
            },
        };
        proof {
            let place = |row: Num| Position { row, column: column_number };
            let rows = spec_rows(rows_code as nat);
            let rest = spec_rows((rows_code / 10) as nat);
            assert(rows =~= seq![spec_row(rows_code as nat)] + rest);
            assert(rows.map_values(place) =~= seq![position] + rest.map_values(place));
            assert(positions@.push(position) + rest.map_values(place) =~= positions@
                + rows.map_values(place));
        }
        positions.push(position);
        rows_code = rows_code / 10;
    }
    proof {
        let place = |row: Num| Position { row, column: column_number };
        assert(spec_rows(0).map_values(place) =~= Seq::<Position>::empty());
        assert(positions@ + Seq::<Position>::empty() =~= positions@);
    }
    Ok(positions)
}

/// What can be done with a board.
#[derive(Debug)]
pub enum Command {
    /// Explain the commands.
    Help,
    /// Take all enemies away and forget the number of groups and the equipment.
    Clear,
    /// Set the number of groups.
    Groups(Num),
    /// Make a move.
    Execute(Move),
    /// Search moves after which all enemies can be eliminated: within the given number of
    /// turns, or with as few turns as possible.
    Solve { fast: bool, in_turns: Option<Num> },
    /// Take the enemies on the cells away.
    Remove(Vec<Position>),
    /// Tell whether a throwing hammer is at hand.
    Hammer(bool),
    /// Tell whether iron boots are at hand.
    Boots(bool),
    /// Put enemies on the cells.
    Place { positions: Vec<Position>, required_attack: Option<RequiredAttack> },
}

/// What a [`Command`] is in specifications.
pub enum CommandView {
    Help,
    Clear,
    Groups(Num),
    Execute(Move),
    Solve { fast: bool, in_turns: Option<Num> },
    Remove(Seq<Position>),
    Hammer(bool),
    Boots(bool),
    Place { positions: Seq<Position>, required_attack: Option<RequiredAttack> },
}

impl View for Command {
    type V = CommandView;

    open spec fn view(&self) -> CommandView {
        match *self {
            Command::Help => CommandView::Help,
            Command::Clear => CommandView::Clear,
            Command::Groups(num_groups) => CommandView::Groups(num_groups),
            Command::Execute(move_) => CommandView::Execute(move_),
            Command::Solve { fast, in_turns } => CommandView::Solve { fast, in_turns },
            Command::Remove(positions) => CommandView::Remove(positions@),
            Command::Hammer(available) => CommandView::Hammer(available),
            Command::Boots(available) => CommandView::Boots(available),
            Command::Place { positions, required_attack } => CommandView::Place {
                positions: positions@,
                required_attack,
            },
        }
    }
}

/// The largest number of turns with which moves are searched where no number is given.
pub const MAX_TURNS: Num = 100;

/// The words, with a blank between each two.
pub open spec fn spec_join(words: Seq<Seq<char>>) -> Seq<char>
    decreases words.len(),
{
    if words.len() == 0 {
        Seq::empty()
    } else if words.len() == 1 {
        words[0]
    } else {
        spec_join(words.drop_last()) + " "@ + words.last()
    }
}

/// The requirement which a letter stands for.
pub open spec fn spec_parse_required_attack(word: Seq<char>) -> Option<RequiredAttack> {
    if word == "H"@ {
        Some(RequiredAttack::Hammer)
    } else if word == "J"@ {
        Some(RequiredAttack::Jump)
    } else if word == "P"@ {
        Some(RequiredAttack::IronBootsOrHammer)
    } else {
        None
    }
}

/// The command to solve the board which the words after `solve` denote.
pub open spec fn spec_parse_solve(words: Seq<Seq<char>>) -> Result<CommandView, ParseErrorView> {
    let fast = words.len() > 1 && words[1] == "fast"@;
    let next: int = if fast {
        2
    } else {
        1
    };
    if words.len() <= next {
        Ok(CommandView::Solve { fast, in_turns: None })
    } else if words[next] != "in"@ {
        Err(ParseErrorView::IllegalArgument { argument: words[next], reason: "expected in"@ })
    } else if words.len() <= next + 1 {
        Err(ParseErrorView::MissingArgument { argument_name: "number of turns"@ })
    } else {
        match spec_parse_number(words[next + 1], Num::MAX as int) {
            Err(e) => Err(ParseErrorView::error(words[next + 1], "not a number"@, e.spec_message())),
            Ok(turns) => Ok(CommandView::Solve { fast, in_turns: Some(turns as Num) }),
        }
    }
}

/// The command to put enemies on the board which the words denote.
pub open spec fn spec_parse_place(words: Seq<Seq<char>>) -> Result<CommandView, ParseErrorView> {
    if words.len() < 2 {
        Err(ParseErrorView::MissingArgument { argument_name: "rows"@ })
    } else if words.len() >= 3 && spec_parse_required_attack(words[2]) is None {
        Err(
            ParseErrorView::IllegalArgument {
                argument: words[2],
                reason: "expected H, J or P"@,
            },
        )
    } else {
        match spec_parse_positions(words[0], words[1]) {
            Err(e) => Err(e),
            Ok(positions) => Ok(
                CommandView::Place {
                    positions,
                    required_attack: if words.len() >= 3 {
                        spec_parse_required_attack(words[2])
                    } else {
                        None
                    },
                },
            ),
        }
    }
}

/// The command which the text denotes, or why it denotes none.
///
/// The first word names the command. A first word which names none is taken as the slot of
/// enemies which are to be put on the board: `c2 124 J` puts enemies which require a jump on
/// the rings one, two and four of the second slot.
pub open spec fn spec_parse_command(text: Seq<char>) -> Result<CommandView, ParseErrorView> {
    let words = spec_words(text);
    if words.len() == 0 {
        Err(ParseErrorView::MissingArgument { argument_name: "command"@ })
    } else if words[0] == "help"@ || words[0] == "h"@ || words[0] == "?"@ {
        Ok(CommandView::Help)
    } else if words[0] == "clear"@ {
        Ok(CommandView::Clear)
    } else if words[0] == "g"@ || words[0] == "groups"@ {
        if words.len() < 2 {
            Err(ParseErrorView::MissingArgument { argument_name: "number of groups"@ })
        } else {
            match spec_parse_number(words[1], Num::MAX as int) {
                Err(e) => Err(ParseErrorView::error(words[1], "not a number"@, e.spec_message())),
                Ok(num_groups) => Ok(CommandView::Groups(num_groups as Num)),
            }
        }
    } else if words[0] == "e"@ || words[0] == "execute"@ || words[0] == "run"@ {
        let value = spec_join(
            words.subrange(
                1,
                if words.len() < 3 {
                    words.len() as int
                } else {
                    3
                },
            ),
        );
        match Move::spec_parse(value) {
            Err(details) => Err(
                ParseErrorView::error(
                    "move"@,
                    "invalid move"@,
                    (MoveParseErrorView { value, details }).message(),
                ),
            ),
            Ok(move_) => Ok(CommandView::Execute(move_)),
        }
    } else if words[0] == "solve"@ {
        spec_parse_solve(words)
    } else if words[0] == "-"@ || words[0] == "undo"@ {
        if words.len() < 2 {
            Err(ParseErrorView::MissingArgument { argument_name: "column"@ })
        } else if words.len() < 3 {
            Err(ParseErrorView::MissingArgument { argument_name: "rows"@ })
        } else {
            match spec_parse_positions(words[1], words[2]) {
                Err(e) => Err(e),
                Ok(positions) => Ok(CommandView::Remove(positions)),
            }
        }
    } else if words[0] == "+hammer"@ {
        Ok(CommandView::Hammer(true))
    } else if words[0] == "-hammer"@ {
        Ok(CommandView::Hammer(false))
    } else if words[0] == "+boots"@ {
        Ok(CommandView::Boots(true))
    } else if words[0] == "-boots"@ {
        Ok(CommandView::Boots(false))
    } else {
        spec_parse_place(words)
    }
}

/// The result of reading a command.
pub open spec fn parsed_as(
    res: Result<Command, ParseError>,
    expected: Result<CommandView, ParseErrorView>,
) -> bool {
    match expected {
        Ok(command) => res is Ok && res->Ok_0@ == command,
        Err(e) => res is Err && res->Err_0@ == e,
    }
}

/// Reads a number which has to fit into a [`Num`].
fn parse_num(word: &Vec<char>) -> (res: Result<Num, ParseError>)
    ensures
        match spec_parse_number(word@, Num::MAX as int) {
            Ok(number) => res is Ok && res->Ok_0 == number,
            Err(e) => res is Err && res->Err_0@ == ParseErrorView::error(
                word@,
                "not a number"@,
                e.spec_message(),
            ),
        },
{
    assert(word@.skip(0) =~= word@);
    match parse_number(word, 0, 255) {
        Ok(number) => Ok(number as Num),
        Err(e) => {
            let text = text_of(word);
            Err(ParseError::error(text.as_str(), "not a number", e.message()))
        },
    }
}

/// Reads the requirement which a letter stands for.
fn parse_required_attack(word: &Vec<char>) -> (res: Option<RequiredAttack>)
    ensures
        res == spec_parse_required_attack(word@),
{
    if is_text(word, "H") {
        Some(RequiredAttack::Hammer)
    } else if is_text(word, "J") {
        Some(RequiredAttack::Jump)
    } else if is_text(word, "P") {
        Some(RequiredAttack::IronBootsOrHammer)
    } else {
        None
    }
}

/// Reads what follows the word `solve`.
fn parse_solve(args: &Vec<Vec<char>>) -> (res: Result<Command, ParseError>)
    requires
        args@.len() > 0,
    ensures
        parsed_as(res, spec_parse_solve(words_view(args@))),
{
    let ghost words = words_view(args@);
    assert(forall|i: int| 0 <= i < args@.len() ==> words[i] == (#[trigger] args@[i])@);
    let fast = args.len() > 1 && is_text(&args[1], "fast");
    let next: usize = if fast {
        2
    } else {
        1
    };
    if args.len() <= next {
        return Ok(Command::Solve { fast, in_turns: None });
    }
    if !is_text(&args[next], "in") {
        let argument = text_of(&args[next]);
        return Err(ParseError::illegal_argument(argument.as_str(), "expected in"));
    }
    if args.len() <= next + 1 {
        return Err(ParseError::missing_argument("number of turns"));
    }
    match parse_num(&args[next + 1]) {
        Ok(turns) => Ok(Command::Solve { fast, in_turns: Some(turns) }),
        Err(e) => Err(e),
    }
}

/// Reads the command to put enemies on the board.
fn parse_place(args: &Vec<Vec<char>>) -> (res: Result<Command, ParseError>)
    requires
        args@.len() > 0,
    ensures
        parsed_as(res, spec_parse_place(words_view(args@))),
        res matches Ok(command) ==> spec_on_board(command@),
{
    let ghost words = words_view(args@);
    assert(forall|i: int| 0 <= i < args@.len() ==> words[i] == (#[trigger] args@[i])@);
    if args.len() < 2 {
        return Err(ParseError::missing_argument("rows"));
    }
    let required_attack = if args.len() >= 3 {
        match parse_required_attack(&args[2]) {
            Some(required_attack) => Some(required_attack),
            None => {
                let argument = text_of(&args[2]);
                return Err(ParseError::illegal_argument(argument.as_str(), "expected H, J or P"));
            },
        }
    } else {
        None
    };
    match parse_positions(&args[0], &args[1]) {
        Ok(positions) => Ok(Command::Place { positions, required_attack }),
        Err(e) => Err(e),
    }
}

/// Reads the move which follows the command to make a move.
fn parse_execute(args: &Vec<Vec<char>>) -> (res: Result<Command, ParseError>)
    requires
        args@.len() > 0,
    ensures
        ({
            let words = words_view(args@);
            let value = spec_join(
                words.subrange(
                    1,
                    if words.len() < 3 {
                        words.len() as int
                    } else {
                        3
                    },
                ),
            );
            match Move::spec_parse(value) {
                Err(details) => res is Err && res->Err_0@ == ParseErrorView::error(
                    "move"@,
                    "invalid move"@,
                    (MoveParseErrorView { value, details }).message(),
                ),
                Ok(move_) => res is Ok && res->Ok_0@ == CommandView::Execute(move_),
            }
        }),
        res matches Ok(command) ==> spec_on_board(command@),
{
    let ghost words = words_view(args@);
    assert(forall|i: int| 0 <= i < args@.len() ==> words[i] == (#[trigger] args@[i])@);
    let mut value: Vec<char> = Vec::new();
    proof {
        reveal_with_fuel(spec_join, 3);
    }
    if args.len() >= 2 {
        push_chars(&mut value, &args[1]);
        if args.len() >= 3 {
            push_text(&mut value, " ");
            push_chars(&mut value, &args[2]);
            assert(words.subrange(1, 3).drop_last() =~= seq![words[1]]);
            assert(words.subrange(1, 3).last() == words[2]);
            assert(value@ =~= spec_join(words.subrange(1, 3)));
        } else {
            assert(value@ =~= spec_join(words.subrange(1, 2)));
        }
    } else {
        assert(value@ =~= spec_join(words.subrange(1, 1)));
    }
    let value = text_of(&value);
    match Move::parse(value.as_str()) {
        Ok(move_) => Ok(Command::Execute(move_)),
        Err(e) => {
            let message = e.to_string();
            Err(ParseError::error("move", "invalid move", message.as_str()))
        },
    }
}

/// Reads a command.
pub fn parse_command(command: &str) -> (res: Result<Command, ParseError>)
    ensures
        parsed_as(res, spec_parse_command(command@)),
        res matches Ok(parsed) ==> spec_on_board(parsed@),
{
    let text = chars_of(command);
    let args = split_whitespace(&text);
    let ghost words = words_view(args@);
    assert(forall|i: int| 0 <= i < args@.len() ==> words[i] == (#[trigger] args@[i])@);
    if args.len() == 0 {
        return Err(ParseError::missing_argument("command"));
    }
    let cmd = &args[0];
    if is_text(cmd, "help") || is_text(cmd, "h") || is_text(cmd, "?") {
        Ok(Command::Help)
    } else if is_text(cmd, "clear") {
        Ok(Command::Clear)
    } else if is_text(cmd, "g") || is_text(cmd, "groups") {
        if args.len() < 2 {
            return Err(ParseError::missing_argument("number of groups"));
        }
        match parse_num(&args[1]) {
            Ok(num_groups) => Ok(Command::Groups(num_groups)),
            Err(e) => Err(e),
        }
    } else if is_text(cmd, "e") || is_text(cmd, "execute") || is_text(cmd, "run") {
        parse_execute(&args)
    } else if is_text(cmd, "solve") {
        parse_solve(&args)
    } else if is_text(cmd, "-") || is_text(cmd, "undo") {
        if args.len() < 2 {
            return Err(ParseError::missing_argument("column"));
        }
        if args.len() < 3 {
            return Err(ParseError::missing_argument("rows"));
        }
        match parse_positions(&args[1], &args[2]) {
            Ok(positions) => Ok(Command::Remove(positions)),
            Err(e) => Err(e),
        }
    } else if is_text(cmd, "+hammer") {
        Ok(Command::Hammer(true))
    } else if is_text(cmd, "-hammer") {
        Ok(Command::Hammer(false))
    } else if is_text(cmd, "+boots") {
        Ok(Command::Boots(true))
    } else if is_text(cmd, "-boots") {
        Ok(Command::Boots(false))
    } else {
        parse_place(&args)
    }
}

/// What is to be told after a command has been carried out.
#[derive(Debug)]
pub enum Reply {
    /// The commands are to be explained.
    Help,
    /// The board has been cleared.
    Cleared,
    /// The number of groups has been set.
    GroupsSet(Num),
    /// The enemies have changed, so the board is to be shown.
    Show,
    /// The moves which have been found within the given turns, if any.
    Solution(Option<Vec<Move>>),
    /// The fewest turns within which moves have been found, and the moves, if any.
    SolutionWithin(Option<(Num, Vec<Move>)>),
    /// There is nothing to tell.
    Nothing,
}

/// The enemies after one more has been put on its cell, where it replaces the enemy which
/// stood there.
pub open spec fn spec_added(enemies: Seq<Enemy>, enemy: Enemy) -> Seq<Enemy> {
    let index = first_index_at(enemies, enemy.position, 0);
    if index < enemies.len() {
        enemies.update(index, enemy)
    } else {
        enemies.push(enemy)
    }
}

/// The enemies after enemies with the given requirement have been put on the cells, one
/// after the other.
pub open spec fn spec_placed(
    enemies: Seq<Enemy>,
    positions: Seq<Position>,
    required_attack: Option<RequiredAttack>,
) -> Seq<Enemy>
    decreases positions.len(),
{
    if positions.len() == 0 {
        enemies
    } else {
        spec_added(
            spec_placed(enemies, positions.drop_last(), required_attack),
            Enemy { position: positions.last(), required_attack },
        )
    }
}

/// The enemies which do not stand on any of the cells.
pub open spec fn spec_removed(enemies: Seq<Enemy>, positions: Seq<Position>) -> Seq<Enemy>
    decreases positions.len(),
{
    if positions.len() == 0 {
        enemies
    } else {
        without(spec_removed(enemies, positions.drop_last()), positions.last())
    }
}

/// The board after the command has been carried out.
pub open spec fn spec_executed(board: SolvableArenaView, command: CommandView) -> SolvableArenaView {
    match command {
        CommandView::Help => board,
        CommandView::Clear => SolvableArenaView {
            enemies: Seq::empty(),
            num_groups: None,
            available_equipment: AvailableEquipment { throwing_hammer: true, iron_boots: true },
        },
        CommandView::Groups(num_groups) => SolvableArenaView {
            enemies: board.enemies,
            num_groups: Some(num_groups),
            available_equipment: board.available_equipment,
        },
        CommandView::Execute(move_) => board.moved(move_),
        CommandView::Solve { .. } => board,
        CommandView::Remove(positions) => SolvableArenaView {
            enemies: spec_removed(board.enemies, positions),
            num_groups: board.num_groups,
            available_equipment: board.available_equipment,
        },
        CommandView::Hammer(available) => SolvableArenaView {
            enemies: board.enemies,
            num_groups: board.num_groups,
            available_equipment: AvailableEquipment {
                throwing_hammer: available,
                iron_boots: board.available_equipment.iron_boots,
            },
        },
        CommandView::Boots(available) => SolvableArenaView {
            enemies: board.enemies,
            num_groups: board.num_groups,
            available_equipment: AvailableEquipment {
                throwing_hammer: board.available_equipment.throwing_hammer,
                iron_boots: available,
            },
        },
        CommandView::Place { positions, required_attack } => SolvableArenaView {
            enemies: spec_placed(board.enemies, positions, required_attack),
            num_groups: board.num_groups,
            available_equipment: board.available_equipment,
        },
    }
}

/// Whether the reply is the one which is due after the command has been carried out on the
/// board.
pub open spec fn spec_replied(board: SolvableArenaView, command: CommandView, reply: Reply) -> bool {
    match command {
        CommandView::Help => reply is Help,
        CommandView::Clear => reply is Cleared,
        CommandView::Groups(num_groups) => reply == Reply::GroupsSet(num_groups),
        CommandView::Execute(_) => reply is Show,
        CommandView::Solve { fast, in_turns: Some(in_turns) } => reply matches Reply::Solution(
            solution,
        ) && moves_of(solution) == spec_solve(board, in_turns as nat, fast),
        CommandView::Solve { fast, in_turns: None } => reply matches Reply::SolutionWithin(found)
            && match spec_solve_within(board, MAX_TURNS as nat, fast) {
            Some((in_turns, moves)) => found matches Some((found_in, found_moves)) && found_in
                == in_turns && found_moves@ == moves,
            None => found is None,
        },
        CommandView::Remove(_) => reply is Show,
        CommandView::Hammer(_) => reply is Nothing,
        CommandView::Boots(_) => reply is Nothing,
        CommandView::Place { .. } => reply is Show,
    }
}

/// Whether the command names only cells and moves of the board.
pub open spec fn spec_on_board(command: CommandView) -> bool {
    match command {
        CommandView::Execute(move_) => move_.wf(),
        CommandView::Remove(positions) => true,
        CommandView::Place { positions, .. } => forall|i: int|
            0 <= i < positions.len() ==> (#[trigger] positions[i]).wf(),
        _ => true,
    }
}

/// Carries out a command on the board.
pub fn execute(arena: &mut SolvableArena, command: &Command) -> (res: Reply)
    ensures
        final(arena)@ == spec_executed(old(arena)@, command@),
        spec_replied(old(arena)@, command@, res),
        old(arena).inner.wf() && spec_on_board(command@) ==> final(arena).inner.wf(),
{
    match command {
        Command::Help => Reply::Help,
        Command::Clear => {
            *arena = SolvableArena::default();
            Reply::Cleared
        },
        Command::Groups(num_groups) => {
            arena.num_groups = Some(*num_groups);
            Reply::GroupsSet(*num_groups)
        },
        Command::Execute(move_) => {
            arena.apply_move(*move_);
            Reply::Show
        },
        Command::Solve { fast, in_turns } => {
            match in_turns {
                Some(in_turns) => Reply::Solution(solve(arena, *in_turns, *fast, None)),
                None => Reply::SolutionWithin(solve_within(arena, MAX_TURNS, *fast)),
            }
        },
        Command::Remove(positions) => {
            let mut index: usize = 0;
            assert(positions@.take(0) =~= Seq::<Position>::empty());
            while index < positions.len()
                invariant
                    index <= positions@.len(),
                    arena.inner.enemies@ == spec_removed(
                        old(arena).inner.enemies@,
                        positions@.take(index as int),
                    ),
                    arena.num_groups == old(arena).num_groups,
                    arena.available_equipment == old(arena).available_equipment,
                    old(arena).inner.wf() ==> arena.inner.wf(),
                decreases positions@.len() - index,
            {
                assert(positions@.take(index + 1).drop_last() =~= positions@.take(index as int));
                arena.remove(&positions[index]);
                index += 1;
            }
            assert(positions@.take(positions@.len() as int) =~= positions@);
            Reply::Show
        },
        Command::Hammer(available) => {
            arena.available_equipment.throwing_hammer = *available;
            Reply::Nothing
        },
        Command::Boots(available) => {
            arena.available_equipment.iron_boots = *available;
            Reply::Nothing
        },
        Command::Place { positions, required_attack } => {
            let mut index: usize = 0;
            let ghost on_board = spec_on_board(command@);
            assert(positions@.take(0) =~= Seq::<Position>::empty());
            while index < positions.len()
                invariant
                    index <= positions@.len(),
                    arena.inner.enemies@ == spec_placed(
                        old(arena).inner.enemies@,
                        positions@.take(index as int),
                        *required_attack,
                    ),
                    arena.num_groups == old(arena).num_groups,
                    arena.available_equipment == old(arena).available_equipment,
                    old(arena).inner.wf() && on_board ==> arena.inner.wf(),
                    on_board ==> forall|i: int|
                        0 <= i < positions@.len() ==> (#[trigger] positions@[i]).wf(),
                decreases positions@.len() - index,
            {
                assert(positions@.take(index + 1).drop_last() =~= positions@.take(index as int));
                arena.add(Enemy { position: positions[index], required_attack: *required_attack });
                index += 1;
            }
            assert(positions@.take(positions@.len() as int) =~= positions@);
            Reply::Show
        },
    }
}

/// Reads a command and carries it out on the board. The board stays as it is if the text is
/// no command.
pub fn parse(arena: &mut SolvableArena, command: &str) -> (res: Result<Reply, ParseError>)
    ensures
        match spec_parse_command(command@) {
            Ok(parsed) => res is Ok && final(arena)@ == spec_executed(old(arena)@, parsed)
                && spec_replied(old(arena)@, parsed, res->Ok_0),
            Err(e) => res is Err && res->Err_0@ == e && final(arena)@ == old(arena)@,
        },
        old(arena).inner.wf() ==> final(arena).inner.wf(),
{
    match parse_command(command) {
        Ok(parsed) => Ok(execute(arena, &parsed)),
        Err(e) => Err(e),
    }
}

} // verus!
