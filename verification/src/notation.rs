//! The short text form of moves: `r<ring> [-]<amount>` rotates a ring, `c<slot> [-]<amount>`
//! pushes a spoke. Rings and slots are counted from one, and a minus sign stands for the
//! negative direction.

use crate::position::{lemma_normalized_idempotent, Dimension, Move, Num, OutOfBoundsError};
use crate::text::{
    chars_of, lemma_decimal_is_read_back, lemma_two_words, parse_number, push_decimal, push_text,
    spec_decimal, spec_parse_number, spec_words, split_whitespace, text_of, words_view, NumberError,
};
use core::convert::Infallible;
use core::str::FromStr;
use vstd::prelude::*;

verus! {

/// Why a text is not a move.
#[derive(Debug)]
pub enum MoveParseErrorDetails {
    /// The text does not consist of two words.
    InvalidFormat,
    /// The first word starts neither with `r` nor with `c`.
    InvalidDimension,
    /// What should be a number is none.
    NotANumber { argument_name: String, conversion_error: NumberError },
    /// The ring or the slot does not exist.
    InvalidCoordinate(OutOfBoundsError<Num, Infallible>),
}

/// What [`MoveParseErrorDetails`] are in specifications.
pub enum MoveParseErrorDetailsView {
    InvalidFormat,
    InvalidDimension,
    NotANumber { argument_name: Seq<char>, conversion_error: NumberError },
    InvalidCoordinate(OutOfBoundsError<Num, Infallible>),
}

impl View for MoveParseErrorDetails {
    type V = MoveParseErrorDetailsView;

    open spec fn view(&self) -> MoveParseErrorDetailsView {
        match *self {
            MoveParseErrorDetails::InvalidFormat => MoveParseErrorDetailsView::InvalidFormat,
            MoveParseErrorDetails::InvalidDimension => MoveParseErrorDetailsView::InvalidDimension,
            MoveParseErrorDetails::NotANumber {
                argument_name,
                conversion_error,
            } => MoveParseErrorDetailsView::NotANumber {
                argument_name: argument_name@,
                conversion_error,
            },
            MoveParseErrorDetails::InvalidCoordinate(e) => MoveParseErrorDetailsView::InvalidCoordinate(
                e,
            ),
        }
    }
}

/// A text which is not a move, and why.
#[derive(Debug)]
pub struct MoveParseError {
    pub value: String,
    pub details: MoveParseErrorDetails,
}

/// What a [`MoveParseError`] is in specifications.
pub struct MoveParseErrorView {
    pub value: Seq<char>,
    pub details: MoveParseErrorDetailsView,
}

impl View for MoveParseError {
    type V = MoveParseErrorView;

    open spec fn view(&self) -> MoveParseErrorView {
        MoveParseErrorView { value: self.value@, details: self.details@ }
    }
}

impl MoveParseError {
    /// The error for the given text.
    pub fn new(value: &str, details: MoveParseErrorDetails) -> (res: Self)
        ensures
            res@ == (MoveParseErrorView { value: value@, details: details@ }),
    {
        Self { value: value.to_string(), details }
    }
}

impl OutOfBoundsError<Num, Infallible> {
    /// What a reader is told about the error.
    pub open spec fn spec_message(self) -> Seq<char> {
        spec_decimal(self.value as nat) + " is too large for "@ + self.dimension.spec_name()
            + " (0.."@ + spec_decimal(self.dimension.spec_size() as nat) + ")"@
    }

    /// What a reader is told about the error.
    pub fn to_string(&self) -> (res: String)
        ensures
            res@ == self.spec_message(),
    {
        let mut chars: Vec<char> = Vec::new();
        push_decimal(&mut chars, self.value as u64);
        push_text(&mut chars, " is too large for ");
        push_text(&mut chars, self.dimension.name());
        push_text(&mut chars, " (0..");
        push_decimal(&mut chars, self.dimension.size() as u64);
        push_text(&mut chars, ")");
        assert(chars@ =~= self.spec_message());
        text_of(&chars)
    }
}

impl MoveParseErrorDetailsView {
    /// What is wrong, in a few words.
    pub open spec fn description(self) -> Seq<char> {
        match self {
            MoveParseErrorDetailsView::InvalidFormat => "Invalid format"@,
            MoveParseErrorDetailsView::InvalidDimension => "Invalid dimension identifier"@,
            MoveParseErrorDetailsView::NotANumber { argument_name, .. } => argument_name
                + " is not a number"@,
            MoveParseErrorDetailsView::InvalidCoordinate(_) => "Invalid coordinate"@,
        }
    }

    /// What would have been right.
    pub open spec fn advice(self) -> Seq<char> {
        match self {
            MoveParseErrorDetailsView::InvalidFormat => "Needs to be '<r|c><coordinate> [-]<amount>'"@,
            MoveParseErrorDetailsView::InvalidDimension => " Needs to be 'r' or 'c'"@,
            MoveParseErrorDetailsView::NotANumber {
                conversion_error,
                ..
            } => conversion_error.spec_message(),
            MoveParseErrorDetailsView::InvalidCoordinate(e) => e.spec_message(),
        }
    }
}

impl MoveParseErrorView {
    /// What a reader is told about the error.
    pub open spec fn message(self) -> Seq<char> {
        self.details.description() + " for '"@ + self.value + "': "@ + self.details.advice()
    }
}

impl MoveParseError {
    /// What a reader is told about the error.
    pub fn to_string(&self) -> (res: String)
        ensures
            res@ == self@.message(),
    {
        let mut chars: Vec<char> = Vec::new();
        match &self.details {
            MoveParseErrorDetails::InvalidFormat => {
                push_text(&mut chars, "Invalid format");
            },
            MoveParseErrorDetails::InvalidDimension => {
                push_text(&mut chars, "Invalid dimension identifier");
            },
            MoveParseErrorDetails::NotANumber { argument_name, .. } => {
                push_text(&mut chars, argument_name.as_str());
                push_text(&mut chars, " is not a number");
            },
            MoveParseErrorDetails::InvalidCoordinate(_) => {
                push_text(&mut chars, "Invalid coordinate");
            },
        }
        push_text(&mut chars, " for '");
        push_text(&mut chars, self.value.as_str());
        push_text(&mut chars, "': ");
        match &self.details {
            MoveParseErrorDetails::InvalidFormat => {
                push_text(&mut chars, "Needs to be '<r|c><coordinate> [-]<amount>'");
            },
            MoveParseErrorDetails::InvalidDimension => {
                push_text(&mut chars, " Needs to be 'r' or 'c'");
            },
            MoveParseErrorDetails::NotANumber { conversion_error, .. } => {
                push_text(&mut chars, conversion_error.message());
            },
            MoveParseErrorDetails::InvalidCoordinate(e) => {
                let message = e.to_string();
                push_text(&mut chars, message.as_str());
            },
        }
        assert(chars@ =~= self@.message());
        text_of(&chars)
    }
}

/// The ring or slot which a number in a text stands for: texts count from one.
pub open spec fn spec_from_one(number: int) -> int {
    if number == 0 {
        0
    } else {
        number - 1
    }
}

impl Move {
    /// The move which the text denotes, or why it denotes none.
    ///
    /// The text has to consist of two words. The first one names the ring (`r`) or the
    /// spoke (`c`) by its number, counted from one. The second one is the amount, after a
    /// minus sign for the negative direction.
    pub open spec fn spec_parse(text: Seq<char>) -> Result<Move, MoveParseErrorDetailsView> {
        let words = spec_words(text);
        if words.len() != 2 {
            Err(MoveParseErrorDetailsView::InvalidFormat)
        } else if words[0].len() == 0 || (words[0][0] != 'r' && words[0][0] != 'c') {
            Err(MoveParseErrorDetailsView::InvalidDimension)
        } else {
            let dimension = if words[0][0] == 'r' {
                Dimension::Row
            } else {
                Dimension::Column
            };
            match spec_parse_number(words[0].drop_first(), Num::MAX as int) {
                Err(e) => Err(
                    MoveParseErrorDetailsView::NotANumber {
                        argument_name: "coordinate"@,
                        conversion_error: e,
                    },
                ),
                Ok(number) => {
                    let coordinate = spec_from_one(number);
                    if coordinate >= dimension.spec_size() {
                        Err(
                            MoveParseErrorDetailsView::InvalidCoordinate(
                                OutOfBoundsError {
                                    dimension,
                                    value: coordinate as Num,
                                    conversion_error: None,
                                },
                            ),
                        )
                    } else {
                        let negative = words[1].len() > 0 && words[1][0] == '-';
                        let digits = if negative {
                            words[1].drop_first()
                        } else {
                            words[1]
                        };
                        match spec_parse_number(digits, Num::MAX as int) {
                            Err(e) => Err(
                                MoveParseErrorDetailsView::NotANumber {
                                    argument_name: "amount"@,
                                    conversion_error: e,
                                },
                            ),
                            Ok(amount) => Ok(
                                Move {
                                    dimension,
                                    coordinate: coordinate as Num,
                                    amount: amount as Num,
                                    in_positive_direction: !negative,
                                },
                            ),
                        }
                    }
                },
            }
        }
    }

    /// Reads a move from its text form.
    pub fn parse(s: &str) -> (res: Result<Move, MoveParseError>)
        ensures
            match Move::spec_parse(s@) {
                Ok(move_) => res == Ok::<Move, MoveParseError>(move_) && move_.wf(),
                Err(details) => res is Err && res->Err_0@ == (MoveParseErrorView {
                    value: s@,
                    details,
                }),
            },
    {
        let text = chars_of(s);
        let args = split_whitespace(&text);
        if args.len() != 2 {
            return Err(MoveParseError::new(s, MoveParseErrorDetails::InvalidFormat));
        }
        assert(words_view(args@)[0] == args@[0]@);
        assert(words_view(args@)[1] == args@[1]@);
        let arg = &args[0];
        if arg.len() == 0 {
            return Err(MoveParseError::new(s, MoveParseErrorDetails::InvalidDimension));
        }
        let dimension = if arg[0] == 'r' {
            Dimension::Row
        } else if arg[0] == 'c' {
            Dimension::Column
        } else {
            return Err(MoveParseError::new(s, MoveParseErrorDetails::InvalidDimension));
        };
        assert(arg@.skip(1) =~= arg@.drop_first());
        let coordinate = match parse_number(arg, 1, 255) {
            Ok(number) => if number == 0 {
                0u8
            } else {
                (number - 1) as Num
            },
            Err(e) => {
                return Err(
                    MoveParseError::new(
                        s,
                        MoveParseErrorDetails::NotANumber {
                            argument_name: "coordinate".to_string(),
                            conversion_error: e,
                        },
                    ),
                );
            },
        };
        let coordinate = match dimension.adapt(coordinate) {
            Ok(coordinate) => coordinate,
            Err(e) => {
                return Err(MoveParseError::new(s, MoveParseErrorDetails::InvalidCoordinate(e)));
            },
        };
        let arg = &args[1];
        let in_positive_direction = !(arg.len() > 0 && arg[0] == '-');
        let from: usize = if in_positive_direction {
            0
        } else {
            1
        };
        assert(arg@.skip(1) =~= arg@.drop_first());
        assert(arg@.skip(0) =~= arg@);
        let amount = match parse_number(arg, from, 255) {
            Ok(number) => number as Num,
            Err(e) => {
                return Err(
                    MoveParseError::new(
                        s,
                        MoveParseErrorDetails::NotANumber {
                            argument_name: "amount".to_string(),
                            conversion_error: e,
                        },
                    ),
                );
            },
        };
        Ok(Move { dimension, coordinate, amount, in_positive_direction })
    }

    /// The text form of the canonical form of the move.
    pub open spec fn spec_text(self) -> Seq<char> {
        let normalized = self.normalized();
        seq![
            match normalized.dimension {
                Dimension::Row => 'r',
                Dimension::Column => 'c',
            },
        ] + spec_decimal((normalized.coordinate + 1) as nat) + seq![' '] + (
        if normalized.in_positive_direction {
            Seq::<char>::empty()
        } else {
            seq!['-']
        }) + spec_decimal(normalized.amount as nat)
    }

    /// Writes the move in its text form. Moves with the same effect are written alike: the
    /// text is that of the canonical form.
    pub fn to_string(&self) -> (res: String)
        ensures
            res@ == self.spec_text(),
    {
        let normalized = self.normalized();
        let mut chars: Vec<char> = Vec::new();
        chars.push(
            match normalized.dimension {
                Dimension::Row => 'r',
                Dimension::Column => 'c',
            },
        );
        push_decimal(&mut chars, normalized.coordinate as u64 + 1);
        chars.push(' ');
        if !normalized.in_positive_direction {
            chars.push('-');
        }
        push_decimal(&mut chars, normalized.amount as u64);
        assert(chars@ =~= self.spec_text());
        text_of(&chars)
    }
}

impl FromStr for Move {
    type Err = MoveParseError;

    fn from_str(s: &str) -> (res: Result<Self, MoveParseError>)
        ensures
            match Move::spec_parse(s@) {
                Ok(move_) => res == Ok::<Move, MoveParseError>(move_),
                Err(details) => res is Err && res->Err_0@ == (MoveParseErrorView {
                    value: s@,
                    details,
                }),
            },
    {
        Move::parse(s)
    }
}

/// A move which is written and read again is the move in its canonical form.
pub proof fn lemma_written_move_is_read_back(move_: Move)
    requires
        move_.wf(),
    ensures
        Move::spec_parse(move_.spec_text()) == Ok::<Move, MoveParseErrorDetailsView>(
            move_.normalized(),
        ),
{
    let normalized = move_.normalized();
    let letter = match normalized.dimension {
        Dimension::Row => 'r',
        Dimension::Column => 'c',
    };
    let coordinate = spec_decimal((normalized.coordinate + 1) as nat);
    let amount = spec_decimal(normalized.amount as nat);
    let first = seq![letter] + coordinate;
    let second = if normalized.in_positive_direction {
        amount
    } else {
        seq!['-'] + amount
    };
    lemma_normalized_idempotent(move_);
    lemma_decimal_is_read_back((normalized.coordinate + 1) as nat, Num::MAX as int);
    lemma_decimal_is_read_back(normalized.amount as nat, Num::MAX as int);
    assert(move_.spec_text() =~= first + seq![' '] + second);
    lemma_two_words(first, second);
    assert(first.drop_first() =~= coordinate);
    if !normalized.in_positive_direction {
        assert(second.drop_first() =~= amount);
    }
}

} // verus!
