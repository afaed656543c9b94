//! Characters, words and numbers of the texts which the library reads and writes.

use vstd::prelude::*;

verus! {

/// The characters of a text.
pub fn chars_of(text: &str) -> (res: Vec<char>)
    ensures
        res@ == text@,
{
    broadcast use vstd::string::group_string_axioms;

    let mut res: Vec<char> = Vec::new();
    for c in it: text.chars()
        invariant
            it.seq() == text@,
            res@ == it.seq().take(it.index() as int),
    {
        res.push(c);
        assert(res@ =~= it.seq().take(it.index() + 1));
    }
    assert(res@ =~= text@);
    res
}

/// Appends a character to a text. Stands for `String::push`, which appends the given
/// character to the end of the string.
#[verifier::external_body]
fn push_char(text: &mut String, c: char)
    ensures
        final(text)@ == old(text)@.push(c),
{
    text.push(c);
}

/// The text which consists of the characters.
pub fn text_of(chars: &Vec<char>) -> (res: String)
    ensures
        res@ == chars@,
{
    let mut res = String::new();
    let mut index: usize = 0;
    while index < chars.len()
        invariant
            index <= chars@.len(),
            res@ == chars@.take(index as int),
        decreases chars@.len() - index,
    {
        push_char(&mut res, chars[index]);
        assert(res@ =~= chars@.take(index + 1));
        index += 1;
    }
    assert(chars@.take(chars@.len() as int) =~= chars@);
    res
}

/// Appends the characters of a text.
pub fn push_text(chars: &mut Vec<char>, text: &str)
    ensures
        final(chars)@ == old(chars)@ + text@,
{
    let other = chars_of(text);
    let mut index: usize = 0;
    while index < other.len()
        invariant
            index <= other@.len(),
            other@ == text@,
            chars@ == old(chars)@ + other@.take(index as int),
        decreases other@.len() - index,
    {
        chars.push(other[index]);
        assert(chars@ =~= old(chars)@ + other@.take(index + 1));
        index += 1;
    }
    assert(other@.take(other@.len() as int) =~= other@);
}

/// Appends characters.
pub fn push_chars(chars: &mut Vec<char>, other: &Vec<char>)
    ensures
        final(chars)@ == old(chars)@ + other@,
{
    let mut index: usize = 0;
    while index < other.len()
        invariant
            index <= other@.len(),
            chars@ == old(chars)@ + other@.take(index as int),
        decreases other@.len() - index,
    {
        chars.push(other[index]);
        assert(chars@ =~= old(chars)@ + other@.take(index + 1));
        index += 1;
    }
    assert(other@.take(other@.len() as int) =~= other@);
}

/// Whether the character separates words: the characters with the Unicode property
/// `White_Space`.
pub open spec fn spec_is_whitespace(c: char) -> bool {
    let code = c as u32;
    ||| 0x09 <= code <= 0x0d
    ||| code == 0x20
    ||| code == 0x85
    ||| code == 0xa0
    ||| code == 0x1680
    ||| 0x2000 <= code <= 0x200a
    ||| code == 0x2028
    ||| code == 0x2029
    ||| code == 0x202f
    ||| code == 0x205f
    ||| code == 0x3000
}

/// Whether the character separates words.
pub fn is_whitespace(c: char) -> (res: bool)
    ensures
        res == spec_is_whitespace(c),
{
    let code = c as u32;
    (0x09 <= code && code <= 0x0d) || code == 0x20 || code == 0x85 || code == 0xa0 || code == 0x1680
        || (0x2000 <= code && code <= 0x200a) || code == 0x2028 || code == 0x2029 || code == 0x202f
        || code == 0x205f || code == 0x3000
}

/// The words of a text: the longest runs of characters which do not separate words.
pub open spec fn spec_words(text: Seq<char>) -> Seq<Seq<char>>
    decreases text.len(),
{
    if text.len() == 0 {
        Seq::empty()
    } else {
        let before = spec_words(text.drop_last());
        if spec_is_whitespace(text.last()) {
            before
        } else if text.len() >= 2 && !spec_is_whitespace(text[text.len() - 2]) {
            before.drop_last().push(before.last().push(text.last()))
        } else {
            before.push(seq![text.last()])
        }
    }
}

/// What the words are in specifications.
pub open spec fn words_view(words: Seq<Vec<char>>) -> Seq<Seq<char>> {
    Seq::new(words.len(), |i: int| words[i]@)
}

/// Splits a text into its words.
pub fn split_whitespace(text: &Vec<char>) -> (res: Vec<Vec<char>>)
    ensures
        words_view(res@) == spec_words(text@),
{
    let mut words: Vec<Vec<char>> = Vec::new();
    let mut word: Vec<char> = Vec::new();
    let mut index: usize = 0;
    assert(text@.take(0) =~= Seq::<char>::empty());
    assert(words_view(words@) =~= spec_words(text@.take(0)));
    while index < text.len()
        invariant
            index <= text@.len(),
            word@.len() > 0 <==> index > 0 && !spec_is_whitespace(text@[index - 1]),
            word@.len() == 0 ==> words_view(words@) == spec_words(text@.take(index as int)),
            word@.len() > 0 ==> words_view(words@).push(word@) == spec_words(
                text@.take(index as int),
            ),
        decreases text@.len() - index,
    {
        let c = text[index];
        let ghost before = text@.take(index as int);
        let ghost now = text@.take(index + 1);
        assert(now.drop_last() =~= before);
        assert(now.last() == c);
        if is_whitespace(c) {
            if word.len() > 0 {
                let ghost views = words_view(words@);
                words.push(word);
                assert(words_view(words@) =~= views.push(word@));
                word = Vec::new();
            }
        } else {
            let ghost views = words_view(words@);
            let ghost started = word@;
            word.push(c);
            proof {
                if started.len() > 0 {
                    assert(before.last() == text@[index - 1]);
                    assert(views.push(started).drop_last() =~= views);
                    assert(spec_words(now) =~= views.push(word@));
                } else {
                    assert(word@ =~= seq![c]);
                }
            }
        }
        index += 1;
    }
    assert(text@.take(text@.len() as int) =~= text@);
    if word.len() > 0 {
        let ghost views = words_view(words@);
        words.push(word);
        assert(words_view(words@) =~= views.push(word@));
    }
    words
}

/// Whether the characters are those of the text.
pub fn is_text(chars: &Vec<char>, text: &str) -> (res: bool)
    ensures
        res == (chars@ == text@),
{
    let other = chars_of(text);
    if chars.len() != other.len() {
        return false;
    }
    proof {
        if chars@ == text@ {
            assert(chars@.len() == other@.len());
        }
    }
    let mut index: usize = 0;
    while index < chars.len()
        invariant
            index <= chars@.len(),
            chars@.len() == other@.len(),
            other@ == text@,
            forall|i: int| 0 <= i < index ==> chars@[i] == other@[i],
        decreases chars@.len() - index,
    {
        if chars[index] != other[index] {
            return false;
        }
        index += 1;
    }
    assert(chars@ =~= other@);
    true
}

/// Why a text is not a number.
#[derive(Debug, Copy, Clone, PartialEq, Eq, Structural, Hash)]
pub enum NumberError {
    /// The text is empty.
    Empty,
    /// The text holds something else than digits after an optional plus sign.
    InvalidDigit,
    /// The number is too large.
    Overflow,
}

impl NumberError {
    /// What a reader is told about the error.
    pub open spec fn spec_message(self) -> Seq<char> {
        match self {
            NumberError::Empty => "cannot parse integer from empty string"@,
            NumberError::InvalidDigit => "invalid digit found in string"@,
            NumberError::Overflow => "number too large to fit in target type"@,
        }
    }

    /// What a reader is told about the error.
    pub fn message(&self) -> (res: &'static str)
        ensures
            res@ == self.spec_message(),
    {
        match self {
            NumberError::Empty => "cannot parse integer from empty string",
            NumberError::InvalidDigit => "invalid digit found in string",
            NumberError::Overflow => "number too large to fit in target type",
        }
    }

    /// What a reader is told about the error.
    pub fn to_string(&self) -> (res: String)
        ensures
            res@ == self.spec_message(),
    {
        self.message().to_string()
    }
}

/// The value of a decimal digit.
pub open spec fn spec_digit(c: char) -> Option<int> {
    if '0' <= c <= '9' {
        Some(c as u32 - '0' as u32)
    } else {
        None
    }
}

/// The number which the decimal digits denote, if it is at most `max`. The digits are read
/// from the left, and the first character which is no digit or with which the number becomes
/// too large decides the error.
pub open spec fn spec_parse_digits(digits: Seq<char>, max: int) -> Result<int, NumberError>
    decreases digits.len(),
{
    if digits.len() == 0 {
        Ok(0)
    } else {
        match spec_parse_digits(digits.drop_last(), max) {
            Err(e) => Err(e),
            Ok(value) => match spec_digit(digits.last()) {
                None => Err(NumberError::InvalidDigit),
                Some(digit) => if value * 10 + digit > max {
                    Err(NumberError::Overflow)
                } else {
                    Ok(value * 10 + digit)
                },
            },
        }
    }
}

/// The number which the text denotes, if it is at most `max`: decimal digits, at least one,
/// after an optional plus sign.
pub open spec fn spec_parse_number(text: Seq<char>, max: int) -> Result<int, NumberError> {
    if text.len() == 0 {
        Err(NumberError::Empty)
    } else if text.len() == 1 && (text[0] == '+' || text[0] == '-') {
        Err(NumberError::InvalidDigit)
    } else if text[0] == '+' {
        spec_parse_digits(text.drop_first(), max)
    } else {
        spec_parse_digits(text, max)
    }
}

/// Reads the number which the characters from `from` on denote.
pub fn parse_number(text: &Vec<char>, from: usize, max: u32) -> (res: Result<u32, NumberError>)
    requires
        from <= text@.len(),
    ensures
        match spec_parse_number(text@.skip(from as int), max as int) {
            Ok(value) => res == Ok::<u32, NumberError>(value as u32) && 0 <= value <= max,
            Err(e) => res == Err::<u32, NumberError>(e),
        },
{
    let ghost number = text@.skip(from as int);
    if from == text.len() {
        return Err(NumberError::Empty);
    }
    let first = text[from];
    assert(number[0] == first);
    if text.len() - from == 1 && (first == '+' || first == '-') {
        return Err(NumberError::InvalidDigit);
    }
    let start: usize = if first == '+' {
        from + 1
    } else {
        from
    };
    let ghost digits = text@.skip(start as int);
    assert(first == '+' ==> digits =~= number.drop_first());
    assert(first != '+' ==> digits =~= number);
    let mut value: u64 = 0;
    let mut index: usize = start;
    assert(digits.take(0) =~= Seq::<char>::empty());
    while index < text.len()
        invariant
            start <= index <= text@.len(),
            digits == text@.skip(start as int),
            spec_parse_number(text@.skip(from as int), max as int) == spec_parse_digits(
                digits,
                max as int,
            ),
            spec_parse_digits(digits.take(index - start), max as int) == Ok::<int, NumberError>(
                value as int,
            ),
            value <= max,
        decreases text@.len() - index,
    {
        let c = text[index];
        let ghost read = digits.take(index - start + 1);
        assert(read.drop_last() =~= digits.take(index - start));
        assert(read.last() == c);
        if c < '0' || c > '9' {
            proof {
                lemma_digits_fail(digits, index - start + 1, max as int);
            }
            return Err(NumberError::InvalidDigit);
        }
        let digit = (c as u32 - '0' as u32) as u64;
        if value * 10 + digit > max as u64 {
            proof {
                lemma_digits_fail(digits, index - start + 1, max as int);
            }
            return Err(NumberError::Overflow);
        }
        value = value * 10 + digit;
        index += 1;
    }
    assert(digits.take(index - start) =~= digits);
    Ok(value as u32)
}

/// Once reading digits has failed it stays failed, whatever follows.
proof fn lemma_digits_fail(digits: Seq<char>, failed: int, max: int)
    requires
        0 <= failed <= digits.len(),
        spec_parse_digits(digits.take(failed), max) is Err,
    ensures
        spec_parse_digits(digits, max) == spec_parse_digits(digits.take(failed), max),
    decreases digits.len() - failed,
{
    if failed < digits.len() {
        assert(digits.take(failed + 1).drop_last() =~= digits.take(failed));
        lemma_digits_fail(digits, failed + 1, max);
    } else {
        assert(digits.take(failed) =~= digits);
    }
}

/// The character of a decimal digit.
pub open spec fn spec_digit_char(digit: int) -> char {
    if digit == 0 {
        '0'
    } else if digit == 1 {
        '1'
    } else if digit == 2 {
        '2'
    } else if digit == 3 {
        '3'
    } else if digit == 4 {
        '4'
    } else if digit == 5 {
        '5'
    } else if digit == 6 {
        '6'
    } else if digit == 7 {
        '7'
    } else if digit == 8 {
        '8'
    } else {
        '9'
    }
}

/// The decimal digits of a number, without leading zeros.
pub open spec fn spec_decimal(number: nat) -> Seq<char>
    decreases number,
{
    if number < 10 {
        seq![spec_digit_char(number as int)]
    } else {
        spec_decimal(number / 10).push(spec_digit_char((number % 10) as int))
    }
}

/// The character of a decimal digit.
fn digit_char(digit: u32) -> (res: char)
    requires
        digit < 10,
    ensures
        res == spec_digit_char(digit as int),
{
    match digit {
        0 => '0',
        1 => '1',
        2 => '2',
        3 => '3',
        4 => '4',
        5 => '5',
        6 => '6',
        7 => '7',
        8 => '8',
        _ => '9',
    }
}

/// Appends the decimal digits of a number.
pub fn push_decimal(chars: &mut Vec<char>, number: u64)
    ensures
        final(chars)@ == old(chars)@ + spec_decimal(number as nat),
    decreases number,
{
    if number < 10 {
        chars.push(digit_char(number as u32));
        assert(chars@ =~= old(chars)@ + spec_decimal(number as nat));
    } else {
        push_decimal(chars, number / 10);
        chars.push(digit_char((number % 10) as u32));
        assert(chars@ =~= old(chars)@ + spec_decimal(number as nat));
    }
}

/// Whether the character is a decimal digit.
pub open spec fn spec_is_digit(c: char) -> bool {
    '0' <= c <= '9'
}

/// A text without separators is one word.
pub proof fn lemma_single_word(word: Seq<char>)
    requires
        word.len() > 0,
        forall|i: int| 0 <= i < word.len() ==> !spec_is_whitespace(word[i]),
    ensures
        spec_words(word) == seq![word],
    decreases word.len(),
{
    if word.len() == 1 {
        assert(spec_words(word.drop_last()) =~= Seq::<Seq<char>>::empty());
        assert(seq![word.last()] =~= word);
    } else {
        lemma_single_word(word.drop_last());
        assert(word.drop_last().push(word.last()) =~= word);
        assert(seq![word.drop_last()].drop_last().push(word) =~= seq![word]);
    }
}

/// Two texts without separators, with a blank between them, are two words.
pub proof fn lemma_two_words(first: Seq<char>, second: Seq<char>)
    requires
        first.len() > 0,
        second.len() > 0,
        forall|i: int| 0 <= i < first.len() ==> !spec_is_whitespace(first[i]),
        forall|i: int| 0 <= i < second.len() ==> !spec_is_whitespace(second[i]),
    ensures
        spec_words(first + seq![' '] + second) == seq![first, second],
    decreases second.len(),
{
    let text = first + seq![' '] + second;
    if second.len() == 1 {
        let blank = first + seq![' '];
        assert(text.drop_last() =~= blank);
        assert(blank.drop_last() =~= first);
        lemma_single_word(first);
        assert(spec_words(blank) == seq![first]);
        assert(seq![text.last()] =~= second);
        assert(seq![first].push(second) =~= seq![first, second]);
    } else {
        lemma_two_words(first, second.drop_last());
        assert(text.drop_last() =~= first + seq![' '] + second.drop_last());
        assert(text[text.len() - 2] == second[second.len() - 2]);
        assert(second.drop_last().push(text.last()) =~= second);
        assert(seq![first, second.drop_last()].drop_last().push(second) =~= seq![first, second]);
    }
}

/// The decimal digits of a number are digits, and they denote the number.
pub proof fn lemma_decimal_is_read_back(number: nat, max: int)
    requires
        number <= max,
    ensures
        spec_decimal(number).len() > 0,
        forall|i: int| 0 <= i < spec_decimal(number).len() ==> spec_is_digit(spec_decimal(number)[i]),
        spec_parse_digits(spec_decimal(number), max) == Ok::<int, NumberError>(number as int),
        spec_parse_number(spec_decimal(number), max) == Ok::<int, NumberError>(number as int),
    decreases number,
{
    let digits = spec_decimal(number);
    if number < 10 {
        assert(digits.drop_last() =~= Seq::<char>::empty());
    } else {
        lemma_decimal_is_read_back(number / 10, max);
        assert(digits.drop_last() =~= spec_decimal(number / 10));
    }
}

} // verus!
