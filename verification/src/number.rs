//! Whole numbers as the user types and reads them.

use vstd::prelude::*;
use vstd::string::StrSliceExecFns;
use vstd::string::StringExecFns;

verus! {

/// Whether `c` is one of the ten digits.
pub open spec fn is_digit(c: char) -> bool {
    '0' <= c && c <= '9'
}

/// The digit for a number below ten.
pub open spec fn digit_char(value: int) -> char {
    if value == 0 {
        '0'
    } else if value == 1 {
        '1'
    } else if value == 2 {
        '2'
    } else if value == 3 {
        '3'
    } else if value == 4 {
        '4'
    } else if value == 5 {
        '5'
    } else if value == 6 {
        '6'
    } else if value == 7 {
        '7'
    } else if value == 8 {
        '8'
    } else {
        '9'
    }
}

/// The number that a digit stands for.
pub open spec fn digit_value(c: char) -> int {
    if c == '1' {
        1
    } else if c == '2' {
        2
    } else if c == '3' {
        3
    } else if c == '4' {
        4
    } else if c == '5' {
        5
    } else if c == '6' {
        6
    } else if c == '7' {
        7
    } else if c == '8' {
        8
    } else if c == '9' {
        9
    } else {
        0
    }
}

/// The number that a run of digits stands for, read in base ten.
pub open spec fn digits_value(digits: Seq<char>) -> int
    decreases digits.len(),
{
    if digits.len() == 0 {
        0
    } else {
        digits_value(digits.drop_last()) * 10 + digit_value(digits.last())
    }
}

/// Whether `text` is made of digits only.
pub open spec fn all_digits(text: Seq<char>) -> bool {
    forall|i: int| 0 <= i < text.len() ==> is_digit(#[trigger] text[i])
}

/// What is left of `text` without a plus sign in front.
pub open spec fn unsigned_part(text: Seq<char>) -> Seq<char> {
    if text.len() > 0 && text[0] == '+' {
        text.drop_first()
    } else {
        text
    }
}

/// The number below 256 that `text` writes: an optional plus sign, then one
/// digit or more and nothing else. Any other text writes no such number.
pub open spec fn parsed_u8(text: Seq<char>) -> Option<u8> {
    let digits = unsigned_part(text);
    if digits.len() > 0 && all_digits(digits) && digits_value(digits) <= 255 {
        Some(digits_value(digits) as u8)
    } else {
        None
    }
}

/// `number` written in base ten, without leading zeros.
pub open spec fn decimal_text(number: nat) -> Seq<char>
    decreases number,
{
    if number < 10 {
        seq![digit_char(number as int)]
    } else {
        decimal_text(number / 10).push(digit_char((number % 10) as int))
    }
}

/// Reading more digits never makes a number smaller.
pub proof fn lemma_digits_value_grows(digits: Seq<char>, upto: int)
    requires
        0 <= upto <= digits.len(),
    ensures
        0 <= digits_value(digits.take(upto)) <= digits_value(digits),
    decreases digits.len() - upto,
{
    if upto < digits.len() {
        lemma_digits_value_grows(digits, upto + 1);
        assert(digits.take(upto + 1).drop_last() == digits.take(upto));
        lemma_digits_value_bounds(digits.take(upto));
    } else {
        assert(digits.take(upto) == digits);
        lemma_digits_value_bounds(digits);
    }
}

/// No run of digits stands for a number below zero.
pub proof fn lemma_digits_value_bounds(digits: Seq<char>)
    ensures
        0 <= digits_value(digits),
    decreases digits.len(),
{
    if digits.len() > 0 {
        lemma_digits_value_bounds(digits.drop_last());
    }
}

/// The value of one character as a digit, if it is one.
fn digit_of(c: char) -> (value: Option<u8>)
    ensures
        match value {
            None => !is_digit(c),
            Some(v) => is_digit(c) && v == digit_value(c) && v <= 9,
        },
{
    if c == '0' {
        Some(0)
    } else if c == '1' {
        Some(1)
    } else if c == '2' {
        Some(2)
    } else if c == '3' {
        Some(3)
    } else if c == '4' {
        Some(4)
    } else if c == '5' {
        Some(5)
    } else if c == '6' {
        Some(6)
    } else if c == '7' {
        Some(7)
    } else if c == '8' {
        Some(8)
    } else if c == '9' {
        Some(9)
    } else {
        None
    }
}

/// Reads a number below 256 from `text`.
pub fn parse_u8(text: &str) -> (number: Option<u8>)
    ensures
        number == parsed_u8(text@),
{
    let length = text.unicode_len();
    if length == 0 {
        return None;
    }
    let start: usize = if text.get_char(0) == '+' {
        1
    } else {
        0
    };
    let ghost digits = unsigned_part(text@);
    assert(digits == text@.skip(start as int));
    if start == length {
        return None;
    }
    let mut value: u16 = 0;
    let mut i: usize = start;
    assert(digits.take(0) =~= Seq::<char>::empty());
    while i < length
        invariant
            start <= i <= length,
            length == text@.len(),
            digits == unsigned_part(text@),
            digits == text@.skip(start as int),
            digits.len() == length - start,
            all_digits(digits.take(i - start)),
            value == digits_value(digits.take(i - start)),
            value <= 255,
        decreases length - i,
    {
        let c = text.get_char(i);
        let ghost read = digits.take(i - start);
        let ghost more = digits.take(i - start + 1);
        assert(more.drop_last() == read);
        assert(more.last() == c);
        match digit_of(c) {
            None => {
                assert(!is_digit(digits[i - start]));
                return None;
            },
            Some(digit) => {
                value = value * 10 + digit as u16;
                assert forall|j: int| 0 <= j < more.len() implies is_digit(#[trigger] more[j]) by {
                    if j < read.len() {
                        assert(read[j] == more[j]);
                    }
                }
                if value > 255 {
                    proof {
                        lemma_digits_value_grows(digits, i - start + 1);
                    }
                    return None;
                }
            },
        }
        i = i + 1;
    }
    assert(digits.take(length - start) == digits);
    Some(value as u8)
}

/// One digit as a string.
fn digit_text(value: u8) -> (text: &'static str)
    requires
        value <= 9,
    ensures
        text@ == seq![digit_char(value as int)],
{
    proof {
        reveal_strlit("0");
        reveal_strlit("1");
        reveal_strlit("2");
        reveal_strlit("3");
        reveal_strlit("4");
        reveal_strlit("5");
        reveal_strlit("6");
        reveal_strlit("7");
        reveal_strlit("8");
        reveal_strlit("9");
    }
    let text = if value == 0 {
        "0"
    } else if value == 1 {
        "1"
    } else if value == 2 {
        "2"
    } else if value == 3 {
        "3"
    } else if value == 4 {
        "4"
    } else if value == 5 {
        "5"
    } else if value == 6 {
        "6"
    } else if value == 7 {
        "7"
    } else if value == 8 {
        "8"
    } else {
        "9"
    };
    assert(text@ =~= seq![digit_char(value as int)]);
    text
}

/// Writes `number` in base ten.
pub fn decimal(number: usize) -> (text: String)
    ensures
        text@ == decimal_text(number as nat),
{
    let mut low_first: Vec<u8> = Vec::new();
    let mut rest: usize = number;
    while rest >= 10
        invariant
            forall|j: int| 0 <= j < low_first.len() ==> low_first[j] <= 9,
            decimal_text(number as nat) == decimal_text(rest as nat) + Seq::new(
                low_first.len() as nat,
                |j: int| digit_char(low_first[low_first.len() - 1 - j] as int),
            ),
        decreases rest,
    {
        let ghost tail = Seq::new(
            low_first.len() as nat,
            |j: int| digit_char(low_first[low_first.len() - 1 - j] as int),
        );
        let ghost before = low_first@;
        low_first.push((rest % 10) as u8);
        assert(decimal_text(rest as nat) == decimal_text((rest / 10) as nat).push(
            digit_char((rest % 10) as int),
        ));
        assert(Seq::new(
            low_first.len() as nat,
            |j: int| digit_char(low_first[low_first.len() - 1 - j] as int),
        ) =~= seq![digit_char((rest % 10) as int)] + tail);
        rest = rest / 10;
    }
    let mut text = String::from_str(digit_text(rest as u8));
    let mut left: usize = low_first.len();
    let ghost tail = Seq::new(
        low_first.len() as nat,
        |j: int| digit_char(low_first[low_first.len() - 1 - j] as int),
    );
    while left > 0
        invariant
            left <= low_first.len(),
            forall|j: int| 0 <= j < low_first.len() ==> low_first[j] <= 9,
            tail == Seq::new(
                low_first.len() as nat,
                |j: int| digit_char(low_first[low_first.len() - 1 - j] as int),
            ),
            text@ == decimal_text(rest as nat) + tail.take(low_first.len() - left),
        decreases left,
    {
        left = left - 1;
        text.append(digit_text(low_first[left]));
        assert(tail.take(low_first.len() - left) =~= tail.take(low_first.len() - left - 1).push(
            digit_char(low_first[left as int] as int),
        ));
    }
    assert(tail.take(low_first.len() as int) == tail);
    text
}

} // verus!
