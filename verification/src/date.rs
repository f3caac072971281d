//! Dates as text: the day an expense is entered, and the month that a date
//! names.

use crate::number::{digit_value, is_digit};
use crate::text::{chars_of, has_no_space, is_space};
use vstd::prelude::*;

verus! {

/// The number that two characters write as an unsigned literal: two digits,
/// or a plus sign and a digit. Any other pair writes none, which counts as 0.
pub open spec fn two_chars_value(a: char, b: char) -> nat {
    if is_digit(a) && is_digit(b) {
        (digit_value(a) * 10 + digit_value(b)) as nat
    } else if a == '+' && is_digit(b) {
        digit_value(b) as nat
    } else {
        0
    }
}

/// The month that a date names: what its sixth and seventh characters
/// write, and 0 where the date is shorter or they write no number.
pub open spec fn month_of_spec(date: Seq<char>) -> nat {
    if date.len() >= 7 {
        two_chars_value(date[5], date[6])
    } else {
        0
    }
}

/// The text of a day of the calendar: a year, a month from 01 to 12 and a
/// day from 01 to 31, with a hyphen before the month and one before the day.
/// Of the year it says only that it takes four characters or more, each a
/// digit or a sign.
pub open spec fn is_calendar_day(s: Seq<char>) -> bool {
    &&& s.len() >= 10
    &&& forall|i: int|
        0 <= i < s.len() ==> is_digit(#[trigger] s[i]) || s[i] == '-' || s[i] == '+'
    &&& s[s.len() - 6] == '-'
    &&& is_digit(s[s.len() - 5])
    &&& is_digit(s[s.len() - 4])
    &&& 1 <= two_chars_value(s[s.len() - 5], s[s.len() - 4]) <= 12
    &&& s[s.len() - 3] == '-'
    &&& is_digit(s[s.len() - 2])
    &&& is_digit(s[s.len() - 1])
    &&& 1 <= two_chars_value(s[s.len() - 2], s[s.len() - 1]) <= 31
}

/// The month that a date names, 0 where it names none.
pub fn month_of(date: &str) -> (m: u32)
    ensures
        m == month_of_spec(date@),
        m <= 99,
{
    let chars = chars_of(date);
    if chars.len() < 7 {
        return 0;
    }
    let a: char = chars[5];
    let b: char = chars[6];
    if !(b >= '0' && b <= '9') {
        return 0;
    }
    let ones: u32 = b as u32 - '0' as u32;
    if a >= '0' && a <= '9' {
        (a as u32 - '0' as u32) * 10 + ones
    } else if a == '+' {
        ones
    } else {
        0
    }
}

/// Today's date in the machine's time zone: year, month and day, with
/// hyphens between them. Calls `chrono::Local::now`, formats what it gives
/// with `chrono::DateTime::format` and the pattern `%Y-%m-%d`, and collects
/// the text. The contract claims what holds of every date that chrono
/// writes with this pattern: the year takes four digits, or a sign and four
/// digits or more; the month and the day take two digits each, the month
/// from 01 to 12 and the day from 01 to 31; the pattern adds the hyphens.
///
/// The call takes no argument, and it can panic on states of the machine:
/// where the system clock stands before 1970 or beyond the dates that
/// chrono can hold, and where the time zone data of the machine give an
/// offset of a day or more, or no local time type at all.
#[verifier::external_body]
pub(crate) fn today() -> (date: String)
    ensures
        is_calendar_day(date@),
{
    chrono::Local::now().format("%Y-%m-%d").to_string()
}

/// The text of a day of the calendar holds no white space. Where its year
/// takes four characters, the month that it names is the month written in
/// it.
pub proof fn lemma_calendar_day(s: Seq<char>)
    requires
        is_calendar_day(s),
    ensures
        has_no_space(s),
        s.len() == 10 ==> 1 <= month_of_spec(s) <= 12,
{
    assert forall|i: int| 0 <= i < s.len() implies !is_space(#[trigger] s[i]) by {
        assert(is_digit(s[i]) || s[i] == '-' || s[i] == '+');
    }
}

} // verus!
