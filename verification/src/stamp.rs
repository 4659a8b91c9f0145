//! Identifiers and points in time as text.

use vstd::prelude::*;
use vstd::string::*;
use crate::text;

verus! {

pub open spec fn is_lower_hex(c: char) -> bool {
    text::is_digit(c) || ('a' <= c && c <= 'f')
}

/// Thirty-two hexadecimal digits in five groups, with the number of the random
/// kind in front of the third.
pub open spec fn is_uuid(s: Seq<char>) -> bool {
    &&& s.len() == 36
    &&& s[8] == '-' && s[13] == '-' && s[18] == '-' && s[23] == '-'
    &&& forall|i: int|
        0 <= i < 36 && i != 8 && i != 13 && i != 18 && i != 23 ==> is_lower_hex(#[trigger] s[i])
    &&& s[14] == '4'
    &&& s[19] == '8' || s[19] == '9' || s[19] == 'a' || s[19] == 'b'
}

/// `uuid::Uuid::new_v4` in its usual notation. Which one comes is left to
/// chance; only the notation is claimed.
#[verifier::external_body]
pub(crate) fn new_uuid() -> (r: String)
    ensures
        is_uuid(r@),
{
    uuid::Uuid::new_v4().to_string()
}

/// A new identifier behind the given beginning.
pub open spec fn is_id(s: Seq<char>, start: Seq<char>) -> bool {
    text::has_prefix(s, start) && is_uuid(s.skip(start.len() as int))
}

pub(crate) fn new_id(start: &str) -> (r: String)
    ensures
        is_id(r@, start@),
{
    let unique = new_uuid();
    let id = text::join2(start, unique.as_str());
    assert(id@.subrange(0, start@.len() as int) =~= start@);
    assert(id@.skip(start@.len() as int) =~= unique@);
    id
}

/// A year: four digits, and behind a sign where it takes more or is before the
/// first one.
pub open spec fn is_year(s: Seq<char>) -> bool {
    ||| s.len() == 4 && text::all_digits(s)
    ||| s.len() >= 5 && (s[0] == '+' || s[0] == '-') && text::all_digits(s.skip(1))
}

/// Two digits behind a separator, at the end.
pub open spec fn ends_in_pair(s: Seq<char>, separator: char) -> bool {
    &&& s.len() >= 3
    &&& s[s.len() - 3] == separator
    &&& text::is_digit(s[s.len() - 2])
    &&& text::is_digit(s[s.len() - 1])
}

/// `s` without the last two digits and the separator before them.
pub open spec fn without_pair(s: Seq<char>) -> Seq<char> {
    s.take(s.len() - 3)
}

/// A year, a month and a day, with hyphens between them.
pub open spec fn is_date(s: Seq<char>) -> bool {
    &&& ends_in_pair(s, '-')
    &&& ends_in_pair(without_pair(s), '-')
    &&& is_year(without_pair(without_pair(s)))
}

/// The part of a second: none, or three, six or nine digits behind a point.
pub open spec fn is_part_of_second(s: Seq<char>) -> bool {
    ||| s.len() == 0
    ||| (s.len() == 4 || s.len() == 7 || s.len() == 10) && s[0] == '.' && text::all_digits(
        s.skip(1),
    )
}

/// A point in time in Universal Time: the date, the time of day, the part of the
/// second.
pub open spec fn is_utc_time(s: Seq<char>) -> bool {
    exists|date: Seq<char>, time: Seq<char>, part: Seq<char>|
        is_date(date) && is_time_of_day(time) && is_part_of_second(part) && s == #[trigger] utc_text(
            date,
            time,
            part,
        )
}

pub open spec fn utc_text(date: Seq<char>, time: Seq<char>, part: Seq<char>) -> Seq<char> {
    date + "T"@ + time + part + "+00:00"@
}

/// `chrono::Utc::now` with `DateTime::to_rfc3339`. Which time it is depends on
/// the clock; only the notation is claimed.
#[verifier::external_body]
pub(crate) fn utc_time() -> (r: String)
    ensures
        is_utc_time(r@),
{
    chrono::Utc::now().to_rfc3339()
}

/// A date and a time of day, with hyphens between the numbers: a year and five
/// times two digits.
pub open spec fn is_date_and_time(s: Seq<char>) -> bool {
    let n = s.len();
    &&& n >= 19
    &&& is_year(s.take(n - 15))
    &&& s[n - 15] == '-' && s[n - 12] == '-' && s[n - 9] == '-' && s[n - 6] == '-' && s[n - 3]
        == '-'
    &&& forall|i: int|
        n - 15 <= i < n && (i - n) % 3 != 0 ==> text::is_digit(#[trigger] s[i])
}

/// A time of day.
pub open spec fn is_time_of_day(s: Seq<char>) -> bool {
    &&& s.len() == 8
    &&& s[2] == ':' && s[5] == ':'
    &&& forall|i: int| 0 <= i < 8 && i != 2 && i != 5 ==> text::is_digit(#[trigger] s[i])
}

/// `chrono::Local::now` with `DateTime::format`. Which time it is depends on the
/// clock and the time zone of the machine; only the notation is claimed.
#[verifier::external_body]
pub(crate) fn local_time(format: &str) -> (r: String)
    requires
        format@ == "%Y-%m-%d-%H-%M-%S"@ || format@ == "%H:%M:%S"@,
    ensures
        format@ == "%Y-%m-%d-%H-%M-%S"@ ==> is_date_and_time(r@),
        format@ == "%H:%M:%S"@ ==> is_time_of_day(r@),
{
    chrono::Local::now().format(format).to_string()
}

}
