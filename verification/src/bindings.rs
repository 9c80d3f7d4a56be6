use vstd::prelude::*;
use chrono::{Datelike, Timelike};

verus! {

/// Calls `String::push` of std. Trusted to append exactly the one character to the
/// string's contents, as std documents.
#[verifier::external_body]
pub(crate) fn push_char(s: &mut String, c: char)
    ensures
        final(s)@ == old(s)@.push(c),
{
    s.push(c);
}

/// What `Path::join` gives for `base` joined with `rest` (as text).
pub uninterp spec fn joined_path(base: Seq<char>, rest: Seq<char>) -> Seq<char>;

/// Calls `Path::join` of std on `base` and `rest`. Both are UTF-8, so the joined
/// path is too and its text is taken as it is. Trusted: the result is a function
/// of the two arguments (named `joined_path`), and, as std documents, an absolute
/// `rest` (on Unix: one that starts with `/`) replaces `base`.
#[verifier::external_body]
pub(crate) fn path_join(base: &str, rest: &str) -> (r: String)
    ensures
        r@ == joined_path(base@, rest@),
        rest@.len() > 0 && rest@[0] == '/' ==> r@ == rest@,
{
    std::path::Path::new(base).join(rest).to_string_lossy().into_owned()
}

/// Calls `dirs::home_dir`, taking the directory's text (lossily where it is not
/// UTF-8). Trusted: where there is a home directory its path is not empty, as the
/// source shows (an empty `$HOME` is passed over). Which directory comes back
/// depends on the environment, so nothing else is stated.
#[verifier::external_body]
pub(crate) fn home_dir() -> (r: Option<String>)
    ensures
        r matches Some(h) ==> h@.len() > 0,
{
    dirs::home_dir().map(|p| p.to_string_lossy().into_owned())
}

/// A date and time of day read from a note name.
pub struct Stamp {
    pub year: i32,
    pub month: u32,
    pub day: u32,
    pub hour: u32,
    pub minute: u32,
}

/// A calendar date.
#[derive(PartialEq, Eq, Structural)]
pub struct Day {
    pub year: i32,
    pub month: u32,
    pub day: u32,
}

/// The components of a calendar date are in their documented ranges.
pub open spec fn day_in_range(d: Day) -> bool {
    1 <= d.month <= 12 && 1 <= d.day <= 31
}

/// What `NaiveDateTime::parse_from_str(text, "%Y-%m-%d-%Hh%M")` gives, as components.
pub uninterp spec fn parsed_inbox_stamp(text: Seq<char>) -> Option<Stamp>;

/// Calls chrono's `NaiveDateTime::parse_from_str` with the format
/// `%Y-%m-%d-%Hh%M` and takes the components of what it parsed. Trusted: the
/// result is a function of `text` (named `parsed_inbox_stamp`), and the month,
/// day, hour and minute lie in the ranges that chrono's `Datelike` and
/// `Timelike` document (1-12, 1-31, 0-23, 0-59).
#[verifier::external_body]
pub(crate) fn parse_inbox_stamp(text: &str) -> (r: Option<Stamp>)
    ensures
        r == parsed_inbox_stamp(text@),
        r matches Some(s) ==> 1 <= s.month <= 12 && 1 <= s.day <= 31 && s.hour <= 23 && s.minute
            <= 59,
{
    match chrono::NaiveDateTime::parse_from_str(text, "%Y-%m-%d-%Hh%M") {
        Ok(dt) => Some(
            Stamp {
                year: dt.year(),
                month: dt.month(),
                day: dt.day(),
                hour: dt.hour(),
                minute: dt.minute(),
            },
        ),
        Err(_) => None,
    }
}

/// Calls chrono's `Local::now().date_naive()`: today's date in the local time
/// zone. Trusted only for the documented ranges of month and day; which day it is
/// depends on the clock.
#[verifier::external_body]
pub(crate) fn local_today() -> (r: Day)
    ensures
        day_in_range(r),
{
    let d = chrono::Local::now().date_naive();
    Day { year: d.year(), month: d.month(), day: d.day() }
}

/// What chrono gives for the day before the date `y-m-d` (`None` where that is
/// no date).
pub uninterp spec fn previous_day(y: i32, m: u32, d: u32) -> Option<Day>;

/// Calls chrono's `NaiveDate::checked_sub_signed` with one day on the date
/// `d` (built with `NaiveDate::from_ymd_opt`). Trusted: the result is a function
/// of the date (named `previous_day`), and a date it gives has month and day in
/// their documented ranges.
#[verifier::external_body]
pub(crate) fn day_before(d: &Day) -> (r: Option<Day>)
    ensures
        r == previous_day(d.year, d.month, d.day),
        r matches Some(p) ==> day_in_range(p),
{
    match chrono::NaiveDate::from_ymd_opt(d.year, d.month, d.day) {
        Some(date) => match date.checked_sub_signed(chrono::Duration::days(1)) {
            Some(p) => Some(Day { year: p.year(), month: p.month(), day: p.day() }),
            None => None,
        },
        None => None,
    }
}

/// An ASCII decimal digit.
pub open spec fn is_digit_char(c: char) -> bool {
    '0' <= c && c <= '9'
}

/// The shape of a date and time written with chrono's `%Y-%m-%d-%Hh%M`: a
/// year of at least four characters whose last four are digits (a sign comes
/// first outside 0..=9999), then `-MM-DD-HHhMM` with two digits each.
pub open spec fn stamp_shape(s: Seq<char>) -> bool {
    let n = s.len() as int;
    &&& n >= 16
    &&& is_digit_char(s[n - 16]) && is_digit_char(s[n - 15]) && is_digit_char(s[n - 14])
        && is_digit_char(s[n - 13])
    &&& s[n - 12] == '-' && is_digit_char(s[n - 11]) && is_digit_char(s[n - 10])
    &&& s[n - 9] == '-' && is_digit_char(s[n - 8]) && is_digit_char(s[n - 7])
    &&& s[n - 6] == '-' && is_digit_char(s[n - 5]) && is_digit_char(s[n - 4])
    &&& s[n - 3] == 'h' && is_digit_char(s[n - 2]) && is_digit_char(s[n - 1])
}

/// Calls chrono's `Local::now().format("%Y-%m-%d-%Hh%M")`: the local date and
/// time as text. Trusted for the shape that chrono's formatting code writes
/// for these fields (`stamp_shape`: the year zero-padded to four digits, with
/// a sign outside 0..=9999; month, day, hour and minute as two digits); which
/// date and time it is depends on the clock.
#[verifier::external_body]
pub(crate) fn local_now_stamp() -> (r: String)
    ensures
        stamp_shape(r@),
{
    chrono::Local::now().format("%Y-%m-%d-%Hh%M").to_string()
}

/// Calls std's `SystemTime::now()` and takes the whole seconds since the Unix
/// epoch (0 for a clock set before it). Nothing is stated of it: it depends on
/// the clock.
#[verifier::external_body]
pub(crate) fn now_unix_secs() -> (r: u64) {
    std::time::SystemTime::now().duration_since(std::time::UNIX_EPOCH).unwrap_or_default().as_secs()
}

/// What `str::to_lowercase` gives for `s`.
pub uninterp spec fn lowercased(s: Seq<char>) -> Seq<char>;

/// Calls std's `str::to_lowercase`. Trusted: the result is a function of `s`
/// (named `lowercased`), and the empty string stays empty. Unicode's lowercase
/// mapping is not written out here.
#[verifier::external_body]
pub(crate) fn to_lowercase(s: &str) -> (r: String)
    ensures
        r@ == lowercased(s@),
        s@.len() == 0 ==> r@.len() == 0,
{
    s.to_lowercase()
}

} // verus!
