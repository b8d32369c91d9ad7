//! The run's settings and the interpretation of the answers the user gives
//! at the prompts: which settings to use, how many images to download at
//! most, whether to keep a default, and how far back to search.
//!
//! The prompts themselves — reading a line, lowercasing and trimming it,
//! printing a complaint and asking again — are plain I/O and stay with the
//! caller; the functions here decide what an answer means.

use vstd::prelude::*;
use crate::strings::all_digits;
use crate::strings::dec_val;
use crate::strings::is_digit;
use crate::strings::parse_u32;
use crate::strings::split_at;
use crate::strings::split_string;
use crate::strings::str_eq;
use crate::strings::strip_plus;
use crate::strings::u32_parse_ok;

verus! {

/// The immutable settings a run is given: the bot credential, the channel
/// handle, the start boundary encoded as a snowflake (zero meaning no lower
/// bound), the maximum number of messages to collect (zero meaning
/// unbounded), and the destination directory.
pub struct Config {
    pub token: String,
    pub channel: String,
    pub date: u64,
    pub quantity: u32,
    pub path: String,
}

/// How a settings prompt answer is read: `default`, `d` or an empty line
/// keeps the suggested settings, `custom` or `c` edits them, and anything
/// else is asked again. Answers arrive lowercased.
pub open spec fn settings_choice_spec(s: Seq<char>) -> Option<bool> {
    if s == "default"@ || s == "d"@ || s.len() == 0 {
        Some(false)
    } else if s == "custom"@ || s == "c"@ {
        Some(true)
    } else {
        None
    }
}

/// Reads a lowercased settings prompt answer: `Some(true)` to customize,
/// `Some(false)` to keep the defaults, `None` to ask again.
pub fn interpret_settings_choice(input: &str) -> (r: Option<bool>)
    ensures
        r == settings_choice_spec(input@),
{
    if str_eq(input, "default") || str_eq(input, "d") || input.unicode_len() == 0 {
        Some(false)
    } else if str_eq(input, "custom") || str_eq(input, "c") {
        Some(true)
    } else {
        None
    }
}

/// True when a lowercased prompt answer asks for the default: the word
/// `default` or an empty line.
pub open spec fn default_choice_spec(s: Seq<char>) -> bool {
    s == "default"@ || s.len() == 0
}

/// Tells whether a lowercased prompt answer asks for the default.
pub fn is_default_choice(input: &str) -> (r: bool)
    ensures
        r == default_choice_spec(input@),
{
    str_eq(input, "default") || input.unicode_len() == 0
}

/// How the quantity prompt answer is read: a decimal number is the cap,
/// `default` or an empty line means unbounded (zero), and anything else is
/// asked again.
pub open spec fn quantity_choice_spec(s: Seq<char>) -> Option<u32> {
    if u32_parse_ok(s) {
        Some(dec_val(strip_plus(s)) as u32)
    } else if default_choice_spec(s) {
        Some(0)
    } else {
        None
    }
}

/// Reads a lowercased quantity prompt answer.
pub fn interpret_quantity(input: &str) -> (r: Option<u32>)
    ensures
        r == quantity_choice_spec(input@),
{
    match parse_u32(input) {
        Some(n) => Some(n),
        None => {
            if is_default_choice(input) {
                Some(0)
            } else {
                None
            }
        },
    }
}

/// Why a date answer is rejected; each variant matches one of the prompt's
/// complaints.
#[derive(PartialEq, Eq, Structural, Clone, Copy, Debug)]
pub enum DateError {
    /// Not three `/`-separated fields of plausible width.
    Format,
    /// The day field is not a number.
    DayNotNumeric,
    /// The day is outside 1 through 31.
    DayOutOfRange,
    /// The month field is not a number.
    MonthNotNumeric,
    /// The month is outside 1 through 12.
    MonthOutOfRange,
    /// The year field is not a number.
    YearNotNumeric,
    /// The year is 2014 or earlier, before the service existed.
    TooEarly,
}

/// A date answer that was accepted: either no lower bound, or a calendar
/// day to start from.
#[derive(PartialEq, Eq, Structural, Clone, Copy, Debug)]
pub enum DateChoice {
    NoBound,
    Day { year: u32, month: u32, day: u32 },
}

/// How the date prompt answer is read: `default` or an empty line means no
/// lower bound; otherwise the answer must be day, month and year separated
/// by slashes — one or two digits each for day and month, two or four for
/// the year, a two-digit year counting from 2000 — with the day at most 31,
/// the month at most 12, and the year after 2014.
pub open spec fn date_choice_spec(s: Seq<char>) -> Result<DateChoice, DateError> {
    if default_choice_spec(s) {
        Ok(DateChoice::NoBound)
    } else {
        let parts = split_at(s, '/');
        if parts.len() != 3 {
            Err(DateError::Format)
        } else {
            let d = parts[0];
            let mo = parts[1];
            let y = parts[2];
            if !(1 <= d.len() <= 2 && 1 <= mo.len() <= 2 && (y.len() == 2 || y.len() == 4)) {
                Err(DateError::Format)
            } else if !all_digits(d) {
                Err(DateError::DayNotNumeric)
            } else if !(1 <= dec_val(d) <= 31) {
                Err(DateError::DayOutOfRange)
            } else if !all_digits(mo) {
                Err(DateError::MonthNotNumeric)
            } else if !(1 <= dec_val(mo) <= 12) {
                Err(DateError::MonthOutOfRange)
            } else if !all_digits(y) {
                Err(DateError::YearNotNumeric)
            } else {
                let year = if y.len() == 2 {
                    2000 + dec_val(y)
                } else {
                    dec_val(y)
                };
                if year <= 2014 {
                    Err(DateError::TooEarly)
                } else {
                    Ok(
                        DateChoice::Day {
                            year: year as u32,
                            month: dec_val(mo) as u32,
                            day: dec_val(d) as u32,
                        },
                    )
                }
            }
        }
    }
}

/// Ten to the given power.
pub open spec fn pow10(n: nat) -> nat
    decreases n,
{
    if n == 0 {
        1
    } else {
        10 * pow10((n - 1) as nat)
    }
}

/// A digit string denotes less than ten to its length.
proof fn lemma_dec_val_bound(s: Seq<char>)
    requires
        all_digits(s),
    ensures
        dec_val(s) < pow10(s.len()),
    decreases s.len(),
{
    if s.len() > 0 {
        assert(all_digits(s.drop_last()));
        lemma_dec_val_bound(s.drop_last());
    }
}

/// A field of at most four digits denotes at most 9999.
proof fn lemma_short_field_small(s: Seq<char>)
    requires
        all_digits(s),
        s.len() <= 4,
    ensures
        dec_val(s) <= 9999,
{
    lemma_dec_val_bound(s);
    assert(pow10(0) == 1);
    assert(pow10(1) == 10);
    assert(pow10(2) == 100);
    assert(pow10(3) == 1000);
    assert(pow10(4) == 10000);
    assert(pow10(s.len()) <= 10000);
}

/// Reads a short prompt field of decimal digits, rejecting anything else.
fn parse_field(s: &str) -> (r: Option<u32>)
    requires
        1 <= s@.len() <= 4,
    ensures
        r is Some <==> all_digits(s@),
        r matches Some(v) ==> v == dec_val(s@),
{
    if s.get_char(0) == '+' {
        proof {
            assert(!is_digit(s@[0]));
        }
        return None;
    }
    proof {
        assert(strip_plus(s@) == s@);
    }
    let r = parse_u32(s);
    proof {
        if all_digits(s@) {
            lemma_short_field_small(s@);
            assert(u32_parse_ok(s@));
        }
    }
    r
}

/// Reads a lowercased date prompt answer.
pub fn parse_date_choice(input: &str) -> (r: Result<DateChoice, DateError>)
    ensures
        r == date_choice_spec(input@),
{
    if is_default_choice(input) {
        return Ok(DateChoice::NoBound);
    }
    let parts = split_string(input, '/');
    if parts.len() != 3 {
        return Err(DateError::Format);
    }
    let d_str = parts[0].as_str();
    let mo_str = parts[1].as_str();
    let y_str = parts[2].as_str();
    let d_len = d_str.unicode_len();
    let mo_len = mo_str.unicode_len();
    let y_len = y_str.unicode_len();
    if !(1 <= d_len && d_len <= 2 && 1 <= mo_len && mo_len <= 2 && (y_len == 2 || y_len == 4)) {
        return Err(DateError::Format);
    }
    let day = match parse_field(d_str) {
        Some(v) => v,
        None => {
            return Err(DateError::DayNotNumeric);
        },
    };
    if day < 1 || day > 31 {
        return Err(DateError::DayOutOfRange);
    }
    let month = match parse_field(mo_str) {
        Some(v) => v,
        None => {
            return Err(DateError::MonthNotNumeric);
        },
    };
    if month < 1 || month > 12 {
        return Err(DateError::MonthOutOfRange);
    }
    let y_val = match parse_field(y_str) {
        Some(v) => v,
        None => {
            return Err(DateError::YearNotNumeric);
        },
    };
    proof {
        lemma_short_field_small(y_str@);
    }
    let year = if y_len == 2 {
        2000 + y_val
    } else {
        y_val
    };
    if year <= 2014 {
        return Err(DateError::TooEarly);
    }
    Ok(DateChoice::Day { year, month, day })
}

} // verus!
