//! Calendar month grids: date arithmetic, flag parsing, and the fixed-shape
//! 8-line, 22-column month layout with optional highlighting of the current
//! day, plus the 12-month year view composed from it.

use vstd::prelude::*;

use crate::text::{
    dec_digits, dec_string, digit_char, int_form, int_val, lemma_dec_digits_len,
    lemma_repeat_char_len, push_char, push_dec, push_repeat, repeat_char, signed_dec,
};

verus! {

// ------------------------------------------------------------------
// Errors

/// Why a year, month, or date was rejected.
#[derive(Debug)]
pub enum CalendarError {
    /// The text is not a decimal integer; holds the offending text.
    InvalidInteger(String),
    /// An integer year outside 1..=9999; holds the year's decimal rendering.
    InvalidYear(String),
    /// An integer month outside 1..=12; holds the month's decimal rendering.
    InvalidMonthNumber(String),
    /// A month name prefix matching no month or several; holds the input.
    InvalidMonthName(String),
    /// A (year, month, day) triple that names no real date.
    InvalidDate,
}

impl CalendarError {
    /// The human-readable message for this error, as printed on stderr.
    pub fn message(&self) -> (r: String)
        ensures
            (self matches CalendarError::InvalidInteger(v) ==> r@ == "Invalid integer \""@ + v@
                + "\""@),
            (self matches CalendarError::InvalidYear(v) ==> r@ == "year \""@ + v@
                + "\" not in the range 1 through 9999"@),
            (self matches CalendarError::InvalidMonthNumber(v) ==> r@ == "month \""@ + v@
                + "\" not in the range 1 through 12"@),
            (self matches CalendarError::InvalidMonthName(v) ==> r@ == "Invalid month \""@ + v@
                + "\""@),
            (self matches CalendarError::InvalidDate ==> r@ == "invalid date"@),
    {
        match self {
            CalendarError::InvalidInteger(v) => {
                let mut s = String::from_str("Invalid integer \"");
                s.append(v.as_str());
                s.append("\"");
                s
            },
            CalendarError::InvalidYear(v) => {
                let mut s = String::from_str("year \"");
                s.append(v.as_str());
                s.append("\" not in the range 1 through 9999");
                proof {
                    assert(s@ == "year \""@ + v@ + "\" not in the range 1 through 9999"@);
                }
                s
            },
            CalendarError::InvalidMonthNumber(v) => {
                let mut s = String::from_str("month \"");
                s.append(v.as_str());
                s.append("\" not in the range 1 through 12");
                proof {
                    assert(s@ == "month \""@ + v@ + "\" not in the range 1 through 12"@);
                }
                s
            },
            CalendarError::InvalidMonthName(v) => {
                let mut s = String::from_str("Invalid month \"");
                s.append(v.as_str());
                s.append("\"");
                s
            },
            CalendarError::InvalidDate => String::from_str("invalid date"),
        }
    }
}

// ------------------------------------------------------------------
// Date arithmetic (proleptic Gregorian calendar)

/// Gregorian leap-year rule.
pub open spec fn is_leap_year(y: int) -> bool {
    y % 4 == 0 && (y % 100 != 0 || y % 400 == 0)
}

/// Length of a month in days; 0 outside months 1..=12.
pub open spec fn days_in_month(y: int, m: int) -> int {
    if m == 1 || m == 3 || m == 5 || m == 7 || m == 8 || m == 10 || m == 12 {
        31
    } else if m == 4 || m == 6 || m == 9 || m == 11 {
        30
    } else if m == 2 {
        if is_leap_year(y) {
            29
        } else {
            28
        }
    } else {
        0
    }
}

/// Days of year `y` that precede the first of month `m`.
pub open spec fn days_before_month(y: int, m: int) -> int
    decreases m,
{
    if m <= 1 {
        0
    } else {
        days_before_month(y, m - 1) + days_in_month(y, m - 1)
    }
}

/// Days from January 1 of year 1 to the given date (that day itself at 0).
pub open spec fn day_index(y: int, m: int, d: int) -> int {
    365 * (y - 1) + (y - 1) / 4 - (y - 1) / 100 + (y - 1) / 400 + days_before_month(y, m) + (d - 1)
}

/// Day of the week, Sunday = 0 .. Saturday = 6.
/// January 1 of year 1 was a Monday in the proleptic Gregorian calendar.
pub open spec fn day_of_week(y: int, m: int, d: int) -> int {
    (day_index(y, m, d) + 1) % 7
}

/// Whether the triple names a real calendar date (year 0 allowed, as a
/// plain extension of the same rules).
pub open spec fn valid_date(y: int, m: int, d: int) -> bool {
    0 <= y <= 9999 && 1 <= m <= 12 && 1 <= d <= days_in_month(y, m)
}

pub fn leap_year(y: i32) -> (r: bool)
    requires
        0 <= y,
    ensures
        r == is_leap_year(y as int),
{
    y % 4 == 0 && (y % 100 != 0 || y % 400 == 0)
}

pub fn month_days(y: i32, m: u32) -> (r: u32)
    requires
        0 <= y,
        1 <= m <= 12,
    ensures
        r == days_in_month(y as int, m as int),
{
    if m == 4 || m == 6 || m == 9 || m == 11 {
        30
    } else if m == 2 {
        if leap_year(y) {
            29
        } else {
            28
        }
    } else {
        31
    }
}

/// The number of the last day of the month, or `InvalidDate` when the
/// year or month is out of range.
pub fn last_day_in_month(year: i32, month: u32) -> (r: Result<u32, CalendarError>)
    ensures
        r is Ok <==> (1 <= year <= 9999 && 1 <= month <= 12),
        r is Ok ==> r->Ok_0 == days_in_month(year as int, month as int),
        r is Err ==> r->Err_0 is InvalidDate,
{
    if 1 <= year && year <= 9999 && 1 <= month && month <= 12 {
        Ok(month_days(year, month))
    } else {
        Err(CalendarError::InvalidDate)
    }
}

fn days_before(y: i32, m: u32) -> (r: u32)
    requires
        0 <= y,
        1 <= m <= 12,
    ensures
        r == days_before_month(y as int, m as int),
        r <= 366,
{
    let mut acc: u32 = 0;
    let mut mm: u32 = 1;
    while mm < m
        invariant
            0 <= y,
            1 <= mm <= m <= 12,
            acc == days_before_month(y as int, mm as int),
            acc <= 31 * (mm - 1),
        decreases m - mm,
    {
        acc = acc + month_days(y, mm);
        mm = mm + 1;
    }
    acc
}

/// Day of the week of a date, Sunday = 0.
pub fn week_day(y: i32, m: u32, d: u32) -> (r: u32)
    requires
        1 <= y <= 9999,
        1 <= m <= 12,
        1 <= d <= 31,
    ensures
        r == day_of_week(y as int, m as int, d as int),
        r <= 6,
{
    let yy: u64 = (y - 1) as u64;
    let before: u64 = days_before(y, m) as u64;
    let a: u64 = 365 * yy + yy / 4 + yy / 400 + before + (d - 1) as u64;
    let b: u64 = yy / 100;
    let idx: u64 = a - b;
    proof {
        assert(365 * yy >= yy / 100);
        assert(idx == day_index(y as int, m as int, d as int));
    }
    ((idx + 1) % 7) as u32
}

// ------------------------------------------------------------------
// Calendar dates

/// A (year, month, day) triple; the injected "today" of the formatter.
#[derive(Debug, Clone, Copy, PartialEq, Eq, Structural)]
pub struct CalendarDate {
    pub year: i32,
    pub month: u32,
    pub day: u32,
}

impl CalendarDate {
    /// Builds a date, rejecting triples that name no real day
    /// (for example February 29 outside a leap year).
    pub fn new(year: i32, month: u32, day: u32) -> (r: Result<CalendarDate, CalendarError>)
        ensures
            r is Ok <==> valid_date(year as int, month as int, day as int),
            r is Ok ==> r->Ok_0 == (CalendarDate { year, month, day }),
            r is Err ==> r->Err_0 is InvalidDate,
    {
        if 0 <= year && year <= 9999 && 1 <= month && month <= 12 && 1 <= day && day
            <= month_days(year, month) {
            Ok(CalendarDate { year, month, day })
        } else {
            Err(CalendarError::InvalidDate)
        }
    }

    /// The day-of-week this date falls on, Sunday = 0.
    pub fn week_day(&self) -> (r: u32)
        requires
            valid_date(self.year as int, self.month as int, self.day as int),
            self.year >= 1,
        ensures
            r == day_of_week(self.year as int, self.month as int, self.day as int),
    {
        week_day(self.year, self.month, self.day)
    }
}

// ------------------------------------------------------------------
// Flag parsing

/// Reads a decimal integer, with optional sign, from `s`.
pub fn parse_int(s: &str) -> (r: Result<i64, CalendarError>)
    ensures
        r is Ok <==> (int_form(s@) && i64::MIN <= int_val(s@) <= i64::MAX),
        r is Ok ==> r->Ok_0 == int_val(s@),
        r is Err ==> (r->Err_0 matches CalendarError::InvalidInteger(v) && v@ == s@),
{
    let n = s.unicode_len();
    if n == 0 {
        return Err(CalendarError::InvalidInteger(s.to_owned()));
    }
    let c0 = s.get_char(0);
    let (neg, start): (bool, usize) = if c0 == '-' {
        (true, 1)
    } else if c0 == '+' {
        (false, 1)
    } else {
        (false, 0)
    };
    proof {
        if start == 1 {
            assert(s@.skip(1) == s@.skip(start as int));
        } else {
            assert(s@.skip(0) =~= s@);
        }
    }
    match crate::text::digits_value(s, start) {
        None => Err(CalendarError::InvalidInteger(s.to_owned())),
        Some(mag) => {
            if neg {
                if mag <= 9223372036854775807 {
                    Ok(-(mag as i64))
                } else if mag == 9223372036854775808 {
                    Ok(i64::MIN)
                } else {
                    Err(CalendarError::InvalidInteger(s.to_owned()))
                }
            } else {
                if mag <= 9223372036854775807 {
                    Ok(mag as i64)
                } else {
                    Err(CalendarError::InvalidInteger(s.to_owned()))
                }
            }
        },
    }
}

/// Reads a year flag: an integer in 1..=9999. Rejected integers outside
/// that range are reported with `InvalidYear`, other text with
/// `InvalidInteger`.
pub fn parse_year(s: &str) -> (r: Result<i32, CalendarError>)
    ensures
        r is Ok <==> (int_form(s@) && 1 <= int_val(s@) <= 9999),
        r is Ok ==> r->Ok_0 == int_val(s@),
        !(int_form(s@) && i64::MIN <= int_val(s@) <= i64::MAX) ==> (r->Err_0 matches
            CalendarError::InvalidInteger(v) && v@ == s@),
        (int_form(s@) && i64::MIN <= int_val(s@) <= i64::MAX && !(1 <= int_val(s@) <= 9999)) ==> (
        r->Err_0 matches CalendarError::InvalidYear(v) && v@ == signed_dec(int_val(s@))),
{
    match parse_int(s) {
        Err(e) => Err(e),
        Ok(v) => {
            if 1 <= v && v <= 9999 {
                Ok(v as i32)
            } else {
                Err(CalendarError::InvalidYear(crate::text::signed_dec_string(v)))
            }
        },
    }
}

/// Lower-casing of one ASCII letter; other characters are unchanged.
pub open spec fn lower_char(c: char) -> char {
    if 'A' <= c && c <= 'Z' {
        (((c as u8) + 32) as u8) as char
    } else {
        c
    }
}

/// ASCII lower-casing of a character sequence.
pub open spec fn lower_ascii(s: Seq<char>) -> Seq<char> {
    s.map_values(|c: char| lower_char(c))
}

/// Whether `s` is a case-insensitive prefix of month `m`'s English name.
pub open spec fn month_prefix_matches(s: Seq<char>, m: int) -> bool {
    lower_ascii(s).is_prefix_of(lower_ascii(month_name_spec(m)))
}

/// How many of months `m..=12` the prefix `s` matches.
pub open spec fn month_match_count(s: Seq<char>, m: int) -> nat
    decreases 13 - m,
{
    if m > 12 || m < 1 {
        0
    } else {
        (if month_prefix_matches(s, m) {
            1nat
        } else {
            0nat
        }) + month_match_count(s, m + 1)
    }
}

/// Whether the month flag is taken as a number: integer text without a
/// minus sign whose value fits a `u32`.
pub open spec fn month_numeric(s: Seq<char>) -> bool {
    int_form(s) && s[0] != '-' && int_val(s) <= u32::MAX
}

fn to_lower(c: char) -> (r: char)
    ensures
        r == lower_char(c),
{
    let v = c as u32;
    if 65 <= v && v <= 90 {
        ((v + 32) as u8) as char
    } else {
        c
    }
}

fn is_prefix_ci(s: &str, name: &str) -> (r: bool)
    ensures
        r == lower_ascii(s@).is_prefix_of(lower_ascii(name@)),
{
    let n = s.unicode_len();
    let m = name.unicode_len();
    if n > m {
        return false;
    }
    let mut i: usize = 0;
    while i < n
        invariant
            i <= n,
            n == s@.len(),
            m == name@.len(),
            n <= m,
            forall|j: int| 0 <= j < i ==> lower_ascii(s@)[j] == lower_ascii(name@)[j],
        decreases n - i,
    {
        let a = to_lower(s.get_char(i));
        let b = to_lower(name.get_char(i));
        if a != b {
            proof {
                assert(lower_ascii(s@)[i as int] != lower_ascii(name@)[i as int]);
            }
            return false;
        }
        i = i + 1;
    }
    proof {
        assert(lower_ascii(s@).is_prefix_of(lower_ascii(name@)));
    }
    true
}

/// Reads a month flag: a number in 1..=12, or a case-insensitive prefix
/// of exactly one English month name. A number outside the range is an
/// `InvalidMonthNumber`; a prefix matching none or several months is an
/// `InvalidMonthName`.
pub fn parse_month(s: &str) -> (r: Result<u32, CalendarError>)
    ensures
        r is Ok <==> ((month_numeric(s@) && 1 <= int_val(s@) <= 12) || (!month_numeric(s@)
            && month_match_count(s@, 1) == 1)),
        r is Ok && month_numeric(s@) ==> r->Ok_0 == int_val(s@),
        r is Ok && !month_numeric(s@) ==> 1 <= r->Ok_0 <= 12 && month_prefix_matches(
            s@,
            r->Ok_0 as int,
        ),
        (month_numeric(s@) && !(1 <= int_val(s@) <= 12)) ==> (r->Err_0 matches
            CalendarError::InvalidMonthNumber(v) && v@ == signed_dec(int_val(s@))),
        (!month_numeric(s@) && month_match_count(s@, 1) != 1) ==> (r->Err_0 matches
            CalendarError::InvalidMonthName(v) && v@ == s@),
{
    let numeric: Option<i64> = match parse_int(s) {
        Ok(v) => {
            if s.unicode_len() > 0 && s.get_char(0) == '-' {
                None
            } else if v <= 4294967295 {
                Some(v)
            } else {
                None
            }
        },
        Err(_) => None,
    };
    match numeric {
        Some(v) => {
            proof {
                assert(month_numeric(s@));
            }
            if 1 <= v && v <= 12 {
                Ok(v as u32)
            } else {
                Err(CalendarError::InvalidMonthNumber(crate::text::signed_dec_string(v)))
            }
        },
        None => {
            proof {
                assert(!month_numeric(s@));
            }
            let mut count: u32 = 0;
            let mut found: u32 = 1;
            let mut mm: u32 = 1;
            while mm <= 12
                invariant
                    1 <= mm <= 13,
                    count + month_match_count(s@, mm as int) == month_match_count(s@, 1),
                    count < mm,
                    count >= 1 ==> (1 <= found < mm && month_prefix_matches(s@, found as int)),
                decreases 13 - mm,
            {
                if is_prefix_ci(s, month_name(mm)) {
                    count = count + 1;
                    found = mm;
                }
                mm = mm + 1;
            }
            if count == 1 {
                Ok(found)
            } else {
                Err(CalendarError::InvalidMonthName(s.to_owned()))
            }
        },
    }
}

/// The raw year and month flags, as handed in from the command line.
#[derive(Debug)]
pub struct Args {
    pub year: Option<String>,
    pub month: Option<String>,
}

/// A validated request: the year to display, and the single month to
/// display when one was asked for.
#[derive(Debug)]
pub struct Config {
    pub year: i32,
    pub month: Option<u32>,
}

/// Whether the year flag of `a` is accepted (an absent flag always is).
pub open spec fn year_flag_accepted(a: Args) -> bool {
    match a.year {
        Some(ys) => int_form(ys@) && 1 <= int_val(ys@) <= 9999,
        None => true,
    }
}

/// Whether the month flag of `a` is accepted (an absent flag always is).
pub open spec fn month_flag_accepted(a: Args) -> bool {
    match a.month {
        Some(ms) => (month_numeric(ms@) && 1 <= int_val(ms@) <= 12) || (!month_numeric(ms@)
            && month_match_count(ms@, 1) == 1),
        None => true,
    }
}

impl Args {
    /// Validates the raw flags into a request. An absent year falls back
    /// to `today_year`; an absent month asks for the whole year. A bad
    /// year is reported before the month is looked at.
    pub fn to_config(&self, today_year: i32) -> (r: Result<Config, CalendarError>)
        ensures
            r is Ok <==> year_flag_accepted(*self) && month_flag_accepted(*self),
            r is Ok ==> (match self.year {
                Some(ys) => r->Ok_0.year == int_val(ys@),
                None => r->Ok_0.year == today_year,
            }),
            r is Ok ==> (match self.month {
                Some(ms) => {
                    &&& r->Ok_0.month matches Some(m)
                    &&& (month_numeric(ms@) ==> m == int_val(ms@))
                    &&& (!month_numeric(ms@) ==> 1 <= m <= 12 && month_prefix_matches(
                        ms@,
                        m as int,
                    ))
                },
                None => r->Ok_0.month is None,
            }),
            r is Err && !year_flag_accepted(*self) ==> (self.year matches Some(ys) && {
                &&& !(int_form(ys@) && i64::MIN <= int_val(ys@) <= i64::MAX) ==> (r->Err_0 matches
                    CalendarError::InvalidInteger(v) && v@ == ys@)
                &&& (int_form(ys@) && i64::MIN <= int_val(ys@) <= i64::MAX && !(1 <= int_val(ys@)
                    <= 9999)) ==> (r->Err_0 matches CalendarError::InvalidYear(v) && v@
                    == signed_dec(int_val(ys@)))
            }),
            r is Err && year_flag_accepted(*self) ==> (self.month matches Some(ms) && {
                &&& (month_numeric(ms@) && !(1 <= int_val(ms@) <= 12)) ==> (r->Err_0 matches
                    CalendarError::InvalidMonthNumber(v) && v@ == signed_dec(int_val(ms@)))
                &&& (!month_numeric(ms@) && month_match_count(ms@, 1) != 1) ==> (r->Err_0 matches
                    CalendarError::InvalidMonthName(v) && v@ == ms@)
            }),
    {
        let year: i32 = match &self.year {
            None => today_year,
            Some(ys) => {
                match parse_year(ys.as_str()) {
                    Ok(y) => y,
                    Err(e) => {
                        return Err(e);
                    },
                }
            },
        };
        let month: Option<u32> = match &self.month {
            None => None,
            Some(ms) => {
                match parse_month(ms.as_str()) {
                    Ok(m) => Some(m),
                    Err(e) => {
                        return Err(e);
                    },
                }
            },
        };
        Ok(Config { year, month })
    }
}

// ------------------------------------------------------------------
// Month names

/// The full English name of month `m`, as a character sequence.
pub open spec fn month_name_spec(m: int) -> Seq<char> {
    if m == 1 {
        seq!['J', 'a', 'n', 'u', 'a', 'r', 'y']
    } else if m == 2 {
        seq!['F', 'e', 'b', 'r', 'u', 'a', 'r', 'y']
    } else if m == 3 {
        seq!['M', 'a', 'r', 'c', 'h']
    } else if m == 4 {
        seq!['A', 'p', 'r', 'i', 'l']
    } else if m == 5 {
        seq!['M', 'a', 'y']
    } else if m == 6 {
        seq!['J', 'u', 'n', 'e']
    } else if m == 7 {
        seq!['J', 'u', 'l', 'y']
    } else if m == 8 {
        seq!['A', 'u', 'g', 'u', 's', 't']
    } else if m == 9 {
        seq!['S', 'e', 'p', 't', 'e', 'm', 'b', 'e', 'r']
    } else if m == 10 {
        seq!['O', 'c', 't', 'o', 'b', 'e', 'r']
    } else if m == 11 {
        seq!['N', 'o', 'v', 'e', 'm', 'b', 'e', 'r']
    } else {
        seq!['D', 'e', 'c', 'e', 'm', 'b', 'e', 'r']
    }
}

/// The full English name of month `m`.
pub fn month_name(m: u32) -> (r: &'static str)
    requires
        1 <= m <= 12,
    ensures
        r@ == month_name_spec(m as int),
{
    if m == 1 {
        proof {
            reveal_strlit("January");
            assert("January"@ =~= month_name_spec(1));
        }
        "January"
    } else if m == 2 {
        proof {
            reveal_strlit("February");
            assert("February"@ =~= month_name_spec(2));
        }
        "February"
    } else if m == 3 {
        proof {
            reveal_strlit("March");
            assert("March"@ =~= month_name_spec(3));
        }
        "March"
    } else if m == 4 {
        proof {
            reveal_strlit("April");
            assert("April"@ =~= month_name_spec(4));
        }
        "April"
    } else if m == 5 {
        proof {
            reveal_strlit("May");
            assert("May"@ =~= month_name_spec(5));
        }
        "May"
    } else if m == 6 {
        proof {
            reveal_strlit("June");
            assert("June"@ =~= month_name_spec(6));
        }
        "June"
    } else if m == 7 {
        proof {
            reveal_strlit("July");
            assert("July"@ =~= month_name_spec(7));
        }
        "July"
    } else if m == 8 {
        proof {
            reveal_strlit("August");
            assert("August"@ =~= month_name_spec(8));
        }
        "August"
    } else if m == 9 {
        proof {
            reveal_strlit("September");
            assert("September"@ =~= month_name_spec(9));
        }
        "September"
    } else if m == 10 {
        proof {
            reveal_strlit("October");
            assert("October"@ =~= month_name_spec(10));
        }
        "October"
    } else if m == 11 {
        proof {
            reveal_strlit("November");
            assert("November"@ =~= month_name_spec(11));
        }
        "November"
    } else {
        proof {
            reveal_strlit("December");
            assert("December"@ =~= month_name_spec(12));
        }
        "December"
    }
}

// ------------------------------------------------------------------
// The month grid, as a mathematical object

/// Escape sequence that switches the terminal to reverse video.
pub open spec fn rev_prefix() -> Seq<char> {
    seq!['\u{1b}', '[', '7', 'm']
}

/// Escape sequence that resets terminal styling.
pub open spec fn rev_suffix() -> Seq<char> {
    seq!['\u{1b}', '[', '0', 'm']
}

/// A day number right-justified in two columns: `" N"` or `"NN"`.
pub open spec fn day_cell(d: nat) -> Seq<char> {
    if d < 10 {
        seq![' ', digit_char(d)]
    } else {
        dec_digits(d)
    }
}

/// A day cell, wrapped in reverse video when highlighted.
pub open spec fn styled_cell(d: nat, highlighted: bool) -> Seq<char> {
    if highlighted {
        rev_prefix() + day_cell(d) + rev_suffix()
    } else {
        day_cell(d)
    }
}

/// The day number of `today` when it lies in the displayed month, else 0
/// (no day cell carries the number 0, so 0 highlights nothing).
pub open spec fn highlight_day(y: int, m: int, today: CalendarDate) -> int {
    if today.year == y && today.month == m {
        today.day as int
    } else {
        0
    }
}

/// Grid slot `k` (0-based, row-major, 7 per row): a day cell plus its
/// separator space, or a blank three-column cell.
pub open spec fn grid_slot(y: int, m: int, today: CalendarDate, k: int) -> Seq<char> {
    let d = k + 1 - day_of_week(y, m, 1);
    if 1 <= d <= days_in_month(y, m) {
        styled_cell(d as nat, d == highlight_day(y, m, today)) + seq![' ']
    } else {
        seq![' ', ' ', ' ']
    }
}

/// The concatenation of `count` grid slots starting at slot `start`.
pub open spec fn grid_slots(y: int, m: int, today: CalendarDate, start: int, count: nat) -> Seq<
    char,
>
    decreases count,
{
    if count == 0 {
        Seq::empty()
    } else {
        grid_slot(y, m, today, start) + grid_slots(y, m, today, start + 1, (count - 1) as nat)
    }
}

/// Body line `r` (0-based): seven grid slots and one closing space.
pub open spec fn body_line(y: int, m: int, today: CalendarDate, r: int) -> Seq<char> {
    grid_slots(y, m, today, 7 * r, 7) + seq![' ']
}

/// The fixed weekday header, Sunday first, with two trailing spaces.
pub open spec fn week_header() -> Seq<char> {
    seq![
        'S',
        'u',
        ' ',
        'M',
        'o',
        ' ',
        'T',
        'u',
        ' ',
        'W',
        'e',
        ' ',
        'T',
        'h',
        ' ',
        'F',
        'r',
        ' ',
        'S',
        'a',
        ' ',
        ' ',
    ]
}

/// The title text: month name, then a space and the year when requested.
pub open spec fn title_text(y: int, m: int, print_year: bool) -> Seq<char> {
    if print_year {
        month_name_spec(m) + seq![' '] + dec_digits(y as nat)
    } else {
        month_name_spec(m)
    }
}

/// The title line: the title centered in 21 columns (the spare space of an
/// odd-length title going to the right), then one closing space.
pub open spec fn title_line(y: int, m: int, print_year: bool) -> Seq<char> {
    let t = title_text(y, m, print_year);
    let l = t.len() as int;
    repeat_char(' ', (10 - (l + 1) / 2) as nat) + t + repeat_char(' ', (12 + (l + 1) / 2 - l) as nat)
}

/// Line `i` of the 8-line month grid.
pub open spec fn grid_line(y: int, m: int, print_year: bool, today: CalendarDate, i: int) -> Seq<
    char,
> {
    if i == 0 {
        title_line(y, m, print_year)
    } else if i == 1 {
        week_header()
    } else {
        body_line(y, m, today, i - 2)
    }
}

// ------------------------------------------------------------------
// Rendering

/// Relies on ansi_term: `Style::new().reverse()` is the reverse-video-only
/// style, and painting text with it writes `ESC[7m`, the text, `ESC[0m`.
#[verifier::external_body]
fn reverse_video(s: &str) -> (r: String)
    ensures
        r@ == rev_prefix() + s@ + rev_suffix(),
{
    ansi_term::Style::new().reverse().paint(s).to_string()
}

/// One day's two-column cell, in reverse video when it is `today`.
pub fn print_day(today: &CalendarDate, year: i32, month: u32, day: u32) -> (r: String)
    requires
        1 <= day <= 31,
    ensures
        r@ == styled_cell(
            day as nat,
            day as int == highlight_day(year as int, month as int, *today),
        ),
{
    let mut cell = String::new();
    if day < 10 {
        push_char(&mut cell, ' ');
        push_char(&mut cell, ((day + 48) as u8) as char);
        proof {
            assert(cell@ =~= day_cell(day as nat));
        }
    } else {
        push_dec(&mut cell, day as u64);
        proof {
            assert(cell@ =~= day_cell(day as nat));
        }
    }
    if today.year == year && today.month == month && today.day == day {
        reverse_video(cell.as_str())
    } else {
        cell
    }
}

proof fn lemma_grid_slots_snoc(y: int, m: int, today: CalendarDate, start: int, count: nat)
    ensures
        grid_slots(y, m, today, start, count + 1) == grid_slots(y, m, today, start, count)
            + grid_slot(y, m, today, start + count),
    decreases count,
{
    if count == 0 {
        assert(grid_slots(y, m, today, start + 1, 0) == Seq::<char>::empty());
        assert(grid_slots(y, m, today, start, 1) == grid_slot(y, m, today, start) + grid_slots(
            y,
            m,
            today,
            start + 1,
            0,
        ));
        assert(grid_slots(y, m, today, start, 1) =~= grid_slot(y, m, today, start));
        assert(grid_slots(y, m, today, start, 0) + grid_slot(y, m, today, start) =~= grid_slot(
            y,
            m,
            today,
            start,
        ));
    } else {
        lemma_grid_slots_snoc(y, m, today, start + 1, (count - 1) as nat);
        assert(grid_slots(y, m, today, start, count + 1) =~= grid_slots(y, m, today, start, count)
            + grid_slot(y, m, today, start + count));
    }
}

/// The 8-line grid for one month: title, weekday header, six week rows.
pub fn format_month(year: i32, month: u32, print_year: bool, today: &CalendarDate) -> (r: Vec<
    String,
>)
    requires
        1 <= year <= 9999,
        1 <= month <= 12,
    ensures
        r@.len() == 8,
        forall|i: int|
            0 <= i < 8 ==> r@[i]@ == grid_line(year as int, month as int, print_year, *today, i),
{
    let mut lines: Vec<String> = Vec::new();

    // Title line.
    let name = month_name(month);
    let mut title = String::from_str(name);
    if print_year {
        push_char(&mut title, ' ');
        push_dec(&mut title, year as u64);
        proof {
            assert(title@ =~= title_text(year as int, month as int, true));
        }
    }
    let l = title.as_str().unicode_len();
    proof {
        lemma_dec_digits_len(year as nat);
        assert(title@.len() <= 14);
    }
    let left: usize = 10 - (l + 1) / 2;
    let right: usize = 12 + (l + 1) / 2 - l;
    let mut line0 = String::new();
    push_repeat(&mut line0, ' ', left);
    line0.append(title.as_str());
    push_repeat(&mut line0, ' ', right);
    proof {
        assert(line0@ =~= title_line(year as int, month as int, print_year));
    }
    lines.push(line0);

    // Weekday header.
    let line1 = String::from_str("Su Mo Tu We Th Fr Sa  ");
    proof {
        reveal_strlit("Su Mo Tu We Th Fr Sa  ");
        assert(line1@ =~= week_header());
    }
    lines.push(line1);

    // Six body lines.
    let last = month_days(year, month);
    let offset = week_day(year, month, 1);
    let mut row: usize = 0;
    while row < 6
        invariant
            1 <= year <= 9999,
            1 <= month <= 12,
            row <= 6,
            last == days_in_month(year as int, month as int),
            offset == day_of_week(year as int, month as int, 1),
            offset <= 6,
            lines@.len() == 2 + row,
            forall|i: int|
                0 <= i < 2 + row ==> lines@[i]@ == grid_line(
                    year as int,
                    month as int,
                    print_year,
                    *today,
                    i,
                ),
        decreases 6 - row,
    {
        let mut line = String::new();
        let mut w: usize = 0;
        while w < 7
            invariant
                1 <= year <= 9999,
                1 <= month <= 12,
                row < 6,
                w <= 7,
                last == days_in_month(year as int, month as int),
                offset == day_of_week(year as int, month as int, 1),
                offset <= 6,
                line@ == grid_slots(year as int, month as int, *today, 7 * row as int, w as nat),
            decreases 7 - w,
        {
            let k = row * 7 + w;
            proof {
                lemma_grid_slots_snoc(
                    year as int,
                    month as int,
                    *today,
                    7 * row as int,
                    w as nat,
                );
            }
            if k + 1 > offset as usize && k + 1 - offset as usize <= last as usize {
                let d = (k + 1 - offset as usize) as u32;
                let hl = today.year == year && today.month == month && today.day == d;
                let cell = print_day(today, year, month, d);
                line.append(cell.as_str());
                push_char(&mut line, ' ');
                proof {
                    assert(grid_slot(year as int, month as int, *today, k as int) =~= styled_cell(
                        d as nat,
                        d as int == highlight_day(year as int, month as int, *today),
                    ) + seq![' ']);
                }
            } else {
                push_char(&mut line, ' ');
                push_char(&mut line, ' ');
                push_char(&mut line, ' ');
                proof {
                    assert(grid_slot(year as int, month as int, *today, k as int) =~= seq![
                        ' ',
                        ' ',
                        ' ',
                    ]);
                }
            }
            proof {
                assert(line@ =~= grid_slots(
                    year as int,
                    month as int,
                    *today,
                    7 * row as int,
                    (w + 1) as nat,
                ));
            }
            w = w + 1;
        }
        push_char(&mut line, ' ');
        proof {
            assert(line@ =~= body_line(year as int, month as int, *today, row as int));
        }
        lines.push(line);
        row = row + 1;
    }
    lines
}

// ------------------------------------------------------------------
// The year view

/// The year-view header: the year's digits starting at column 28,
/// padded to 66 columns.
pub open spec fn year_header(y: int) -> Seq<char> {
    repeat_char(' ', 28) + dec_digits(y as nat) + repeat_char(
        ' ',
        (66 - 28 - dec_digits(y as nat).len()) as nat,
    )
}

/// Line `i` of a three-month row: the corresponding grid lines of the
/// three months side by side.
pub open spec fn triple_line(y: int, m1: int, today: CalendarDate, i: int) -> Seq<char> {
    grid_line(y, m1, false, today, i) + grid_line(y, m1 + 1, false, today, i) + grid_line(
        y,
        m1 + 2,
        false,
        today,
        i,
    )
}

/// The whole-year view: a 66-column header, then four rows of three
/// months side by side, each row followed by one empty separator line.
pub fn format_year(year: i32, today: &CalendarDate) -> (r: Vec<String>)
    requires
        1 <= year <= 9999,
    ensures
        r@.len() == 37,
        r@[0]@ == year_header(year as int),
        forall|b: int, i: int|
            0 <= b < 4 && 0 <= i < 8 ==> #[trigger] r@[1 + b * 9 + i]@ == triple_line(
                year as int,
                3 * b + 1,
                *today,
                i,
            ),
        forall|b: int| 0 <= b < 4 ==> #[trigger] r@[9 + b * 9]@ == Seq::<char>::empty(),
{
    let mut lines: Vec<String> = Vec::new();

    let digits = dec_string(year as u64);
    let dl = digits.as_str().unicode_len();
    proof {
        lemma_dec_digits_len(year as nat);
    }
    let mut header = String::new();
    push_repeat(&mut header, ' ', 28);
    header.append(digits.as_str());
    push_repeat(&mut header, ' ', 66 - 28 - dl);
    proof {
        assert(header@ =~= year_header(year as int));
    }
    lines.push(header);

    let mut b: usize = 0;
    while b < 4
        invariant
            1 <= year <= 9999,
            b <= 4,
            lines@.len() == 1 + 9 * b,
            lines@[0]@ == year_header(year as int),
            forall|bb: int, i: int|
                0 <= bb < b && 0 <= i < 8 ==> #[trigger] lines@[1 + bb * 9 + i]@ == triple_line(
                    year as int,
                    3 * bb + 1,
                    *today,
                    i,
                ),
            forall|bb: int| 0 <= bb < b ==> #[trigger] lines@[9 + bb * 9]@ == Seq::<char>::empty(),
        decreases 4 - b,
    {
        let m1 = (3 * b + 1) as u32;
        let g1 = format_month(year, m1, false, today);
        let g2 = format_month(year, m1 + 1, false, today);
        let g3 = format_month(year, m1 + 2, false, today);
        let mut i: usize = 0;
        while i < 8
            invariant
                1 <= year <= 9999,
                b < 4,
                i <= 8,
                m1 == 3 * b + 1,
                g1@.len() == 8,
                g2@.len() == 8,
                g3@.len() == 8,
                forall|j: int|
                    0 <= j < 8 ==> g1@[j]@ == grid_line(
                        year as int,
                        m1 as int,
                        false,
                        *today,
                        j,
                    ),
                forall|j: int|
                    0 <= j < 8 ==> g2@[j]@ == grid_line(
                        year as int,
                        m1 as int + 1,
                        false,
                        *today,
                        j,
                    ),
                forall|j: int|
                    0 <= j < 8 ==> g3@[j]@ == grid_line(
                        year as int,
                        m1 as int + 2,
                        false,
                        *today,
                        j,
                    ),
                lines@.len() == 1 + 9 * b + i,
                lines@[0]@ == year_header(year as int),
                forall|bb: int, j: int|
                    0 <= bb < b && 0 <= j < 8 ==> #[trigger] lines@[1 + bb * 9 + j]@ == triple_line(
                        year as int,
                        3 * bb + 1,
                        *today,
                        j,
                    ),
                forall|bb: int| 0 <= bb < b ==> #[trigger] lines@[9 + bb * 9]@ == Seq::<char>::empty(),
                forall|j: int|
                    0 <= j < i ==> #[trigger] lines@[1 + b * 9 + j]@ == triple_line(
                        year as int,
                        3 * b as int + 1,
                        *today,
                        j,
                    ),
            decreases 8 - i,
        {
            let mut line = (&g1[i]).clone();
            line.append((&g2[i]).as_str());
            line.append((&g3[i]).as_str());
            proof {
                assert(line@ == triple_line(year as int, 3 * b as int + 1, *today, i as int));
            }
            lines.push(line);
            i = i + 1;
        }
        lines.push(String::new());
        b = b + 1;
    }
    lines
}

// ------------------------------------------------------------------
// Shape and highlighting laws

proof fn lemma_concat_contains(a: Seq<char>, b: Seq<char>, c: char)
    ensures
        (a + b).contains(c) <==> (a.contains(c) || b.contains(c)),
{
    if a.contains(c) {
        let i = choose|i: int| 0 <= i < a.len() && a[i] == c;
        assert((a + b)[i] == c);
    }
    if b.contains(c) {
        let i = choose|i: int| 0 <= i < b.len() && b[i] == c;
        assert((a + b)[a.len() + i] == c);
    }
    if (a + b).contains(c) {
        let i = choose|i: int| 0 <= i < (a + b).len() && (a + b)[i] == c;
        if i < a.len() {
            assert(a[i] == c);
        } else {
            assert(b[i - a.len()] == c);
        }
    }
}

proof fn lemma_digit_char_value(d: nat)
    requires
        d < 10,
    ensures
        crate::text::is_digit(digit_char(d)),
        digit_char(d) != '\u{1b}',
{
    assert(digit_char(d) as u32 == 48 + d);
}

proof fn lemma_dec_digits_are_digits(n: nat)
    ensures
        forall|j: int|
            0 <= j < dec_digits(n).len() ==> crate::text::is_digit(#[trigger] dec_digits(n)[j]),
    decreases n,
{
    lemma_digit_char_value(n % 10);
    if n < 10 {
        lemma_digit_char_value(n);
    } else {
        lemma_dec_digits_are_digits(n / 10);
        assert forall|j: int| 0 <= j < dec_digits(n).len() implies crate::text::is_digit(
            #[trigger] dec_digits(n)[j],
        ) by {
            if j < dec_digits(n).len() - 1 {
                assert(dec_digits(n)[j] == dec_digits(n / 10)[j]);
            } else {
                assert(dec_digits(n)[j] == digit_char(n % 10));
            }
        }
    }
}

proof fn lemma_repeat_char_elems(c: char, n: nat)
    ensures
        forall|j: int| 0 <= j < repeat_char(c, n).len() ==> #[trigger] repeat_char(c, n)[j] == c,
    decreases n,
{
    if n > 0 {
        lemma_repeat_char_elems(c, (n - 1) as nat);
        assert forall|j: int| 0 <= j < repeat_char(c, n).len() implies #[trigger] repeat_char(
            c,
            n,
        )[j] == c by {
            if j < repeat_char(c, n).len() - 1 {
                assert(repeat_char(c, n)[j] == repeat_char(c, (n - 1) as nat)[j]);
            } else {
                assert(repeat_char(c, n)[j] == c);
            }
        }
    }
}

proof fn lemma_day_cell_no_esc(d: nat)
    requires
        1 <= d <= 31,
    ensures
        !day_cell(d).contains('\u{1b}'),
{
    lemma_dec_digits_are_digits(d);
    assert(forall|j: int| 0 <= j < day_cell(d).len() ==> #[trigger] day_cell(d)[j] != '\u{1b}');
}

proof fn lemma_slot_esc(y: int, m: int, today: CalendarDate, k: int)
    requires
        1 <= m <= 12,
        days_in_month(y, m) <= 31,
    ensures
        grid_slot(y, m, today, k).contains('\u{1b}') <==> {
            let d = k + 1 - day_of_week(y, m, 1);
            1 <= d <= days_in_month(y, m) && d == highlight_day(y, m, today)
        },
{
    let d = k + 1 - day_of_week(y, m, 1);
    if 1 <= d <= days_in_month(y, m) {
        let hl = (d == highlight_day(y, m, today));
        lemma_day_cell_no_esc(d as nat);
        lemma_concat_contains(styled_cell(d as nat, hl), seq![' '], '\u{1b}');
        assert(!seq![' '].contains('\u{1b}'));
        if hl {
            assert(styled_cell(d as nat, hl)[0] == '\u{1b}');
            assert(styled_cell(d as nat, hl).contains('\u{1b}'));
        } else {
            assert(!styled_cell(d as nat, hl).contains('\u{1b}'));
        }
    } else {
        assert(!grid_slot(y, m, today, k).contains('\u{1b}'));
    }
}

proof fn lemma_slots_esc(y: int, m: int, today: CalendarDate, start: int, count: nat)
    requires
        1 <= m <= 12,
        days_in_month(y, m) <= 31,
    ensures
        grid_slots(y, m, today, start, count).contains('\u{1b}') <==> exists|k: int|
            start <= k < start + count && (#[trigger] grid_slot(y, m, today, k)).contains('\u{1b}'),
    decreases count,
{
    if count == 0 {
    } else {
        lemma_slots_esc(y, m, today, start + 1, (count - 1) as nat);
        lemma_concat_contains(
            grid_slot(y, m, today, start),
            grid_slots(y, m, today, start + 1, (count - 1) as nat),
            '\u{1b}',
        );
    }
}

/// Whether `today`'s highlighted slot lies among slots `start` to
/// `start + count`.
pub open spec fn highlight_in_slots(
    y: int,
    m: int,
    today: CalendarDate,
    start: int,
    count: nat,
) -> bool {
    let hl = highlight_day(y, m, today);
    1 <= hl <= days_in_month(y, m) && start <= day_of_week(y, m, 1) + hl - 1 < start + count
}

proof fn lemma_slots_len(y: int, m: int, today: CalendarDate, start: int, count: nat)
    requires
        1 <= m <= 12,
        days_in_month(y, m) <= 31,
    ensures
        grid_slots(y, m, today, start, count).len() == 3 * count + (if highlight_in_slots(
            y,
            m,
            today,
            start,
            count,
        ) {
            8int
        } else {
            0int
        }),
    decreases count,
{
    if count > 0 {
        lemma_slots_len(y, m, today, start + 1, (count - 1) as nat);
        let offset = day_of_week(y, m, 1);
        let hl = highlight_day(y, m, today);
        let d = start + 1 - offset;
        if 1 <= d <= days_in_month(y, m) {
            lemma_dec_digits_len(d as nat);
            assert(day_cell(d as nat).len() == 2);
            // The head slot is the highlighted one exactly when it shows
            // today's day, that is when start == offset + hl - 1.
            if d == hl {
                assert(styled_cell(d as nat, true).len() == 10);
                assert(!highlight_in_slots(y, m, today, start + 1, (count - 1) as nat));
            } else {
                assert(styled_cell(d as nat, false).len() == 2);
            }
        }
    }
}

/// The month grid has a fixed shape: all 8 lines are exactly 22
/// characters wide, except that the body row holding a highlighted
/// `today` is widened by exactly the 8 invisible characters of the two
/// escape sequences wrapping its cell — stripped of those, every line
/// is 22 characters for every `today`.
pub proof fn lemma_month_grid_shape(y: int, m: int, print_year: bool, today: CalendarDate)
    requires
        1 <= y <= 9999,
        1 <= m <= 12,
    ensures
        forall|i: int|
            0 <= i < 8 ==> (#[trigger] grid_line(y, m, print_year, today, i)).len() == (if (
            today.year == y && today.month == m && 1 <= today.day <= days_in_month(y, m) && i == 2
                + (day_of_week(y, m, 1) + today.day - 1) / 7) {
                30int
            } else {
                22int
            }),
{
    // Title line.
    let t = title_text(y, m, print_year);
    let l = t.len() as int;
    lemma_dec_digits_len(y as nat);
    assert(3 <= month_name_spec(m).len() <= 9);
    assert(3 <= l <= 14);
    lemma_repeat_char_len(' ', (10 - (l + 1) / 2) as nat);
    lemma_repeat_char_len(' ', (12 + (l + 1) / 2 - l) as nat);
    assert(title_line(y, m, print_year).len() == 22);
    // Week header is a 22-element sequence by construction.
    assert(week_header().len() == 22);
    // Body lines: seven three-column slots and a closing space, plus the
    // 8 escape characters in the row that holds the highlighted slot.
    let offset = day_of_week(y, m, 1);
    assert forall|r: int| 0 <= r < 6 implies #[trigger] body_line(y, m, today, r).len() == (
    if highlight_in_slots(y, m, today, 7 * r, 7) {
        30int
    } else {
        22int
    }) by {
        lemma_slots_len(y, m, today, 7 * r, 7);
    }
    assert forall|r: int| 0 <= r < 6 implies (#[trigger] highlight_in_slots(y, m, today, 7 * r, 7)
        == (today.year == y && today.month == m && 1 <= today.day <= days_in_month(y, m) && r == (
    offset + today.day - 1) / 7)) by {
        if today.year == y && today.month == m && 1 <= today.day <= days_in_month(y, m) {
            let k = offset + today.day - 1;
            assert(7 * r <= k < 7 * r + 7 <==> r == k / 7);
        }
    }
}

/// The only cell wrapped in the reverse-video escape is the one showing
/// `today`'s day, and only when `today` falls inside the displayed month;
/// otherwise no line of the grid carries the escape character. The
/// highlighted line, when there is one, is the body row that holds
/// `today`'s day.
pub proof fn lemma_highlight_unique(y: int, m: int, print_year: bool, today: CalendarDate)
    requires
        1 <= y <= 9999,
        1 <= m <= 12,
    ensures
        forall|i: int|
            0 <= i < 8 ==> ((#[trigger] grid_line(y, m, print_year, today, i)).contains('\u{1b}')
                <==> (today.year == y && today.month == m && 1 <= today.day <= days_in_month(y, m)
                && i == 2 + (day_of_week(y, m, 1) + today.day - 1) / 7)),
        forall|k: int|
            0 <= k < 42 ==> ((#[trigger] grid_slot(y, m, today, k)).contains('\u{1b}') <==> (
            today.year == y && today.month == m && 1 <= today.day <= days_in_month(y, m) && k
                == day_of_week(y, m, 1) + today.day - 1)),
{
    let offset = day_of_week(y, m, 1);
    let last = days_in_month(y, m);
    let hl = highlight_day(y, m, today);

    assert forall|k: int| 0 <= k < 42 implies ((#[trigger] grid_slot(y, m, today, k)).contains(
        '\u{1b}',
    ) <==> (today.year == y && today.month == m && 1 <= today.day <= last && k == offset
        + today.day - 1)) by {
        lemma_slot_esc(y, m, today, k);
    }

    // Neither the title nor the weekday header carries the escape.
    let t = title_text(y, m, print_year);
    lemma_dec_digits_are_digits(y as nat);
    assert(forall|j: int| 0 <= j < month_name_spec(m).len() ==> #[trigger] month_name_spec(m)[j]
        != '\u{1b}');
    assert(forall|j: int| 0 <= j < t.len() ==> #[trigger] t[j] != '\u{1b}');
    assert(!t.contains('\u{1b}'));
    let l = t.len() as int;
    let rep1 = repeat_char(' ', (10 - (l + 1) / 2) as nat);
    let rep2 = repeat_char(' ', (12 + (l + 1) / 2 - l) as nat);
    lemma_repeat_char_elems(' ', (10 - (l + 1) / 2) as nat);
    lemma_repeat_char_elems(' ', (12 + (l + 1) / 2 - l) as nat);
    assert(!rep1.contains('\u{1b}'));
    assert(!rep2.contains('\u{1b}'));
    lemma_concat_contains(rep1, t, '\u{1b}');
    lemma_concat_contains(rep1 + t, rep2, '\u{1b}');
    assert(!title_line(y, m, print_year).contains('\u{1b}'));
    assert(forall|j: int| 0 <= j < week_header().len() ==> #[trigger] week_header()[j] != '\u{1b}');
    assert(!week_header().contains('\u{1b}'));

    // A body row carries the escape exactly when it holds today's slot.
    assert forall|r: int| 0 <= r < 6 implies (#[trigger] body_line(y, m, today, r).contains(
        '\u{1b}',
    ) <==> (today.year == y && today.month == m && 1 <= today.day <= last && r == (offset
        + today.day - 1) / 7)) by {
        lemma_concat_contains(grid_slots(y, m, today, 7 * r, 7), seq![' '], '\u{1b}');
        assert(!seq![' '].contains('\u{1b}'));
        lemma_slots_esc(y, m, today, 7 * r, 7);
        assert forall|k: int| 7 * r <= k < 7 * r + 7 implies ((#[trigger] grid_slot(
            y,
            m,
            today,
            k,
        )).contains('\u{1b}') <==> (1 <= k + 1 - offset <= last && k + 1 - offset == hl)) by {
            lemma_slot_esc(y, m, today, k);
        }
        if today.year == y && today.month == m && 1 <= today.day <= last {
            let kk = offset + today.day - 1;
            if r == kk / 7 {
                assert(7 * r <= kk < 7 * r + 7);
                assert(grid_slot(y, m, today, kk).contains('\u{1b}'));
            } else {
                assert forall|k: int|
                    7 * r <= k < 7 * r + 7 && (1 <= k + 1 - offset <= last && k + 1 - offset
                        == hl) implies !(#[trigger] grid_slot(y, m, today, k)).contains(
                    '\u{1b}',
                ) by {
                    assert(k == kk);
                    assert(!(7 * r <= kk < 7 * r + 7));
                }
            }
        }
    }
}

proof fn lemma_day_index_shift(y: int, m: int, d: int)
    ensures
        day_index(y, m, d) == day_index(y, m, 1) + (d - 1),
{
}

/// Days are laid out in step with the week: the slot showing day `d`
/// sits at grid position `day_of_week(y, m, 1) + d - 1`, whose column
/// `(that position) % 7` is exactly `d`'s own day of the week. So the
/// last content column of every row (column 6) holds Saturdays and
/// nothing else, which is why rows break exactly after Saturday cells.
pub proof fn lemma_weekday_alignment(y: int, m: int, today: CalendarDate)
    requires
        1 <= y <= 9999,
        1 <= m <= 12,
    ensures
        forall|d: int|
            1 <= d <= days_in_month(y, m) ==> (day_of_week(y, m, 1) + d - 1) % 7 == #[trigger]
            day_of_week(y, m, d),
        forall|d: int|
            1 <= d <= days_in_month(y, m) ==> #[trigger] grid_slot(
                y,
                m,
                today,
                day_of_week(y, m, 1) + d - 1,
            ) == styled_cell(d as nat, d == highlight_day(y, m, today)) + seq![' '],
{
    assert forall|d: int| 1 <= d <= days_in_month(y, m) implies (day_of_week(y, m, 1) + d - 1) % 7
        == #[trigger] day_of_week(y, m, d) by {
        lemma_day_index_shift(y, m, d);
        let x = day_index(y, m, 1) + 1;
        vstd::arithmetic::div_mod::lemma_fundamental_div_mod(x, 7);
        vstd::arithmetic::div_mod::lemma_mod_multiples_vanish(x / 7, x % 7 + (d - 1), 7);
        assert(x % 7 + (d - 1) == x + (d - 1) - 7 * (x / 7));
        assert((x % 7 + (d - 1)) % 7 == (x + (d - 1)) % 7);
    }
}

/// The year view's fixed shape: 37 lines; a 66-column header; when
/// `today` lies in another year, every month-row line is 66 columns
/// (three 22-column grids side by side) and every separator is empty.
pub proof fn lemma_year_view_shape(y: int, today: CalendarDate)
    requires
        1 <= y <= 9999,
        today.year != y,
    ensures
        year_header(y).len() == 66,
        forall|b: int, i: int|
            0 <= b < 4 && 0 <= i < 8 ==> (#[trigger] triple_line(y, 3 * b + 1, today, i)).len()
                == 66,
{
    lemma_dec_digits_len(y as nat);
    lemma_repeat_char_len(' ', 28);
    lemma_repeat_char_len(' ', (66 - 28 - dec_digits(y as nat).len()) as nat);
    assert forall|b: int, i: int| 0 <= b < 4 && 0 <= i < 8 implies (#[trigger] triple_line(
        y,
        3 * b + 1,
        today,
        i,
    )).len() == 66 by {
        lemma_month_grid_shape(y, 3 * b + 1, false, today);
        lemma_month_grid_shape(y, 3 * b + 2, false, today);
        lemma_month_grid_shape(y, 3 * b + 3, false, today);
    }
}

} // verus!
