//! Calendar dates and their wire form `YYYY-MM-DD`.
//!
//! Seasons carry a start and an end date, sent and cached as ten-character
//! strings. The date is held as plain year, month and day with the
//! Gregorian validity invariant; [`format_date`] and [`parse_date`] are the
//! verified codec between the two forms, pinned to the character-level
//! specification [`date_chars`].

use vstd::prelude::*;

verus! {

/// A calendar date: year, month and day of month.
#[derive(Clone, Copy, Debug, PartialEq, Eq, Structural)]
pub struct Date {
    pub year: u16,
    pub month: u8,
    pub day: u8,
}

/// Leap years: divisible by four, except centuries off the four-century
/// cycle.
pub open spec fn spec_is_leap_year(y: int) -> bool {
    y % 4 == 0 && (y % 100 != 0 || y % 400 == 0)
}

/// Days in a month of a given year.
pub open spec fn spec_days_in_month(y: int, m: int) -> int {
    if m == 2 {
        if spec_is_leap_year(y) {
            29
        } else {
            28
        }
    } else if m == 4 || m == 6 || m == 9 || m == 11 {
        30
    } else {
        31
    }
}

impl Date {
    /// A valid Gregorian date whose year fits four digits.
    pub open spec fn wf(self) -> bool {
        &&& self.year <= 9999
        &&& 1 <= self.month <= 12
        &&& 1 <= self.day <= spec_days_in_month(self.year as int, self.month as int)
    }
}

/// The character for one decimal digit.
pub open spec fn digit_char(d: int) -> char {
    if d == 0 {
        '0'
    } else if d == 1 {
        '1'
    } else if d == 2 {
        '2'
    } else if d == 3 {
        '3'
    } else if d == 4 {
        '4'
    } else if d == 5 {
        '5'
    } else if d == 6 {
        '6'
    } else if d == 7 {
        '7'
    } else if d == 8 {
        '8'
    } else {
        '9'
    }
}

/// The decimal value of a digit character, `-1` for any other character.
pub open spec fn digit_val(c: char) -> int {
    if c == '0' {
        0
    } else if c == '1' {
        1
    } else if c == '2' {
        2
    } else if c == '3' {
        3
    } else if c == '4' {
        4
    } else if c == '5' {
        5
    } else if c == '6' {
        6
    } else if c == '7' {
        7
    } else if c == '8' {
        8
    } else if c == '9' {
        9
    } else {
        -1
    }
}

/// Whether a character is a decimal digit.
pub open spec fn is_digit(c: char) -> bool {
    digit_val(c) >= 0
}

/// The ten characters `YYYY-MM-DD` of a date.
pub open spec fn date_chars(d: Date) -> Seq<char> {
    seq![
        digit_char(d.year as int / 1000),
        digit_char((d.year as int / 100) % 10),
        digit_char((d.year as int / 10) % 10),
        digit_char(d.year as int % 10),
        '-',
        digit_char(d.month as int / 10),
        digit_char(d.month as int % 10),
        '-',
        digit_char(d.day as int / 10),
        digit_char(d.day as int % 10),
    ]
}

/// The strings that spell a valid date: ten characters, digits in the
/// date positions, dashes between, naming a valid Gregorian date.
pub open spec fn spec_valid_date_chars(s: Seq<char>) -> bool {
    &&& s.len() == 10
    &&& s[4] == '-'
    &&& s[7] == '-'
    &&& is_digit(s[0]) && is_digit(s[1]) && is_digit(s[2]) && is_digit(s[3])
    &&& is_digit(s[5]) && is_digit(s[6]) && is_digit(s[8]) && is_digit(s[9])
    &&& {
        let y = 1000 * digit_val(s[0]) + 100 * digit_val(s[1]) + 10 * digit_val(s[2]) + digit_val(
            s[3],
        );
        let m = 10 * digit_val(s[5]) + digit_val(s[6]);
        let dd = 10 * digit_val(s[8]) + digit_val(s[9]);
        1 <= m <= 12 && 1 <= dd <= spec_days_in_month(y, m)
    }
}

/// The one-character string for a decimal digit.
fn digit_str(d: u8) -> (r: &'static str)
    requires
        d <= 9,
    ensures
        r@ == seq![digit_char(d as int)],
{
    proof {
        reveal_strlit("0");
        reveal_strlit("1");
        reveal_strlit("2");
        reveal_strlit("3");
        reveal_strlit("4");
        reveal_strlit("5");
        reveal_strlit("6");
        reveal_strlit("7");
        reveal_strlit("8");
        reveal_strlit("9");
    }
    let r: &'static str = match d {
        0 => "0",
        1 => "1",
        2 => "2",
        3 => "3",
        4 => "4",
        5 => "5",
        6 => "6",
        7 => "7",
        8 => "8",
        _ => "9",
    };
    proof {
        assert(r@ =~= seq![digit_char(d as int)]);
    }
    r
}

/// The decimal value of a digit character.
fn digit_of(c: char) -> (r: Option<u8>)
    ensures
        r == if is_digit(c) {
            Option::Some(digit_val(c) as u8)
        } else {
            Option::None::<u8>
        },
{
    match c {
        '0' => Option::Some(0),
        '1' => Option::Some(1),
        '2' => Option::Some(2),
        '3' => Option::Some(3),
        '4' => Option::Some(4),
        '5' => Option::Some(5),
        '6' => Option::Some(6),
        '7' => Option::Some(7),
        '8' => Option::Some(8),
        '9' => Option::Some(9),
        _ => Option::None,
    }
}

/// Days in a month, as [`spec_days_in_month`].
pub fn days_in_month(year: u16, month: u8) -> (r: u8)
    requires
        1 <= month <= 12,
    ensures
        r as int == spec_days_in_month(year as int, month as int),
{
    if month == 2 {
        if year % 4 == 0 && (year % 100 != 0 || year % 400 == 0) {
            29
        } else {
            28
        }
    } else if month == 4 || month == 6 || month == 9 || month == 11 {
        30
    } else {
        31
    }
}

/// Spell a date as `YYYY-MM-DD`, the form it is sent and cached in.
pub fn format_date(d: &Date) -> (r: String)
    requires
        d.wf(),
    ensures
        r@ == date_chars(*d),
{
    proof {
        reveal_strlit("-");
    }
    let mut s = String::new();
    s.append(digit_str((d.year / 1000) as u8));
    s.append(digit_str(((d.year / 100) % 10) as u8));
    s.append(digit_str(((d.year / 10) % 10) as u8));
    s.append(digit_str((d.year % 10) as u8));
    s.append("-");
    s.append(digit_str(d.month / 10));
    s.append(digit_str(d.month % 10));
    s.append("-");
    s.append(digit_str(d.day / 10));
    s.append(digit_str(d.day % 10));
    proof {
        assert(s@ =~= date_chars(*d));
    }
    s
}

/// Read a `YYYY-MM-DD` string back into a date. Returns the date exactly
/// when the string spells a valid one ([`spec_valid_date_chars`]), and
/// the date returned spells the string again.
#[verifier::rlimit(80)]
pub fn parse_date(s: &str) -> (r: Option<Date>)
    ensures
        match r {
            Option::Some(d) => d.wf() && s@ == date_chars(d) && spec_valid_date_chars(s@),
            Option::None => !spec_valid_date_chars(s@),
        },
{
    proof {
        reveal_strlit("-");
    }
    if s.unicode_len() != 10 {
        return Option::None;
    }
    if s.get_char(4) != '-' || s.get_char(7) != '-' {
        return Option::None;
    }
    let d0 = digit_of(s.get_char(0));
    let d1 = digit_of(s.get_char(1));
    let d2 = digit_of(s.get_char(2));
    let d3 = digit_of(s.get_char(3));
    let d5 = digit_of(s.get_char(5));
    let d6 = digit_of(s.get_char(6));
    let d8 = digit_of(s.get_char(8));
    let d9 = digit_of(s.get_char(9));
    match (d0, d1, d2, d3, d5, d6, d8, d9) {
        (
            Option::Some(a),
            Option::Some(b),
            Option::Some(c),
            Option::Some(d),
            Option::Some(e),
            Option::Some(f),
            Option::Some(g),
            Option::Some(h),
        ) => {
            let year: u16 = 1000 * (a as u16) + 100 * (b as u16) + 10 * (c as u16) + (d as u16);
            let month: u8 = 10 * e + f;
            let day: u8 = 10 * g + h;
            if month < 1 || month > 12 {
                return Option::None;
            }
            if day < 1 || day > days_in_month(year, month) {
                return Option::None;
            }
            let date = Date { year, month, day };
            proof {
                let sv = s@;
                assert(year as int == 1000 * a + 100 * b + 10 * c + d);
                assert(year as int / 1000 == a as int);
                assert((year as int / 100) % 10 == b as int);
                assert((year as int / 10) % 10 == c as int);
                assert(year as int % 10 == d as int);
                assert(month as int / 10 == e as int && month as int % 10 == f as int);
                assert(day as int / 10 == g as int && day as int % 10 == h as int);
                assert(digit_char(a as int) == sv[0]);
                assert(digit_char(b as int) == sv[1]);
                assert(digit_char(c as int) == sv[2]);
                assert(digit_char(d as int) == sv[3]);
                assert(digit_char(e as int) == sv[5]);
                assert(digit_char(f as int) == sv[6]);
                assert(digit_char(g as int) == sv[8]);
                assert(digit_char(h as int) == sv[9]);
                assert(sv =~= date_chars(date));
            }
            Option::Some(date)
        },
        _ => Option::None,
    }
}

} // verus!
