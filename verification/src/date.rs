//! Calendar dates of blog posts.
//!
//! A date is written `YYYY-MM-DD`: four digits, a hyphen, two digits, a
//! hyphen, two digits, and nothing else. The fields are read as numbers and
//! are not held to the calendar: `2024-13-45` is a date whose month is 13.

use std::cmp::Ordering;
use vstd::prelude::*;
use vstd::string::StringExecFns;
use crate::text::{
    char_of_digit, chars_of, decimal, digit_char, digit_of, digit_value, is_digit,
    is_digit_char, lemma_digit_round_trip, push_decimal,
};

verus! {

/// A date as (year, month, day). Dates are ordered by that triple.
#[derive(Debug, Clone, Copy, PartialEq, Eq, Structural, Ord, Hash)]
pub struct Date {
    pub year: u32,
    pub month: u32,
    pub day: u32,
}

/// Why a text is not a date.
#[derive(Debug, Clone, Copy, PartialEq, Eq, Structural)]
pub enum DateError {
    /// The text is not ten characters long.
    Length,
    /// The fifth or the eighth character is not a hyphen.
    Separator,
    /// One of the four year characters is not a digit.
    Year,
    /// One of the two month characters is not a digit.
    Month,
    /// One of the two day characters is not a digit.
    Day,
}

/// What tells a text apart from a date, in words.
pub open spec fn date_fault_text(reason: DateError) -> Seq<char> {
    match reason {
        DateError::Length => "a date has ten characters"@,
        DateError::Separator => "a date has hyphens after the year and the month"@,
        DateError::Year => "could not parse year"@,
        DateError::Month => "could not parse month"@,
        DateError::Day => "could not parse date"@,
    }
}

impl DateError {
    /// What tells the text apart from a date, in words.
    pub fn message(&self) -> (text: &'static str)
        ensures
            text@ == date_fault_text(*self),
    {
        match self {
            DateError::Length => "a date has ten characters",
            DateError::Separator => "a date has hyphens after the year and the month",
            DateError::Year => "could not parse year",
            DateError::Month => "could not parse month",
            DateError::Day => "could not parse date",
        }
    }
}

/// The number that two digits write.
pub open spec fn two_digit_value(a: char, b: char) -> nat {
    digit_value(a) * 10 + digit_value(b)
}

/// The number that four digits write.
pub open spec fn four_digit_value(a: char, b: char, c: char, d: char) -> nat {
    digit_value(a) * 1000 + digit_value(b) * 100 + digit_value(c) * 10 + digit_value(d)
}

/// Whether the ten characters of `s` have digits in the year positions.
pub open spec fn year_digits(s: Seq<char>) -> bool
    recommends
        s.len() == 10,
{
    is_digit(s[0]) && is_digit(s[1]) && is_digit(s[2]) && is_digit(s[3])
}

pub open spec fn month_digits(s: Seq<char>) -> bool
    recommends
        s.len() == 10,
{
    is_digit(s[5]) && is_digit(s[6])
}

pub open spec fn day_digits(s: Seq<char>) -> bool
    recommends
        s.len() == 10,
{
    is_digit(s[8]) && is_digit(s[9])
}

/// What parsing the text `s` gives: the date it writes, or the first reason
/// why it writes none.
pub open spec fn parse_date(s: Seq<char>) -> Result<Date, DateError> {
    if s.len() != 10 {
        Err(DateError::Length)
    } else if s[4] != '-' || s[7] != '-' {
        Err(DateError::Separator)
    } else if !year_digits(s) {
        Err(DateError::Year)
    } else if !month_digits(s) {
        Err(DateError::Month)
    } else if !day_digits(s) {
        Err(DateError::Day)
    } else {
        Ok(
            Date {
                year: four_digit_value(s[0], s[1], s[2], s[3]) as u32,
                month: two_digit_value(s[5], s[6]) as u32,
                day: two_digit_value(s[8], s[9]) as u32,
            },
        )
    }
}

/// The English name of month `m`, or `Error` where `m` is no month.
pub open spec fn month_name(m: u32) -> Seq<char> {
    if m == 1 {
        "January"@
    } else if m == 2 {
        "February"@
    } else if m == 3 {
        "March"@
    } else if m == 4 {
        "April"@
    } else if m == 5 {
        "May"@
    } else if m == 6 {
        "June"@
    } else if m == 7 {
        "July"@
    } else if m == 8 {
        "August"@
    } else if m == 9 {
        "September"@
    } else if m == 10 {
        "October"@
    } else if m == 11 {
        "November"@
    } else if m == 12 {
        "December"@
    } else {
        "Error"@
    }
}

impl Date {
    /// Whether the date can be written as `YYYY-MM-DD`.
    pub open spec fn is_iso(self) -> bool {
        self.year <= 9999 && self.month <= 99 && self.day <= 99
    }

    /// The ten characters `YYYY-MM-DD` of a date that `is_iso`.
    pub open spec fn iso(self) -> Seq<char>
        recommends
            self.is_iso(),
    {
        let y = self.year as nat;
        let m = self.month as nat;
        let d = self.day as nat;
        seq![
            digit_char(y / 1000),
            digit_char((y / 100) % 10),
            digit_char((y / 10) % 10),
            digit_char(y % 10),
            '-',
            digit_char(m / 10),
            digit_char(m % 10),
            '-',
            digit_char(d / 10),
            digit_char(d % 10),
        ]
    }

    /// The date as a reader sees it: month name, day, a comma, year.
    pub open spec fn display(self) -> Seq<char> {
        month_name(self.month) + " "@ + decimal(self.day as nat) + ", "@ + decimal(
            self.year as nat,
        )
    }

    /// Whether `self` comes strictly before `other`.
    pub open spec fn before(self, other: Date) -> bool {
        self.year < other.year || (self.year == other.year && (self.month < other.month || (
        self.month == other.month && self.day < other.day)))
    }

    /// Reads a date written as `YYYY-MM-DD`.
    pub fn from_str(s: &str) -> (r: Result<Date, DateError>)
        ensures
            r == parse_date(s@),
    {
        let c = chars_of(s);
        if c.len() != 10 {
            return Err(DateError::Length);
        }
        if c[4] != '-' || c[7] != '-' {
            return Err(DateError::Separator);
        }
        if !(is_digit_char(c[0]) && is_digit_char(c[1]) && is_digit_char(c[2]) && is_digit_char(
            c[3],
        )) {
            return Err(DateError::Year);
        }
        if !(is_digit_char(c[5]) && is_digit_char(c[6])) {
            return Err(DateError::Month);
        }
        if !(is_digit_char(c[8]) && is_digit_char(c[9])) {
            return Err(DateError::Day);
        }
        let year: u32 = digit_of(c[0]) * 1000 + digit_of(c[1]) * 100 + digit_of(c[2]) * 10
            + digit_of(c[3]);
        let month: u32 = digit_of(c[5]) * 10 + digit_of(c[6]);
        let day: u32 = digit_of(c[8]) * 10 + digit_of(c[9]);
        Ok(Date { year, month, day })
    }

    /// Writes the date as `YYYY-MM-DD`, where it can be written so.
    pub fn iso_string(&self) -> (r: Option<String>)
        ensures
            r is Some <==> self.is_iso(),
            r is Some ==> r.unwrap()@ == self.iso(),
    {
        if self.year > 9999 || self.month > 99 || self.day > 99 {
            return None;
        }
        let mut out = String::new();
        out.push(char_of_digit(self.year / 1000));
        out.push(char_of_digit((self.year / 100) % 10));
        out.push(char_of_digit((self.year / 10) % 10));
        out.push(char_of_digit(self.year % 10));
        out.push('-');
        out.push(char_of_digit(self.month / 10));
        out.push(char_of_digit(self.month % 10));
        out.push('-');
        out.push(char_of_digit(self.day / 10));
        out.push(char_of_digit(self.day % 10));
        assert(out@ =~= self.iso());
        Some(out)
    }

    /// The English name of the date's month, or `Error` where it has none.
    pub fn month_str(&self) -> (r: &'static str)
        ensures
            r@ == month_name(self.month),
    {
        if self.month == 1 {
            "January"
        } else if self.month == 2 {
            "February"
        } else if self.month == 3 {
            "March"
        } else if self.month == 4 {
            "April"
        } else if self.month == 5 {
            "May"
        } else if self.month == 6 {
            "June"
        } else if self.month == 7 {
            "July"
        } else if self.month == 8 {
            "August"
        } else if self.month == 9 {
            "September"
        } else if self.month == 10 {
            "October"
        } else if self.month == 11 {
            "November"
        } else if self.month == 12 {
            "December"
        } else {
            "Error"
        }
    }

    /// Renders the date for a reader, as in `January 5, 2024`.
    pub fn to_string(&self) -> (r: String)
        ensures
            r@ == self.display(),
    {
        let mut out = String::new();
        out.append(self.month_str());
        out.append(" ");
        push_decimal(&mut out, self.day as u64);
        out.append(", ");
        push_decimal(&mut out, self.year as u64);
        assert(out@ =~= self.display());
        out
    }

    /// Whether `self` comes strictly before `other`.
    pub fn is_before(&self, other: &Date) -> (b: bool)
        ensures
            b == self.before(*other),
    {
        self.year < other.year || (self.year == other.year && (self.month < other.month || (
        self.month == other.month && self.day < other.day)))
    }
}

impl std::str::FromStr for Date {
    type Err = DateError;

    /// Reads a date written as `YYYY-MM-DD`: what `Date::from_str` gives, for `str::parse`.
    fn from_str(s: &str) -> (r: Result<Date, DateError>)
        ensures
            r == parse_date(s@),
    {
        Date::from_str(s)
    }
}

impl Default for Date {
    fn default() -> (d: Date)
        ensures
            d == (Date { year: 0, month: 0, day: 0 }),
    {
        Date { year: 0, month: 0, day: 0 }
    }
}

impl PartialOrd for Date {
    fn partial_cmp(&self, other: &Date) -> (r: Option<Ordering>) {
        if self.is_before(other) {
            Some(Ordering::Less)
        } else if other.is_before(self) {
            Some(Ordering::Greater)
        } else {
            Some(Ordering::Equal)
        }
    }
}

impl vstd::std_specs::cmp::PartialOrdSpecImpl for Date {
    open spec fn obeys_partial_cmp_spec() -> bool {
        true
    }

    open spec fn partial_cmp_spec(&self, other: &Date) -> Option<Ordering> {
        if self.before(*other) {
            Some(Ordering::Less)
        } else if other.before(*self) {
            Some(Ordering::Greater)
        } else {
            Some(Ordering::Equal)
        }
    }
}

proof fn lemma_two_digits(n: nat)
    requires
        n <= 99,
    ensures
        is_digit(digit_char(n / 10)),
        is_digit(digit_char(n % 10)),
        two_digit_value(digit_char(n / 10), digit_char(n % 10)) == n,
{
}

proof fn lemma_four_digits(n: nat)
    requires
        n <= 9999,
    ensures
        is_digit(digit_char(n / 1000)),
        is_digit(digit_char((n / 100) % 10)),
        is_digit(digit_char((n / 10) % 10)),
        is_digit(digit_char(n % 10)),
        four_digit_value(
            digit_char(n / 1000),
            digit_char((n / 100) % 10),
            digit_char((n / 10) % 10),
            digit_char(n % 10),
        ) == n,
{
}

proof fn lemma_two_digit_value(a: char, b: char)
    requires
        is_digit(a),
        is_digit(b),
    ensures
        two_digit_value(a, b) <= 99,
        digit_char(two_digit_value(a, b) / 10) == a,
        digit_char(two_digit_value(a, b) % 10) == b,
{
}

proof fn lemma_split_four(a: nat, b: nat, c: nat, d: nat)
    requires
        a < 10,
        b < 10,
        c < 10,
        d < 10,
    ensures
        a * 1000 + b * 100 + c * 10 + d <= 9999,
        (a * 1000 + b * 100 + c * 10 + d) / 1000 == a,
        ((a * 1000 + b * 100 + c * 10 + d) / 100) % 10 == b,
        ((a * 1000 + b * 100 + c * 10 + d) / 10) % 10 == c,
        (a * 1000 + b * 100 + c * 10 + d) % 10 == d,
{
    let n = a * 1000 + b * 100 + c * 10 + d;
    assert(n / 10 == a * 100 + b * 10 + c);
    assert(n / 100 == a * 10 + b);
    assert(n / 1000 == a);
}

proof fn lemma_four_digit_value(a: char, b: char, c: char, d: char)
    requires
        is_digit(a),
        is_digit(b),
        is_digit(c),
        is_digit(d),
    ensures
        four_digit_value(a, b, c, d) <= 9999,
        digit_char(four_digit_value(a, b, c, d) / 1000) == a,
        digit_char((four_digit_value(a, b, c, d) / 100) % 10) == b,
        digit_char((four_digit_value(a, b, c, d) / 10) % 10) == c,
        digit_char(four_digit_value(a, b, c, d) % 10) == d,
{
    lemma_split_four(digit_value(a), digit_value(b), digit_value(c), digit_value(d));
    lemma_digit_round_trip(0, a);
    lemma_digit_round_trip(0, b);
    lemma_digit_round_trip(0, c);
    lemma_digit_round_trip(0, d);
}

/// Writing a date as `YYYY-MM-DD` and reading the text again gives the date back.
pub proof fn lemma_iso_then_parse(d: Date)
    requires
        d.is_iso(),
    ensures
        parse_date(d.iso()) == Ok::<Date, DateError>(d),
{
    let s = d.iso();
    lemma_four_digits(d.year as nat);
    lemma_two_digits(d.month as nat);
    lemma_two_digits(d.day as nat);
    assert(s.len() == 10);
    assert(s[4] == '-' && s[7] == '-');
    assert(year_digits(s));
    assert(month_digits(s));
    assert(day_digits(s));
    assert(four_digit_value(s[0], s[1], s[2], s[3]) == d.year);
    assert(two_digit_value(s[5], s[6]) == d.month);
    assert(two_digit_value(s[8], s[9]) == d.day);
}

/// A text that reads as a date is the `YYYY-MM-DD` writing of that date.
pub proof fn lemma_parse_then_iso(s: Seq<char>)
    requires
        parse_date(s) is Ok,
    ensures
        parse_date(s).unwrap().is_iso(),
        parse_date(s).unwrap().iso() == s,
{
    let d = parse_date(s).unwrap();
    lemma_four_digit_value(s[0], s[1], s[2], s[3]);
    lemma_two_digit_value(s[5], s[6]);
    lemma_two_digit_value(s[8], s[9]);
    assert(d.year == four_digit_value(s[0], s[1], s[2], s[3]));
    assert(d.month == two_digit_value(s[5], s[6]));
    assert(d.day == two_digit_value(s[8], s[9]));
    assert(d.iso() =~= s);
}

/// The date of a post round-trips: a date that was read from a text can be
/// written, and reading what was written gives the same year, month and day.
pub proof fn lemma_read_date_round_trips(s: Seq<char>)
    requires
        parse_date(s) is Ok,
    ensures
        parse_date(s).unwrap().is_iso(),
        parse_date(parse_date(s).unwrap().iso()) == parse_date(s),
{
    lemma_parse_then_iso(s);
}

/// Dates are in a strict total order: no date is before itself, of two
/// different dates exactly one is before the other, and the order is
/// transitive.
pub proof fn lemma_date_order(a: Date, b: Date, c: Date)
    ensures
        !a.before(a),
        a != b ==> (a.before(b) <==> !b.before(a)),
        a == b ==> !a.before(b),
        a.before(b) && b.before(c) ==> a.before(c),
{
}

/// The order is that of the triples (year, month, day), compared field by field.
pub proof fn lemma_date_order_is_lexicographic(a: Date, b: Date)
    ensures
        a.year < b.year ==> a.before(b),
        a.year == b.year && a.month < b.month ==> a.before(b),
        a.year == b.year && a.month == b.month ==> (a.before(b) <==> a.day < b.day),
{
}

} // verus!
