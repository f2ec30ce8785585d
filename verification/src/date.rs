//! Calendar dates and timestamps, as plain field values with a validity
//! invariant of their own: month in range, day in range for the month, with
//! the Gregorian leap-year rule deciding February.

use vstd::prelude::*;
use vstd::string::StrSliceExecFns;
use vstd::string::StringExecFns;

use crate::error::{Error, ErrorKind, Frame, Rule};
use crate::text::{
    digit_val, digits_value, is_digit_char, lemma_digits_value2, lemma_digits_value4,
    lemma_match_at_index, lemma_padded2, lemma_padded4, match_at, padded2, padded4,
};

verus! {

/// The Gregorian leap-year rule.
pub open spec fn spec_is_leap_year(y: nat) -> bool {
    (y % 4 == 0 && y % 100 != 0) || y % 400 == 0
}

/// How many days the month `m` of year `y` has.
pub open spec fn spec_days_in_month(y: nat, m: nat) -> nat
    recommends
        1 <= m <= 12,
{
    if m == 2 {
        if spec_is_leap_year(y) {
            29
        } else {
            28
        }
    } else if m == 4 || m == 6 || m == 9 || m == 11 {
        30
    } else {
        31
    }
}

/// A calendar date, spelled `YYYY-MM-DD` with a four-digit year.
#[derive(Clone, Copy, Debug, Eq, PartialEq)]
pub struct Date {
    /// The year, at most four digits.
    pub year: u16,
    /// The month, `1..=12`.
    pub month: u8,
    /// The day of the month.
    pub day: u8,
}

impl Date {
    /// The date denotes a real day of the Gregorian calendar and fits the
    /// four-digit spelling.
    pub open spec fn valid(self) -> bool {
        &&& self.year <= 9999
        &&& 1 <= self.month <= 12
        &&& 1 <= self.day
        &&& self.day as nat <= spec_days_in_month(self.year as nat, self.month as nat)
    }

    /// The canonical `YYYY-MM-DD` text of the date, zero padded.
    pub open spec fn spec_render(self) -> Seq<char> {
        padded4(self.year as nat) + seq!['-'] + padded2(self.month as nat) + seq!['-'] + padded2(
            self.day as nat,
        )
    }

    /// The ten characters at `i` have the digit-and-hyphen shape of a date:
    /// exactly four, two and two digits.  Whether they denote a real
    /// calendar day is a separate question, and the split decides the kind
    /// of a failure: a wrong shape is a syntax error, a shaped text naming
    /// no real day is a value error.
    pub open spec fn spec_shape(s: Seq<char>, i: int) -> bool {
        &&& i + 10 <= s.len()
        &&& is_digit_char(s[i])
        &&& is_digit_char(s[i + 1])
        &&& is_digit_char(s[i + 2])
        &&& is_digit_char(s[i + 3])
        &&& s[i + 4] == '-'
        &&& is_digit_char(s[i + 5])
        &&& is_digit_char(s[i + 6])
        &&& s[i + 7] == '-'
        &&& is_digit_char(s[i + 8])
        &&& is_digit_char(s[i + 9])
    }

    /// Recognizes `YYYY-MM-DD` at position `i`: exactly four, two and two
    /// digits, and the digits must denote a real calendar date, not merely
    /// look like one.
    pub open spec fn spec_parse(s: Seq<char>, i: int) -> Option<(Date, int)>
        recommends
            0 <= i <= s.len(),
    {
        if Date::spec_shape(s, i) {
            let y = digits_value(s.subrange(i, i + 4));
            let mo = digits_value(s.subrange(i + 5, i + 7));
            let d = digits_value(s.subrange(i + 8, i + 10));
            let date = Date { year: y as u16, month: mo as u8, day: d as u8 };
            if date.valid() {
                Some((date, i + 10))
            } else {
                None
            }
        } else {
            None
        }
    }

    /// A date from its parts, if they denote a real calendar day.
    pub fn new(year: u16, month: u8, day: u8) -> (r: Option<Date>)
        ensures
            (match r {
                Some(d) => d == (Date { year, month, day }) && d.valid(),
                None => !(Date { year, month, day }).valid(),
            }),
    {
        let d = Date { year, month, day };
        if year <= 9999 && 1 <= month && month <= 12 && 1 <= day && day <= days_in_month(
            year,
            month,
        ) {
            Some(d)
        } else {
            None
        }
    }

    /// Recognizes a date at position `i`.
    pub(crate) fn parse_at(s: &str, i: usize) -> (r: Result<(Date, usize), Error>)
        requires
            i <= s@.len(),
        ensures
            (match r {
                Ok(p) => Date::spec_parse(s@, i as int) == Some((p.0, p.1 as int)) && p.0.valid(),
                Err(e) => {
                    &&& Date::spec_parse(s@, i as int) is None
                    &&& e.frames@.len() == 1
                    &&& e.frames@[0] == (Frame { rule: Rule::Date, position: i })
                    &&& e.kind == (if Date::spec_shape(s@, i as int) {
                        ErrorKind::Value
                    } else {
                        ErrorKind::Syntax
                    })
                },
            }),
    {
        let n = s.unicode_len();
        if n - i < 10 {
            return Err(Error::new(ErrorKind::Syntax, Rule::Date, i));
        }
        let shape_ok = crate::text::digit_at(s, i) && crate::text::digit_at(s, i + 1)
            && crate::text::digit_at(s, i + 2) && crate::text::digit_at(s, i + 3)
            && crate::rust::hyphen_at(s, i + 4) && crate::text::digit_at(s, i + 5)
            && crate::text::digit_at(s, i + 6) && crate::rust::hyphen_at(s, i + 7)
            && crate::text::digit_at(s, i + 8) && crate::text::digit_at(s, i + 9);
        if !shape_ok {
            return Err(Error::new(ErrorKind::Syntax, Rule::Date, i));
        }
        let y: u32 = digit_value_at(s, i) * 1000 + digit_value_at(s, i + 1) * 100
            + digit_value_at(s, i + 2) * 10 + digit_value_at(s, i + 3);
        let mo: u32 = digit_value_at(s, i + 5) * 10 + digit_value_at(s, i + 6);
        let d: u32 = digit_value_at(s, i + 8) * 10 + digit_value_at(s, i + 9);
        proof {
            lemma_digits_value4(s@.subrange(i as int, i + 4));
            lemma_digits_value2(s@.subrange(i + 5, i + 7));
            lemma_digits_value2(s@.subrange(i + 8, i + 10));
        }
        let date = Date { year: y as u16, month: mo as u8, day: d as u8 };
        if 1 <= date.month && date.month <= 12 && 1 <= date.day && date.day <= days_in_month(
            date.year,
            date.month,
        ) {
            Ok((date, i + 10))
        } else {
            Err(Error::new(ErrorKind::Value, Rule::Date, i))
        }
    }

    /// Appends the canonical `YYYY-MM-DD` text of the date.
    pub(crate) fn push_onto(&self, out: &mut String)
        requires
            self.valid(),
        ensures
            final(out)@ == old(out)@ + self.spec_render(),
    {
        crate::text::push_padded4(out, self.year as usize);
        out.append("-");
        proof {
            reveal_strlit("-");
        }
        crate::text::push_padded2(out, self.month as usize);
        out.append("-");
        crate::text::push_padded2(out, self.day as usize);
        assert(out@ =~= old(out)@ + self.spec_render());
    }

    /// Renders the date to its canonical `YYYY-MM-DD` text.
    pub fn to_string(&self) -> (r: String)
        requires
            self.valid(),
        ensures
            r@ == self.spec_render(),
    {
        let mut out = String::new();
        self.push_onto(&mut out);
        out
    }
}

/// The numeric value of the digit character at `i`.
fn digit_value_at(s: &str, i: usize) -> (v: u32)
    requires
        i < s@.len(),
        is_digit_char(s@[i as int]),
    ensures
        v as nat == digit_val(s@[i as int]),
        v <= 9,
{
    let c = s.get_char(i);
    c as u32 - 48
}

/// How many days the month `m` of year `y` has.
pub fn days_in_month(y: u16, m: u8) -> (d: u8)
    requires
        1 <= m <= 12,
    ensures
        d as nat == spec_days_in_month(y as nat, m as nat),
{
    if m == 2 {
        if (y % 4 == 0 && y % 100 != 0) || y % 400 == 0 {
            29
        } else {
            28
        }
    } else if m == 4 || m == 6 || m == 9 || m == 11 {
        30
    } else {
        31
    }
}

/// Wherever the canonical text of a valid date occurs, the recognizer
/// accepts exactly it; the spelling is fixed width, so nothing after it can
/// interfere.
pub proof fn lemma_date_parse(s: Seq<char>, i: int, d: Date)
    requires
        match_at(s, i, d.spec_render()),
        d.valid(),
    ensures
        Date::spec_parse(s, i) == Some((d, i + 10)),
{
    let r = d.spec_render();
    let py = padded4(d.year as nat);
    let pm = padded2(d.month as nat);
    let pd = padded2(d.day as nat);
    lemma_padded4(d.year as nat);
    lemma_padded2(d.month as nat);
    lemma_padded2(d.day as nat);
    assert(r =~= py + seq!['-'] + pm + seq!['-'] + pd);
    assert(r.len() == 10);
    assert forall|k: int| 0 <= k < 10 implies s[i + k] == r[k] by {
        lemma_match_at_index(s, i, r, k);
    }
    assert(r[0] == py[0] && r[1] == py[1] && r[2] == py[2] && r[3] == py[3]);
    assert(r[4] == '-');
    assert(r[5] == pm[0] && r[6] == pm[1]);
    assert(r[7] == '-');
    assert(r[8] == pd[0] && r[9] == pd[1]);
    assert(s.subrange(i, i + 4) =~= py);
    assert(s.subrange(i + 5, i + 7) =~= pm);
    assert(s.subrange(i + 8, i + 10) =~= pd);
    assert(digits_value(s.subrange(i, i + 4)) == d.year as nat);
    assert(digits_value(s.subrange(i + 5, i + 7)) == d.month as nat);
    assert(digits_value(s.subrange(i + 8, i + 10)) == d.day as nat);
}

/// A date accepted by the recognizer is always a valid calendar date.
pub proof fn lemma_date_parse_valid(s: Seq<char>, i: int)
    ensures
        (Date::spec_parse(s, i) matches Some(p) ==> p.0.valid()),
{
}

/// A calendar date with a time of day, spelled `YYYY-MM-DD HH:MM:SS`.
#[derive(Clone, Copy, Debug, Eq, PartialEq)]
pub struct DateTime {
    /// The calendar date.
    pub date: Date,
    /// The hour, `0..=23`.
    pub hour: u8,
    /// The minute, `0..=59`.
    pub minute: u8,
    /// The second, `0..=59`.
    pub second: u8,
}

impl DateTime {
    /// The date is a real calendar day and the time of day is in range.
    pub open spec fn valid(self) -> bool {
        &&& self.date.valid()
        &&& self.hour <= 23
        &&& self.minute <= 59
        &&& self.second <= 59
    }

    /// The canonical `YYYY-MM-DD HH:MM:SS` text of the timestamp.
    pub open spec fn spec_render(self) -> Seq<char> {
        self.date.spec_render() + seq![' '] + padded2(self.hour as nat) + seq![':'] + padded2(
            self.minute as nat,
        ) + seq![':'] + padded2(self.second as nat)
    }

    /// The nine characters after the date have the shape of a time of day:
    /// a space, then two-digit groups separated by colons.  As with dates,
    /// the shape decides the kind of a failure: a wrong shape is a syntax
    /// error, a shaped time out of range a value error.
    pub open spec fn spec_time_shape(s: Seq<char>) -> bool {
        &&& s.len() == 19
        &&& s[10] == ' '
        &&& is_digit_char(s[11])
        &&& is_digit_char(s[12])
        &&& s[13] == ':'
        &&& is_digit_char(s[14])
        &&& is_digit_char(s[15])
        &&& s[16] == ':'
        &&& is_digit_char(s[17])
        &&& is_digit_char(s[18])
    }

    /// A whole input as a timestamp: a date, one space, and a two-digit
    /// hour, minute and second separated by colons, all in range.
    pub open spec fn spec_from_str(s: Seq<char>) -> Option<DateTime> {
        match Date::spec_parse(s, 0) {
            None => None,
            Some((d, _)) => {
                if DateTime::spec_time_shape(s) {
                    let h = digits_value(s.subrange(11, 13));
                    let mi = digits_value(s.subrange(14, 16));
                    let se = digits_value(s.subrange(17, 19));
                    if h <= 23 && mi <= 59 && se <= 59 {
                        Some(
                            DateTime {
                                date: d,
                                hour: h as u8,
                                minute: mi as u8,
                                second: se as u8,
                            },
                        )
                    } else {
                        None
                    }
                } else {
                    None
                }
            },
        }
    }

    /// A timestamp from its parts, if they are all in range.
    pub fn new(date: Date, hour: u8, minute: u8, second: u8) -> (r: Option<DateTime>)
        ensures
            (match r {
                Some(t) => t == (DateTime { date, hour, minute, second }) && t.valid(),
                None => !(DateTime { date, hour, minute, second }).valid(),
            }),
    {
        let t = DateTime { date, hour, minute, second };
        if date.year <= 9999 && 1 <= date.month && date.month <= 12 && 1 <= date.day
            && date.day <= days_in_month(date.year, date.month) && hour <= 23 && minute <= 59
            && second <= 59 {
            Some(t)
        } else {
            None
        }
    }

    /// Parses a whole input as a timestamp.
    pub fn from_str(s: &str) -> (r: Result<DateTime, Error>)
        ensures
            (match r {
                Ok(t) => DateTime::spec_from_str(s@) == Some(t) && t.valid(),
                Err(e) => {
                    &&& DateTime::spec_from_str(s@) is None
                    &&& e.frames@.len() >= 1
                    &&& e.frames@.last().rule == Rule::Datetime
                    &&& (Date::spec_parse(s@, 0) is None ==> e.kind == (
                    if Date::spec_shape(s@, 0) {
                        ErrorKind::Value
                    } else {
                        ErrorKind::Syntax
                    }))
                    &&& (Date::spec_parse(s@, 0) is Some && DateTime::spec_time_shape(s@)
                        ==> e.kind == ErrorKind::Value)
                },
            }),
    {
        let n = s.unicode_len();
        let (d, _j) = match Date::parse_at(s, 0) {
            Ok(p) => p,
            Err(e) => {
                return Err(e.within(Rule::Datetime, 0));
            },
        };
        if n != 19 {
            return Err(Error::new(ErrorKind::Syntax, Rule::Datetime, 10));
        }
        let shape_ok = s.get_char(10) == ' ' && crate::text::digit_at(s, 11)
            && crate::text::digit_at(s, 12) && s.get_char(13) == ':' && crate::text::digit_at(
            s,
            14,
        ) && crate::text::digit_at(s, 15) && s.get_char(16) == ':' && crate::text::digit_at(s, 17)
            && crate::text::digit_at(s, 18);
        if !shape_ok {
            return Err(Error::new(ErrorKind::Syntax, Rule::Datetime, 10));
        }
        let h: u32 = digit_value_at(s, 11) * 10 + digit_value_at(s, 12);
        let mi: u32 = digit_value_at(s, 14) * 10 + digit_value_at(s, 15);
        let se: u32 = digit_value_at(s, 17) * 10 + digit_value_at(s, 18);
        proof {
            lemma_digits_value2(s@.subrange(11, 13));
            lemma_digits_value2(s@.subrange(14, 16));
            lemma_digits_value2(s@.subrange(17, 19));
        }
        if h <= 23 && mi <= 59 && se <= 59 {
            Ok(DateTime { date: d, hour: h as u8, minute: mi as u8, second: se as u8 })
        } else {
            Err(Error::new(ErrorKind::Value, Rule::Datetime, 10))
        }
    }

    /// Appends the canonical text of the timestamp.
    pub(crate) fn push_onto(&self, out: &mut String)
        requires
            self.valid(),
        ensures
            final(out)@ == old(out)@ + self.spec_render(),
    {
        self.date.push_onto(out);
        out.append(" ");
        proof {
            reveal_strlit(" ");
        }
        crate::text::push_padded2(out, self.hour as usize);
        out.append(":");
        proof {
            reveal_strlit(":");
        }
        crate::text::push_padded2(out, self.minute as usize);
        out.append(":");
        crate::text::push_padded2(out, self.second as usize);
        assert(out@ =~= old(out)@ + self.spec_render());
    }

    /// Renders the timestamp to its canonical text.
    pub fn to_string(&self) -> (r: String)
        requires
            self.valid(),
        ensures
            r@ == self.spec_render(),
    {
        let mut out = String::new();
        self.push_onto(&mut out);
        out
    }
}

/// Rendering a valid timestamp and parsing it back yields the same
/// timestamp.
pub proof fn lemma_datetime_round_trip(t: DateTime)
    requires
        t.valid(),
    ensures
        DateTime::spec_from_str(t.spec_render()) == Some(t),
{
    let s = t.spec_render();
    let rd = t.date.spec_render();
    let ph = padded2(t.hour as nat);
    let pm = padded2(t.minute as nat);
    let ps = padded2(t.second as nat);
    lemma_padded4(t.date.year as nat);
    lemma_padded2(t.date.month as nat);
    lemma_padded2(t.date.day as nat);
    lemma_padded2(t.hour as nat);
    lemma_padded2(t.minute as nat);
    lemma_padded2(t.second as nat);
    assert(rd.len() == 10);
    assert(s =~= rd + seq![' '] + ph + seq![':'] + pm + seq![':'] + ps);
    assert(s.len() == 19);
    assert(forall|k: int| 0 <= k < 10 ==> #[trigger] s[k] == rd[k]);
    assert(match_at(s, 0, rd));
    lemma_date_parse(s, 0, t.date);
    assert(s[10] == ' ');
    assert(s[11] == ph[0] && s[12] == ph[1]);
    assert(s[13] == ':');
    assert(s[14] == pm[0] && s[15] == pm[1]);
    assert(s[16] == ':');
    assert(s[17] == ps[0] && s[18] == ps[1]);
    assert(s.subrange(11, 13) =~= ph);
    assert(s.subrange(14, 16) =~= pm);
    assert(s.subrange(17, 19) =~= ps);
}

} // verus!
