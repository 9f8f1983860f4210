use vstd::prelude::*;

verus! {

/// A calendar date at day granularity. Offers carry their run period as two
/// such dates, and the cache keeps the date of its last successful refresh;
/// time-of-day and zone are discarded on purpose.
#[derive(Clone, Copy, PartialEq, Eq, Structural, Debug)]
pub struct Date {
    pub year: i32,
    pub month: u8,
    pub day: u8,
}

/// Gregorian leap-year rule. Only used for years 0 through 9999, where
/// spec-level and exec-level `%` agree.
pub open spec fn is_leap_year(y: int) -> bool {
    y % 4 == 0 && (y % 100 != 0 || y % 400 == 0)
}

pub open spec fn days_in_month(y: int, m: int) -> int {
    if m == 2 {
        if is_leap_year(y) {
            29
        } else {
            28
        }
    } else if m == 4 || m == 6 || m == 9 || m == 11 {
        30
    } else {
        31
    }
}

/// A well-formed date: four-digit year, real month, day within the month.
pub open spec fn date_wf(d: Date) -> bool {
    &&& 0 <= d.year <= 9999
    &&& 1 <= d.month <= 12
    &&& 1 <= d.day <= days_in_month(d.year as int, d.month as int)
}

/// Strict chronological order on dates.
pub open spec fn date_lt(a: Date, b: Date) -> bool {
    ||| a.year < b.year
    ||| (a.year == b.year && a.month < b.month)
    ||| (a.year == b.year && a.month == b.month && a.day < b.day)
}

pub open spec fn date_le(a: Date, b: Date) -> bool {
    date_lt(a, b) || a == b
}

fn days_in_month_x(y: i32, m: u8) -> (r: u8)
    requires
        0 <= y,
    ensures
        r as int == days_in_month(y as int, m as int),
{
    if m == 2 {
        if y % 4 == 0 && (y % 100 != 0 || y % 400 == 0) {
            29
        } else {
            28
        }
    } else if m == 4 || m == 6 || m == 9 || m == 11 {
        30
    } else {
        31
    }
}

impl Date {
    /// Strictly earlier than `other`.
    pub fn lt(&self, other: &Date) -> (r: bool)
        ensures
            r == date_lt(*self, *other),
    {
        self.year < other.year || (self.year == other.year && self.month < other.month) || (
        self.year == other.year && self.month == other.month && self.day < other.day)
    }

    /// Earlier than or equal to `other`.
    pub fn le(&self, other: &Date) -> (r: bool)
        ensures
            r == date_le(*self, *other),
    {
        self.lt(other) || (self.year == other.year && self.month == other.month && self.day
            == other.day)
    }

    /// Whether this is a real calendar date.
    pub fn is_wf(&self) -> (r: bool)
        ensures
            r == date_wf(*self),
    {
        0 <= self.year && self.year <= 9999 && 1 <= self.month && self.month <= 12 && 1 <= self.day
            && self.day <= days_in_month_x(self.year, self.month)
    }
}

pub open spec fn is_digit(c: char) -> bool {
    48 <= c as u32 <= 57
}

pub open spec fn digit_val(c: char) -> int {
    c as u32 - 48
}

/// Number of characters before the first `'T'` (the whole length when there
/// is none): the date component of an ISO time stamp.
pub open spec fn date_part_len(s: Seq<char>) -> int
    decreases s.len(),
{
    if s.len() == 0 {
        0
    } else if s[0] == 'T' {
        0
    } else {
        1 + date_part_len(s.drop_first())
    }
}

proof fn lemma_date_part_len_at(s: Seq<char>, i: int)
    requires
        0 <= i <= s.len(),
        forall|j: int| 0 <= j < i ==> s[j] != 'T',
        i == s.len() || s[i] == 'T',
    ensures
        date_part_len(s) == i,
    decreases i,
{
    if s.len() == 0 {
    } else if i == 0 {
    } else {
        assert(s[0] != 'T');
        lemma_date_part_len_at(s.drop_first(), i - 1);
    }
}

/// The date component has the exact shape `YYYY-MM-DD`.
pub open spec fn date_part_ok(s: Seq<char>) -> bool {
    &&& s.len() >= 10
    &&& date_part_len(s) == 10
    &&& is_digit(s[0]) && is_digit(s[1]) && is_digit(s[2]) && is_digit(s[3])
    &&& s[4] == '-'
    &&& is_digit(s[5]) && is_digit(s[6])
    &&& s[7] == '-'
    &&& is_digit(s[8]) && is_digit(s[9])
}

/// The date spelled by a well-shaped `YYYY-MM-DD` prefix.
pub open spec fn date_of_digits(s: Seq<char>) -> Date {
    Date {
        year: (1000 * digit_val(s[0]) + 100 * digit_val(s[1]) + 10 * digit_val(s[2]) + digit_val(
            s[3],
        )) as i32,
        month: (10 * digit_val(s[5]) + digit_val(s[6])) as u8,
        day: (10 * digit_val(s[8]) + digit_val(s[9])) as u8,
    }
}

/// What parsing an ISO time stamp down to its date yields: the part before
/// the first `'T'` must read `YYYY-MM-DD` and name a real calendar date;
/// anything else is rejected.
pub open spec fn spec_parse_date(s: Seq<char>) -> Option<Date> {
    if date_part_ok(s) && date_wf(date_of_digits(s)) {
        Some(date_of_digits(s))
    } else {
        None
    }
}

fn digit_value(c: char) -> (r: Option<u8>)
    ensures
        r is Some <==> is_digit(c),
        r is Some ==> r->0 as int == digit_val(c),
{
    let u = c as u32;
    if 48 <= u && u <= 57 {
        Some((u - 48) as u8)
    } else {
        None
    }
}

/// Parse the date component of an ISO time stamp such as
/// `2024-01-01T00:00:00Z`: everything from the first `'T'` on is discarded,
/// and the rest must be a well-formed `YYYY-MM-DD` date.
pub fn parse_date(s: &str) -> (r: Option<Date>)
    ensures
        r == spec_parse_date(s@),
{
    let len = s.unicode_len();
    let mut t: usize = 0;
    while t < len && s.get_char(t) != 'T'
        invariant
            0 <= t <= len,
            len == s@.len(),
            forall|j: int| 0 <= j < t ==> s@[j] != 'T',
        decreases len - t,
    {
        t = t + 1;
    }
    proof {
        lemma_date_part_len_at(s@, t as int);
    }
    if t != 10 {
        return None;
    }
    let d0 = digit_value(s.get_char(0));
    let d1 = digit_value(s.get_char(1));
    let d2 = digit_value(s.get_char(2));
    let d3 = digit_value(s.get_char(3));
    let d5 = digit_value(s.get_char(5));
    let d6 = digit_value(s.get_char(6));
    let d8 = digit_value(s.get_char(8));
    let d9 = digit_value(s.get_char(9));
    if s.get_char(4) != '-' || s.get_char(7) != '-' {
        return None;
    }
    match (d0, d1, d2, d3, d5, d6, d8, d9) {
        (
            Some(y0),
            Some(y1),
            Some(y2),
            Some(y3),
            Some(m0),
            Some(m1),
            Some(dd0),
            Some(dd1),
        ) => {
            let year: i32 = 1000 * (y0 as i32) + 100 * (y1 as i32) + 10 * (y2 as i32) + (y3 as i32);
            let month: u8 = 10 * m0 + m1;
            let day: u8 = 10 * dd0 + dd1;
            if 1 <= month && month <= 12 && 1 <= day && day <= days_in_month_x(year, month) {
                Some(Date { year, month, day })
            } else {
                None
            }
        },
        _ => None,
    }
}

} // verus!
