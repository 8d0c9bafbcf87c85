//! Calendar dates and the date-range filtering option.
use chrono::Datelike;
use vstd::prelude::*;

verus! {

/// Earliest year of the supported calendar range.
pub const MIN_YEAR: i32 = -262143;

/// Latest year of the supported calendar range.
pub const MAX_YEAR: i32 = 262142;

/// Whether `year` is a leap year of the proleptic Gregorian calendar.
pub open spec fn is_leap_year(year: int) -> bool {
    year % 4 == 0 && (year % 100 != 0 || year % 400 == 0)
}

/// Number of days of a month (1 to 12) of a year.
pub open spec fn days_in_month(year: int, month: int) -> int {
    if month == 2 {
        if is_leap_year(year) { 29 } else { 28 }
    } else if month == 4 || month == 6 || month == 9 || month == 11 {
        30
    } else {
        31
    }
}

/// Whether year, month and day name a day of the supported calendar range.
pub open spec fn valid_ymd(year: int, month: int, day: int) -> bool {
    &&& MIN_YEAR <= year <= MAX_YEAR
    &&& 1 <= month <= 12
    &&& 1 <= day <= days_in_month(year, month)
}

/// What chrono's `NaiveDate` parser makes of a text, as year, month and day.
pub uninterp spec fn parsed_ymd(s: Seq<char>) -> Option<(int, int, int)>;

/// Whether the character is an ASCII digit.
pub open spec fn is_digit(c: char) -> bool {
    '0' <= c && c <= '9'
}

/// Value of the decimal digits `s[from..to]`.
pub open spec fn digits_value(s: Seq<char>, from: int, to: int) -> int
    decreases to - from,
{
    if to <= from {
        0
    } else {
        digits_value(s, from, to - 1) * 10 + (s[to - 1] as u32 - '0' as u32)
    }
}

/// Year, month and day written exactly as `YYYY-MM-DD`, if the text has
/// that form.
pub open spec fn iso_fields(s: Seq<char>) -> Option<(int, int, int)> {
    if s.len() == 10 && s[4] == '-' && s[7] == '-' && forall|i: int|
        0 <= i < 10 && i != 4 && i != 7 ==> is_digit(#[trigger] s[i]) {
        Some((digits_value(s, 0, 4), digits_value(s, 5, 7), digits_value(s, 8, 10)))
    } else {
        None
    }
}

/// Relies on chrono's `FromStr for NaiveDate` (`%Y-%m-%d`): the outcome
/// depends on the text alone, a parsed date is a day of chrono's range, and
/// a text written exactly `YYYY-MM-DD` that names an existing day parses
/// to that day.
#[verifier::external_body]
fn parse_ymd(s: &str) -> (r: Option<(i32, u32, u32)>)
    ensures
        match iso_fields(s@) {
            Some(t) => valid_ymd(t.0, t.1, t.2) ==> r == Some(
                (t.0 as i32, t.1 as u32, t.2 as u32),
            ),
            None => true,
        },
        match r {
            Some(t) => parsed_ymd(s@) == Some((t.0 as int, t.1 as int, t.2 as int))
                && valid_ymd(t.0 as int, t.1 as int, t.2 as int),
            None => parsed_ymd(s@) is None,
        },
{
    s.parse::<chrono::NaiveDate>().ok().map(|d| (d.year(), d.month(), d.day()))
}

/// A day of the proleptic Gregorian calendar, without time of day.
#[derive(Clone, Copy, PartialEq, Eq, Structural, Debug)]
pub struct Date {
    pub year: i32,
    pub month: u32,
    pub day: u32,
}

impl Date {
    /// Whether the date names a day of the supported range.
    pub open spec fn valid(self) -> bool {
        valid_ymd(self.year as int, self.month as int, self.day as int)
    }

    /// Calendar order: `self` is the same day as `other`, or an earlier one.
    pub open spec fn spec_le(self, other: Date) -> bool {
        self.year < other.year || (self.year == other.year && (self.month < other.month || (
        self.month == other.month && self.day <= other.day)))
    }

    /// Makes the date of a year, a month (1 to 12) and a day of the month,
    /// if they name an existing day of the supported range.
    pub fn from_ymd(year: i32, month: u32, day: u32) -> (r: Option<Date>)
        ensures
            r is Some <==> valid_ymd(year as int, month as int, day as int),
            r matches Some(d) ==> d.year == year && d.month == month && d.day == day,
    {
        if year < MIN_YEAR || year > MAX_YEAR || month < 1 || month > 12 || day < 1 {
            return None;
        }
        let leap = year % 4 == 0 && (year % 100 != 0 || year % 400 == 0);
        let last: u32 = if month == 2 {
            if leap { 29 } else { 28 }
        } else if month == 4 || month == 6 || month == 9 || month == 11 {
            30
        } else {
            31
        };
        if day > last {
            None
        } else {
            Some(Date { year, month, day })
        }
    }

    /// Parses a `YYYY-MM-DD` text.
    pub fn parse(s: &str) -> (r: Option<Date>)
        ensures
            match iso_fields(s@) {
                Some(t) => valid_ymd(t.0, t.1, t.2) ==> r == Some(
                    Date { year: t.0 as i32, month: t.1 as u32, day: t.2 as u32 },
                ),
                None => true,
            },
            match r {
                Some(d) => parsed_ymd(s@) == Some((d.year as int, d.month as int, d.day as int))
                    && d.valid(),
                None => parsed_ymd(s@) is None,
            },
    {
        match parse_ymd(s) {
            Some(t) => Some(Date { year: t.0, month: t.1, day: t.2 }),
            None => None,
        }
    }

    /// Whether `self` is the same day as `other` or an earlier one.
    pub fn not_after(&self, other: &Date) -> (r: bool)
        ensures
            r == self.spec_le(*other),
    {
        self.year < other.year || (self.year == other.year && (self.month < other.month || (
        self.month == other.month && self.day <= other.day)))
    }
}

/// Optional beginning and end of a date range.
pub struct OptionNaiveDateRange(pub Option<Date>, pub Option<Date>);

/// States of the date filtering option.
#[derive(Clone, Copy, PartialEq, Eq, Structural, Debug)]
pub enum NaiveDateFilter {
    /// No date filtering.
    DateIgnored,
    /// Dates from a given day on.
    Since(Date),
    /// Dates up to a given day.
    Until(Date),
    /// Dates from a given day to another one, both included.
    Between(Date, Date),
}

/// The filter of a start and an end: a range when the end is not before the
/// start, else the start alone.
pub open spec fn checked_range(start: Date, end: Date) -> NaiveDateFilter {
    if start.spec_le(end) {
        NaiveDateFilter::Between(start, end)
    } else {
        NaiveDateFilter::Since(start)
    }
}

/// The filter of a pair of optional boundaries.
pub open spec fn range_filter(start: Option<Date>, end: Option<Date>) -> NaiveDateFilter {
    match (start, end) {
        (None, None) => NaiveDateFilter::DateIgnored,
        (Some(s), None) => NaiveDateFilter::Since(s),
        (None, Some(e)) => NaiveDateFilter::Until(e),
        (Some(s), Some(e)) => checked_range(s, e),
    }
}

impl NaiveDateFilter {
    /// The start boundary, if any.
    pub open spec fn start(self) -> Option<Date> {
        match self {
            NaiveDateFilter::Since(s) | NaiveDateFilter::Between(s, _) => Some(s),
            _ => None,
        }
    }

    /// The end boundary, if any.
    pub open spec fn end(self) -> Option<Date> {
        match self {
            NaiveDateFilter::Until(e) | NaiveDateFilter::Between(_, e) => Some(e),
            _ => None,
        }
    }

    /// Whether an optional date passes the filter.
    pub open spec fn allows(self, date: Option<Date>) -> bool {
        match self {
            NaiveDateFilter::DateIgnored => true,
            NaiveDateFilter::Since(s) => date matches Some(d) && s.spec_le(d),
            NaiveDateFilter::Until(e) => date matches Some(d) && d.spec_le(e),
            NaiveDateFilter::Between(s, e) => date matches Some(d) && s.spec_le(d) && d.spec_le(e),
        }
    }

    /// Whether a `Between` range is ordered.
    pub open spec fn well_formed(self) -> bool {
        self matches NaiveDateFilter::Between(s, e) ==> s.spec_le(e)
    }

    /// The start boundary, if any.
    pub fn start_date(&self) -> (r: Option<Date>)
        ensures
            r == self.start(),
    {
        match self {
            NaiveDateFilter::Since(s) | NaiveDateFilter::Between(s, _) => Some(*s),
            _ => None,
        }
    }

    /// The end boundary, if any.
    pub fn end_date(&self) -> (r: Option<Date>)
        ensures
            r == self.end(),
    {
        match self {
            NaiveDateFilter::Until(e) | NaiveDateFilter::Between(_, e) => Some(*e),
            _ => None,
        }
    }

    /// Replaces the filter by the one of a pair of optional boundaries.
    pub fn set_range(&mut self, range: OptionNaiveDateRange)
        ensures
            *final(self) == range_filter(range.0, range.1),
    {
        *self = match range {
            OptionNaiveDateRange(None, None) => NaiveDateFilter::DateIgnored,
            OptionNaiveDateRange(Some(begin), None) => NaiveDateFilter::Since(begin),
            OptionNaiveDateRange(None, Some(end)) => NaiveDateFilter::Until(end),
            OptionNaiveDateRange(Some(begin), Some(end)) => NaiveDateFilter::check_range(
                begin,
                end,
            ),
        }
    }

    /// Updates the start boundary only, keeping any end boundary.
    pub fn set_beginning(&mut self, start_date: Option<Date>)
        ensures
            *final(self) == range_filter(start_date, old(self).end()),
    {
        if let Some(date) = start_date {
            *self = match *self {
                NaiveDateFilter::DateIgnored => NaiveDateFilter::Since(date),
                NaiveDateFilter::Since(_) => NaiveDateFilter::Since(date),
                NaiveDateFilter::Until(end) | NaiveDateFilter::Between(_, end) => {
                    NaiveDateFilter::check_range(date, end)
                },
            }
        } else {
            *self = match *self {
                NaiveDateFilter::DateIgnored | NaiveDateFilter::Since(_) => {
                    NaiveDateFilter::DateIgnored
                },
                NaiveDateFilter::Until(end) | NaiveDateFilter::Between(_, end) => {
                    NaiveDateFilter::Until(end)
                },
            }
        }
    }

    /// Updates the end boundary only, keeping any start boundary.
    pub fn set_end(&mut self, end_date: Option<Date>)
        ensures
            *final(self) == range_filter(old(self).start(), end_date),
    {
        if let Some(date) = end_date {
            *self = match *self {
                NaiveDateFilter::DateIgnored => NaiveDateFilter::Until(date),
                NaiveDateFilter::Since(begin) | NaiveDateFilter::Between(begin, _) => {
                    NaiveDateFilter::check_range(begin, date)
                },
                NaiveDateFilter::Until(_) => NaiveDateFilter::Until(date),
            }
        } else {
            *self = match *self {
                NaiveDateFilter::DateIgnored | NaiveDateFilter::Until(_) => {
                    NaiveDateFilter::DateIgnored
                },
                NaiveDateFilter::Since(begin) | NaiveDateFilter::Between(begin, _) => {
                    NaiveDateFilter::Since(begin)
                },
            }
        }
    }

    /// A range from `start_date` to `end_date` if the end is not before the
    /// start; else a filter from `start_date` on, the end being dropped.
    pub fn check_range(start_date: Date, end_date: Date) -> (r: NaiveDateFilter)
        ensures
            r == checked_range(start_date, end_date),
    {
        if start_date.not_after(&end_date) {
            NaiveDateFilter::Between(start_date, end_date)
        } else {
            NaiveDateFilter::Since(start_date)
        }
    }

    /// Whether an optional date passes the filter: always when the filter is
    /// off, never for a missing date otherwise, and boundaries included.
    pub fn is_date_allowed(&self, date: Option<Date>) -> (r: bool)
        ensures
            r == self.allows(date),
    {
        match self {
            NaiveDateFilter::DateIgnored => true,
            NaiveDateFilter::Until(end) => match date {
                Some(d) => d.not_after(end),
                None => false,
            },
            NaiveDateFilter::Since(start) => match date {
                Some(d) => start.not_after(&d),
                None => false,
            },
            NaiveDateFilter::Between(start, end) => match date {
                Some(d) => start.not_after(&d) && d.not_after(end),
                None => false,
            },
        }
    }
}

impl From<OptionNaiveDateRange> for NaiveDateFilter {
    fn from(range: OptionNaiveDateRange) -> (r: NaiveDateFilter) {
        let mut filter = NaiveDateFilter::DateIgnored;
        filter.set_range(range);
        filter
    }
}

impl vstd::std_specs::convert::FromSpecImpl<OptionNaiveDateRange> for NaiveDateFilter {
    open spec fn obeys_from_spec() -> bool {
        true
    }

    open spec fn from_spec(range: OptionNaiveDateRange) -> NaiveDateFilter {
        range_filter(range.0, range.1)
    }
}

/// A filter that is on rejects a missing date, whatever its boundaries.
pub proof fn missing_date_rejected(filter: NaiveDateFilter)
    requires
        filter != NaiveDateFilter::DateIgnored,
    ensures
        !filter.allows(None),
{
}

/// Whatever the boundaries, the filter they make has an ordered range.
pub proof fn range_filter_is_well_formed(start: Option<Date>, end: Option<Date>)
    ensures
        range_filter(start, end).well_formed(),
{
}

} // verus!
