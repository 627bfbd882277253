use vstd::prelude::*;

verus! {

/// Smallest year a [`Moment`] can hold.
pub const MIN_YEAR: i32 = -9999;

/// Largest year a [`Moment`] can hold.
pub const MAX_YEAR: i32 = 9999;

/// Leap years of the proleptic Gregorian calendar.
pub open spec fn is_leap_year(year: int) -> bool {
    year % 4 == 0 && (year % 100 != 0 || year % 400 == 0)
}

/// Number of days of a year.
pub open spec fn days_in_year(year: int) -> int {
    if is_leap_year(year) {
        366
    } else {
        365
    }
}

/// Number of days of a month (1 to 12) of a year.
pub open spec fn days_in_month(year: int, month: int) -> int {
    if month == 2 {
        if is_leap_year(year) {
            29
        } else {
            28
        }
    } else if month == 4 || month == 6 || month == 9 || month == 11 {
        30
    } else {
        31
    }
}

/// Days between the first of January of year 1 and the first of January of `year`.
pub open spec fn days_before_year(year: int) -> int {
    365 * (year - 1) + (year - 1) / 4 - (year - 1) / 100 + (year - 1) / 400
}

/// Days between the first of January and the first of `month`, in `year`.
pub open spec fn days_before_month(year: int, month: int) -> int
    decreases month,
{
    if month <= 1 {
        0
    } else {
        days_before_month(year, month - 1) + days_in_month(year, month - 1)
    }
}

/// Whether `(year, month, day)` names a day of the calendar.
pub open spec fn is_date(year: int, month: int, day: int) -> bool {
    1 <= month <= 12 && 1 <= day <= days_in_month(year, month)
}

/// Days between the first of January of year 1 and the given day.
pub open spec fn day_number(year: int, month: int, day: int) -> int {
    days_before_year(year) + days_before_month(year, month) + day - 1
}

/// Calendar order on days.
pub open spec fn date_before(y1: int, m1: int, d1: int, y2: int, m2: int, d2: int) -> bool {
    y1 < y2 || (y1 == y2 && (m1 < m2 || (m1 == m2 && d1 < d2)))
}

/// A wall-clock date and time: what the scheduling rules read of an instant.
#[derive(Clone, Copy, Debug, PartialEq, Eq, Structural)]
pub struct Moment {
    pub year: i32,
    pub month: u8,
    pub day: u8,
    pub hour: u8,
    pub minute: u8,
    pub second: u8,
    pub nanosecond: u32,
}

impl Moment {
    /// The fields name an existing day and time of day, within the years that can be held.
    pub open spec fn valid(self) -> bool {
        &&& MIN_YEAR <= self.year <= MAX_YEAR
        &&& is_date(self.year as int, self.month as int, self.day as int)
        &&& self.hour < 24
        &&& self.minute < 60
        &&& self.second < 60
        &&& self.nanosecond < 1_000_000_000
    }

    /// Days between the first of January of year 1 and the day of this moment.
    pub open spec fn days(self) -> int {
        day_number(self.year as int, self.month as int, self.day as int)
    }

    /// Seconds between midnight and this moment.
    pub open spec fn second_of_day(self) -> int {
        self.hour * 3600 + self.minute * 60 + self.second
    }

    /// Whole seconds between the start of year 1 and this moment: the position of the moment
    /// on the time line, which orders moments.
    pub open spec fn total_seconds(self) -> int {
        self.days() * 86400 + self.second_of_day()
    }

    /// The same second with no fraction.
    pub open spec fn truncated(self) -> Moment {
        Moment { nanosecond: 0, ..self }
    }
}

impl Moment {
    /// Builds a moment from its fields, if they name an existing day and time of day.
    pub fn new(year: i32, month: u8, day: u8, hour: u8, minute: u8, second: u8, nanosecond: u32) -> (r:
        Option<Moment>)
        ensures
            r == (if (Moment { year, month, day, hour, minute, second, nanosecond }).valid() {
                Some(Moment { year, month, day, hour, minute, second, nanosecond })
            } else {
                None
            }),
    {
        let m = Moment { year, month, day, hour, minute, second, nanosecond };
        if m.is_valid() {
            Some(m)
        } else {
            None
        }
    }

    /// Tells whether the fields name an existing day and time of day.
    pub fn is_valid(&self) -> (r: bool)
        ensures
            r == self.valid(),
    {
        MIN_YEAR <= self.year && self.year <= MAX_YEAR && 1 <= self.month && self.month <= 12 && 1
            <= self.day && self.day <= month_length(self.year, self.month) && self.hour < 24
            && self.minute < 60 && self.second < 60 && self.nanosecond < 1_000_000_000
    }

    /// Number of the day of this moment, counted from the first of January of year 1.
    pub fn day_count(&self) -> (r: i64)
        requires
            self.valid(),
        ensures
            r == self.days(),
            -3_700_000 <= r <= 3_701_000,
    {
        let before_year = days_to_year(self.year);
        let before_month = days_to_month(self.year, self.month);
        before_year + before_month + self.day as i64 - 1
    }

    /// Position of this moment on the time line, in whole seconds from the start of year 1.
    pub fn seconds(&self) -> (r: i64)
        requires
            self.valid(),
        ensures
            r == self.total_seconds(),
            -320_000_000_000 <= r <= 320_000_000_000,
    {
        self.day_count() * 86400 + self.hour as i64 * 3600 + self.minute as i64 * 60
            + self.second as i64
    }

    /// Whole seconds from `earlier` to this moment, the fractions of both left aside; negative
    /// where this moment is the earlier one.
    pub fn seconds_since(&self, earlier: &Moment) -> (r: i64)
        requires
            self.valid(),
            earlier.valid(),
        ensures
            r == self.total_seconds() - earlier.total_seconds(),
    {
        self.seconds() - earlier.seconds()
    }

    /// Tells whether this moment lies after `other`, fractions of a second included.
    pub fn is_after(&self, other: &Moment) -> (r: bool)
        requires
            self.valid(),
            other.valid(),
        ensures
            r == (self.total_seconds() > other.total_seconds() || (self.total_seconds()
                == other.total_seconds() && self.nanosecond > other.nanosecond)),
    {
        let a = self.seconds();
        let b = other.seconds();
        a > b || (a == b && self.nanosecond > other.nanosecond)
    }
}

/// Days between the first of January of year 1 and the first of January of `year`.
fn days_to_year(year: i32) -> (r: i64)
    requires
        MIN_YEAR <= year <= MAX_YEAR,
    ensures
        r == days_before_year(year as int),
        -3_700_000 <= r <= 3_700_000,
{
    let shifted: u64 = (year as i64 + 9999) as u64;
    proof {
        lemma_shifted_years(year as int - 1);
    }
    (365 * shifted + shifted / 4 - shifted / 100 + shifted / 400) as i64 - 3_652_425
}

/// Ten thousand years are 3 652 425 days.
proof fn lemma_shifted_years(y: int)
    ensures
        (y + 10000) / 4 == y / 4 + 2500,
        (y + 10000) / 100 == y / 100 + 100,
        (y + 10000) / 400 == y / 400 + 25,
        -10000 <= y < 10000 ==> -3_700_000 <= 365 * y + y / 4 - y / 100 + y / 400 <= 3_700_000,
{
    if -10000 <= y < 10000 {
        assert(-2500 <= y / 4 <= 2499);
        assert(-100 <= y / 100 <= 99);
        assert(-25 <= y / 400 <= 24);
    }
}

/// Days between the first of January and the first of `month`, in `year`.
fn days_to_month(year: i32, month: u8) -> (r: i64)
    requires
        1 <= month <= 12,
    ensures
        r == days_before_month(year as int, month as int),
        0 <= r <= 335,
{
    let mut before: i64 = 0;
    let mut m: u8 = 1;
    while m < month
        invariant
            1 <= m <= month <= 12,
            before == days_before_month(year as int, m as int),
            0 <= before <= 31 * (m - 1),
        decreases month - m,
    {
        before = before + month_length(year, m) as i64;
        m = m + 1;
    }
    proof {
        lemma_months_ordered(year as int, month as int, 12);
        lemma_months_fill_year(year as int);
    }
    before
}

/// Tells whether `year` is a leap year.
pub fn leap_year(year: i32) -> (r: bool)
    ensures
        r == is_leap_year(year as int),
{
    let shifted: u64 = (year as i64 + 2_147_484_000) as u64;
    assert(shifted as int == year as int + 400 * 5_368_710);
    assert((shifted as int) % 400 == (year as int) % 400);
    assert((shifted as int) % 100 == (year as int) % 100);
    assert((shifted as int) % 4 == (year as int) % 4);
    shifted % 4 == 0 && (shifted % 100 != 0 || shifted % 400 == 0)
}

/// Number of days of `month` in `year`; 31 where `month` is no month.
pub fn month_length(year: i32, month: u8) -> (r: u8)
    ensures
        r == days_in_month(year as int, month as int),
        28 <= r <= 31,
{
    if month == 2 {
        if leap_year(year) {
            29
        } else {
            28
        }
    } else if month == 4 || month == 6 || month == 9 || month == 11 {
        30
    } else {
        31
    }
}

/// Drops the fraction of a second.
pub fn second_precision(moment: Moment) -> (r: Moment)
    ensures
        r == moment.truncated(),
{
    Moment { nanosecond: 0, ..moment }
}


/// `time::OffsetDateTime::checked_add` with a `time::Duration` of whole seconds, on the date and
/// time that the fields of `moment` name. Believed of it: the sum exists exactly where it lies
/// before the year 10000, it names an existing day and time of day, it lies `seconds` later on
/// the time line, and the fraction of a second is kept.
#[verifier::external_body]
pub(crate) fn add_seconds(moment: &Moment, seconds: i64) -> (r: Option<Moment>)
    requires
        moment.valid(),
        0 <= seconds <= 31_622_400,
    ensures
        r is Some <==> moment.total_seconds() + seconds < end_of_time(),
        r matches Some(sum) ==> sum.valid() && sum.total_seconds() == moment.total_seconds()
            + seconds && sum.nanosecond == moment.nanosecond,
{
    let month = time::Month::try_from(moment.month).ok()?;
    let date = time::Date::from_calendar_date(moment.year, month, moment.day).ok()?;
    let clock = time::Time::from_hms_nano(
        moment.hour,
        moment.minute,
        moment.second,
        moment.nanosecond,
    ).ok()?;
    let start = time::PrimitiveDateTime::new(date, clock).assume_utc();
    let sum = start.checked_add(time::Duration::seconds(seconds))?;
    let (hour, minute, second, nanosecond) = sum.to_hms_nano();
    Some(Moment { year: sum.year(), month: u8::from(sum.month()), day: sum.day(), hour, minute, second, nanosecond })
}

/// `time::Date::replace_day` on the day that the fields of `moment` name. Believed of it: it
/// succeeds exactly where the month has the day `day`, and changes the day alone.
#[verifier::external_body]
pub(crate) fn replace_day(moment: &Moment, day: u8) -> (r: Option<Moment>)
    requires
        moment.valid(),
    ensures
        r == (if 1 <= day <= days_in_month(moment.year as int, moment.month as int) {
            Some(Moment { day, ..*moment })
        } else {
            None
        }),
{
    let month = time::Month::try_from(moment.month).ok()?;
    let date = time::Date::from_calendar_date(moment.year, month, moment.day).ok()?;
    let date = date.replace_day(day).ok()?;
    Some(Moment { year: date.year(), month: u8::from(date.month()), day: date.day(), ..*moment })
}

/// `time::Date::replace_month` on the day that the fields of `moment` name. Believed of it: it
/// succeeds exactly where the month `month` has the day of `moment`, and changes the month
/// alone.
#[verifier::external_body]
pub(crate) fn replace_month(moment: &Moment, month: u8) -> (r: Option<Moment>)
    requires
        moment.valid(),
        1 <= month <= 12,
    ensures
        r == (if moment.day <= days_in_month(moment.year as int, month as int) {
            Some(Moment { month, ..*moment })
        } else {
            None
        }),
{
    let old_month = time::Month::try_from(moment.month).ok()?;
    let date = time::Date::from_calendar_date(moment.year, old_month, moment.day).ok()?;
    let date = date.replace_month(time::Month::try_from(month).ok()?).ok()?;
    Some(Moment { year: date.year(), month: u8::from(date.month()), day: date.day(), ..*moment })
}

/// `time::Date::replace_year` on the day that the fields of `moment` name. Believed of it: it
/// succeeds exactly where `year` can be held and has the month and day of `moment`, and
/// changes the year alone.
#[verifier::external_body]
pub(crate) fn replace_year(moment: &Moment, year: i32) -> (r: Option<Moment>)
    requires
        moment.valid(),
    ensures
        r == (if MIN_YEAR <= year <= MAX_YEAR && moment.day <= days_in_month(
            year as int,
            moment.month as int,
        ) {
            Some(Moment { year, ..*moment })
        } else {
            None
        }),
{
    let month = time::Month::try_from(moment.month).ok()?;
    let date = time::Date::from_calendar_date(moment.year, month, moment.day).ok()?;
    let date = date.replace_year(year).ok()?;
    Some(Moment { year: date.year(), month: u8::from(date.month()), day: date.day(), ..*moment })
}

/// First second that lies after every moment that can be held.
pub open spec fn end_of_time() -> int {
    day_number(MAX_YEAR + 1, 1, 1) * 86400
}

/// A year is as long as the distance between its first day and the next year's.
pub proof fn lemma_year_length(year: int)
    ensures
        days_before_year(year + 1) == days_before_year(year) + days_in_year(year),
{
}

/// Later years start later, by at least 365 days a year.
pub proof fn lemma_years_ordered(y1: int, y2: int)
    requires
        y1 <= y2,
    ensures
        days_before_year(y1) + 365 * (y2 - y1) <= days_before_year(y2),
    decreases y2 - y1,
{
    if y1 < y2 {
        lemma_years_ordered(y1, y2 - 1);
        lemma_year_length(y2 - 1);
    }
}

/// The months of a year fill it.
pub proof fn lemma_months_fill_year(year: int)
    ensures
        days_before_month(year, 13) == days_in_year(year),
        days_before_month(year, 12) + 31 == days_in_year(year),
        days_before_month(year, 1) == 0,
{
    reveal_with_fuel(days_before_month, 14);
}

/// Later months of one year start later.
pub proof fn lemma_months_ordered(year: int, m1: int, m2: int)
    requires
        1 <= m1 <= m2,
    ensures
        days_before_month(year, m1) <= days_before_month(year, m2),
        m1 < m2 ==> days_before_month(year, m1) + days_in_month(year, m1) <= days_before_month(
            year,
            m2,
        ),
    decreases m2 - m1,
{
    if m1 < m2 {
        lemma_months_ordered(year, m1, m2 - 1);
    }
}

/// Day numbers follow the calendar order.
pub proof fn lemma_dates_ordered(y1: int, m1: int, d1: int, y2: int, m2: int, d2: int)
    requires
        is_date(y1, m1, d1),
        is_date(y2, m2, d2),
        date_before(y1, m1, d1, y2, m2, d2),
    ensures
        day_number(y1, m1, d1) < day_number(y2, m2, d2),
{
    if y1 < y2 {
        lemma_months_ordered(y1, m1, 13);
        lemma_months_fill_year(y1);
        lemma_year_length(y1);
        lemma_years_ordered(y1 + 1, y2);
        lemma_months_ordered(y2, 1, m2);
    } else if m1 < m2 {
        lemma_months_ordered(y1, m1, m2);
    }
}

/// Two days with one day number are one day.
pub proof fn lemma_day_number_injective(y1: int, m1: int, d1: int, y2: int, m2: int, d2: int)
    requires
        is_date(y1, m1, d1),
        is_date(y2, m2, d2),
        day_number(y1, m1, d1) == day_number(y2, m2, d2),
    ensures
        y1 == y2,
        m1 == m2,
        d1 == d2,
{
    if date_before(y1, m1, d1, y2, m2, d2) {
        lemma_dates_ordered(y1, m1, d1, y2, m2, d2);
    } else if date_before(y2, m2, d2, y1, m1, d1) {
        lemma_dates_ordered(y2, m2, d2, y1, m1, d1);
    }
}

/// A day whose number lies within a month lies in that month.
pub proof fn lemma_day_in_month(year: int, month: int, y: int, m: int, d: int)
    requires
        1 <= month <= 12,
        is_date(y, m, d),
        day_number(year, month, 1) <= day_number(y, m, d) < day_number(year, month, 1)
            + days_in_month(year, month),
    ensures
        y == year,
        m == month,
{
    if date_before(y, m, d, year, month, 1) {
        lemma_dates_ordered(y, m, d, year, month, 1);
    } else if y > year || (y == year && m > month) {
        lemma_dates_ordered(year, month, days_in_month(year, month), y, m, d);
    }
}

/// Moments on the same second of the time line have the same fields, fraction aside.
pub proof fn lemma_total_seconds_injective(a: Moment, b: Moment)
    requires
        a.valid(),
        b.valid(),
        a.total_seconds() == b.total_seconds(),
    ensures
        a.truncated() == b.truncated(),
{
    lemma_same_day(a, b);
}

/// A moment whose position lies within the day of `a` has the date of `a`.
pub proof fn lemma_same_day(a: Moment, b: Moment)
    requires
        a.valid(),
        b.valid(),
        a.days() * 86400 <= b.total_seconds() < a.days() * 86400 + 86400,
    ensures
        a.year == b.year,
        a.month == b.month,
        a.day == b.day,
{
    assert(a.days() == b.days());
    lemma_day_number_injective(
        a.year as int,
        a.month as int,
        a.day as int,
        b.year as int,
        b.month as int,
        b.day as int,
    );
}

/// Every moment that can be held lies before the end of time.
pub proof fn lemma_before_end_of_time(a: Moment)
    requires
        a.valid(),
    ensures
        a.total_seconds() < end_of_time(),
{
    lemma_dates_ordered(a.year as int, a.month as int, a.day as int, MAX_YEAR + 1, 1, 1);
}

} // verus!
