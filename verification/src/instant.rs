//! The library's calendar model: a wall-clock instant at minute resolution,
//! proleptic Gregorian calendar validity (leap years, month lengths), a
//! total chronological order, and exact date/time arithmetic.
//!
//! The model is timezone-free: validity is purely calendar-based, so a wall
//! time inside a local daylight-saving gap counts as valid here. Time zones
//! are the clock collaborator's concern, outside the scheduling core.

use vstd::prelude::*;

verus! {

/// A wall-clock instant at minute resolution: year, month (1-12),
/// day (1 up to the month's length), hour (0-23), minute (0-59).
#[derive(Clone, Copy, PartialEq, Eq, Structural, Debug)]
pub struct Instant {
    pub year: u64,
    pub month: u64,
    pub day: u64,
    pub hour: u64,
    pub minute: u64,
}

/// Greatest year an instant may carry: patterns hold four-digit years.
pub const MAX_YEAR: u64 = 9999;

/// Whether a year is a leap year in the proleptic Gregorian calendar.
pub open spec fn spec_is_leap_year(y: int) -> bool {
    y % 4 == 0 && (y % 100 != 0 || y % 400 == 0)
}

/// Whether a year is a leap year in the proleptic Gregorian calendar.
pub fn is_leap_year(y: u64) -> (r: bool)
    ensures
        r == spec_is_leap_year(y as int),
{
    y % 4 == 0 && (y % 100 != 0 || y % 400 == 0)
}

/// Number of days in a month of a given year.
pub open spec fn spec_days_in_month(y: int, m: int) -> int {
    if m == 2 {
        if spec_is_leap_year(y) {
            29
        } else {
            28
        }
    } else if m == 4 || m == 6 || m == 9 || m == 11 {
        30
    } else {
        31
    }
}

/// Number of days in a month of a given year.
pub fn days_in_month(y: u64, m: u64) -> (r: u64)
    ensures
        r == spec_days_in_month(y as int, m as int),
{
    if m == 2 {
        if is_leap_year(y) {
            29
        } else {
            28
        }
    } else if m == 4 || m == 6 || m == 9 || m == 11 {
        30
    } else {
        31
    }
}

impl Instant {
    /// The calendar shape of an instant, with no bound on the year: month
    /// and day within the calendar's bounds, hour and minute within the day.
    pub open spec fn date_ok(self) -> bool {
        &&& 1 <= self.month <= 12
        &&& 1 <= self.day <= spec_days_in_month(self.year as int, self.month as int)
        &&& self.hour <= 23
        &&& self.minute <= 59
    }

    /// A calendar-valid instant: month and day within the calendar's bounds
    /// for the year, hour and minute within the day, year at most four digits.
    pub open spec fn valid(self) -> bool {
        &&& self.date_ok()
        &&& self.year <= MAX_YEAR
    }

    /// Whether the five fields form a calendar-valid instant.
    pub fn check_valid(&self) -> (r: bool)
        ensures
            r == self.valid(),
    {
        self.year <= MAX_YEAR && 1 <= self.month && self.month <= 12 && 1 <= self.day && self.day
            <= days_in_month(self.year, self.month) && self.hour <= 23 && self.minute <= 59
    }

    /// Builds an instant from its five fields.
    pub fn new(year: u64, month: u64, day: u64, hour: u64, minute: u64) -> (r: Instant)
        ensures
            r == (Instant { year, month, day, hour, minute }),
    {
        Instant { year, month, day, hour, minute }
    }

    /// A strictly increasing key on valid instants: earlier instants have
    /// smaller keys, so the key order is the chronological order.
    pub open spec fn key(self) -> int {
        ((((self.year * 12 + (self.month - 1)) * 31 + (self.day - 1)) * 24 + self.hour) * 60
            + self.minute) as int
    }

    /// Chronological comparison: is `self` strictly earlier than `other`?
    pub fn is_before(&self, other: &Instant) -> (r: bool)
        requires
            self.valid(),
            other.valid(),
        ensures
            r == (self.key() < other.key()),
    {
        if self.year != other.year {
            self.year < other.year
        } else if self.month != other.month {
            self.month < other.month
        } else if self.day != other.day {
            self.day < other.day
        } else if self.hour != other.hour {
            self.hour < other.hour
        } else {
            self.minute < other.minute
        }
    }
}

/// Key equality on valid instants implies field equality: the key order is
/// a total order on valid instants.
pub proof fn lemma_key_injective(a: Instant, b: Instant)
    requires
        a.valid(),
        b.valid(),
        a.key() == b.key(),
    ensures
        a == b,
{
    lemma_key_fields(a);
    lemma_key_fields(b);
}

/// The key decomposes back into the fields for a valid instant.
proof fn lemma_key_fields(a: Instant)
    requires
        a.valid(),
    ensures
        a.key() % 60 == a.minute,
        (a.key() / 60) % 24 == a.hour,
        ((a.key() / 60) / 24) % 31 == a.day - 1,
        (((a.key() / 60) / 24) / 31) % 12 == a.month - 1,
        ((((a.key() / 60) / 24) / 31) / 12) == a.year,
{
    let y = a.year as int;
    let mo = a.month as int;
    let d = a.day as int;
    let h = a.hour as int;
    let mi = a.minute as int;
    let k3 = y * 12 + (mo - 1);
    let k2 = k3 * 31 + (d - 1);
    let k1 = k2 * 24 + h;
    let k0 = k1 * 60 + mi;
    assert(a.key() == k0);
    assert(k0 % 60 == mi && k0 / 60 == k1) by (nonlinear_arith)
        requires
            k0 == k1 * 60 + mi,
            0 <= mi < 60,
    ;
    assert(k1 % 24 == h && k1 / 24 == k2) by (nonlinear_arith)
        requires
            k1 == k2 * 24 + h,
            0 <= h < 24,
    ;
    assert(k2 % 31 == d - 1 && k2 / 31 == k3) by (nonlinear_arith)
        requires
            k2 == k3 * 31 + (d - 1),
            0 <= d - 1 < 31,
    ;
    assert(k3 % 12 == mo - 1 && k3 / 12 == y) by (nonlinear_arith)
        requires
            k3 == y * 12 + (mo - 1),
            0 <= mo - 1 < 12,
    ;
}

/// Number of days in a year.
pub open spec fn spec_days_in_year(y: int) -> int {
    if spec_is_leap_year(y) {
        366
    } else {
        365
    }
}

/// Number of days in all years before year `y`, from year 0 on.
pub open spec fn days_before_year(y: int) -> int
    decreases y,
{
    if y <= 0 {
        0
    } else {
        days_before_year(y - 1) + spec_days_in_year(y - 1)
    }
}

/// Number of days in the months of year `y` before month `m`.
pub open spec fn days_before_month(y: int, m: int) -> int
    decreases m,
{
    if m <= 1 {
        0
    } else {
        days_before_month(y, m - 1) + spec_days_in_month(y, m - 1)
    }
}

impl Instant {
    /// Days from the calendar origin (year 0, January 1st) to this date.
    pub open spec fn day_index(self) -> int {
        days_before_year(self.year as int) + days_before_month(self.year as int, self.month as int)
            + self.day - 1
    }

    /// Minutes from the calendar origin to this instant: the exact timeline
    /// position, the reference for all date/time arithmetic.
    pub open spec fn abs_minutes(self) -> int {
        self.day_index() * 1440 + self.hour * 60 + self.minute
    }

    /// The next calendar day, rolling over month and year ends.
    pub open spec fn spec_succ_day(self) -> Instant {
        if self.day < spec_days_in_month(self.year as int, self.month as int) {
            Instant { day: (self.day + 1) as u64, ..self }
        } else if self.month < 12 {
            Instant { day: 1, month: (self.month + 1) as u64, ..self }
        } else {
            Instant { day: 1, month: 1, year: (self.year + 1) as u64, ..self }
        }
    }

    /// The date `n` days after this one.
    pub open spec fn spec_plus_days(self, n: nat) -> Instant
        decreases n,
    {
        if n == 0 {
            self
        } else {
            self.spec_succ_day().spec_plus_days((n - 1) as nat)
        }
    }
}

/// The whole year's months sum to the year's days.
proof fn lemma_months_sum(y: int)
    ensures
        days_before_month(y, 12) + spec_days_in_month(y, 12) == spec_days_in_year(y),
{
    assert(days_before_month(y, 1) == 0);
    assert(days_before_month(y, 2) == 31);
    assert(days_before_month(y, 3) == days_before_month(y, 2) + spec_days_in_month(y, 2));
    assert(days_before_month(y, 4) == days_before_month(y, 3) + 31);
    assert(days_before_month(y, 5) == days_before_month(y, 4) + 30);
    assert(days_before_month(y, 6) == days_before_month(y, 5) + 31);
    assert(days_before_month(y, 7) == days_before_month(y, 6) + 30);
    assert(days_before_month(y, 8) == days_before_month(y, 7) + 31);
    assert(days_before_month(y, 9) == days_before_month(y, 8) + 31);
    assert(days_before_month(y, 10) == days_before_month(y, 9) + 30);
    assert(days_before_month(y, 11) == days_before_month(y, 10) + 31);
    assert(days_before_month(y, 12) == days_before_month(y, 11) + 30);
}

/// Stepping to the next day advances the day index by exactly one and keeps
/// the calendar shape; the year grows by at most one.
pub proof fn lemma_succ_day_index(t: Instant)
    requires
        t.date_ok(),
        t.year < u64::MAX,
    ensures
        t.spec_succ_day().date_ok(),
        t.spec_succ_day().day_index() == t.day_index() + 1,
        t.year <= t.spec_succ_day().year <= t.year + 1,
        t.spec_succ_day().hour == t.hour,
        t.spec_succ_day().minute == t.minute,
{
    let y = t.year as int;
    let m = t.month as int;
    let s = t.spec_succ_day();
    if t.day < spec_days_in_month(y, m) {
    } else if t.month < 12 {
        assert(days_before_month(y, m + 1) == days_before_month(y, m) + spec_days_in_month(y, m));
    } else {
        lemma_months_sum(y);
        assert(days_before_year(y + 1) == days_before_year(y) + spec_days_in_year(y));
        assert(days_before_month(y + 1, 1) == 0);
    }
}

/// Adding days never lowers the year.
proof fn lemma_plus_days_year_ge(t: Instant, n: nat)
    requires
        t.year + n <= u64::MAX,
    ensures
        t.spec_plus_days(n).year >= t.year,
    decreases n,
{
    if n > 0 {
        let s = t.spec_succ_day();
        assert(s.year >= t.year && s.year <= t.year + 1);
        lemma_plus_days_year_ge(s, (n - 1) as nat);
    }
}

/// The date `n` days after a valid date, or nothing when it would run past
/// the last four-digit year.
pub fn add_days(t: &Instant, n: u64) -> (r: Option<Instant>)
    requires
        t.valid(),
        n <= 4_000_000,
    ensures
        r is Some ==> r->Some_0 == t.spec_plus_days(n as nat) && r->Some_0.date_ok()
            && r->Some_0.year <= MAX_YEAR && r->Some_0.day_index() == t.day_index() + n
            && r->Some_0.hour == t.hour && r->Some_0.minute == t.minute,
        r is None ==> t.spec_plus_days(n as nat).year > MAX_YEAR,
{
    let mut cur = *t;
    let mut i: u64 = 0;
    while i < n
        invariant
            0 <= i <= n <= 4_000_000,
            cur.date_ok(),
            cur.year <= MAX_YEAR,
            cur.spec_plus_days((n - i) as nat) == t.spec_plus_days(n as nat),
            cur.day_index() == t.day_index() + i,
            cur.hour == t.hour,
            cur.minute == t.minute,
        ensures
            i == n,
            cur == t.spec_plus_days(n as nat),
        decreases n - i,
    {
        proof {
            lemma_succ_day_index(cur);
        }
        let next = if cur.day < days_in_month(cur.year, cur.month) {
            Instant { day: cur.day + 1, ..cur }
        } else if cur.month < 12 {
            Instant { day: 1, month: cur.month + 1, ..cur }
        } else {
            Instant { day: 1, month: 1, year: cur.year + 1, ..cur }
        };
        assert(next == cur.spec_succ_day());
        if next.year > MAX_YEAR {
            proof {
                lemma_plus_days_year_ge(next, (n - i - 1) as nat);
                assert(next.spec_plus_days((n - i - 1) as nat) == t.spec_plus_days(n as nat));
            }
            return None;
        }
        cur = next;
        i = i + 1;
    }
    Some(cur)
}

/// Minutes an addition may span: enough to cross the whole year range.
pub const MAX_ADD_MINUTES: u64 = 5_300_000_000;

impl Instant {
    /// The instant `n` minutes after this one: minutes and hours are added
    /// with carry into whole days, which roll through the calendar.
    pub open spec fn spec_plus_minutes(self, n: nat) -> Instant {
        let a = self.hour * 60 + self.minute + n;
        let base = Instant { hour: ((a % 1440) / 60) as u64, minute: ((a % 1440) % 60) as u64, ..self };
        base.spec_plus_days((a / 1440) as nat)
    }
}

/// The instant `n` minutes after `t`, or nothing when it would run past the
/// last four-digit year.
pub fn add_minutes(t: &Instant, n: u64) -> (r: Option<Instant>)
    requires
        t.valid(),
        n <= MAX_ADD_MINUTES,
    ensures
        r is Some ==> r->Some_0 == t.spec_plus_minutes(n as nat) && r->Some_0.valid()
            && r->Some_0.abs_minutes() == t.abs_minutes() + n,
        r is None ==> t.spec_plus_minutes(n as nat).year > MAX_YEAR,
{
    let a: u64 = t.hour * 60 + t.minute + n;
    let carry_days: u64 = a / 1440;
    let rem: u64 = a % 1440;
    let new_hour: u64 = rem / 60;
    let new_minute: u64 = rem % 60;
    assert(new_hour <= 23 && new_minute <= 59) by (nonlinear_arith)
        requires
            rem == a % 1440,
            new_hour == rem / 60,
            new_minute == rem % 60,
            a >= 0,
    ;
    assert(carry_days <= 4_000_000) by (nonlinear_arith)
        requires
            carry_days == a / 1440,
            0 <= a <= 5_300_001_439,
    ;
    let base = Instant { hour: new_hour, minute: new_minute, ..*t };
    assert(base.valid());
    let r = add_days(&base, carry_days);
    proof {
        if r is Some {
            let res = r->Some_0;
            vstd::arithmetic::div_mod::lemma_fundamental_div_mod(a as int, 1440);
            vstd::arithmetic::div_mod::lemma_fundamental_div_mod(rem as int, 60);
            assert(res.abs_minutes() == (base.day_index() + carry_days) * 1440 + new_hour * 60
                + new_minute);
            assert((base.day_index() + carry_days) * 1440 == base.day_index() * 1440 + carry_days
                * 1440) by (nonlinear_arith);
            assert(res.abs_minutes() == t.abs_minutes() + n);
        }
    }
    r
}

/// Day of the week of a date, counted from Monday as 0 to Sunday as 6:
/// the day index taken modulo the week, anchored so that the origin
/// (year 0, January 1st) falls on its known Saturday.
pub open spec fn spec_weekday(t: Instant) -> int {
    (t.day_index() + 5) % 7
}

/// Days from the calendar origin to this date, computed by summing whole
/// years and then whole months.
pub fn day_index_of(t: &Instant) -> (r: u64)
    requires
        t.date_ok(),
        t.year <= MAX_YEAR,
    ensures
        r == t.day_index(),
{
    let mut days: u64 = 0;
    let mut y: u64 = 0;
    while y < t.year
        invariant
            0 <= y <= t.year <= MAX_YEAR,
            days == days_before_year(y as int),
            days <= y * 366,
        decreases t.year - y,
    {
        assert((y + 1) * 366 == y * 366 + 366) by (nonlinear_arith);
        days = days + if is_leap_year(y) {
            366
        } else {
            365
        };
        y = y + 1;
    }
    assert(days <= MAX_YEAR * 366) by (nonlinear_arith)
        requires
            days <= y * 366,
            y <= MAX_YEAR,
    ;
    let mut m: u64 = 1;
    let mut mdays: u64 = 0;
    while m < t.month
        invariant
            1 <= m <= t.month <= 12,
            mdays == days_before_month(t.year as int, m as int),
            mdays <= 31 * (m - 1),
        decreases t.month - m,
    {
        mdays = mdays + days_in_month(t.year, m);
        m = m + 1;
    }
    days + mdays + (t.day - 1)
}

/// Day of the week of a date, counted from Monday as 0 to Sunday as 6.
pub fn weekday_of(t: &Instant) -> (r: u64)
    requires
        t.date_ok(),
        t.year <= MAX_YEAR,
    ensures
        r == spec_weekday(*t),
        r < 7,
{
    let idx = day_index_of(t);
    proof {
        lemma_day_index_bounds(*t);
    }
    (idx + 5) % 7
}

/// Minutes from the calendar origin to this instant.
pub fn abs_minutes_of(t: &Instant) -> (r: u64)
    requires
        t.date_ok(),
        t.year <= MAX_YEAR,
    ensures
        r == t.abs_minutes(),
{
    let idx = day_index_of(t);
    assert(idx <= MAX_YEAR * 366 + 31 * 11 + 31) by {
        lemma_day_index_bounds(*t);
    }
    assert(idx * 1440 + 23 * 60 + 59 <= u64::MAX) by (nonlinear_arith)
        requires
            0 <= idx <= MAX_YEAR * 366 + 31 * 11 + 31,
    ;
    idx * 1440 + t.hour * 60 + t.minute
}

/// The day index of a bounded date is bounded.
proof fn lemma_day_index_bounds(t: Instant)
    requires
        t.date_ok(),
        t.year <= MAX_YEAR,
    ensures
        0 <= t.day_index() <= MAX_YEAR * 366 + 31 * 11 + 31,
{
    lemma_days_before_year_bounds(t.year as int);
    lemma_days_before_month_bounds(t.year as int, t.month as int);
}

/// Days before a year grow with the year, between 365 and 366 per year.
proof fn lemma_days_before_year_bounds(y: int)
    requires
        y >= 0,
    ensures
        365 * y <= days_before_year(y) <= 366 * y,
    decreases y,
{
    if y > 0 {
        lemma_days_before_year_bounds(y - 1);
    }
}

/// Days before a month grow with the month, at most 31 per month.
proof fn lemma_days_before_month_bounds(y: int, m: int)
    requires
        m >= 1,
    ensures
        0 <= days_before_month(y, m) <= 31 * (m - 1),
    decreases m,
{
    if m > 1 {
        lemma_days_before_month_bounds(y, m - 1);
    }
}

/// Field-by-field lexicographic order on instants, coarsest field first:
/// on valid instants this is the chronological order.
pub open spec fn lex_lt(a: Instant, b: Instant) -> bool {
    if a.year != b.year {
        a.year < b.year
    } else if a.month != b.month {
        a.month < b.month
    } else if a.day != b.day {
        a.day < b.day
    } else if a.hour != b.hour {
        a.hour < b.hour
    } else {
        a.minute < b.minute
    }
}

/// On valid instants the key order is the lexicographic field order.
pub proof fn lemma_key_lt_iff_lex(a: Instant, b: Instant)
    requires
        a.valid(),
        b.valid(),
    ensures
        (a.key() < b.key()) <==> lex_lt(a, b),
{
    lemma_lex_implies_key_lt(a, b);
    lemma_lex_implies_key_lt(b, a);
    if a.key() < b.key() {
        if !lex_lt(a, b) && !lex_lt(b, a) {
            assert(a == b);
        }
    }
}

proof fn lemma_lex_implies_key_lt(a: Instant, b: Instant)
    requires
        a.valid(),
        b.valid(),
    ensures
        lex_lt(a, b) ==> a.key() < b.key(),
{
    if lex_lt(a, b) {
        let y1 = a.year as int;
        let m1 = a.month as int;
        let d1 = a.day as int;
        let h1 = a.hour as int;
        let i1 = a.minute as int;
        let y2 = b.year as int;
        let m2 = b.month as int;
        let d2 = b.day as int;
        let h2 = b.hour as int;
        let i2 = b.minute as int;
        assert((((y1 * 12 + (m1 - 1)) * 31 + (d1 - 1)) * 24 + h1) * 60 + i1 < (((y2 * 12 + (m2 - 1))
            * 31 + (d2 - 1)) * 24 + h2) * 60 + i2) by (nonlinear_arith)
            requires
                1 <= m1 <= 12,
                1 <= d1 <= 31,
                0 <= h1 <= 23,
                0 <= i1 <= 59,
                1 <= m2 <= 12,
                1 <= d2 <= 31,
                0 <= h2 <= 23,
                0 <= i2 <= 59,
                0 <= y1,
                0 <= y2,
                (if y1 != y2 {
                    y1 < y2
                } else if m1 != m2 {
                    m1 < m2
                } else if d1 != d2 {
                    d1 < d2
                } else if h1 != h2 {
                    h1 < h2
                } else {
                    i1 < i2
                }),
        ;
    }
}

/// Days before a year never shrink as the year grows.
proof fn lemma_days_before_year_mono(y1: int, y2: int)
    requires
        y1 <= y2,
    ensures
        days_before_year(y1) <= days_before_year(y2),
    decreases y2 - y1,
{
    if y1 < y2 {
        lemma_days_before_year_mono(y1, y2 - 1);
    }
}

/// A whole earlier month lies before a later month of the same year.
proof fn lemma_days_before_month_mono(y: int, m1: int, m2: int)
    requires
        1 <= m1 < m2,
    ensures
        days_before_month(y, m1) + spec_days_in_month(y, m1) <= days_before_month(y, m2),
    decreases m2 - m1,
{
    if m2 == m1 + 1 {
    } else {
        lemma_days_before_month_mono(y, m1, m2 - 1);
    }
}

/// Any day of a year lies strictly inside the year's days.
proof fn lemma_date_within_year(y: int, m: int, d: int)
    requires
        1 <= m <= 12,
        1 <= d <= spec_days_in_month(y, m),
    ensures
        0 <= days_before_month(y, m) + d - 1 < spec_days_in_year(y),
{
    lemma_days_before_month_bounds(y, m);
    if m == 12 {
        lemma_months_sum(y);
    } else {
        lemma_days_before_month_mono(y, m, 12);
        lemma_months_sum(y);
    }
}

/// On valid instants the lexicographic field order is the timeline order.
pub proof fn lemma_lex_implies_abs_lt(a: Instant, b: Instant)
    requires
        a.valid(),
        b.valid(),
        lex_lt(a, b),
    ensures
        a.abs_minutes() < b.abs_minutes(),
{
    let y1 = a.year as int;
    let y2 = b.year as int;
    if a.year != b.year {
        lemma_date_within_year(y1, a.month as int, a.day as int);
        assert(a.day_index() < days_before_year(y1) + spec_days_in_year(y1));
        assert(days_before_year(y1 + 1) == days_before_year(y1) + spec_days_in_year(y1));
        lemma_days_before_year_mono(y1 + 1, y2);
        lemma_days_before_month_bounds(y2, b.month as int);
        assert(a.day_index() < b.day_index());
        lemma_day_lt_abs_lt(a, b);
    } else if a.month != b.month {
        lemma_days_before_month_mono(y1, a.month as int, b.month as int);
        assert(a.day_index() < b.day_index());
        lemma_day_lt_abs_lt(a, b);
    } else if a.day != b.day {
        assert(a.day_index() < b.day_index());
        lemma_day_lt_abs_lt(a, b);
    } else {
        assert(a.day_index() == b.day_index());
    }
}

/// An earlier day index means an earlier timeline position, whatever the
/// hours and minutes.
proof fn lemma_day_lt_abs_lt(a: Instant, b: Instant)
    requires
        a.valid(),
        b.valid(),
        a.day_index() < b.day_index(),
    ensures
        a.abs_minutes() < b.abs_minutes(),
{
    assert(a.abs_minutes() < (a.day_index() + 1) * 1440) by (nonlinear_arith)
        requires
            a.abs_minutes() == a.day_index() * 1440 + a.hour * 60 + a.minute,
            0 <= a.hour <= 23,
            0 <= a.minute <= 59,
    ;
    assert((a.day_index() + 1) * 1440 <= b.day_index() * 1440) by (nonlinear_arith)
        requires
            a.day_index() + 1 <= b.day_index(),
    ;
    assert(b.day_index() * 1440 <= b.abs_minutes());
}

/// Adding days keeps the calendar shape and the time of day, and advances
/// the day index by exactly the days added.
pub proof fn lemma_plus_days_ok(t: Instant, n: nat)
    requires
        t.date_ok(),
        t.year + n <= u64::MAX,
    ensures
        t.spec_plus_days(n).date_ok(),
        t.spec_plus_days(n).day_index() == t.day_index() + n,
        t.spec_plus_days(n).hour == t.hour,
        t.spec_plus_days(n).minute == t.minute,
        t.year <= t.spec_plus_days(n).year <= t.year + n,
    decreases n,
{
    if n > 0 {
        lemma_succ_day_index(t);
        lemma_plus_days_ok(t.spec_succ_day(), (n - 1) as nat);
    }
}

/// Adding minutes keeps the calendar shape and advances the timeline
/// position by exactly the minutes added.
pub proof fn lemma_plus_minutes_ok(t: Instant, n: nat)
    requires
        t.valid(),
        n <= MAX_ADD_MINUTES,
    ensures
        t.spec_plus_minutes(n).date_ok(),
        t.spec_plus_minutes(n).abs_minutes() == t.abs_minutes() + n,
{
    let a = t.hour * 60 + t.minute + n;
    let carry = a / 1440;
    let rem = a % 1440;
    assert(0 <= rem < 1440 && carry >= 0 && carry * 1440 + rem == a) by (nonlinear_arith)
        requires
            a >= 0,
            carry == a / 1440,
            rem == a % 1440,
    ;
    assert(rem / 60 <= 23 && rem % 60 <= 59 && (rem / 60) * 60 + rem % 60 == rem) by (nonlinear_arith)
        requires
            0 <= rem < 1440,
    ;
    let base = Instant {
        hour: ((a % 1440) / 60) as u64,
        minute: ((a % 1440) % 60) as u64,
        ..t
    };
    assert(base.date_ok());
    assert(carry <= 4_000_000) by (nonlinear_arith)
        requires
            carry == a / 1440,
            0 <= a <= 5_300_001_439,
    ;
    lemma_plus_days_ok(base, carry as nat);
    assert(base.day_index() == t.day_index());
    assert(t.spec_plus_minutes(n).abs_minutes() == (base.day_index() + carry) * 1440 + rem / 60
        * 60 + rem % 60);
    assert((base.day_index() + carry) * 1440 == base.day_index() * 1440 + carry * 1440)
        by (nonlinear_arith);
}

/// Distinct timeline positions order the keys the same way: the key order
/// is exactly the timeline order on valid instants.
pub proof fn lemma_abs_lt_implies_key_lt(a: Instant, b: Instant)
    requires
        a.valid(),
        b.valid(),
        a.abs_minutes() < b.abs_minutes(),
    ensures
        a.key() < b.key(),
{
    if a.key() > b.key() {
        lemma_key_lt_implies_abs_lt(b, a);
    } else if a.key() == b.key() {
        lemma_key_injective(a, b);
    }
}

/// A later instant in key order is later on the timeline: the two orders
/// agree on valid instants.
pub proof fn lemma_key_lt_implies_abs_lt(a: Instant, b: Instant)
    requires
        a.valid(),
        b.valid(),
        a.key() < b.key(),
    ensures
        a.abs_minutes() < b.abs_minutes(),
{
    lemma_key_lt_iff_lex(a, b);
    lemma_lex_implies_abs_lt(a, b);
}

} // verus!
