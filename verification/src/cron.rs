//! The cron model: five time units, a per-unit value that is either a
//! wildcard or a fixed number, and the five-unit pattern they compose into.

use vstd::prelude::*;

use crate::instant::Instant;

verus! {

/// One of the five time units of a pattern.
///
/// Significance order (finest to coarsest) is Minute, Hour, Day, Month,
/// Year; `rank` numbers the units in that order.
#[derive(Clone, Copy, PartialEq, Eq, Structural, Debug)]
pub enum CronColumn {
    Minute,
    Hour,
    Day,
    Month,
    Year,
}

impl CronColumn {
    /// Position of this unit in significance order: Minute is 0, Year is 4.
    pub open spec fn spec_rank(&self) -> int {
        match self {
            CronColumn::Minute => 0,
            CronColumn::Hour => 1,
            CronColumn::Day => 2,
            CronColumn::Month => 3,
            CronColumn::Year => 4,
        }
    }

    /// Position of this unit in significance order: Minute is 0, Year is 4.
    pub fn rank(&self) -> (r: usize)
        ensures
            r == self.spec_rank(),
    {
        match self {
            CronColumn::Minute => 0,
            CronColumn::Hour => 1,
            CronColumn::Day => 2,
            CronColumn::Month => 3,
            CronColumn::Year => 4,
        }
    }

    /// The unit's lowercase English name, as the "every <unit>" rule spells it.
    pub fn unit(&self) -> (r: &'static str)
        ensures
            self == CronColumn::Minute ==> r@ == "minute"@,
            self == CronColumn::Hour ==> r@ == "hour"@,
            self == CronColumn::Day ==> r@ == "day"@,
            self == CronColumn::Month ==> r@ == "month"@,
            self == CronColumn::Year ==> r@ == "year"@,
    {
        match self {
            CronColumn::Year => "year",
            CronColumn::Month => "month",
            CronColumn::Day => "day",
            CronColumn::Hour => "hour",
            CronColumn::Minute => "minute",
        }
    }

    /// The unit at a given rank in significance order.
    pub open spec fn spec_from_rank(r: int) -> CronColumn {
        if r == 0 {
            CronColumn::Minute
        } else if r == 1 {
            CronColumn::Hour
        } else if r == 2 {
            CronColumn::Day
        } else if r == 3 {
            CronColumn::Month
        } else {
            CronColumn::Year
        }
    }

    /// The unit at a given rank in significance order.
    pub fn from_rank(r: usize) -> (c: CronColumn)
        requires
            r < 5,
        ensures
            c == CronColumn::spec_from_rank(r as int),
            c.spec_rank() == r,
    {
        if r == 0 {
            CronColumn::Minute
        } else if r == 1 {
            CronColumn::Hour
        } else if r == 2 {
            CronColumn::Day
        } else if r == 3 {
            CronColumn::Month
        } else {
            CronColumn::Year
        }
    }
}

/// A per-unit constraint: `Every` matches any value of the unit,
/// `On(n)` matches exactly `n`.
#[derive(Clone, Copy, PartialEq, Eq, Structural, Debug)]
pub enum CronValue {
    Every,
    On(u64),
}

/// A five-unit pattern, one value per unit, always fully populated.
/// Built once by the pattern builder and never mutated afterward.
#[derive(Clone, Copy, PartialEq, Eq, Debug)]
pub struct Cronline {
    pub line: [CronValue; 5],
}

impl Cronline {
    /// The value this pattern holds for a unit, as a spec-level lookup.
    pub open spec fn spec_get(self, col: CronColumn) -> CronValue {
        self.line[col.spec_rank()]
    }

    /// Builds a pattern from the five values, given in significance order
    /// (minute, hour, day, month, year).
    pub fn from_values(line: [CronValue; 5]) -> (r: Self)
        ensures
            r == (Cronline { line }),
            forall|c: CronColumn| r.spec_get(c) == line[c.spec_rank()],
    {
        Cronline { line }
    }

    /// The fully fixed pattern that matches exactly the given instant.
    pub open spec fn spec_from_time(t: Instant) -> Cronline {
        Cronline {
            line: [
                CronValue::On(t.minute),
                CronValue::On(t.hour),
                CronValue::On(t.day),
                CronValue::On(t.month),
                CronValue::On(t.year),
            ],
        }
    }

    /// The fully fixed pattern that matches exactly the given instant.
    pub fn from_time(t: &Instant) -> (r: Self)
        ensures
            r == Cronline::spec_from_time(*t),
    {
        Cronline {
            line: [
                CronValue::On(t.minute),
                CronValue::On(t.hour),
                CronValue::On(t.day),
                CronValue::On(t.month),
                CronValue::On(t.year),
            ],
        }
    }

    /// Total lookup of the value for a unit; no error path.
    pub fn get(&self, col: CronColumn) -> (r: CronValue)
        ensures
            r == self.spec_get(col),
    {
        self.line[col.rank()]
    }

    /// The instant's component for a unit.
    pub open spec fn instant_unit(t: Instant, col: CronColumn) -> u64 {
        match col {
            CronColumn::Minute => t.minute,
            CronColumn::Hour => t.hour,
            CronColumn::Day => t.day,
            CronColumn::Month => t.month,
            CronColumn::Year => t.year,
        }
    }

    /// True iff for every unit the pattern's value is `Every` or equals the
    /// instant's component for that unit.
    pub open spec fn spec_matches(self, t: Instant) -> bool {
        forall|c: CronColumn|
            #![trigger self.spec_get(c)]
            self.spec_get(c) == CronValue::Every || self.spec_get(c) == CronValue::On(
                Cronline::instant_unit(t, c),
            )
    }
}

/// How one unit value renders in a pattern's display: underscores for a
/// wildcard, the zero-padded number for a fixed value.
pub open spec fn spec_format_val(v: CronValue, width: int) -> Seq<char> {
    match v {
        CronValue::Every => crate::textfmt::repeat_char('_', width),
        CronValue::On(n) => crate::textfmt::zero_pad(n as int, width),
    }
}

/// How a whole pattern renders: the two date units in the configured
/// order, then the year, then hour and minute.
pub open spec fn spec_msg_format(cl: Cronline, df: crate::DateFormat) -> Seq<char> {
    let c1 = if df == crate::DateFormat::DMY {
        CronColumn::Day
    } else {
        CronColumn::Month
    };
    let c2 = if df == crate::DateFormat::DMY {
        CronColumn::Month
    } else {
        CronColumn::Day
    };
    spec_format_val(cl.spec_get(c1), 2) + "/"@ + spec_format_val(cl.spec_get(c2), 2) + "/"@
        + spec_format_val(cl.spec_get(CronColumn::Year), 4) + " "@ + spec_format_val(
        cl.spec_get(CronColumn::Hour),
        2,
    ) + ":"@ + spec_format_val(cl.spec_get(CronColumn::Minute), 2)
}

/// Renders one unit value: underscores for a wildcard, the zero-padded
/// number for a fixed value.
fn format_val(v: CronValue, width: usize) -> (r: String)
    requires
        width == 2 || width == 4,
    ensures
        r@ == spec_format_val(v, width as int),
{
    proof {
        reveal_strlit("__");
        reveal_strlit("____");
    }
    match v {
        CronValue::Every => {
            let r = if width == 2 {
                "__".to_owned()
            } else {
                "____".to_owned()
            };
            proof {
                assert(crate::textfmt::repeat_char('_', 0) =~= Seq::<char>::empty());
                assert(crate::textfmt::repeat_char('_', 1) =~= seq!['_']);
                assert(crate::textfmt::repeat_char('_', 2) =~= seq!['_', '_']);
                assert(crate::textfmt::repeat_char('_', 3) =~= seq!['_', '_', '_']);
                assert(crate::textfmt::repeat_char('_', 4) =~= seq!['_', '_', '_', '_']);
                assert(r@ =~= crate::textfmt::repeat_char('_', width as int));
            }
            r
        },
        CronValue::On(n) => crate::textfmt::pad_num(n, width),
    }
}

impl Cronline {
    /// Renders the pattern for messages: date in the configured order, then
    /// the year, the hour and the minute, wildcards as underscores.
    pub fn msg_format(&self, date_format: crate::DateFormat) -> (r: String)
        ensures
            r@ == spec_msg_format(*self, date_format),
    {
        proof {
            reveal_strlit("/");
            reveal_strlit(" ");
            reveal_strlit(":");
        }
        let (c1, c2) = match date_format {
            crate::DateFormat::DMY => (CronColumn::Day, CronColumn::Month),
            crate::DateFormat::MDY => (CronColumn::Month, CronColumn::Day),
        };
        let mut r = format_val(self.get(c1), 2);
        r.append("/");
        let s2 = format_val(self.get(c2), 2);
        r.append(s2.as_str());
        r.append("/");
        let s3 = format_val(self.get(CronColumn::Year), 4);
        r.append(s3.as_str());
        r.append(" ");
        let s4 = format_val(self.get(CronColumn::Hour), 2);
        r.append(s4.as_str());
        r.append(":");
        let s5 = format_val(self.get(CronColumn::Minute), 2);
        r.append(s5.as_str());
        proof {
            assert(r@ =~= spec_msg_format(*self, date_format));
        }
        r
    }
}

/// A fully fixed pattern matches exactly the instant it was built from.
pub proof fn lemma_from_time_matches(t: Instant, u: Instant)
    ensures
        Cronline::spec_from_time(t).spec_matches(u) <==> t == u,
{
    let cl = Cronline::spec_from_time(t);
    assert(cl.spec_get(CronColumn::Minute) == CronValue::On(t.minute));
    assert(cl.spec_get(CronColumn::Hour) == CronValue::On(t.hour));
    assert(cl.spec_get(CronColumn::Day) == CronValue::On(t.day));
    assert(cl.spec_get(CronColumn::Month) == CronValue::On(t.month));
    assert(cl.spec_get(CronColumn::Year) == CronValue::On(t.year));
    if cl.spec_matches(u) {
        assert(t == u);
    }
    if t == u {
        assert forall|c: CronColumn| #[trigger]
            cl.spec_get(c) == CronValue::Every || cl.spec_get(c) == CronValue::On(
                Cronline::instant_unit(u, c),
            ) by {
            match c {
                CronColumn::Minute => {},
                CronColumn::Hour => {},
                CronColumn::Day => {},
                CronColumn::Month => {},
                CronColumn::Year => {},
            }
        }
    }
}

} // verus!
