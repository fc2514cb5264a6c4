//! The pattern builder: accumulates per-unit assignments from the parser
//! chain, rejects conflicting assignments, and completes a partial pattern
//! with the two-pass autofill algorithm (wildcard propagation, then now-fill)
//! plus a default time of day when none was given.

use vstd::prelude::*;

use crate::cron::{CronColumn, CronValue, Cronline};
use crate::errors::AgendaError;
use crate::instant::Instant;
use crate::textfmt::{dec_digits, u64_to_string};

verus! {

/// Hour assigned when a command names no time of day.
pub const DEFAULT_HOUR: u64 = 10;

/// Minute assigned when a command names no time of day.
pub const DEFAULT_MINUTE: u64 = 0;

/// A partial pattern: per unit, the assigned value or nothing yet.
#[derive(Clone, Copy, PartialEq, Eq, Structural, Debug)]
pub struct CronlineBuilder {
    pub minute: Option<CronValue>,
    pub hour: Option<CronValue>,
    pub day: Option<CronValue>,
    pub month: Option<CronValue>,
    pub year: Option<CronValue>,
}

impl CronlineBuilder {
    /// The assignment this builder holds for a unit.
    pub open spec fn spec_slot(self, col: CronColumn) -> Option<CronValue> {
        match col {
            CronColumn::Minute => self.minute,
            CronColumn::Hour => self.hour,
            CronColumn::Day => self.day,
            CronColumn::Month => self.month,
            CronColumn::Year => self.year,
        }
    }

    /// This builder with one unit's assignment replaced.
    pub open spec fn spec_with(self, col: CronColumn, v: Option<CronValue>) -> CronlineBuilder {
        match col {
            CronColumn::Minute => CronlineBuilder { minute: v, ..self },
            CronColumn::Hour => CronlineBuilder { hour: v, ..self },
            CronColumn::Day => CronlineBuilder { day: v, ..self },
            CronColumn::Month => CronlineBuilder { month: v, ..self },
            CronColumn::Year => CronlineBuilder { year: v, ..self },
        }
    }

    /// All five units assigned.
    pub open spec fn complete(self) -> bool {
        forall|c: CronColumn| self.spec_slot(c) is Some
    }

    /// The assignment this builder holds for a unit.
    pub fn slot(&self, col: CronColumn) -> (r: Option<CronValue>)
        ensures
            r == self.spec_slot(col),
    {
        match col {
            CronColumn::Minute => self.minute,
            CronColumn::Hour => self.hour,
            CronColumn::Day => self.day,
            CronColumn::Month => self.month,
            CronColumn::Year => self.year,
        }
    }

    fn put(&mut self, col: CronColumn, v: CronValue)
        ensures
            *final(self) == old(self).spec_with(col, Some(v)),
    {
        match col {
            CronColumn::Minute => self.minute = Some(v),
            CronColumn::Hour => self.hour = Some(v),
            CronColumn::Day => self.day = Some(v),
            CronColumn::Month => self.month = Some(v),
            CronColumn::Year => self.year = Some(v),
        }
    }

    /// The builder with nothing assigned.
    pub open spec fn spec_empty() -> CronlineBuilder {
        CronlineBuilder { minute: None, hour: None, day: None, month: None, year: None }
    }

    /// A builder with nothing assigned.
    pub fn new() -> (r: Self)
        ensures
            r == CronlineBuilder::spec_empty(),
            forall|c: CronColumn| r.spec_slot(c) is None,
    {
        CronlineBuilder { minute: None, hour: None, day: None, month: None, year: None }
    }

    /// Assigns a value to a unit; a unit may be assigned only once, a second
    /// assignment is a hard error and leaves the builder unchanged.
    pub fn set(&mut self, col: CronColumn, val: CronValue) -> (r: Result<(), AgendaError>)
        ensures
            old(self).spec_slot(col) is None ==> r is Ok && *final(self) == old(self).spec_with(
                col,
                Some(val),
            ),
            old(self).spec_slot(col) is Some ==> r == Result::<(), AgendaError>::Err(
                AgendaError::AlreadySpecified(col),
            ) && *final(self) == *old(self),
    {
        if self.slot(col).is_some() {
            Err(AgendaError::AlreadySpecified(col))
        } else {
            self.put(col, val);
            Ok(())
        }
    }
}

/// Pass one of autofill, from the unit of the given rank on, walking in
/// significance order with the wildcard flag `open`: an unassigned unit is
/// filled with `Every` while the flag is open; an assigned `Every` opens the
/// flag; an assigned `On` while the flag is open stops the pass at once.
pub open spec fn spec_pass_wildcards(b: CronlineBuilder, rank: int, open: bool) -> CronlineBuilder
    decreases 5 - rank,
{
    if rank < 0 || rank >= 5 {
        b
    } else {
        let col = CronColumn::spec_from_rank(rank);
        match b.spec_slot(col) {
            Option::None => if open {
                spec_pass_wildcards(b.spec_with(col, Some(CronValue::Every)), rank + 1, true)
            } else {
                spec_pass_wildcards(b, rank + 1, false)
            },
            Option::Some(CronValue::Every) => spec_pass_wildcards(b, rank + 1, true),
            Option::Some(CronValue::On(_)) => if open {
                b
            } else {
                spec_pass_wildcards(b, rank + 1, false)
            },
        }
    }
}

/// Whether some unit strictly finer than the given rank is fixed to a
/// value.
pub open spec fn spec_fixed_below(b: CronlineBuilder, rank: int) -> bool {
    exists|r: int|
        0 <= r < rank && b.spec_slot(
            #[trigger] CronColumn::spec_from_rank(r),
        ) matches Some(CronValue::On(_))
}

/// Pass two of autofill (the now-fill), from the unit of the given rank
/// walking coarsest to finest against the snapshot of "now": the first
/// wildcard met stops the pass, so nothing under a recurring unit is taken
/// from "now", and an unassigned unit above a fixed one is filled with
/// now's value for it.
pub open spec fn spec_pass_now(b: CronlineBuilder, now_line: Cronline, rank: int) -> CronlineBuilder
    decreases rank + 1,
{
    if rank < 0 || rank >= 5 {
        b
    } else {
        let col = CronColumn::spec_from_rank(rank);
        match b.spec_slot(col) {
            Option::Some(CronValue::Every) => b,
            Option::Some(CronValue::On(_)) => spec_pass_now(b, now_line, rank - 1),
            Option::None => if spec_fixed_below(b, rank) {
                spec_pass_now(b.spec_with(col, Some(now_line.spec_get(col))), now_line, rank - 1)
            } else {
                spec_pass_now(b, now_line, rank - 1)
            },
        }
    }
}

/// The builder autofill leaves behind: both passes, then the default time
/// of day if the hour is still unassigned.
pub open spec fn spec_autofill(b: CronlineBuilder, now: Instant) -> CronlineBuilder {
    let b1 = spec_pass_wildcards(b, 0, false);
    let b2 = spec_pass_now(b1, Cronline::spec_from_time(now), 4);
    if b2.hour is None {
        b2.spec_with(CronColumn::Hour, Some(CronValue::On(DEFAULT_HOUR as u64))).spec_with(
            CronColumn::Minute,
            Some(CronValue::On(DEFAULT_MINUTE as u64)),
        )
    } else {
        b2
    }
}

/// Whether autofill adds the default time of day (no time was given).
pub open spec fn spec_autofill_defaulted(b: CronlineBuilder, now: Instant) -> bool {
    spec_pass_now(spec_pass_wildcards(b, 0, false), Cronline::spec_from_time(now), 4).hour is None
}

/// The comment autofill produces when it falls back to the default time.
pub open spec fn default_time_comment() -> Seq<char> {
    "Defaulting time to 10:00am"@
}

/// Converts a 24-hour hour to 12-hour form with an am/pm marker.
pub fn to_am_pm_format(h: u64) -> (r: (u64, String))
    ensures
        h < 12 ==> r.0 == h && r.1@ == "am"@,
        h >= 12 ==> r.0 == h - 12 && r.1@ == "pm"@,
{
    if h < 12 {
        (h, "am".to_owned())
    } else {
        (h - 12, "pm".to_owned())
    }
}

impl CronlineBuilder {
    /// Whether some unit strictly finer than the given rank is fixed.
    fn fixed_below(&self, rank: usize) -> (r: bool)
        requires
            rank <= 4,
        ensures
            r == spec_fixed_below(*self, rank as int),
    {
        let mut j: usize = 0;
        while j < rank
            invariant
                0 <= j <= rank <= 4,
                forall|r2: int|
                    0 <= r2 < j ==> !(self.spec_slot(
                        #[trigger] CronColumn::spec_from_rank(r2),
                    ) matches Some(CronValue::On(_))),
            decreases rank - j,
        {
            let col = CronColumn::from_rank(j);
            match self.slot(col) {
                Option::Some(CronValue::On(_)) => {
                    proof {
                        assert(self.spec_slot(CronColumn::spec_from_rank(j as int)) matches Some(
                            CronValue::On(_),
                        ));
                    }
                    return true;
                },
                _ => {},
            }
            j = j + 1;
        }
        false
    }

    /// Completes this partial pattern from the current instant: propagates
    /// wildcards coarse-ward; then, walking coarsest to finest and stopping
    /// at the first wildcard, fills units left unassigned above a fixed one
    /// with now's values; and falls back to the default time of day when no
    /// time was given, in which case a human-readable comment is returned.
    pub fn autofill(&mut self, now: &Instant) -> (comment: Option<String>)
        ensures
            *final(self) == spec_autofill(*old(self), *now),
            comment is Some <==> spec_autofill_defaulted(*old(self), *now),
            comment is Some ==> comment->Some_0@ == default_time_comment(),
    {
        let ghost b0 = *self;

        // Wildcard propagation.
        let mut open = false;
        let mut rank: usize = 0;
        let ghost b1 = spec_pass_wildcards(b0, 0, false);
        while rank < 5
            invariant
                0 <= rank <= 5,
                spec_pass_wildcards(*self, rank as int, open) == b1,
            ensures
                *self == b1,
            decreases 5 - rank,
        {
            let col = CronColumn::from_rank(rank);
            match self.slot(col) {
                Option::None => {
                    if open {
                        self.put(col, CronValue::Every);
                    }
                },
                Option::Some(CronValue::Every) => {
                    open = true;
                },
                Option::Some(CronValue::On(_)) => {
                    if open {
                        break ;
                    }
                },
            }
            rank = rank + 1;
        }

        // Now-fill, coarsest to finest, stopped by the first wildcard.
        let now_line = Cronline::from_time(now);
        let mut i: usize = 5;
        let ghost b2 = spec_pass_now(b1, Cronline::spec_from_time(*now), 4);
        while i > 0
            invariant
                0 <= i <= 5,
                now_line == Cronline::spec_from_time(*now),
                spec_pass_now(*self, now_line, i - 1) == b2,
            ensures
                *self == b2,
            decreases i,
        {
            let rank2 = i - 1;
            let col = CronColumn::from_rank(rank2);
            match self.slot(col) {
                Option::Some(CronValue::Every) => {
                    break ;
                },
                Option::Some(CronValue::On(_)) => {},
                Option::None => {
                    if self.fixed_below(rank2) {
                        self.put(col, now_line.get(col));
                    }
                },
            }
            i = i - 1;
        }

        // Default time of day.
        if self.slot(CronColumn::Hour).is_none() {
            self.put(CronColumn::Hour, CronValue::On(DEFAULT_HOUR));
            self.put(CronColumn::Minute, CronValue::On(DEFAULT_MINUTE));
            proof {
                reveal_strlit("Defaulting time to ");
                reveal_strlit(":");
                reveal_strlit("Defaulting time to 10:00am");
                reveal_strlit("10");
                reveal_strlit("00");
                reveal_strlit("0");
                reveal_strlit("am");
            }
            let (h12, am_pm) = to_am_pm_format(DEFAULT_HOUR);
            let mut c = String::new();
            c.append("Defaulting time to ");
            let hs = u64_to_string(h12);
            c.append(hs.as_str());
            c.append(":");
            // The default minute, zero-padded to two digits.
            let ms = u64_to_string(DEFAULT_MINUTE);
            c.append("0");
            c.append(ms.as_str());
            c.append(am_pm.as_str());
            proof {
                assert(hs@ == dec_digits(10));
                assert(dec_digits(10) =~= dec_digits(1).push('0'));
                assert(dec_digits(1) =~= seq!['1']);
                assert(hs@ =~= "10"@);
                assert(ms@ =~= seq!['0']);
                assert(c@ =~= default_time_comment());
            }
            Some(c)
        } else {
            None
        }
    }

    /// The pattern a fully assigned builder turns into.
    pub open spec fn spec_built_line(self) -> Cronline {
        Cronline {
            line: [
                self.minute->Some_0,
                self.hour->Some_0,
                self.day->Some_0,
                self.month->Some_0,
                self.year->Some_0,
            ],
        }
    }

    /// Turns the builder into the finished pattern; all five units must be
    /// assigned, else the error names the missing units in significance
    /// order.
    pub fn build(self) -> (r: Result<Cronline, AgendaError>)
        ensures
            self.complete() ==> r is Ok,
            r is Ok ==> self.complete(),
            r is Ok ==> r->Ok_0 == self.spec_built_line(),
            r is Ok ==> forall|c: CronColumn|
                #[trigger] r->Ok_0.spec_get(c) == self.spec_slot(c)->Some_0,
            !self.complete() ==> (r matches Err(e) && e matches AgendaError::IncompleteCronline(m)
                && m@ == spec_missing_columns(self)),
    {
        match (self.minute, self.hour, self.day, self.month, self.year) {
            (Some(mi), Some(h), Some(d), Some(mo), Some(y)) => {
                let line = Cronline::from_values([mi, h, d, mo, y]);
                proof {
                    assert forall|c: CronColumn| #[trigger]
                        line.spec_get(c) == self.spec_slot(c)->Some_0 by {
                        match c {
                            CronColumn::Minute => {},
                            CronColumn::Hour => {},
                            CronColumn::Day => {},
                            CronColumn::Month => {},
                            CronColumn::Year => {},
                        }
                    }
                    assert(self.complete()) by {
                        assert forall|c: CronColumn| self.spec_slot(c) is Some by {
                            match c {
                                CronColumn::Minute => {},
                                CronColumn::Hour => {},
                                CronColumn::Day => {},
                                CronColumn::Month => {},
                                CronColumn::Year => {},
                            }
                        }
                    }
                }
                Ok(line)
            },
            _ => {
                let mut missing: Vec<CronColumn> = Vec::new();
                if self.minute.is_none() {
                    missing.push(CronColumn::Minute);
                }
                if self.hour.is_none() {
                    missing.push(CronColumn::Hour);
                }
                if self.day.is_none() {
                    missing.push(CronColumn::Day);
                }
                if self.month.is_none() {
                    missing.push(CronColumn::Month);
                }
                if self.year.is_none() {
                    missing.push(CronColumn::Year);
                }
                proof {
                    assert(!self.complete()) by {
                        if self.minute is None {
                            assert(self.spec_slot(CronColumn::Minute) is None);
                        } else if self.hour is None {
                            assert(self.spec_slot(CronColumn::Hour) is None);
                        } else if self.day is None {
                            assert(self.spec_slot(CronColumn::Day) is None);
                        } else if self.month is None {
                            assert(self.spec_slot(CronColumn::Month) is None);
                        } else {
                            assert(self.spec_slot(CronColumn::Year) is None);
                        }
                    }
                    assert(missing@ =~= spec_missing_columns(self));
                }
                Err(AgendaError::IncompleteCronline(missing))
            },
        }
    }
}

/// The unassigned units of a builder, in significance order.
pub open spec fn spec_missing_columns(b: CronlineBuilder) -> Seq<CronColumn> {
    let s0 = Seq::<CronColumn>::empty();
    let s1 = if b.minute is None {
        s0.push(CronColumn::Minute)
    } else {
        s0
    };
    let s2 = if b.hour is None {
        s1.push(CronColumn::Hour)
    } else {
        s1
    };
    let s3 = if b.day is None {
        s2.push(CronColumn::Day)
    } else {
        s2
    };
    let s4 = if b.month is None {
        s3.push(CronColumn::Month)
    } else {
        s3
    };
    if b.year is None {
        s4.push(CronColumn::Year)
    } else {
        s4
    }
}

/// Autofill does not change a builder whose five units are all assigned:
/// running it once or twice on a completed pattern is the same, and no
/// default time is added.
pub proof fn lemma_autofill_idempotent_on_complete(b: CronlineBuilder, now: Instant)
    requires
        b.complete(),
    ensures
        spec_autofill(b, now) == b,
        spec_autofill(spec_autofill(b, now), now) == spec_autofill(b, now),
        !spec_autofill_defaulted(b, now),
{
    lemma_passes_complete(b, now);
}

/// Both passes leave a fully assigned builder untouched, and its hour stays
/// assigned, so no default time is added either.
proof fn lemma_passes_complete(b: CronlineBuilder, now: Instant)
    requires
        b.complete(),
    ensures
        spec_autofill(b, now) == b,
        !spec_autofill_defaulted(b, now),
{
    let nl = Cronline::spec_from_time(now);
    assert(b.spec_slot(CronColumn::Minute) is Some);
    assert(b.spec_slot(CronColumn::Hour) is Some);
    assert(b.spec_slot(CronColumn::Day) is Some);
    assert(b.spec_slot(CronColumn::Month) is Some);
    assert(b.spec_slot(CronColumn::Year) is Some);
    assert forall|rank: int, open: bool| 0 <= rank <= 5 implies #[trigger] spec_pass_wildcards(
        b,
        rank,
        open,
    ) == b by {
        lemma_pass_wildcards_complete(b, rank, open);
    }
    assert forall|rank: int| rank <= 4 implies #[trigger] spec_pass_now(b, nl, rank) == b by {
        lemma_pass_now_complete(b, nl, rank);
    }
    assert(spec_pass_wildcards(b, 0, false) == b);
    assert(spec_pass_now(b, nl, 4) == b);
    assert(b.hour is Some);
}

proof fn lemma_pass_wildcards_complete(b: CronlineBuilder, rank: int, open: bool)
    requires
        b.complete(),
        0 <= rank <= 5,
    ensures
        spec_pass_wildcards(b, rank, open) == b,
    decreases 5 - rank,
{
    if rank < 5 {
        let col = CronColumn::spec_from_rank(rank);
        assert(b.spec_slot(col) is Some);
        match b.spec_slot(col) {
            Option::None => {},
            Option::Some(CronValue::Every) => {
                lemma_pass_wildcards_complete(b, rank + 1, true);
            },
            Option::Some(CronValue::On(_)) => {
                if !open {
                    lemma_pass_wildcards_complete(b, rank + 1, false);
                }
            },
        }
    }
}

proof fn lemma_pass_now_complete(b: CronlineBuilder, nl: Cronline, rank: int)
    requires
        b.complete(),
        rank <= 4,
    ensures
        spec_pass_now(b, nl, rank) == b,
    decreases rank + 1,
{
    if rank >= 0 {
        let col = CronColumn::spec_from_rank(rank);
        assert(b.spec_slot(col) is Some);
        match b.spec_slot(col) {
            Option::None => {},
            Option::Some(CronValue::On(_)) => {
                lemma_pass_now_complete(b, nl, rank - 1);
            },
            Option::Some(CronValue::Every) => {},
        }
    }
}

} // verus!
