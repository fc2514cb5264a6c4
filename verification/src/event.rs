//! A scheduled event and the exact next-occurrence search: the earliest
//! calendar-valid instant strictly after a reference instant that satisfies
//! the event's pattern, searched depth-first in construction order (year,
//! month, day, hour, minute) with ascending candidates, over a bounded
//! five-year horizon for a wildcard year.

use vstd::prelude::*;

use crate::cron::{CronColumn, CronValue, Cronline};
use crate::instant::{Instant, lemma_key_lt_iff_lex, lex_lt, MAX_YEAR};

verus! {

/// A live scheduled event: when it fires, what it says, and an optional tag.
#[derive(PartialEq, Eq, Debug)]
pub struct AgendaEvent {
    pub cronline: Cronline,
    pub text: String,
    pub tag: Option<String>,
}

/// The unit chosen at a level of the search, in construction order:
/// level 0 is the year, level 4 the minute.
pub open spec fn construction_col(level: int) -> CronColumn {
    if level == 0 {
        CronColumn::Year
    } else if level == 1 {
        CronColumn::Month
    } else if level == 2 {
        CronColumn::Day
    } else if level == 3 {
        CronColumn::Hour
    } else {
        CronColumn::Minute
    }
}

/// The instant's component for a construction level.
pub open spec fn cfield(t: Instant, level: int) -> u64 {
    Cronline::instant_unit(t, construction_col(level))
}

/// The instant with the component of one construction level replaced.
pub open spec fn spec_with_cfield(t: Instant, level: int, v: u64) -> Instant {
    if level == 0 {
        Instant { year: v, ..t }
    } else if level == 1 {
        Instant { month: v, ..t }
    } else if level == 2 {
        Instant { day: v, ..t }
    } else if level == 3 {
        Instant { hour: v, ..t }
    } else {
        Instant { minute: v, ..t }
    }
}

/// Enumeration bounds for a wildcard unit: years are searched over a
/// five-year horizon from the reference instant, the other units over their
/// natural ranges.
pub open spec fn spec_range_lo(now: Instant, col: CronColumn) -> u64 {
    match col {
        CronColumn::Year => now.year,
        CronColumn::Month => 1,
        CronColumn::Day => 1,
        CronColumn::Hour => 0,
        CronColumn::Minute => 0,
    }
}

/// Upper enumeration bound for a wildcard unit.
pub open spec fn spec_range_hi(now: Instant, col: CronColumn) -> int {
    match col {
        CronColumn::Year => now.year + 4,
        CronColumn::Month => 12,
        CronColumn::Day => 31,
        CronColumn::Hour => 23,
        CronColumn::Minute => 59,
    }
}

/// The candidate values the search tries for a wildcard unit.
pub fn get_search_range(now: &Instant, col: CronColumn) -> (r: (u64, u64))
    requires
        now.valid(),
    ensures
        r.0 == spec_range_lo(*now, col),
        r.1 == spec_range_hi(*now, col),
{
    match col {
        CronColumn::Year => (now.year, now.year + 4),
        CronColumn::Month => (1, 12),
        CronColumn::Day => (1, 31),
        CronColumn::Hour => (0, 23),
        CronColumn::Minute => (0, 59),
    }
}

/// An occurrence of a pattern after `now`: a calendar-valid instant that
/// matches the pattern, lies strictly after `now`, and, when the year is a
/// wildcard, falls within the five-year search horizon.
pub open spec fn is_occurrence(cl: Cronline, now: Instant, t: Instant) -> bool {
    &&& t.valid()
    &&& cl.spec_matches(t)
    &&& t.key() > now.key()
    &&& (cl.spec_get(CronColumn::Year) is Every ==> now.year <= t.year <= now.year + 4)
}

/// Whether `t` carries the first `level` construction components of `p`.
pub open spec fn extends_prefix(t: Instant, p: Instant, level: int) -> bool {
    forall|i: int| 0 <= i < level ==> cfield(t, i) == cfield(p, i)
}

/// A chosen component conforms to the pattern: it equals a fixed unit's
/// value, or lies within the enumeration bounds of a wildcard unit.
pub open spec fn conforms(cl: Cronline, now: Instant, level: int, v: u64) -> bool {
    match cl.spec_get(construction_col(level)) {
        CronValue::On(x) => v == x,
        CronValue::Every => spec_range_lo(now, construction_col(level)) <= v <= spec_range_hi(
            now,
            construction_col(level),
        ),
    }
}

/// All components chosen so far conform to the pattern.
pub open spec fn conforms_prefix(cl: Cronline, now: Instant, p: Instant, level: int) -> bool {
    forall|i: int| 0 <= i < level ==> conforms(cl, now, i, cfield(#[trigger] construction_witness(p, i), i))
}

/// Identity helper used as a quantifier trigger over prefix positions.
pub open spec fn construction_witness(p: Instant, i: int) -> Instant {
    p
}

/// Two valid instants that agree on the components before a level and
/// differ at it in favour of the first come in that chronological order.
proof fn lemma_prefix_order(t1: Instant, t2: Instant, level: int)
    requires
        t1.valid(),
        t2.valid(),
        0 <= level < 5,
        forall|i: int| 0 <= i < level ==> cfield(t1, i) == cfield(t2, i),
        cfield(t1, level) < cfield(t2, level),
    ensures
        t1.key() < t2.key(),
{
    assert forall|i: int| 0 <= i < level implies cfield(t1, i) == cfield(t2, i) by {}
    if level >= 1 {
        assert(cfield(t1, 0) == cfield(t2, 0));
    }
    if level >= 2 {
        assert(cfield(t1, 1) == cfield(t2, 1));
    }
    if level >= 3 {
        assert(cfield(t1, 2) == cfield(t2, 2));
    }
    if level >= 4 {
        assert(cfield(t1, 3) == cfield(t2, 3));
    }
    assert(lex_lt(t1, t2));
    lemma_key_lt_iff_lex(t1, t2);
}

/// Whether one unit of a pattern accepts the instant's component.
fn col_fires(cl: &Cronline, col: CronColumn, now: &Instant) -> (r: bool)
    ensures
        r == (cl.spec_get(col) == CronValue::Every || cl.spec_get(col) == CronValue::On(
            Cronline::instant_unit(*now, col),
        )),
{
    let unit = match col {
        CronColumn::Minute => now.minute,
        CronColumn::Hour => now.hour,
        CronColumn::Day => now.day,
        CronColumn::Month => now.month,
        CronColumn::Year => now.year,
    };
    match cl.get(col) {
        CronValue::Every => true,
        CronValue::On(v) => v == unit,
    }
}

impl AgendaEvent {
    /// Whether this event fires at the given instant: every unit of its
    /// pattern is a wildcard or equals the instant's component.
    pub fn check_fires(&self, now: &Instant) -> (r: bool)
        ensures
            r == self.cronline.spec_matches(*now),
    {
        let r = col_fires(&self.cronline, CronColumn::Minute, now) && col_fires(
            &self.cronline,
            CronColumn::Hour,
            now,
        ) && col_fires(&self.cronline, CronColumn::Day, now) && col_fires(
            &self.cronline,
            CronColumn::Month,
            now,
        ) && col_fires(&self.cronline, CronColumn::Year, now);
        proof {
            if r {
                assert forall|c: CronColumn|
                    #![trigger self.cronline.spec_get(c)]
                    self.cronline.spec_get(c) == CronValue::Every || self.cronline.spec_get(c)
                        == CronValue::On(Cronline::instant_unit(*now, c)) by {
                    match c {
                        CronColumn::Minute => {},
                        CronColumn::Hour => {},
                        CronColumn::Day => {},
                        CronColumn::Month => {},
                        CronColumn::Year => {},
                    }
                }
            }
        }
        r
    }

    /// The earliest calendar-valid instant strictly after `now` that
    /// satisfies this event's pattern, or nothing when no such instant
    /// exists within the search horizon (the event can never fire again).
    pub fn get_next_occurence(&self, now: &Instant) -> (r: Option<Instant>)
        requires
            now.valid(),
        ensures
            r is Some ==> is_occurrence(self.cronline, *now, r->Some_0) && (forall|t2: Instant|
                is_occurrence(self.cronline, *now, t2) ==> r->Some_0.key() <= t2.key()),
            r is None ==> forall|t2: Instant| !is_occurrence(self.cronline, *now, t2),
    {
        let r = search_level(&self.cronline, now, now, 0);
        proof {
            if r is Some {
                assert forall|t2: Instant| is_occurrence(self.cronline, *now, t2) implies r->Some_0.key()
                    <= t2.key() by {
                    assert(extends_prefix(t2, *now, 0));
                }
            } else {
                assert forall|t2: Instant| !is_occurrence(self.cronline, *now, t2) by {
                    assert(extends_prefix(t2, *now, 0));
                }
            }
        }
        r
    }
}

/// One level of the depth-first search: the components of `partial` before
/// `level` are already chosen; tries each remaining assignment in ascending
/// construction order and returns the earliest occurrence extending the
/// prefix, or nothing when no occurrence extends it.
fn search_level(cl: &Cronline, now: &Instant, partial: &Instant, level: usize) -> (r: Option<
    Instant,
>)
    requires
        now.valid(),
        level <= 5,
        conforms_prefix(*cl, *now, *partial, level as int),
    ensures
        r is Some ==> is_occurrence(*cl, *now, r->Some_0) && extends_prefix(
            r->Some_0,
            *partial,
            level as int,
        ) && (forall|t2: Instant|
            is_occurrence(*cl, *now, t2) && extends_prefix(t2, *partial, level as int)
                ==> r->Some_0.key() <= t2.key()),
        r is None ==> forall|t2: Instant|
            !(is_occurrence(*cl, *now, t2) && extends_prefix(t2, *partial, level as int)),
    decreases 5 - level,
{
    if level == 5 {
        let t = *partial;
        if t.check_valid() && now.is_before(&t) {
            proof {
                assert forall|c: CronColumn|
                    #![trigger cl.spec_get(c)]
                    cl.spec_get(c) == CronValue::Every || cl.spec_get(c) == CronValue::On(
                        Cronline::instant_unit(t, c),
                    ) by {
                    let lvl: int = match c {
                        CronColumn::Year => 0,
                        CronColumn::Month => 1,
                        CronColumn::Day => 2,
                        CronColumn::Hour => 3,
                        CronColumn::Minute => 4,
                    };
                    assert(conforms(*cl, *now, lvl, cfield(construction_witness(t, lvl), lvl)));
                }
                if cl.spec_get(CronColumn::Year) is Every {
                    assert(conforms(*cl, *now, 0, cfield(construction_witness(t, 0), 0)));
                }
                assert(is_occurrence(*cl, *now, t));
                assert forall|t2: Instant|
                    is_occurrence(*cl, *now, t2) && extends_prefix(t2, *partial, 5) implies t.key()
                    <= t2.key() by {
                    assert(cfield(t2, 0) == cfield(t, 0));
                    assert(cfield(t2, 1) == cfield(t, 1));
                    assert(cfield(t2, 2) == cfield(t, 2));
                    assert(cfield(t2, 3) == cfield(t, 3));
                    assert(cfield(t2, 4) == cfield(t, 4));
                    assert(t2 == t);
                }
            }
            Some(t)
        } else {
            proof {
                assert forall|t2: Instant|
                    !(is_occurrence(*cl, *now, t2) && extends_prefix(t2, *partial, 5)) by {
                    if is_occurrence(*cl, *now, t2) && extends_prefix(t2, *partial, 5) {
                        assert(cfield(t2, 0) == cfield(t, 0));
                        assert(cfield(t2, 1) == cfield(t, 1));
                        assert(cfield(t2, 2) == cfield(t, 2));
                        assert(cfield(t2, 3) == cfield(t, 3));
                        assert(cfield(t2, 4) == cfield(t, 4));
                        assert(t2 == t);
                    }
                }
            }
            None
        }
    } else {
        let col = match level {
            0 => CronColumn::Year,
            1 => CronColumn::Month,
            2 => CronColumn::Day,
            3 => CronColumn::Hour,
            _ => CronColumn::Minute,
        };
        assert(col == construction_col(level as int));
        match cl.get(col) {
            CronValue::On(v) => {
                let next = with_cfield(partial, level, v);
                proof {
                    lemma_conforms_step(*cl, *now, *partial, level as int, v, next);
                }
                let r = search_level(cl, now, &next, level + 1);
                proof {
                    match r {
                        Option::Some(t) => {
                            lemma_extends_shrink(t, next, *partial, level as int);
                            assert forall|t2: Instant|
                                is_occurrence(*cl, *now, t2) && extends_prefix(
                                    t2,
                                    *partial,
                                    level as int,
                                ) implies t.key() <= t2.key() by {
                                assert(Cronline::instant_unit(t2, col) == v);
                                assert(cfield(t2, level as int) == cfield(next, level as int));
                                assert(extends_prefix(t2, next, level as int + 1));
                            }
                        },
                        Option::None => {
                            assert forall|t2: Instant|
                                !(is_occurrence(*cl, *now, t2) && extends_prefix(
                                    t2,
                                    *partial,
                                    level as int,
                                )) by {
                                if is_occurrence(*cl, *now, t2) && extends_prefix(
                                    t2,
                                    *partial,
                                    level as int,
                                ) {
                                    assert(Cronline::instant_unit(t2, col) == v);
                                    assert(cfield(t2, level as int) == cfield(
                                        next,
                                        level as int,
                                    ));
                                    assert(extends_prefix(t2, next, level as int + 1));
                                }
                            }
                        },
                    }
                }
                r
            },
            CronValue::Every => {
                let (lo, hi) = get_search_range(now, col);
                let mut v = lo;
                loop
                    invariant
                        now.valid(),
                        level < 5,
                        col == construction_col(level as int),
                        cl.spec_get(col) is Every,
                        conforms_prefix(*cl, *now, *partial, level as int),
                        lo == spec_range_lo(*now, col),
                        hi == spec_range_hi(*now, col),
                        lo <= v <= hi + 1,
                        forall|t2: Instant|
                            is_occurrence(*cl, *now, t2) && extends_prefix(
                                t2,
                                *partial,
                                level as int,
                            ) && Cronline::instant_unit(t2, col) < v ==> !is_occurrence(
                                *cl,
                                *now,
                                t2,
                            ),
                    ensures
                        v == hi + 1,
                        forall|t2: Instant|
                            is_occurrence(*cl, *now, t2) && extends_prefix(
                                t2,
                                *partial,
                                level as int,
                            ) && Cronline::instant_unit(t2, col) < v ==> !is_occurrence(
                                *cl,
                                *now,
                                t2,
                            ),
                    decreases hi + 1 - v,
                {
                    if v > hi {
                        break ;
                    }
                    let next = with_cfield(partial, level, v);
                    proof {
                        lemma_conforms_step(*cl, *now, *partial, level as int, v, next);
                    }
                    let r = search_level(cl, now, &next, level + 1);
                    match r {
                        Option::Some(t) => {
                            proof {
                                lemma_extends_shrink(t, next, *partial, level as int);
                                assert(cfield(t, level as int) == v);
                                assert forall|t2: Instant|
                                    is_occurrence(*cl, *now, t2) && extends_prefix(
                                        t2,
                                        *partial,
                                        level as int,
                                    ) implies t.key() <= t2.key() by {
                                    let w = Cronline::instant_unit(t2, col);
                                    if w < v {
                                        assert(!is_occurrence(*cl, *now, t2));
                                    } else if w == v {
                                        assert(cfield(t2, level as int) == cfield(
                                            next,
                                            level as int,
                                        ));
                                        assert(extends_prefix(t2, next, level as int + 1));
                                    } else {
                                        assert(cfield(t, level as int) < cfield(
                                            t2,
                                            level as int,
                                        ));
                                        assert forall|i: int| 0 <= i < level implies cfield(t, i)
                                            == cfield(t2, i) by {
                                            assert(cfield(t, i) == cfield(*partial, i));
                                            assert(cfield(t2, i) == cfield(*partial, i));
                                        }
                                        lemma_prefix_order(t, t2, level as int);
                                    }
                                }
                            }
                            return Some(t);
                        },
                        Option::None => {
                            proof {
                                assert forall|t2: Instant|
                                    is_occurrence(*cl, *now, t2) && extends_prefix(
                                        t2,
                                        *partial,
                                        level as int,
                                    ) && Cronline::instant_unit(t2, col) < v + 1 implies
                                    !is_occurrence(*cl, *now, t2) by {
                                    if is_occurrence(*cl, *now, t2) && extends_prefix(
                                        t2,
                                        *partial,
                                        level as int,
                                    ) {
                                        let w = Cronline::instant_unit(t2, col);
                                        if w == v {
                                            assert(cfield(t2, level as int) == cfield(
                                                next,
                                                level as int,
                                            ));
                                            assert(extends_prefix(t2, next, level as int + 1));
                                            assert(false);
                                        }
                                    }
                                }
                            }
                        },
                    }
                    v = v + 1;
                }
                proof {
                    assert forall|t2: Instant|
                        !(is_occurrence(*cl, *now, t2) && extends_prefix(
                            t2,
                            *partial,
                            level as int,
                        )) by {
                        if is_occurrence(*cl, *now, t2) && extends_prefix(
                            t2,
                            *partial,
                            level as int,
                        ) {
                            let w = Cronline::instant_unit(t2, col);
                            lemma_occurrence_in_range(*cl, *now, t2, level as int);
                            assert(w < v);
                        }
                    }
                }
                None
            },
        }
    }
}

/// Replaces the component of one construction level.
fn with_cfield(t: &Instant, level: usize, v: u64) -> (r: Instant)
    requires
        level < 5,
    ensures
        r == spec_with_cfield(*t, level as int, v),
        cfield(r, level as int) == v,
        forall|i: int| 0 <= i < 5 && i != level ==> cfield(r, i) == cfield(*t, i),
{
    let r = match level {
        0 => Instant { year: v, ..*t },
        1 => Instant { month: v, ..*t },
        2 => Instant { day: v, ..*t },
        3 => Instant { hour: v, ..*t },
        _ => Instant { minute: v, ..*t },
    };
    proof {
        assert forall|i: int| 0 <= i < 5 && i != level implies cfield(r, i) == cfield(*t, i) by {
            assert(cfield(r, 0) == if level == 0 {
                v
            } else {
                t.year
            });
        }
    }
    r
}

/// Choosing a conforming value at the next level keeps the prefix
/// conforming.
proof fn lemma_conforms_step(cl: Cronline, now: Instant, p: Instant, level: int, v: u64, next: Instant)
    requires
        0 <= level < 5,
        conforms_prefix(cl, now, p, level),
        next == spec_with_cfield(p, level, v),
        conforms(cl, now, level, v),
    ensures
        conforms_prefix(cl, now, next, level + 1),
{
    assert forall|i: int| 0 <= i < level + 1 implies conforms(
        cl,
        now,
        i,
        cfield(#[trigger] construction_witness(next, i), i),
    ) by {
        if i < level {
            assert(conforms(cl, now, i, cfield(construction_witness(p, i), i)));
            assert(cfield(next, i) == cfield(p, i));
        } else {
            assert(cfield(next, level) == v);
        }
    }
}

/// A longer shared prefix is also a shorter one.
proof fn lemma_extends_shrink(t: Instant, next: Instant, p: Instant, level: int)
    requires
        0 <= level < 5,
        extends_prefix(t, next, level + 1),
        forall|i: int| 0 <= i < 5 && i != level ==> cfield(next, i) == cfield(p, i),
    ensures
        extends_prefix(t, p, level),
{
}

/// Every occurrence keeps each wildcard unit inside its enumeration range.
proof fn lemma_occurrence_in_range(cl: Cronline, now: Instant, t: Instant, level: int)
    requires
        0 <= level < 5,
        is_occurrence(cl, now, t),
        cl.spec_get(construction_col(level)) is Every,
    ensures
        spec_range_lo(now, construction_col(level)) <= Cronline::instant_unit(
            t,
            construction_col(level),
        ) <= spec_range_hi(now, construction_col(level)),
{
    let col = construction_col(level);
    if col == CronColumn::Day {
        assert(t.day <= 31);
    }
}

} // verus!
